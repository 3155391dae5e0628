use cstfs::resolve::{ends_prompt, parse_command, read_command, resolve_duplicate, DuplicateCommand, Resolution};

fn s(x: &str) -> String {
    x.to_string()
}

#[test]
fn commands_are_read_trimmed_and_case_blind() {
    assert_eq!(read_command("\n"), DuplicateCommand::RemoveNew);
    assert_eq!(read_command(" Y \n"), DuplicateCommand::RemoveNew);
    assert_eq!(read_command("n\n"), DuplicateCommand::Quit);
    assert_eq!(read_command("S"), DuplicateCommand::Skip);
    assert_eq!(read_command("\tO\n"), DuplicateCommand::KeepNew);
    assert_eq!(read_command("?"), DuplicateCommand::Help);
    assert_eq!(read_command("yes"), DuplicateCommand::Invalid);
    assert_eq!(parse_command("Y"), DuplicateCommand::Invalid);
    assert_eq!(parse_command(""), DuplicateCommand::RemoveNew);
}

#[test]
fn each_command_has_its_resolution() {
    let (o, n, h) = (s("old.jpg"), s("new.jpg"), s("h"));
    assert_eq!(resolve_duplicate(DuplicateCommand::RemoveNew, &o, &n, &h), Resolution::RemoveFile { path: s("new.jpg") });
    assert_eq!(resolve_duplicate(DuplicateCommand::Quit, &o, &n, &h), Resolution::Quit);
    assert_eq!(resolve_duplicate(DuplicateCommand::Skip, &o, &n, &h), Resolution::Unsupported);
    assert_eq!(
        resolve_duplicate(DuplicateCommand::KeepNew, &o, &n, &h),
        Resolution::ReplaceOld { remove: s("old.jpg"), rebind: s("new.jpg"), hash: s("h") }
    );
    assert_eq!(resolve_duplicate(DuplicateCommand::Help, &o, &n, &h), Resolution::ShowHelp);
    assert_eq!(resolve_duplicate(DuplicateCommand::Invalid, &o, &n, &h), Resolution::ShowInvalid);
}

#[test]
fn only_help_and_invalid_ask_again() {
    assert!(!ends_prompt(&Resolution::ShowHelp));
    assert!(!ends_prompt(&Resolution::ShowInvalid));
    assert!(ends_prompt(&Resolution::Quit));
    assert!(ends_prompt(&Resolution::Unsupported));
    assert!(ends_prompt(&Resolution::RemoveFile { path: s("p") }));
}
