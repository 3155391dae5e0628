//! The decisions of duplicate resolution: what the operator's answer to a
//! duplicate found while building the index asks for.
use vstd::prelude::*;
use vstd::string::*;
use crate::media::str_eq;

verus! {

/// An answer to the duplicate prompt.
#[derive(Debug, PartialEq, Eq)]
pub enum DuplicateCommand {
    /// Empty or `y`: delete the new file, keep the index.
    RemoveNew,
    /// `n`: abort the whole run.
    Quit,
    /// `s`: put the file on an ignore list, which does not exist yet.
    Skip,
    /// `o`: delete the old file and point the index at the new one.
    KeepNew,
    /// `?`: show the commands.
    Help,
    /// Anything else.
    Invalid,
}

pub open spec fn command_of(t: Seq<char>) -> DuplicateCommand {
    if t == ""@ || t == "y"@ {
        DuplicateCommand::RemoveNew
    } else if t == "n"@ {
        DuplicateCommand::Quit
    } else if t == "s"@ {
        DuplicateCommand::Skip
    } else if t == "o"@ {
        DuplicateCommand::KeepNew
    } else if t == "?"@ {
        DuplicateCommand::Help
    } else {
        DuplicateCommand::Invalid
    }
}

/// Reads a command from a line that is already trimmed and lower-cased.
pub fn parse_command(normalized: &str) -> (r: DuplicateCommand)
    ensures
        r == command_of(normalized@),
{
    if str_eq(normalized, "") || str_eq(normalized, "y") {
        DuplicateCommand::RemoveNew
    } else if str_eq(normalized, "n") {
        DuplicateCommand::Quit
    } else if str_eq(normalized, "s") {
        DuplicateCommand::Skip
    } else if str_eq(normalized, "o") {
        DuplicateCommand::KeepNew
    } else if str_eq(normalized, "?") {
        DuplicateCommand::Help
    } else {
        DuplicateCommand::Invalid
    }
}

/// `s` without the leading and trailing whitespace.
pub uninterp spec fn trimmed(s: Seq<char>) -> Seq<char>;

/// `s` in lower case.
pub uninterp spec fn lowercased(s: Seq<char>) -> Seq<char>;

/// Relies on str::trim: the result depends on the characters alone.
#[verifier::external_body]
fn trim(s: &str) -> (r: &str)
    ensures
        r@ == trimmed(s@),
{
    s.trim()
}

/// Relies on str::to_lowercase: the result depends on the characters alone.
#[verifier::external_body]
fn lowercase(s: &str) -> (r: String)
    ensures
        r@ == lowercased(s@),
{
    s.to_lowercase()
}

/// Reads a command from one line of operator input, ignoring surrounding
/// whitespace and case.
pub fn read_command(line: &str) -> (r: DuplicateCommand)
    ensures
        r == command_of(lowercased(trimmed(line@))),
{
    let t = trim(line);
    let l = lowercase(t);
    parse_command(l.as_str())
}

/// What resolving a duplicate asks of the caller.
#[derive(Debug, PartialEq, Eq)]
pub enum Resolution {
    /// Delete the file at `path` (not found counts as deleted); done.
    RemoveFile { path: String },
    /// Stop the run with a failure status.
    Quit,
    /// The ignore list is not implemented: fail loudly.
    Unsupported,
    /// Delete the file at `remove`, then rebind `hash` to `rebind`; done.
    ReplaceOld { remove: String, rebind: String, hash: String },
    /// Show the commands and ask again.
    ShowHelp,
    /// Say the command was not understood and ask again.
    ShowInvalid,
}

/// The step that `command` asks for on a duplicate `path_new` of the indexed
/// `path_old`, whose content hashes to `hash`.
pub fn resolve_duplicate(command: DuplicateCommand, path_old: &String, path_new: &String, hash: &String) -> (r: Resolution)
    ensures
        command is RemoveNew ==> (r matches Resolution::RemoveFile { path } && path@ == path_new@),
        command is Quit ==> r is Quit,
        command is Skip ==> r is Unsupported,
        command is KeepNew ==> (r matches Resolution::ReplaceOld { remove, rebind, hash: h }
            && remove@ == path_old@ && rebind@ == path_new@ && h@ == hash@),
        command is Help ==> r is ShowHelp,
        command is Invalid ==> r is ShowInvalid,
{
    match command {
        DuplicateCommand::RemoveNew => Resolution::RemoveFile { path: path_new.clone() },
        DuplicateCommand::Quit => Resolution::Quit,
        DuplicateCommand::Skip => Resolution::Unsupported,
        DuplicateCommand::KeepNew => Resolution::ReplaceOld {
            remove: path_old.clone(),
            rebind: path_new.clone(),
            hash: hash.clone(),
        },
        DuplicateCommand::Help => Resolution::ShowHelp,
        DuplicateCommand::Invalid => Resolution::ShowInvalid,
    }
}

/// Whether the prompt is answered after `r`, or asks again.
pub fn ends_prompt(r: &Resolution) -> (b: bool)
    ensures
        b == !(r is ShowHelp || r is ShowInvalid),
{
    match r {
        Resolution::ShowHelp | Resolution::ShowInvalid => false,
        _ => true,
    }
}

} // verus!
