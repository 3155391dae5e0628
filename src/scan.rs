//! Which files of the tree a scan indexes, and where the index itself lives.
use vstd::prelude::*;
use crate::index::INDEX_FILE_NAME;
use crate::media::{is_media_extension, media_ext, str_eq};

verus! {

/// Relies on camino's Utf8Path::join (std's PathBuf::push): a relative name is
/// appended after one separator to a base that does not already end in one.
#[verifier::external_body]
fn join_path(base: &str, name: &str) -> (r: String)
    ensures
        base@.len() > 0 && base@.last() != '/' && name@.len() > 0 && name@[0] != '/' ==> r@ == base@
            + "/"@ + name@,
{
    camino::Utf8Path::new(base).join(name).into_string()
}

/// The location of the index file inside the indexed root `data_path`.
pub fn path(data_path: &str) -> (r: String)
    ensures
        data_path@.len() > 0 && data_path@.last() != '/' ==> r@ == data_path@ + "/"@
            + INDEX_FILE_NAME@,
{
    proof {
        reveal_strlit("cstfs.db");
    }
    join_path(data_path, INDEX_FILE_NAME)
}

/// What a scan does with a file it meets.
#[derive(Debug, PartialEq, Eq)]
pub enum FileVerdict {
    /// A media file: it is indexed.
    Index,
    /// The index's own file: skipped silently.
    IndexFile,
    /// A file whose extension is not a media one: skipped with a notice.
    NotMedia,
    /// A file with no extension: skipped with a notice.
    NoExtension,
}

pub open spec fn verdict_of(file_name: Seq<char>, extension: Option<&str>) -> FileVerdict {
    if file_name == INDEX_FILE_NAME@ {
        FileVerdict::IndexFile
    } else {
        match extension {
            None => FileVerdict::NoExtension,
            Some(e) => if media_ext(e@) {
                FileVerdict::Index
            } else {
                FileVerdict::NotMedia
            },
        }
    }
}

/// Classifies a file (not a directory) by its name and its extension.
pub fn classify_file(file_name: &str, extension: Option<&str>) -> (r: FileVerdict)
    ensures
        r == verdict_of(file_name@, extension),
{
    if str_eq(file_name, INDEX_FILE_NAME) {
        FileVerdict::IndexFile
    } else {
        match extension {
            None => FileVerdict::NoExtension,
            Some(e) => if is_media_extension(e) {
                FileVerdict::Index
            } else {
                FileVerdict::NotMedia
            },
        }
    }
}

} // verus!
