//! Which entries of a directory walk are passed over.

use vstd::prelude::*;
use vstd::string::StrSliceExecFns;
use walkdir::DirEntry;

verus! {

/// Declares `walkdir::DirEntry`, an entry met on a directory walk. Nothing
/// inside it is looked at.
#[verifier::external_type_specification]
#[verifier::external_body]
pub struct ExDirEntry(walkdir::DirEntry);

/// The file name of an entry as text, where it is valid Unicode: what
/// `walkdir::DirEntry::file_name` returns, read as a string.
pub uninterp spec fn entry_file_name(entry: DirEntry) -> Option<Seq<char>>;

/// Calls `walkdir::DirEntry::file_name`, which returns the last component of
/// the entry's path (the whole path where it has none) without touching the
/// file system. The name is handed on as text where it is valid Unicode. The
/// contract only names that result; nothing is claimed of what it holds.
#[verifier::external_body]
fn file_name_of(entry: &DirEntry) -> (name: Option<&str>)
    ensures
        match name {
            Some(s) => entry_file_name(*entry) == Some(s@),
            None => entry_file_name(*entry) is None,
        },
{
    entry.file_name().to_str()
}

/// Whether a file name marks its entry as hidden: it is text and begins
/// with a dot.
pub open spec fn is_hidden_name(name: Option<Seq<char>>) -> bool {
    match name {
        Some(s) => s.len() > 0 && s[0] == '.',
        None => false,
    }
}

/// Whether a file name marks its entry as hidden.
pub fn hidden_name(name: Option<&str>) -> (r: bool)
    ensures
        r == is_hidden_name(
            match name {
                Some(s) => Some(s@),
                None => None,
            },
        ),
{
    match name {
        Some(s) => !s.is_empty() && s.get_char(0) == '.',
        None => false,
    }
}

/// Whether a walk passes over `entry`, and over all below it where it is a
/// directory: its file name begins with a dot.
pub fn is_hidden(entry: &DirEntry) -> (r: bool)
    ensures
        r == is_hidden_name(entry_file_name(*entry)),
{
    hidden_name(file_name_of(entry))
}

} // verus!
