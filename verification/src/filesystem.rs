//! Typed results of the filesystem commands. The reads and writes
//! themselves happen outside, after the sandbox validator has admitted
//! the path; the functions here shape what the caller gets back.

use vstd::prelude::*;
use vstd::string::StringExecFns;

use crate::strutil::concat_str;

verus! {

/// One entry of a directory listing.
pub struct FileEntry {
    pub path: String,
    pub name: String,
    pub entry_type: String,
}

/// Builds a listing entry: the name falls back to a fixed placeholder
/// when it cannot be read as text, and the type names a directory or a
/// file.
pub fn make_file_entry(path: String, name: Option<String>, is_dir: bool) -> (r: FileEntry)
    ensures
        r.path@ == path@,
        name matches Some(n) ==> r.name@ == n@,
        name is None ==> r.name@ == "unknown"@,
        is_dir ==> r.entry_type@ == "directory"@,
        !is_dir ==> r.entry_type@ == "file"@,
{
    let name = match name {
        Some(n) => n,
        None => "unknown".to_owned(),
    };
    let entry_type = if is_dir {
        "directory".to_owned()
    } else {
        "file".to_owned()
    };
    FileEntry { path, name, entry_type }
}

/// The error text when a validated path turns out not to be a
/// directory.
pub fn not_directory_message(path: &str) -> (r: String)
    ensures
        r@ == "Path is not a directory: "@ + path@,
{
    concat_str("Path is not a directory: ", path)
}

/// The error text when a validated path turns out not to be a file.
pub fn not_file_message(path: &str) -> (r: String)
    ensures
        r@ == "Path is not a file: "@ + path@,
{
    concat_str("Path is not a file: ", path)
}

} // verus!
