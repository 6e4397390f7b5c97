//! Where the list is kept: a file in a directory of its own under the
//! user's data directory.

use vstd::prelude::*;
use vstd::string::*;

verus! {

/// The directory that holds the file: `todo` under the configured data
/// directory `base` if there is one, else `.local/share/todo` under the home
/// directory `home`. Without either there is none.
pub open spec fn data_dir_text(base: Option<Seq<char>>, home: Option<Seq<char>>) -> Option<
    Seq<char>,
> {
    match (base, home) {
        (Some(b), _) => Some(b + "/todo"@),
        (None, Some(h)) => Some(h + "/.local/share/todo"@),
        (None, None) => None,
    }
}

/// The path of the file in the directory `dir`.
pub open spec fn todo_path_text(dir: Seq<char>) -> Seq<char> {
    dir + "/todo_list.txt"@
}

/// The texts of an optional string.
pub open spec fn optional_text(s: Option<&str>) -> Option<Seq<char>> {
    match s {
        Some(t) => Some(t@),
        None => None,
    }
}

/// The directory that holds the file, from the configured data directory
/// (the value of `XDG_DATA_HOME`, if set) and the home directory (the value
/// of `HOME`, if set). `None` if neither is given.
pub fn data_dir(base: Option<&str>, home: Option<&str>) -> (dir: Option<String>)
    ensures
        match dir {
            Some(d) => data_dir_text(optional_text(base), optional_text(home)) == Some(d@),
            None => data_dir_text(optional_text(base), optional_text(home)) is None,
        },
{
    match base {
        Some(b) => Some(String::from_str(b).concat("/todo")),
        None => match home {
            Some(h) => Some(String::from_str(h).concat("/.local/share/todo")),
            None => None,
        },
    }
}

/// The path of the file in the directory `dir`.
pub fn todo_path(dir: &str) -> (path: String)
    ensures
        path@ == todo_path_text(dir@),
{
    String::from_str(dir).concat("/todo_list.txt")
}

} // verus!
