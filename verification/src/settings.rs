//! The application's settings and the folder path that is handed to the
//! system's file browser.
use vstd::prelude::*;
use crate::text::{chars_of, replace_all, replace_chars, string_of};

verus! {

broadcast use vstd::string::group_string_axioms;

/// The watched folder and whether the application starts with the system.
#[derive(Clone, Debug, PartialEq, Eq)]
pub struct Settings {
    pub watch_folder: String,
    pub autostart: bool,
}

impl Settings {
    /// The settings used when none are stored: watch the downloads folder,
    /// start with the system.
    pub fn with_defaults(download_dir: String) -> (s: Settings)
        ensures
            s.watch_folder@ == download_dir@,
            s.autostart,
    {
        Settings { watch_folder: download_dir, autostart: true }
    }
}

/// A doubled backslash.
pub open spec fn doubled_backslash() -> Seq<char> {
    seq!['\\', '\\']
}

/// `path` with each doubled backslash, from the left, made single.
pub open spec fn cleaned_folder_path(path: Seq<char>) -> Seq<char> {
    replace_all(path, doubled_backslash(), seq!['\\'])
}

/// `path` with each doubled backslash, from the left, made single.
pub fn clean_folder_path(path: &str) -> (clean: String)
    ensures
        clean@ == cleaned_folder_path(path@),
{
    let pat = chars_of("\\\\");
    let rep = chars_of("\\");
    proof {
        reveal_strlit("\\\\");
        reveal_strlit("\\");
    }
    assert(pat@ =~= doubled_backslash());
    assert(rep@ =~= seq!['\\']);
    let p = chars_of(path);
    let r = replace_chars(&p, &pat, &rep);
    string_of(&r)
}

} // verus!
