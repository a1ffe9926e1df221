//! Filtering of filesystem change notifications.
//!
//! The watcher subscription itself runs outside the library; what arrives
//! here is the kind of a raw event and the file name of an affected path.
//! These functions decide which notifications survive: only creations,
//! modifications and removals, and none whose file name matches the ignore
//! policy for editor temp files, VCS internals and OS marker files.

use vstd::prelude::*;

use crate::strutil::{is_substring, match_at, str_contains, str_ends_with, str_eq, str_starts_with};

verus! {

/// The kind of a change notification, normalized from the platform's
/// event taxonomy.
#[derive(Debug, Clone, Copy, PartialEq, Eq, Structural)]
pub enum ChangeKind {
    Create,
    Modify,
    Remove,
    Other,
}

/// Only creations, modifications and removals are worth reacting to.
pub fn should_process_event(kind: &ChangeKind) -> (r: bool)
    ensures
        r == (*kind is Create || *kind is Modify || *kind is Remove),
{
    matches!(kind, ChangeKind::Create | ChangeKind::Modify | ChangeKind::Remove)
}

/// `s` ends with `p`.
pub open spec fn ends_with(s: Seq<char>, p: Seq<char>) -> bool {
    p.len() <= s.len() && match_at(s, p, s.len() - p.len())
}

/// A file name the watcher ignores: editor swap and backup files, lock
/// files of interactive editors, OS marker files, generic temp files, and
/// anything inside a version-control directory.
pub open spec fn spec_should_ignore(name: Seq<char>) -> bool {
    ||| ends_with(name, ".swp"@)
    ||| ends_with(name, ".swo"@)
    ||| ends_with(name, "~"@)
    ||| match_at(name, ".#"@, 0)
    ||| name == ".DS_Store"@
    ||| ends_with(name, ".tmp"@)
    ||| is_substring(name, ".git"@)
}

/// The ignore policy over a file name, as executable code.
pub fn should_ignore_path(name: &str) -> (r: bool)
    ensures
        r == spec_should_ignore(name@),
{
    if str_ends_with(name, ".swp") {
        return true;
    }
    if str_ends_with(name, ".swo") {
        return true;
    }
    if str_ends_with(name, "~") {
        return true;
    }
    if str_starts_with(name, ".#") {
        return true;
    }
    if str_eq(name, ".DS_Store") {
        return true;
    }
    if str_ends_with(name, ".tmp") {
        return true;
    }
    if str_contains(name, ".git") {
        return true;
    }
    false
}

} // verus!
