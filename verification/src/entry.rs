//! The entry model: display-relevant facts about one filesystem node.

use vstd::prelude::*;

verus! {

/// Classification of a filesystem node.  A symlink is reported as `Symlink`
/// regardless of what it points to.
#[derive(Debug, Clone, Copy, PartialEq, Eq, Structural)]
pub enum EntryType {
    File,
    Directory,
    Symlink,
}

/// One row of the visible sequence: a filesystem node together with the
/// display state it carries (depth of indentation, expansion flag).
#[derive(Debug, Clone)]
pub struct FileEntry {
    pub name: String,
    pub path: String,
    pub entry_type: EntryType,
    pub is_hidden: bool,
    pub is_expanded: bool,
    pub depth: usize,
    pub is_executable: bool,
}

/// Mathematical model of a `FileEntry`: the same facts over sequences of
/// characters and unbounded integers.
pub struct EntryModel {
    pub name: Seq<char>,
    pub path: Seq<char>,
    pub entry_type: EntryType,
    pub is_hidden: bool,
    pub is_expanded: bool,
    pub depth: int,
    pub is_executable: bool,
}

impl View for FileEntry {
    type V = EntryModel;

    open spec fn view(&self) -> EntryModel {
        EntryModel {
            name: self.name@,
            path: self.path@,
            entry_type: self.entry_type,
            is_hidden: self.is_hidden,
            is_expanded: self.is_expanded,
            depth: self.depth as int,
            is_executable: self.is_executable,
        }
    }
}

/// The models of a sequence of entries, in order.
pub open spec fn entry_models(s: Seq<FileEntry>) -> Seq<EntryModel> {
    s.map_values(|e: FileEntry| e@)
}

impl FileEntry {
    /// Whether this entry is a directory (a symlink to a directory is not).
    pub fn is_dir(&self) -> (r: bool)
        ensures
            r == (self.entry_type is Directory),
    {
        matches!(self.entry_type, EntryType::Directory)
    }
}

} // verus!
