//! A pure snapshot of a directory subtree.
//!
//! The surrounding application reads the filesystem and hands the library a
//! `FsNode` tree: one node per path, children present for the root and for
//! every directory the flattener may descend into.  The library never touches
//! the filesystem itself; every contract about flattening is a statement
//! about the snapshot it was given.

use vstd::prelude::*;
use vstd::string::StrSliceExecFns;

use crate::entry::EntryType;

verus! {

/// One filesystem node in a snapshot: its display facts and, for a
/// directory, the children that were read for it.  A directory whose
/// children were not read (because nothing will descend into it) simply
/// carries an empty `children` vector.
#[derive(Debug)]
pub struct FsNode {
    pub name: String,
    pub path: String,
    pub kind: EntryType,
    pub is_executable: bool,
    pub children: Vec<FsNode>,
}

impl FsNode {
    /// Whether this node is a directory.
    pub open spec fn spec_is_dir(self) -> bool {
        self.kind is Directory
    }

    /// A name beginning with `.` marks the node hidden.
    pub open spec fn spec_is_hidden(self) -> bool {
        self.name@.len() > 0 && self.name@[0] == '.'
    }

    /// Whether this node is a directory, as executable code.
    pub fn is_dir(&self) -> (r: bool)
        ensures
            r == self.spec_is_dir(),
    {
        matches!(self.kind, EntryType::Directory)
    }

    /// Whether this node is hidden, as executable code.
    pub fn is_hidden(&self) -> (r: bool)
        ensures
            r == self.spec_is_hidden(),
    {
        let s = self.name.as_str();
        if s.unicode_len() == 0 {
            false
        } else {
            s.get_char(0) == '.'
        }
    }
}

/// Number of nodes in the subtree rooted at `n`, `n` itself included.
pub open spec fn node_size(n: FsNode) -> nat
    decreases n,
{
    1 + forest_size(n.children@)
}

/// Total number of nodes in a forest.
pub open spec fn forest_size(s: Seq<FsNode>) -> nat
    decreases s,
{
    if s.len() == 0 {
        0
    } else {
        node_size(s[0]) + forest_size(s.drop_first())
    }
}

/// Every node counts at least itself.
pub proof fn lemma_node_size_at_least_one(n: FsNode)
    ensures
        node_size(n) >= 1,
{
}

} // verus!
