//! The expansion-state reconciler: the live visible sequence, the cursor,
//! search state, the recency tracker and the preview cache, with every
//! operation's effect on them stated and proved.
//!
//! Filesystem reads happen outside: operations that rebuild the sequence
//! take a fresh `FsNode` snapshot as an argument; operations that depend on
//! the clock take the current instant in milliseconds.

use vstd::prelude::*;
use vstd::string::StringExecFns;

use crate::entry::{entry_models, FileEntry};
use crate::flatten::{build_tree, build_tree_fully_expanded, cap_take, spec_build_tree, spec_build_tree_all};
use crate::node::{forest_size, FsNode};
use crate::pathmap::PathMap;
use crate::preview::PreviewData;
use crate::recency::{fresh_at, swept, RecencyTracker};
use crate::strutil::{is_substring, lower_of, lowercase, parent_of, parent_path, str_contains};


verus! {

/// What the interface is currently doing.
#[derive(Debug, Clone, PartialEq, Eq, Structural)]
pub enum AppMode {
    Normal,
    Search,
    Input(InputKind),
    Confirm(ConfirmKind),
    Help,
}

/// What a line of typed input will be used for.
#[derive(Debug, Clone, PartialEq, Eq, Structural)]
pub enum InputKind {
    CreateFile,
    CreateDir,
    Rename,
    ConfirmDelete,
}

/// What a yes/no confirmation will decide.
#[derive(Debug, Clone, PartialEq, Eq, Structural)]
pub enum ConfirmKind {
    Delete,
    Overwrite,
}

/// A path held for a later paste, cut or copied.
#[derive(Debug, Clone)]
pub struct ClipboardEntry {
    pub path: String,
    pub is_cut: bool,
}

/// How long a status message stays on screen, in milliseconds.
pub const STATUS_TTL_MILLIS: u64 = 3000;

/// Most entries a bulk expansion will produce.
pub const EXPAND_ALL_CAP: usize = 5000;

/// The paths of the expanded entries of a visible sequence, in sequence
/// order.  This is the expansion set that a rebuild receives.
pub open spec fn expanded_paths_of(s: Seq<FileEntry>) -> Seq<String>
    decreases s.len(),
{
    if s.len() == 0 {
        Seq::<String>::empty()
    } else {
        expanded_paths_of(s.drop_last()) + if s.last().is_expanded {
            seq![s.last().path]
        } else {
            Seq::<String>::empty()
        }
    }
}

/// A cursor clamped to the last valid index of a sequence of `len`
/// entries: unchanged while in range, else the last index, zero when the
/// sequence is empty.
pub open spec fn clamped_cursor(cursor: int, len: int) -> int {
    if cursor < len {
        cursor
    } else if len == 0 {
        0
    } else {
        len - 1
    }
}

/// The whole state of the interactive view.
#[derive(Debug)]
pub struct App {
    pub entries: Vec<FileEntry>,
    pub cursor: usize,
    pub mode: AppMode,
    pub show_hidden: bool,
    pub root_path: String,
    pub input_buffer: String,
    pub search_query: String,
    pub search_results: Vec<usize>,
    pub search_index: usize,
    pub clipboard: Option<ClipboardEntry>,
    pub status_message: Option<(String, u64)>,
    pub should_quit: bool,
    pub pending_editor_file: Option<String>,
    pub last_click: Option<(u64, usize)>,
    pub recent_changes: RecencyTracker,
    pub watcher_active: bool,
    pub preview_cache: PathMap<PreviewData>,
    pub show_preview: bool,
    pub preview_scroll: usize,
}

impl App {
    /// The two path-keyed stores keep one record per path.
    pub open spec fn wf(&self) -> bool {
        self.recent_changes.wf() && self.preview_cache.wf()
    }

    /// A fresh view rooted at `root_path`: empty sequence, cursor at the
    /// top, normal mode, hidden files hidden, nothing tracked or cached.
    pub fn new(root_path: String) -> (r: App)
        ensures
            r.wf(),
            r.entries@ =~= Seq::<FileEntry>::empty(),
            r.cursor == 0,
            r.mode == AppMode::Normal,
            !r.show_hidden,
            r.root_path == root_path,
            r.input_buffer@ =~= Seq::<char>::empty(),
            r.search_query@ =~= Seq::<char>::empty(),
            r.search_results@ =~= Seq::<usize>::empty(),
            r.search_index == 0,
            r.clipboard is None,
            r.status_message is None,
            !r.should_quit,
            r.pending_editor_file is None,
            r.last_click is None,
            r.recent_changes@ =~= Map::<Seq<char>, u64>::empty(),
            !r.watcher_active,
            r.preview_cache@ =~= Map::<Seq<char>, PreviewData>::empty(),
            !r.show_preview,
            r.preview_scroll == 0,
    {
        App {
            entries: Vec::new(),
            cursor: 0,
            mode: AppMode::Normal,
            show_hidden: false,
            root_path,
            input_buffer: String::new(),
            search_query: String::new(),
            search_results: Vec::new(),
            search_index: 0,
            clipboard: None,
            status_message: None,
            should_quit: false,
            pending_editor_file: None,
            last_click: None,
            recent_changes: RecencyTracker::new(),
            watcher_active: false,
            preview_cache: PathMap::new(),
            show_preview: false,
            preview_scroll: 0,
        }
    }

    /// Show `msg` from instant `now` on.
    pub fn set_status(&mut self, msg: String, now: u64)
        ensures
            *final(self) == (App { status_message: Some((msg, now)), ..*old(self) }),
    {
        self.status_message = Some((msg, now));
    }

    /// Drop a status message that has outlived its time on screen.
    pub fn clear_old_status(&mut self, now: u64)
        ensures
            match old(self).status_message {
                Some(m) => if now >= m.1 + STATUS_TTL_MILLIS {
                    *final(self) == (App { status_message: None, ..*old(self) })
                } else {
                    *final(self) == *old(self)
                },
                None => *final(self) == *old(self),
            },
    {
        let expired = match &self.status_message {
            Some((_, t)) => now >= *t && now - *t >= STATUS_TTL_MILLIS,
            None => false,
        };
        if expired {
            self.status_message = None;
        }
    }

    /// The entry under the cursor, when the sequence is not empty.
    pub fn current_entry(&self) -> (r: Option<&FileEntry>)
        ensures
            r is Some <==> self.cursor < self.entries@.len(),
            r is Some ==> *r->0 == self.entries@[self.cursor as int],
    {
        if self.cursor < self.entries.len() {
            Some(&self.entries[self.cursor])
        } else {
            None
        }
    }

    /// Move the cursor one entry up, stopping at the top.
    pub fn move_cursor_up(&mut self)
        ensures
            *final(self) == (App {
                cursor: if old(self).cursor > 0 {
                    (old(self).cursor - 1) as usize
                } else {
                    0
                },
                ..*old(self)
            }),
    {
        if self.cursor > 0 {
            self.cursor = self.cursor - 1;
        }
    }

    /// Move the cursor one entry down, stopping at the bottom.
    pub fn move_cursor_down(&mut self)
        ensures
            *final(self) == (App {
                cursor: if old(self).cursor + 1 < old(self).entries@.len() {
                    (old(self).cursor + 1) as usize
                } else {
                    old(self).cursor
                },
                ..*old(self)
            }),
    {
        if self.cursor < self.entries.len().saturating_sub(1) {
            self.cursor = self.cursor + 1;
        }
    }

    /// Move the cursor to the first entry.
    pub fn go_to_top(&mut self)
        ensures
            *final(self) == (App { cursor: 0, ..*old(self) }),
    {
        self.cursor = 0;
    }

    /// Move the cursor to the last entry.
    pub fn go_to_bottom(&mut self)
        ensures
            *final(self) == (App {
                cursor: if old(self).entries@.len() == 0 {
                    0
                } else {
                    (old(self).entries@.len() - 1) as usize
                },
                ..*old(self)
            }),
    {
        self.cursor = self.entries.len().saturating_sub(1);
    }

    /// The expansion set projected from the visible sequence: the paths of
    /// the entries whose expansion flag is set, in sequence order.
    pub fn get_expanded_paths(&self) -> (r: Vec<String>)
        ensures
            r@ == expanded_paths_of(self.entries@),
    {
        let mut out: Vec<String> = Vec::new();
        proof {
            assert(self.entries@.take(0) =~= Seq::<FileEntry>::empty());
            assert(out@ =~= expanded_paths_of(self.entries@.take(0)));
        }
        let mut i: usize = 0;
        while i < self.entries.len()
            invariant
                0 <= i <= self.entries@.len(),
                out@ == expanded_paths_of(self.entries@.take(i as int)),
            decreases self.entries@.len() - i,
        {
            let ghost prev = out@;
            if self.entries[i].is_expanded {
                out.push(self.entries[i].path.clone());
            }
            proof {
                assert(self.entries@.take(i + 1).drop_last() =~= self.entries@.take(i as int));
                assert(self.entries@.take(i + 1).last() == self.entries@[i as int]);
                if self.entries@[i as int].is_expanded {
                    assert(out@ =~= prev + seq![self.entries@[i as int].path]);
                } else {
                    assert(out@ =~= prev + Seq::<String>::empty());
                }
            }
            i += 1;
        }
        proof {
            assert(self.entries@.take(self.entries@.len() as int) =~= self.entries@);
        }
        out
    }

    /// Whether a fresh change notification stands recorded for `path`.
    pub fn is_recently_changed(&self, path: &str, now: u64) -> (r: bool)
        requires
            self.wf(),
        ensures
            r == (self.recent_changes@.contains_key(path@) && fresh_at(
                self.recent_changes@[path@],
                now,
            )),
    {
        self.recent_changes.is_recent(path, now)
    }

    /// Drop the recency records that are stale at instant `now`.
    pub fn cleanup_old_changes(&mut self, now: u64)
        requires
            old(self).wf(),
        ensures
            final(self).wf(),
            *final(self) == (App {
                recent_changes: final(self).recent_changes,
                ..*old(self)
            }),
            final(self).recent_changes@ =~= swept(old(self).recent_changes@, now),
    {
        self.recent_changes.sweep(now);
    }

    /// Scroll the preview up a few lines.
    pub fn scroll_preview_up(&mut self)
        ensures
            *final(self) == (App {
                preview_scroll: if old(self).preview_scroll >= 5 {
                    (old(self).preview_scroll - 5) as usize
                } else {
                    0
                },
                ..*old(self)
            }),
    {
        self.preview_scroll = self.preview_scroll.saturating_sub(5);
    }

    /// Scroll the preview down a few lines.
    pub fn scroll_preview_down(&mut self)
        ensures
            *final(self) == (App {
                preview_scroll: if old(self).preview_scroll + 5 <= usize::MAX {
                    (old(self).preview_scroll + 5) as usize
                } else {
                    usize::MAX as usize
                },
                ..*old(self)
            }),
    {
        self.preview_scroll = self.preview_scroll.saturating_add(5);
    }
}

/// The visible sequence with the expansion flag of entry `i` flipped.
pub open spec fn toggled_at(s: Seq<FileEntry>, i: int) -> Seq<FileEntry> {
    s.update(i, FileEntry { is_expanded: !s[i].is_expanded, ..s[i] })
}

/// The visible sequence with the expansion flag of entry `i` cleared.
pub open spec fn collapsed_at(s: Seq<FileEntry>, i: int) -> Seq<FileEntry> {
    s.update(i, FileEntry { is_expanded: false, ..s[i] })
}

/// The visible sequence with every directory's expansion flag cleared.
pub open spec fn collapse_dirs(s: Seq<FileEntry>) -> Seq<FileEntry> {
    s.map_values(
        |e: FileEntry|
            if e.entry_type is Directory {
                FileEntry { is_expanded: false, ..e }
            } else {
                e
            },
    )
}

/// The nearest index at or below `i` holding a directory of depth below
/// `d`: where the cursor goes when stepping to a parent.
pub open spec fn parent_scan(s: Seq<FileEntry>, i: int, d: int) -> Option<int>
    decreases i + 1,
{
    if i < 0 || i >= s.len() {
        None
    } else if s[i].entry_type is Directory && (s[i].depth as int) < d {
        Some(i)
    } else {
        parent_scan(s, i - 1, d)
    }
}

/// A recency map after notifications for `ps` all arriving at instant
/// `now`.
pub open spec fn record_all(m: Map<Seq<char>, u64>, ps: Seq<String>, now: u64) -> Map<
    Seq<char>,
    u64,
>
    decreases ps.len(),
{
    if ps.len() == 0 {
        m
    } else {
        record_all(m.insert(ps[0]@, now), ps.drop_first(), now)
    }
}

/// A preview cache after the records for `ps` were all invalidated.
pub open spec fn invalidate_all(m: Map<Seq<char>, PreviewData>, ps: Seq<String>) -> Map<
    Seq<char>,
    PreviewData,
>
    decreases ps.len(),
{
    if ps.len() == 0 {
        m
    } else {
        invalidate_all(m.remove(ps[0]@), ps.drop_first())
    }
}

/// Recording a batch and then one more path records the extended batch.
proof fn lemma_record_all_snoc(m: Map<Seq<char>, u64>, ps: Seq<String>, x: String, now: u64)
    ensures
        record_all(m, ps + seq![x], now) =~= record_all(m, ps, now).insert(x@, now),
    decreases ps.len(),
{
    if ps.len() == 0 {
        assert(ps + seq![x] =~= seq![x]);
        assert((seq![x]).len() == 1);
        assert((seq![x])[0] == x);
        assert((seq![x]).drop_first() =~= Seq::<String>::empty());
        assert(record_all(m.insert(x@, now), (seq![x]).drop_first(), now) =~= m.insert(x@, now));
        assert(record_all(m, ps, now) == m);
    } else {
        assert((ps + seq![x])[0] == ps[0]);
        assert((ps + seq![x]).drop_first() =~= ps.drop_first() + seq![x]);
        lemma_record_all_snoc(m.insert(ps[0]@, now), ps.drop_first(), x, now);
    }
}

/// Invalidating a batch and then one more path invalidates the extended
/// batch.
proof fn lemma_invalidate_all_snoc(m: Map<Seq<char>, PreviewData>, ps: Seq<String>, x: String)
    ensures
        invalidate_all(m, ps + seq![x]) =~= invalidate_all(m, ps).remove(x@),
    decreases ps.len(),
{
    if ps.len() == 0 {
        assert(ps + seq![x] =~= seq![x]);
        assert((seq![x]).len() == 1);
        assert((seq![x])[0] == x);
        assert((seq![x]).drop_first() =~= Seq::<String>::empty());
        assert(invalidate_all(m.remove(x@), (seq![x]).drop_first()) =~= m.remove(x@));
        assert(invalidate_all(m, ps) == m);
    } else {
        assert((ps + seq![x])[0] == ps[0]);
        assert((ps + seq![x]).drop_first() =~= ps.drop_first() + seq![x]);
        lemma_invalidate_all_snoc(m.remove(ps[0]@), ps.drop_first(), x);
    }
}

/// The indices of the entries whose name contains the query, both sides
/// lowercased, in sequence order.
pub open spec fn spec_search_results(s: Seq<FileEntry>, q: Seq<char>) -> Seq<usize>
    decreases s.len(),
{
    if s.len() == 0 {
        Seq::<usize>::empty()
    } else {
        spec_search_results(s.drop_last(), q) + if is_substring(lower_of(s.last().name@), q) {
            seq![(s.len() - 1) as usize]
        } else {
            Seq::<usize>::empty()
        }
    }
}

impl App {
    /// Rebuild the visible sequence from a fresh snapshot, keeping the
    /// expansion set projected from the current sequence; the cursor
    /// clamps to the last valid index when the new sequence is shorter.
    pub fn refresh(&mut self, tree: &FsNode)
        requires
            old(self).wf(),
            forest_size(tree.children@) <= usize::MAX,
        ensures
            final(self).wf(),
            *final(self) == (App {
                entries: final(self).entries,
                cursor: final(self).cursor,
                ..*old(self)
            }),
            entry_models(final(self).entries@) == spec_build_tree(
                *tree,
                expanded_paths_of(old(self).entries@),
                old(self).show_hidden,
            ),
            final(self).cursor == clamped_cursor(
                old(self).cursor as int,
                final(self).entries@.len() as int,
            ),
    {
        let expanded = self.get_expanded_paths();
        self.entries = build_tree(tree, &expanded, self.show_hidden);
        if self.cursor >= self.entries.len() {
            self.cursor = self.entries.len().saturating_sub(1);
        }
    }

    /// Flip the expansion flag of the directory under the cursor and
    /// rebuild; anything else under the cursor leaves the state untouched.
    pub fn toggle_expand(&mut self, tree: &FsNode)
        requires
            old(self).wf(),
            forest_size(tree.children@) <= usize::MAX,
        ensures
            final(self).wf(),
            old(self).cursor < old(self).entries@.len() && old(self).entries@[old(self).cursor as int].entry_type is Directory ==> {
                &&& *final(self) == (App {
                    entries: final(self).entries,
                    cursor: final(self).cursor,
                    ..*old(self)
                })
                &&& entry_models(final(self).entries@) == spec_build_tree(
                    *tree,
                    expanded_paths_of(toggled_at(old(self).entries@, old(self).cursor as int)),
                    old(self).show_hidden,
                )
                &&& final(self).cursor == clamped_cursor(
                    old(self).cursor as int,
                    final(self).entries@.len() as int,
                )
            },
            !(old(self).cursor < old(self).entries@.len() && old(self).entries@[old(self).cursor as int].entry_type is Directory) ==> *final(self)
                == *old(self),
    {
        if self.cursor < self.entries.len() {
            let cur = self.cursor;
            if self.entries[cur].is_dir() {
                let v = self.entries[cur].is_expanded;
                self.entries[cur].is_expanded = !v;
                proof {
                    assert(self.entries@ =~= toggled_at(old(self).entries@, cur as int));
                }
                self.refresh(tree);
            }
        }
    }

    /// Collapse the expanded directory under the cursor, or step the
    /// cursor to the nearest preceding directory of smaller depth.
    pub fn collapse_or_parent(&mut self, tree: &FsNode)
        requires
            old(self).wf(),
            forest_size(tree.children@) <= usize::MAX,
        ensures
            final(self).wf(),
            ({
                let s = old(self).entries@;
                let c = old(self).cursor as int;
                if c < s.len() {
                    if s[c].entry_type is Directory && s[c].is_expanded {
                        &&& *final(self) == (App {
                            entries: final(self).entries,
                            cursor: final(self).cursor,
                            ..*old(self)
                        })
                        &&& entry_models(final(self).entries@) == spec_build_tree(
                            *tree,
                            expanded_paths_of(collapsed_at(s, c)),
                            old(self).show_hidden,
                        )
                        &&& final(self).cursor == clamped_cursor(
                            c,
                            final(self).entries@.len() as int,
                        )
                    } else if s[c].depth > 0 {
                        match parent_scan(s, c - 1, s[c].depth as int) {
                            Some(i) => *final(self) == (App {
                                cursor: final(self).cursor,
                                ..*old(self)
                            }) && final(self).cursor == i,
                            None => *final(self) == *old(self),
                        }
                    } else {
                        *final(self) == *old(self)
                    }
                } else {
                    *final(self) == *old(self)
                }
            }),
    {
        if self.cursor >= self.entries.len() {
            return ;
        }
        let cur = self.cursor;
        let is_dir = self.entries[cur].is_dir();
        if is_dir && self.entries[cur].is_expanded {
            self.entries[cur].is_expanded = false;
            proof {
                assert(self.entries@ =~= collapsed_at(old(self).entries@, cur as int));
            }
            self.refresh(tree);
        } else if self.entries[cur].depth > 0 {
            let d = self.entries[cur].depth;
            let mut i: usize = cur;
            while i > 0
                invariant
                    *self == *old(self),
                    old(self).wf(),
                    i <= cur,
                    cur == old(self).cursor,
                    cur < self.entries@.len(),
                    !(self.entries@[cur as int].entry_type is Directory
                        && self.entries@[cur as int].is_expanded),
                    self.entries@[cur as int].depth > 0,
                    d == self.entries@[cur as int].depth,
                    parent_scan(self.entries@, cur - 1, d as int) == parent_scan(
                        self.entries@,
                        i - 1,
                        d as int,
                    ),
                decreases i,
            {
                let j = i - 1;
                if self.entries[j].is_dir() && self.entries[j].depth < d {
                    proof {
                        assert(parent_scan(self.entries@, j as int, d as int) == Some(j as int));
                    }
                    self.cursor = j;
                    return ;
                }
                proof {
                    assert(parent_scan(self.entries@, j as int, d as int) == parent_scan(
                        self.entries@,
                        j - 1,
                        d as int,
                    ));
                }
                i = j;
            }
        }
    }

    /// Flip the hidden-file toggle and rebuild under it.
    pub fn toggle_hidden(&mut self, tree: &FsNode, now: u64)
        requires
            old(self).wf(),
            forest_size(tree.children@) <= usize::MAX,
        ensures
            final(self).wf(),
            *final(self) == (App {
                entries: final(self).entries,
                cursor: final(self).cursor,
                show_hidden: !old(self).show_hidden,
                status_message: final(self).status_message,
                ..*old(self)
            }),
            entry_models(final(self).entries@) == spec_build_tree(
                *tree,
                expanded_paths_of(old(self).entries@),
                !old(self).show_hidden,
            ),
            final(self).cursor == clamped_cursor(
                old(self).cursor as int,
                final(self).entries@.len() as int,
            ),
            final(self).status_message matches Some(m) && m.1 == now && m.0@ == (
            if !old(self).show_hidden {
                "Showing hidden files"@
            } else {
                "Hiding hidden files"@
            }),
    {
        self.show_hidden = !self.show_hidden;
        self.refresh(tree);
        if self.show_hidden {
            self.set_status(String::from_str("Showing hidden files"), now);
        } else {
            self.set_status(String::from_str("Hiding hidden files"), now);
        }
    }

    /// Expand every directory, stopping at the entry cap, and report the
    /// outcome in the status line.
    pub fn expand_all(&mut self, tree: &FsNode, now: u64)
        requires
            old(self).wf(),
            forest_size(tree.children@) <= usize::MAX,
        ensures
            final(self).wf(),
            *final(self) == (App {
                entries: final(self).entries,
                cursor: final(self).cursor,
                status_message: final(self).status_message,
                ..*old(self)
            }),
            entry_models(final(self).entries@) == cap_take(
                spec_build_tree_all(*tree, old(self).show_hidden),
                EXPAND_ALL_CAP as int,
            ),
            final(self).cursor == clamped_cursor(
                old(self).cursor as int,
                final(self).entries@.len() as int,
            ),
            final(self).status_message matches Some(m) && m.1 == now && m.0@ == expand_all_status(
                final(self).entries@.len() as int,
            ),
    {
        let built = build_tree_fully_expanded(tree, self.show_hidden, EXPAND_ALL_CAP);
        self.entries = built.0;
        if self.cursor >= self.entries.len() {
            self.cursor = self.entries.len().saturating_sub(1);
        }
        let count = self.entries.len();
        let mut msg = if count >= EXPAND_ALL_CAP {
            String::from_str("Expanded all (limited to ")
        } else {
            String::from_str("Expanded all (")
        };
        let digits = crate::strutil::u64_to_dec(count as u64);
        msg.append(digits.as_str());
        msg.append(" entries)");
        proof {
            assert(msg@ =~= expand_all_status(count as int));
        }
        self.set_status(msg, now);
    }

    /// Clear every directory's expansion flag and rebuild.
    pub fn collapse_all(&mut self, tree: &FsNode, now: u64)
        requires
            old(self).wf(),
            forest_size(tree.children@) <= usize::MAX,
        ensures
            final(self).wf(),
            *final(self) == (App {
                entries: final(self).entries,
                cursor: final(self).cursor,
                status_message: final(self).status_message,
                ..*old(self)
            }),
            entry_models(final(self).entries@) == spec_build_tree(
                *tree,
                expanded_paths_of(collapse_dirs(old(self).entries@)),
                old(self).show_hidden,
            ),
            final(self).cursor == clamped_cursor(
                old(self).cursor as int,
                final(self).entries@.len() as int,
            ),
            final(self).status_message matches Some(m) && m.1 == now && m.0@
                == "Collapsed all directories"@,
    {
        let n = self.entries.len();
        let mut i: usize = 0;
        while i < n
            invariant
                old(self).wf(),
                *self == (App { entries: self.entries, ..*old(self) }),
                n == self.entries@.len(),
                self.entries@.len() == old(self).entries@.len(),
                0 <= i <= n,
                forall|j: int|
                    0 <= j < i ==> self.entries@[j] == collapse_dirs(old(self).entries@)[j],
                forall|j: int| i <= j < n ==> self.entries@[j] == old(self).entries@[j],
            decreases n - i,
        {
            if self.entries[i].is_dir() {
                let v = self.entries[i].is_expanded;
                if v {
                    self.entries[i].is_expanded = false;
                }
            }
            i += 1;
        }
        proof {
            assert(self.entries@ =~= collapse_dirs(old(self).entries@));
        }
        self.refresh(tree);
        self.set_status(String::from_str("Collapsed all directories"), now);
    }

    /// Ingest a batch of change notifications, all arriving at instant
    /// `now`: each path gets a recency record, and its cached preview, if
    /// any, is dropped.
    pub fn check_watcher(&mut self, paths: &Vec<String>, now: u64)
        requires
            old(self).wf(),
        ensures
            final(self).wf(),
            *final(self) == (App {
                recent_changes: final(self).recent_changes,
                preview_cache: final(self).preview_cache,
                ..*old(self)
            }),
            final(self).recent_changes@ =~= record_all(old(self).recent_changes@, paths@, now),
            final(self).preview_cache@ =~= invalidate_all(old(self).preview_cache@, paths@),
    {
        proof {
            assert(paths@.take(0) =~= Seq::<String>::empty());
        }
        let mut i: usize = 0;
        while i < paths.len()
            invariant
                old(self).wf(),
                self.recent_changes.wf(),
                self.preview_cache.wf(),
                *self == (App {
                    recent_changes: self.recent_changes,
                    preview_cache: self.preview_cache,
                    ..*old(self)
                }),
                0 <= i <= paths@.len(),
                self.recent_changes@ =~= record_all(
                    old(self).recent_changes@,
                    paths@.take(i as int),
                    now,
                ),
                self.preview_cache@ =~= invalidate_all(
                    old(self).preview_cache@,
                    paths@.take(i as int),
                ),
            decreases paths@.len() - i,
        {
            let p = &paths[i];
            self.recent_changes.record(p.as_str(), now);
            self.preview_cache.remove(p.as_str());
            proof {
                assert(paths@.take(i + 1) =~= paths@.take(i as int) + seq![paths@[i as int]]);
                lemma_record_all_snoc(
                    old(self).recent_changes@,
                    paths@.take(i as int),
                    paths@[i as int],
                    now,
                );
                lemma_invalidate_all_snoc(
                    old(self).preview_cache@,
                    paths@.take(i as int),
                    paths@[i as int],
                );
            }
            i += 1;
        }
        proof {
            assert(paths@.take(paths@.len() as int) =~= paths@);
        }
    }

    /// The cached preview of the entry under the cursor, if one is held.
    pub fn get_cached_preview(&self) -> (r: Option<&PreviewData>)
        requires
            self.wf(),
        ensures
            r is Some <==> (self.cursor < self.entries@.len() && self.preview_cache@.contains_key(
                self.entries@[self.cursor as int].path@,
            )),
            r is Some ==> *r->0 == self.preview_cache@[self.entries@[self.cursor as int].path@],
    {
        match self.current_entry() {
            Some(e) => self.preview_cache.get(e.path.as_str()),
            None => None,
        }
    }

    /// Flip the preview pane and reset its scroll position.  When the pane
    /// was just opened, the caller generates and stores a preview for the
    /// entry under the cursor.
    pub fn toggle_preview(&mut self)
        ensures
            *final(self) == (App {
                show_preview: !old(self).show_preview,
                preview_scroll: 0,
                ..*old(self)
            }),
    {
        if self.show_preview {
            self.show_preview = false;
            self.preview_scroll = 0;
        } else {
            self.show_preview = true;
            self.preview_scroll = 0;
        }
    }

    /// Store a freshly generated preview for the entry under the cursor,
    /// unless one is already cached: a cached record is never replaced
    /// here, only invalidation drops it.
    pub fn generate_current_preview(&mut self, fresh: PreviewData)
        requires
            old(self).wf(),
        ensures
            final(self).wf(),
            old(self).cursor < old(self).entries@.len() && !old(self).preview_cache@.contains_key(
                old(self).entries@[old(self).cursor as int].path@,
            ) ==> {
                &&& *final(self) == (App {
                    preview_cache: final(self).preview_cache,
                    ..*old(self)
                })
                &&& final(self).preview_cache@ =~= old(self).preview_cache@.insert(
                    old(self).entries@[old(self).cursor as int].path@,
                    fresh,
                )
            },
            !(old(self).cursor < old(self).entries@.len() && !old(self).preview_cache@.contains_key(
                old(self).entries@[old(self).cursor as int].path@,
            )) ==> *final(self) == *old(self),
    {
        if self.cursor < self.entries.len() {
            let path = self.entries[self.cursor].path.clone();
            if !self.preview_cache.contains(path.as_str()) {
                self.preview_cache.set(path.as_str(), fresh);
            }
        }
    }

    /// Step the search navigation to the next match, wrapping around.
    pub fn next_match(&mut self)
        ensures
            old(self).search_results@.len() > 0 ==> {
                &&& *final(self) == (App {
                    search_index: final(self).search_index,
                    cursor: final(self).cursor,
                    ..*old(self)
                })
                &&& final(self).search_index == (
                if old(self).search_index + 1 >= old(self).search_results@.len() {
                    0int
                } else {
                    old(self).search_index + 1
                })
                &&& final(self).cursor == old(self).search_results@[final(self).search_index as int]
            },
            old(self).search_results@.len() == 0 ==> *final(self) == *old(self),
    {
        let n = self.search_results.len();
        if n > 0 {
            self.search_index = if self.search_index >= n - 1 {
                0
            } else {
                self.search_index + 1
            };
            self.cursor = self.search_results[self.search_index];
        }
    }

    /// Step the search navigation to the previous match, wrapping around.
    pub fn prev_match(&mut self)
        ensures
            old(self).search_results@.len() > 0 ==> {
                &&& *final(self) == (App {
                    search_index: final(self).search_index,
                    cursor: final(self).cursor,
                    ..*old(self)
                })
                &&& final(self).search_index == (
                if old(self).search_index == 0 || old(self).search_index - 1
                    >= old(self).search_results@.len() {
                    old(self).search_results@.len() - 1
                } else {
                    old(self).search_index - 1
                })
                &&& final(self).cursor == old(self).search_results@[final(self).search_index as int]
            },
            old(self).search_results@.len() == 0 ==> *final(self) == *old(self),
    {
        let n = self.search_results.len();
        if n > 0 {
            self.search_index = if self.search_index == 0 || self.search_index - 1 >= n {
                n - 1
            } else {
                self.search_index - 1
            };
            self.cursor = self.search_results[self.search_index];
        }
    }
}

/// The status line after a bulk expansion of `count` entries.
pub open spec fn expand_all_status(count: int) -> Seq<char> {
    if count >= EXPAND_ALL_CAP {
        "Expanded all (limited to "@ + crate::strutil::dec_digits(count as nat) + " entries)"@
    } else {
        "Expanded all ("@ + crate::strutil::dec_digits(count as nat) + " entries)"@
    }
}

/// Recompute the ordered list of entry indices whose name contains the
/// query, both lowercased; a non-empty result resets the navigation to its
/// first match.  An empty query only clears the result list.
pub fn update_search_results(app: &mut App)
    ensures
        *final(app) == (App {
            search_results: final(app).search_results,
            search_index: final(app).search_index,
            cursor: final(app).cursor,
            ..*old(app)
        }),
        old(app).search_query@.len() == 0 ==> final(app).search_results@ =~= Seq::<usize>::empty()
            && final(app).search_index == old(app).search_index && final(app).cursor == old(app).cursor,
        old(app).search_query@.len() > 0 ==> {
            let res = spec_search_results(old(app).entries@, lower_of(old(app).search_query@));
            &&& final(app).search_results@ == res
            &&& res.len() > 0 ==> final(app).search_index == 0 && final(app).cursor == res[0]
            &&& res.len() == 0 ==> final(app).search_index == old(app).search_index && final(app).cursor == old(app).cursor
        },
{
    app.search_results = Vec::new();
    if app.search_query.as_str().unicode_len() == 0 {
        return ;
    }
    let q = lowercase(app.search_query.as_str());
    let mut results: Vec<usize> = Vec::new();
    proof {
        assert(app.entries@.take(0) =~= Seq::<FileEntry>::empty());
        assert(results@ =~= spec_search_results(app.entries@.take(0), q@));
    }
    let n = app.entries.len();
    let mut i: usize = 0;
    while i < n
        invariant
            *app == (App { search_results: app.search_results, ..*old(app) }),
            app.search_results@.len() == 0,
            q@ == lower_of(old(app).search_query@),
            n == app.entries@.len(),
            0 <= i <= n,
            results@ == spec_search_results(app.entries@.take(i as int), q@),
            forall|j: int| 0 <= j < results@.len() ==> (results@[j] as int) < i,
        decreases n - i,
    {
        let ghost prev = results@;
        let ln = lowercase(app.entries[i].name.as_str());
        if str_contains(ln.as_str(), q.as_str()) {
            results.push(i);
        }
        proof {
            assert(app.entries@.take(i + 1).drop_last() =~= app.entries@.take(i as int));
            assert(app.entries@.take(i + 1).last() == app.entries@[i as int]);
            if is_substring(lower_of(app.entries@[i as int].name@), q@) {
                assert(results@ =~= prev + seq![i as usize]);
            } else {
                assert(results@ =~= prev + Seq::<usize>::empty());
            }
        }
        i += 1;
    }
    proof {
        assert(app.entries@.take(n as int) =~= app.entries@);
    }
    app.search_results = results;
    if app.search_results.len() > 0 {
        app.search_index = 0;
        app.cursor = app.search_results[0];
    }
}

/// Where a new file or directory would be created: the directory under the
/// cursor, the parent directory of a file under the cursor, or the root.
pub open spec fn spec_target_dir(app: App) -> Seq<char> {
    if app.cursor < app.entries@.len() {
        let e = app.entries@[app.cursor as int];
        if e.entry_type is Directory {
            e.path@
        } else {
            match parent_path(e.path@) {
                Some(p) => p,
                None => app.root_path@,
            }
        }
    } else {
        app.root_path@
    }
}

/// The directory that file operations target.
pub fn get_target_dir(app: &App) -> (r: String)
    ensures
        r@ == spec_target_dir(*app),
{
    match app.current_entry() {
        Some(e) => {
            if e.is_dir() {
                e.path.clone()
            } else {
                match parent_of(e.path.as_str()) {
                    Some(p) => p,
                    None => app.root_path.clone(),
                }
            }
        },
        None => app.root_path.clone(),
    }
}

/// Put the entry under the cursor on the clipboard for copying.
pub fn yank_entry(app: &mut App, now: u64)
    ensures
        old(app).cursor < old(app).entries@.len() ==> {
            &&& *final(app) == (App {
                clipboard: final(app).clipboard,
                status_message: final(app).status_message,
                ..*old(app)
            })
            &&& final(app).clipboard matches Some(c) && c.path == old(app).entries@[old(app).cursor as int].path && !c.is_cut
            &&& final(app).status_message matches Some(m) && m.1 == now && m.0@ == "Copied: "@
                + old(app).entries@[old(app).cursor as int].name@
        },
        old(app).cursor >= old(app).entries@.len() ==> *final(app) == *old(app),
{
    if app.cursor < app.entries.len() {
        let path = app.entries[app.cursor].path.clone();
        let name = app.entries[app.cursor].name.clone();
        app.clipboard = Some(ClipboardEntry { path, is_cut: false });
        let mut m = String::from_str("Copied: ");
        m.append(name.as_str());
        app.set_status(m, now);
    }
}

/// Put the entry under the cursor on the clipboard for moving.
pub fn cut_entry(app: &mut App, now: u64)
    ensures
        old(app).cursor < old(app).entries@.len() ==> {
            &&& *final(app) == (App {
                clipboard: final(app).clipboard,
                status_message: final(app).status_message,
                ..*old(app)
            })
            &&& final(app).clipboard matches Some(c) && c.path == old(app).entries@[old(app).cursor as int].path && c.is_cut
            &&& final(app).status_message matches Some(m) && m.1 == now && m.0@ == "Cut: "@ + old(app).entries@[old(app).cursor as int].name@
        },
        old(app).cursor >= old(app).entries@.len() ==> *final(app) == *old(app),
{
    if app.cursor < app.entries.len() {
        let path = app.entries[app.cursor].path.clone();
        let name = app.entries[app.cursor].name.clone();
        app.clipboard = Some(ClipboardEntry { path, is_cut: true });
        let mut m = String::from_str("Cut: ");
        m.append(name.as_str());
        app.set_status(m, now);
    }
}

} // verus!
