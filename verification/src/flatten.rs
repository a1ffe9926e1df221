//! The tree flattener: turning a snapshot of a directory hierarchy into the
//! ordered visible sequence, honoring an expansion set and the hidden-file
//! toggle.
//!
//! Siblings are ordered directories first, then case-insensitively by name.
//! A directory's descendants follow it immediately exactly when its path is
//! in the expansion set.

use vstd::prelude::*;

use crate::entry::{entry_models, EntryModel, FileEntry};
use crate::node::{forest_size, node_size, FsNode};
use crate::strutil::{lex_lt, lower_of, lowercase, str_lex_lt};

verus! {

/// Sibling order: directories before everything else, then strict
/// case-insensitive lexicographic order on the name.
pub open spec fn node_lt(a: FsNode, b: FsNode) -> bool {
    if a.spec_is_dir() != b.spec_is_dir() {
        a.spec_is_dir()
    } else {
        lex_lt(lower_of(a.name@), lower_of(b.name@))
    }
}

/// Sibling order, as executable code.
pub fn node_lt_exec(a: &FsNode, b: &FsNode) -> (r: bool)
    ensures
        r == node_lt(*a, *b),
{
    let a_dir = a.is_dir();
    let b_dir = b.is_dir();
    if a_dir != b_dir {
        a_dir
    } else {
        let la = lowercase(a.name.as_str());
        let lb = lowercase(b.name.as_str());
        str_lex_lt(la.as_str(), lb.as_str())
    }
}

/// The sibling order never puts a node before itself.
pub proof fn lemma_node_lt_irreflexive(a: FsNode)
    ensures
        !node_lt(a, a),
{
    crate::strutil::lemma_lex_lt_irreflexive(lower_of(a.name@));
}

/// The sibling order is transitive.
pub proof fn lemma_node_lt_transitive(a: FsNode, b: FsNode, c: FsNode)
    requires
        node_lt(a, b),
        node_lt(b, c),
    ensures
        node_lt(a, c),
{
    if a.spec_is_dir() == b.spec_is_dir() && b.spec_is_dir() == c.spec_is_dir() {
        crate::strutil::lemma_lex_lt_transitive(
            lower_of(a.name@),
            lower_of(b.name@),
            lower_of(c.name@),
        );
    }
}

/// `x` placed into `t` before the first element that must come after it;
/// elements that compare equal to `x` keep their place before it.
pub open spec fn insert_sorted(t: Seq<FsNode>, x: FsNode) -> Seq<FsNode>
    decreases t.len(),
{
    if t.len() == 0 {
        seq![x]
    } else if node_lt(x, t[0]) {
        seq![x] + t
    } else {
        seq![t[0]] + insert_sorted(t.drop_first(), x)
    }
}

/// Stable insertion sort of a sibling list under `node_lt`.
pub open spec fn sort_nodes(s: Seq<FsNode>) -> Seq<FsNode>
    decreases s.len(),
{
    if s.len() == 0 {
        Seq::<FsNode>::empty()
    } else {
        insert_sorted(sort_nodes(s.drop_last()), s.last())
    }
}

/// No inversions under the sibling order.
pub open spec fn sorted_forest(s: Seq<FsNode>) -> bool {
    forall|i: int, j: int| 0 <= i < j < s.len() ==> !node_lt(s[j], s[i])
}

/// Forest sizes add over concatenation.
pub proof fn lemma_forest_size_concat(a: Seq<FsNode>, b: Seq<FsNode>)
    ensures
        forest_size(a + b) == forest_size(a) + forest_size(b),
    decreases a.len(),
{
    if a.len() == 0 {
        assert(a + b =~= b);
    } else {
        assert((a + b).drop_first() =~= a.drop_first() + b);
        lemma_forest_size_concat(a.drop_first(), b);
    }
}

/// The size of a singleton forest is the size of its tree.
pub proof fn lemma_forest_size_singleton(x: FsNode)
    ensures
        forest_size(seq![x]) == node_size(x),
{
    assert(seq![x].drop_first() =~= Seq::<FsNode>::empty());
    assert(seq![x].len() == 1);
    assert(seq![x][0] == x);
    assert(forest_size(Seq::<FsNode>::empty()) == 0);
}

/// Insertion adds exactly the inserted tree's size.
pub proof fn lemma_insert_sorted_size(t: Seq<FsNode>, x: FsNode)
    ensures
        forest_size(insert_sorted(t, x)) == forest_size(t) + node_size(x),
    decreases t.len(),
{
    if t.len() == 0 {
        lemma_forest_size_singleton(x);
    } else if node_lt(x, t[0]) {
        lemma_forest_size_concat(seq![x], t);
        lemma_forest_size_singleton(x);
    } else {
        lemma_insert_sorted_size(t.drop_first(), x);
        lemma_forest_size_concat(seq![t[0]], insert_sorted(t.drop_first(), x));
        lemma_forest_size_singleton(t[0]);
        lemma_forest_size_concat(seq![t[0]], t.drop_first());
        assert(seq![t[0]] + t.drop_first() =~= t);
    }
}

/// Sorting does not change the size of a forest.
pub proof fn lemma_sort_nodes_size(s: Seq<FsNode>)
    ensures
        forest_size(sort_nodes(s)) == forest_size(s),
    decreases s.len(),
{
    if s.len() > 0 {
        lemma_sort_nodes_size(s.drop_last());
        lemma_insert_sorted_size(sort_nodes(s.drop_last()), s.last());
        lemma_forest_size_concat(s.drop_last(), seq![s.last()]);
        lemma_forest_size_singleton(s.last());
        assert(s.drop_last() + seq![s.last()] =~= s);
    }
}

/// A tree in a forest is no larger than the whole forest.
pub proof fn lemma_member_size(s: Seq<FsNode>, i: int)
    requires
        0 <= i < s.len(),
    ensures
        node_size(s[i]) <= forest_size(s),
    decreases s.len(),
{
    if i > 0 {
        lemma_member_size(s.drop_first(), i - 1);
    }
}

/// The visible-sequence record that a snapshot node contributes.
pub open spec fn entry_of(n: FsNode, depth: int, expanded: bool) -> EntryModel {
    EntryModel {
        name: n.name@,
        path: n.path@,
        entry_type: n.kind,
        is_hidden: n.spec_is_hidden(),
        is_expanded: expanded,
        depth: depth,
        is_executable: n.is_executable,
    }
}

/// The visible sequence contributed by a sorted sibling list: each sibling
/// that survives the hidden filter contributes its own record, immediately
/// followed by the flattening of its sorted children when it is a directory
/// whose path is in the expansion set.
pub open spec fn flat_forest(
    s: Seq<FsNode>,
    exp: Seq<String>,
    show_hidden: bool,
    depth: int,
) -> Seq<EntryModel>
    decreases forest_size(s), s.len(),
    via flat_forest_decreases
{
    if s.len() == 0 {
        Seq::<EntryModel>::empty()
    } else {
        let n = s[0];
        let rest = flat_forest(s.drop_first(), exp, show_hidden, depth);
        if !show_hidden && n.spec_is_hidden() {
            rest
        } else {
            let expanded = crate::strutil::str_in(exp, n.path@);
            let sub = if n.spec_is_dir() && expanded {
                flat_forest(sort_nodes(n.children@), exp, show_hidden, depth + 1)
            } else {
                Seq::<EntryModel>::empty()
            };
            seq![entry_of(n, depth, expanded)] + sub + rest
        }
    }
}

#[via_fn]
proof fn flat_forest_decreases(s: Seq<FsNode>, exp: Seq<String>, show_hidden: bool, depth: int) {
    if s.len() > 0 {
        crate::node::lemma_node_size_at_least_one(s[0]);
        lemma_member_size(s, 0);
        lemma_sort_nodes_size(s[0].children@);
        assert(forest_size(s) == node_size(s[0]) + forest_size(s.drop_first()));
    }
}

/// The visible sequence of a whole snapshot: the root's sorted children at
/// depth zero.  The root itself is not part of the sequence.
pub open spec fn spec_build_tree(root: FsNode, exp: Seq<String>, show_hidden: bool) -> Seq<
    EntryModel,
> {
    flat_forest(sort_nodes(root.children@), exp, show_hidden, 0)
}

/// Flattening distributes over concatenation of sibling lists.
pub proof fn lemma_flat_forest_concat(
    a: Seq<FsNode>,
    b: Seq<FsNode>,
    exp: Seq<String>,
    show_hidden: bool,
    depth: int,
)
    ensures
        flat_forest(a + b, exp, show_hidden, depth) == flat_forest(a, exp, show_hidden, depth)
            + flat_forest(b, exp, show_hidden, depth),
    decreases a.len(),
{
    if a.len() == 0 {
        assert(a + b =~= b);
        assert(flat_forest(a, exp, show_hidden, depth) + flat_forest(b, exp, show_hidden, depth)
            =~= flat_forest(b, exp, show_hidden, depth));
    } else {
        assert((a + b).len() > 0);
        assert((a + b)[0] == a[0]);
        assert((a + b).drop_first() =~= a.drop_first() + b);
        lemma_flat_forest_concat(a.drop_first(), b, exp, show_hidden, depth);
        assert(flat_forest(a + b, exp, show_hidden, depth) =~= flat_forest(
            a,
            exp,
            show_hidden,
            depth,
        ) + flat_forest(b, exp, show_hidden, depth));
    }
}

/// The visible sequence of a sorted sibling list when every directory is
/// treated as expanded, the expansion set notwithstanding.  Directory
/// records carry the expansion flag, file records do not.
pub open spec fn flat_all_forest(s: Seq<FsNode>, show_hidden: bool, depth: int) -> Seq<EntryModel>
    decreases forest_size(s), s.len(),
    via flat_all_forest_decreases
{
    if s.len() == 0 {
        Seq::<EntryModel>::empty()
    } else {
        let n = s[0];
        let rest = flat_all_forest(s.drop_first(), show_hidden, depth);
        if !show_hidden && n.spec_is_hidden() {
            rest
        } else {
            let sub = if n.spec_is_dir() {
                flat_all_forest(sort_nodes(n.children@), show_hidden, depth + 1)
            } else {
                Seq::<EntryModel>::empty()
            };
            seq![entry_of(n, depth, n.spec_is_dir())] + sub + rest
        }
    }
}

#[via_fn]
proof fn flat_all_forest_decreases(s: Seq<FsNode>, show_hidden: bool, depth: int) {
    if s.len() > 0 {
        crate::node::lemma_node_size_at_least_one(s[0]);
        lemma_member_size(s, 0);
        lemma_sort_nodes_size(s[0].children@);
        assert(forest_size(s) == node_size(s[0]) + forest_size(s.drop_first()));
    }
}

/// The unbounded fully expanded visible sequence of a snapshot.
pub open spec fn spec_build_tree_all(root: FsNode, show_hidden: bool) -> Seq<EntryModel> {
    flat_all_forest(sort_nodes(root.children@), show_hidden, 0)
}

/// Full flattening distributes over concatenation of sibling lists.
pub proof fn lemma_flat_all_forest_concat(
    a: Seq<FsNode>,
    b: Seq<FsNode>,
    show_hidden: bool,
    depth: int,
)
    ensures
        flat_all_forest(a + b, show_hidden, depth) == flat_all_forest(a, show_hidden, depth)
            + flat_all_forest(b, show_hidden, depth),
    decreases a.len(),
{
    if a.len() == 0 {
        assert(a + b =~= b);
        assert(flat_all_forest(a, show_hidden, depth) + flat_all_forest(b, show_hidden, depth)
            =~= flat_all_forest(b, show_hidden, depth));
    } else {
        assert((a + b)[0] == a[0]);
        assert((a + b).drop_first() =~= a.drop_first() + b);
        lemma_flat_all_forest_concat(a.drop_first(), b, show_hidden, depth);
        assert(flat_all_forest(a + b, show_hidden, depth) =~= flat_all_forest(
            a,
            show_hidden,
            depth,
        ) + flat_all_forest(b, show_hidden, depth));
    }
}

/// A sequence cut off at `cap` entries: the whole sequence when it fits.
pub open spec fn cap_take(s: Seq<EntryModel>, cap: int) -> Seq<EntryModel> {
    if s.len() <= cap {
        s
    } else {
        s.take(cap)
    }
}

/// The trees that a list of references points at.
pub open spec fn deref_seq(s: Seq<&FsNode>) -> Seq<FsNode> {
    s.map_values(|x: &FsNode| *x)
}

/// Inserting at the first position whose element must come after `x` is
/// exactly what `insert_sorted` does.
pub proof fn lemma_insert_sorted_at(t: Seq<FsNode>, x: FsNode, j: int)
    requires
        0 <= j <= t.len(),
        forall|m: int| 0 <= m < j ==> !node_lt(x, t[m]),
        j < t.len() ==> node_lt(x, t[j]),
    ensures
        insert_sorted(t, x) == t.insert(j, x),
    decreases t.len(),
{
    if t.len() == 0 {
        assert(insert_sorted(t, x) =~= t.insert(0, x));
    } else if node_lt(x, t[0]) {
        assert(j == 0);
        assert(seq![x] + t =~= t.insert(0, x));
    } else {
        assert(j >= 1);
        lemma_insert_sorted_at(t.drop_first(), x, j - 1);
        assert(seq![t[0]] + t.drop_first().insert(j - 1, x) =~= t.insert(j, x));
    }
}

/// The position where `x` belongs in the already sorted list `out`.
fn find_insert_pos(out: &Vec<&FsNode>, x: &FsNode) -> (j: usize)
    ensures
        j <= out@.len(),
        forall|m: int| 0 <= m < j ==> !node_lt(*x, deref_seq(out@)[m]),
        j < out@.len() ==> node_lt(*x, deref_seq(out@)[j as int]),
{
    let mut j: usize = 0;
    while j < out.len()
        invariant
            0 <= j <= out@.len(),
            forall|m: int| 0 <= m < j ==> !node_lt(*x, deref_seq(out@)[m]),
        decreases out@.len() - j,
    {
        if node_lt_exec(x, out[j]) {
            return j;
        }
        j += 1;
    }
    j
}

/// Sort a sibling list, returning references in sorted order.
pub fn sort_children<'a>(children: &'a Vec<FsNode>) -> (r: Vec<&'a FsNode>)
    ensures
        deref_seq(r@) == sort_nodes(children@),
{
    let mut out: Vec<&'a FsNode> = Vec::new();
    proof {
        assert(deref_seq(out@) =~= sort_nodes(children@.take(0)));
    }
    let mut i: usize = 0;
    while i < children.len()
        invariant
            0 <= i <= children@.len(),
            deref_seq(out@) == sort_nodes(children@.take(i as int)),
            out@.len() == i,
        decreases children@.len() - i,
    {
        let x: &'a FsNode = &children[i];
        let j = find_insert_pos(&out, x);
        let ghost prev = deref_seq(out@);
        out.insert(j, x);
        proof {
            lemma_insert_sorted_at(prev, *x, j as int);
            assert(deref_seq(out@) =~= prev.insert(j as int, *x));
            assert(children@.take(i + 1).drop_last() =~= children@.take(i as int));
            assert(children@.take(i + 1).last() == children@[i as int]);
            assert(deref_seq(out@) == sort_nodes(children@.take(i + 1)));
        }
        i += 1;
    }
    proof {
        assert(children@.take(children@.len() as int) =~= children@);
    }
    out
}

/// Flatten a sibling list into `out`, appending in display order.
pub fn flatten_forest(
    nodes: &Vec<FsNode>,
    exp: &Vec<String>,
    show_hidden: bool,
    depth: usize,
    out: &mut Vec<FileEntry>,
)
    requires
        depth + forest_size(nodes@) <= usize::MAX,
    ensures
        entry_models(final(out)@) == entry_models(old(out)@) + flat_forest(
            sort_nodes(nodes@),
            exp@,
            show_hidden,
            depth as int,
        ),
    decreases forest_size(nodes@),
{
    let sorted = sort_children(nodes);
    let ghost s = sort_nodes(nodes@);
    proof {
        lemma_sort_nodes_size(nodes@);
        assert(s.take(0) =~= Seq::<FsNode>::empty());
        assert(entry_models(out@) =~= entry_models(out@) + flat_forest(
            s.take(0),
            exp@,
            show_hidden,
            depth as int,
        ));
    }
    let mut i: usize = 0;
    while i < sorted.len()
        invariant
            s == sort_nodes(nodes@),
            deref_seq(sorted@) == s,
            sorted@.len() == s.len(),
            forest_size(s) == forest_size(nodes@),
            depth + forest_size(nodes@) <= usize::MAX,
            0 <= i <= s.len(),
            entry_models(out@) == entry_models(old(out)@) + flat_forest(
                s.take(i as int),
                exp@,
                show_hidden,
                depth as int,
            ),
        decreases s.len() - i,
    {
        let n: &FsNode = sorted[i];
        proof {
            assert(*n == s[i as int]);
        }
        let ghost before = entry_models(out@);
        let hidden = n.is_hidden();
        let ghost expanded_g = crate::strutil::str_in(exp@, n.path@);
        if show_hidden || !hidden {
            let expanded = crate::strutil::path_list_contains(exp, n.path.as_str());
            let dir = n.is_dir();
            let e = FileEntry {
                name: n.name.clone(),
                path: n.path.clone(),
                entry_type: n.kind,
                is_hidden: hidden,
                is_expanded: expanded,
                depth: depth,
                is_executable: n.is_executable,
            };
            proof {
                assert(e@ == entry_of(s[i as int], depth as int, expanded));
            }
            out.push(e);
            proof {
                assert(entry_models(out@) =~= before.push(
                    entry_of(s[i as int], depth as int, expanded_g),
                ));
            }
            if dir && expanded {
                proof {
                    lemma_member_size(s, i as int);
                    crate::node::lemma_node_size_at_least_one(s[i as int]);
                }
                flatten_forest(&n.children, exp, show_hidden, depth + 1, out);
            }
        }
        proof {
            assert(s.take(i + 1) =~= s.take(i as int) + seq![s[i as int]]);
            lemma_flat_forest_concat(
                s.take(i as int),
                seq![s[i as int]],
                exp@,
                show_hidden,
                depth as int,
            );
            let single = seq![s[i as int]];
            assert(single.drop_first() =~= Seq::<FsNode>::empty());
            assert(single[0] == s[i as int]);
            assert(flat_forest(Seq::<FsNode>::empty(), exp@, show_hidden, depth as int) =~= Seq::<
                EntryModel,
            >::empty());
            assert(flat_forest(single.drop_first(), exp@, show_hidden, depth as int) =~= Seq::<
                EntryModel,
            >::empty());
            let one = flat_forest(single, exp@, show_hidden, depth as int);
            if !show_hidden && s[i as int].spec_is_hidden() {
                assert(one =~= Seq::<EntryModel>::empty());
                assert(entry_models(out@) =~= entry_models(old(out)@) + flat_forest(
                    s.take(i + 1),
                    exp@,
                    show_hidden,
                    depth as int,
                ));
            } else {
                let sub = if s[i as int].spec_is_dir() && expanded_g {
                    flat_forest(
                        sort_nodes(s[i as int].children@),
                        exp@,
                        show_hidden,
                        depth + 1,
                    )
                } else {
                    Seq::<EntryModel>::empty()
                };
                assert(one =~= seq![entry_of(s[i as int], depth as int, expanded_g)] + sub);
                assert(entry_models(out@) =~= before.push(
                    entry_of(s[i as int], depth as int, expanded_g),
                ) + sub);
                assert(entry_models(out@) =~= entry_models(old(out)@) + flat_forest(
                    s.take(i + 1),
                    exp@,
                    show_hidden,
                    depth as int,
                ));
            }
        }
        i += 1;
    }
    proof {
        assert(s.take(s.len() as int) =~= s);
    }
}

/// Build the visible sequence for a snapshot: the root's children flattened
/// at depth zero under the given expansion set and hidden-file toggle.
pub fn build_tree(root: &FsNode, expanded_paths: &Vec<String>, show_hidden: bool) -> (r: Vec<
    FileEntry,
>)
    requires
        forest_size(root.children@) <= usize::MAX,
    ensures
        entry_models(r@) == spec_build_tree(*root, expanded_paths@, show_hidden),
{
    let mut out: Vec<FileEntry> = Vec::new();
    proof {
        assert(entry_models(out@) =~= Seq::<EntryModel>::empty());
    }
    flatten_forest(&root.children, expanded_paths, show_hidden, 0, &mut out);
    proof {
        assert(entry_models(out@) =~= spec_build_tree(*root, expanded_paths@, show_hidden));
    }
    out
}

/// Flatten a sibling list with every directory expanded, stopping once
/// `out` holds `cap` entries.  Returns whether anything was left out.
fn flatten_all_forest_exec(
    nodes: &Vec<FsNode>,
    show_hidden: bool,
    depth: usize,
    cap: usize,
    out: &mut Vec<FileEntry>,
) -> (more: bool)
    requires
        depth + forest_size(nodes@) <= usize::MAX,
        old(out)@.len() <= cap,
    ensures
        entry_models(final(out)@) == cap_take(
            entry_models(old(out)@) + flat_all_forest(
                sort_nodes(nodes@),
                show_hidden,
                depth as int,
            ),
            cap as int,
        ),
        final(out)@.len() <= cap,
        more == (old(out)@.len() + flat_all_forest(
            sort_nodes(nodes@),
            show_hidden,
            depth as int,
        ).len() > cap),
    decreases forest_size(nodes@),
{
    let sorted = sort_children(nodes);
    let ghost s = sort_nodes(nodes@);
    let ghost base = entry_models(old(out)@);
    proof {
        lemma_sort_nodes_size(nodes@);
        assert(s.take(0) =~= Seq::<FsNode>::empty());
        assert(cap_take(base + flat_all_forest(s.take(0), show_hidden, depth as int), cap as int)
            =~= base);
    }
    let mut more = false;
    let mut i: usize = 0;
    while i < sorted.len()
        invariant
            s == sort_nodes(nodes@),
            deref_seq(sorted@) == s,
            sorted@.len() == s.len(),
            forest_size(s) == forest_size(nodes@),
            depth + forest_size(nodes@) <= usize::MAX,
            base == entry_models(old(out)@),
            0 <= i <= s.len(),
            out@.len() <= cap,
            entry_models(out@) == cap_take(
                base + flat_all_forest(s.take(i as int), show_hidden, depth as int),
                cap as int,
            ),
            more == (base.len() + flat_all_forest(
                s.take(i as int),
                show_hidden,
                depth as int,
            ).len() > cap),
        decreases s.len() - i,
    {
        let n: &FsNode = sorted[i];
        proof {
            assert(*n == s[i as int]);
        }
        let ghost cur = entry_models(out@);
        let ghost f_i = flat_all_forest(s.take(i as int), show_hidden, depth as int);
        let hidden = n.is_hidden();
        let ghost one = flat_all_forest(seq![s[i as int]], show_hidden, depth as int);
        proof {
            let single = seq![s[i as int]];
            assert(single.drop_first() =~= Seq::<FsNode>::empty());
            assert(single[0] == s[i as int]);
            assert(flat_all_forest(Seq::<FsNode>::empty(), show_hidden, depth as int) =~= Seq::<
                EntryModel,
            >::empty());
            assert(flat_all_forest(single.drop_first(), show_hidden, depth as int) =~= Seq::<
                EntryModel,
            >::empty());
            assert(s.take(i + 1) =~= s.take(i as int) + single);
            lemma_flat_all_forest_concat(s.take(i as int), single, show_hidden, depth as int);
        }
        if show_hidden || !hidden {
            if out.len() < cap {
                proof {
                    assert(cur.len() < cap);
                    assert(cur =~= base + f_i);
                }
                let dir = n.is_dir();
                let e = FileEntry {
                    name: n.name.clone(),
                    path: n.path.clone(),
                    entry_type: n.kind,
                    is_hidden: hidden,
                    is_expanded: dir,
                    depth: depth,
                    is_executable: n.is_executable,
                };
                proof {
                    assert(e@ == entry_of(s[i as int], depth as int, s[i as int].spec_is_dir()));
                }
                out.push(e);
                proof {
                    assert(entry_models(out@) =~= cur.push(
                        entry_of(s[i as int], depth as int, s[i as int].spec_is_dir()),
                    ));
                }
                if dir {
                    proof {
                        lemma_member_size(s, i as int);
                        crate::node::lemma_node_size_at_least_one(s[i as int]);
                    }
                    let sub_more = flatten_all_forest_exec(
                        &n.children,
                        show_hidden,
                        depth + 1,
                        cap,
                        out,
                    );
                    if sub_more {
                        more = true;
                    }
                    proof {
                        let sub = flat_all_forest(
                            sort_nodes(s[i as int].children@),
                            show_hidden,
                            depth + 1,
                        );
                        assert(one =~= seq![
                            entry_of(s[i as int], depth as int, s[i as int].spec_is_dir()),
                        ] + sub);
                        assert(base + flat_all_forest(
                            s.take(i + 1),
                            show_hidden,
                            depth as int,
                        ) =~= cur.push(
                            entry_of(s[i as int], depth as int, s[i as int].spec_is_dir()),
                        ) + sub);
                    }
                } else {
                    proof {
                        assert(one =~= seq![entry_of(s[i as int], depth as int, false)]);
                        assert(base + flat_all_forest(s.take(i + 1), show_hidden, depth as int)
                            =~= entry_models(out@));
                        assert(entry_models(out@).len() <= cap);
                    }
                }
            } else {
                more = true;
                proof {
                    assert(cur.len() == cap);
                    assert(one.len() >= 1);
                    let whole = base + flat_all_forest(s.take(i + 1), show_hidden, depth as int);
                    assert(whole.len() > cap);
                    assert(whole.take(cap as int) =~= (base + f_i).take(cap as int));
                    assert(cap_take(base + f_i, cap as int) =~= (base + f_i).take(cap as int));
                    assert(entry_models(out@) == cap_take(whole, cap as int));
                }
            }
        } else {
            proof {
                assert(one =~= Seq::<EntryModel>::empty());
                assert(base + flat_all_forest(s.take(i + 1), show_hidden, depth as int) =~= base
                    + f_i);
            }
        }
        i += 1;
    }
    proof {
        assert(s.take(s.len() as int) =~= s);
    }
    more
}

/// Build the fully expanded visible sequence of a snapshot, keeping at most
/// `cap` entries.  The second component reports whether the result was
/// truncated.
pub fn build_tree_fully_expanded(root: &FsNode, show_hidden: bool, cap: usize) -> (r: (
    Vec<FileEntry>,
    bool,
))
    requires
        forest_size(root.children@) <= usize::MAX,
    ensures
        entry_models(r.0@) == cap_take(spec_build_tree_all(*root, show_hidden), cap as int),
        r.0@.len() <= cap,
        r.1 == (spec_build_tree_all(*root, show_hidden).len() > cap),
{
    let mut out: Vec<FileEntry> = Vec::new();
    proof {
        assert(entry_models(out@) =~= Seq::<EntryModel>::empty());
    }
    let truncated = flatten_all_forest_exec(&root.children, show_hidden, 0, cap, &mut out);
    proof {
        assert(Seq::<EntryModel>::empty() + spec_build_tree_all(*root, show_hidden)
            =~= spec_build_tree_all(*root, show_hidden));
    }
    (out, truncated)
}

} // verus!
