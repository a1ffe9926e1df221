//! The library's laws: proved statements that relate several operations.
//!
//! Each proof function here is part of the library's stated behavior; the
//! function contracts alone imply them, and they are written down so that a
//! reader sees the claims themselves.

use vstd::prelude::*;

use crate::app::{collapsed_at, expanded_paths_of, parent_scan, toggled_at};
use crate::entry::{EntryModel, FileEntry};
use crate::flatten::{
    entry_of, flat_forest, insert_sorted, lemma_member_size, lemma_node_lt_irreflexive,
    lemma_node_lt_transitive, lemma_sort_nodes_size, node_lt, sort_nodes, sorted_forest,
};
use crate::node::{forest_size, lemma_node_size_at_least_one, node_size, FsNode};
use crate::preview::PreviewData;
use crate::recency::{fresh_at, swept, RECENT_CHANGE_WINDOW_MILLIS};
use crate::strutil::str_in;

verus! {

/// How often path `p` occurs in the subtree of `n`, children taken in
/// their sorted order as the flattener walks them.
pub open spec fn count_in_tree(n: FsNode, p: Seq<char>) -> nat
    decreases node_size(n), 0nat,
    via count_in_tree_decreases
{
    (if n.path@ == p {
        1nat
    } else {
        0nat
    }) + count_in_forest(sort_nodes(n.children@), p)
}

/// How often path `p` occurs in a forest.
pub open spec fn count_in_forest(s: Seq<FsNode>, p: Seq<char>) -> nat
    decreases forest_size(s), s.len(),
    via count_in_forest_decreases
{
    if s.len() == 0 {
        0
    } else {
        count_in_tree(s[0], p) + count_in_forest(s.drop_first(), p)
    }
}

#[via_fn]
proof fn count_in_tree_decreases(n: FsNode, p: Seq<char>) {
    lemma_sort_nodes_size(n.children@);
}

#[via_fn]
proof fn count_in_forest_decreases(s: Seq<FsNode>, p: Seq<char>) {
    if s.len() > 0 {
        lemma_node_size_at_least_one(s[0]);
        assert(forest_size(s) == node_size(s[0]) + forest_size(s.drop_first()));
    }
}

/// The flattener reaches an entry with path `p` somewhere below `n`: the
/// node passes the hidden filter, and `p` is its own path or lies below an
/// expanded directory further down.
pub open spec fn visible_in_tree(n: FsNode, exp: Seq<String>, show_hidden: bool, p: Seq<
    char,
>) -> bool
    decreases node_size(n), 0nat,
    via visible_in_tree_decreases
{
    (show_hidden || !n.spec_is_hidden()) && (n.path@ == p || (n.spec_is_dir() && str_in(
        exp,
        n.path@,
    ) && visible_in_forest(sort_nodes(n.children@), exp, show_hidden, p)))
}

/// The flattener reaches an entry with path `p` somewhere in a forest.
pub open spec fn visible_in_forest(
    s: Seq<FsNode>,
    exp: Seq<String>,
    show_hidden: bool,
    p: Seq<char>,
) -> bool
    decreases forest_size(s), s.len(),
    via visible_in_forest_decreases
{
    if s.len() == 0 {
        false
    } else {
        visible_in_tree(s[0], exp, show_hidden, p) || visible_in_forest(
            s.drop_first(),
            exp,
            show_hidden,
            p,
        )
    }
}

#[via_fn]
proof fn visible_in_tree_decreases(n: FsNode, exp: Seq<String>, show_hidden: bool, p: Seq<char>) {
    lemma_sort_nodes_size(n.children@);
}

#[via_fn]
proof fn visible_in_forest_decreases(
    s: Seq<FsNode>,
    exp: Seq<String>,
    show_hidden: bool,
    p: Seq<char>,
) {
    if s.len() > 0 {
        lemma_node_size_at_least_one(s[0]);
        assert(forest_size(s) == node_size(s[0]) + forest_size(s.drop_first()));
    }
}

/// A reachable path occurs in the subtree.
pub proof fn lemma_visible_tree_count(n: FsNode, exp: Seq<String>, show_hidden: bool, p: Seq<char>)
    requires
        visible_in_tree(n, exp, show_hidden, p),
    ensures
        count_in_tree(n, p) >= 1,
    decreases node_size(n), 0nat,
{
    lemma_sort_nodes_size(n.children@);
    if n.path@ != p {
        lemma_visible_forest_count(sort_nodes(n.children@), exp, show_hidden, p);
    }
}

/// A reachable path occurs in the forest.
pub proof fn lemma_visible_forest_count(
    s: Seq<FsNode>,
    exp: Seq<String>,
    show_hidden: bool,
    p: Seq<char>,
)
    requires
        visible_in_forest(s, exp, show_hidden, p),
    ensures
        count_in_forest(s, p) >= 1,
    decreases forest_size(s), s.len(),
{
    lemma_node_size_at_least_one(s[0]);
    assert(forest_size(s) == node_size(s[0]) + forest_size(s.drop_first()));
    if visible_in_tree(s[0], exp, show_hidden, p) {
        lemma_visible_tree_count(s[0], exp, show_hidden, p);
    } else {
        lemma_visible_forest_count(s.drop_first(), exp, show_hidden, p);
    }
}

/// Every entry of a flattened forest lies at the forest's depth or deeper.
pub proof fn lemma_flat_forest_depths(s: Seq<FsNode>, exp: Seq<String>, show_hidden: bool, d: int)
    ensures
        forall|k: int|
            0 <= k < flat_forest(s, exp, show_hidden, d).len() ==> #[trigger] flat_forest(
                s,
                exp,
                show_hidden,
                d,
            )[k].depth >= d,
    decreases forest_size(s), s.len(),
{
    if s.len() > 0 {
        lemma_node_size_at_least_one(s[0]);
        lemma_member_size(s, 0);
        lemma_sort_nodes_size(s[0].children@);
        assert(forest_size(s) == node_size(s[0]) + forest_size(s.drop_first()));
        lemma_flat_forest_depths(s.drop_first(), exp, show_hidden, d);
        lemma_flat_forest_depths(sort_nodes(s[0].children@), exp, show_hidden, d + 1);
    }
}

/// A change of expansion set that only touches a path absent from the
/// forest leaves the flattening alone.
pub proof fn lemma_flat_forest_exp_indep(
    s: Seq<FsNode>,
    exp: Seq<String>,
    exp2: Seq<String>,
    show_hidden: bool,
    d: int,
    p: Seq<char>,
)
    requires
        forall|q: Seq<char>| #[trigger] str_in(exp2, q) <==> (str_in(exp, q) || q == p),
        count_in_forest(s, p) == 0,
    ensures
        flat_forest(s, exp2, show_hidden, d) == flat_forest(s, exp, show_hidden, d),
    decreases forest_size(s), s.len(),
{
    if s.len() > 0 {
        lemma_node_size_at_least_one(s[0]);
        lemma_member_size(s, 0);
        lemma_sort_nodes_size(s[0].children@);
        assert(forest_size(s) == node_size(s[0]) + forest_size(s.drop_first()));
        assert(count_in_tree(s[0], p) == 0);
        assert(s[0].path@ != p);
        assert(str_in(exp2, s[0].path@) == str_in(exp, s[0].path@));
        lemma_flat_forest_exp_indep(s.drop_first(), exp, exp2, show_hidden, d, p);
        lemma_flat_forest_exp_indep(
            sort_nodes(s[0].children@),
            exp,
            exp2,
            show_hidden,
            d + 1,
            p,
        );
        assert(flat_forest(s, exp2, show_hidden, d) =~= flat_forest(s, exp, show_hidden, d));
    }
}

/// The shape of an expansion: `e2` is `e` with the entry at `i` switched
/// to expanded and the run `c` of strictly deeper entries spliced in right
/// after it; nothing else moves.  Read right to left it is the shape of a
/// collapse: removing exactly that run and clearing the flag restores `e`.
pub open spec fn expansion_run_at(
    e: Seq<EntryModel>,
    e2: Seq<EntryModel>,
    i: int,
    c: Seq<EntryModel>,
    p: Seq<char>,
) -> bool {
    &&& 0 <= i < e.len()
    &&& e[i].path == p
    &&& !e[i].is_expanded
    &&& e2 == e.take(i) + seq![EntryModel { is_expanded: true, ..e[i] }] + c + e.skip(i + 1)
    &&& forall|k: int| 0 <= k < c.len() ==> #[trigger] c[k].depth > e[i].depth
}

/// Expansion round trip: adding one reachable, so-far-unexpanded path `p`
/// to the expansion set splices that entry's descendant run in right after
/// its entry, switches its flag, and moves nothing else; removing `p`
/// again removes exactly that run.
#[verifier::rlimit(60)]
pub proof fn lemma_expansion_round_trip(
    s: Seq<FsNode>,
    exp: Seq<String>,
    exp2: Seq<String>,
    show_hidden: bool,
    d: int,
    p: Seq<char>,
)
    requires
        forall|q: Seq<char>| #[trigger] str_in(exp2, q) <==> (str_in(exp, q) || q == p),
        !str_in(exp, p),
        visible_in_forest(s, exp, show_hidden, p),
        count_in_forest(s, p) == 1,
    ensures
        exists|i: int, c: Seq<EntryModel>|
            expansion_run_at(
                flat_forest(s, exp, show_hidden, d),
                flat_forest(s, exp2, show_hidden, d),
                i,
                c,
                p,
            ),
    decreases forest_size(s), s.len(),
{
    let e = flat_forest(s, exp, show_hidden, d);
    let e2 = flat_forest(s, exp2, show_hidden, d);
    let n = s[0];
    let rest = s.drop_first();
    let restflat = flat_forest(rest, exp, show_hidden, d);
    let restflat2 = flat_forest(rest, exp2, show_hidden, d);
    lemma_node_size_at_least_one(n);
    lemma_member_size(s, 0);
    lemma_sort_nodes_size(n.children@);
    assert(forest_size(s) == node_size(n) + forest_size(rest));
    let kids = sort_nodes(n.children@);
    if visible_in_tree(n, exp, show_hidden, p) {
        lemma_visible_tree_count(n, exp, show_hidden, p);
        assert(count_in_tree(n, p) == 1);
        assert(count_in_forest(rest, p) == 0);
        lemma_flat_forest_exp_indep(rest, exp, exp2, show_hidden, d, p);
        assert(restflat2 == restflat);
        if n.path@ == p {
            assert(count_in_forest(kids, p) == 0);
            assert(!str_in(exp, p));
            assert(str_in(exp2, p));
            let hd = entry_of(n, d, false);
            let hd2 = entry_of(n, d, true);
            let sub2 = if n.spec_is_dir() {
                flat_forest(kids, exp2, show_hidden, d + 1)
            } else {
                Seq::<EntryModel>::empty()
            };
            assert(e =~= seq![hd] + restflat);
            assert(e2 =~= seq![hd2] + sub2 + restflat);
            assert(e[0] == hd);
            assert(hd2 == EntryModel { is_expanded: true, ..e[0] });
            assert(e.take(0) =~= Seq::<EntryModel>::empty());
            assert(e.skip(1) =~= restflat);
            lemma_flat_forest_depths(kids, exp2, show_hidden, d + 1);
            assert(forall|k: int| 0 <= k < sub2.len() ==> #[trigger] sub2[k].depth > d);
            assert(e2 =~= e.take(0) + seq![EntryModel { is_expanded: true, ..e[0] }] + sub2
                + e.skip(1));
            assert(expansion_run_at(e, e2, 0, sub2, p));
        } else {
            assert(show_hidden || !n.spec_is_hidden());
            assert(n.spec_is_dir());
            assert(str_in(exp, n.path@));
            assert(str_in(exp2, n.path@));
            assert(visible_in_forest(kids, exp, show_hidden, p));
            assert(count_in_forest(kids, p) == 1);
            let sub = flat_forest(kids, exp, show_hidden, d + 1);
            let sub2 = flat_forest(kids, exp2, show_hidden, d + 1);
            lemma_expansion_round_trip(kids, exp, exp2, show_hidden, d + 1, p);
            let (ic, c) = choose|ic: int, c: Seq<EntryModel>| expansion_run_at(sub, sub2, ic, c, p);
            let hd = entry_of(n, d, true);
            assert(e =~= seq![hd] + sub + restflat);
            assert(e2 =~= seq![hd] + sub2 + restflat);
            let i = 1 + ic;
            assert(e[i] == sub[ic]);
            assert(e.take(i) =~= seq![hd] + sub.take(ic));
            assert(e.skip(i + 1) =~= sub.skip(ic + 1) + restflat);
            assert(e2 =~= e.take(i) + seq![EntryModel { is_expanded: true, ..e[i] }] + c + e.skip(
                i + 1,
            ));
            assert(expansion_run_at(e, e2, i, c, p));
        }
    } else {
        assert(visible_in_forest(rest, exp, show_hidden, p));
        lemma_visible_forest_count(rest, exp, show_hidden, p);
        assert(count_in_forest(rest, p) == 1);
        assert(count_in_tree(n, p) == 0);
        assert(n.path@ != p);
        assert(count_in_forest(kids, p) == 0);
        lemma_expansion_round_trip(rest, exp, exp2, show_hidden, d, p);
        let (ir, c) = choose|ir: int, c: Seq<EntryModel>|
            expansion_run_at(restflat, restflat2, ir, c, p);
        if !show_hidden && n.spec_is_hidden() {
            assert(e == restflat);
            assert(e2 == restflat2);
            assert(expansion_run_at(e, e2, ir, c, p));
        } else {
            assert(str_in(exp2, n.path@) == str_in(exp, n.path@));
            let flag = str_in(exp, n.path@);
            let hd = entry_of(n, d, flag);
            let sub = if n.spec_is_dir() && flag {
                flat_forest(kids, exp, show_hidden, d + 1)
            } else {
                Seq::<EntryModel>::empty()
            };
            lemma_flat_forest_exp_indep(kids, exp, exp2, show_hidden, d + 1, p);
            assert(e =~= seq![hd] + sub + restflat);
            assert(e2 =~= seq![hd] + sub + restflat2);
            let i = 1 + sub.len() + ir;
            assert(e[i] == restflat[ir]);
            assert(e.take(i) =~= seq![hd] + sub + restflat.take(ir));
            assert(e.skip(i + 1) =~= restflat.skip(ir + 1));
            assert(e2 =~= e.take(i) + seq![EntryModel { is_expanded: true, ..e[i] }] + c + e.skip(
                i + 1,
            ));
            assert(expansion_run_at(e, e2, i, c, p));
        }
    }
}

/// Membership in a concatenation of path lists splits over its parts.
proof fn lemma_str_in_concat(a: Seq<String>, b: Seq<String>, q: Seq<char>)
    ensures
        str_in(a + b, q) <==> (str_in(a, q) || str_in(b, q)),
{
    if str_in(a + b, q) {
        let i = choose|i: int| 0 <= i < (a + b).len() && (a + b)[i]@ == q;
        if i < a.len() {
            assert(a[i]@ == q);
        } else {
            assert(b[i - a.len()]@ == q);
        }
    }
    if str_in(a, q) {
        let i = choose|i: int| 0 <= i < a.len() && a[i]@ == q;
        assert((a + b)[i]@ == q);
    }
    if str_in(b, q) {
        let i = choose|i: int| 0 <= i < b.len() && b[i]@ == q;
        assert((a + b)[a.len() + i]@ == q);
    }
}

/// Toggling on the expansion flag of entry `i` adds exactly that entry's
/// path to the projected expansion set: together with the round-trip law
/// this is what `toggle_expand` hands the rebuild.
pub proof fn lemma_toggle_adds_path(s: Seq<FileEntry>, i: int)
    requires
        0 <= i < s.len(),
        !s[i].is_expanded,
    ensures
        forall|q: Seq<char>| #[trigger]
            str_in(expanded_paths_of(toggled_at(s, i)), q) <==> (str_in(expanded_paths_of(s), q)
                || q == s[i].path@),
    decreases s.len(),
{
    let t = toggled_at(s, i);
    if i == s.len() - 1 {
        assert(t.drop_last() =~= s.drop_last());
        assert(t.last() == FileEntry { is_expanded: true, ..s[i] });
        assert(expanded_paths_of(t) == expanded_paths_of(s.drop_last()) + seq![t.last().path]);
        assert(expanded_paths_of(s) == expanded_paths_of(s.drop_last()) + Seq::<String>::empty());
        assert forall|q: Seq<char>| #[trigger]
            str_in(expanded_paths_of(t), q) <==> (str_in(expanded_paths_of(s), q) || q
                == s[i].path@) by {
            lemma_str_in_concat(expanded_paths_of(s.drop_last()), seq![t.last().path], q);
            lemma_str_in_concat(expanded_paths_of(s.drop_last()), Seq::<String>::empty(), q);
            let single = seq![t.last().path];
            assert(single[0] == t.last().path);
            if q == s[i].path@ {
                assert(single[0]@ == q);
                assert(str_in(single, q));
            }
            if str_in(single, q) {
                let w = choose|w: int| 0 <= w < single.len() && single[w]@ == q;
                assert(w == 0);
                assert(q == s[i].path@);
            }
        }
    } else {
        assert(t.drop_last() =~= toggled_at(s.drop_last(), i));
        assert(t.last() == s.last());
        lemma_toggle_adds_path(s.drop_last(), i);
        let tail = if s.last().is_expanded {
            seq![s.last().path]
        } else {
            Seq::<String>::empty()
        };
        assert(expanded_paths_of(t) == expanded_paths_of(toggled_at(s.drop_last(), i)) + tail);
        assert(expanded_paths_of(s) == expanded_paths_of(s.drop_last()) + tail);
        assert forall|q: Seq<char>| #[trigger]
            str_in(expanded_paths_of(t), q) <==> (str_in(expanded_paths_of(s), q) || q
                == s[i].path@) by {
            lemma_str_in_concat(expanded_paths_of(toggled_at(s.drop_last(), i)), tail, q);
            lemma_str_in_concat(expanded_paths_of(s.drop_last()), tail, q);
            assert(s.drop_last()[i] == s[i]);
        }
    }
}

/// Clearing the expansion flag of entry `i` removes exactly that entry's
/// path from the projected expansion set, provided no other expanded entry
/// shares its path: what a collapse hands the rebuild.
pub proof fn lemma_collapse_removes_path(s: Seq<FileEntry>, i: int)
    requires
        0 <= i < s.len(),
        s[i].is_expanded,
        forall|j: int|
            0 <= j < s.len() && j != i && (#[trigger] s[j]).is_expanded ==> s[j].path@
                != s[i].path@,
    ensures
        forall|q: Seq<char>| #[trigger]
            str_in(expanded_paths_of(collapsed_at(s, i)), q) <==> (str_in(
                expanded_paths_of(s),
                q,
            ) && q != s[i].path@),
    decreases s.len(),
{
    let t = collapsed_at(s, i);
    if i == s.len() - 1 {
        assert(t.drop_last() =~= s.drop_last());
        assert(!t.last().is_expanded);
        assert(expanded_paths_of(t) == expanded_paths_of(s.drop_last()) + Seq::<String>::empty());
        assert(expanded_paths_of(s) == expanded_paths_of(s.drop_last()) + seq![s.last().path]);
        assert forall|q: Seq<char>| #[trigger]
            str_in(expanded_paths_of(t), q) <==> (str_in(expanded_paths_of(s), q) && q
                != s[i].path@) by {
            lemma_str_in_concat(expanded_paths_of(s.drop_last()), Seq::<String>::empty(), q);
            lemma_str_in_concat(expanded_paths_of(s.drop_last()), seq![s.last().path], q);
            if q == s[i].path@ && str_in(expanded_paths_of(s.drop_last()), q) {
                lemma_expanded_path_has_entry(s.drop_last(), q);
                let j = choose|j: int|
                    0 <= j < s.drop_last().len() && s.drop_last()[j].is_expanded && s.drop_last()[j].path@ == q;
                assert(s[j].is_expanded && s[j].path@ == s[i].path@);
            }
        }
    } else {
        assert(t.drop_last() =~= collapsed_at(s.drop_last(), i));
        assert(t.last() == s.last());
        assert(forall|j: int|
            0 <= j < s.drop_last().len() ==> s.drop_last()[j] == s[j]);
        lemma_collapse_removes_path(s.drop_last(), i);
        let tail = if s.last().is_expanded {
            seq![s.last().path]
        } else {
            Seq::<String>::empty()
        };
        assert(expanded_paths_of(t) == expanded_paths_of(collapsed_at(s.drop_last(), i)) + tail);
        assert(expanded_paths_of(s) == expanded_paths_of(s.drop_last()) + tail);
        assert forall|q: Seq<char>| #[trigger]
            str_in(expanded_paths_of(t), q) <==> (str_in(expanded_paths_of(s), q) && q
                != s[i].path@) by {
            lemma_str_in_concat(expanded_paths_of(collapsed_at(s.drop_last(), i)), tail, q);
            lemma_str_in_concat(expanded_paths_of(s.drop_last()), tail, q);
            if s.last().is_expanded && q == s.last().path@ {
                assert(s[s.len() - 1].is_expanded);
                assert(s.last().path@ != s[i].path@);
            }
        }
    }
}

/// A path in the projected expansion set belongs to some expanded entry.
proof fn lemma_expanded_path_has_entry(s: Seq<FileEntry>, q: Seq<char>)
    requires
        str_in(expanded_paths_of(s), q),
    ensures
        exists|j: int| 0 <= j < s.len() && (#[trigger] s[j]).is_expanded && s[j].path@ == q,
    decreases s.len(),
{
    if s.len() > 0 {
        let tail = if s.last().is_expanded {
            seq![s.last().path]
        } else {
            Seq::<String>::empty()
        };
        lemma_str_in_concat(expanded_paths_of(s.drop_last()), tail, q);
        if str_in(expanded_paths_of(s.drop_last()), q) {
            lemma_expanded_path_has_entry(s.drop_last(), q);
            let j = choose|j: int|
                0 <= j < s.drop_last().len() && s.drop_last()[j].is_expanded && s.drop_last()[j].path@ == q;
            assert(s[j].is_expanded && s[j].path@ == q);
        } else {
            assert(s.last().is_expanded && s.last().path@ == q);
            assert(s[s.len() - 1].is_expanded && s[s.len() - 1].path@ == q);
        }
    }
}

/// Insertion keeps a sibling list free of inversions.
proof fn lemma_insert_sorted_keeps_sorted(t: Seq<FsNode>, x: FsNode)
    requires
        sorted_forest(t),
    ensures
        sorted_forest(insert_sorted(t, x)),
    decreases t.len(),
{
    if t.len() == 0 {
    } else if node_lt(x, t[0]) {
        let r = seq![x] + t;
        assert forall|i: int, j: int| 0 <= i < j < r.len() implies !node_lt(r[j], r[i]) by {
            if i == 0 {
                if node_lt(r[j], x) {
                    lemma_node_lt_transitive(r[j], x, t[0]);
                    if j > 1 {
                        assert(node_lt(t[j - 1], t[0]));
                    } else {
                        lemma_node_lt_irreflexive(t[0]);
                    }
                }
            }
        }
    } else {
        assert(forall|i: int, j: int|
            0 <= i < j < t.drop_first().len() ==> !node_lt(
                t.drop_first()[j],
                t.drop_first()[i],
            ));
        lemma_insert_sorted_keeps_sorted(t.drop_first(), x);
        let ins = insert_sorted(t.drop_first(), x);
        let r = seq![t[0]] + ins;
        assert forall|i: int, j: int| 0 <= i < j < r.len() implies !node_lt(r[j], r[i]) by {
            if i == 0 {
                lemma_insert_sorted_element(t.drop_first(), x, j - 1);
                let y = r[j];
                if node_lt(y, t[0]) {
                    if y == x {
                        assert(!node_lt(x, t[0]));
                    } else {
                        let m = choose|m: int|
                            0 <= m < t.drop_first().len() && t.drop_first()[m] == y;
                        assert(!node_lt(t[m + 1], t[0]));
                    }
                }
            }
        }
    }
}

/// Every element of an insertion came from the list or is the newcomer.
proof fn lemma_insert_sorted_element(t: Seq<FsNode>, x: FsNode, j: int)
    requires
        0 <= j < insert_sorted(t, x).len(),
    ensures
        insert_sorted(t, x)[j] == x || exists|m: int| 0 <= m < t.len() && t[m] == insert_sorted(
            t,
            x,
        )[j],
    decreases t.len(),
{
    if t.len() == 0 {
    } else if node_lt(x, t[0]) {
    } else {
        if j >= 1 {
            lemma_insert_sorted_element(t.drop_first(), x, j - 1);
            let y = insert_sorted(t, x)[j];
            if y != x {
                let m = choose|m: int| 0 <= m < t.drop_first().len() && t.drop_first()[m] == y;
                assert(t[m + 1] == y);
            }
        }
    }
}

/// A sorted sibling list has directories before files and names in
/// case-insensitive order: sorting produces no inversions.
pub proof fn lemma_sort_nodes_sorted(s: Seq<FsNode>)
    ensures
        sorted_forest(sort_nodes(s)),
    decreases s.len(),
{
    if s.len() > 0 {
        lemma_sort_nodes_sorted(s.drop_last());
        lemma_insert_sorted_keeps_sorted(sort_nodes(s.drop_last()), s.last());
    }
}

/// Hidden filter: while hidden files are off, nothing the flattener emits
/// is hidden.
pub proof fn lemma_flatten_hides_hidden(s: Seq<FsNode>, exp: Seq<String>, d: int)
    ensures
        forall|k: int|
            0 <= k < flat_forest(s, exp, false, d).len() ==> !(#[trigger] flat_forest(
                s,
                exp,
                false,
                d,
            )[k].is_hidden),
    decreases forest_size(s), s.len(),
{
    if s.len() > 0 {
        lemma_node_size_at_least_one(s[0]);
        lemma_member_size(s, 0);
        lemma_sort_nodes_size(s[0].children@);
        assert(forest_size(s) == node_size(s[0]) + forest_size(s.drop_first()));
        lemma_flatten_hides_hidden(s.drop_first(), exp, d);
        lemma_flatten_hides_hidden(sort_nodes(s[0].children@), exp, d + 1);
    }
}

/// Every reachable path gets an entry: in particular, with hidden files
/// on, every child of an expanded directory is in the sequence.
pub proof fn lemma_visible_has_entry(
    s: Seq<FsNode>,
    exp: Seq<String>,
    show_hidden: bool,
    d: int,
    p: Seq<char>,
)
    requires
        visible_in_forest(s, exp, show_hidden, p),
    ensures
        exists|k: int|
            0 <= k < flat_forest(s, exp, show_hidden, d).len() && #[trigger] flat_forest(
                s,
                exp,
                show_hidden,
                d,
            )[k].path == p,
    decreases forest_size(s), s.len(),
{
    let e = flat_forest(s, exp, show_hidden, d);
    let n = s[0];
    let rest = s.drop_first();
    let restflat = flat_forest(rest, exp, show_hidden, d);
    lemma_node_size_at_least_one(n);
    lemma_member_size(s, 0);
    lemma_sort_nodes_size(n.children@);
    assert(forest_size(s) == node_size(n) + forest_size(rest));
    let kids = sort_nodes(n.children@);
    if visible_in_tree(n, exp, show_hidden, p) {
        let flag = str_in(exp, n.path@);
        let hd = entry_of(n, d, flag);
        let sub = if n.spec_is_dir() && flag {
            flat_forest(kids, exp, show_hidden, d + 1)
        } else {
            Seq::<EntryModel>::empty()
        };
        assert(e =~= seq![hd] + sub + restflat);
        if n.path@ == p {
            assert(e[0].path == p);
        } else {
            lemma_visible_has_entry(kids, exp, show_hidden, d + 1, p);
            let k = choose|k: int| 0 <= k < sub.len() && sub[k].path == p;
            assert(e[1 + k].path == p);
        }
    } else {
        lemma_visible_has_entry(rest, exp, show_hidden, d, p);
        let k = choose|k: int| 0 <= k < restflat.len() && restflat[k].path == p;
        if !show_hidden && n.spec_is_hidden() {
            assert(e[k].path == p);
        } else {
            let flag = str_in(exp, n.path@);
            let hd = entry_of(n, d, flag);
            let sub = if n.spec_is_dir() && flag {
                flat_forest(kids, exp, show_hidden, d + 1)
            } else {
                Seq::<EntryModel>::empty()
            };
            assert(e =~= seq![hd] + sub + restflat);
            assert(e[1 + sub.len() + k].path == p);
        }
    }
}

/// A sibling list none of whose directories is expanded flattens to one
/// level: every entry sits exactly at the list's depth.
pub proof fn lemma_flat_forest_single_level(
    s: Seq<FsNode>,
    exp: Seq<String>,
    show_hidden: bool,
    d: int,
)
    requires
        forall|j: int|
            0 <= j < s.len() ==> !((#[trigger] s[j]).spec_is_dir() && str_in(exp, s[j].path@)),
    ensures
        forall|k: int|
            0 <= k < flat_forest(s, exp, show_hidden, d).len() ==> #[trigger] flat_forest(
                s,
                exp,
                show_hidden,
                d,
            )[k].depth == d,
    decreases s.len(),
{
    if s.len() > 0 {
        assert(forall|j: int|
            0 <= j < s.drop_first().len() ==> s.drop_first()[j] == s[j + 1]);
        lemma_flat_forest_single_level(s.drop_first(), exp, show_hidden, d);
        assert(!(s[0].spec_is_dir() && str_in(exp, s[0].path@)));
    }
}

/// The parent scan lands on the nearest preceding directory of smaller
/// depth: the index it returns qualifies and nothing between it and the
/// start does; when it returns nothing, no index at or before the start
/// qualifies.
pub proof fn lemma_parent_scan_correct(s: Seq<FileEntry>, i: int, d: int)
    requires
        i < s.len(),
    ensures
        match parent_scan(s, i, d) {
            Some(j) => {
                &&& 0 <= j <= i
                &&& s[j].entry_type is Directory
                &&& (s[j].depth as int) < d
                &&& forall|k: int|
                    j < k <= i ==> !((#[trigger] s[k]).entry_type is Directory && (
                    s[k].depth as int) < d)
            },
            None => forall|k: int|
                0 <= k <= i ==> !((#[trigger] s[k]).entry_type is Directory && (s[k].depth as int)
                    < d),
        },
    decreases i + 1,
{
    if i >= 0 {
        if !(s[i].entry_type is Directory && (s[i].depth as int) < d) {
            lemma_parent_scan_correct(s, i - 1, d);
        }
    }
}

/// Recency window: a recorded path is recent the moment it is recorded,
/// and no longer recent once the window has elapsed; a sweep keeps exactly
/// the fresh records, at their recorded instants.
pub proof fn lemma_recency_expiry(m: Map<Seq<char>, u64>, p: Seq<char>, t: u64, now: u64)
    ensures
        m.insert(p, t).contains_key(p) && m.insert(p, t)[p] == t,
        fresh_at(t, t),
        (now as int) >= (t as int) + (RECENT_CHANGE_WINDOW_MILLIS as int) ==> !fresh_at(t, now),
        swept(m, now).contains_key(p) <==> (m.contains_key(p) && fresh_at(m[p], now)),
        swept(m, now).contains_key(p) ==> swept(m, now)[p] == m[p],
{
}

/// Cache round trip: a stored preview is what a later read returns, and an
/// invalidation removes exactly that record, so the next read finds
/// nothing and regenerates.
pub proof fn lemma_preview_cache_round_trip(
    c: Map<Seq<char>, PreviewData>,
    p: Seq<char>,
    d: PreviewData,
    q: Seq<char>,
)
    ensures
        c.insert(p, d).contains_key(p) && c.insert(p, d)[p] == d,
        !c.insert(p, d).remove(p).contains_key(p),
        q != p ==> c.insert(p, d).remove(p).contains_key(q) == c.contains_key(q),
        q != p && c.contains_key(q) ==> c.insert(p, d).remove(p)[q] == c[q],
{
}

} // verus!
