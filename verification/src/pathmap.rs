//! A small path-keyed map with a mathematical `Map` view.
//!
//! Both the recent-change tracker and the preview cache key their records by
//! an absolute path.  This module gives them one verified store: an
//! association list with distinct keys, whose contracts speak of the
//! abstract map from character sequences to values.

use vstd::prelude::*;
use vstd::string::StrSliceExecFns;
use vstd::string::StringExecFns;

use crate::strutil::str_eq;

verus! {

/// The abstract map described by an association list; a later entry for the
/// same key would win, though well-formed stores never hold two.
spec fn assoc_map<V>(s: Seq<(String, V)>) -> Map<Seq<char>, V>
    decreases s.len(),
{
    if s.len() == 0 {
        Map::<Seq<char>, V>::empty()
    } else {
        assoc_map(s.drop_last()).insert(s.last().0@, s.last().1)
    }
}

/// No two entries share a key.
spec fn unique_keys<V>(s: Seq<(String, V)>) -> bool {
    forall|i: int, j: int| 0 <= i < j < s.len() ==> s[i].0@ != s[j].0@
}

/// A key is in the abstract map exactly when some entry holds it, and the
/// map then returns that entry's value whenever keys are distinct.
proof fn lemma_assoc_map_get<V>(s: Seq<(String, V)>, p: Seq<char>)
    ensures
        assoc_map(s).contains_key(p) <==> (exists|j: int| 0 <= j < s.len() && s[j].0@ == p),
        unique_keys(s) ==> forall|j: int|
            0 <= j < s.len() && s[j].0@ == p ==> assoc_map(s).contains_key(p) && assoc_map(s)[p]
                == s[j].1,
    decreases s.len(),
{
    if s.len() > 0 {
        lemma_assoc_map_get(s.drop_last(), p);
        if s.last().0@ == p {
            assert(s[s.len() - 1].0@ == p);
        } else {
            if assoc_map(s).contains_key(p) {
                let j = choose|j: int| 0 <= j < s.drop_last().len() && s.drop_last()[j].0@ == p;
                assert(s[j].0@ == p);
            }
            if exists|j: int| 0 <= j < s.len() && s[j].0@ == p {
                let j = choose|j: int| 0 <= j < s.len() && s[j].0@ == p;
                assert(s.drop_last()[j] == s[j]);
            }
        }
    }
}

/// Removing the entry that holds key `p` removes exactly `p` from the
/// abstract map, provided keys are distinct.
proof fn lemma_assoc_map_remove<V>(s: Seq<(String, V)>, i: int)
    requires
        unique_keys(s),
        0 <= i < s.len(),
    ensures
        assoc_map(s.remove(i)) =~= assoc_map(s).remove(s[i].0@),
    decreases s.len(),
{
    let p = s[i].0@;
    if i == s.len() - 1 {
        assert(s.remove(i) =~= s.drop_last());
        lemma_assoc_map_get(s.drop_last(), p);
        assert(!assoc_map(s.drop_last()).contains_key(p));
        assert(assoc_map(s.drop_last()).insert(p, s.last().1).remove(p) =~= assoc_map(
            s.drop_last(),
        ));
    } else {
        assert(s.remove(i).drop_last() =~= s.drop_last().remove(i));
        assert(s.remove(i).last() == s.last());
        lemma_assoc_map_remove(s.drop_last(), i);
        assert(s.drop_last()[i] == s[i]);
        assert(s.last().0@ != p);
        assert(assoc_map(s.drop_last()).remove(p).insert(s.last().0@, s.last().1) =~= assoc_map(
            s.drop_last(),
        ).insert(s.last().0@, s.last().1).remove(p));
    }
}

/// A store of values keyed by path, at most one value per path.
#[derive(Debug)]
pub struct PathMap<V> {
    entries: Vec<(String, V)>,
}

impl<V> View for PathMap<V> {
    type V = Map<Seq<char>, V>;

    closed spec fn view(&self) -> Map<Seq<char>, V> {
        assoc_map(self.entries@)
    }
}

impl<V> PathMap<V> {
    /// The store keeps one entry per key.
    pub closed spec fn wf(&self) -> bool {
        unique_keys(self.entries@)
    }

    /// How many paths hold a value.
    pub closed spec fn spec_len(&self) -> nat {
        self.entries@.len()
    }

    /// The key of the entry at one position.
    pub closed spec fn key_at(&self, i: int) -> Seq<char> {
        self.entries@[i].0@
    }

    /// The value of the entry at one position.
    pub closed spec fn val_at(&self, i: int) -> V {
        self.entries@[i].1
    }

    /// The entry at position `i` is what the abstract map holds for its key.
    pub proof fn lemma_at(&self, i: int)
        requires
            self.wf(),
            0 <= i < self.spec_len(),
        ensures
            self@.contains_key(self.key_at(i)),
            self@[self.key_at(i)] == self.val_at(i),
    {
        lemma_assoc_map_get(self.entries@, self.key_at(i));
    }

    /// Entries at different positions hold different keys.
    pub proof fn lemma_keys_distinct(&self, i: int, j: int)
        requires
            self.wf(),
            0 <= i < self.spec_len(),
            0 <= j < self.spec_len(),
            i != j,
        ensures
            self.key_at(i) != self.key_at(j),
    {
    }

    /// Every key of the abstract map stands at some position.
    pub proof fn lemma_key_position(&self, p: Seq<char>)
        requires
            self@.contains_key(p),
        ensures
            exists|i: int| 0 <= i < self.spec_len() && self.key_at(i) == p,
    {
        lemma_assoc_map_get(self.entries@, p);
        let j = choose|j: int| 0 <= j < self.entries@.len() && self.entries@[j].0@ == p;
        assert(self.key_at(j) == p);
    }

    /// An empty store.
    pub fn new() -> (r: PathMap<V>)
        ensures
            r@ =~= Map::<Seq<char>, V>::empty(),
            r.wf(),
            r.spec_len() == 0,
    {
        PathMap { entries: Vec::new() }
    }

    /// Number of stored entries.
    pub fn len(&self) -> (r: usize)
        ensures
            r == self.spec_len(),
    {
        self.entries.len()
    }

    /// The path at one position.
    pub fn path_at(&self, i: usize) -> (r: &String)
        requires
            i < self.spec_len(),
        ensures
            r@ == self.key_at(i as int),
    {
        &self.entries[i].0
    }

    /// The value at one position.
    pub fn value_at(&self, i: usize) -> (r: &V)
        requires
            i < self.spec_len(),
        ensures
            *r == self.val_at(i as int),
    {
        &self.entries[i].1
    }

    /// The position holding path `p`, if any.
    fn find(&self, p: &str) -> (r: Option<usize>)
        requires
            self.wf(),
        ensures
            match r {
                Some(i) => i < self.spec_len() && self.key_at(i as int) == p@,
                None => !self@.contains_key(p@),
            },
    {
        let mut i: usize = 0;
        while i < self.entries.len()
            invariant
                0 <= i <= self.entries@.len(),
                forall|j: int| 0 <= j < i ==> self.entries@[j].0@ != p@,
            decreases self.entries@.len() - i,
        {
            if str_eq(self.entries[i].0.as_str(), p) {
                return Some(i);
            }
            i += 1;
        }
        proof {
            lemma_assoc_map_get(self.entries@, p@);
        }
        None
    }

    /// The value stored for path `p`, if any.
    pub fn get(&self, p: &str) -> (r: Option<&V>)
        requires
            self.wf(),
        ensures
            r is Some <==> self@.contains_key(p@),
            r is Some ==> *r->0 == self@[p@],
    {
        match self.find(p) {
            Some(i) => {
                proof {
                    self.lemma_at(i as int);
                }
                Some(&self.entries[i].1)
            },
            None => None,
        }
    }

    /// Whether path `p` holds a value.
    pub fn contains(&self, p: &str) -> (r: bool)
        requires
            self.wf(),
        ensures
            r == self@.contains_key(p@),
    {
        match self.find(p) {
            Some(i) => {
                proof {
                    self.lemma_at(i as int);
                }
                true
            },
            None => false,
        }
    }

    /// Store `v` for path `p`, replacing any previous value.
    pub fn set(&mut self, p: &str, v: V)
        requires
            old(self).wf(),
        ensures
            final(self).wf(),
            final(self)@ =~= old(self)@.insert(p@, v),
    {
        let found = self.find(p);
        match found {
            Some(i) => {
                let ghost prev = self.entries@;
                self.entries.remove(i);
                proof {
                    lemma_assoc_map_remove(prev, i as int);
                    assert forall|a: int, b: int|
                        0 <= a < b < self.entries@.len() implies self.entries@[a].0@
                        != self.entries@[b].0@ by {
                        assert(self.entries@[a] == if a < i as int {
                            prev[a]
                        } else {
                            prev[a + 1]
                        });
                        assert(self.entries@[b] == if b < i as int {
                            prev[b]
                        } else {
                            prev[b + 1]
                        });
                    }
                    assert forall|j: int|
                        0 <= j < self.entries@.len() implies self.entries@[j].0@ != p@ by {
                        assert(self.entries@[j] == if j < i as int {
                            prev[j]
                        } else {
                            prev[j + 1]
                        });
                    }
                }
            },
            None => {},
        }
        let ghost mid = self.entries@;
        proof {
            lemma_assoc_map_get(mid, p@);
            assert(!assoc_map(mid).contains_key(p@));
        }
        self.entries.push((String::from_str(p), v));
        proof {
            assert(self.entries@.drop_last() =~= mid);
            assert(assoc_map(self.entries@) =~= assoc_map(mid).insert(p@, v));
            assert(assoc_map(self.entries@) =~= old(self)@.insert(p@, v));
        }
    }

    /// Drop any value stored for path `p`.
    pub fn remove(&mut self, p: &str)
        requires
            old(self).wf(),
        ensures
            final(self).wf(),
            final(self)@ =~= old(self)@.remove(p@),
    {
        let found = self.find(p);
        match found {
            Some(i) => {
                let ghost prev = self.entries@;
                self.entries.remove(i);
                proof {
                    lemma_assoc_map_remove(prev, i as int);
                    assert forall|a: int, b: int|
                        0 <= a < b < self.entries@.len() implies self.entries@[a].0@
                        != self.entries@[b].0@ by {
                        assert(self.entries@[a] == if a < i as int {
                            prev[a]
                        } else {
                            prev[a + 1]
                        });
                        assert(self.entries@[b] == if b < i as int {
                            prev[b]
                        } else {
                            prev[b + 1]
                        });
                    }
                }
            },
            None => {
                proof {
                    assert(old(self)@.remove(p@) =~= old(self)@);
                }
            },
        }
    }
}

} // verus!
