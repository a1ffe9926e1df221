//! The recency tracker: which paths changed lately.
//!
//! The control loop hands the tracker a timestamp with every call; the
//! tracker itself never reads a clock.  A record is fresh while the caller's
//! clock stands less than one window past the recorded instant; a sweep
//! drops exactly the stale records.

use vstd::prelude::*;

use crate::pathmap::PathMap;

verus! {

/// How long a change notification keeps a path "recently changed",
/// in milliseconds.
pub const RECENT_CHANGE_WINDOW_MILLIS: u64 = 5000;

/// A record made at instant `t` is still fresh at instant `now`.
pub open spec fn fresh_at(t: u64, now: u64) -> bool {
    (now as int) < (t as int) + (RECENT_CHANGE_WINDOW_MILLIS as int)
}

/// The fresh part of a recency map at instant `now`.
pub open spec fn swept(m: Map<Seq<char>, u64>, now: u64) -> Map<Seq<char>, u64> {
    Map::new(|k: Seq<char>| m.contains_key(k) && fresh_at(m[k], now), |k: Seq<char>| m[k])
}

/// Per-path timestamps of the latest change notifications.
#[derive(Debug)]
pub struct RecencyTracker {
    map: PathMap<u64>,
}

impl View for RecencyTracker {
    type V = Map<Seq<char>, u64>;

    closed spec fn view(&self) -> Map<Seq<char>, u64> {
        self.map@
    }
}

impl RecencyTracker {
    /// The tracker's store keeps one record per path.
    pub closed spec fn wf(&self) -> bool {
        self.map.wf()
    }

    /// A tracker with no records.
    pub fn new() -> (r: RecencyTracker)
        ensures
            r@ =~= Map::<Seq<char>, u64>::empty(),
            r.wf(),
    {
        RecencyTracker { map: PathMap::new() }
    }

    /// Note a change notification for `path` arriving at instant `now`,
    /// overwriting any earlier record.
    pub fn record(&mut self, path: &str, now: u64)
        requires
            old(self).wf(),
        ensures
            final(self).wf(),
            final(self)@ =~= old(self)@.insert(path@, now),
    {
        self.map.set(path, now);
    }

    /// Whether a fresh record exists for `path` at instant `now`.
    pub fn is_recent(&self, path: &str, now: u64) -> (r: bool)
        requires
            self.wf(),
        ensures
            r == (self@.contains_key(path@) && fresh_at(self@[path@], now)),
    {
        match self.map.get(path) {
            Some(t) => {
                let t = *t;
                if now >= t {
                    now - t < RECENT_CHANGE_WINDOW_MILLIS
                } else {
                    true
                }
            },
            None => false,
        }
    }

    /// Drop exactly the records that are stale at instant `now`.
    pub fn sweep(&mut self, now: u64)
        requires
            old(self).wf(),
        ensures
            final(self).wf(),
            final(self)@ =~= swept(old(self)@, now),
    {
        let mut kept: PathMap<u64> = PathMap::new();
        let n = self.map.len();
        let mut i: usize = 0;
        while i < n
            invariant
                self.map == old(self).map,
                self.map.wf(),
                kept.wf(),
                n == self.map.spec_len(),
                0 <= i <= n,
                forall|k: Seq<char>| #[trigger]
                    kept@.contains_key(k) ==> exists|j: int|
                        0 <= j < i && self.map.key_at(j) == k && fresh_at(
                            self.map.val_at(j),
                            now,
                        ),
                forall|j: int|
                    0 <= j < i && fresh_at(#[trigger] self.map.val_at(j), now) ==> kept@.contains_key(
                        self.map.key_at(j),
                    ) && kept@[self.map.key_at(j)] == self.map.val_at(j),
            decreases n - i,
        {
            let t = *self.map.value_at(i);
            let is_fresh = if now >= t {
                now - t < RECENT_CHANGE_WINDOW_MILLIS
            } else {
                true
            };
            if is_fresh {
                let p = self.map.path_at(i);
                kept.set(p.as_str(), t);
                proof {
                    assert forall|j: int|
                        0 <= j < i + 1 && fresh_at(
                            #[trigger] self.map.val_at(j),
                            now,
                        ) implies kept@.contains_key(self.map.key_at(j)) && kept@[self.map.key_at(
                        j,
                    )] == self.map.val_at(j) by {
                        if j < i {
                            self.map.lemma_keys_distinct(j, i as int);
                        }
                    }
                }
            }
            i += 1;
        }
        proof {
            let m = self.map@;
            assert forall|k: Seq<char>| #[trigger]
                swept(m, now).contains_key(k) implies kept@.contains_key(k) && kept@[k] == m[k] by {
                self.map.lemma_key_position(k);
                let j = choose|j: int|
                    0 <= j < self.map.spec_len() && self.map.key_at(j) == k;
                self.map.lemma_at(j);
            }
            assert forall|k: Seq<char>| #[trigger]
                kept@.contains_key(k) implies swept(m, now).contains_key(k) by {
                let j = choose|j: int|
                    0 <= j < n && self.map.key_at(j) == k && fresh_at(self.map.val_at(j), now);
                self.map.lemma_at(j);
            }
            assert(kept@ =~= swept(m, now));
        }
        self.map = kept;
    }
}

} // verus!
