//! Vector clocks: per-origin logical counters defining causal happens-before.
//!
//! A clock maps node identifiers to counters; identifiers it never saw count
//! as zero. Merging takes the componentwise maximum, and `a` happened before
//! `b` exactly when `a` is componentwise at most `b` and strictly below it
//! somewhere.

use vstd::prelude::*;
use crate::identity::NodeId;

verus! {

/// The larger of two counters.
pub open spec fn max64(a: u64, b: u64) -> u64 {
    if a >= b {
        a
    } else {
        b
    }
}

/// The counter an entry list holds for a key, zero when the key is absent;
/// the first occurrence wins.
pub open spec fn seq_get(s: Seq<(NodeId, u64)>, key: Seq<u8>) -> u64
    decreases s.len(),
{
    if s.len() == 0 {
        0u64
    } else if s[0].0@ == key {
        s[0].1
    } else {
        seq_get(s.drop_first(), key)
    }
}

/// Whether an entry list mentions a key.
pub open spec fn seq_has_key(s: Seq<(NodeId, u64)>, key: Seq<u8>) -> bool {
    exists|i: int| 0 <= i < s.len() && s[i].0@ == key
}

/// Whether an entry list mentions each key at most once.
pub open spec fn keys_unique(s: Seq<(NodeId, u64)>) -> bool {
    forall|i: int, j: int| 0 <= i < j < s.len() ==> (#[trigger] s[i]).0@ != (#[trigger] s[j]).0@
}

/// A key no entry carries reads as zero.
pub proof fn lemma_seq_get_absent(s: Seq<(NodeId, u64)>, key: Seq<u8>)
    requires
        !seq_has_key(s, key),
    ensures
        seq_get(s, key) == 0,
    decreases s.len(),
{
    if s.len() > 0 {
        assert(s[0].0@ != key);
        assert forall|i: int| 0 <= i < s.drop_first().len() implies (#[trigger] s.drop_first()[i]).0@
            != key by {
            assert(s.drop_first()[i] == s[i + 1]);
        }
        lemma_seq_get_absent(s.drop_first(), key);
    }
}

/// With unique keys, the entry holding a key decides its value.
pub proof fn lemma_seq_get_found(s: Seq<(NodeId, u64)>, i: int)
    requires
        keys_unique(s),
        0 <= i < s.len(),
    ensures
        seq_get(s, s[i].0@) == s[i].1,
    decreases s.len(),
{
    if i == 0 {
    } else {
        assert(s[0].0@ != s[i].0@);
        assert(keys_unique(s.drop_first())) by {
            assert forall|x: int, y: int|
                0 <= x < y < s.drop_first().len() implies (#[trigger] s.drop_first()[x]).0@
                != (#[trigger] s.drop_first()[y]).0@ by {
                assert(s.drop_first()[x] == s[x + 1]);
                assert(s.drop_first()[y] == s[y + 1]);
            }
        }
        assert(s.drop_first()[i - 1] == s[i]);
        lemma_seq_get_found(s.drop_first(), i - 1);
    }
}

/// Appending an entry for a fresh key leaves other keys unchanged and gives
/// the fresh key the appended value.
pub proof fn lemma_seq_get_push(s: Seq<(NodeId, u64)>, e: (NodeId, u64), key: Seq<u8>)
    requires
        !seq_has_key(s, e.0@),
    ensures
        seq_get(s.push(e), key) == if key == e.0@ {
            e.1
        } else {
            seq_get(s, key)
        },
    decreases s.len(),
{
    if s.len() == 0 {
        assert(s.push(e)[0] == e);
        assert(s.push(e).drop_first() =~= Seq::<(NodeId, u64)>::empty());
        assert(seq_get(s.push(e), key) == if s.push(e)[0].0@ == key {
            s.push(e)[0].1
        } else {
            seq_get(s.push(e).drop_first(), key)
        });
        assert(seq_get(s.push(e).drop_first(), key) == 0);
        assert(seq_get(s, key) == 0);
    } else {
        assert(s.push(e)[0] == s[0]);
        assert(s.push(e).drop_first() =~= s.drop_first().push(e));
        assert forall|i: int| 0 <= i < s.drop_first().len() implies (#[trigger] s.drop_first()[i]).0@
            != e.0@ by {
            assert(s.drop_first()[i] == s[i + 1]);
        }
        if s[0].0@ == e.0@ {
            assert(false);
        }
        lemma_seq_get_push(s.drop_first(), e, key);
        assert(seq_get(s.push(e), key) == if s.push(e)[0].0@ == key {
            s.push(e)[0].1
        } else {
            seq_get(s.push(e).drop_first(), key)
        });
        assert(seq_get(s, key) == if s[0].0@ == key {
            s[0].1
        } else {
            seq_get(s.drop_first(), key)
        });
    }
}

/// Replacing the entry at a position with one carrying the same key changes
/// only that key's value.
pub proof fn lemma_seq_get_update(s: Seq<(NodeId, u64)>, i: int, e: (NodeId, u64), key: Seq<u8>)
    requires
        keys_unique(s),
        0 <= i < s.len(),
        s[i].0@ == e.0@,
    ensures
        seq_get(s.update(i, e), key) == if key == e.0@ {
            e.1
        } else {
            seq_get(s, key)
        },
    decreases s.len(),
{
    let t = s.update(i, e);
    if i == 0 {
        assert(t[0] == e);
        assert(t.drop_first() =~= s.drop_first());
        if key == e.0@ {
        } else {
        }
        if s[0].0@ == key {
            assert(key == e.0@);
        }
    } else {
        assert(t[0] == s[0]);
        assert(t.drop_first() =~= s.drop_first().update(i - 1, e));
        assert(keys_unique(s.drop_first())) by {
            assert forall|x: int, y: int|
                0 <= x < y < s.drop_first().len() implies (#[trigger] s.drop_first()[x]).0@
                != (#[trigger] s.drop_first()[y]).0@ by {
                assert(s.drop_first()[x] == s[x + 1]);
                assert(s.drop_first()[y] == s[y + 1]);
            }
        }
        assert(s.drop_first()[i - 1] == s[i]);
        lemma_seq_get_update(s.drop_first(), i - 1, e, key);
        if s[0].0@ == key {
            assert(s[0].0@ != s[i].0@);
        }
    }
}

/// A vector clock: one counter per origin node, absent origins counting as
/// zero.
#[derive(Debug)]
pub struct VectorClock {
    /// The entries, one per origin, each origin at most once.
    pub clocks: Vec<(NodeId, u64)>,
}

impl Clone for VectorClock {
    /// A copy with the same entries.
    fn clone(&self) -> (res: VectorClock)
        ensures
            res.clocks@ == self.clocks@,
    {
        VectorClock { clocks: crate::bytesutil::clone_copy_vec(&self.clocks) }
    }
}

impl VectorClock {
    /// The clock is well formed when no origin occurs twice.
    pub open spec fn wf(self) -> bool {
        keys_unique(self.clocks@)
    }

    /// The counter this clock holds for an origin key.
    pub open spec fn spec_get(self, key: Seq<u8>) -> u64 {
        seq_get(self.clocks@, key)
    }

    /// Whether `a` happened before `b`: componentwise at most, and strictly
    /// below somewhere.
    pub open spec fn spec_happened_before(self, other: VectorClock) -> bool {
        &&& forall|k: Seq<u8>| #[trigger] self.spec_get(k) <= other.spec_get(k)
        &&& exists|k: Seq<u8>| #[trigger] self.spec_get(k) < other.spec_get(k)
    }

    /// The empty clock: every origin counts zero.
    pub fn new() -> (r: VectorClock)
        ensures
            r.wf(),
            forall|k: Seq<u8>| #[trigger] r.spec_get(k) == 0,
            r.clocks@.len() == 0,
    {
        VectorClock { clocks: Vec::new() }
    }

    /// Finds the position of an origin's entry.
    fn find(&self, node_id: &NodeId) -> (r: Option<usize>)
        ensures
            match r {
                Some(i) => i < self.clocks@.len() && self.clocks@[i as int].0@ == node_id@,
                None => !seq_has_key(self.clocks@, node_id@),
            },
    {
        let n = self.clocks.len();
        let mut i: usize = 0;
        while i < n
            invariant
                n == self.clocks@.len(),
                i <= n,
                forall|j: int| 0 <= j < i ==> (#[trigger] self.clocks@[j]).0@ != node_id@,
            decreases n - i,
        {
            if self.clocks[i].0 == *node_id {
                return Some(i);
            }
            i = i + 1;
        }
        None
    }

    /// The counter for an origin; zero when the clock never saw it.
    pub fn get(&self, node_id: &NodeId) -> (r: u64)
        requires
            self.wf(),
        ensures
            r == self.spec_get(node_id@),
    {
        match self.find(node_id) {
            Some(i) => {
                proof {
                    lemma_seq_get_found(self.clocks@, i as int);
                }
                self.clocks[i].1
            },
            None => {
                proof {
                    lemma_seq_get_absent(self.clocks@, node_id@);
                }
                0
            },
        }
    }

    /// Advances one origin's counter by one and leaves every other origin
    /// unchanged.
    pub fn increment(&mut self, node_id: NodeId)
        requires
            old(self).wf(),
            old(self).spec_get(node_id@) < u64::MAX,
        ensures
            final(self).wf(),
            final(self).spec_get(node_id@) == old(self).spec_get(node_id@) + 1,
            forall|k: Seq<u8>|
                k != node_id@ ==> #[trigger] final(self).spec_get(k) == old(self).spec_get(k),
    {
        let ghost s0 = self.clocks@;
        match self.find(&node_id) {
            Some(i) => {
                proof {
                    lemma_seq_get_found(s0, i as int);
                }
                let v = self.clocks[i].1;
                let key = self.clocks[i].0;
                self.clocks[i] = (key, v + 1);
                proof {
                    assert(self.clocks@ =~= s0.update(i as int, (s0[i as int].0, (v + 1) as u64)));
                    lemma_seq_get_update(s0, i as int, (s0[i as int].0, (v + 1) as u64), node_id@);
                    assert forall|k: Seq<u8>|
                        k != node_id@ implies #[trigger] seq_get(self.clocks@, k) == seq_get(
                        s0,
                        k,
                    ) by {
                        lemma_seq_get_update(s0, i as int, (s0[i as int].0, (v + 1) as u64), k);
                    }
                    assert forall|x: int, y: int|
                        0 <= x < y < self.clocks@.len() implies (#[trigger] self.clocks@[x]).0@
                        != (#[trigger] self.clocks@[y]).0@ by {
                        assert(self.clocks@[x].0@ == s0[x].0@);
                        assert(self.clocks@[y].0@ == s0[y].0@);
                    }
                }
            },
            None => {
                proof {
                    lemma_seq_get_absent(s0, node_id@);
                }
                self.clocks.push((node_id, 1));
                proof {
                    lemma_seq_get_push(s0, (node_id, 1u64), node_id@);
                    assert forall|k: Seq<u8>|
                        k != node_id@ implies #[trigger] seq_get(self.clocks@, k) == seq_get(
                        s0,
                        k,
                    ) by {
                        lemma_seq_get_push(s0, (node_id, 1u64), k);
                    }
                    assert forall|x: int, y: int|
                        0 <= x < y < self.clocks@.len() implies (#[trigger] self.clocks@[x]).0@
                        != (#[trigger] self.clocks@[y]).0@ by {
                        if y < s0.len() {
                        } else {
                            assert(self.clocks@[y] == (node_id, 1u64));
                            assert(self.clocks@[x].0@ == s0[x].0@);
                        }
                    }
                }
            },
        }
    }

    /// Merges another clock in: every origin's counter becomes the larger of
    /// the two.
    pub fn merge(&mut self, other: &VectorClock)
        requires
            old(self).wf(),
            other.wf(),
        ensures
            final(self).wf(),
            forall|k: Seq<u8>| #[trigger]
                final(self).spec_get(k) == max64(old(self).spec_get(k), other.spec_get(k)),
    {
        let ghost orig = *old(self);
        let n = other.clocks.len();
        let mut i: usize = 0;
        while i < n
            invariant
                n == other.clocks@.len(),
                i <= n,
                other.wf(),
                self.wf(),
                forall|k: Seq<u8>| #[trigger]
                    self.spec_get(k) == if (exists|j: int|
                        0 <= j < i && (#[trigger] other.clocks@[j]).0@ == k) {
                        max64(orig.spec_get(k), other.spec_get(k))
                    } else {
                        orig.spec_get(k)
                    },
            decreases n - i,
        {
            let ghost self0 = *self;
            let ghost s_before = self.clocks@;
            let entry_node = other.clocks[i].0;
            let entry_val = other.clocks[i].1;
            proof {
                lemma_seq_get_found(other.clocks@, i as int);
                assert(other.spec_get(entry_node@) == entry_val);
                // The key is fresh among the first i entries of `other`.
                assert(!(exists|j: int|
                    0 <= j < i && (#[trigger] other.clocks@[j]).0@ == entry_node@));
                assert(self.spec_get(entry_node@) == orig.spec_get(entry_node@));
            }
            match self.find(&entry_node) {
                Some(idx) => {
                    proof {
                        lemma_seq_get_found(s_before, idx as int);
                    }
                    let cur = self.clocks[idx].1;
                    let key = self.clocks[idx].0;
                    let merged = if cur >= entry_val {
                        cur
                    } else {
                        entry_val
                    };
                    self.clocks[idx] = (key, merged);
                    proof {
                        assert(self.clocks@ =~= s_before.update(
                            idx as int,
                            (s_before[idx as int].0, merged),
                        ));
                        assert forall|k: Seq<u8>| #[trigger]
                            seq_get(self.clocks@, k) == if k == entry_node@ {
                                merged
                            } else {
                                seq_get(s_before, k)
                            } by {
                            lemma_seq_get_update(
                                s_before,
                                idx as int,
                                (s_before[idx as int].0, merged),
                                k,
                            );
                        }
                        assert forall|x: int, y: int|
                            0 <= x < y < self.clocks@.len() implies (#[trigger] self.clocks@[x]).0@
                            != (#[trigger] self.clocks@[y]).0@ by {
                            assert(self.clocks@[x].0@ == s_before[x].0@);
                            assert(self.clocks@[y].0@ == s_before[y].0@);
                        }
                        assert(seq_get(s_before, entry_node@) == orig.spec_get(entry_node@));
                        assert(seq_get(self.clocks@, entry_node@) == max64(
                            orig.spec_get(entry_node@),
                            other.spec_get(entry_node@),
                        ));
                    }
                },
                None => {
                    proof {
                        lemma_seq_get_absent(s_before, entry_node@);
                    }
                    self.clocks.push((entry_node, entry_val));
                    proof {
                        assert forall|k: Seq<u8>| #[trigger]
                            seq_get(self.clocks@, k) == if k == entry_node@ {
                                entry_val
                            } else {
                                seq_get(s_before, k)
                            } by {
                            lemma_seq_get_push(s_before, (entry_node, entry_val), k);
                        }
                        assert forall|x: int, y: int|
                            0 <= x < y < self.clocks@.len() implies (#[trigger] self.clocks@[x]).0@
                            != (#[trigger] self.clocks@[y]).0@ by {
                            if y < s_before.len() {
                            } else {
                                assert(self.clocks@[y] == (entry_node, entry_val));
                                assert(self.clocks@[x].0@ == s_before[x].0@);
                            }
                        }
                        assert(seq_get(s_before, entry_node@) == 0);
                        assert(seq_get(s_before, entry_node@) == orig.spec_get(entry_node@));
                        assert(seq_get(self.clocks@, entry_node@) == max64(
                            orig.spec_get(entry_node@),
                            other.spec_get(entry_node@),
                        ));
                    }
                },
            }
            i = i + 1;
            proof {
                assert forall|k: Seq<u8>| #[trigger]
                    self.spec_get(k) == if (exists|j: int|
                        0 <= j < i && (#[trigger] other.clocks@[j]).0@ == k) {
                        max64(orig.spec_get(k), other.spec_get(k))
                    } else {
                        orig.spec_get(k)
                    } by {
                    if k == entry_node@ {
                        assert(other.clocks@[i - 1].0@ == k);
                        assert(seq_get(self.clocks@, k) == max64(
                            orig.spec_get(k),
                            other.spec_get(k),
                        ));
                    } else {
                        assert(seq_get(self.clocks@, k) == seq_get(s_before, k));
                        assert(self0.spec_get(k) == seq_get(s_before, k));
                        if exists|j: int| 0 <= j < i && (#[trigger] other.clocks@[j]).0@ == k {
                            let j = choose|j: int|
                                0 <= j < i && (#[trigger] other.clocks@[j]).0@ == k;
                            assert(j < i - 1);
                            assert(self0.spec_get(k) == max64(
                                orig.spec_get(k),
                                other.spec_get(k),
                            ));
                        } else {
                            assert(self0.spec_get(k) == orig.spec_get(k));
                        }
                    }
                }
            }
        }
        proof {
            assert forall|k: Seq<u8>| #[trigger]
                self.spec_get(k) == max64(orig.spec_get(k), other.spec_get(k)) by {
                if exists|j: int| 0 <= j < n && (#[trigger] other.clocks@[j]).0@ == k {
                } else {
                    lemma_seq_get_absent(other.clocks@, k);
                }
            }
        }
    }

    /// Whether this clock happened strictly before another.
    pub fn happened_before(&self, other: &VectorClock) -> (r: bool)
        requires
            self.wf(),
            other.wf(),
        ensures
            r == self.spec_happened_before(*other),
    {
        // Every counter of ours must be at most theirs.
        let n = self.clocks.len();
        let mut i: usize = 0;
        let mut dominated = false;
        while i < n
            invariant
                n == self.clocks@.len(),
                i <= n,
                self.wf(),
                other.wf(),
                forall|j: int|
                    0 <= j < i ==> (#[trigger] self.clocks@[j]).1 <= other.spec_get(
                        self.clocks@[j].0@,
                    ),
                dominated ==> exists|k: Seq<u8>| #[trigger] self.spec_get(k) < other.spec_get(k),
                !dominated ==> forall|j: int|
                    0 <= j < i ==> (#[trigger] self.clocks@[j]).1 >= other.spec_get(
                        self.clocks@[j].0@,
                    ),
            decreases n - i,
        {
            let node = self.clocks[i].0;
            let val = self.clocks[i].1;
            let theirs = other.get(&node);
            proof {
                lemma_seq_get_found(self.clocks@, i as int);
            }
            if val > theirs {
                proof {
                    lemma_hb_counterexample(*self, *other, i as int);
                }
                return false;
            }
            if val < theirs {
                dominated = true;
                proof {
                    assert(self.spec_get(node@) < other.spec_get(node@));
                }
            }
            i = i + 1;
        }
        // Keys absent from our clock count as zero: any positive counter of
        // theirs on such a key dominates us.
        if !dominated {
            let m = other.clocks.len();
            let mut j: usize = 0;
            while j < m && !dominated
                invariant
                    m == other.clocks@.len(),
                    j <= m,
                    self.wf(),
                    other.wf(),
                    dominated ==> exists|k: Seq<u8>| #[trigger] self.spec_get(k) < other.spec_get(
                        k,
                    ),
                    !dominated ==> forall|jj: int|
                        0 <= jj < j ==> ((#[trigger] other.clocks@[jj]).1 == 0 || seq_has_key(
                            self.clocks@,
                            other.clocks@[jj].0@,
                        )),
                decreases m - j,
            {
                let node = other.clocks[j].0;
                let val = other.clocks[j].1;
                if val > 0 {
                    match self.find(&node) {
                        Some(_) => {
                        },
                        None => {
                            dominated = true;
                            proof {
                                lemma_seq_get_absent(self.clocks@, node@);
                                lemma_seq_get_found(other.clocks@, j as int);
                                assert(self.spec_get(node@) < other.spec_get(node@));
                            }
                        },
                    }
                }
                j = j + 1;
            }
        }
        proof {
            // All our entries are at most theirs, and absent keys are zero.
            assert forall|k: Seq<u8>| #[trigger] self.spec_get(k) <= other.spec_get(k) by {
                if seq_has_key(self.clocks@, k) {
                    let idx = choose|idx: int|
                        0 <= idx < self.clocks@.len() && (#[trigger] self.clocks@[idx]).0@ == k;
                    lemma_seq_get_found(self.clocks@, idx);
                } else {
                    lemma_seq_get_absent(self.clocks@, k);
                }
            }
            if !dominated {
                // No strict drop anywhere: ours equal theirs on our keys, and
                // theirs are zero off our keys.
                assert forall|k: Seq<u8>| !(#[trigger] self.spec_get(k) < other.spec_get(k)) by {
                    if seq_has_key(self.clocks@, k) {
                        let idx = choose|idx: int|
                            0 <= idx < self.clocks@.len() && (#[trigger] self.clocks@[idx]).0@
                            == k;
                        lemma_seq_get_found(self.clocks@, idx);
                    } else {
                        lemma_seq_get_absent(self.clocks@, k);
                        if seq_has_key(other.clocks@, k) {
                            let jdx = choose|jdx: int|
                                0 <= jdx < other.clocks@.len() && (#[trigger] other.clocks@[jdx]).0@
                                == k;
                            lemma_seq_get_found(other.clocks@, jdx);
                        } else {
                            lemma_seq_get_absent(other.clocks@, k);
                        }
                    }
                }
            }
        }
        dominated
    }

    /// Whether two clocks are concurrent: neither happened before the other.
    pub fn is_concurrent(&self, other: &VectorClock) -> (r: bool)
        requires
            self.wf(),
            other.wf(),
        ensures
            r == (!self.spec_happened_before(*other) && !other.spec_happened_before(*self)),
    {
        !self.happened_before(other) && !other.happened_before(self)
    }
}

/// Decides whether an entry list mentions each key at most once.
pub fn check_keys_unique(entries: &Vec<(NodeId, u64)>) -> (r: bool)
    ensures
        r == keys_unique(entries@),
{
    let n = entries.len();
    let mut i: usize = 0;
    while i < n
        invariant
            n == entries@.len(),
            i <= n,
            forall|x: int, y: int|
                0 <= x < y < i ==> (#[trigger] entries@[x]).0@ != (#[trigger] entries@[y]).0@,
        decreases n - i,
    {
        let mut j: usize = 0;
        while j < i
            invariant
                n == entries@.len(),
                i < n,
                j <= i,
                forall|x: int|
                    0 <= x < j ==> (#[trigger] entries@[x]).0@ != entries@[i as int].0@,
            decreases i - j,
        {
            if entries[j].0 == entries[i].0 {
                return false;
            }
            j = j + 1;
        }
        i = i + 1;
    }
    true
}

/// An entry of ours strictly above theirs refutes happens-before.
proof fn lemma_hb_counterexample(a: VectorClock, b: VectorClock, i: int)
    requires
        a.wf(),
        0 <= i < a.clocks@.len(),
        a.clocks@[i].1 > b.spec_get(a.clocks@[i].0@),
    ensures
        !a.spec_happened_before(b),
{
    lemma_seq_get_found(a.clocks@, i);
    assert(a.spec_get(a.clocks@[i].0@) > b.spec_get(a.clocks@[i].0@));
}

/// Merging a clock with itself changes nothing observable: the componentwise
/// maximum of a counter with itself is that counter.
pub proof fn lemma_merge_idempotent(a: VectorClock, k: Seq<u8>)
    ensures
        max64(a.spec_get(k), a.spec_get(k)) == a.spec_get(k),
{
}

/// Merging is commutative: the componentwise maximum does not depend on the
/// order of the two clocks.
pub proof fn lemma_merge_commutative(a: VectorClock, b: VectorClock, k: Seq<u8>)
    ensures
        max64(a.spec_get(k), b.spec_get(k)) == max64(b.spec_get(k), a.spec_get(k)),
{
}

/// Merging is associative: merging three clocks gives the same counters in
/// either grouping.
pub proof fn lemma_merge_associative(a: VectorClock, b: VectorClock, c: VectorClock, k: Seq<u8>)
    ensures
        max64(max64(a.spec_get(k), b.spec_get(k)), c.spec_get(k)) == max64(
            a.spec_get(k),
            max64(b.spec_get(k), c.spec_get(k)),
        ),
{
}

/// Happens-before is antisymmetric: when `a` happened before `b`, `b` did not
/// happen before `a`, and the two clocks differ on some origin.
pub proof fn lemma_happened_before_antisymmetric(a: VectorClock, b: VectorClock)
    requires
        a.spec_happened_before(b),
    ensures
        !b.spec_happened_before(a),
        exists|k: Seq<u8>| #[trigger] a.spec_get(k) != b.spec_get(k),
{
    let k = choose|k: Seq<u8>| #[trigger] a.spec_get(k) < b.spec_get(k);
    assert(a.spec_get(k) != b.spec_get(k));
    assert(!(b.spec_get(k) <= a.spec_get(k)));
}

} // verus!
