//! Grow-only CRDTs for convergent shared state: a counter, a set and a
//! last-writer-wins register.
//!
//! Merging never loses increments or elements; concurrent register writes
//! resolve by timestamp, ties by the larger origin id.

use vstd::prelude::*;
use vstd::std_specs::cmp::PartialEqSpec;
use crate::identity::NodeId;
use crate::vclock::{
    keys_unique, lemma_seq_get_absent, lemma_seq_get_found, lemma_seq_get_push,
    lemma_seq_get_update, max64, seq_get, seq_has_key,
};

verus! {

/// A grow-only counter: one count per origin; its value is their sum and a
/// merge takes the larger count per origin.
#[derive(Debug)]
pub struct GCounter {
    /// One count per origin, each origin at most once.
    pub counts: Vec<(NodeId, u64)>,
}

impl Clone for GCounter {
    /// A copy with the same counts.
    fn clone(&self) -> (res: GCounter)
        ensures
            res.counts@ == self.counts@,
    {
        GCounter { counts: crate::bytesutil::clone_copy_vec(&self.counts) }
    }
}

/// The sum of all counts, as an unbounded integer.
pub open spec fn counts_sum(s: Seq<(NodeId, u64)>) -> int
    decreases s.len(),
{
    if s.len() == 0 {
        0
    } else {
        s[0].1 + counts_sum(s.drop_first())
    }
}

/// Summing a prefix extends one element at a time.
proof fn lemma_counts_sum_take(s: Seq<(NodeId, u64)>, i: int)
    requires
        0 <= i < s.len(),
    ensures
        counts_sum(s.take(i + 1)) == counts_sum(s.take(i)) + s[i].1,
    decreases i,
{
    if i == 0 {
        assert(s.take(1)[0] == s[0]);
        assert(s.take(1).drop_first() =~= s.take(0));
    } else {
        assert(s.take(i + 1)[0] == s[0]);
        assert(s.take(i)[0] == s[0]);
        assert(s.take(i + 1).drop_first() =~= s.drop_first().take(i));
        assert(s.take(i).drop_first() =~= s.drop_first().take(i - 1));
        assert(s.drop_first()[i - 1] == s[i]);
        lemma_counts_sum_take(s.drop_first(), i - 1);
    }
}

impl GCounter {
    /// The counter is well formed when no origin occurs twice.
    pub open spec fn wf(self) -> bool {
        keys_unique(self.counts@)
    }

    /// The count this counter holds for an origin.
    pub open spec fn spec_get(self, key: Seq<u8>) -> u64 {
        seq_get(self.counts@, key)
    }

    /// An empty counter.
    pub fn new() -> (r: GCounter)
        ensures
            r.wf(),
            r.counts@.len() == 0,
            forall|k: Seq<u8>| #[trigger] r.spec_get(k) == 0,
    {
        GCounter { counts: Vec::new() }
    }

    /// Adds one to an origin's count; every other origin is unchanged.
    pub fn increment(&mut self, node_id: NodeId)
        requires
            old(self).wf(),
            old(self).spec_get(node_id@) < u64::MAX,
        ensures
            final(self).wf(),
            final(self).spec_get(node_id@) == old(self).spec_get(node_id@) + 1,
            forall|k: Seq<u8>|
                k != node_id@ ==> #[trigger] final(self).spec_get(k) == old(self).spec_get(k),
    {
        let ghost s0 = self.counts@;
        match find_key(&self.counts, &node_id) {
            Some(i) => {
                proof {
                    lemma_seq_get_found(s0, i as int);
                }
                let v = self.counts[i].1;
                let key = self.counts[i].0;
                self.counts[i] = (key, v + 1);
                proof {
                    assert(self.counts@ =~= s0.update(i as int, (s0[i as int].0, (v + 1) as u64)));
                    assert forall|k: Seq<u8>| #[trigger]
                        seq_get(self.counts@, k) == if k == node_id@ {
                            (v + 1) as u64
                        } else {
                            seq_get(s0, k)
                        } by {
                        lemma_seq_get_update(s0, i as int, (s0[i as int].0, (v + 1) as u64), k);
                    }
                    assert forall|x: int, y: int|
                        0 <= x < y < self.counts@.len() implies (#[trigger] self.counts@[x]).0@
                        != (#[trigger] self.counts@[y]).0@ by {
                        assert(self.counts@[x].0@ == s0[x].0@);
                        assert(self.counts@[y].0@ == s0[y].0@);
                    }
                }
            },
            None => {
                proof {
                    lemma_seq_get_absent(s0, node_id@);
                }
                self.counts.push((node_id, 1));
                proof {
                    assert forall|k: Seq<u8>| #[trigger]
                        seq_get(self.counts@, k) == if k == node_id@ {
                            1u64
                        } else {
                            seq_get(s0, k)
                        } by {
                        lemma_seq_get_push(s0, (node_id, 1u64), k);
                    }
                    assert forall|x: int, y: int|
                        0 <= x < y < self.counts@.len() implies (#[trigger] self.counts@[x]).0@
                        != (#[trigger] self.counts@[y]).0@ by {
                        if y < s0.len() {
                        } else {
                            assert(self.counts@[y] == (node_id, 1u64));
                            assert(self.counts@[x].0@ == s0[x].0@);
                        }
                    }
                }
            },
        }
    }

    /// The total of all counts.
    pub fn value(&self) -> (r: u64)
        requires
            counts_sum(self.counts@) <= u64::MAX,
        ensures
            r == counts_sum(self.counts@),
    {
        let n = self.counts.len();
        let mut total: u64 = 0;
        let mut i: usize = 0;
        proof {
            assert(self.counts@.take(0) =~= Seq::<(NodeId, u64)>::empty());
        }
        while i < n
            invariant
                n == self.counts@.len(),
                i <= n,
                counts_sum(self.counts@) <= u64::MAX,
                total == counts_sum(self.counts@.take(i as int)),
            decreases n - i,
        {
            proof {
                lemma_counts_sum_take(self.counts@, i as int);
                lemma_counts_sum_rest_nonneg(self.counts@, i as int);
            }
            total = total + self.counts[i].1;
            i = i + 1;
        }
        proof {
            assert(self.counts@.take(n as int) =~= self.counts@);
        }
        total
    }

    /// Merges another counter in: the larger count wins per origin, so no
    /// increment is ever lost.
    pub fn merge(&mut self, other: &GCounter)
        requires
            old(self).wf(),
            other.wf(),
        ensures
            final(self).wf(),
            forall|k: Seq<u8>| #[trigger]
                final(self).spec_get(k) == max64(old(self).spec_get(k), other.spec_get(k)),
    {
        let ghost s0 = self.counts@;
        let mut merged = crate::vclock::VectorClock { clocks: take_counts(&mut self.counts) };
        let other_vc = crate::vclock::VectorClock {
            clocks: crate::bytesutil::clone_copy_vec(&other.counts),
        };
        merged.merge(&other_vc);
        self.counts = merged.clocks;
        proof {
            assert forall|k: Seq<u8>| #[trigger]
                seq_get(self.counts@, k) == max64(seq_get(s0, k), seq_get(other.counts@, k)) by {
                assert(merged.spec_get(k) == seq_get(merged.clocks@, k));
            }
        }
    }
}

/// A prefix sum never exceeds the whole when the tail is nonnegative.
proof fn lemma_counts_sum_rest_nonneg(s: Seq<(NodeId, u64)>, i: int)
    requires
        0 <= i < s.len(),
    ensures
        counts_sum(s.take(i + 1)) <= counts_sum(s),
    decreases s.len() - i,
{
    if i + 1 == s.len() {
        assert(s.take(i + 1) =~= s);
    } else {
        lemma_counts_sum_rest_nonneg(s, i + 1);
        lemma_counts_sum_take(s, i + 1);
    }
}

/// Takes a count list out of a field, leaving it empty.
fn take_counts(v: &mut Vec<(NodeId, u64)>) -> (r: Vec<(NodeId, u64)>)
    ensures
        r@ == old(v)@,
{
    let mut out: Vec<(NodeId, u64)> = Vec::new();
    core::mem::swap(v, &mut out);
    out
}

/// Finds an origin's position in a count list.
fn find_key(s: &Vec<(NodeId, u64)>, node_id: &NodeId) -> (r: Option<usize>)
    ensures
        match r {
            Some(i) => i < s@.len() && s@[i as int].0@ == node_id@,
            None => !seq_has_key(s@, node_id@),
        },
{
    let n = s.len();
    let mut i: usize = 0;
    while i < n
        invariant
            n == s@.len(),
            i <= n,
            forall|j: int| 0 <= j < i ==> (#[trigger] s@[j]).0@ != node_id@,
        decreases n - i,
    {
        if s[i].0 == *node_id {
            return Some(i);
        }
        i = i + 1;
    }
    None
}

/// Whether a value is represented in an element list: some clone of it is an
/// element, or an element equal to such a clone is present.
pub open spec fn represents<T: PartialEq + PartialEqSpec + Clone>(s: Seq<T>, v: T) -> bool {
    exists|i: int, y: T|
        #![trigger s[i], vstd::pervasive::cloned::<T>(v, y)]
        0 <= i < s.len() && vstd::pervasive::cloned::<T>(v, y) && (s[i].eq_spec(&y) || s[i] == y)
}

/// Representation survives appending: whatever a list represents, the list
/// with one more element still represents.
pub proof fn lemma_represents_extend<T: PartialEq + PartialEqSpec + Clone>(
    s: Seq<T>,
    s2: Seq<T>,
    v: T,
)
    requires
        represents(s, v),
        s2 == s || (s2.len() == s.len() + 1 && s2.take(s.len() as int) == s),
    ensures
        represents(s2, v),
{
    let (i, y): (int, T) = choose|i: int, y: T|
        #![trigger s[i], vstd::pervasive::cloned::<T>(v, y)]
        0 <= i < s.len() && vstd::pervasive::cloned::<T>(v, y) && (s[i].eq_spec(&y) || s[i] == y);
    if s2 == s {
        assert(s2[i] == s[i]);
    } else {
        assert(s2[i] == s2.take(s.len() as int)[i]);
        assert(s2[i] == s[i]);
    }
}

/// A grow-only set: elements are only ever added, and a merge is the union.
#[derive(Debug)]
pub struct GSet<T> {
    /// The elements, in insertion order, each at most once.
    pub elements: Vec<T>,
}

impl<T: PartialEq + PartialEqSpec + Clone> GSet<T> {
    /// An empty set.
    pub fn new() -> (r: GSet<T>)
        ensures
            r.elements@.len() == 0,
    {
        GSet { elements: Vec::new() }
    }

    /// Adds an element: when the element type's equality is faithful, the
    /// element is appended exactly when no equal one is present, and the set
    /// is otherwise unchanged.
    pub fn add(&mut self, element: T)
        ensures
            final(self).elements@ == old(self).elements@ || final(self).elements@ == old(
                self,
            ).elements@.push(element),
            T::obeys_eq_spec() ==> {
                if exists|i: int|
                    0 <= i < old(self).elements@.len()
                        && (#[trigger] old(self).elements@[i]).eq_spec(&element) {
                    final(self).elements@ == old(self).elements@
                } else {
                    final(self).elements@ == old(self).elements@.push(element)
                }
            },
    {
        if !self.contains(&element) {
            self.elements.push(element);
        }
    }

    /// Whether an equal element is present, as the element type's equality
    /// decides it.
    pub fn contains(&self, element: &T) -> (r: bool)
        ensures
            T::obeys_eq_spec() ==> r == (exists|i: int|
                0 <= i < self.elements@.len() && (#[trigger] self.elements@[i]).eq_spec(element)),
    {
        let n = self.elements.len();
        let mut i: usize = 0;
        while i < n
            invariant
                n == self.elements@.len(),
                i <= n,
                T::obeys_eq_spec() ==> forall|j: int|
                    0 <= j < i ==> !(#[trigger] self.elements@[j]).eq_spec(element),
            decreases n - i,
        {
            if self.elements[i] == *element {
                return true;
            }
            i = i + 1;
        }
        false
    }

    /// The elements, in insertion order.
    pub fn elements(&self) -> (r: Vec<T>)
        ensures
            r@.len() == self.elements@.len(),
    {
        let n = self.elements.len();
        let mut out: Vec<T> = Vec::new();
        let mut i: usize = 0;
        while i < n
            invariant
                n == self.elements@.len(),
                i <= n,
                out@.len() == i,
            decreases n - i,
        {
            out.push(self.elements[i].clone());
            i = i + 1;
        }
        out
    }

    /// Merges another set in, a union: nothing is removed, the old elements
    /// keep their places, and, when the element type's equality is faithful,
    /// every element of the other set ends up represented in this one.
    pub fn merge(&mut self, other: &GSet<T>)
        ensures
            final(self).elements@.len() >= old(self).elements@.len(),
            final(self).elements@.take(old(self).elements@.len() as int) == old(self).elements@,
            T::obeys_eq_spec() ==> forall|j: int|
                0 <= j < other.elements@.len() ==> represents(
                    final(self).elements@,
                    #[trigger] other.elements@[j],
                ),
    {
        let n = other.elements.len();
        let mut i: usize = 0;
        proof {
            assert(self.elements@.take(self.elements@.len() as int) =~= self.elements@);
        }
        while i < n
            invariant
                n == other.elements@.len(),
                i <= n,
                self.elements@.len() >= old(self).elements@.len(),
                self.elements@.take(old(self).elements@.len() as int) == old(self).elements@,
                T::obeys_eq_spec() ==> forall|j: int|
                    0 <= j < i ==> represents(self.elements@, #[trigger] other.elements@[j]),
            decreases n - i,
        {
            let ghost before = self.elements@;
            let element = other.elements[i].clone();
            let ghost copy = element;
            self.add(element);
            proof {
                assert(self.elements@ == before || self.elements@ == before.push(copy));
                assert(self.elements@.take(old(self).elements@.len() as int)
                    =~= old(self).elements@);
                if T::obeys_eq_spec() {
                    assert forall|j: int|
                        0 <= j < i + 1 implies represents(
                        self.elements@,
                        #[trigger] other.elements@[j],
                    ) by {
                        if j < i {
                            if self.elements@ == before.push(copy) {
                                assert(self.elements@.take(before.len() as int) =~= before);
                            }
                            lemma_represents_extend(before, self.elements@, other.elements@[j]);
                        } else {
                            assert(vstd::pervasive::cloned::<T>(other.elements@[j], copy));
                            if self.elements@ == before.push(copy) {
                                let last = self.elements@.len() - 1;
                                assert(self.elements@[last] == copy);
                                assert(represents(self.elements@, other.elements@[j]));
                            } else {
                                // Unchanged, so an equal element was already
                                // present: a push would have grown the list.
                                assert(before.push(copy).len() == before.len() + 1);
                                let x = choose|x: int|
                                    0 <= x < before.len() && (#[trigger] before[x]).eq_spec(
                                        &copy,
                                    );
                                assert(self.elements@[x] == before[x]);
                                assert(represents(self.elements@, other.elements@[j]));
                            }
                        }
                    }
                }
            }
            i = i + 1;
        }
    }

    /// The number of elements.
    pub fn len(&self) -> (r: usize)
        ensures
            r == self.elements@.len(),
    {
        self.elements.len()
    }

    /// Whether the set is empty.
    pub fn is_empty(&self) -> (r: bool)
        ensures
            r == (self.elements@.len() == 0),
    {
        self.elements.len() == 0
    }
}

/// Whether `a` is lexicographically greater than `b`, byte by byte.
pub open spec fn bytes_lex_gt(a: Seq<u8>, b: Seq<u8>) -> bool
    decreases a.len(),
{
    if a.len() == 0 {
        false
    } else if b.len() == 0 {
        true
    } else if a[0] > b[0] {
        true
    } else if a[0] < b[0] {
        false
    } else {
        bytes_lex_gt(a.drop_first(), b.drop_first())
    }
}

/// Decides lexicographic order on byte slices.
fn bytes_gt(a: &[u8], b: &[u8]) -> (r: bool)
    ensures
        r == bytes_lex_gt(a@, b@),
    decreases a@.len(),
{
    if a.len() == 0 {
        false
    } else if b.len() == 0 {
        true
    } else if a[0] > b[0] {
        true
    } else if a[0] < b[0] {
        false
    } else {
        let a_rest = vstd::slice::slice_subrange(a, 1, a.len());
        let b_rest = vstd::slice::slice_subrange(b, 1, b.len());
        proof {
            assert(a@.subrange(1, a@.len() as int) =~= a@.drop_first());
            assert(b@.subrange(1, b@.len() as int) =~= b@.drop_first());
        }
        bytes_gt(a_rest, b_rest)
    }
}

/// A last-writer-wins register: the value with the later timestamp wins a
/// merge; a tie goes to the larger origin id.
#[derive(Debug)]
pub struct LwwRegister<T> {
    /// The current value.
    pub value: T,
    /// Microseconds since the epoch of the last write.
    pub timestamp: u64,
    /// The origin of the last write.
    pub node_id: NodeId,
}

/// Whether the right-hand write wins against the left: strictly later, or
/// simultaneous from a larger origin.
pub open spec fn lww_wins(
    self_ts: u64,
    self_node: Seq<u8>,
    other_ts: u64,
    other_node: Seq<u8>,
) -> bool {
    other_ts > self_ts || (other_ts == self_ts && bytes_lex_gt(other_node, self_node))
}

impl<T: Clone> LwwRegister<T> {
    /// A register initialized with a value, stamped now.
    pub fn new(value: T, node_id: NodeId) -> (r: LwwRegister<T>)
        ensures
            r.value == value,
            r.node_id@ == node_id@,
    {
        LwwRegister { value, timestamp: crate::federation::now_micros(), node_id }
    }

    /// The current value.
    pub fn value(&self) -> (r: &T)
        ensures
            r == &self.value,
    {
        &self.value
    }

    /// Overwrites the value, stamped now.
    pub fn set(&mut self, value: T, node_id: NodeId)
        ensures
            final(self).value == value,
            final(self).node_id@ == node_id@,
    {
        self.value = value;
        self.timestamp = crate::federation::now_micros();
        self.node_id = node_id;
    }

    /// Merges another register in: the later write wins, a tie going to the
    /// larger origin id; otherwise nothing changes.
    pub fn merge(&mut self, other: &LwwRegister<T>)
        ensures
            lww_wins(old(self).timestamp, old(self).node_id@, other.timestamp, other.node_id@)
                ==> final(self).timestamp == other.timestamp && final(self).node_id@
                == other.node_id@ && vstd::pervasive::cloned::<T>(other.value, final(self).value),
            !lww_wins(old(self).timestamp, old(self).node_id@, other.timestamp, other.node_id@)
                ==> *final(self) == *old(self),
    {
        let wins = other.timestamp > self.timestamp || (other.timestamp == self.timestamp
            && bytes_gt(other.node_id.0.as_slice(), self.node_id.0.as_slice()));
        if wins {
            self.value = other.value.clone();
            self.timestamp = other.timestamp;
            self.node_id = other.node_id;
        }
    }
}

} // verus!
