//! Hybrid logical clock: causal ordering without synchronized wall clocks.
//!
//! Each event carries a triple `(physical_time_us, counter, node_id)`.
//! Timestamps a node emits are strictly increasing; merging a remote timestamp
//! yields a time strictly above both sides; remote times further than
//! `MAX_DRIFT_US` ahead of the local wall clock are rejected unchanged.

use vstd::prelude::*;
use vstd::bytes::{
    lemma_auto_spec_u32_to_from_le_bytes, lemma_auto_spec_u64_to_from_le_bytes,
    spec_u32_to_le_bytes, spec_u64_to_le_bytes, u32_from_le_bytes, u32_to_le_bytes,
    u64_from_le_bytes, u64_to_le_bytes,
};
use vstd::slice::slice_subrange;
use crate::hex::hex_of;

verus! {

/// Maximum accepted clock drift, in microseconds: one minute.
pub const MAX_DRIFT_US: u64 = 60_000_000;

/// A hybrid logical clock timestamp, totally ordered lexicographically by
/// physical time, then counter, then node id.
#[derive(Debug, Clone, Copy, PartialEq, Eq, PartialOrd, Ord, Structural, Hash)]
pub struct HlcTimestamp {
    /// Microseconds since the UNIX epoch; never moves backward on one node.
    pub physical_time_us: u64,
    /// Logical counter, advanced when physical time stands still.
    pub counter: u32,
    /// Node identifier: the first eight bytes of the node's public key,
    /// little-endian; breaks ties between nodes.
    pub node_id: u64,
}

/// The strict total order on timestamps: lexicographic by
/// `(physical_time_us, counter, node_id)`.
pub open spec fn hlc_lt(a: HlcTimestamp, b: HlcTimestamp) -> bool {
    ||| a.physical_time_us < b.physical_time_us
    ||| (a.physical_time_us == b.physical_time_us && a.counter < b.counter)
    ||| (a.physical_time_us == b.physical_time_us && a.counter == b.counter && a.node_id
        < b.node_id)
}

/// The order on timestamps is transitive.
pub proof fn lemma_hlc_lt_transitive(a: HlcTimestamp, b: HlcTimestamp, c: HlcTimestamp)
    requires
        hlc_lt(a, b),
        hlc_lt(b, c),
    ensures
        hlc_lt(a, c),
{
}

/// The order on timestamps is irreflexive and asymmetric.
pub proof fn lemma_hlc_lt_asymmetric(a: HlcTimestamp, b: HlcTimestamp)
    requires
        hlc_lt(a, b),
    ensures
        !hlc_lt(b, a),
        a != b,
{
}

/// The order on timestamps is total: distinct timestamps compare one way.
pub proof fn lemma_hlc_lt_total(a: HlcTimestamp, b: HlcTimestamp)
    ensures
        hlc_lt(a, b) || hlc_lt(b, a) || a == b,
{
}

impl HlcTimestamp {
    /// The timestamp at the UNIX epoch, used as a clock's initial state.
    pub fn zero(node_id: u64) -> (r: HlcTimestamp)
        ensures
            r.physical_time_us == 0,
            r.counter == 0,
            r.node_id == node_id,
    {
        HlcTimestamp { physical_time_us: 0, counter: 0, node_id }
    }

    /// The 20-byte serialization of a timestamp: physical time, counter and
    /// node id, each little-endian.
    pub open spec fn spec_bytes(self) -> Seq<u8> {
        spec_u64_to_le_bytes(self.physical_time_us) + spec_u32_to_le_bytes(self.counter)
            + spec_u64_to_le_bytes(self.node_id)
    }

    /// Serializes to 20 bytes: physical time, counter, node id, little-endian.
    pub fn to_bytes(&self) -> (r: Vec<u8>)
        ensures
            r@ == self.spec_bytes(),
            r@.len() == 20,
    {
        proof {
            lemma_auto_spec_u64_to_from_le_bytes();
            lemma_auto_spec_u32_to_from_le_bytes();
        }
        let mut buf = u64_to_le_bytes(self.physical_time_us);
        let mut counter_bytes = u32_to_le_bytes(self.counter);
        let mut node_bytes = u64_to_le_bytes(self.node_id);
        buf.append(&mut counter_bytes);
        buf.append(&mut node_bytes);
        buf
    }

    /// Deserializes a timestamp from its 20-byte form.
    pub fn from_bytes(bytes: &[u8]) -> (r: HlcTimestamp)
        requires
            bytes@.len() == 20,
        ensures
            r.spec_bytes() == bytes@,
            forall|t: HlcTimestamp| t.spec_bytes() == bytes@ ==> t == r,
    {
        proof {
            lemma_auto_spec_u64_to_from_le_bytes();
            lemma_auto_spec_u32_to_from_le_bytes();
        }
        let physical = u64_from_le_bytes(slice_subrange(bytes, 0, 8));
        let counter = u32_from_le_bytes(slice_subrange(bytes, 8, 12));
        let node_id = u64_from_le_bytes(slice_subrange(bytes, 12, 20));
        let r = HlcTimestamp { physical_time_us: physical, counter, node_id };
        proof {
            assert(r.spec_bytes() =~= bytes@);
            assert forall|t: HlcTimestamp| t.spec_bytes() == bytes@ implies t == r by {
                assert(spec_u64_to_le_bytes(t.physical_time_us) =~= t.spec_bytes().subrange(0, 8));
                assert(spec_u32_to_le_bytes(t.counter) =~= t.spec_bytes().subrange(8, 12));
                assert(spec_u64_to_le_bytes(t.node_id) =~= t.spec_bytes().subrange(12, 20));
                assert(spec_u64_to_le_bytes(r.physical_time_us) =~= bytes@.subrange(0, 8));
                assert(spec_u32_to_le_bytes(r.counter) =~= bytes@.subrange(8, 12));
                assert(spec_u64_to_le_bytes(r.node_id) =~= bytes@.subrange(12, 20));
            }
        }
        r
    }

    /// Renders a timestamp as `physical:counter:node_id`, the node id as 16
    /// hex digits.
    pub fn display_string(&self) -> (r: String)
        ensures
            r@ == dec_chars_of(self.physical_time_us as nat) + seq![':'] + dec_chars_of(
                self.counter as nat,
            ) + seq![':'] + hex_of(spec_u64_be_bytes(self.node_id)),
    {
        let mut out = dec_string(self.physical_time_us);
        out.push(':');
        let mut counter_str = dec_string(self.counter as u64);
        out.append(counter_str.as_str());
        out.push(':');
        let node_bytes = u64_be_bytes(self.node_id);
        let node_hex = crate::hex::encode(node_bytes.as_slice());
        out.append(node_hex.as_str());
        out
    }
}

/// The decimal digit character for a value below ten.
pub open spec fn dec_digit_char(n: nat) -> char
    recommends
        n < 10,
{
    ((n + 48) as u8) as char
}

/// The decimal rendering of a natural number, most significant digit first.
pub open spec fn dec_chars_of(n: nat) -> Seq<char>
    decreases n,
{
    if n < 10 {
        seq![dec_digit_char(n)]
    } else {
        dec_chars_of(n / 10) + seq![dec_digit_char(n % 10)]
    }
}

/// Renders an unsigned integer in decimal.
pub fn dec_string(n: u64) -> (r: String)
    ensures
        r@ == dec_chars_of(n as nat),
{
    let mut digits: Vec<char> = Vec::new();
    let mut rest: u64 = n;
    while rest >= 10
        invariant
            dec_chars_of(n as nat) == dec_chars_of(rest as nat) + digits@.reverse(),
        decreases rest,
    {
        let d = rest % 10;
        let ghost old_digits = digits@;
        let ghost old_rest = rest as nat;
        digits.push(((d + 48) as u8) as char);
        rest = rest / 10;
        proof {
            assert(dec_chars_of(old_rest) == dec_chars_of(old_rest / 10) + seq![
                dec_digit_char(old_rest % 10),
            ]);
            assert(digits@.reverse() =~= seq![dec_digit_char(old_rest % 10)]
                + old_digits.reverse());
            assert(dec_chars_of(rest as nat) + digits@.reverse() =~= (dec_chars_of(rest as nat)
                + seq![dec_digit_char(old_rest % 10)]) + old_digits.reverse());
        }
    }
    let mut out = String::new();
    out.push(((rest % 10 + 48) as u8) as char);
    proof {
        assert(out@ =~= dec_chars_of(rest as nat));
    }
    let mut i: usize = digits.len();
    while i > 0
        invariant
            i <= digits@.len(),
            out@ == dec_chars_of(rest as nat) + digits@.reverse().take(
                digits@.len() - i,
            ),
        decreases i,
    {
        i = i - 1;
        let c = digits[i];
        let ghost before = out@;
        out.push(c);
        proof {
            assert(digits@.reverse()[digits@.len() - i - 1] == digits@[i as int]);
            assert(digits@.reverse().take(digits@.len() - i) =~= digits@.reverse().take(
                digits@.len() - i - 1,
            ).push(digits@[i as int]));
        }
    }
    proof {
        assert(digits@.reverse().take(digits@.len() as int) =~= digits@.reverse());
    }
    out
}

/// The big-endian byte rendering of a 64-bit value, most significant byte
/// first, defined arithmetically.
pub open spec fn spec_u64_be_bytes(n: u64) -> Seq<u8> {
    seq![
        ((n / 0x100_0000_0000_0000) % 256) as u8,
        ((n / 0x1_0000_0000_0000) % 256) as u8,
        ((n / 0x100_0000_0000) % 256) as u8,
        ((n / 0x1_0000_0000) % 256) as u8,
        ((n / 0x100_0000) % 256) as u8,
        ((n / 0x1_0000) % 256) as u8,
        ((n / 0x100) % 256) as u8,
        (n % 256) as u8,
    ]
}

/// Computes the big-endian bytes of a 64-bit value.
pub fn u64_be_bytes(n: u64) -> (r: Vec<u8>)
    ensures
        r@ == spec_u64_be_bytes(n),
{
    let mut out: Vec<u8> = Vec::new();
    out.push(((n / 0x100_0000_0000_0000) % 256) as u8);
    out.push(((n / 0x1_0000_0000_0000) % 256) as u8);
    out.push(((n / 0x100_0000_0000) % 256) as u8);
    out.push(((n / 0x1_0000_0000) % 256) as u8);
    out.push(((n / 0x100_0000) % 256) as u8);
    out.push(((n / 0x1_0000) % 256) as u8);
    out.push(((n / 0x100) % 256) as u8);
    out.push((n % 256) as u8);
    proof {
        assert(out@ =~= spec_u64_be_bytes(n));
    }
    out
}

/// Error returned when a remote timestamp lies beyond the drift bound.
#[derive(Debug, Clone, Copy, PartialEq, Eq, Structural)]
pub struct HlcDriftError {
    /// The remote physical time that was rejected.
    pub remote_time_us: u64,
    /// The local wall clock at the moment of rejection.
    pub local_time_us: u64,
    /// How far ahead the remote time was.
    pub drift_us: u64,
    /// The bound that was exceeded.
    pub max_drift_us: u64,
}

/// The state a clock reaches after accepting a remote timestamp at wall time
/// `now_us`: the maximum of wall clock, local state and remote time, with the
/// counter advanced so the result exceeds both sides.
pub open spec fn receive_state(s: HlcTimestamp, remote: HlcTimestamp, now_us: u64) -> HlcTimestamp
    recommends
        s.counter < u32::MAX,
        remote.counter < u32::MAX,
{
    if now_us > s.physical_time_us && now_us > remote.physical_time_us {
        HlcTimestamp { physical_time_us: now_us, counter: 0, node_id: s.node_id }
    } else if s.physical_time_us == remote.physical_time_us {
        HlcTimestamp {
            physical_time_us: s.physical_time_us,
            counter: (if s.counter >= remote.counter {
                s.counter
            } else {
                remote.counter
            } + 1) as u32,
            node_id: s.node_id,
        }
    } else if s.physical_time_us > remote.physical_time_us {
        HlcTimestamp {
            physical_time_us: s.physical_time_us,
            counter: (s.counter + 1) as u32,
            node_id: s.node_id,
        }
    } else {
        HlcTimestamp {
            physical_time_us: remote.physical_time_us,
            counter: (remote.counter + 1) as u32,
            node_id: s.node_id,
        }
    }
}

/// Whether a remote physical time must be rejected at wall time `now_us`:
/// it lies more than the drift bound ahead.
pub open spec fn drift_rejected(remote: HlcTimestamp, now_us: u64) -> bool {
    remote.physical_time_us > now_us + MAX_DRIFT_US
}

/// A hybrid logical clock for a single node.
pub struct HybridClock {
    /// The last timestamp handed out or merged.
    pub state: HlcTimestamp,
}

impl HybridClock {
    /// A fresh clock for a node, starting at the epoch.
    pub fn new(node_id: u64) -> (r: HybridClock)
        ensures
            r.state.physical_time_us == 0,
            r.state.counter == 0,
            r.state.node_id == node_id,
    {
        HybridClock { state: HlcTimestamp::zero(node_id) }
    }

    /// Derives a node id from a 32-byte public key: its first eight bytes,
    /// little-endian.
    pub fn node_id_from_pubkey(pubkey: &[u8]) -> (r: u64)
        requires
            pubkey@.len() == 32,
        ensures
            spec_u64_to_le_bytes(r) == pubkey@.subrange(0, 8),
    {
        proof {
            lemma_auto_spec_u64_to_from_le_bytes();
        }
        u64_from_le_bytes(slice_subrange(pubkey, 0, 8))
    }

    /// Advances the clock for a local event at wall time `now_us`: adopt the
    /// wall clock when it moved forward, else bump the counter. The result is
    /// strictly above the previous state.
    pub fn tick_at(&mut self, now_us: u64) -> (r: HlcTimestamp)
        requires
            old(self).state.counter < u32::MAX,
        ensures
            r == final(self).state,
            r.node_id == old(self).state.node_id,
            hlc_lt(old(self).state, r),
            now_us > old(self).state.physical_time_us ==> (r.physical_time_us == now_us
                && r.counter == 0),
            now_us <= old(self).state.physical_time_us ==> (r.physical_time_us == old(
                self,
            ).state.physical_time_us && r.counter == old(self).state.counter + 1),
    {
        if now_us > self.state.physical_time_us {
            self.state.physical_time_us = now_us;
            self.state.counter = 0;
        } else {
            self.state.counter = self.state.counter + 1;
        }
        self.state
    }

    /// Advances the clock for a local event, reading the wall clock. The
    /// result is strictly above the previous state and keeps the node id.
    pub fn tick(&mut self) -> (r: HlcTimestamp)
        requires
            old(self).state.counter < u32::MAX,
        ensures
            r == final(self).state,
            r.node_id == old(self).state.node_id,
            hlc_lt(old(self).state, r),
            r.physical_time_us == old(self).state.physical_time_us ==> r.counter == old(
                self,
            ).state.counter + 1,
            r.physical_time_us != old(self).state.physical_time_us ==> (r.physical_time_us > old(
                self,
            ).state.physical_time_us && r.counter == 0),
    {
        let now_us = now_microseconds();
        self.tick_at(now_us)
    }

    /// Merges a remote timestamp at wall time `now_us`. Rejects remote times
    /// beyond the drift bound without touching the state; otherwise the new
    /// state is strictly above both the old state and the remote timestamp.
    pub fn receive_at(&mut self, remote: &HlcTimestamp, now_us: u64) -> (r: Result<
        HlcTimestamp,
        HlcDriftError,
    >)
        requires
            old(self).state.counter < u32::MAX,
            remote.counter < u32::MAX,
        ensures
            r is Err <==> drift_rejected(*remote, now_us),
            match r {
                Ok(t) => {
                    &&& t == final(self).state
                    &&& t == receive_state(old(self).state, *remote, now_us)
                    &&& hlc_lt(old(self).state, t)
                    &&& hlc_lt(*remote, t)
                    &&& t.node_id == old(self).state.node_id
                },
                Err(e) => {
                    &&& *final(self) == *old(self)
                    &&& e.remote_time_us == remote.physical_time_us
                    &&& e.local_time_us == now_us
                    &&& e.drift_us == remote.physical_time_us - now_us
                    &&& e.max_drift_us == MAX_DRIFT_US
                },
            },
    {
        if remote.physical_time_us > MAX_DRIFT_US && remote.physical_time_us - MAX_DRIFT_US
            > now_us {
            return Err(
                HlcDriftError {
                    remote_time_us: remote.physical_time_us,
                    local_time_us: now_us,
                    drift_us: remote.physical_time_us - now_us,
                    max_drift_us: MAX_DRIFT_US,
                },
            );
        }
        if now_us > self.state.physical_time_us && now_us > remote.physical_time_us {
            self.state.physical_time_us = now_us;
            self.state.counter = 0;
        } else if self.state.physical_time_us == remote.physical_time_us {
            let c = if self.state.counter >= remote.counter {
                self.state.counter
            } else {
                remote.counter
            };
            self.state.counter = c + 1;
        } else if self.state.physical_time_us > remote.physical_time_us {
            self.state.counter = self.state.counter + 1;
        } else {
            self.state.physical_time_us = remote.physical_time_us;
            self.state.counter = remote.counter + 1;
        }
        Ok(self.state)
    }

    /// Merges a remote timestamp, reading the wall clock. Rejection leaves
    /// the state unchanged; acceptance yields a time strictly above both the
    /// old state and the remote timestamp.
    pub fn receive(&mut self, remote: &HlcTimestamp) -> (r: Result<HlcTimestamp, HlcDriftError>)
        requires
            old(self).state.counter < u32::MAX,
            remote.counter < u32::MAX,
        ensures
            match r {
                Ok(t) => {
                    &&& t == final(self).state
                    &&& hlc_lt(old(self).state, t)
                    &&& hlc_lt(*remote, t)
                    &&& t.node_id == old(self).state.node_id
                },
                Err(e) => {
                    &&& *final(self) == *old(self)
                    &&& e.remote_time_us == remote.physical_time_us
                    &&& e.max_drift_us == MAX_DRIFT_US
                    &&& drift_rejected(*remote, e.local_time_us)
                },
            },
    {
        let now_us = now_microseconds();
        self.receive_at(remote, now_us)
    }

    /// Reads the clock state without advancing it.
    pub fn now(&self) -> (r: HlcTimestamp)
        ensures
            r == self.state,
    {
        self.state
    }
}

/// Relies on std::time::SystemTime::now and duration_since: microseconds
/// since the UNIX epoch, zero if the system clock reads before the epoch.
/// Nothing is promised of the value.
#[verifier::external_body]
fn now_microseconds() -> u64 {
    std::time::SystemTime::now()
        .duration_since(std::time::UNIX_EPOCH)
        .map(|d| d.as_micros() as u64)
        .unwrap_or(0)
}

} // verus!
