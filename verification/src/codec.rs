//! The canonical byte format for mesh data.
//!
//! Integers are little-endian; byte strings and counts carry a 64-bit length;
//! text is length-prefixed UTF-8; sums carry a one-byte tag. Every encoder
//! states the exact byte sequence it produces, and every decoder returns only
//! values whose encoding is the bytes it consumed. Encodings are
//! prefix-unambiguous, so equal encodings mean equal data.

use vstd::prelude::*;
use vstd::bytes::{
    lemma_auto_spec_u64_to_from_le_bytes, spec_u64_from_le_bytes, spec_u64_to_le_bytes,
    u64_from_le_bytes, u64_to_le_bytes,
};
use vstd::slice::slice_subrange;
use vstd::utf8::{encode_utf8, encode_utf8_decode_utf8};
use crate::identity::{Capability, NodeId, NodeManifest, NodeMetadata};
use crate::message::{
    BroadcastMessage, DataLayer, DirectMessage, MessageEnvelope, MessageId, MessagePayload,
    PresenceStatus, PresenceUpdate, SyncDataType, SyncRequest, SyncResponse, TeamAction,
    TeamUpdate,
};
use crate::vclock::VectorClock;

verus! {

/// The encoding of one byte: itself.
pub open spec fn enc_u8(x: u8) -> Seq<u8> {
    seq![x]
}

/// The encoding of a 64-bit integer: eight bytes, little-endian.
pub open spec fn enc_u64(x: u64) -> Seq<u8> {
    spec_u64_to_le_bytes(x)
}

/// The encoding of a boolean: one byte, one for true.
pub open spec fn enc_bool(b: bool) -> Seq<u8> {
    if b {
        seq![1u8]
    } else {
        seq![0u8]
    }
}

/// The encoding of a byte string: its length, then the bytes.
pub open spec fn enc_bytes(b: Seq<u8>) -> Seq<u8>
    recommends
        b.len() <= u64::MAX,
{
    enc_u64(b.len() as u64) + b
}

/// The encoding of text: its UTF-8 bytes, length-prefixed.
pub open spec fn enc_str(s: Seq<char>) -> Seq<u8> {
    enc_bytes(encode_utf8(s))
}

/// The encoding of optional text: a presence byte, then the text.
pub open spec fn enc_opt_str(o: Option<String>) -> Seq<u8> {
    match o {
        Option::None => seq![0u8],
        Option::Some(s) => seq![1u8] + enc_str(s@),
    }
}

/// Whether the bytes at a position begin with a given piece.
pub open spec fn starts_at(buf: Seq<u8>, pos: int, piece: Seq<u8>) -> bool {
    0 <= pos && pos + piece.len() <= buf.len() && buf.subrange(pos, pos + piece.len()) == piece
}

/// Two prefixes of the same tail: prefix plus remainder is the tail either way.
pub proof fn lemma_skip_align(buf: Seq<u8>, pos: int, p1: int, q1: int)
    requires
        0 <= pos,
        pos <= p1 <= buf.len(),
        pos <= q1 <= buf.len(),
    ensures
        buf.subrange(pos, p1) + buf.skip(p1) == buf.subrange(pos, q1) + buf.skip(q1),
{
    assert(buf.subrange(pos, p1) + buf.skip(p1) =~= buf.skip(pos));
    assert(buf.subrange(pos, q1) + buf.skip(q1) =~= buf.skip(pos));
}

/// A piece a buffer starts with at a position reappears as the subrange at
/// any split of its length.
pub proof fn lemma_starts_at_split(buf: Seq<u8>, pos: int, piece: Seq<u8>, mid: int)
    requires
        starts_at(buf, pos, piece),
        0 <= mid <= piece.len(),
    ensures
        starts_at(buf, pos, piece.take(mid)),
        starts_at(buf, pos + mid, piece.skip(mid)),
{
    assert(buf.subrange(pos, pos + mid) =~= piece.take(mid));
    assert(buf.subrange(pos + mid, pos + piece.len() as int) =~= piece.skip(mid));
}

/// A buffer that starts with a concatenation starts with the first part, and
/// the second part follows it.
pub proof fn lemma_starts_at_concat(buf: Seq<u8>, pos: int, a: Seq<u8>, b: Seq<u8>)
    requires
        starts_at(buf, pos, a + b),
    ensures
        starts_at(buf, pos, a),
        starts_at(buf, pos + a.len(), b),
{
    lemma_starts_at_split(buf, pos, a + b, a.len() as int);
    assert((a + b).take(a.len() as int) =~= a);
    assert((a + b).skip(a.len() as int) =~= b);
}

/// A decoded text value fits the wire: its encoding lies inside the buffer.
pub proof fn lemma_str_enc_ok(t: Seq<char>, buf: Seq<u8>, pos: int, p1: int)
    requires
        0 <= pos <= p1 <= buf.len(),
        p1 - pos <= u64::MAX,
        buf.subrange(pos, p1) == enc_str(t),
    ensures
        str_ok(t),
{
    lemma_auto_spec_u64_to_from_le_bytes();
    assert(p1 - pos == buf.subrange(pos, p1).len());
    assert(enc_str(t).len() == 8 + encode_utf8(t).len());
}

/// A decoded optional-text value fits the wire.
pub proof fn lemma_opt_str_enc_ok(o: Option<String>, buf: Seq<u8>, pos: int, p1: int)
    requires
        0 <= pos <= p1 <= buf.len(),
        p1 - pos <= u64::MAX,
        buf.subrange(pos, p1) == enc_opt_str(o),
    ensures
        opt_str_ok(o),
{
    lemma_auto_spec_u64_to_from_le_bytes();
    assert(p1 - pos == buf.subrange(pos, p1).len());
    if o is Some {
        let t = o->Some_0;
        assert(enc_opt_str(o).len() == 1 + 8 + encode_utf8(t@).len());
    }
}

/// Splitting equal concatenations at the same offset gives equal parts.
pub proof fn lemma_concat_inj(a1: Seq<u8>, a2: Seq<u8>, b1: Seq<u8>, b2: Seq<u8>)
    requires
        a1.len() == b1.len(),
        a1 + a2 == b1 + b2,
    ensures
        a1 == b1,
        a2 == b2,
{
    assert((a1 + a2).len() == (b1 + b2).len());
    assert forall|i: int| 0 <= i < a1.len() implies a1[i] == b1[i] by {
        assert((a1 + a2)[i] == a1[i]);
        assert((b1 + b2)[i] == b1[i]);
    }
    assert(a1 =~= b1);
    assert((a1 + a2).len() == a1.len() + a2.len());
    assert((b1 + b2).len() == b1.len() + b2.len());
    assert(a2.len() == b2.len());
    assert forall|i: int| 0 <= i < a2.len() implies a2[i] == b2[i] by {
        assert((a1 + a2)[a1.len() + i] == a2[i]);
        assert((b1 + b2)[b1.len() + i] == b2[i]);
    }
    assert(a2 =~= b2);
}

/// Two 64-bit encodings followed by anything are unambiguous.
pub proof fn lemma_enc_u64_inj(a: u64, b: u64, ra: Seq<u8>, rb: Seq<u8>)
    requires
        enc_u64(a) + ra == enc_u64(b) + rb,
    ensures
        a == b,
        ra == rb,
{
    lemma_auto_spec_u64_to_from_le_bytes();
    lemma_concat_inj(enc_u64(a), ra, enc_u64(b), rb);
}

/// Two one-byte encodings followed by anything are unambiguous.
pub proof fn lemma_enc_u8_inj(a: u8, b: u8, ra: Seq<u8>, rb: Seq<u8>)
    requires
        enc_u8(a) + ra == enc_u8(b) + rb,
    ensures
        a == b,
        ra == rb,
{
    lemma_concat_inj(enc_u8(a), ra, enc_u8(b), rb);
    assert(enc_u8(a)[0] == a && enc_u8(b)[0] == b);
}

/// Byte-string encodings followed by anything are unambiguous.
pub proof fn lemma_enc_bytes_inj(a: Seq<u8>, b: Seq<u8>, ra: Seq<u8>, rb: Seq<u8>)
    requires
        a.len() <= u64::MAX,
        b.len() <= u64::MAX,
        enc_bytes(a) + ra == enc_bytes(b) + rb,
    ensures
        a == b,
        ra == rb,
{
    assert((enc_u64(a.len() as u64) + a) + ra =~= enc_u64(a.len() as u64) + (a + ra));
    assert((enc_u64(b.len() as u64) + b) + rb =~= enc_u64(b.len() as u64) + (b + rb));
    lemma_enc_u64_inj(a.len() as u64, b.len() as u64, a + ra, b + rb);
    lemma_concat_inj(a, ra, b, rb);
}

/// Text encodings followed by anything are unambiguous.
pub proof fn lemma_enc_str_inj(a: Seq<char>, b: Seq<char>, ra: Seq<u8>, rb: Seq<u8>)
    requires
        encode_utf8(a).len() <= u64::MAX,
        encode_utf8(b).len() <= u64::MAX,
        enc_str(a) + ra == enc_str(b) + rb,
    ensures
        a == b,
        ra == rb,
{
    lemma_enc_bytes_inj(encode_utf8(a), encode_utf8(b), ra, rb);
    encode_utf8_decode_utf8(a);
    encode_utf8_decode_utf8(b);
}

/// Optional-text encodings followed by anything are unambiguous.
pub proof fn lemma_enc_opt_str_inj(a: Option<String>, b: Option<String>, ra: Seq<u8>, rb: Seq<u8>)
    requires
        (a matches Option::Some(s) ==> encode_utf8(s@).len() <= u64::MAX),
        (b matches Option::Some(s) ==> encode_utf8(s@).len() <= u64::MAX),
        enc_opt_str(a) + ra == enc_opt_str(b) + rb,
    ensures
        crate::bytesutil::opt_str_eq(a, b),
        ra == rb,
{
    match (a, b) {
        (Option::None, Option::None) => {
            lemma_concat_inj(seq![0u8], ra, seq![0u8], rb);
        },
        (Option::Some(x), Option::Some(y)) => {
            assert((seq![1u8] + enc_str(x@)) + ra =~= seq![1u8] + (enc_str(x@) + ra));
            assert((seq![1u8] + enc_str(y@)) + rb =~= seq![1u8] + (enc_str(y@) + rb));
            lemma_concat_inj(seq![1u8], enc_str(x@) + ra, seq![1u8], enc_str(y@) + rb);
            lemma_enc_str_inj(x@, y@, ra, rb);
        },
        (Option::None, Option::Some(y)) => {
            assert((enc_opt_str(a) + ra)[0] == 0u8);
            assert((enc_opt_str(b) + rb)[0] == 1u8);
        },
        (Option::Some(x), Option::None) => {
            assert((enc_opt_str(a) + ra)[0] == 1u8);
            assert((enc_opt_str(b) + rb)[0] == 0u8);
        },
    }
}

/// Appends one byte.
pub fn write_u8(buf: &mut Vec<u8>, x: u8)
    ensures
        final(buf)@ == old(buf)@ + enc_u8(x),
{
    buf.push(x);
    proof {
        assert(buf@ =~= old(buf)@ + enc_u8(x));
    }
}

/// Appends a 64-bit integer, little-endian.
pub fn write_u64(buf: &mut Vec<u8>, x: u64)
    ensures
        final(buf)@ == old(buf)@ + enc_u64(x),
{
    let mut bytes = u64_to_le_bytes(x);
    buf.append(&mut bytes);
}

/// Appends a boolean as one byte.
pub fn write_bool(buf: &mut Vec<u8>, b: bool)
    ensures
        final(buf)@ == old(buf)@ + enc_bool(b),
{
    if b {
        write_u8(buf, 1);
    } else {
        write_u8(buf, 0);
    }
}

/// Appends a length-prefixed byte string.
pub fn write_bytes(buf: &mut Vec<u8>, b: &[u8])
    ensures
        final(buf)@ == old(buf)@ + enc_bytes(b@),
{
    let n = b.len();
    write_u64(buf, n as u64);
    let ghost mid = buf@;
    let mut copy = vstd::slice::slice_to_vec(b);
    buf.append(&mut copy);
    proof {
        assert(buf@ =~= old(buf)@ + enc_bytes(b@));
    }
}

/// Appends length-prefixed UTF-8 text.
pub fn write_str(buf: &mut Vec<u8>, s: &str)
    ensures
        final(buf)@ == old(buf)@ + enc_str(s@),
{
    write_bytes(buf, s.as_bytes());
}

/// Appends optional text: a presence byte, then the text.
pub fn write_opt_str(buf: &mut Vec<u8>, o: &Option<String>)
    ensures
        final(buf)@ == old(buf)@ + enc_opt_str(*o),
{
    match o {
        Some(s) => {
            write_u8(buf, 1);
            write_str(buf, s.as_str());
            proof {
                assert(buf@ =~= old(buf)@ + enc_opt_str(*o));
            }
        },
        None => {
            write_u8(buf, 0);
        },
    }
}

/// Reads one byte.
pub fn read_u8(buf: &[u8], pos: usize) -> (r: Option<(u8, usize)>)
    ensures
        r matches Some((v, end)) ==> pos <= end <= buf@.len() && buf@.subrange(
            pos as int,
            end as int,
        ) == enc_u8(v),
        buf@.len() - pos >= 1 ==> r is Some,
        r matches Some((v, end)) ==> end == pos + 1,
{
    if pos < buf.len() {
        let v = buf[pos];
        proof {
            assert(buf@.subrange(pos as int, pos + 1) =~= enc_u8(v));
        }
        Some((v, pos + 1))
    } else {
        None
    }
}

/// Reads a 64-bit integer.
pub fn read_u64(buf: &[u8], pos: usize) -> (r: Option<(u64, usize)>)
    ensures
        r matches Some((v, end)) ==> pos <= end <= buf@.len() && buf@.subrange(
            pos as int,
            end as int,
        ) == enc_u64(v),
        buf@.len() - pos >= 8 ==> r is Some,
        r matches Some((v, end)) ==> end == pos + 8,
{
    if pos <= buf.len() && buf.len() - pos >= 8 {
        proof {
            lemma_auto_spec_u64_to_from_le_bytes();
        }
        let v = u64_from_le_bytes(slice_subrange(buf, pos, pos + 8));
        Some((v, pos + 8))
    } else {
        None
    }
}

/// Reads a boolean byte; any byte but zero or one is rejected.
pub fn read_bool(buf: &[u8], pos: usize) -> (r: Option<(bool, usize)>)
    ensures
        r matches Some((v, end)) ==> pos <= end <= buf@.len() && buf@.subrange(
            pos as int,
            end as int,
        ) == enc_bool(v),
        r matches Some((v, end)) ==> end == pos + 1,
        (exists|b: bool| starts_at(buf@, pos as int, enc_bool(b))) ==> r is Some,
{
    proof {
        if exists|b: bool| starts_at(buf@, pos as int, enc_bool(b)) {
            let b = choose|b: bool| starts_at(buf@, pos as int, enc_bool(b));
            assert(buf@[pos as int] == enc_bool(b)[0]);
        }
    }
    match read_u8(buf, pos) {
        Some((0, end)) => Some((false, end)),
        Some((1, end)) => Some((true, end)),
        _ => None,
    }
}

/// A buffer that starts with a byte-string encoding has the length field
/// and the announced content in range.
pub proof fn lemma_read_bytes_complete(buf: Seq<u8>, pos: int)
    requires
        0 <= pos <= buf.len(),
        exists|b: Seq<u8>| b.len() <= u64::MAX && starts_at(buf, pos, enc_bytes(b)),
    ensures
        buf.len() - pos >= 8,
        spec_u64_from_le_bytes(buf.subrange(pos, pos + 8)) <= buf.len() - pos - 8,
{
    let b = choose|b: Seq<u8>| b.len() <= u64::MAX && starts_at(buf, pos, enc_bytes(b));
    lemma_auto_spec_u64_to_from_le_bytes();
    lemma_starts_at_split(buf, pos, enc_bytes(b), 8);
    assert(enc_bytes(b).take(8) =~= enc_u64(b.len() as u64));
    assert(buf.subrange(pos, pos + 8) == enc_u64(b.len() as u64));
    assert(spec_u64_from_le_bytes(enc_u64(b.len() as u64)) == b.len());
}

/// A u64 read back from its little-endian encoding is itself.
pub proof fn lemma_u64_round(n: u64)
    ensures
        spec_u64_from_le_bytes(spec_u64_to_le_bytes(n)) == n,
{
    lemma_auto_spec_u64_to_from_le_bytes();
}

/// Reads a length-prefixed byte string.
pub fn read_bytes(buf: &[u8], pos: usize) -> (r: Option<(Vec<u8>, usize)>)
    ensures
        r matches Some((v, end)) ==> pos <= end <= buf@.len() && buf@.subrange(
            pos as int,
            end as int,
        ) == enc_bytes(v@),
        (exists|b: Seq<u8>|
            b.len() <= u64::MAX && starts_at(buf@, pos as int, enc_bytes(b))) ==> r is Some,
{
    let ghost can = pos <= buf@.len() && (exists|b: Seq<u8>|
        b.len() <= u64::MAX && starts_at(buf@, pos as int, enc_bytes(b)));
    proof {
        if can {
            lemma_read_bytes_complete(buf@, pos as int);
        }
    }
    let (n, p1) = match read_u64(buf, pos) {
        Some(x) => x,
        None => {
            return None;
        },
    };
    proof {
        if can {
            lemma_u64_round(n);
            assert(buf@.subrange(pos as int, p1 as int) == enc_u64(n));
            assert(n == spec_u64_from_le_bytes(buf@.subrange(pos as int, pos + 8)));
        }
    }
    if n > (buf.len() - p1) as u64 {
        return None;
    }
    let n_usize = n as usize;
    let content = vstd::slice::slice_to_vec(slice_subrange(buf, p1, p1 + n_usize));
    proof {
        assert(buf@.subrange(pos as int, (p1 + n_usize) as int) =~= buf@.subrange(
            pos as int,
            p1 as int,
        ) + buf@.subrange(p1 as int, (p1 + n_usize) as int));
        assert(buf@.subrange(pos as int, (p1 + n_usize) as int) == enc_bytes(content@));
    }
    Some((content, p1 + n_usize))
}

/// Reads length-prefixed UTF-8 text; bytes that are not valid UTF-8 are
/// rejected.
pub fn read_str(buf: &[u8], pos: usize) -> (r: Option<(String, usize)>)
    ensures
        r matches Some((v, end)) ==> pos <= end <= buf@.len() && buf@.subrange(
            pos as int,
            end as int,
        ) == enc_str(v@),
        (exists|t: Seq<char>|
            encode_utf8(t).len() <= u64::MAX && starts_at(buf@, pos as int, enc_str(t))) ==> r
            is Some,
{
    let ghost can = exists|t: Seq<char>|
        encode_utf8(t).len() <= u64::MAX && starts_at(buf@, pos as int, enc_str(t));
    let ghost w: Seq<char> = choose|t: Seq<char>|
        encode_utf8(t).len() <= u64::MAX && starts_at(buf@, pos as int, enc_str(t));
    proof {
        if can {
            assert(starts_at(buf@, pos as int, enc_bytes(encode_utf8(w))));
        }
    }
    let (bytes, end) = match read_bytes(buf, pos) {
        Some(x) => x,
        None => {
            return None;
        },
    };
    let ghost bytes_view = bytes@;
    proof {
        if can {
            let q = pos + enc_bytes(encode_utf8(w)).len();
            lemma_skip_align(buf@, pos as int, end as int, q);
            lemma_enc_bytes_inj(bytes_view, encode_utf8(w), buf@.skip(end as int), buf@.skip(q));
            vstd::utf8::encode_utf8_valid_utf8(w);
        }
    }
    let s = match crate::bytesutil::string_from_utf8(bytes) {
        Some(s) => s,
        None => {
            return None;
        },
    };
    proof {
        assert(enc_str(s@) == enc_bytes(bytes_view));
    }
    Some((s, end))
}

/// Reads optional text.
pub fn read_opt_str(buf: &[u8], pos: usize) -> (r: Option<(Option<String>, usize)>)
    ensures
        r matches Some((v, end)) ==> pos <= end <= buf@.len() && buf@.subrange(
            pos as int,
            end as int,
        ) == enc_opt_str(v),
        (exists|o: Option<String>|
            (o matches Option::Some(t) ==> encode_utf8(t@).len() <= u64::MAX) && starts_at(
                buf@,
                pos as int,
                enc_opt_str(o),
            )) ==> r is Some,
{
    let ghost can = exists|o: Option<String>|
        (o matches Option::Some(t) ==> encode_utf8(t@).len() <= u64::MAX) && starts_at(
            buf@,
            pos as int,
            enc_opt_str(o),
        );
    let ghost w: Option<String> = choose|o: Option<String>|
        (o matches Option::Some(t) ==> encode_utf8(t@).len() <= u64::MAX) && starts_at(
            buf@,
            pos as int,
            enc_opt_str(o),
        );
    proof {
        if can {
            assert(buf@[pos as int] == enc_opt_str(w)[0]);
        }
    }
    let (tag, p1) = match read_u8(buf, pos) {
        Some(x) => x,
        None => {
            return None;
        },
    };
    proof {
        if can {
            assert(buf@.subrange(pos as int, p1 as int) == enc_u8(tag));
            assert(tag == buf@[pos as int]);
            assert(tag == enc_opt_str(w)[0]);
            if tag == 1 {
                let t = w->Some_0;
                assert(w matches Option::Some(u) && starts_at(
                    buf@,
                    pos as int,
                    seq![1u8] + enc_str(u@),
                ));
                lemma_starts_at_split(buf@, pos as int, seq![1u8] + enc_str(t@), 1);
                assert((seq![1u8] + enc_str(t@)).skip(1) =~= enc_str(t@));
                assert(starts_at(buf@, p1 as int, enc_str(t@)));
            }
        }
    }
    if tag == 0 {
        Some((None, p1))
    } else if tag == 1 {
        let (s, end) = match read_str(buf, p1) {
            Some(x) => x,
            None => {
                return None;
            },
        };
        proof {
            assert(buf@.subrange(pos as int, end as int) =~= buf@.subrange(pos as int, p1 as int)
                + buf@.subrange(p1 as int, end as int));
        }
        Some((Some(s), end))
    } else {
        None
    }
}

/// The encoding of a list: each element in order, by the given encoder.
pub open spec fn enc_list<T>(s: Seq<T>, f: spec_fn(T) -> Seq<u8>) -> Seq<u8>
    decreases s.len(),
{
    if s.len() == 0 {
        Seq::empty()
    } else {
        f(s[0]) + enc_list(s.drop_first(), f)
    }
}

/// Appending an element appends its encoding.
pub proof fn lemma_enc_list_push<T>(s: Seq<T>, e: T, f: spec_fn(T) -> Seq<u8>)
    ensures
        enc_list(s.push(e), f) == enc_list(s, f) + f(e),
    decreases s.len(),
{
    if s.len() == 0 {
        assert(s.push(e)[0] == e);
        assert(s.push(e).drop_first() =~= Seq::<T>::empty());
        assert(enc_list(s.push(e), f) == f(e) + enc_list(Seq::<T>::empty(), f));
        assert(enc_list(s.push(e), f) =~= enc_list(s, f) + f(e));
    } else {
        assert(s.push(e)[0] == s[0]);
        assert(s.push(e).drop_first() =~= s.drop_first().push(e));
        lemma_enc_list_push(s.drop_first(), e, f);
        assert(enc_list(s.push(e), f) == f(s[0]) + enc_list(s.drop_first().push(e), f));
        assert(enc_list(s.push(e), f) =~= enc_list(s, f) + f(e));
    }
}

/// The encoding of one vector-clock entry: the origin's 32 bytes, then the
/// counter.
pub open spec fn enc_vc_entry(e: (NodeId, u64)) -> Seq<u8> {
    e.0@ + enc_u64(e.1)
}

/// The encoding of a vector clock: the entry count, then the entries.
pub open spec fn enc_vclock(vc: VectorClock) -> Seq<u8> {
    enc_u64(vc.clocks@.len() as u64) + enc_list(vc.clocks@, |e: (NodeId, u64)| enc_vc_entry(e))
}

/// The tag of a capability.
pub open spec fn cap_tag(c: Capability) -> u8 {
    match c {
        Capability::DirectMessage => 0u8,
        Capability::Broadcast => 1u8,
        Capability::FileShare => 2u8,
        Capability::Presence => 3u8,
        Capability::Relay => 4u8,
        Capability::E2EEncryption => 5u8,
    }
}

/// The encoding of a capability list: the count, then one tag byte each.
pub open spec fn enc_caps(v: Seq<Capability>) -> Seq<u8> {
    enc_u64(v.len() as u64) + enc_list(v, |c: Capability| enc_u8(cap_tag(c)))
}

/// The encoding of node metadata: its three optional strings.
pub open spec fn enc_metadata(m: NodeMetadata) -> Seq<u8> {
    enc_opt_str(m.device_type) + enc_opt_str(m.app_version) + enc_opt_str(m.region)
}

/// The encoding of optional metadata: a presence byte, then the record.
pub open spec fn enc_opt_metadata(o: Option<NodeMetadata>) -> Seq<u8> {
    match o {
        Option::None => seq![0u8],
        Option::Some(m) => seq![1u8] + enc_metadata(m),
    }
}

/// The encoding of a node manifest: id, name, capabilities, creation time,
/// protocol version, metadata.
pub open spec fn enc_manifest(m: NodeManifest) -> Seq<u8> {
    m.node_id@ + enc_str(m.display_name@) + enc_caps(m.capabilities@) + enc_u64(m.created_at)
        + enc_u64(m.protocol_version as u64) + enc_opt_metadata(m.metadata)
}

/// Appends a node id: its 32 raw bytes.
pub fn write_node_id(buf: &mut Vec<u8>, id: &NodeId)
    ensures
        final(buf)@ == old(buf)@ + id@,
{
    let mut copy = vstd::slice::slice_to_vec(id.0.as_slice());
    buf.append(&mut copy);
}

/// Appends a message id: its 16 raw bytes.
pub fn write_message_id(buf: &mut Vec<u8>, id: &MessageId)
    ensures
        final(buf)@ == old(buf)@ + id@,
{
    let mut copy = vstd::slice::slice_to_vec(id.0.as_slice());
    buf.append(&mut copy);
}

/// Appends a vector clock.
pub fn write_vclock(buf: &mut Vec<u8>, vc: &VectorClock)
    ensures
        final(buf)@ == old(buf)@ + enc_vclock(*vc),
{
    let n = vc.clocks.len();
    write_u64(buf, n as u64);
    let ghost f = |e: (NodeId, u64)| enc_vc_entry(e);
    let ghost base = buf@;
    let mut i: usize = 0;
    proof {
        assert(buf@ =~= base + enc_list(vc.clocks@.subrange(0, 0), f));
    }
    while i < n
        invariant
            n == vc.clocks@.len(),
            i <= n,
            f == (|e: (NodeId, u64)| enc_vc_entry(e)),
            buf@ == base + enc_list(vc.clocks@.subrange(0, i as int), f),
        decreases n - i,
    {
        let entry = vc.clocks[i];
        write_node_id(buf, &entry.0);
        write_u64(buf, entry.1);
        proof {
            lemma_enc_list_push(vc.clocks@.subrange(0, i as int), vc.clocks@[i as int], f);
            assert(vc.clocks@.subrange(0, i + 1) =~= vc.clocks@.subrange(0, i as int).push(
                vc.clocks@[i as int],
            ));
            assert(buf@ =~= base + enc_list(vc.clocks@.subrange(0, i + 1), f));
        }
        i = i + 1;
    }
    proof {
        assert(vc.clocks@.subrange(0, n as int) =~= vc.clocks@);
        assert(buf@ =~= old(buf)@ + enc_vclock(*vc));
    }
}

/// Appends a capability tag.
pub fn write_capability(buf: &mut Vec<u8>, c: Capability)
    ensures
        final(buf)@ == old(buf)@ + enc_u8(cap_tag(c)),
{
    let tag: u8 = match c {
        Capability::DirectMessage => 0,
        Capability::Broadcast => 1,
        Capability::FileShare => 2,
        Capability::Presence => 3,
        Capability::Relay => 4,
        Capability::E2EEncryption => 5,
    };
    write_u8(buf, tag);
}

/// Appends a capability list.
pub fn write_caps(buf: &mut Vec<u8>, v: &Vec<Capability>)
    ensures
        final(buf)@ == old(buf)@ + enc_caps(v@),
{
    let n = v.len();
    write_u64(buf, n as u64);
    let ghost f = |c: Capability| enc_u8(cap_tag(c));
    let ghost base = buf@;
    let mut i: usize = 0;
    proof {
        assert(buf@ =~= base + enc_list(v@.subrange(0, 0), f));
    }
    while i < n
        invariant
            n == v@.len(),
            i <= n,
            f == (|c: Capability| enc_u8(cap_tag(c))),
            buf@ == base + enc_list(v@.subrange(0, i as int), f),
        decreases n - i,
    {
        write_capability(buf, v[i]);
        proof {
            lemma_enc_list_push(v@.subrange(0, i as int), v@[i as int], f);
            assert(v@.subrange(0, i + 1) =~= v@.subrange(0, i as int).push(v@[i as int]));
            assert(buf@ =~= base + enc_list(v@.subrange(0, i + 1), f));
        }
        i = i + 1;
    }
    proof {
        assert(v@.subrange(0, n as int) =~= v@);
        assert(buf@ =~= old(buf)@ + enc_caps(v@));
    }
}

/// Appends a metadata record.
pub fn write_metadata(buf: &mut Vec<u8>, m: &NodeMetadata)
    ensures
        final(buf)@ == old(buf)@ + enc_metadata(*m),
{
    write_opt_str(buf, &m.device_type);
    write_opt_str(buf, &m.app_version);
    write_opt_str(buf, &m.region);
    proof {
        assert(buf@ =~= old(buf)@ + enc_metadata(*m));
    }
}

/// Appends optional metadata.
pub fn write_opt_metadata(buf: &mut Vec<u8>, o: &Option<NodeMetadata>)
    ensures
        final(buf)@ == old(buf)@ + enc_opt_metadata(*o),
{
    match o {
        Some(m) => {
            write_u8(buf, 1);
            write_metadata(buf, m);
            proof {
                assert(buf@ =~= old(buf)@ + enc_opt_metadata(*o));
            }
        },
        None => {
            write_u8(buf, 0);
        },
    }
}

/// Appends a node manifest.
pub fn write_manifest(buf: &mut Vec<u8>, m: &NodeManifest)
    ensures
        final(buf)@ == old(buf)@ + enc_manifest(*m),
{
    write_node_id(buf, &m.node_id);
    write_str(buf, m.display_name.as_str());
    write_caps(buf, &m.capabilities);
    write_u64(buf, m.created_at);
    write_u64(buf, m.protocol_version as u64);
    write_opt_metadata(buf, &m.metadata);
    proof {
        assert(buf@ =~= old(buf)@ + enc_manifest(*m));
    }
}


/// The tag of a presence status.
pub open spec fn status_tag(s: PresenceStatus) -> u8 {
    match s {
        PresenceStatus::Online => 0u8,
        PresenceStatus::Away => 1u8,
        PresenceStatus::Busy => 2u8,
        PresenceStatus::Offline => 3u8,
    }
}

/// The tag of a data layer.
pub open spec fn layer_tag(l: DataLayer) -> u8 {
    match l {
        DataLayer::Private => 0u8,
        DataLayer::Shared => 1u8,
        DataLayer::Federated => 2u8,
    }
}

/// The encoding of a presence update.
pub open spec fn enc_presence(p: PresenceUpdate) -> Seq<u8> {
    p.node_id@ + enc_u8(status_tag(p.status)) + enc_opt_str(p.activity) + enc_u64(p.last_active)
}

/// The encoding of a mention list: the count, then 32 bytes per node.
pub open spec fn enc_mentions(v: Seq<NodeId>) -> Seq<u8> {
    enc_u64(v.len() as u64) + enc_list(v, |n: NodeId| n@)
}

/// The encoding of a broadcast.
pub open spec fn enc_broadcast(b: BroadcastMessage) -> Seq<u8> {
    enc_opt_str(b.channel) + enc_str(b.content@) + enc_mentions(b.mentions@)
}

/// The encoding of an optional message id: a presence byte, then 16 bytes.
pub open spec fn enc_opt_message_id(o: Option<MessageId>) -> Seq<u8> {
    match o {
        Option::None => seq![0u8],
        Option::Some(id) => seq![1u8] + id@,
    }
}

/// The encoding of a direct message.
pub open spec fn enc_dm(d: DirectMessage) -> Seq<u8> {
    d.to@ + enc_bytes(d.content@) + enc_bool(d.encrypted) + enc_opt_message_id(d.thread_id)
}

/// The encoding of a team action: a tag, and the role for a role change.
pub open spec fn enc_team_action(a: TeamAction) -> Seq<u8> {
    match a {
        TeamAction::Join => seq![0u8],
        TeamAction::Leave => seq![1u8],
        TeamAction::UpdateRole(role) => seq![2u8] + enc_str(role@),
    }
}

/// The encoding of a team update.
pub open spec fn enc_team_update(t: TeamUpdate) -> Seq<u8> {
    enc_str(t.team_id@) + t.member_id@ + enc_team_action(t.action)
}

/// The encoding of a sync data kind.
pub open spec fn enc_sync_data_type(d: SyncDataType) -> Seq<u8> {
    match d {
        SyncDataType::DirectMessages => seq![0u8],
        SyncDataType::Broadcasts { channel } => seq![1u8] + enc_opt_str(channel),
        SyncDataType::TeamMembers { team_id } => seq![2u8] + enc_str(team_id@),
        SyncDataType::Presence => seq![3u8],
    }
}

/// The encoding of a sync request.
pub open spec fn enc_sync_request(r: SyncRequest) -> Seq<u8> {
    enc_sync_data_type(r.data_type) + enc_vclock(r.since_clock) + enc_u64(r.limit as u64)
}

/// The encoding of an envelope list: each envelope in order.
pub open spec fn enc_envelopes(s: Seq<MessageEnvelope>) -> Seq<u8>
    decreases s,
{
    if s.len() == 0 {
        Seq::empty()
    } else {
        enc_envelope(s[0]) + enc_envelopes(s.drop_first())
    }
}

/// The encoding of a sync response: the request id, the more flag, the item
/// count, then the items.
pub open spec fn enc_sync_response(r: SyncResponse) -> Seq<u8>
    decreases r,
{
    r.request_id@ + enc_bool(r.has_more) + enc_u64(r.items@.len() as u64) + enc_envelopes(r.items@)
}

/// The tag of a payload variant.
pub open spec fn payload_tag(p: MessagePayload) -> u8 {
    match p {
        MessagePayload::Presence(_) => 0u8,
        MessagePayload::Broadcast(_) => 1u8,
        MessagePayload::NodeAnnounce(_) => 2u8,
        MessagePayload::DirectMessage(_) => 3u8,
        MessagePayload::TeamUpdate(_) => 4u8,
        MessagePayload::SyncRequest(_) => 5u8,
        MessagePayload::SyncResponse(_) => 6u8,
        MessagePayload::Ping { .. } => 7u8,
        MessagePayload::Pong { .. } => 8u8,
        MessagePayload::Ack { .. } => 9u8,
    }
}

/// The encoding of a payload: its tag, then the variant's body.
pub open spec fn enc_payload(p: MessagePayload) -> Seq<u8>
    decreases p,
{
    enc_u8(payload_tag(p)) + match p {
        MessagePayload::Presence(x) => enc_presence(x),
        MessagePayload::Broadcast(x) => enc_broadcast(x),
        MessagePayload::NodeAnnounce(x) => enc_manifest(x),
        MessagePayload::DirectMessage(x) => enc_dm(x),
        MessagePayload::TeamUpdate(x) => enc_team_update(x),
        MessagePayload::SyncRequest(x) => enc_sync_request(x),
        MessagePayload::SyncResponse(x) => enc_sync_response(x),
        MessagePayload::Ping { nonce } => enc_u64(nonce),
        MessagePayload::Pong { nonce } => enc_u64(nonce),
        MessagePayload::Ack { message_id } => message_id@,
    }
}

/// The encoding of an optional signature: a presence byte, then the bytes.
pub open spec fn enc_opt_sig(o: Option<Vec<u8>>) -> Seq<u8> {
    match o {
        Option::None => seq![0u8],
        Option::Some(sig) => seq![1u8] + enc_bytes(sig@),
    }
}

/// The canonical encoding of an envelope: id, origin, clock, layer, TTL,
/// timestamp, payload, signature.
pub open spec fn enc_envelope(e: MessageEnvelope) -> Seq<u8>
    decreases e,
{
    e.id@ + e.origin@ + enc_vclock(e.clock) + enc_u8(layer_tag(e.layer)) + enc_u8(e.ttl) + enc_u64(
        e.timestamp,
    ) + enc_payload(e.payload) + enc_opt_sig(e.signature)
}

/// Appends a presence status tag.
pub fn write_status(buf: &mut Vec<u8>, s: PresenceStatus)
    ensures
        final(buf)@ == old(buf)@ + enc_u8(status_tag(s)),
{
    let tag: u8 = match s {
        PresenceStatus::Online => 0,
        PresenceStatus::Away => 1,
        PresenceStatus::Busy => 2,
        PresenceStatus::Offline => 3,
    };
    write_u8(buf, tag);
}

/// Appends a presence update.
pub fn write_presence(buf: &mut Vec<u8>, p: &PresenceUpdate)
    ensures
        final(buf)@ == old(buf)@ + enc_presence(*p),
{
    write_node_id(buf, &p.node_id);
    write_status(buf, p.status);
    write_opt_str(buf, &p.activity);
    write_u64(buf, p.last_active);
    proof {
        assert(buf@ =~= old(buf)@ + enc_presence(*p));
    }
}

/// Appends a mention list.
pub fn write_mentions(buf: &mut Vec<u8>, v: &Vec<NodeId>)
    ensures
        final(buf)@ == old(buf)@ + enc_mentions(v@),
{
    let n = v.len();
    write_u64(buf, n as u64);
    let ghost f = |x: NodeId| x@;
    let ghost base = buf@;
    let mut i: usize = 0;
    proof {
        assert(buf@ =~= base + enc_list(v@.subrange(0, 0), f));
    }
    while i < n
        invariant
            n == v@.len(),
            i <= n,
            f == (|x: NodeId| x@),
            buf@ == base + enc_list(v@.subrange(0, i as int), f),
        decreases n - i,
    {
        write_node_id(buf, &v[i]);
        proof {
            lemma_enc_list_push(v@.subrange(0, i as int), v@[i as int], f);
            assert(v@.subrange(0, i + 1) =~= v@.subrange(0, i as int).push(v@[i as int]));
            assert(buf@ =~= base + enc_list(v@.subrange(0, i + 1), f));
        }
        i = i + 1;
    }
    proof {
        assert(v@.subrange(0, n as int) =~= v@);
        assert(buf@ =~= old(buf)@ + enc_mentions(v@));
    }
}

/// Appends a broadcast.
pub fn write_broadcast(buf: &mut Vec<u8>, b: &BroadcastMessage)
    ensures
        final(buf)@ == old(buf)@ + enc_broadcast(*b),
{
    write_opt_str(buf, &b.channel);
    write_str(buf, b.content.as_str());
    write_mentions(buf, &b.mentions);
    proof {
        assert(buf@ =~= old(buf)@ + enc_broadcast(*b));
    }
}

/// Appends an optional message id.
pub fn write_opt_message_id(buf: &mut Vec<u8>, o: &Option<MessageId>)
    ensures
        final(buf)@ == old(buf)@ + enc_opt_message_id(*o),
{
    match o {
        Some(id) => {
            write_u8(buf, 1);
            write_message_id(buf, id);
            proof {
                assert(buf@ =~= old(buf)@ + enc_opt_message_id(*o));
            }
        },
        None => {
            write_u8(buf, 0);
        },
    }
}

/// Appends a direct message.
pub fn write_dm(buf: &mut Vec<u8>, d: &DirectMessage)
    ensures
        final(buf)@ == old(buf)@ + enc_dm(*d),
{
    write_node_id(buf, &d.to);
    write_bytes(buf, d.content.as_slice());
    write_bool(buf, d.encrypted);
    write_opt_message_id(buf, &d.thread_id);
    proof {
        assert(buf@ =~= old(buf)@ + enc_dm(*d));
    }
}

/// Appends a team action.
pub fn write_team_action(buf: &mut Vec<u8>, a: &TeamAction)
    ensures
        final(buf)@ == old(buf)@ + enc_team_action(*a),
{
    match a {
        TeamAction::Join => {
            write_u8(buf, 0);
        },
        TeamAction::Leave => {
            write_u8(buf, 1);
        },
        TeamAction::UpdateRole(role) => {
            write_u8(buf, 2);
            write_str(buf, role.as_str());
            proof {
                assert(buf@ =~= old(buf)@ + enc_team_action(*a));
            }
        },
    }
}

/// Appends a team update.
pub fn write_team_update(buf: &mut Vec<u8>, t: &TeamUpdate)
    ensures
        final(buf)@ == old(buf)@ + enc_team_update(*t),
{
    write_str(buf, t.team_id.as_str());
    write_node_id(buf, &t.member_id);
    write_team_action(buf, &t.action);
    proof {
        assert(buf@ =~= old(buf)@ + enc_team_update(*t));
    }
}

/// Appends a sync data kind.
pub fn write_sync_data_type(buf: &mut Vec<u8>, d: &SyncDataType)
    ensures
        final(buf)@ == old(buf)@ + enc_sync_data_type(*d),
{
    match d {
        SyncDataType::DirectMessages => {
            write_u8(buf, 0);
        },
        SyncDataType::Broadcasts { channel } => {
            write_u8(buf, 1);
            write_opt_str(buf, channel);
            proof {
                assert(buf@ =~= old(buf)@ + enc_sync_data_type(*d));
            }
        },
        SyncDataType::TeamMembers { team_id } => {
            write_u8(buf, 2);
            write_str(buf, team_id.as_str());
            proof {
                assert(buf@ =~= old(buf)@ + enc_sync_data_type(*d));
            }
        },
        SyncDataType::Presence => {
            write_u8(buf, 3);
        },
    }
}

/// Appends a sync request.
pub fn write_sync_request(buf: &mut Vec<u8>, r: &SyncRequest)
    ensures
        final(buf)@ == old(buf)@ + enc_sync_request(*r),
{
    write_sync_data_type(buf, &r.data_type);
    write_vclock(buf, &r.since_clock);
    write_u64(buf, r.limit as u64);
    proof {
        assert(buf@ =~= old(buf)@ + enc_sync_request(*r));
    }
}

/// Appends a sync response: header, then each item.
pub fn write_sync_response(buf: &mut Vec<u8>, r: &SyncResponse)
    ensures
        final(buf)@ == old(buf)@ + enc_sync_response(*r),
    decreases *r,
{
    write_message_id(buf, &r.request_id);
    write_bool(buf, r.has_more);
    let n = r.items.len();
    write_u64(buf, n as u64);
    let ghost base = buf@;
    let mut i: usize = 0;
    proof {
        assert(enc_envelopes(r.items@.subrange(0, 0)) =~= Seq::<u8>::empty());
        assert(buf@ =~= base + enc_envelopes(r.items@.subrange(0, 0)));
    }
    while i < n
        invariant
            n == r.items@.len(),
            i <= n,
            buf@ == base + enc_envelopes(r.items@.subrange(0, i as int)),
        decreases n - i,
    {
        write_envelope(buf, &r.items[i]);
        proof {
            lemma_enc_envelopes_push(r.items@.subrange(0, i as int), r.items@[i as int]);
            assert(r.items@.subrange(0, i + 1) =~= r.items@.subrange(0, i as int).push(
                r.items@[i as int],
            ));
            assert(buf@ =~= base + enc_envelopes(r.items@.subrange(0, i + 1)));
        }
        i = i + 1;
    }
    proof {
        assert(r.items@.subrange(0, n as int) =~= r.items@);
        assert(buf@ =~= old(buf)@ + enc_sync_response(*r));
    }
}

/// Appending an envelope appends its encoding.
pub proof fn lemma_enc_envelopes_push(s: Seq<MessageEnvelope>, e: MessageEnvelope)
    ensures
        enc_envelopes(s.push(e)) == enc_envelopes(s) + enc_envelope(e),
    decreases s,
{
    if s.len() == 0 {
        assert(s.push(e)[0] == e);
        assert(s.push(e).drop_first() =~= Seq::<MessageEnvelope>::empty());
        assert(enc_envelopes(s.push(e)) == enc_envelope(e) + enc_envelopes(
            Seq::<MessageEnvelope>::empty(),
        ));
        assert(enc_envelopes(s.push(e)) =~= enc_envelopes(s) + enc_envelope(e));
    } else {
        assert(s.push(e)[0] == s[0]);
        assert(s.push(e).drop_first() =~= s.drop_first().push(e));
        lemma_enc_envelopes_push(s.drop_first(), e);
        assert(enc_envelopes(s.push(e)) == enc_envelope(s[0]) + enc_envelopes(
            s.drop_first().push(e),
        ));
        assert(enc_envelopes(s.push(e)) =~= enc_envelopes(s) + enc_envelope(e));
    }
}

/// Appends a payload: its tag, then the variant body.
pub fn write_payload(buf: &mut Vec<u8>, p: &MessagePayload)
    ensures
        final(buf)@ == old(buf)@ + enc_payload(*p),
    decreases *p,
{
    match p {
        MessagePayload::Presence(x) => {
            write_u8(buf, 0);
            write_presence(buf, x);
        },
        MessagePayload::Broadcast(x) => {
            write_u8(buf, 1);
            write_broadcast(buf, x);
        },
        MessagePayload::NodeAnnounce(x) => {
            write_u8(buf, 2);
            write_manifest(buf, x);
        },
        MessagePayload::DirectMessage(x) => {
            write_u8(buf, 3);
            write_dm(buf, x);
        },
        MessagePayload::TeamUpdate(x) => {
            write_u8(buf, 4);
            write_team_update(buf, x);
        },
        MessagePayload::SyncRequest(x) => {
            write_u8(buf, 5);
            write_sync_request(buf, x);
        },
        MessagePayload::SyncResponse(x) => {
            write_u8(buf, 6);
            write_sync_response(buf, x);
        },
        MessagePayload::Ping { nonce } => {
            write_u8(buf, 7);
            write_u64(buf, *nonce);
        },
        MessagePayload::Pong { nonce } => {
            write_u8(buf, 8);
            write_u64(buf, *nonce);
        },
        MessagePayload::Ack { message_id } => {
            write_u8(buf, 9);
            write_message_id(buf, message_id);
        },
    }
    proof {
        assert(buf@ =~= old(buf)@ + enc_payload(*p));
    }
}

/// Appends an optional signature.
pub fn write_opt_sig(buf: &mut Vec<u8>, o: &Option<Vec<u8>>)
    ensures
        final(buf)@ == old(buf)@ + enc_opt_sig(*o),
{
    match o {
        Some(sig) => {
            write_u8(buf, 1);
            write_bytes(buf, sig.as_slice());
            proof {
                assert(buf@ =~= old(buf)@ + enc_opt_sig(*o));
            }
        },
        None => {
            write_u8(buf, 0);
        },
    }
}

/// Appends an envelope's canonical encoding.
pub fn write_envelope(buf: &mut Vec<u8>, e: &MessageEnvelope)
    ensures
        final(buf)@ == old(buf)@ + enc_envelope(*e),
    decreases *e,
{
    write_message_id(buf, &e.id);
    write_node_id(buf, &e.origin);
    write_vclock(buf, &e.clock);
    let tag: u8 = match e.layer {
        DataLayer::Private => 0,
        DataLayer::Shared => 1,
        DataLayer::Federated => 2,
    };
    write_u8(buf, tag);
    write_u8(buf, e.ttl);
    write_u64(buf, e.timestamp);
    write_payload(buf, &e.payload);
    write_opt_sig(buf, &e.signature);
    proof {
        assert(buf@ =~= old(buf)@ + enc_envelope(*e));
    }
}


/// Reads a node id: 32 raw bytes.
pub fn read_node_id(buf: &[u8], pos: usize) -> (r: Option<(NodeId, usize)>)
    ensures
        r matches Some((v, end)) ==> pos <= end <= buf@.len() && buf@.subrange(
            pos as int,
            end as int,
        ) == v@ && end == pos + 32,
        pos <= buf@.len() && buf@.len() - pos >= 32 ==> r is Some,
{
    if pos <= buf.len() && buf.len() - pos >= 32 {
        let id = NodeId(crate::bytesutil::to_array_32(slice_subrange(buf, pos, pos + 32)));
        Some((id, pos + 32))
    } else {
        None
    }
}

/// Reads a message id: 16 raw bytes.
pub fn read_message_id(buf: &[u8], pos: usize) -> (r: Option<(MessageId, usize)>)
    ensures
        r matches Some((v, end)) ==> pos <= end <= buf@.len() && buf@.subrange(
            pos as int,
            end as int,
        ) == v@ && end == pos + 16,
        pos <= buf@.len() && buf@.len() - pos >= 16 ==> r is Some,
{
    if pos <= buf.len() && buf.len() - pos >= 16 {
        let id = MessageId(crate::bytesutil::to_array_16(slice_subrange(buf, pos, pos + 16)));
        Some((id, pos + 16))
    } else {
        None
    }
}

/// Reads a vector clock and rejects duplicate origins, so the result is well
/// formed.
pub fn read_vclock(buf: &[u8], pos: usize) -> (r: Option<(VectorClock, usize)>)
    ensures
        r matches Some((v, end)) ==> pos <= end <= buf@.len() && buf@.subrange(
            pos as int,
            end as int,
        ) == enc_vclock(v) && v.wf(),
        (exists|v: VectorClock|
            v.wf() && v.clocks@.len() <= u64::MAX && starts_at(buf@, pos as int, enc_vclock(v)))
            ==> r is Some,
{
    let ghost f = |e: (NodeId, u64)| enc_vc_entry(e);
    let ghost can = exists|v: VectorClock|
        v.wf() && v.clocks@.len() <= u64::MAX && starts_at(buf@, pos as int, enc_vclock(v));
    let ghost w: VectorClock = choose|v: VectorClock|
        v.wf() && v.clocks@.len() <= u64::MAX && starts_at(buf@, pos as int, enc_vclock(v));
    proof {
        if can {
            lemma_auto_spec_u64_to_from_le_bytes();
            lemma_starts_at_concat(
                buf@,
                pos as int,
                enc_u64(w.clocks@.len() as u64),
                enc_list(w.clocks@, f),
            );
        }
    }
    let (n, p1) = match read_u64(buf, pos) {
        Some(x) => x,
        None => {
            return None;
        },
    };
    proof {
        if can {
            assert(buf@.subrange(pos as int, p1 as int) == enc_u64(n));
            assert(buf@.subrange(pos as int, pos + 8) == enc_u64(w.clocks@.len() as u64));
            lemma_u64_round(n);
            lemma_u64_round(w.clocks@.len() as u64);
            assert(n == w.clocks@.len());
        }
    }
    let mut entries: Vec<(NodeId, u64)> = Vec::new();
    let mut cur: usize = p1;
    let mut i: u64 = 0;
    proof {
        assert(buf@.subrange(p1 as int, cur as int) =~= enc_list(entries@, f));
        if can {
            assert(w.clocks@.skip(0) =~= w.clocks@);
            assert(w.clocks@.take(0) =~= entries@);
        }
    }
    while i < n
        invariant
            pos <= p1 <= cur <= buf@.len(),
            i <= n,
            entries@.len() == i,
            f == (|e: (NodeId, u64)| enc_vc_entry(e)),
            buf@.subrange(pos as int, p1 as int) == enc_u64(n),
            buf@.subrange(p1 as int, cur as int) == enc_list(entries@, f),
            can == (exists|v: VectorClock|
                v.wf() && v.clocks@.len() <= u64::MAX && starts_at(
                    buf@,
                    pos as int,
                    enc_vclock(v),
                )),
            can ==> n == w.clocks@.len() && entries@ == w.clocks@.take(i as int) && starts_at(
                buf@,
                cur as int,
                enc_list(w.clocks@.skip(i as int), f),
            ),
        decreases n - i,
    {
        proof {
            if can {
                lemma_auto_spec_u64_to_from_le_bytes();
                let rem = w.clocks@.skip(i as int);
                assert(rem.len() > 0);
                assert(rem[0].0@.len() == 32);
                assert(enc_list(rem, f) == f(rem[0]) + enc_list(rem.drop_first(), f));
                lemma_starts_at_concat(buf@, cur as int, f(rem[0]), enc_list(rem.drop_first(), f));
                lemma_starts_at_concat(buf@, cur as int, rem[0].0@, enc_u64(rem[0].1));
            }
        }
        let (id, p2) = match read_node_id(buf, cur) {
            Some(x) => x,
            None => {
                return None;
            },
        };
        proof {
            if can {
                let rem = w.clocks@.skip(i as int);
                lemma_skip_align(buf@, cur as int, p2 as int, cur + 32);
                lemma_node_id_prefix_inj(
                    id,
                    rem[0].0,
                    buf@.skip(p2 as int),
                    buf@.skip(cur + 32),
                );
            }
        }
        let (count, p3) = match read_u64(buf, p2) {
            Some(x) => x,
            None => {
                return None;
            },
        };
        let ghost old_entries = entries@;
        entries.push((id, count));
        proof {
            lemma_enc_list_push(old_entries, (id, count), f);
            assert(buf@.subrange(cur as int, p3 as int) =~= buf@.subrange(cur as int, p2 as int)
                + buf@.subrange(p2 as int, p3 as int));
            assert(buf@.subrange(p1 as int, p3 as int) =~= buf@.subrange(p1 as int, cur as int)
                + buf@.subrange(cur as int, p3 as int));
            assert(buf@.subrange(p1 as int, p3 as int) =~= enc_list(entries@, f));
            if can {
                let rem = w.clocks@.skip(i as int);
                assert(buf@.subrange(p2 as int, p3 as int) == enc_u64(count));
                assert(buf@.subrange(p2 as int, p2 + 8) == enc_u64(rem[0].1));
                lemma_u64_round(count);
                lemma_u64_round(rem[0].1);
                assert(count == rem[0].1);
                assert((id, count) == rem[0]);
                assert(rem[0] == w.clocks@[i as int]);
                assert(entries@ =~= w.clocks@.take(i as int + 1));
                assert(rem.drop_first() =~= w.clocks@.skip(i as int + 1));
            }
        }
        cur = p3;
        i = i + 1;
    }
    proof {
        if can {
            assert(entries@ =~= w.clocks@);
        }
    }
    if !crate::vclock::check_keys_unique(&entries) {
        return None;
    }
    let ghost entries_view = entries@;
    let vc = VectorClock { clocks: entries };
    proof {
        assert(entries_view.len() <= u64::MAX);
        assert(buf@.subrange(pos as int, cur as int) =~= buf@.subrange(pos as int, p1 as int)
            + buf@.subrange(p1 as int, cur as int));
        assert(buf@.subrange(pos as int, cur as int) =~= enc_vclock(vc));
    }
    Some((vc, cur))
}

/// Reads a capability tag.
pub fn read_capability(buf: &[u8], pos: usize) -> (r: Option<(Capability, usize)>)
    ensures
        r matches Some((v, end)) ==> pos <= end <= buf@.len() && buf@.subrange(
            pos as int,
            end as int,
        ) == enc_u8(cap_tag(v)) && end == pos + 1,
        (exists|c: Capability| starts_at(buf@, pos as int, enc_u8(cap_tag(c)))) ==> r is Some,
{
    let ghost can = exists|c: Capability| starts_at(buf@, pos as int, enc_u8(cap_tag(c)));
    let ghost w: Capability = choose|c: Capability| starts_at(buf@, pos as int, enc_u8(cap_tag(c)));
    proof {
        if can {
            assert(buf@.subrange(pos as int, pos + 1) == enc_u8(cap_tag(w)));
            assert(buf@.subrange(pos as int, pos + 1)[0] == buf@[pos as int]);
            assert(buf@[pos as int] == cap_tag(w));
        }
    }
    let (tag, end) = match read_u8(buf, pos) {
        Some(x) => x,
        None => {
            return None;
        },
    };
    proof {
        if can {
            assert(buf@.subrange(pos as int, end as int) == enc_u8(tag));
            assert(buf@.subrange(pos as int, end as int)[0] == buf@[pos as int]);
            assert(tag == buf@[pos as int]);
        }
    }
    match tag {
        0 => Some((Capability::DirectMessage, end)),
        1 => Some((Capability::Broadcast, end)),
        2 => Some((Capability::FileShare, end)),
        3 => Some((Capability::Presence, end)),
        4 => Some((Capability::Relay, end)),
        5 => Some((Capability::E2EEncryption, end)),
        _ => None,
    }
}

/// Reads a capability list.
pub fn read_caps(buf: &[u8], pos: usize) -> (r: Option<(Vec<Capability>, usize)>)
    ensures
        r matches Some((v, end)) ==> pos <= end <= buf@.len() && buf@.subrange(
            pos as int,
            end as int,
        ) == enc_caps(v@),
        (exists|v: Seq<Capability>|
            v.len() <= u64::MAX && starts_at(buf@, pos as int, enc_caps(v))) ==> r is Some,
{
    let ghost f = |c: Capability| enc_u8(cap_tag(c));
    let ghost can = exists|v: Seq<Capability>|
        v.len() <= u64::MAX && starts_at(buf@, pos as int, enc_caps(v));
    let ghost w: Seq<Capability> = choose|v: Seq<Capability>|
        v.len() <= u64::MAX && starts_at(buf@, pos as int, enc_caps(v));
    proof {
        if can {
            lemma_auto_spec_u64_to_from_le_bytes();
            lemma_starts_at_concat(buf@, pos as int, enc_u64(w.len() as u64), enc_list(w, f));
        }
    }
    let (n, p1) = match read_u64(buf, pos) {
        Some(x) => x,
        None => {
            return None;
        },
    };
    proof {
        if can {
            assert(buf@.subrange(pos as int, p1 as int) == enc_u64(n));
            assert(buf@.subrange(pos as int, pos + 8) == enc_u64(w.len() as u64));
            lemma_u64_round(n);
            lemma_u64_round(w.len() as u64);
            assert(n == w.len());
        }
    }
    let mut caps: Vec<Capability> = Vec::new();
    let mut cur: usize = p1;
    let mut i: u64 = 0;
    proof {
        assert(buf@.subrange(p1 as int, cur as int) =~= enc_list(caps@, f));
        if can {
            assert(w.skip(0) =~= w);
        }
    }
    while i < n
        invariant
            pos <= p1 <= cur <= buf@.len(),
            i <= n,
            caps@.len() == i,
            f == (|c: Capability| enc_u8(cap_tag(c))),
            buf@.subrange(pos as int, p1 as int) == enc_u64(n),
            buf@.subrange(p1 as int, cur as int) == enc_list(caps@, f),
            can == (exists|v: Seq<Capability>|
                v.len() <= u64::MAX && starts_at(buf@, pos as int, enc_caps(v))),
            can ==> n == w.len() && starts_at(buf@, cur as int, enc_list(w.skip(i as int), f)),
        decreases n - i,
    {
        proof {
            if can {
                let rem = w.skip(i as int);
                assert(rem.len() > 0);
                assert(enc_list(rem, f) == f(rem[0]) + enc_list(rem.drop_first(), f));
                lemma_starts_at_concat(buf@, cur as int, f(rem[0]), enc_list(rem.drop_first(), f));
                assert(starts_at(buf@, cur as int, enc_u8(cap_tag(rem[0]))));
            }
        }
        let (c, p2) = match read_capability(buf, cur) {
            Some(x) => x,
            None => {
                return None;
            },
        };
        let ghost old_caps = caps@;
        caps.push(c);
        proof {
            lemma_enc_list_push(old_caps, c, f);
            assert(buf@.subrange(p1 as int, p2 as int) =~= buf@.subrange(p1 as int, cur as int)
                + buf@.subrange(cur as int, p2 as int));
            assert(buf@.subrange(p1 as int, p2 as int) =~= enc_list(caps@, f));
            if can {
                let rem = w.skip(i as int);
                assert(rem.drop_first() =~= w.skip(i as int + 1));
                assert(f(rem[0]).len() == 1);
                assert(starts_at(buf@, cur + 1, enc_list(w.skip(i as int + 1), f)));
                assert(p2 == cur + 1);
            }
        }
        cur = p2;
        i = i + 1;
    }
    let ghost caps_view = caps@;
    proof {
        assert(caps_view.len() <= u64::MAX);
        assert(buf@.subrange(pos as int, cur as int) =~= buf@.subrange(pos as int, p1 as int)
            + buf@.subrange(p1 as int, cur as int));
        assert(buf@.subrange(pos as int, cur as int) =~= enc_caps(caps_view));
    }
    Some((caps, cur))
}

/// Reads a metadata record.
pub fn read_metadata(buf: &[u8], pos: usize) -> (r: Option<(NodeMetadata, usize)>)
    ensures
        r matches Some((v, end)) ==> pos <= end <= buf@.len() && buf@.subrange(
            pos as int,
            end as int,
        ) == enc_metadata(v),
        r matches Some((v, end)) ==> opt_str_ok(v.device_type) && opt_str_ok(v.app_version)
            && opt_str_ok(v.region),
        (exists|m: NodeMetadata|
            opt_str_ok(m.device_type) && opt_str_ok(m.app_version) && opt_str_ok(m.region)
                && starts_at(buf@, pos as int, enc_metadata(m))) ==> r is Some,
{
    let ghost can = exists|m: NodeMetadata|
        opt_str_ok(m.device_type) && opt_str_ok(m.app_version) && opt_str_ok(m.region)
            && starts_at(buf@, pos as int, enc_metadata(m));
    let ghost w: NodeMetadata = choose|m: NodeMetadata|
        opt_str_ok(m.device_type) && opt_str_ok(m.app_version) && opt_str_ok(m.region)
            && starts_at(buf@, pos as int, enc_metadata(m));
    proof {
        if can {
            assert(enc_metadata(w) =~= enc_opt_str(w.device_type) + (enc_opt_str(w.app_version)
                + enc_opt_str(w.region)));
            lemma_starts_at_concat(buf@, pos as int, enc_opt_str(w.device_type), enc_opt_str(
                w.app_version,
            ) + enc_opt_str(w.region));
        }
    }
    let (device_type, p1) = match read_opt_str(buf, pos) {
        Some(x) => x,
        None => {
            return None;
        },
    };
    proof {
        lemma_opt_str_enc_ok(device_type, buf@, pos as int, p1 as int);
        if can {
            let q1 = pos + enc_opt_str(w.device_type).len();
            lemma_skip_align(buf@, pos as int, p1 as int, q1);
            lemma_enc_opt_str_inj(device_type, w.device_type, buf@.skip(p1 as int), buf@.skip(q1));
            lemma_starts_at_concat(buf@, p1 as int, enc_opt_str(w.app_version), enc_opt_str(
                w.region,
            ));
        }
    }
    let (app_version, p2) = match read_opt_str(buf, p1) {
        Some(x) => x,
        None => {
            return None;
        },
    };
    proof {
        lemma_opt_str_enc_ok(app_version, buf@, p1 as int, p2 as int);
        if can {
            let q2 = p1 + enc_opt_str(w.app_version).len();
            lemma_skip_align(buf@, p1 as int, p2 as int, q2);
            lemma_enc_opt_str_inj(app_version, w.app_version, buf@.skip(p2 as int), buf@.skip(q2));
            assert(starts_at(buf@, p2 as int, enc_opt_str(w.region)));
        }
    }
    let (region, p3) = match read_opt_str(buf, p2) {
        Some(x) => x,
        None => {
            return None;
        },
    };
    proof {
        lemma_opt_str_enc_ok(region, buf@, p2 as int, p3 as int);
    }
    let m = NodeMetadata { device_type, app_version, region };
    proof {
        assert(buf@.subrange(pos as int, p3 as int) =~= buf@.subrange(pos as int, p1 as int)
            + buf@.subrange(p1 as int, p2 as int) + buf@.subrange(p2 as int, p3 as int));
        assert(buf@.subrange(pos as int, p3 as int) =~= enc_metadata(m));
    }
    Some((m, p3))
}

/// Reads optional metadata.
pub fn read_opt_metadata(buf: &[u8], pos: usize) -> (r: Option<(Option<NodeMetadata>, usize)>)
    ensures
        r matches Some((v, end)) ==> pos <= end <= buf@.len() && buf@.subrange(
            pos as int,
            end as int,
        ) == enc_opt_metadata(v),
        r matches Some((v, end)) ==> (v matches Option::Some(m) ==> opt_str_ok(m.device_type)
            && opt_str_ok(m.app_version) && opt_str_ok(m.region)),
        (exists|o: Option<NodeMetadata>|
            (o matches Option::Some(m) ==> opt_str_ok(m.device_type) && opt_str_ok(m.app_version)
                && opt_str_ok(m.region)) && starts_at(buf@, pos as int, enc_opt_metadata(o))) ==> r
            is Some,
{
    let ghost can = exists|o: Option<NodeMetadata>|
        (o matches Option::Some(m) ==> opt_str_ok(m.device_type) && opt_str_ok(m.app_version)
            && opt_str_ok(m.region)) && starts_at(buf@, pos as int, enc_opt_metadata(o));
    let ghost w: Option<NodeMetadata> = choose|o: Option<NodeMetadata>|
        (o matches Option::Some(m) ==> opt_str_ok(m.device_type) && opt_str_ok(m.app_version)
            && opt_str_ok(m.region)) && starts_at(buf@, pos as int, enc_opt_metadata(o));
    proof {
        if can {
            assert(buf@.subrange(pos as int, pos + enc_opt_metadata(w).len() as int)[0] == buf@[pos as int]);
            assert(buf@[pos as int] == enc_opt_metadata(w)[0]);
        }
    }
    let (tag, p1) = match read_u8(buf, pos) {
        Some(x) => x,
        None => {
            return None;
        },
    };
    proof {
        if can {
            assert(buf@.subrange(pos as int, p1 as int) == enc_u8(tag));
            assert(buf@.subrange(pos as int, p1 as int)[0] == buf@[pos as int]);
            assert(tag == enc_opt_metadata(w)[0]);
            if tag == 1 {
                let m = w->Some_0;
                assert(w matches Option::Some(x) && starts_at(
                    buf@,
                    pos as int,
                    seq![1u8] + enc_metadata(x),
                ));
                lemma_starts_at_concat(buf@, pos as int, seq![1u8], enc_metadata(m));
                assert(starts_at(buf@, p1 as int, enc_metadata(m)));
            }
        }
    }
    if tag == 0 {
        Some((None, p1))
    } else if tag == 1 {
        let (m, end) = match read_metadata(buf, p1) {
            Some(x) => x,
            None => {
                return None;
            },
        };
        proof {
            assert(buf@.subrange(pos as int, end as int) =~= buf@.subrange(pos as int, p1 as int)
                + buf@.subrange(p1 as int, end as int));
        }
        Some((Some(m), end))
    } else {
        None
    }
}

/// Reads a node manifest.
#[verifier::rlimit(100)]
pub fn read_manifest(buf: &[u8], pos: usize) -> (r: Option<(NodeManifest, usize)>)
    ensures
        r matches Some((v, end)) ==> pos <= end <= buf@.len() && buf@.subrange(
            pos as int,
            end as int,
        ) == enc_manifest(v),
        r matches Some((v, end)) ==> manifest_bounded(v),
        (exists|m: NodeManifest|
            manifest_bounded(m) && starts_at(buf@, pos as int, enc_manifest(m))) ==> r is Some,
{
    let ghost can = exists|m: NodeManifest|
        manifest_bounded(m) && starts_at(buf@, pos as int, enc_manifest(m));
    let ghost w: NodeManifest = choose|m: NodeManifest|
        manifest_bounded(m) && starts_at(buf@, pos as int, enc_manifest(m));
    let ghost rest1 = enc_str(w.display_name@) + enc_caps(w.capabilities@) + enc_u64(w.created_at)
        + enc_u64(w.protocol_version as u64) + enc_opt_metadata(w.metadata);
    proof {
        if can {
            lemma_auto_spec_u64_to_from_le_bytes();
            assert(w.node_id@.len() == 32);
            assert(enc_manifest(w) =~= w.node_id@ + rest1);
            lemma_starts_at_concat(buf@, pos as int, w.node_id@, rest1);
        }
    }
    let (node_id, p1) = match read_node_id(buf, pos) {
        Some(x) => x,
        None => {
            return None;
        },
    };
    let ghost rest2 = enc_caps(w.capabilities@) + enc_u64(w.created_at) + enc_u64(
        w.protocol_version as u64,
    ) + enc_opt_metadata(w.metadata);
    proof {
        if can {
            assert(rest1 =~= enc_str(w.display_name@) + rest2);
            lemma_starts_at_concat(buf@, p1 as int, enc_str(w.display_name@), rest2);
        }
    }
    let (display_name, p2) = match read_str(buf, p1) {
        Some(x) => x,
        None => {
            return None;
        },
    };
    let ghost rest3 = enc_u64(w.created_at) + enc_u64(w.protocol_version as u64)
        + enc_opt_metadata(w.metadata);
    proof {
        lemma_str_enc_ok(display_name@, buf@, p1 as int, p2 as int);
        if can {
            let q2 = p1 + enc_str(w.display_name@).len();
            lemma_skip_align(buf@, p1 as int, p2 as int, q2);
            lemma_enc_str_inj(display_name@, w.display_name@, buf@.skip(p2 as int), buf@.skip(q2));
            assert(rest2 =~= enc_caps(w.capabilities@) + rest3);
            lemma_starts_at_concat(buf@, p2 as int, enc_caps(w.capabilities@), rest3);
        }
    }
    let (capabilities, p3) = match read_caps(buf, p2) {
        Some(x) => x,
        None => {
            return None;
        },
    };
    let cap_count = capabilities.len();
    proof {
        assert(capabilities@.len() == cap_count);
        assert(capabilities@.len() <= u64::MAX);
        if can {
            let q3 = p2 + enc_caps(w.capabilities@).len();
            lemma_skip_align(buf@, p2 as int, p3 as int, q3);
            lemma_enc_caps_inj(
                capabilities@,
                w.capabilities@,
                buf@.skip(p3 as int),
                buf@.skip(q3),
            );
            assert(rest3 =~= enc_u64(w.created_at) + (enc_u64(w.protocol_version as u64)
                + enc_opt_metadata(w.metadata)));
            lemma_starts_at_concat(
                buf@,
                p3 as int,
                enc_u64(w.created_at),
                enc_u64(w.protocol_version as u64) + enc_opt_metadata(w.metadata),
            );
        }
    }
    let (created_at, p4) = match read_u64(buf, p3) {
        Some(x) => x,
        None => {
            return None;
        },
    };
    proof {
        if can {
            lemma_starts_at_concat(
                buf@,
                p4 as int,
                enc_u64(w.protocol_version as u64),
                enc_opt_metadata(w.metadata),
            );
        }
    }
    let (version_wide, p5) = match read_u64(buf, p4) {
        Some(x) => x,
        None => {
            return None;
        },
    };
    proof {
        if can {
            assert(buf@.subrange(p4 as int, p5 as int) == enc_u64(version_wide));
            assert(buf@.subrange(p4 as int, p4 + 8) == enc_u64(w.protocol_version as u64));
            lemma_u64_round(version_wide);
            lemma_u64_round(w.protocol_version as u64);
            assert(version_wide == w.protocol_version as u64);
            assert(starts_at(buf@, p5 as int, enc_opt_metadata(w.metadata)));
        }
    }
    if version_wide > u32::MAX as u64 {
        return None;
    }
    let (metadata, p6) = match read_opt_metadata(buf, p5) {
        Some(x) => x,
        None => {
            return None;
        },
    };
    let m = NodeManifest {
        node_id,
        display_name,
        capabilities,
        created_at,
        protocol_version: version_wide as u32,
        metadata,
    };
    proof {
        assert(buf@.subrange(pos as int, p6 as int) =~= buf@.subrange(pos as int, p1 as int)
            + buf@.subrange(p1 as int, p2 as int) + buf@.subrange(p2 as int, p3 as int)
            + buf@.subrange(p3 as int, p4 as int) + buf@.subrange(p4 as int, p5 as int)
            + buf@.subrange(p5 as int, p6 as int));
        assert(buf@.subrange(pos as int, p6 as int) =~= enc_manifest(m));
    }
    Some((m, p6))
}


/// Reads a presence status tag.
pub fn read_status(buf: &[u8], pos: usize) -> (r: Option<(PresenceStatus, usize)>)
    ensures
        r matches Some((v, end)) ==> pos <= end <= buf@.len() && buf@.subrange(
            pos as int,
            end as int,
        ) == enc_u8(status_tag(v)) && end == pos + 1,
        (exists|p: PresenceStatus| starts_at(buf@, pos as int, enc_u8(status_tag(p)))) ==> r
            is Some,
{
    let ghost can = exists|p: PresenceStatus| starts_at(buf@, pos as int, enc_u8(status_tag(p)));
    let ghost w: PresenceStatus = choose|p: PresenceStatus|
        starts_at(buf@, pos as int, enc_u8(status_tag(p)));
    proof {
        if can {
            assert(buf@.subrange(pos as int, pos + 1) == enc_u8(status_tag(w)));
            assert(buf@.subrange(pos as int, pos + 1)[0] == buf@[pos as int]);
            assert(buf@[pos as int] == status_tag(w));
        }
    }
    let (tag, end) = match read_u8(buf, pos) {
        Some(x) => x,
        None => {
            return None;
        },
    };
    proof {
        if can {
            assert(buf@.subrange(pos as int, end as int) == enc_u8(tag));
            assert(buf@.subrange(pos as int, end as int)[0] == buf@[pos as int]);
            assert(tag == buf@[pos as int]);
        }
    }
    match tag {
        0 => Some((PresenceStatus::Online, end)),
        1 => Some((PresenceStatus::Away, end)),
        2 => Some((PresenceStatus::Busy, end)),
        3 => Some((PresenceStatus::Offline, end)),
        _ => None,
    }
}

/// Reads a presence update.
pub fn read_presence(buf: &[u8], pos: usize) -> (r: Option<(PresenceUpdate, usize)>)
    ensures
        r matches Some((v, end)) ==> pos <= end <= buf@.len() && buf@.subrange(
            pos as int,
            end as int,
        ) == enc_presence(v),
        (exists|p: PresenceUpdate|
            opt_str_ok(p.activity) && starts_at(buf@, pos as int, enc_presence(p))) ==> r is Some,
{
    let ghost can = exists|p: PresenceUpdate|
        opt_str_ok(p.activity) && starts_at(buf@, pos as int, enc_presence(p));
    let ghost w: PresenceUpdate = choose|p: PresenceUpdate|
        opt_str_ok(p.activity) && starts_at(buf@, pos as int, enc_presence(p));
    let ghost rest1 = enc_u8(status_tag(w.status)) + enc_opt_str(w.activity) + enc_u64(
        w.last_active,
    );
    proof {
        if can {
            lemma_auto_spec_u64_to_from_le_bytes();
            assert(w.node_id@.len() == 32);
            assert(enc_presence(w) =~= w.node_id@ + rest1);
            lemma_starts_at_concat(buf@, pos as int, w.node_id@, rest1);
        }
    }
    let (node_id, p1) = match read_node_id(buf, pos) {
        Some(x) => x,
        None => {
            return None;
        },
    };
    let ghost rest2 = enc_opt_str(w.activity) + enc_u64(w.last_active);
    proof {
        if can {
            assert(rest1 =~= enc_u8(status_tag(w.status)) + rest2);
            lemma_starts_at_concat(buf@, p1 as int, enc_u8(status_tag(w.status)), rest2);
        }
    }
    let (status, p2) = match read_status(buf, p1) {
        Some(x) => x,
        None => {
            return None;
        },
    };
    proof {
        if can {
            assert(rest2 =~= enc_opt_str(w.activity) + enc_u64(w.last_active));
            assert(p2 == p1 + 1);
            lemma_starts_at_concat(buf@, p2 as int, enc_opt_str(w.activity), enc_u64(
                w.last_active,
            ));
        }
    }
    let (activity, p3) = match read_opt_str(buf, p2) {
        Some(x) => x,
        None => {
            return None;
        },
    };
    proof {
        if can {
            let q3 = p2 + enc_opt_str(w.activity).len();
            lemma_opt_str_enc_ok(activity, buf@, p2 as int, p3 as int);
            lemma_skip_align(buf@, p2 as int, p3 as int, q3);
            lemma_enc_opt_str_inj(activity, w.activity, buf@.skip(p3 as int), buf@.skip(q3));
        }
    }
    let (last_active, p4) = match read_u64(buf, p3) {
        Some(x) => x,
        None => {
            return None;
        },
    };
    let p = PresenceUpdate { node_id, status, activity, last_active };
    proof {
        assert(buf@.subrange(pos as int, p4 as int) =~= buf@.subrange(pos as int, p1 as int)
            + buf@.subrange(p1 as int, p2 as int) + buf@.subrange(p2 as int, p3 as int)
            + buf@.subrange(p3 as int, p4 as int));
        assert(buf@.subrange(pos as int, p4 as int) =~= enc_presence(p));
    }
    Some((p, p4))
}

/// Reads a mention list.
pub fn read_mentions(buf: &[u8], pos: usize) -> (r: Option<(Vec<NodeId>, usize)>)
    ensures
        r matches Some((v, end)) ==> pos <= end <= buf@.len() && buf@.subrange(
            pos as int,
            end as int,
        ) == enc_mentions(v@),
        (exists|v: Seq<NodeId>|
            v.len() <= u64::MAX && starts_at(buf@, pos as int, enc_mentions(v))) ==> r is Some,
{
    let ghost f = |x: NodeId| x@;
    let ghost can = exists|v: Seq<NodeId>|
        v.len() <= u64::MAX && starts_at(buf@, pos as int, enc_mentions(v));
    let ghost w: Seq<NodeId> = choose|v: Seq<NodeId>|
        v.len() <= u64::MAX && starts_at(buf@, pos as int, enc_mentions(v));
    proof {
        if can {
            lemma_auto_spec_u64_to_from_le_bytes();
            lemma_starts_at_concat(buf@, pos as int, enc_u64(w.len() as u64), enc_list(w, f));
        }
    }
    let (n, p1) = match read_u64(buf, pos) {
        Some(x) => x,
        None => {
            return None;
        },
    };
    proof {
        if can {
            assert(buf@.subrange(pos as int, p1 as int) == enc_u64(n));
            assert(buf@.subrange(pos as int, pos + 8) == enc_u64(w.len() as u64));
            lemma_u64_round(n);
            lemma_u64_round(w.len() as u64);
            assert(n == w.len());
        }
    }
    let mut ids: Vec<NodeId> = Vec::new();
    let mut cur: usize = p1;
    let mut i: u64 = 0;
    proof {
        assert(buf@.subrange(p1 as int, cur as int) =~= enc_list(ids@, f));
        if can {
            assert(w.skip(0) =~= w);
        }
    }
    while i < n
        invariant
            pos <= p1 <= cur <= buf@.len(),
            i <= n,
            ids@.len() == i,
            f == (|x: NodeId| x@),
            buf@.subrange(pos as int, p1 as int) == enc_u64(n),
            buf@.subrange(p1 as int, cur as int) == enc_list(ids@, f),
            can == (exists|v: Seq<NodeId>|
                v.len() <= u64::MAX && starts_at(buf@, pos as int, enc_mentions(v))),
            can ==> n == w.len() && starts_at(buf@, cur as int, enc_list(w.skip(i as int), f)),
        decreases n - i,
    {
        proof {
            if can {
                let rem = w.skip(i as int);
                assert(rem.len() > 0);
                assert(rem[0]@.len() == 32);
                assert(enc_list(rem, f) == f(rem[0]) + enc_list(rem.drop_first(), f));
                lemma_starts_at_concat(buf@, cur as int, f(rem[0]), enc_list(rem.drop_first(), f));
            }
        }
        let (id, p2) = match read_node_id(buf, cur) {
            Some(x) => x,
            None => {
                return None;
            },
        };
        proof {
            if can {
                let rem = w.skip(i as int);
                assert(rem.drop_first() =~= w.skip(i as int + 1));
                assert(p2 == cur + 32);
                assert(starts_at(buf@, p2 as int, enc_list(w.skip(i as int + 1), f)));
            }
        }
        let ghost old_ids = ids@;
        ids.push(id);
        proof {
            lemma_enc_list_push(old_ids, id, f);
            assert(buf@.subrange(p1 as int, p2 as int) =~= buf@.subrange(p1 as int, cur as int)
                + buf@.subrange(cur as int, p2 as int));
            assert(buf@.subrange(p1 as int, p2 as int) =~= enc_list(ids@, f));
        }
        cur = p2;
        i = i + 1;
    }
    let ghost ids_view = ids@;
    proof {
        assert(ids_view.len() <= u64::MAX);
        assert(buf@.subrange(pos as int, cur as int) =~= buf@.subrange(pos as int, p1 as int)
            + buf@.subrange(p1 as int, cur as int));
        assert(buf@.subrange(pos as int, cur as int) =~= enc_mentions(ids_view));
    }
    Some((ids, cur))
}

/// Reads a broadcast.
pub fn read_broadcast(buf: &[u8], pos: usize) -> (r: Option<(BroadcastMessage, usize)>)
    ensures
        r matches Some((v, end)) ==> pos <= end <= buf@.len() && buf@.subrange(
            pos as int,
            end as int,
        ) == enc_broadcast(v),
        (exists|b: BroadcastMessage|
            opt_str_ok(b.channel) && str_ok(b.content@) && b.mentions@.len() <= u64::MAX
                && starts_at(buf@, pos as int, enc_broadcast(b))) ==> r is Some,
{
    let ghost can = exists|b: BroadcastMessage|
        opt_str_ok(b.channel) && str_ok(b.content@) && b.mentions@.len() <= u64::MAX && starts_at(
            buf@,
            pos as int,
            enc_broadcast(b),
        );
    let ghost w: BroadcastMessage = choose|b: BroadcastMessage|
        opt_str_ok(b.channel) && str_ok(b.content@) && b.mentions@.len() <= u64::MAX && starts_at(
            buf@,
            pos as int,
            enc_broadcast(b),
        );
    let ghost rest1 = enc_str(w.content@) + enc_mentions(w.mentions@);
    proof {
        if can {
            assert(enc_broadcast(w) =~= enc_opt_str(w.channel) + rest1);
            lemma_starts_at_concat(buf@, pos as int, enc_opt_str(w.channel), rest1);
        }
    }
    let (channel, p1) = match read_opt_str(buf, pos) {
        Some(x) => x,
        None => {
            return None;
        },
    };
    proof {
        if can {
            let q1 = pos + enc_opt_str(w.channel).len();
            lemma_opt_str_enc_ok(channel, buf@, pos as int, p1 as int);
            lemma_skip_align(buf@, pos as int, p1 as int, q1);
            lemma_enc_opt_str_inj(channel, w.channel, buf@.skip(p1 as int), buf@.skip(q1));
            lemma_starts_at_concat(buf@, p1 as int, enc_str(w.content@), enc_mentions(w.mentions@));
        }
    }
    let (content, p2) = match read_str(buf, p1) {
        Some(x) => x,
        None => {
            return None;
        },
    };
    proof {
        if can {
            let q2 = p1 + enc_str(w.content@).len();
            lemma_str_enc_ok(content@, buf@, p1 as int, p2 as int);
            lemma_skip_align(buf@, p1 as int, p2 as int, q2);
            lemma_enc_str_inj(content@, w.content@, buf@.skip(p2 as int), buf@.skip(q2));
            assert(starts_at(buf@, p2 as int, enc_mentions(w.mentions@)));
        }
    }
    let (mentions, p3) = match read_mentions(buf, p2) {
        Some(x) => x,
        None => {
            return None;
        },
    };
    let b = BroadcastMessage { channel, content, mentions };
    proof {
        assert(buf@.subrange(pos as int, p3 as int) =~= buf@.subrange(pos as int, p1 as int)
            + buf@.subrange(p1 as int, p2 as int) + buf@.subrange(p2 as int, p3 as int));
        assert(buf@.subrange(pos as int, p3 as int) =~= enc_broadcast(b));
    }
    Some((b, p3))
}

/// Reads an optional message id.
pub fn read_opt_message_id(buf: &[u8], pos: usize) -> (r: Option<(Option<MessageId>, usize)>)
    ensures
        r matches Some((v, end)) ==> pos <= end <= buf@.len() && buf@.subrange(
            pos as int,
            end as int,
        ) == enc_opt_message_id(v),
        (exists|o: Option<MessageId>| starts_at(buf@, pos as int, enc_opt_message_id(o))) ==> r
            is Some,
{
    let ghost can = exists|o: Option<MessageId>|
        starts_at(buf@, pos as int, enc_opt_message_id(o));
    let ghost w: Option<MessageId> = choose|o: Option<MessageId>|
        starts_at(buf@, pos as int, enc_opt_message_id(o));
    proof {
        if can {
            assert(buf@.subrange(pos as int, pos + enc_opt_message_id(w).len() as int)[0]
                == buf@[pos as int]);
            assert(buf@[pos as int] == enc_opt_message_id(w)[0]);
        }
    }
    let (tag, p1) = match read_u8(buf, pos) {
        Some(x) => x,
        None => {
            return None;
        },
    };
    proof {
        if can {
            assert(buf@.subrange(pos as int, p1 as int) == enc_u8(tag));
            assert(buf@.subrange(pos as int, p1 as int)[0] == buf@[pos as int]);
            assert(tag == enc_opt_message_id(w)[0]);
            if tag == 1 {
                let id = w->Some_0;
                assert(w matches Option::Some(x) && starts_at(
                    buf@,
                    pos as int,
                    seq![1u8] + x@,
                ));
                lemma_starts_at_concat(buf@, pos as int, seq![1u8], id@);
                assert(id@.len() == 16);
                assert(starts_at(buf@, p1 as int, id@));
            }
        }
    }
    if tag == 0 {
        Some((None, p1))
    } else if tag == 1 {
        let (id, end) = match read_message_id(buf, p1) {
            Some(x) => x,
            None => {
                return None;
            },
        };
        proof {
            assert(buf@.subrange(pos as int, end as int) =~= buf@.subrange(pos as int, p1 as int)
                + buf@.subrange(p1 as int, end as int));
        }
        Some((Some(id), end))
    } else {
        None
    }
}

/// Reads a direct message.
pub fn read_dm(buf: &[u8], pos: usize) -> (r: Option<(DirectMessage, usize)>)
    ensures
        r matches Some((v, end)) ==> pos <= end <= buf@.len() && buf@.subrange(
            pos as int,
            end as int,
        ) == enc_dm(v),
        (exists|d: DirectMessage|
            d.content@.len() <= u64::MAX && starts_at(buf@, pos as int, enc_dm(d))) ==> r is Some,
{
    let ghost can = exists|d: DirectMessage|
        d.content@.len() <= u64::MAX && starts_at(buf@, pos as int, enc_dm(d));
    let ghost w: DirectMessage = choose|d: DirectMessage|
        d.content@.len() <= u64::MAX && starts_at(buf@, pos as int, enc_dm(d));
    let ghost rest1 = enc_bytes(w.content@) + enc_bool(w.encrypted) + enc_opt_message_id(
        w.thread_id,
    );
    proof {
        if can {
            assert(w.to@.len() == 32);
            assert(enc_dm(w) =~= w.to@ + rest1);
            lemma_starts_at_concat(buf@, pos as int, w.to@, rest1);
        }
    }
    let (to, p1) = match read_node_id(buf, pos) {
        Some(x) => x,
        None => {
            return None;
        },
    };
    let ghost rest2 = enc_bool(w.encrypted) + enc_opt_message_id(w.thread_id);
    proof {
        if can {
            assert(rest1 =~= enc_bytes(w.content@) + rest2);
            lemma_starts_at_concat(buf@, p1 as int, enc_bytes(w.content@), rest2);
        }
    }
    let (content, p2) = match read_bytes(buf, p1) {
        Some(x) => x,
        None => {
            return None;
        },
    };
    let content_len = content.len();
    proof {
        if can {
            let q2 = p1 + enc_bytes(w.content@).len();
            assert(content@.len() == content_len);
            lemma_skip_align(buf@, p1 as int, p2 as int, q2);
            lemma_enc_bytes_inj(content@, w.content@, buf@.skip(p2 as int), buf@.skip(q2));
            assert(rest2 =~= enc_bool(w.encrypted) + enc_opt_message_id(w.thread_id));
            lemma_starts_at_concat(buf@, p2 as int, enc_bool(w.encrypted), enc_opt_message_id(
                w.thread_id,
            ));
        }
    }
    let (encrypted, p3) = match read_bool(buf, p2) {
        Some(x) => x,
        None => {
            return None;
        },
    };
    proof {
        if can {
            assert(p3 == p2 + 1);
            assert(enc_bool(w.encrypted).len() == 1);
            assert(starts_at(buf@, p3 as int, enc_opt_message_id(w.thread_id)));
        }
    }
    let (thread_id, p4) = match read_opt_message_id(buf, p3) {
        Some(x) => x,
        None => {
            return None;
        },
    };
    let d = DirectMessage { to, content, encrypted, thread_id };
    proof {
        assert(buf@.subrange(pos as int, p4 as int) =~= buf@.subrange(pos as int, p1 as int)
            + buf@.subrange(p1 as int, p2 as int) + buf@.subrange(p2 as int, p3 as int)
            + buf@.subrange(p3 as int, p4 as int));
        assert(buf@.subrange(pos as int, p4 as int) =~= enc_dm(d));
    }
    Some((d, p4))
}

/// Reads a team action.
pub fn read_team_action(buf: &[u8], pos: usize) -> (r: Option<(TeamAction, usize)>)
    ensures
        r matches Some((v, end)) ==> pos <= end <= buf@.len() && buf@.subrange(
            pos as int,
            end as int,
        ) == enc_team_action(v),
{
    let (tag, p1) = match read_u8(buf, pos) {
        Some(x) => x,
        None => {
            return None;
        },
    };
    if tag == 0 {
        Some((TeamAction::Join, p1))
    } else if tag == 1 {
        Some((TeamAction::Leave, p1))
    } else if tag == 2 {
        let (role, end) = match read_str(buf, p1) {
            Some(x) => x,
            None => {
                return None;
            },
        };
        proof {
            assert(buf@.subrange(pos as int, end as int) =~= buf@.subrange(pos as int, p1 as int)
                + buf@.subrange(p1 as int, end as int));
        }
        Some((TeamAction::UpdateRole(role), end))
    } else {
        None
    }
}

/// Reads a team update.
pub fn read_team_update(buf: &[u8], pos: usize) -> (r: Option<(TeamUpdate, usize)>)
    ensures
        r matches Some((v, end)) ==> pos <= end <= buf@.len() && buf@.subrange(
            pos as int,
            end as int,
        ) == enc_team_update(v),
{
    let (team_id, p1) = match read_str(buf, pos) {
        Some(x) => x,
        None => {
            return None;
        },
    };
    let (member_id, p2) = match read_node_id(buf, p1) {
        Some(x) => x,
        None => {
            return None;
        },
    };
    let (action, p3) = match read_team_action(buf, p2) {
        Some(x) => x,
        None => {
            return None;
        },
    };
    let t = TeamUpdate { team_id, member_id, action };
    proof {
        assert(buf@.subrange(pos as int, p3 as int) =~= buf@.subrange(pos as int, p1 as int)
            + buf@.subrange(p1 as int, p2 as int) + buf@.subrange(p2 as int, p3 as int));
        assert(buf@.subrange(pos as int, p3 as int) =~= enc_team_update(t));
    }
    Some((t, p3))
}

/// Reads a sync data kind.
pub fn read_sync_data_type(buf: &[u8], pos: usize) -> (r: Option<(SyncDataType, usize)>)
    ensures
        r matches Some((v, end)) ==> pos <= end <= buf@.len() && buf@.subrange(
            pos as int,
            end as int,
        ) == enc_sync_data_type(v),
{
    let (tag, p1) = match read_u8(buf, pos) {
        Some(x) => x,
        None => {
            return None;
        },
    };
    if tag == 0 {
        Some((SyncDataType::DirectMessages, p1))
    } else if tag == 1 {
        let (channel, end) = match read_opt_str(buf, p1) {
            Some(x) => x,
            None => {
                return None;
            },
        };
        proof {
            assert(buf@.subrange(pos as int, end as int) =~= buf@.subrange(pos as int, p1 as int)
                + buf@.subrange(p1 as int, end as int));
        }
        Some((SyncDataType::Broadcasts { channel }, end))
    } else if tag == 2 {
        let (team_id, end) = match read_str(buf, p1) {
            Some(x) => x,
            None => {
                return None;
            },
        };
        proof {
            assert(buf@.subrange(pos as int, end as int) =~= buf@.subrange(pos as int, p1 as int)
                + buf@.subrange(p1 as int, end as int));
        }
        Some((SyncDataType::TeamMembers { team_id }, end))
    } else if tag == 3 {
        Some((SyncDataType::Presence, p1))
    } else {
        None
    }
}

/// Reads a sync request.
pub fn read_sync_request(buf: &[u8], pos: usize) -> (r: Option<(SyncRequest, usize)>)
    ensures
        r matches Some((v, end)) ==> pos <= end <= buf@.len() && buf@.subrange(
            pos as int,
            end as int,
        ) == enc_sync_request(v) && v.since_clock.wf(),
{
    let (data_type, p1) = match read_sync_data_type(buf, pos) {
        Some(x) => x,
        None => {
            return None;
        },
    };
    let (since_clock, p2) = match read_vclock(buf, p1) {
        Some(x) => x,
        None => {
            return None;
        },
    };
    let (limit_wide, p3) = match read_u64(buf, p2) {
        Some(x) => x,
        None => {
            return None;
        },
    };
    if limit_wide > u32::MAX as u64 {
        return None;
    }
    let r = SyncRequest { data_type, since_clock, limit: limit_wide as u32 };
    proof {
        assert(buf@.subrange(pos as int, p3 as int) =~= buf@.subrange(pos as int, p1 as int)
            + buf@.subrange(p1 as int, p2 as int) + buf@.subrange(p2 as int, p3 as int));
        assert(buf@.subrange(pos as int, p3 as int) =~= enc_sync_request(r));
    }
    Some((r, p3))
}

/// Reads a sync response; recursive through its items.
pub fn read_sync_response(buf: &[u8], pos: usize) -> (r: Option<(SyncResponse, usize)>)
    ensures
        r matches Some((v, end)) ==> pos < end <= buf@.len() && buf@.subrange(
            pos as int,
            end as int,
        ) == enc_sync_response(v) && crate::message::payload_wf(
            crate::message::MessagePayload::SyncResponse(v),
        ),
    decreases buf@.len() - pos, 2int,
{
    let (request_id, p1) = match read_message_id(buf, pos) {
        Some(x) => x,
        None => {
            return None;
        },
    };
    let (has_more, p2) = match read_bool(buf, p1) {
        Some(x) => x,
        None => {
            return None;
        },
    };
    let (n, p3) = match read_u64(buf, p2) {
        Some(x) => x,
        None => {
            return None;
        },
    };
    let mut items: Vec<MessageEnvelope> = Vec::new();
    let mut cur: usize = p3;
    let mut i: u64 = 0;
    proof {
        assert(buf@.subrange(p3 as int, cur as int) =~= enc_envelopes(items@));
    }
    while i < n
        invariant
            pos < p3 <= cur <= buf@.len(),
            i <= n,
            items@.len() == i,
            buf@.subrange(pos as int, p1 as int) == request_id@,
            buf@.subrange(p1 as int, p2 as int) == enc_bool(has_more),
            buf@.subrange(p2 as int, p3 as int) == enc_u64(n),
            p1 == pos + 16,
            p2 == p1 + 1,
            p3 == p2 + 8,
            buf@.subrange(p3 as int, cur as int) == enc_envelopes(items@),
            forall|j: int| 0 <= j < items@.len() ==> (#[trigger] items@[j]).wf(),
        decreases n - i,
    {
        let (env, p4) = match read_envelope(buf, cur) {
            Some(x) => x,
            None => {
                return None;
            },
        };
        let ghost old_items = items@;
        items.push(env);
        proof {
            lemma_enc_envelopes_push(old_items, env);
            assert(buf@.subrange(p3 as int, p4 as int) =~= buf@.subrange(p3 as int, cur as int)
                + buf@.subrange(cur as int, p4 as int));
            assert(buf@.subrange(p3 as int, p4 as int) =~= enc_envelopes(items@));
        }
        cur = p4;
        i = i + 1;
    }
    let ghost items_view = items@;
    let resp = SyncResponse { request_id, has_more, items };
    proof {
        assert(items_view.len() <= u64::MAX);
        assert(buf@.subrange(pos as int, cur as int) =~= buf@.subrange(pos as int, p1 as int)
            + buf@.subrange(p1 as int, p2 as int) + buf@.subrange(p2 as int, p3 as int)
            + buf@.subrange(p3 as int, cur as int));
        assert(buf@.subrange(pos as int, cur as int) =~= enc_sync_response(resp));
    }
    Some((resp, cur))
}

/// Reads a payload: a tag byte, then the variant body.
pub fn read_payload(buf: &[u8], pos: usize) -> (r: Option<(MessagePayload, usize)>)
    ensures
        r matches Some((v, end)) ==> pos < end <= buf@.len() && buf@.subrange(
            pos as int,
            end as int,
        ) == enc_payload(v) && crate::message::payload_wf(v),
    decreases buf@.len() - pos, 3int,
{
    let (tag, p1) = match read_u8(buf, pos) {
        Some(x) => x,
        None => {
            return None;
        },
    };
    let (payload, end): (MessagePayload, usize) = if tag == 0 {
        match read_presence(buf, p1) {
            Some((x, e)) => (MessagePayload::Presence(x), e),
            None => {
                return None;
            },
        }
    } else if tag == 1 {
        match read_broadcast(buf, p1) {
            Some((x, e)) => (MessagePayload::Broadcast(x), e),
            None => {
                return None;
            },
        }
    } else if tag == 2 {
        match read_manifest(buf, p1) {
            Some((x, e)) => (MessagePayload::NodeAnnounce(x), e),
            None => {
                return None;
            },
        }
    } else if tag == 3 {
        match read_dm(buf, p1) {
            Some((x, e)) => (MessagePayload::DirectMessage(x), e),
            None => {
                return None;
            },
        }
    } else if tag == 4 {
        match read_team_update(buf, p1) {
            Some((x, e)) => (MessagePayload::TeamUpdate(x), e),
            None => {
                return None;
            },
        }
    } else if tag == 5 {
        match read_sync_request(buf, p1) {
            Some((x, e)) => (MessagePayload::SyncRequest(x), e),
            None => {
                return None;
            },
        }
    } else if tag == 6 {
        match read_sync_response(buf, p1) {
            Some((x, e)) => (MessagePayload::SyncResponse(x), e),
            None => {
                return None;
            },
        }
    } else if tag == 7 {
        match read_u64(buf, p1) {
            Some((x, e)) => (MessagePayload::Ping { nonce: x }, e),
            None => {
                return None;
            },
        }
    } else if tag == 8 {
        match read_u64(buf, p1) {
            Some((x, e)) => (MessagePayload::Pong { nonce: x }, e),
            None => {
                return None;
            },
        }
    } else if tag == 9 {
        match read_message_id(buf, p1) {
            Some((x, e)) => (MessagePayload::Ack { message_id: x }, e),
            None => {
                return None;
            },
        }
    } else {
        return None;
    };
    proof {
        assert(buf@.subrange(pos as int, end as int) =~= buf@.subrange(pos as int, p1 as int)
            + buf@.subrange(p1 as int, end as int));
        assert(buf@.subrange(pos as int, end as int) =~= enc_payload(payload));
    }
    Some((payload, end))
}

/// Reads an optional signature.
pub fn read_opt_sig(buf: &[u8], pos: usize) -> (r: Option<(Option<Vec<u8>>, usize)>)
    ensures
        r matches Some((v, end)) ==> pos <= end <= buf@.len() && buf@.subrange(
            pos as int,
            end as int,
        ) == enc_opt_sig(v),
{
    let (tag, p1) = match read_u8(buf, pos) {
        Some(x) => x,
        None => {
            return None;
        },
    };
    if tag == 0 {
        Some((None, p1))
    } else if tag == 1 {
        let (sig, end) = match read_bytes(buf, p1) {
            Some(x) => x,
            None => {
                return None;
            },
        };
        proof {
            assert(buf@.subrange(pos as int, end as int) =~= buf@.subrange(pos as int, p1 as int)
                + buf@.subrange(p1 as int, end as int));
        }
        Some((Some(sig), end))
    } else {
        None
    }
}

/// Reads an envelope; recursive through sync-response payloads. The result
/// is well formed and its encoding is exactly the bytes consumed.
pub fn read_envelope(buf: &[u8], pos: usize) -> (r: Option<(MessageEnvelope, usize)>)
    ensures
        r matches Some((v, end)) ==> pos < end <= buf@.len() && buf@.subrange(
            pos as int,
            end as int,
        ) == enc_envelope(v) && v.wf(),
    decreases buf@.len() - pos, 4int,
{
    let (id, p1) = match read_message_id(buf, pos) {
        Some(x) => x,
        None => {
            return None;
        },
    };
    let (origin, p2) = match read_node_id(buf, p1) {
        Some(x) => x,
        None => {
            return None;
        },
    };
    let (clock, p3) = match read_vclock(buf, p2) {
        Some(x) => x,
        None => {
            return None;
        },
    };
    let (layer, p4): (DataLayer, usize) = match read_u8(buf, p3) {
        Some((0, e)) => (DataLayer::Private, e),
        Some((1, e)) => (DataLayer::Shared, e),
        Some((2, e)) => (DataLayer::Federated, e),
        _ => {
            return None;
        },
    };
    let (ttl, p5) = match read_u8(buf, p4) {
        Some(x) => x,
        None => {
            return None;
        },
    };
    let (timestamp, p6) = match read_u64(buf, p5) {
        Some(x) => x,
        None => {
            return None;
        },
    };
    let (payload, p7) = match read_payload(buf, p6) {
        Some(x) => x,
        None => {
            return None;
        },
    };
    let (signature, p8) = match read_opt_sig(buf, p7) {
        Some(x) => x,
        None => {
            return None;
        },
    };
    let env = MessageEnvelope { id, origin, clock, layer, ttl, timestamp, payload, signature };
    proof {
        assert(buf@.subrange(p3 as int, p4 as int) =~= enc_u8(layer_tag(layer)));
        assert(buf@.subrange(pos as int, p8 as int) =~= buf@.subrange(pos as int, p1 as int)
            + buf@.subrange(p1 as int, p2 as int) + buf@.subrange(p2 as int, p3 as int)
            + buf@.subrange(p3 as int, p4 as int) + buf@.subrange(p4 as int, p5 as int)
            + buf@.subrange(p5 as int, p6 as int) + buf@.subrange(p6 as int, p7 as int)
            + buf@.subrange(p7 as int, p8 as int));
        assert(buf@.subrange(pos as int, p8 as int) =~= enc_envelope(env));
    }
    Some((env, p8))
}

impl MessageEnvelope {
    /// Serializes an envelope to its canonical bytes.
    pub fn to_bytes(&self) -> (r: Vec<u8>)
        ensures
            r@ == enc_envelope(*self),
    {
        let mut buf: Vec<u8> = Vec::new();
        write_envelope(&mut buf, self);
        proof {
            assert(buf@ =~= enc_envelope(*self));
        }
        buf
    }

    /// Deserializes an envelope from its canonical bytes; succeeds only when
    /// the whole input is the encoding of the result, which is well formed.
    pub fn from_bytes(bytes: &[u8]) -> (r: Option<MessageEnvelope>)
        ensures
            r matches Some(env) ==> enc_envelope(env) == bytes@ && env.wf(),
    {
        match read_envelope(bytes, 0) {
            Some((env, end)) => {
                if end == bytes.len() {
                    proof {
                        assert(bytes@.subrange(0, bytes@.len() as int) =~= bytes@);
                    }
                    Some(env)
                } else {
                    None
                }
            },
            None => None,
        }
    }
}


/// Whether text is small enough for the wire: its UTF-8 form fits the
/// 64-bit length field.
pub open spec fn str_ok(s: Seq<char>) -> bool {
    encode_utf8(s).len() <= u64::MAX
}

/// Whether optional text fits the wire.
pub open spec fn opt_str_ok(o: Option<String>) -> bool {
    o matches Option::Some(s) ==> str_ok(s@)
}

/// Whether every length in an envelope fits the 64-bit fields of the wire
/// format. Every envelope built in memory satisfies this; the bound matters
/// only for the abstract statement of unambiguity.
pub open spec fn envelope_bounded(e: MessageEnvelope) -> bool
    decreases e,
{
    &&& e.clock.clocks@.len() <= u64::MAX
    &&& payload_bounded(e.payload)
    &&& (e.signature matches Option::Some(sig) ==> sig@.len() <= u64::MAX)
}

/// Whether every length in a payload fits the wire format.
pub open spec fn payload_bounded(p: MessagePayload) -> bool
    decreases p,
{
    match p {
        MessagePayload::Presence(x) => opt_str_ok(x.activity),
        MessagePayload::Broadcast(x) => opt_str_ok(x.channel) && str_ok(x.content@)
            && x.mentions@.len() <= u64::MAX,
        MessagePayload::NodeAnnounce(x) => manifest_bounded(x),
        MessagePayload::DirectMessage(x) => x.content@.len() <= u64::MAX,
        MessagePayload::TeamUpdate(x) => str_ok(x.team_id@) && (x.action
            matches TeamAction::UpdateRole(role) ==> str_ok(role@)),
        MessagePayload::SyncRequest(x) => sync_data_type_bounded(x.data_type)
            && x.since_clock.clocks@.len() <= u64::MAX,
        MessagePayload::SyncResponse(x) => x.items@.len() <= u64::MAX && (forall|i: int|
            0 <= i < x.items@.len() ==> envelope_bounded(#[trigger] x.items@[i])),
        _ => true,
    }
}

/// Whether every length in a manifest fits the wire format.
pub open spec fn manifest_bounded(m: NodeManifest) -> bool {
    &&& str_ok(m.display_name@)
    &&& m.capabilities@.len() <= u64::MAX
    &&& (m.metadata matches Option::Some(md) ==> opt_str_ok(md.device_type) && opt_str_ok(
        md.app_version,
    ) && opt_str_ok(md.region))
}

/// Whether every length in a sync data kind fits the wire format.
pub open spec fn sync_data_type_bounded(d: SyncDataType) -> bool {
    match d {
        SyncDataType::Broadcasts { channel } => opt_str_ok(channel),
        SyncDataType::TeamMembers { team_id } => str_ok(team_id@),
        _ => true,
    }
}

/// Node-id encodings followed by anything are unambiguous.
pub proof fn lemma_node_id_prefix_inj(a: NodeId, b: NodeId, ra: Seq<u8>, rb: Seq<u8>)
    requires
        a@ + ra == b@ + rb,
    ensures
        a == b,
        ra == rb,
{
    lemma_concat_inj(a@, ra, b@, rb);
    assert(a.0 =~= b.0);
}

/// Message-id encodings followed by anything are unambiguous.
pub proof fn lemma_message_id_prefix_inj(a: MessageId, b: MessageId, ra: Seq<u8>, rb: Seq<u8>)
    requires
        a@ + ra == b@ + rb,
    ensures
        a == b,
        ra == rb,
{
    lemma_concat_inj(a@, ra, b@, rb);
    assert(a.0 =~= b.0);
}

/// Vector-clock entry lists of equal length are unambiguous.
pub proof fn lemma_enc_vc_entries_inj(
    s1: Seq<(NodeId, u64)>,
    s2: Seq<(NodeId, u64)>,
    ra: Seq<u8>,
    rb: Seq<u8>,
)
    requires
        s1.len() == s2.len(),
        enc_list(s1, |e: (NodeId, u64)| enc_vc_entry(e)) + ra == enc_list(
            s2,
            |e: (NodeId, u64)| enc_vc_entry(e),
        ) + rb,
    ensures
        s1 == s2,
        ra == rb,
    decreases s1.len(),
{
    let f = |e: (NodeId, u64)| enc_vc_entry(e);
    if s1.len() == 0 {
        assert(enc_list(s1, f) =~= Seq::<u8>::empty());
        assert(enc_list(s2, f) =~= Seq::<u8>::empty());
        assert(s1 =~= s2);
        assert(ra =~= enc_list(s1, f) + ra);
        assert(rb =~= enc_list(s2, f) + rb);
    } else {
        let t1 = enc_list(s1.drop_first(), f) + ra;
        let t2 = enc_list(s2.drop_first(), f) + rb;
        assert(enc_list(s1, f) + ra =~= (s1[0].0@ + enc_u64(s1[0].1)) + t1);
        assert(enc_list(s2, f) + rb =~= (s2[0].0@ + enc_u64(s2[0].1)) + t2);
        assert(s1[0].0@ + enc_u64(s1[0].1) + t1 =~= s1[0].0@ + (enc_u64(s1[0].1) + t1));
        assert(s2[0].0@ + enc_u64(s2[0].1) + t2 =~= s2[0].0@ + (enc_u64(s2[0].1) + t2));
        lemma_node_id_prefix_inj(s1[0].0, s2[0].0, enc_u64(s1[0].1) + t1, enc_u64(s2[0].1) + t2);
        lemma_enc_u64_inj(s1[0].1, s2[0].1, t1, t2);
        lemma_enc_vc_entries_inj(s1.drop_first(), s2.drop_first(), ra, rb);
        assert forall|i: int| 0 <= i < s1.len() implies s1[i] == s2[i] by {
            if i > 0 {
                assert(s1.drop_first()[i - 1] == s1[i]);
                assert(s2.drop_first()[i - 1] == s2[i]);
            }
        }
        assert(s1 =~= s2);
    }
}

/// Vector-clock encodings followed by anything are unambiguous.
pub proof fn lemma_enc_vclock_inj(a: VectorClock, b: VectorClock, ra: Seq<u8>, rb: Seq<u8>)
    requires
        a.clocks@.len() <= u64::MAX,
        b.clocks@.len() <= u64::MAX,
        enc_vclock(a) + ra == enc_vclock(b) + rb,
    ensures
        a.clocks@ == b.clocks@,
        ra == rb,
{
    let f = |e: (NodeId, u64)| enc_vc_entry(e);
    assert(enc_vclock(a) + ra =~= enc_u64(a.clocks@.len() as u64) + (enc_list(a.clocks@, f) + ra));
    assert(enc_vclock(b) + rb =~= enc_u64(b.clocks@.len() as u64) + (enc_list(b.clocks@, f) + rb));
    lemma_enc_u64_inj(
        a.clocks@.len() as u64,
        b.clocks@.len() as u64,
        enc_list(a.clocks@, f) + ra,
        enc_list(b.clocks@, f) + rb,
    );
    lemma_enc_vc_entries_inj(a.clocks@, b.clocks@, ra, rb);
}

/// Capability tags are distinct, so tag encodings are unambiguous.
pub proof fn lemma_cap_tag_inj(a: Capability, b: Capability)
    requires
        cap_tag(a) == cap_tag(b),
    ensures
        a == b,
{
}

/// Capability lists of equal length are unambiguous.
pub proof fn lemma_enc_cap_list_inj(
    s1: Seq<Capability>,
    s2: Seq<Capability>,
    ra: Seq<u8>,
    rb: Seq<u8>,
)
    requires
        s1.len() == s2.len(),
        enc_list(s1, |c: Capability| enc_u8(cap_tag(c))) + ra == enc_list(
            s2,
            |c: Capability| enc_u8(cap_tag(c)),
        ) + rb,
    ensures
        s1 == s2,
        ra == rb,
    decreases s1.len(),
{
    let f = |c: Capability| enc_u8(cap_tag(c));
    if s1.len() == 0 {
        assert(enc_list(s1, f) =~= Seq::<u8>::empty());
        assert(enc_list(s2, f) =~= Seq::<u8>::empty());
        assert(s1 =~= s2);
        assert(ra =~= enc_list(s1, f) + ra);
        assert(rb =~= enc_list(s2, f) + rb);
    } else {
        let t1 = enc_list(s1.drop_first(), f) + ra;
        let t2 = enc_list(s2.drop_first(), f) + rb;
        assert(enc_list(s1, f) + ra =~= enc_u8(cap_tag(s1[0])) + t1);
        assert(enc_list(s2, f) + rb =~= enc_u8(cap_tag(s2[0])) + t2);
        lemma_enc_u8_inj(cap_tag(s1[0]), cap_tag(s2[0]), t1, t2);
        lemma_cap_tag_inj(s1[0], s2[0]);
        lemma_enc_cap_list_inj(s1.drop_first(), s2.drop_first(), ra, rb);
        assert forall|i: int| 0 <= i < s1.len() implies s1[i] == s2[i] by {
            if i > 0 {
                assert(s1.drop_first()[i - 1] == s1[i]);
                assert(s2.drop_first()[i - 1] == s2[i]);
            }
        }
        assert(s1 =~= s2);
    }
}

/// Capability-list encodings followed by anything are unambiguous.
pub proof fn lemma_enc_caps_inj(s1: Seq<Capability>, s2: Seq<Capability>, ra: Seq<u8>, rb: Seq<u8>)
    requires
        s1.len() <= u64::MAX,
        s2.len() <= u64::MAX,
        enc_caps(s1) + ra == enc_caps(s2) + rb,
    ensures
        s1 == s2,
        ra == rb,
{
    let f = |c: Capability| enc_u8(cap_tag(c));
    assert(enc_caps(s1) + ra =~= enc_u64(s1.len() as u64) + (enc_list(s1, f) + ra));
    assert(enc_caps(s2) + rb =~= enc_u64(s2.len() as u64) + (enc_list(s2, f) + rb));
    lemma_enc_u64_inj(s1.len() as u64, s2.len() as u64, enc_list(s1, f) + ra, enc_list(s2, f) + rb);
    lemma_enc_cap_list_inj(s1, s2, ra, rb);
}

/// Metadata encodings followed by anything are unambiguous.
pub proof fn lemma_enc_metadata_inj(a: NodeMetadata, b: NodeMetadata, ra: Seq<u8>, rb: Seq<u8>)
    requires
        opt_str_ok(a.device_type),
        opt_str_ok(a.app_version),
        opt_str_ok(a.region),
        opt_str_ok(b.device_type),
        opt_str_ok(b.app_version),
        opt_str_ok(b.region),
        enc_metadata(a) + ra == enc_metadata(b) + rb,
    ensures
        crate::identity::metadata_eq(a, b),
        ra == rb,
{
    let t1 = enc_opt_str(a.app_version) + (enc_opt_str(a.region) + ra);
    let t2 = enc_opt_str(b.app_version) + (enc_opt_str(b.region) + rb);
    assert(enc_metadata(a) + ra =~= enc_opt_str(a.device_type) + t1);
    assert(enc_metadata(b) + rb =~= enc_opt_str(b.device_type) + t2);
    lemma_enc_opt_str_inj(a.device_type, b.device_type, t1, t2);
    lemma_enc_opt_str_inj(
        a.app_version,
        b.app_version,
        enc_opt_str(a.region) + ra,
        enc_opt_str(b.region) + rb,
    );
    lemma_enc_opt_str_inj(a.region, b.region, ra, rb);
}

/// Optional-metadata encodings followed by anything are unambiguous.
pub proof fn lemma_enc_opt_metadata_inj(
    a: Option<NodeMetadata>,
    b: Option<NodeMetadata>,
    ra: Seq<u8>,
    rb: Seq<u8>,
)
    requires
        (a matches Option::Some(m) ==> opt_str_ok(m.device_type) && opt_str_ok(m.app_version)
            && opt_str_ok(m.region)),
        (b matches Option::Some(m) ==> opt_str_ok(m.device_type) && opt_str_ok(m.app_version)
            && opt_str_ok(m.region)),
        enc_opt_metadata(a) + ra == enc_opt_metadata(b) + rb,
    ensures
        match (a, b) {
            (Option::None, Option::None) => true,
            (Option::Some(x), Option::Some(y)) => crate::identity::metadata_eq(x, y),
            _ => false,
        },
        ra == rb,
{
    match (a, b) {
        (Option::None, Option::None) => {
            lemma_concat_inj(seq![0u8], ra, seq![0u8], rb);
        },
        (Option::Some(x), Option::Some(y)) => {
            assert((seq![1u8] + enc_metadata(x)) + ra =~= seq![1u8] + (enc_metadata(x) + ra));
            assert((seq![1u8] + enc_metadata(y)) + rb =~= seq![1u8] + (enc_metadata(y) + rb));
            lemma_concat_inj(seq![1u8], enc_metadata(x) + ra, seq![1u8], enc_metadata(y) + rb);
            lemma_enc_metadata_inj(x, y, ra, rb);
        },
        (Option::None, Option::Some(_)) => {
            assert((enc_opt_metadata(a) + ra)[0] == 0u8);
            assert((enc_opt_metadata(b) + rb)[0] == 1u8);
        },
        (Option::Some(_), Option::None) => {
            assert((enc_opt_metadata(a) + ra)[0] == 1u8);
            assert((enc_opt_metadata(b) + rb)[0] == 0u8);
        },
    }
}

/// Manifest encodings followed by anything are unambiguous.
#[verifier::rlimit(100)]
pub proof fn lemma_enc_manifest_inj(a: NodeManifest, b: NodeManifest, ra: Seq<u8>, rb: Seq<u8>)
    requires
        manifest_bounded(a),
        manifest_bounded(b),
        enc_manifest(a) + ra == enc_manifest(b) + rb,
    ensures
        crate::identity::manifest_eq(a, b),
        ra == rb,
{
    let a5 = enc_opt_metadata(a.metadata) + ra;
    let a4 = enc_u64(a.protocol_version as u64) + a5;
    let a3 = enc_u64(a.created_at) + a4;
    let a2 = enc_caps(a.capabilities@) + a3;
    let a1 = enc_str(a.display_name@) + a2;
    let b5 = enc_opt_metadata(b.metadata) + rb;
    let b4 = enc_u64(b.protocol_version as u64) + b5;
    let b3 = enc_u64(b.created_at) + b4;
    let b2 = enc_caps(b.capabilities@) + b3;
    let b1 = enc_str(b.display_name@) + b2;
    assert(enc_manifest(a) + ra =~= a.node_id@ + a1);
    assert(enc_manifest(b) + rb =~= b.node_id@ + b1);
    lemma_node_id_prefix_inj(a.node_id, b.node_id, a1, b1);
    lemma_enc_str_inj(a.display_name@, b.display_name@, a2, b2);
    lemma_enc_caps_inj(a.capabilities@, b.capabilities@, a3, b3);
    lemma_enc_u64_inj(a.created_at, b.created_at, a4, b4);
    lemma_enc_u64_inj(a.protocol_version as u64, b.protocol_version as u64, a5, b5);
    lemma_enc_opt_metadata_inj(a.metadata, b.metadata, ra, rb);
}


/// Presence encodings followed by anything are unambiguous.
pub proof fn lemma_enc_presence_inj(a: PresenceUpdate, b: PresenceUpdate, ra: Seq<u8>, rb: Seq<u8>)
    requires
        opt_str_ok(a.activity),
        opt_str_ok(b.activity),
        enc_presence(a) + ra == enc_presence(b) + rb,
    ensures
        crate::message::presence_eq(a, b),
        ra == rb,
{
    let a3 = enc_u64(a.last_active) + ra;
    let a2 = enc_opt_str(a.activity) + a3;
    let a1 = enc_u8(status_tag(a.status)) + a2;
    let b3 = enc_u64(b.last_active) + rb;
    let b2 = enc_opt_str(b.activity) + b3;
    let b1 = enc_u8(status_tag(b.status)) + b2;
    assert(enc_presence(a) + ra =~= a.node_id@ + a1);
    assert(enc_presence(b) + rb =~= b.node_id@ + b1);
    lemma_node_id_prefix_inj(a.node_id, b.node_id, a1, b1);
    lemma_enc_u8_inj(status_tag(a.status), status_tag(b.status), a2, b2);
    lemma_enc_opt_str_inj(a.activity, b.activity, a3, b3);
    lemma_enc_u64_inj(a.last_active, b.last_active, ra, rb);
}

/// Mention lists of equal length are unambiguous.
pub proof fn lemma_enc_mention_list_inj(s1: Seq<NodeId>, s2: Seq<NodeId>, ra: Seq<u8>, rb: Seq<u8>)
    requires
        s1.len() == s2.len(),
        enc_list(s1, |n: NodeId| n@) + ra == enc_list(s2, |n: NodeId| n@) + rb,
    ensures
        s1 == s2,
        ra == rb,
    decreases s1.len(),
{
    let f = |n: NodeId| n@;
    if s1.len() == 0 {
        assert(enc_list(s1, f) =~= Seq::<u8>::empty());
        assert(enc_list(s2, f) =~= Seq::<u8>::empty());
        assert(s1 =~= s2);
        assert(ra =~= enc_list(s1, f) + ra);
        assert(rb =~= enc_list(s2, f) + rb);
    } else {
        let t1 = enc_list(s1.drop_first(), f) + ra;
        let t2 = enc_list(s2.drop_first(), f) + rb;
        assert(enc_list(s1, f) + ra =~= s1[0]@ + t1);
        assert(enc_list(s2, f) + rb =~= s2[0]@ + t2);
        lemma_node_id_prefix_inj(s1[0], s2[0], t1, t2);
        lemma_enc_mention_list_inj(s1.drop_first(), s2.drop_first(), ra, rb);
        assert forall|i: int| 0 <= i < s1.len() implies s1[i] == s2[i] by {
            if i > 0 {
                assert(s1.drop_first()[i - 1] == s1[i]);
                assert(s2.drop_first()[i - 1] == s2[i]);
            }
        }
        assert(s1 =~= s2);
    }
}

/// Mention encodings followed by anything are unambiguous.
pub proof fn lemma_enc_mentions_inj(s1: Seq<NodeId>, s2: Seq<NodeId>, ra: Seq<u8>, rb: Seq<u8>)
    requires
        s1.len() <= u64::MAX,
        s2.len() <= u64::MAX,
        enc_mentions(s1) + ra == enc_mentions(s2) + rb,
    ensures
        s1 == s2,
        ra == rb,
{
    let f = |n: NodeId| n@;
    assert(enc_mentions(s1) + ra =~= enc_u64(s1.len() as u64) + (enc_list(s1, f) + ra));
    assert(enc_mentions(s2) + rb =~= enc_u64(s2.len() as u64) + (enc_list(s2, f) + rb));
    lemma_enc_u64_inj(s1.len() as u64, s2.len() as u64, enc_list(s1, f) + ra, enc_list(s2, f) + rb);
    lemma_enc_mention_list_inj(s1, s2, ra, rb);
}

/// Broadcast encodings followed by anything are unambiguous.
pub proof fn lemma_enc_broadcast_inj(
    a: BroadcastMessage,
    b: BroadcastMessage,
    ra: Seq<u8>,
    rb: Seq<u8>,
)
    requires
        opt_str_ok(a.channel),
        str_ok(a.content@),
        a.mentions@.len() <= u64::MAX,
        opt_str_ok(b.channel),
        str_ok(b.content@),
        b.mentions@.len() <= u64::MAX,
        enc_broadcast(a) + ra == enc_broadcast(b) + rb,
    ensures
        crate::message::broadcast_eq(a, b),
        ra == rb,
{
    let a2 = enc_mentions(a.mentions@) + ra;
    let a1 = enc_str(a.content@) + a2;
    let b2 = enc_mentions(b.mentions@) + rb;
    let b1 = enc_str(b.content@) + b2;
    assert(enc_broadcast(a) + ra =~= enc_opt_str(a.channel) + a1);
    assert(enc_broadcast(b) + rb =~= enc_opt_str(b.channel) + b1);
    lemma_enc_opt_str_inj(a.channel, b.channel, a1, b1);
    lemma_enc_str_inj(a.content@, b.content@, a2, b2);
    lemma_enc_mentions_inj(a.mentions@, b.mentions@, ra, rb);
}

/// Optional message-id encodings followed by anything are unambiguous.
pub proof fn lemma_enc_opt_message_id_inj(
    a: Option<MessageId>,
    b: Option<MessageId>,
    ra: Seq<u8>,
    rb: Seq<u8>,
)
    requires
        enc_opt_message_id(a) + ra == enc_opt_message_id(b) + rb,
    ensures
        a == b,
        ra == rb,
{
    match (a, b) {
        (Option::None, Option::None) => {
            lemma_concat_inj(seq![0u8], ra, seq![0u8], rb);
        },
        (Option::Some(x), Option::Some(y)) => {
            assert((seq![1u8] + x@) + ra =~= seq![1u8] + (x@ + ra));
            assert((seq![1u8] + y@) + rb =~= seq![1u8] + (y@ + rb));
            lemma_concat_inj(seq![1u8], x@ + ra, seq![1u8], y@ + rb);
            lemma_message_id_prefix_inj(x, y, ra, rb);
        },
        (Option::None, Option::Some(_)) => {
            assert((enc_opt_message_id(a) + ra)[0] == 0u8);
            assert((enc_opt_message_id(b) + rb)[0] == 1u8);
        },
        (Option::Some(_), Option::None) => {
            assert((enc_opt_message_id(a) + ra)[0] == 1u8);
            assert((enc_opt_message_id(b) + rb)[0] == 0u8);
        },
    }
}

/// Direct-message encodings followed by anything are unambiguous.
pub proof fn lemma_enc_dm_inj(a: DirectMessage, b: DirectMessage, ra: Seq<u8>, rb: Seq<u8>)
    requires
        a.content@.len() <= u64::MAX,
        b.content@.len() <= u64::MAX,
        enc_dm(a) + ra == enc_dm(b) + rb,
    ensures
        crate::message::dm_eq(a, b),
        ra == rb,
{
    let a3 = enc_opt_message_id(a.thread_id) + ra;
    let a2 = enc_bool(a.encrypted) + a3;
    let a1 = enc_bytes(a.content@) + a2;
    let b3 = enc_opt_message_id(b.thread_id) + rb;
    let b2 = enc_bool(b.encrypted) + b3;
    let b1 = enc_bytes(b.content@) + b2;
    assert(enc_dm(a) + ra =~= a.to@ + a1);
    assert(enc_dm(b) + rb =~= b.to@ + b1);
    lemma_node_id_prefix_inj(a.to, b.to, a1, b1);
    lemma_enc_bytes_inj(a.content@, b.content@, a2, b2);
    lemma_enc_u8_inj(
        if a.encrypted { 1u8 } else { 0u8 },
        if b.encrypted { 1u8 } else { 0u8 },
        a3,
        b3,
    );
    lemma_enc_opt_message_id_inj(a.thread_id, b.thread_id, ra, rb);
}

/// Team-action encodings followed by anything are unambiguous: helper.
/// The first byte of a team-action encoding is its variant tag.
proof fn lemma_team_action_first_byte(a: TeamAction)
    ensures
        enc_team_action(a).len() >= 1,
        enc_team_action(a)[0] == (match a {
            TeamAction::Join => 0u8,
            TeamAction::Leave => 1u8,
            TeamAction::UpdateRole(_) => 2u8,
        }),
{
    match a {
        TeamAction::Join => {
        },
        TeamAction::Leave => {
        },
        TeamAction::UpdateRole(role) => {
            assert((seq![2u8] + enc_str(role@))[0] == 2u8);
        },
    }
}

/// The first byte of a sync-data-kind encoding is its variant tag.
proof fn lemma_sync_data_type_first_byte(a: SyncDataType)
    ensures
        enc_sync_data_type(a).len() >= 1,
        enc_sync_data_type(a)[0] == (match a {
            SyncDataType::DirectMessages => 0u8,
            SyncDataType::Broadcasts { .. } => 1u8,
            SyncDataType::TeamMembers { .. } => 2u8,
            SyncDataType::Presence => 3u8,
        }),
{
    match a {
        SyncDataType::Broadcasts { channel } => {
            assert((seq![1u8] + enc_opt_str(channel))[0] == 1u8);
        },
        SyncDataType::TeamMembers { team_id } => {
            assert((seq![2u8] + enc_str(team_id@))[0] == 2u8);
        },
        _ => {
        },
    }
}

/// Team-action encodings followed by anything are unambiguous.

pub proof fn lemma_enc_team_action_inj(a: TeamAction, b: TeamAction, ra: Seq<u8>, rb: Seq<u8>)
    requires
        (a matches TeamAction::UpdateRole(role) ==> str_ok(role@)),
        (b matches TeamAction::UpdateRole(role) ==> str_ok(role@)),
        enc_team_action(a) + ra == enc_team_action(b) + rb,
    ensures
        crate::message::team_action_eq(a, b),
        ra == rb,
{
    assert((enc_team_action(a) + ra)[0] == (enc_team_action(b) + rb)[0]);
    match (a, b) {
        (TeamAction::Join, TeamAction::Join) => {
            lemma_concat_inj(seq![0u8], ra, seq![0u8], rb);
        },
        (TeamAction::Leave, TeamAction::Leave) => {
            lemma_concat_inj(seq![1u8], ra, seq![1u8], rb);
        },
        (TeamAction::UpdateRole(x), TeamAction::UpdateRole(y)) => {
            assert((seq![2u8] + enc_str(x@)) + ra =~= seq![2u8] + (enc_str(x@) + ra));
            assert((seq![2u8] + enc_str(y@)) + rb =~= seq![2u8] + (enc_str(y@) + rb));
            lemma_concat_inj(seq![2u8], enc_str(x@) + ra, seq![2u8], enc_str(y@) + rb);
            lemma_enc_str_inj(x@, y@, ra, rb);
        },
        _ => {
            lemma_team_action_first_byte(a);
            lemma_team_action_first_byte(b);
            assert((enc_team_action(a) + ra)[0] == enc_team_action(a)[0]);
            assert((enc_team_action(b) + rb)[0] == enc_team_action(b)[0]);
            assert(false);
        },
    }
}

/// Team-update encodings followed by anything are unambiguous.
pub proof fn lemma_enc_team_update_inj(a: TeamUpdate, b: TeamUpdate, ra: Seq<u8>, rb: Seq<u8>)
    requires
        str_ok(a.team_id@),
        (a.action matches TeamAction::UpdateRole(role) ==> str_ok(role@)),
        str_ok(b.team_id@),
        (b.action matches TeamAction::UpdateRole(role) ==> str_ok(role@)),
        enc_team_update(a) + ra == enc_team_update(b) + rb,
    ensures
        crate::message::team_update_eq(a, b),
        ra == rb,
{
    let a2 = enc_team_action(a.action) + ra;
    let a1 = a.member_id@ + a2;
    let b2 = enc_team_action(b.action) + rb;
    let b1 = b.member_id@ + b2;
    assert(enc_team_update(a) + ra =~= enc_str(a.team_id@) + a1);
    assert(enc_team_update(b) + rb =~= enc_str(b.team_id@) + b1);
    lemma_enc_str_inj(a.team_id@, b.team_id@, a1, b1);
    lemma_node_id_prefix_inj(a.member_id, b.member_id, a2, b2);
    lemma_enc_team_action_inj(a.action, b.action, ra, rb);
}

/// Sync-data-kind encodings followed by anything are unambiguous.
pub proof fn lemma_enc_sync_data_type_inj(a: SyncDataType, b: SyncDataType, ra: Seq<u8>, rb: Seq<
    u8,
>)
    requires
        sync_data_type_bounded(a),
        sync_data_type_bounded(b),
        enc_sync_data_type(a) + ra == enc_sync_data_type(b) + rb,
    ensures
        crate::message::sync_data_type_eq(a, b),
        ra == rb,
{
    assert((enc_sync_data_type(a) + ra)[0] == (enc_sync_data_type(b) + rb)[0]);
    match (a, b) {
        (SyncDataType::DirectMessages, SyncDataType::DirectMessages) => {
            lemma_concat_inj(seq![0u8], ra, seq![0u8], rb);
        },
        (SyncDataType::Broadcasts { channel: x }, SyncDataType::Broadcasts { channel: y }) => {
            assert((seq![1u8] + enc_opt_str(x)) + ra =~= seq![1u8] + (enc_opt_str(x) + ra));
            assert((seq![1u8] + enc_opt_str(y)) + rb =~= seq![1u8] + (enc_opt_str(y) + rb));
            lemma_concat_inj(seq![1u8], enc_opt_str(x) + ra, seq![1u8], enc_opt_str(y) + rb);
            lemma_enc_opt_str_inj(x, y, ra, rb);
        },
        (SyncDataType::TeamMembers { team_id: x }, SyncDataType::TeamMembers { team_id: y }) => {
            assert((seq![2u8] + enc_str(x@)) + ra =~= seq![2u8] + (enc_str(x@) + ra));
            assert((seq![2u8] + enc_str(y@)) + rb =~= seq![2u8] + (enc_str(y@) + rb));
            lemma_concat_inj(seq![2u8], enc_str(x@) + ra, seq![2u8], enc_str(y@) + rb);
            lemma_enc_str_inj(x@, y@, ra, rb);
        },
        (SyncDataType::Presence, SyncDataType::Presence) => {
            lemma_concat_inj(seq![3u8], ra, seq![3u8], rb);
        },
        _ => {
            lemma_sync_data_type_first_byte(a);
            lemma_sync_data_type_first_byte(b);
            assert((enc_sync_data_type(a) + ra)[0] == enc_sync_data_type(a)[0]);
            assert((enc_sync_data_type(b) + rb)[0] == enc_sync_data_type(b)[0]);
            assert(false);
        },
    }
}

/// Sync-request encodings followed by anything are unambiguous.
pub proof fn lemma_enc_sync_request_inj(a: SyncRequest, b: SyncRequest, ra: Seq<u8>, rb: Seq<u8>)
    requires
        sync_data_type_bounded(a.data_type),
        a.since_clock.clocks@.len() <= u64::MAX,
        sync_data_type_bounded(b.data_type),
        b.since_clock.clocks@.len() <= u64::MAX,
        enc_sync_request(a) + ra == enc_sync_request(b) + rb,
    ensures
        crate::message::sync_request_eq(a, b),
        ra == rb,
{
    let a2 = enc_u64(a.limit as u64) + ra;
    let a1 = enc_vclock(a.since_clock) + a2;
    let b2 = enc_u64(b.limit as u64) + rb;
    let b1 = enc_vclock(b.since_clock) + b2;
    assert(enc_sync_request(a) + ra =~= enc_sync_data_type(a.data_type) + a1);
    assert(enc_sync_request(b) + rb =~= enc_sync_data_type(b.data_type) + b1);
    lemma_enc_sync_data_type_inj(a.data_type, b.data_type, a1, b1);
    lemma_enc_vclock_inj(a.since_clock, b.since_clock, a2, b2);
    lemma_enc_u64_inj(a.limit as u64, b.limit as u64, ra, rb);
}

/// Envelope-list encodings of equal item count are unambiguous.
pub proof fn lemma_enc_envelopes_inj(
    s1: Seq<MessageEnvelope>,
    s2: Seq<MessageEnvelope>,
    ra: Seq<u8>,
    rb: Seq<u8>,
)
    requires
        s1.len() == s2.len(),
        forall|i: int| 0 <= i < s1.len() ==> envelope_bounded(#[trigger] s1[i]),
        forall|i: int| 0 <= i < s2.len() ==> envelope_bounded(#[trigger] s2[i]),
        enc_envelopes(s1) + ra == enc_envelopes(s2) + rb,
    ensures
        forall|i: int|
            0 <= i < s1.len() ==> crate::message::envelope_eq(#[trigger] s1[i], s2[i]),
        ra == rb,
    decreases s1,
{
    if s1.len() == 0 {
        assert(enc_envelopes(s1) =~= Seq::<u8>::empty());
        assert(enc_envelopes(s2) =~= Seq::<u8>::empty());
        assert(ra =~= enc_envelopes(s1) + ra);
        assert(rb =~= enc_envelopes(s2) + rb);
    } else {
        let t1 = enc_envelopes(s1.drop_first()) + ra;
        let t2 = enc_envelopes(s2.drop_first()) + rb;
        assert(enc_envelopes(s1) + ra =~= enc_envelope(s1[0]) + t1);
        assert(enc_envelopes(s2) + rb =~= enc_envelope(s2[0]) + t2);
        lemma_enc_envelope_inj(s1[0], s2[0], t1, t2);
        assert forall|i: int|
            0 <= i < s1.drop_first().len() implies envelope_bounded(
            #[trigger] s1.drop_first()[i],
        ) by {
            assert(s1.drop_first()[i] == s1[i + 1]);
        }
        assert forall|i: int|
            0 <= i < s2.drop_first().len() implies envelope_bounded(
            #[trigger] s2.drop_first()[i],
        ) by {
            assert(s2.drop_first()[i] == s2[i + 1]);
        }
        lemma_enc_envelopes_inj(s1.drop_first(), s2.drop_first(), ra, rb);
        assert forall|i: int|
            0 <= i < s1.len() implies crate::message::envelope_eq(#[trigger] s1[i], s2[i]) by {
            if i > 0 {
                assert(s1.drop_first()[i - 1] == s1[i]);
                assert(s2.drop_first()[i - 1] == s2[i]);
                assert(crate::message::envelope_eq(s1.drop_first()[i - 1], s2.drop_first()[i - 1]));
            }
        }
    }
}

/// Sync-response encodings followed by anything are unambiguous.
#[verifier::rlimit(100)]
pub proof fn lemma_enc_sync_response_inj(a: SyncResponse, b: SyncResponse, ra: Seq<u8>, rb: Seq<
    u8,
>)
    requires
        payload_bounded(MessagePayload::SyncResponse(a)),
        payload_bounded(MessagePayload::SyncResponse(b)),
        enc_sync_response(a) + ra == enc_sync_response(b) + rb,
    ensures
        crate::message::sync_response_eq(a, b),
        ra == rb,
    decreases a,
{
    let a3 = enc_envelopes(a.items@) + ra;
    let a2 = enc_u64(a.items@.len() as u64) + a3;
    let a1 = enc_bool(a.has_more) + a2;
    let b3 = enc_envelopes(b.items@) + rb;
    let b2 = enc_u64(b.items@.len() as u64) + b3;
    let b1 = enc_bool(b.has_more) + b2;
    assert(enc_sync_response(a) + ra =~= a.request_id@ + a1);
    assert(enc_sync_response(b) + rb =~= b.request_id@ + b1);
    lemma_message_id_prefix_inj(a.request_id, b.request_id, a1, b1);
    lemma_enc_u8_inj(
        if a.has_more { 1u8 } else { 0u8 },
        if b.has_more { 1u8 } else { 0u8 },
        a2,
        b2,
    );
    lemma_enc_u64_inj(a.items@.len() as u64, b.items@.len() as u64, a3, b3);
    lemma_enc_envelopes_inj(a.items@, b.items@, ra, rb);
}

/// Payload encodings followed by anything are unambiguous.
pub proof fn lemma_enc_payload_inj(a: MessagePayload, b: MessagePayload, ra: Seq<u8>, rb: Seq<u8>)
    requires
        payload_bounded(a),
        payload_bounded(b),
        enc_payload(a) + ra == enc_payload(b) + rb,
    ensures
        crate::message::payload_eq(a, b),
        ra == rb,
    decreases a,
{
    let body_a = enc_payload(a).skip(1);
    let body_b = enc_payload(b).skip(1);
    assert(enc_payload(a) + ra =~= enc_u8(payload_tag(a)) + (body_a + ra));
    assert(enc_payload(b) + rb =~= enc_u8(payload_tag(b)) + (body_b + rb));
    lemma_enc_u8_inj(payload_tag(a), payload_tag(b), body_a + ra, body_b + rb);
    match (a, b) {
        (MessagePayload::Presence(x), MessagePayload::Presence(y)) => {
            assert(body_a =~= enc_presence(x));
            assert(body_b =~= enc_presence(y));
            lemma_enc_presence_inj(x, y, ra, rb);
        },
        (MessagePayload::Broadcast(x), MessagePayload::Broadcast(y)) => {
            assert(body_a =~= enc_broadcast(x));
            assert(body_b =~= enc_broadcast(y));
            lemma_enc_broadcast_inj(x, y, ra, rb);
        },
        (MessagePayload::NodeAnnounce(x), MessagePayload::NodeAnnounce(y)) => {
            assert(body_a =~= enc_manifest(x));
            assert(body_b =~= enc_manifest(y));
            lemma_enc_manifest_inj(x, y, ra, rb);
        },
        (MessagePayload::DirectMessage(x), MessagePayload::DirectMessage(y)) => {
            assert(body_a =~= enc_dm(x));
            assert(body_b =~= enc_dm(y));
            lemma_enc_dm_inj(x, y, ra, rb);
        },
        (MessagePayload::TeamUpdate(x), MessagePayload::TeamUpdate(y)) => {
            assert(body_a =~= enc_team_update(x));
            assert(body_b =~= enc_team_update(y));
            lemma_enc_team_update_inj(x, y, ra, rb);
        },
        (MessagePayload::SyncRequest(x), MessagePayload::SyncRequest(y)) => {
            assert(body_a =~= enc_sync_request(x));
            assert(body_b =~= enc_sync_request(y));
            lemma_enc_sync_request_inj(x, y, ra, rb);
        },
        (MessagePayload::SyncResponse(x), MessagePayload::SyncResponse(y)) => {
            assert(body_a =~= enc_sync_response(x));
            assert(body_b =~= enc_sync_response(y));
            lemma_enc_sync_response_inj(x, y, ra, rb);
        },
        (MessagePayload::Ping { nonce: x }, MessagePayload::Ping { nonce: y }) => {
            assert(body_a =~= enc_u64(x));
            assert(body_b =~= enc_u64(y));
            lemma_enc_u64_inj(x, y, ra, rb);
        },
        (MessagePayload::Pong { nonce: x }, MessagePayload::Pong { nonce: y }) => {
            assert(body_a =~= enc_u64(x));
            assert(body_b =~= enc_u64(y));
            lemma_enc_u64_inj(x, y, ra, rb);
        },
        (MessagePayload::Ack { message_id: x }, MessagePayload::Ack { message_id: y }) => {
            assert(body_a =~= x@);
            assert(body_b =~= y@);
            lemma_message_id_prefix_inj(x, y, ra, rb);
        },
        _ => {
            assert(payload_tag(a) != payload_tag(b));
            assert(false);
        },
    }
}

/// Optional-signature encodings followed by anything are unambiguous.
pub proof fn lemma_enc_opt_sig_inj(a: Option<Vec<u8>>, b: Option<Vec<u8>>, ra: Seq<u8>, rb: Seq<
    u8,
>)
    requires
        (a matches Option::Some(sig) ==> sig@.len() <= u64::MAX),
        (b matches Option::Some(sig) ==> sig@.len() <= u64::MAX),
        enc_opt_sig(a) + ra == enc_opt_sig(b) + rb,
    ensures
        match (a, b) {
            (Option::None, Option::None) => true,
            (Option::Some(x), Option::Some(y)) => x@ == y@,
            _ => false,
        },
        ra == rb,
{
    match (a, b) {
        (Option::None, Option::None) => {
            lemma_concat_inj(seq![0u8], ra, seq![0u8], rb);
        },
        (Option::Some(x), Option::Some(y)) => {
            assert((seq![1u8] + enc_bytes(x@)) + ra =~= seq![1u8] + (enc_bytes(x@) + ra));
            assert((seq![1u8] + enc_bytes(y@)) + rb =~= seq![1u8] + (enc_bytes(y@) + rb));
            lemma_concat_inj(seq![1u8], enc_bytes(x@) + ra, seq![1u8], enc_bytes(y@) + rb);
            lemma_enc_bytes_inj(x@, y@, ra, rb);
        },
        (Option::None, Option::Some(_)) => {
            assert((enc_opt_sig(a) + ra)[0] == 0u8);
            assert((enc_opt_sig(b) + rb)[0] == 1u8);
        },
        (Option::Some(_), Option::None) => {
            assert((enc_opt_sig(a) + ra)[0] == 1u8);
            assert((enc_opt_sig(b) + rb)[0] == 0u8);
        },
    }
}

/// Envelope encodings followed by anything are unambiguous: equal encodings
/// carry equal data. Together with the decoders' contracts this pins the
/// round trip: whatever decodes from an envelope's bytes carries exactly
/// that envelope's data.
#[verifier::rlimit(60)]
pub proof fn lemma_enc_envelope_inj(a: MessageEnvelope, b: MessageEnvelope, ra: Seq<u8>, rb: Seq<
    u8,
>)
    requires
        envelope_bounded(a),
        envelope_bounded(b),
        enc_envelope(a) + ra == enc_envelope(b) + rb,
    ensures
        crate::message::envelope_eq(a, b),
        ra == rb,
    decreases a,
{
    let a7 = enc_opt_sig(a.signature) + ra;
    let a6 = enc_payload(a.payload) + a7;
    let a5 = enc_u64(a.timestamp) + a6;
    let a4 = enc_u8(a.ttl) + a5;
    let a3 = enc_u8(layer_tag(a.layer)) + a4;
    let a2 = enc_vclock(a.clock) + a3;
    let a1 = a.origin@ + a2;
    let b7 = enc_opt_sig(b.signature) + rb;
    let b6 = enc_payload(b.payload) + b7;
    let b5 = enc_u64(b.timestamp) + b6;
    let b4 = enc_u8(b.ttl) + b5;
    let b3 = enc_u8(layer_tag(b.layer)) + b4;
    let b2 = enc_vclock(b.clock) + b3;
    let b1 = b.origin@ + b2;
    assert(enc_envelope(a) + ra =~= a.id@ + a1);
    assert(enc_envelope(b) + rb =~= b.id@ + b1);
    lemma_message_id_prefix_inj(a.id, b.id, a1, b1);
    lemma_node_id_prefix_inj(a.origin, b.origin, a2, b2);
    lemma_enc_vclock_inj(a.clock, b.clock, a3, b3);
    lemma_enc_u8_inj(layer_tag(a.layer), layer_tag(b.layer), a4, b4);
    lemma_enc_u8_inj(a.ttl, b.ttl, a5, b5);
    lemma_enc_u64_inj(a.timestamp, b.timestamp, a6, b6);
    lemma_enc_payload_inj(a.payload, b.payload, a7, b7);
    lemma_enc_opt_sig_inj(a.signature, b.signature, ra, rb);
}

/// An envelope's byte form determines its data: a decode of the bytes of
/// `env` that succeeds yields an envelope carrying exactly `env`'s id,
/// origin, clock, layer, TTL, timestamp, payload and signature.
pub proof fn lemma_envelope_round_trip(env: MessageEnvelope, decoded: MessageEnvelope)
    requires
        envelope_bounded(env),
        envelope_bounded(decoded),
        enc_envelope(decoded) == enc_envelope(env),
    ensures
        crate::message::envelope_eq(decoded, env),
{
    assert(enc_envelope(decoded) + Seq::<u8>::empty() =~= enc_envelope(decoded));
    assert(enc_envelope(env) + Seq::<u8>::empty() =~= enc_envelope(env));
    lemma_enc_envelope_inj(decoded, env, Seq::<u8>::empty(), Seq::<u8>::empty());
}


impl crate::identity::NodeIdentity {
    /// Exports the identity: the 32 secret-key bytes, then the canonical
    /// manifest encoding.
    pub fn to_bytes(&self) -> (r: Vec<u8>)
        ensures
            r@ == self.spec_secret() + enc_manifest(self.manifest),
            r@.len() >= 32,
            r@.subrange(0, 32) == self.spec_secret(),
    {
        let mut buf: Vec<u8> = Vec::new();
        let secret = self.secret_bytes();
        let mut secret_vec = vstd::slice::slice_to_vec(secret.as_slice());
        buf.append(&mut secret_vec);
        write_manifest(&mut buf, &self.manifest);
        proof {
            assert(buf@ =~= self.spec_secret() + enc_manifest(self.manifest));
            assert(buf@.subrange(0, 32) =~= self.spec_secret());
        }
        buf
    }

    /// Imports an identity from its exported bytes. Fails with
    /// `InvalidLength` when fewer than 32 bytes are given, with
    /// `DeserializationFailed` when the manifest does not decode, and with
    /// `KeyMismatch` when the embedded manifest names a node id other than
    /// the one derived from the secret key.
    pub fn from_bytes(bytes: &[u8]) -> (r: Result<
        crate::identity::NodeIdentity,
        crate::identity::IdentityError,
    >)
        ensures
            match r {
                Ok(id) => {
                    &&& id.wf()
                    &&& id.spec_secret() == bytes@.subrange(0, 32)
                    &&& bytes@.len() >= 32
                    &&& enc_manifest(id.manifest) == bytes@.skip(32)
                },
                Err(crate::identity::IdentityError::InvalidLength) => bytes@.len() < 32,
                Err(crate::identity::IdentityError::KeyMismatch) => bytes@.len() >= 32
                    && !(exists|m: NodeManifest|
                    enc_manifest(m) == bytes@.skip(32) && m.node_id@ == crate::identity::pubkey_of(
                        bytes@.subrange(0, 32),
                    )),
                Err(crate::identity::IdentityError::DeserializationFailed) => true,
                Err(_) => false,
            },
            (bytes@.len() >= 32 && (exists|m: NodeManifest|
                manifest_bounded(m) && enc_manifest(m) == bytes@.skip(32))) ==> !(r matches Err(
                crate::identity::IdentityError::DeserializationFailed,
            )),
            (bytes@.len() >= 32 && (exists|m: NodeManifest|
                manifest_bounded(m) && enc_manifest(m) == bytes@.skip(32) && m.node_id@
                    == crate::identity::pubkey_of(bytes@.subrange(0, 32)))) ==> r is Ok,
    {
        let ghost can = bytes@.len() >= 32 && (exists|m: NodeManifest|
            manifest_bounded(m) && enc_manifest(m) == bytes@.skip(32));
        let ghost w: NodeManifest = choose|m: NodeManifest|
            manifest_bounded(m) && enc_manifest(m) == bytes@.skip(32);
        if bytes.len() < 32 {
            return Err(crate::identity::IdentityError::InvalidLength);
        }
        proof {
            if can {
                assert(bytes@.subrange(32, 32 + enc_manifest(w).len() as int) =~= bytes@.skip(32));
                assert(starts_at(bytes@, 32, enc_manifest(w)));
            }
        }
        let (manifest, end) = match read_manifest(bytes, 32) {
            Some(x) => x,
            None => {
                return Err(crate::identity::IdentityError::DeserializationFailed);
            },
        };
        proof {
            if can {
                let q = 32 + enc_manifest(w).len() as int;
                lemma_skip_align(bytes@, 32, end as int, q);
                lemma_enc_manifest_inj(manifest, w, bytes@.skip(end as int), bytes@.skip(q));
                assert(end == bytes@.len());
            }
        }
        if end != bytes.len() {
            return Err(crate::identity::IdentityError::DeserializationFailed);
        }
        proof {
            assert(bytes@.subrange(32, bytes@.len() as int) =~= bytes@.skip(32));
        }
        let secret_slice = slice_subrange(bytes, 0, 32);
        let ghost decoded = manifest;
        match crate::identity::NodeIdentity::from_parts(secret_slice, manifest) {
            Ok(id) => Ok(id),
            Err(_) => {
                proof {
                    // Any manifest encoding to the same suffix names the same
                    // node id, so none matches the derived key.
                    assert forall|m: NodeManifest|
                        !(enc_manifest(m) == bytes@.skip(32) && m.node_id@
                            == crate::identity::pubkey_of(bytes@.subrange(0, 32))) by {
                        if enc_manifest(m) == bytes@.skip(32) {
                            lemma_manifest_same_enc_same_id(m, decoded);
                        }
                    }
                }
                Err(crate::identity::IdentityError::KeyMismatch)
            },
        }
    }
}

/// Manifests with the same encoding name the same node id.
proof fn lemma_manifest_same_enc_same_id(a: NodeManifest, b: NodeManifest)
    requires
        enc_manifest(a) == enc_manifest(b),
    ensures
        a.node_id@ == b.node_id@,
{
    let a1 = enc_manifest(a).skip(32);
    let b1 = enc_manifest(b).skip(32);
    assert(enc_manifest(a) =~= a.node_id@ + a1);
    assert(enc_manifest(b) =~= b.node_id@ + b1);
    lemma_concat_inj(a.node_id@, a1, b.node_id@, b1);
}

} // verus!
