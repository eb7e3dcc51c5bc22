//! Lowercase hexadecimal encoding and decoding of byte strings.
//!
//! Node identifiers, content hashes and signatures travel as hex text; this
//! module pins the exact character sequence produced and accepted.

use vstd::prelude::*;

verus! {

/// Appends one character to a `String`; std documents `push` as appending
/// exactly that character.
pub assume_specification[ String::push ](s: &mut String, c: char)
    ensures
        final(s)@ == old(s)@.push(c),
;

/// The hex character for a nibble value below 16: digits, then lowercase letters.
pub open spec fn nibble_char(n: u8) -> char
    recommends
        n < 16,
{
    if n < 10 {
        ((n + 48) as u8) as char
    } else {
        ((n + 87) as u8) as char
    }
}

/// The lowercase hex rendering of a byte string: two characters per byte,
/// high nibble first.
pub open spec fn hex_of(bytes: Seq<u8>) -> Seq<char>
    decreases bytes.len(),
{
    if bytes.len() == 0 {
        Seq::empty()
    } else {
        seq![nibble_char(bytes[0] / 16), nibble_char(bytes[0] % 16)] + hex_of(bytes.drop_first())
    }
}

/// Appending one byte to the input appends its two hex characters to the output.
pub proof fn lemma_hex_of_push(bytes: Seq<u8>, b: u8)
    ensures
        hex_of(bytes.push(b)) == hex_of(bytes) + seq![
            nibble_char(b / 16),
            nibble_char(b % 16),
        ],
    decreases bytes.len(),
{
    if bytes.len() == 0 {
        let p = bytes.push(b);
        assert(p[0] == b);
        assert(p.len() == 1);
        assert(hex_of(p) == seq![nibble_char(p[0] / 16), nibble_char(p[0] % 16)] + hex_of(
            p.drop_first(),
        ));
        assert(bytes.push(b).drop_first() =~= Seq::empty());
        assert(hex_of(bytes.push(b)) =~= hex_of(bytes) + seq![
            nibble_char(b / 16),
            nibble_char(b % 16),
        ]);
    } else {
        assert(bytes.push(b)[0] == bytes[0]);
        assert(bytes.push(b).drop_first() =~= bytes.drop_first().push(b));
        lemma_hex_of_push(bytes.drop_first(), b);
        assert(hex_of(bytes.push(b)) =~= hex_of(bytes) + seq![
            nibble_char(b / 16),
            nibble_char(b % 16),
        ]);
    }
}

/// The hex rendering is two characters per byte.
pub proof fn lemma_hex_of_len(bytes: Seq<u8>)
    ensures
        hex_of(bytes).len() == 2 * bytes.len(),
    decreases bytes.len(),
{
    if bytes.len() > 0 {
        lemma_hex_of_len(bytes.drop_first());
    }
}

/// Whether a character is a hex digit this module accepts: `0-9`, `a-f`, `A-F`.
pub open spec fn is_hex_digit(c: char) -> bool {
    let v = c as u32;
    (48 <= v && v <= 57) || (97 <= v && v <= 102) || (65 <= v && v <= 70)
}

/// The value of a hex digit.
pub open spec fn hex_digit_val(c: char) -> u8
    recommends
        is_hex_digit(c),
{
    let v = c as u32;
    if 48 <= v && v <= 57 {
        (v - 48) as u8
    } else if 97 <= v && v <= 102 {
        (v - 87) as u8
    } else {
        (v - 55) as u8
    }
}

/// The byte string denoted by a hex character sequence of even length.
pub open spec fn bytes_of_hex(s: Seq<char>) -> Seq<u8>
    recommends
        s.len() % 2 == 0,
    decreases s.len(),
{
    if s.len() < 2 {
        Seq::empty()
    } else {
        seq![(hex_digit_val(s[0]) * 16 + hex_digit_val(s[1])) as u8] + bytes_of_hex(s.skip(2))
    }
}

/// Hex text of even length denotes one byte for every two characters.
pub proof fn lemma_hex_bytes_len(s: Seq<char>)
    ensures
        bytes_of_hex(s).len() == s.len() / 2,
    decreases s.len(),
{
    if s.len() >= 2 {
        lemma_hex_bytes_len(s.skip(2));
    }
}

/// Every character that `hex_of` emits is a hex digit.
pub proof fn lemma_hex_of_digits(bytes: Seq<u8>)
    ensures
        forall|i: int| 0 <= i < hex_of(bytes).len() ==> is_hex_digit(#[trigger] hex_of(bytes)[i]),
    decreases bytes.len(),
{
    if bytes.len() > 0 {
        lemma_hex_of_digits(bytes.drop_first());
        lemma_hex_of_len(bytes.drop_first());
        assert forall|i: int| 0 <= i < hex_of(bytes).len() implies is_hex_digit(
            #[trigger] hex_of(bytes)[i],
        ) by {
            if i >= 2 {
                assert(hex_of(bytes)[i] == hex_of(bytes.drop_first())[i - 2]);
            } else {
                assert(is_hex_digit(nibble_char(bytes[0] / 16)));
                assert(is_hex_digit(nibble_char(bytes[0] % 16)));
            }
        }
    }
}

/// Decoding inverts encoding: the hex text of a byte string denotes it.
pub proof fn lemma_bytes_of_hex_of(bytes: Seq<u8>)
    ensures
        bytes_of_hex(hex_of(bytes)) == bytes,
    decreases bytes.len(),
{
    lemma_hex_of_len(bytes);
    if bytes.len() == 0 {
        assert(bytes_of_hex(hex_of(bytes)) =~= bytes);
    } else {
        let b = bytes[0];
        let s = hex_of(bytes);
        assert(s[0] == nibble_char(b / 16));
        assert(s[1] == nibble_char(b % 16));
        assert(hex_digit_val(nibble_char(b / 16)) == b / 16) by (nonlinear_arith);
        assert(hex_digit_val(nibble_char(b % 16)) == b % 16) by (nonlinear_arith);
        assert(b / 16 * 16 + b % 16 == b) by (nonlinear_arith);
        assert(s.skip(2) =~= hex_of(bytes.drop_first()));
        lemma_bytes_of_hex_of(bytes.drop_first());
        assert(bytes_of_hex(hex_of(bytes)) =~= bytes);
    }
}

/// Encodes bytes as lowercase hex text.
pub fn encode(bytes: &[u8]) -> (r: String)
    ensures
        r@ == hex_of(bytes@),
        r@.len() == 2 * bytes@.len(),
{
    let mut out = String::new();
    let mut i: usize = 0;
    proof {
        assert(bytes@.subrange(0, 0) =~= Seq::<u8>::empty());
    }
    while i < bytes.len()
        invariant
            i <= bytes@.len(),
            out@ == hex_of(bytes@.subrange(0, i as int)),
        decreases bytes@.len() - i,
    {
        let b = bytes[i];
        let hi: u8 = b / 16;
        let lo: u8 = b % 16;
        let c_hi: char = if hi < 10 {
            (hi + 48) as char
        } else {
            (hi + 87) as char
        };
        let c_lo: char = if lo < 10 {
            (lo + 48) as char
        } else {
            (lo + 87) as char
        };
        out.push(c_hi);
        out.push(c_lo);
        proof {
            lemma_hex_of_push(bytes@.subrange(0, i as int), b);
            assert(bytes@.subrange(0, i + 1) =~= bytes@.subrange(0, i as int).push(b));
        }
        i = i + 1;
    }
    proof {
        assert(bytes@.subrange(0, bytes@.len() as int) =~= bytes@);
        lemma_hex_of_len(bytes@);
    }
    out
}

/// Decodes hex text into bytes; rejects odd length and non-hex characters.
pub fn decode(s: &str) -> (r: Result<Vec<u8>, ()>)
    ensures
        match r {
            Ok(v) => s@.len() % 2 == 0 && (forall|i: int|
                0 <= i < s@.len() ==> is_hex_digit(#[trigger] s@[i])) && v@ == bytes_of_hex(s@),
            Err(_) => s@.len() % 2 != 0 || (exists|i: int|
                0 <= i < s@.len() && !is_hex_digit(#[trigger] s@[i])),
        },
{
    let n = s.unicode_len();
    if n % 2 != 0 {
        return Err(());
    }
    let mut out: Vec<u8> = Vec::new();
    let mut i: usize = 0;
    while i < n
        invariant
            n == s@.len(),
            n % 2 == 0,
            i <= n,
            i % 2 == 0,
            forall|j: int| 0 <= j < i ==> is_hex_digit(#[trigger] s@[j]),
            out@ == bytes_of_hex(s@.subrange(0, i as int)),
        decreases n - i,
    {
        let c_hi = s.get_char(i);
        let c_lo = s.get_char(i + 1);
        let hi = match hex_val(c_hi) {
            Some(v) => v,
            None => {
                return Err(());
            },
        };
        let lo = match hex_val(c_lo) {
            Some(v) => v,
            None => {
                return Err(());
            },
        };
        out.push(hi * 16 + lo);
        proof {
            lemma_bytes_of_hex_append(s@.subrange(0, i as int), s@[i as int], s@[i + 1]);
            assert(s@.subrange(0, i + 2) =~= s@.subrange(0, i as int) + seq![
                s@[i as int],
                s@[i + 1],
            ]);
        }
        i = i + 2;
    }
    proof {
        assert(s@.subrange(0, n as int) =~= s@);
    }
    Ok(out)
}

/// Appending one digit pair to even-length hex text appends the denoted byte.
proof fn lemma_bytes_of_hex_append(s: Seq<char>, c_hi: char, c_lo: char)
    requires
        s.len() % 2 == 0,
    ensures
        bytes_of_hex(s + seq![c_hi, c_lo]) == bytes_of_hex(s).push(
            (hex_digit_val(c_hi) * 16 + hex_digit_val(c_lo)) as u8,
        ),
    decreases s.len(),
{
    let ext = s + seq![c_hi, c_lo];
    assert(ext.len() == s.len() + 2);
    assert(bytes_of_hex(ext) == seq![(hex_digit_val(ext[0]) * 16 + hex_digit_val(ext[1])) as u8]
        + bytes_of_hex(ext.skip(2)));
    if s.len() == 0 {
        assert(ext[0] == c_hi && ext[1] == c_lo);
        assert(ext.skip(2) =~= Seq::<char>::empty());
        assert(bytes_of_hex(ext.skip(2)) == Seq::<u8>::empty());
        assert(bytes_of_hex(ext) =~= bytes_of_hex(s).push(
            (hex_digit_val(c_hi) * 16 + hex_digit_val(c_lo)) as u8,
        ));
    } else {
        assert(ext[0] == s[0] && ext[1] == s[1]);
        assert(ext.skip(2) =~= s.skip(2) + seq![c_hi, c_lo]);
        lemma_bytes_of_hex_append(s.skip(2), c_hi, c_lo);
        assert(bytes_of_hex(ext) =~= bytes_of_hex(s).push(
            (hex_digit_val(c_hi) * 16 + hex_digit_val(c_lo)) as u8,
        ));
    }
}

/// The value of one hex character, or `None` when it is not a hex digit.
fn hex_val(c: char) -> (r: Option<u8>)
    ensures
        match r {
            Some(v) => is_hex_digit(c) && v == hex_digit_val(c) && v < 16,
            None => !is_hex_digit(c),
        },
{
    let v = c as u32;
    if 48 <= v && v <= 57 {
        Some((v - 48) as u8)
    } else if 97 <= v && v <= 102 {
        Some((v - 87) as u8)
    } else if 65 <= v && v <= 70 {
        Some((v - 55) as u8)
    } else {
        None
    }
}

} // verus!
