//! The binary wire encoding of protocol messages.
//!
//! Every value is encoded little-endian: integers as their bytes, strings as
//! a character count followed by one 32-bit scalar value per character, byte
//! and sample sequences as a count followed by the raw elements, and tagged
//! unions as a tag byte followed by the variant's fields.  Each encoder has a
//! matching spec-level decoder, and the decoders are proved to invert the
//! encoders exactly, which is what makes the end-to-end round trip of
//! [`crate::messages::ProtocolMessage`] hold.

use vstd::prelude::*;

use vstd::utf8::char_is_scalar;
use vstd::utf8::char_u32_cast;
use vstd::utf8::is_scalar;

verus! {

// ---------------------------------------------------------------------------
// Unsigned integers
// ---------------------------------------------------------------------------
/// Little-endian bytes of a `u16`.
pub open spec fn enc_u16(v: u16) -> Seq<u8> {
    seq![(v & 0xff) as u8, ((v >> 8) & 0xff) as u8]
}

/// Little-endian bytes of a `u32`.
pub open spec fn enc_u32(v: u32) -> Seq<u8> {
    seq![
        (v & 0xff) as u8,
        ((v >> 8) & 0xff) as u8,
        ((v >> 16) & 0xff) as u8,
        ((v >> 24) & 0xff) as u8,
    ]
}

/// Little-endian bytes of a `u64`.
pub open spec fn enc_u64(v: u64) -> Seq<u8> {
    seq![
        (v & 0xff) as u8,
        ((v >> 8) & 0xff) as u8,
        ((v >> 16) & 0xff) as u8,
        ((v >> 24) & 0xff) as u8,
        ((v >> 32) & 0xff) as u8,
        ((v >> 40) & 0xff) as u8,
        ((v >> 48) & 0xff) as u8,
        ((v >> 56) & 0xff) as u8,
    ]
}

/// Reads the `u16` whose encoding starts at `pos`.
pub open spec fn sdec_u16(s: Seq<u8>, pos: int) -> Option<(u16, int)> {
    if 0 <= pos && pos + 2 <= s.len() {
        Some(((s[pos] as u16) | (s[pos + 1] as u16) << 8, pos + 2))
    } else {
        None
    }
}

/// Reads the `u32` whose encoding starts at `pos`.
pub open spec fn sdec_u32(s: Seq<u8>, pos: int) -> Option<(u32, int)> {
    if 0 <= pos && pos + 4 <= s.len() {
        Some(
            (
                (s[pos] as u32) | (s[pos + 1] as u32) << 8 | (s[pos + 2] as u32) << 16 | (s[pos + 3]
                    as u32) << 24,
                pos + 4,
            ),
        )
    } else {
        None
    }
}

/// Reads the `u64` whose encoding starts at `pos`.
pub open spec fn sdec_u64(s: Seq<u8>, pos: int) -> Option<(u64, int)> {
    if 0 <= pos && pos + 8 <= s.len() {
        Some(
            (
                (s[pos] as u64) | (s[pos + 1] as u64) << 8 | (s[pos + 2] as u64) << 16 | (s[pos + 3]
                    as u64) << 24 | (s[pos + 4] as u64) << 32 | (s[pos + 5] as u64) << 40 | (s[pos
                    + 6] as u64) << 48 | (s[pos + 7] as u64) << 56,
                pos + 8,
            ),
        )
    } else {
        None
    }
}

/// Decoding inverts encoding for `u16`.
pub proof fn lemma_u16_round_trip(s: Seq<u8>, pos: int, v: u16)
    requires
        0 <= pos,
        pos + 2 <= s.len(),
        s.subrange(pos, pos + 2) == enc_u16(v),
    ensures
        sdec_u16(s, pos) == Some((v, pos + 2)),
{
    let b0 = (v & 0xff) as u8;
    let b1 = ((v >> 8) & 0xff) as u8;
    assert(s[pos] == s.subrange(pos, pos + 2)[0]);
    assert(s[pos + 1] == s.subrange(pos, pos + 2)[1]);
    assert((b0 as u16) | (b1 as u16) << 8 == v) by (bit_vector)
        requires
            b0 == (v & 0xff) as u8,
            b1 == ((v >> 8) & 0xff) as u8,
    ;
}

/// Decoding inverts encoding for `u32`.
pub proof fn lemma_u32_round_trip(s: Seq<u8>, pos: int, v: u32)
    requires
        0 <= pos,
        pos + 4 <= s.len(),
        s.subrange(pos, pos + 4) == enc_u32(v),
    ensures
        sdec_u32(s, pos) == Some((v, pos + 4)),
{
    let b0 = (v & 0xff) as u8;
    let b1 = ((v >> 8) & 0xff) as u8;
    let b2 = ((v >> 16) & 0xff) as u8;
    let b3 = ((v >> 24) & 0xff) as u8;
    assert forall|k: int| 0 <= k < 4 implies s[pos + k] == enc_u32(v)[k] by {
        assert(s[pos + k] == s.subrange(pos, pos + 4)[k]);
    }
    assert((b0 as u32) | (b1 as u32) << 8 | (b2 as u32) << 16 | (b3 as u32) << 24 == v)
        by (bit_vector)
        requires
            b0 == (v & 0xff) as u8,
            b1 == ((v >> 8) & 0xff) as u8,
            b2 == ((v >> 16) & 0xff) as u8,
            b3 == ((v >> 24) & 0xff) as u8,
    ;
}

/// Decoding inverts encoding for `u64`.
pub proof fn lemma_u64_round_trip(s: Seq<u8>, pos: int, v: u64)
    requires
        0 <= pos,
        pos + 8 <= s.len(),
        s.subrange(pos, pos + 8) == enc_u64(v),
    ensures
        sdec_u64(s, pos) == Some((v, pos + 8)),
{
    let b0 = (v & 0xff) as u8;
    let b1 = ((v >> 8) & 0xff) as u8;
    let b2 = ((v >> 16) & 0xff) as u8;
    let b3 = ((v >> 24) & 0xff) as u8;
    let b4 = ((v >> 32) & 0xff) as u8;
    let b5 = ((v >> 40) & 0xff) as u8;
    let b6 = ((v >> 48) & 0xff) as u8;
    let b7 = ((v >> 56) & 0xff) as u8;
    assert forall|k: int| 0 <= k < 8 implies s[pos + k] == enc_u64(v)[k] by {
        assert(s[pos + k] == s.subrange(pos, pos + 8)[k]);
    }
    assert((b0 as u64) | (b1 as u64) << 8 | (b2 as u64) << 16 | (b3 as u64) << 24 | (b4 as u64)
        << 32 | (b5 as u64) << 40 | (b6 as u64) << 48 | (b7 as u64) << 56 == v) by (bit_vector)
        requires
            b0 == (v & 0xff) as u8,
            b1 == ((v >> 8) & 0xff) as u8,
            b2 == ((v >> 16) & 0xff) as u8,
            b3 == ((v >> 24) & 0xff) as u8,
            b4 == ((v >> 32) & 0xff) as u8,
            b5 == ((v >> 40) & 0xff) as u8,
            b6 == ((v >> 48) & 0xff) as u8,
            b7 == ((v >> 56) & 0xff) as u8,
    ;
}

/// Appends the encoding of a `u16`.
pub fn encode_u16(out: &mut Vec<u8>, v: u16)
    ensures
        final(out)@ == old(out)@ + enc_u16(v),
{
    out.push(#[verifier::truncate] ((v & 0xff) as u8));
    out.push(#[verifier::truncate] (((v >> 8) & 0xff) as u8));
    assert(final(out)@ =~= old(out)@ + enc_u16(v));
}

/// Appends the encoding of a `u32`.
pub fn encode_u32(out: &mut Vec<u8>, v: u32)
    ensures
        final(out)@ == old(out)@ + enc_u32(v),
{
    out.push(#[verifier::truncate] ((v & 0xff) as u8));
    out.push(#[verifier::truncate] (((v >> 8) & 0xff) as u8));
    out.push(#[verifier::truncate] (((v >> 16) & 0xff) as u8));
    out.push(#[verifier::truncate] (((v >> 24) & 0xff) as u8));
    assert(final(out)@ =~= old(out)@ + enc_u32(v));
}

/// Appends the encoding of a `u64`.
pub fn encode_u64(out: &mut Vec<u8>, v: u64)
    ensures
        final(out)@ == old(out)@ + enc_u64(v),
{
    out.push(#[verifier::truncate] ((v & 0xff) as u8));
    out.push(#[verifier::truncate] (((v >> 8) & 0xff) as u8));
    out.push(#[verifier::truncate] (((v >> 16) & 0xff) as u8));
    out.push(#[verifier::truncate] (((v >> 24) & 0xff) as u8));
    out.push(#[verifier::truncate] (((v >> 32) & 0xff) as u8));
    out.push(#[verifier::truncate] (((v >> 40) & 0xff) as u8));
    out.push(#[verifier::truncate] (((v >> 48) & 0xff) as u8));
    out.push(#[verifier::truncate] (((v >> 56) & 0xff) as u8));
    assert(final(out)@ =~= old(out)@ + enc_u64(v));
}

/// Reads back a `u16`.
pub fn decode_u16(bytes: &Vec<u8>, pos: usize) -> (r: Option<(u16, usize)>)
    ensures
        match r {
            Some(p) => sdec_u16(bytes@, pos as int) == Some((p.0, p.1 as int)),
            None => sdec_u16(bytes@, pos as int) is None,
        },
{
    if pos < bytes.len() && bytes.len() - pos >= 2 {
        let v = (bytes[pos] as u16) | (bytes[pos + 1] as u16) << 8;
        Some((v, pos + 2))
    } else {
        None
    }
}

/// Reads back a `u32`.
pub fn decode_u32(bytes: &Vec<u8>, pos: usize) -> (r: Option<(u32, usize)>)
    ensures
        match r {
            Some(p) => sdec_u32(bytes@, pos as int) == Some((p.0, p.1 as int)),
            None => sdec_u32(bytes@, pos as int) is None,
        },
{
    if pos < bytes.len() && bytes.len() - pos >= 4 {
        let v = (bytes[pos] as u32) | (bytes[pos + 1] as u32) << 8 | (bytes[pos + 2] as u32) << 16
            | (bytes[pos + 3] as u32) << 24;
        Some((v, pos + 4))
    } else {
        None
    }
}

/// Reads back a `u64`.
pub fn decode_u64(bytes: &Vec<u8>, pos: usize) -> (r: Option<(u64, usize)>)
    ensures
        match r {
            Some(p) => sdec_u64(bytes@, pos as int) == Some((p.0, p.1 as int)),
            None => sdec_u64(bytes@, pos as int) is None,
        },
{
    if pos < bytes.len() && bytes.len() - pos >= 8 {
        let v = (bytes[pos] as u64) | (bytes[pos + 1] as u64) << 8 | (bytes[pos + 2] as u64) << 16
            | (bytes[pos + 3] as u64) << 24 | (bytes[pos + 4] as u64) << 32 | (bytes[pos + 5]
            as u64) << 40 | (bytes[pos + 6] as u64) << 48 | (bytes[pos + 7] as u64) << 56;
        Some((v, pos + 8))
    } else {
        None
    }
}

// ---------------------------------------------------------------------------
// Booleans and signed samples
// ---------------------------------------------------------------------------
/// One byte: 1 for true, 0 for false.
pub open spec fn enc_bool(b: bool) -> Seq<u8> {
    seq![if b { 1u8 } else { 0u8 }]
}

/// Reads back a boolean; any byte other than 0 or 1 is malformed.
pub open spec fn sdec_bool(s: Seq<u8>, pos: int) -> Option<(bool, int)> {
    if 0 <= pos && pos + 1 <= s.len() {
        if s[pos] == 1u8 {
            Some((true, pos + 1))
        } else if s[pos] == 0u8 {
            Some((false, pos + 1))
        } else {
            None
        }
    } else {
        None
    }
}

/// Decoding inverts encoding for booleans.
pub proof fn lemma_bool_round_trip(s: Seq<u8>, pos: int, v: bool)
    requires
        0 <= pos,
        pos + 1 <= s.len(),
        s.subrange(pos, pos + 1) == enc_bool(v),
    ensures
        sdec_bool(s, pos) == Some((v, pos + 1)),
{
    assert(s[pos] == s.subrange(pos, pos + 1)[0]);
}

/// Appends the encoding of a boolean.
pub fn encode_bool(out: &mut Vec<u8>, v: bool)
    ensures
        final(out)@ == old(out)@ + enc_bool(v),
{
    out.push(if v { 1u8 } else { 0u8 });
    assert(final(out)@ =~= old(out)@ + enc_bool(v));
}

/// Reads back a boolean.
pub fn decode_bool(bytes: &Vec<u8>, pos: usize) -> (r: Option<(bool, usize)>)
    ensures
        match r {
            Some(p) => sdec_bool(bytes@, pos as int) == Some((p.0, p.1 as int)),
            None => sdec_bool(bytes@, pos as int) is None,
        },
{
    if pos < bytes.len() {
        let b = bytes[pos];
        if b == 1 {
            Some((true, pos + 1))
        } else if b == 0 {
            Some((false, pos + 1))
        } else {
            None
        }
    } else {
        None
    }
}

/// The `u16` with the same two's-complement bits as `v`.
pub open spec fn i16_bits(v: i16) -> u16 {
    if v >= 0 {
        v as u16
    } else {
        (v + 0x10000) as u16
    }
}

/// The `i16` with the same two's-complement bits as `b`.
pub open spec fn i16_from_bits(b: u16) -> i16 {
    if b < 0x8000 {
        b as i16
    } else {
        (b - 0x10000) as i16
    }
}

/// The two bit conversions invert each other.
pub proof fn lemma_i16_bits_round_trip(v: i16)
    ensures
        i16_from_bits(i16_bits(v)) == v,
{
}

/// An audio sample travels as its two's-complement bits.
pub open spec fn enc_i16(v: i16) -> Seq<u8> {
    enc_u16(i16_bits(v))
}

/// Reads back an audio sample.
pub open spec fn sdec_i16(s: Seq<u8>, pos: int) -> Option<(i16, int)> {
    match sdec_u16(s, pos) {
        Some((b, end)) => Some((i16_from_bits(b), end)),
        None => None,
    }
}

/// Decoding inverts encoding for samples.
pub proof fn lemma_i16_round_trip(s: Seq<u8>, pos: int, v: i16)
    requires
        0 <= pos,
        pos + 2 <= s.len(),
        s.subrange(pos, pos + 2) == enc_i16(v),
    ensures
        sdec_i16(s, pos) == Some((v, pos + 2)),
{
    lemma_u16_round_trip(s, pos, i16_bits(v));
    lemma_i16_bits_round_trip(v);
}

/// Appends the encoding of an audio sample.
pub fn encode_i16(out: &mut Vec<u8>, v: i16)
    ensures
        final(out)@ == old(out)@ + enc_i16(v),
{
    let bits: u16 = if v >= 0 {
        v as u16
    } else {
        (v as i32 + 0x10000) as u16
    };
    assert(bits == i16_bits(v));
    encode_u16(out, bits);
}

/// Reads back an audio sample.
pub fn decode_i16(bytes: &Vec<u8>, pos: usize) -> (r: Option<(i16, usize)>)
    ensures
        match r {
            Some(p) => sdec_i16(bytes@, pos as int) == Some((p.0, p.1 as int)),
            None => sdec_i16(bytes@, pos as int) is None,
        },
{
    match decode_u16(bytes, pos) {
        Some((b, end)) => {
            let v: i16 = if b < 0x8000 {
                b as i16
            } else {
                (b as i32 - 0x10000) as i16
            };
            assert(v == i16_from_bits(b));
            Some((v, end))
        },
        None => None,
    }
}

// ---------------------------------------------------------------------------
// Characters and strings
// ---------------------------------------------------------------------------
/// A character travels as its Unicode scalar value, little-endian.
pub open spec fn enc_char(c: char) -> Seq<u8> {
    enc_u32(c as u32)
}

/// Reads back a character; a non-scalar code point is malformed.
pub open spec fn sdec_char(s: Seq<u8>, pos: int) -> Option<(char, int)> {
    match sdec_u32(s, pos) {
        Some((v, end)) => if is_scalar(v) {
            Some((v as char, end))
        } else {
            None
        },
        None => None,
    }
}

/// Decoding inverts encoding for characters.
pub proof fn lemma_char_round_trip(s: Seq<u8>, pos: int, c: char)
    requires
        0 <= pos,
        pos + 4 <= s.len(),
        s.subrange(pos, pos + 4) == enc_char(c),
    ensures
        sdec_char(s, pos) == Some((c, pos + 4)),
{
    lemma_u32_round_trip(s, pos, c as u32);
    char_is_scalar(c);
    char_u32_cast(c, c as u32);
}

/// Relies on `char::from_u32`: it returns the character with the given
/// Unicode scalar value, or `None` when the value is a surrogate or out of
/// range.
pub assume_specification[ char::from_u32 ](v: u32) -> (r: Option<char>)
    ensures
        r == if is_scalar(v) {
            Some(v as char)
        } else {
            None::<char>
        },
;

/// Relies on `String::push`: it appends one character to the string.
#[verifier::external_body]
pub(crate) fn push_char(s: &mut String, c: char)
    ensures
        final(s)@ == old(s)@.push(c),
{
    s.push(c);
}

// ---------------------------------------------------------------------------
// Helpers shared by the element-sequence codecs
// ---------------------------------------------------------------------------
/// Prefixes already-decoded elements onto the result of decoding the rest.
pub open spec fn prepend_decoded<T>(prefix: Seq<T>, o: Option<(Seq<T>, int)>) -> Option<
    (Seq<T>, int),
> {
    match o {
        Some((tail, end)) => Some((prefix + tail, end)),
        None => None,
    }
}

/// Prefixing twice is prefixing the concatenation.
pub proof fn lemma_prepend_decoded_assoc<T>(a: Seq<T>, b: Seq<T>, o: Option<(Seq<T>, int)>)
    ensures
        prepend_decoded(a, prepend_decoded(b, o)) == prepend_decoded(a + b, o),
{
    match o {
        Some((tail, end)) => {
            assert(a + (b + tail) =~= (a + b) + tail);
        },
        None => {},
    }
}

/// Splits a concatenation read out of the middle of a byte sequence into its
/// two halves.
pub proof fn lemma_subrange_split(s: Seq<u8>, pos: int, a: Seq<u8>, b: Seq<u8>)
    requires
        0 <= pos,
        pos + a.len() + b.len() <= s.len(),
        s.subrange(pos, pos + a.len() + b.len()) == a + b,
    ensures
        s.subrange(pos, pos + a.len()) == a,
        s.subrange(pos + a.len(), pos + a.len() + b.len()) == b,
{
    let whole = s.subrange(pos, pos + a.len() + b.len());
    assert forall|k: int| 0 <= k < a.len() implies s[pos + k] == a[k] by {
        assert(whole[k] == s[pos + k]);
        assert(whole[k] == (a + b)[k]);
    }
    assert forall|k: int| 0 <= k < b.len() implies s[pos + a.len() + k] == b[k] by {
        assert(whole[a.len() + k] == s[pos + a.len() + k]);
        assert(whole[a.len() + k] == (a + b)[a.len() + k]);
    }
    assert(s.subrange(pos, pos + a.len()) =~= a);
    assert(s.subrange(pos + a.len(), pos + a.len() + b.len()) =~= b);
}

// ---------------------------------------------------------------------------
// Character sequences and strings
// ---------------------------------------------------------------------------
/// The characters of a string, back to back.
pub open spec fn enc_chars(s: Seq<char>) -> Seq<u8>
    decreases s.len(),
{
    if s.len() == 0 {
        seq![]
    } else {
        enc_char(s[0]) + enc_chars(s.drop_first())
    }
}

/// Every character encodes to four bytes.
pub proof fn lemma_enc_chars_len(s: Seq<char>)
    ensures
        enc_chars(s).len() == 4 * s.len(),
    decreases s.len(),
{
    if s.len() > 0 {
        lemma_enc_chars_len(s.drop_first());
    }
}

/// Appending a character appends its encoding.
pub proof fn lemma_enc_chars_push(s: Seq<char>, c: char)
    ensures
        enc_chars(s.push(c)) == enc_chars(s) + enc_char(c),
    decreases s.len(),
{
    if s.len() == 0 {
        assert(s.push(c) =~= seq![c]);
        assert(enc_chars(seq![c]) == enc_char(seq![c][0]) + enc_chars(seq![c].drop_first()));
        assert(seq![c].drop_first() =~= Seq::<char>::empty());
        assert(enc_chars(Seq::<char>::empty()) == Seq::<u8>::empty());
        assert(enc_chars(s) == Seq::<u8>::empty());
        assert(enc_char(c) + Seq::<u8>::empty() =~= enc_char(c));
        assert(Seq::<u8>::empty() + enc_char(c) =~= enc_char(c));
    } else {
        assert(s.push(c).drop_first() =~= s.drop_first().push(c));
        assert(s.push(c)[0] == s[0]);
        lemma_enc_chars_push(s.drop_first(), c);
        assert(enc_char(s[0]) + (enc_chars(s.drop_first()) + enc_char(c)) =~= (enc_char(s[0])
            + enc_chars(s.drop_first())) + enc_char(c));
    }
}

/// Reads back `n` characters starting at `pos`.
pub open spec fn sdec_chars(s: Seq<u8>, pos: int, n: nat) -> Option<(Seq<char>, int)>
    decreases n,
{
    if n == 0 {
        Some((seq![], pos))
    } else {
        match sdec_char(s, pos) {
            Some((c, p1)) => prepend_decoded(seq![c], sdec_chars(s, p1, (n - 1) as nat)),
            None => None,
        }
    }
}

/// A successful character-sequence decode consumes exactly four bytes per
/// character and stays inside the buffer.
pub proof fn lemma_sdec_chars_bounds(s: Seq<u8>, pos: int, n: nat)
    ensures
        match sdec_chars(s, pos, n) {
            Some((v, end)) => v.len() == n && end == pos + 4 * n && (n > 0 ==> 0 <= pos && end
                <= s.len()),
            None => true,
        },
    decreases n,
{
    if n > 0 {
        match sdec_char(s, pos) {
            Some((c, p1)) => {
                lemma_sdec_chars_bounds(s, p1, (n - 1) as nat);
                assert(p1 == pos + 4);
                match sdec_chars(s, p1, (n - 1) as nat) {
                    Some((tail, end)) => {
                        assert(sdec_chars(s, pos, n) == Some((seq![c] + tail, end)));
                        assert((seq![c] + tail).len() == n);
                        assert(end == pos + 4 * n);
                    },
                    None => {
                        assert(sdec_chars(s, pos, n) is None);
                    },
                }
            },
            None => {},
        }
    }
}

/// Decoding inverts encoding for character sequences.
pub proof fn lemma_chars_round_trip(s: Seq<u8>, pos: int, v: Seq<char>)
    requires
        0 <= pos,
        pos + 4 * v.len() <= s.len(),
        s.subrange(pos, pos + 4 * v.len()) == enc_chars(v),
    ensures
        sdec_chars(s, pos, v.len()) == Some((v, pos + 4 * v.len())),
    decreases v.len(),
{
    if v.len() == 0 {
    } else {
        let rest = v.drop_first();
        lemma_enc_chars_len(rest);
        lemma_subrange_split(s, pos, enc_char(v[0]), enc_chars(rest));
        lemma_char_round_trip(s, pos, v[0]);
        lemma_chars_round_trip(s, pos + 4, rest);
        assert(seq![v[0]] + rest =~= v);
    }
}

/// A string travels as its character count followed by its characters.
pub open spec fn enc_str(s: Seq<char>) -> Seq<u8> {
    enc_u64(s.len() as u64) + enc_chars(s)
}

/// Reads back a string starting at `pos`.
pub open spec fn sdec_str(s: Seq<u8>, pos: int) -> Option<(Seq<char>, int)> {
    match sdec_u64(s, pos) {
        Some((n, p1)) => sdec_chars(s, p1, n as nat),
        None => None,
    }
}

/// Decoding inverts encoding for strings.
pub proof fn lemma_str_round_trip(s: Seq<u8>, pos: int, v: Seq<char>)
    requires
        0 <= pos,
        v.len() <= u64::MAX,
        pos + enc_str(v).len() <= s.len(),
        s.subrange(pos, pos + enc_str(v).len()) == enc_str(v),
    ensures
        sdec_str(s, pos) == Some((v, pos + enc_str(v).len())),
{
    lemma_enc_chars_len(v);
    lemma_subrange_split(s, pos, enc_u64(v.len() as u64), enc_chars(v));
    lemma_u64_round_trip(s, pos, v.len() as u64);
    lemma_chars_round_trip(s, pos + 8, v);
}

/// Appends the encoding of a string.
pub fn encode_string(out: &mut Vec<u8>, s: &String)
    ensures
        final(out)@ == old(out)@ + enc_str(s@),
        wf_str(s@),
{
    let n = s.as_str().unicode_len();
    encode_u64(out, n as u64);
    let mut i: usize = 0;
    while i < n
        invariant
            n == s@.len(),
            0 <= i <= n,
            out@ == old(out)@ + enc_u64(n as u64) + enc_chars(s@.take(i as int)),
        decreases n - i,
    {
        let c = s.as_str().get_char(i);
        encode_u32(out, c as u32);
        proof {
            lemma_enc_chars_push(s@.take(i as int), c);
            assert(s@.take(i as int).push(c) =~= s@.take(i + 1 as int));
            assert(old(out)@ + enc_u64(n as u64) + enc_chars(s@.take(i as int)) + enc_char(c)
                =~= old(out)@ + enc_u64(n as u64) + (enc_chars(s@.take(i as int)) + enc_char(c)));
        }
        i = i + 1;
    }
    proof {
        assert(s@.take(n as int) =~= s@);
    }
}

/// Reads back a string.
pub fn decode_string(bytes: &Vec<u8>, pos: usize) -> (r: Option<(String, usize)>)
    ensures
        match r {
            Some(p) => sdec_str(bytes@, pos as int) == Some((p.0@, p.1 as int)),
            None => sdec_str(bytes@, pos as int) is None,
        },
{
    let (n, p1) = match decode_u64(bytes, pos) {
        Some(p) => p,
        None => {
            return None;
        },
    };
    let avail = bytes.len() - p1;
    if n > (avail / 4) as u64 {
        proof {
            lemma_sdec_chars_bounds(bytes@, p1 as int, n as nat);
            if sdec_chars(bytes@, p1 as int, n as nat) is Some {
                assert(p1 + 4 * (n as int) <= bytes@.len());
                assert(n as int <= (avail as int) / 4);
            }
        }
        return None;
    }
    let cnt = n as usize;
    assert(cnt as int == n as int);
    let mut acc = String::new();
    let mut cur = p1;
    let mut i: usize = 0;
    while i < cnt
        invariant
            0 <= i <= cnt,
            cur <= bytes.len(),
            cnt as nat == n as nat,
            sdec_u64(bytes@, pos as int) == Some((n, p1 as int)),
            sdec_chars(bytes@, p1 as int, cnt as nat) == prepend_decoded(
                acc@,
                sdec_chars(bytes@, cur as int, (cnt - i) as nat),
            ),
        decreases cnt - i,
    {
        let (c, nxt) = match decode_char(bytes, cur) {
            Some(p) => p,
            None => {
                proof {
                    assert(sdec_chars(bytes@, cur as int, (cnt - i) as nat) is None);
                    assert(n as nat == cnt as nat);
                }
                return None;
            },
        };
        proof {
            lemma_prepend_decoded_assoc(
                acc@,
                seq![c],
                sdec_chars(bytes@, nxt as int, (cnt - i - 1) as nat),
            );
            assert(acc@ + seq![c] =~= acc@.push(c));
            lemma_sdec_chars_bounds(bytes@, nxt as int, (cnt - i - 1) as nat);
        }
        push_char(&mut acc, c);
        cur = nxt;
        i = i + 1;
    }
    proof {
        assert(acc@ + seq![] =~= acc@);
        assert(n as nat == cnt as nat);
    }
    Some((acc, cur))
}

/// A successful string decode stays inside the buffer and consumes at least
/// its length prefix.
pub proof fn lemma_sdec_str_bounds(s: Seq<u8>, pos: int)
    ensures
        match sdec_str(s, pos) {
            Some((v, end)) => 0 <= pos && pos + 8 <= end && end <= s.len(),
            None => true,
        },
{
    match sdec_u64(s, pos) {
        Some((n, p1)) => {
            lemma_sdec_chars_bounds(s, p1, n as nat);
        },
        None => {},
    }
}

// ---------------------------------------------------------------------------
// Raw byte sequences (framebuffers)
// ---------------------------------------------------------------------------
/// A byte sequence travels as its length followed by the bytes themselves.
pub open spec fn enc_bytes(s: Seq<u8>) -> Seq<u8> {
    enc_u64(s.len() as u64) + s
}

/// Reads back a byte sequence starting at `pos`.
pub open spec fn sdec_bytes(s: Seq<u8>, pos: int) -> Option<(Seq<u8>, int)> {
    match sdec_u64(s, pos) {
        Some((n, p1)) => if p1 + n <= s.len() {
            Some((s.subrange(p1, p1 + n), p1 + n))
        } else {
            None
        },
        None => None,
    }
}

/// Decoding inverts encoding for byte sequences.
pub proof fn lemma_bytes_round_trip(s: Seq<u8>, pos: int, v: Seq<u8>)
    requires
        0 <= pos,
        v.len() <= u64::MAX,
        pos + enc_bytes(v).len() <= s.len(),
        s.subrange(pos, pos + enc_bytes(v).len()) == enc_bytes(v),
    ensures
        sdec_bytes(s, pos) == Some((v, pos + enc_bytes(v).len())),
{
    lemma_subrange_split(s, pos, enc_u64(v.len() as u64), v);
    lemma_u64_round_trip(s, pos, v.len() as u64);
}

/// Appends the encoding of a byte sequence.
pub fn encode_byte_seq(out: &mut Vec<u8>, v: &Vec<u8>)
    ensures
        final(out)@ == old(out)@ + enc_bytes(v@),
        v@.len() <= u64::MAX,
{
    encode_u64(out, v.len() as u64);
    let mut i: usize = 0;
    while i < v.len()
        invariant
            0 <= i <= v.len(),
            out@ == old(out)@ + enc_u64(v@.len() as u64) + v@.take(i as int),
        decreases v.len() - i,
    {
        out.push(v[i]);
        proof {
            assert(v@.take(i as int).push(v@[i as int]) =~= v@.take(i + 1 as int));
            assert(old(out)@ + enc_u64(v@.len() as u64) + v@.take(i as int) + seq![v@[i as int]]
                =~= old(out)@ + enc_u64(v@.len() as u64) + v@.take(i + 1 as int));
        }
        i = i + 1;
    }
    proof {
        assert(v@.take(v@.len() as int) =~= v@);
    }
}

/// Reads back a byte sequence.
pub fn decode_byte_seq(bytes: &Vec<u8>, pos: usize) -> (r: Option<(Vec<u8>, usize)>)
    ensures
        match r {
            Some(p) => sdec_bytes(bytes@, pos as int) == Some((p.0@, p.1 as int)),
            None => sdec_bytes(bytes@, pos as int) is None,
        },
{
    let (n, p1) = match decode_u64(bytes, pos) {
        Some(p) => p,
        None => {
            return None;
        },
    };
    let avail = bytes.len() - p1;
    if n > avail as u64 {
        return None;
    }
    let cnt = n as usize;
    assert(cnt as int == n as int);
    let mut acc: Vec<u8> = Vec::new();
    let mut cur = p1;
    let mut i: usize = 0;
    while i < cnt
        invariant
            0 <= i <= cnt,
            cnt <= bytes.len() - p1,
            cur == p1 + i,
            acc@ == bytes@.subrange(p1 as int, cur as int),
        decreases cnt - i,
    {
        acc.push(bytes[cur]);
        proof {
            assert(bytes@.subrange(p1 as int, cur as int).push(bytes@[cur as int]) =~= bytes@
                .subrange(p1 as int, cur + 1 as int));
        }
        cur = cur + 1;
        i = i + 1;
    }
    Some((acc, cur))
}

// ---------------------------------------------------------------------------
// Audio sample sequences
// ---------------------------------------------------------------------------
/// The samples of a batch, back to back.
pub open spec fn enc_i16s(s: Seq<i16>) -> Seq<u8>
    decreases s.len(),
{
    if s.len() == 0 {
        seq![]
    } else {
        enc_i16(s[0]) + enc_i16s(s.drop_first())
    }
}

/// Every sample encodes to two bytes.
pub proof fn lemma_enc_i16s_len(s: Seq<i16>)
    ensures
        enc_i16s(s).len() == 2 * s.len(),
    decreases s.len(),
{
    if s.len() > 0 {
        lemma_enc_i16s_len(s.drop_first());
    }
}

/// Appending a sample appends its encoding.
pub proof fn lemma_enc_i16s_push(s: Seq<i16>, c: i16)
    ensures
        enc_i16s(s.push(c)) == enc_i16s(s) + enc_i16(c),
    decreases s.len(),
{
    if s.len() == 0 {
        assert(s.push(c) =~= seq![c]);
        assert(enc_i16s(seq![c]) == enc_i16(seq![c][0]) + enc_i16s(seq![c].drop_first()));
        assert(seq![c].drop_first() =~= Seq::<i16>::empty());
        assert(enc_i16s(Seq::<i16>::empty()) == Seq::<u8>::empty());
        assert(enc_i16s(s) == Seq::<u8>::empty());
        assert(enc_i16(c) + Seq::<u8>::empty() =~= enc_i16(c));
        assert(Seq::<u8>::empty() + enc_i16(c) =~= enc_i16(c));
    } else {
        assert(s.push(c).drop_first() =~= s.drop_first().push(c));
        assert(s.push(c)[0] == s[0]);
        lemma_enc_i16s_push(s.drop_first(), c);
        assert(enc_i16(s[0]) + (enc_i16s(s.drop_first()) + enc_i16(c)) =~= (enc_i16(s[0])
            + enc_i16s(s.drop_first())) + enc_i16(c));
    }
}

/// Reads back `n` samples starting at `pos`.
pub open spec fn sdec_i16s(s: Seq<u8>, pos: int, n: nat) -> Option<(Seq<i16>, int)>
    decreases n,
{
    if n == 0 {
        Some((seq![], pos))
    } else {
        match sdec_i16(s, pos) {
            Some((c, p1)) => prepend_decoded(seq![c], sdec_i16s(s, p1, (n - 1) as nat)),
            None => None,
        }
    }
}

/// A successful sample-sequence decode consumes exactly two bytes per sample
/// and stays inside the buffer.
pub proof fn lemma_sdec_i16s_bounds(s: Seq<u8>, pos: int, n: nat)
    ensures
        match sdec_i16s(s, pos, n) {
            Some((v, end)) => v.len() == n && end == pos + 2 * n && (n > 0 ==> 0 <= pos && end
                <= s.len()),
            None => true,
        },
    decreases n,
{
    if n > 0 {
        match sdec_i16(s, pos) {
            Some((c, p1)) => {
                lemma_sdec_i16s_bounds(s, p1, (n - 1) as nat);
            },
            None => {},
        }
    }
}

/// Decoding inverts encoding for sample sequences.
pub proof fn lemma_i16s_round_trip(s: Seq<u8>, pos: int, v: Seq<i16>)
    requires
        0 <= pos,
        pos + 2 * v.len() <= s.len(),
        s.subrange(pos, pos + 2 * v.len()) == enc_i16s(v),
    ensures
        sdec_i16s(s, pos, v.len()) == Some((v, pos + 2 * v.len())),
    decreases v.len(),
{
    if v.len() == 0 {
    } else {
        let rest = v.drop_first();
        lemma_enc_i16s_len(rest);
        lemma_subrange_split(s, pos, enc_i16(v[0]), enc_i16s(rest));
        lemma_i16_round_trip(s, pos, v[0]);
        lemma_i16s_round_trip(s, pos + 2, rest);
        assert(seq![v[0]] + rest =~= v);
    }
}

/// A sample batch travels as its count followed by the samples.
pub open spec fn enc_samples(s: Seq<i16>) -> Seq<u8> {
    enc_u64(s.len() as u64) + enc_i16s(s)
}

/// Reads back a sample batch starting at `pos`.
pub open spec fn sdec_samples(s: Seq<u8>, pos: int) -> Option<(Seq<i16>, int)> {
    match sdec_u64(s, pos) {
        Some((n, p1)) => sdec_i16s(s, p1, n as nat),
        None => None,
    }
}

/// Decoding inverts encoding for sample batches.
pub proof fn lemma_samples_round_trip(s: Seq<u8>, pos: int, v: Seq<i16>)
    requires
        0 <= pos,
        v.len() <= u64::MAX,
        pos + enc_samples(v).len() <= s.len(),
        s.subrange(pos, pos + enc_samples(v).len()) == enc_samples(v),
    ensures
        sdec_samples(s, pos) == Some((v, pos + enc_samples(v).len())),
{
    lemma_enc_i16s_len(v);
    lemma_subrange_split(s, pos, enc_u64(v.len() as u64), enc_i16s(v));
    lemma_u64_round_trip(s, pos, v.len() as u64);
    lemma_i16s_round_trip(s, pos + 8, v);
}

/// Appends the encoding of a sample batch.
pub fn encode_samples(out: &mut Vec<u8>, v: &Vec<i16>)
    ensures
        final(out)@ == old(out)@ + enc_samples(v@),
        v@.len() <= u64::MAX,
{
    encode_u64(out, v.len() as u64);
    let mut i: usize = 0;
    while i < v.len()
        invariant
            0 <= i <= v.len(),
            out@ == old(out)@ + enc_u64(v@.len() as u64) + enc_i16s(v@.take(i as int)),
        decreases v.len() - i,
    {
        encode_i16(out, v[i]);
        proof {
            lemma_enc_i16s_push(v@.take(i as int), v@[i as int]);
            assert(v@.take(i as int).push(v@[i as int]) =~= v@.take(i + 1 as int));
            assert(old(out)@ + enc_u64(v@.len() as u64) + enc_i16s(v@.take(i as int)) + enc_i16(
                v@[i as int],
            ) =~= old(out)@ + enc_u64(v@.len() as u64) + (enc_i16s(v@.take(i as int)) + enc_i16(
                v@[i as int],
            )));
        }
        i = i + 1;
    }
    proof {
        assert(v@.take(v@.len() as int) =~= v@);
    }
}

/// Reads back a sample batch.
pub fn decode_samples(bytes: &Vec<u8>, pos: usize) -> (r: Option<(Vec<i16>, usize)>)
    ensures
        match r {
            Some(p) => sdec_samples(bytes@, pos as int) == Some((p.0@, p.1 as int)),
            None => sdec_samples(bytes@, pos as int) is None,
        },
{
    let (n, p1) = match decode_u64(bytes, pos) {
        Some(p) => p,
        None => {
            return None;
        },
    };
    let avail = bytes.len() - p1;
    if n > (avail / 2) as u64 {
        proof {
            lemma_sdec_i16s_bounds(bytes@, p1 as int, n as nat);
            if sdec_i16s(bytes@, p1 as int, n as nat) is Some {
                assert(p1 + 2 * (n as int) <= bytes@.len());
                assert(n as int <= (avail as int) / 2);
            }
        }
        return None;
    }
    let cnt = n as usize;
    assert(cnt as int == n as int);
    let mut acc: Vec<i16> = Vec::new();
    let mut cur = p1;
    let mut i: usize = 0;
    while i < cnt
        invariant
            0 <= i <= cnt,
            cur <= bytes.len(),
            cnt as nat == n as nat,
            sdec_u64(bytes@, pos as int) == Some((n, p1 as int)),
            sdec_i16s(bytes@, p1 as int, cnt as nat) == prepend_decoded(
                acc@,
                sdec_i16s(bytes@, cur as int, (cnt - i) as nat),
            ),
        decreases cnt - i,
    {
        let (c, nxt) = match decode_i16(bytes, cur) {
            Some(p) => p,
            None => {
                proof {
                    assert(sdec_i16s(bytes@, cur as int, (cnt - i) as nat) is None);
                }
                return None;
            },
        };
        proof {
            lemma_prepend_decoded_assoc(
                acc@,
                seq![c],
                sdec_i16s(bytes@, nxt as int, (cnt - i - 1) as nat),
            );
            assert(acc@ + seq![c] =~= acc@.push(c));
            lemma_sdec_i16s_bounds(bytes@, nxt as int, (cnt - i - 1) as nat);
        }
        acc.push(c);
        cur = nxt;
        i = i + 1;
    }
    proof {
        assert(acc@ + seq![] =~= acc@);
    }
    Some((acc, cur))
}

// ---------------------------------------------------------------------------
// String sequences
// ---------------------------------------------------------------------------
/// The strings of a list, back to back.
pub open spec fn enc_strs(s: Seq<Seq<char>>) -> Seq<u8>
    decreases s.len(),
{
    if s.len() == 0 {
        seq![]
    } else {
        enc_str(s[0]) + enc_strs(s.drop_first())
    }
}

/// Appending a string appends its encoding.
pub proof fn lemma_enc_strs_push(s: Seq<Seq<char>>, c: Seq<char>)
    ensures
        enc_strs(s.push(c)) == enc_strs(s) + enc_str(c),
    decreases s.len(),
{
    if s.len() == 0 {
        assert(s.push(c) =~= seq![c]);
        assert(enc_strs(seq![c]) == enc_str(seq![c][0]) + enc_strs(seq![c].drop_first()));
        assert(seq![c].drop_first() =~= Seq::<Seq<char>>::empty());
        assert(enc_strs(Seq::<Seq<char>>::empty()) == Seq::<u8>::empty());
        assert(enc_strs(s) == Seq::<u8>::empty());
        assert(enc_str(c) + Seq::<u8>::empty() =~= enc_str(c));
        assert(Seq::<u8>::empty() + enc_str(c) =~= enc_str(c));
    } else {
        assert(s.push(c).drop_first() =~= s.drop_first().push(c));
        assert(s.push(c)[0] == s[0]);
        lemma_enc_strs_push(s.drop_first(), c);
        assert(enc_str(s[0]) + (enc_strs(s.drop_first()) + enc_str(c)) =~= (enc_str(s[0])
            + enc_strs(s.drop_first())) + enc_str(c));
    }
}

/// Reads back `n` strings starting at `pos`.
pub open spec fn sdec_strs(s: Seq<u8>, pos: int, n: nat) -> Option<(Seq<Seq<char>>, int)>
    decreases n,
{
    if n == 0 {
        Some((seq![], pos))
    } else {
        match sdec_str(s, pos) {
            Some((c, p1)) => prepend_decoded(seq![c], sdec_strs(s, p1, (n - 1) as nat)),
            None => None,
        }
    }
}

/// A successful string-sequence decode consumes at least eight bytes per
/// string and stays inside the buffer.
pub proof fn lemma_sdec_strs_bounds(s: Seq<u8>, pos: int, n: nat)
    ensures
        match sdec_strs(s, pos, n) {
            Some((v, end)) => v.len() == n && pos + 8 * n <= end && (n > 0 ==> 0 <= pos && end
                <= s.len()),
            None => true,
        },
    decreases n,
{
    if n > 0 {
        match sdec_str(s, pos) {
            Some((c, p1)) => {
                lemma_sdec_str_bounds(s, pos);
                lemma_sdec_strs_bounds(s, p1, (n - 1) as nat);
                match sdec_strs(s, p1, (n - 1) as nat) {
                    Some((tail, end)) => {
                        if n == 1 {
                            assert(end == p1);
                        }
                    },
                    None => {},
                }
            },
            None => {},
        }
    }
}

/// Decoding inverts encoding for string sequences.
pub proof fn lemma_strs_round_trip(s: Seq<u8>, pos: int, v: Seq<Seq<char>>)
    requires
        0 <= pos,
        forall|k: int| 0 <= k < v.len() ==> #[trigger] v[k].len() <= u64::MAX,
        pos + enc_strs(v).len() <= s.len(),
        s.subrange(pos, pos + enc_strs(v).len()) == enc_strs(v),
    ensures
        sdec_strs(s, pos, v.len()) == Some((v, pos + enc_strs(v).len())),
    decreases v.len(),
{
    if v.len() == 0 {
    } else {
        let rest = v.drop_first();
        lemma_subrange_split(s, pos, enc_str(v[0]), enc_strs(rest));
        lemma_str_round_trip(s, pos, v[0]);
        lemma_strs_round_trip(s, pos + enc_str(v[0]).len(), rest);
        assert(seq![v[0]] + rest =~= v);
    }
}

/// A string list travels as its count followed by the strings.
pub open spec fn enc_str_list(s: Seq<Seq<char>>) -> Seq<u8> {
    enc_u64(s.len() as u64) + enc_strs(s)
}

/// Reads back a string list starting at `pos`.
pub open spec fn sdec_str_list(s: Seq<u8>, pos: int) -> Option<(Seq<Seq<char>>, int)> {
    match sdec_u64(s, pos) {
        Some((n, p1)) => sdec_strs(s, p1, n as nat),
        None => None,
    }
}

/// Decoding inverts encoding for string lists.
pub proof fn lemma_str_list_round_trip(s: Seq<u8>, pos: int, v: Seq<Seq<char>>)
    requires
        0 <= pos,
        v.len() <= u64::MAX,
        forall|k: int| 0 <= k < v.len() ==> #[trigger] v[k].len() <= u64::MAX,
        pos + enc_str_list(v).len() <= s.len(),
        s.subrange(pos, pos + enc_str_list(v).len()) == enc_str_list(v),
    ensures
        sdec_str_list(s, pos) == Some((v, pos + enc_str_list(v).len())),
{
    lemma_subrange_split(s, pos, enc_u64(v.len() as u64), enc_strs(v));
    lemma_u64_round_trip(s, pos, v.len() as u64);
    lemma_strs_round_trip(s, pos + 8, v);
}

/// Appends the encoding of a string list.
pub fn encode_string_list(out: &mut Vec<u8>, v: &Vec<String>)
    ensures
        final(out)@ == old(out)@ + enc_str_list(v@.map_values(|s: String| s@)),
        wf_str_list(v@.map_values(|s: String| s@)),
{
    let ghost model = v@.map_values(|s: String| s@);
    encode_u64(out, v.len() as u64);
    let mut i: usize = 0;
    while i < v.len()
        invariant
            0 <= i <= v.len(),
            model == v@.map_values(|s: String| s@),
            out@ == old(out)@ + enc_u64(model.len() as u64) + enc_strs(model.take(i as int)),
            forall|k: int| 0 <= k < i ==> wf_str(#[trigger] model[k]),
        decreases v.len() - i,
    {
        encode_string(out, &v[i]);
        proof {
            lemma_enc_strs_push(model.take(i as int), model[i as int]);
            assert(model.take(i as int).push(model[i as int]) =~= model.take(i + 1 as int));
            assert(old(out)@ + enc_u64(model.len() as u64) + enc_strs(model.take(i as int))
                + enc_str(model[i as int]) =~= old(out)@ + enc_u64(model.len() as u64) + (enc_strs(
                model.take(i as int),
            ) + enc_str(model[i as int])));
        }
        i = i + 1;
    }
    proof {
        assert(model.take(model.len() as int) =~= model);
    }
}

/// Reads back a string list.
pub fn decode_string_list(bytes: &Vec<u8>, pos: usize) -> (r: Option<(Vec<String>, usize)>)
    ensures
        match r {
            Some(p) => sdec_str_list(bytes@, pos as int) == Some(
                (p.0@.map_values(|s: String| s@), p.1 as int),
            ),
            None => sdec_str_list(bytes@, pos as int) is None,
        },
{
    let (n, p1) = match decode_u64(bytes, pos) {
        Some(p) => p,
        None => {
            return None;
        },
    };
    let avail = bytes.len() - p1;
    if n > (avail / 8) as u64 {
        proof {
            lemma_sdec_strs_bounds(bytes@, p1 as int, n as nat);
            if sdec_strs(bytes@, p1 as int, n as nat) is Some {
                assert(p1 + 8 * (n as int) <= bytes@.len());
                assert(n as int <= (avail as int) / 8);
            }
        }
        return None;
    }
    let cnt = n as usize;
    assert(cnt as int == n as int);
    let mut acc: Vec<String> = Vec::new();
    let mut cur = p1;
    let mut i: usize = 0;
    while i < cnt
        invariant
            0 <= i <= cnt,
            cur <= bytes.len(),
            cnt as nat == n as nat,
            sdec_u64(bytes@, pos as int) == Some((n, p1 as int)),
            sdec_strs(bytes@, p1 as int, cnt as nat) == prepend_decoded(
                acc@.map_values(|s: String| s@),
                sdec_strs(bytes@, cur as int, (cnt - i) as nat),
            ),
        decreases cnt - i,
    {
        let (piece, nxt) = match decode_string(bytes, cur) {
            Some(p) => p,
            None => {
                proof {
                    assert(sdec_strs(bytes@, cur as int, (cnt - i) as nat) is None);
                }
                return None;
            },
        };
        proof {
            lemma_prepend_decoded_assoc(
                acc@.map_values(|s: String| s@),
                seq![piece@],
                sdec_strs(bytes@, nxt as int, (cnt - i - 1) as nat),
            );
            assert(acc@.map_values(|s: String| s@) + seq![piece@] =~= acc@.push(piece).map_values(
                |s: String| s@,
            ));
            lemma_sdec_str_bounds(bytes@, cur as int);
        }
        acc.push(piece);
        cur = nxt;
        i = i + 1;
    }
    proof {
        assert(acc@.map_values(|s: String| s@) + seq![] =~= acc@.map_values(|s: String| s@));
    }
    Some((acc, cur))
}

// ---------------------------------------------------------------------------
// Optional strings
// ---------------------------------------------------------------------------
/// An optional string travels as a presence byte, then the string if present.
pub open spec fn enc_opt_str(o: Option<Seq<char>>) -> Seq<u8> {
    match o {
        None => seq![0u8],
        Some(v) => seq![1u8] + enc_str(v),
    }
}

/// Reads back an optional string starting at `pos`.
pub open spec fn sdec_opt_str(s: Seq<u8>, pos: int) -> Option<(Option<Seq<char>>, int)> {
    if 0 <= pos && pos + 1 <= s.len() {
        if s[pos] == 0u8 {
            Some((None, pos + 1))
        } else if s[pos] == 1u8 {
            match sdec_str(s, pos + 1) {
                Some((v, end)) => Some((Some(v), end)),
                None => None,
            }
        } else {
            None
        }
    } else {
        None
    }
}

/// Decoding inverts encoding for optional strings.
pub proof fn lemma_opt_str_round_trip(s: Seq<u8>, pos: int, o: Option<Seq<char>>)
    requires
        0 <= pos,
        (o matches Some(v) ==> v.len() <= u64::MAX),
        pos + enc_opt_str(o).len() <= s.len(),
        s.subrange(pos, pos + enc_opt_str(o).len()) == enc_opt_str(o),
    ensures
        sdec_opt_str(s, pos) == Some((o, pos + enc_opt_str(o).len())),
{
    match o {
        None => {
            assert(s[pos] == s.subrange(pos, pos + 1)[0]);
        },
        Some(v) => {
            lemma_subrange_split(s, pos, seq![1u8], enc_str(v));
            assert(s[pos] == s.subrange(pos, pos + 1)[0]);
            lemma_str_round_trip(s, pos + 1, v);
        },
    }
}

/// Appends the encoding of an optional string.
pub fn encode_opt_string(out: &mut Vec<u8>, o: &Option<String>)
    ensures
        final(out)@ == old(out)@ + enc_opt_str(match o {
            Some(s) => Some(s@),
            None => None,
        }),
        (match o {
            Some(s) => s@.len() <= u64::MAX,
            None => true,
        }),
{
    match o {
        None => {
            out.push(0u8);
            assert(final(out)@ =~= old(out)@ + enc_opt_str(None));
        },
        Some(s) => {
            out.push(1u8);
            encode_string(out, s);
            assert(final(out)@ =~= old(out)@ + enc_opt_str(Some(s@)));
        },
    }
}

/// Reads back an optional string.
pub fn decode_opt_string(bytes: &Vec<u8>, pos: usize) -> (r: Option<(Option<String>, usize)>)
    ensures
        match r {
            Some(p) => sdec_opt_str(bytes@, pos as int) == Some(
                (
                    match p.0 {
                        Some(s) => Some(s@),
                        None => None,
                    },
                    p.1 as int,
                ),
            ),
            None => sdec_opt_str(bytes@, pos as int) is None,
        },
{
    if pos < bytes.len() {
        let b = bytes[pos];
        if b == 0 {
            Some((None, pos + 1))
        } else if b == 1 {
            match decode_string(bytes, pos + 1) {
                Some((v, end)) => Some((Some(v), end)),
                None => None,
            }
        } else {
            None
        }
    } else {
        None
    }
}

// ---------------------------------------------------------------------------
// Variables
// ---------------------------------------------------------------------------
use crate::retro_types::RetroVariable;
use crate::retro_types::RetroVariableView;

/// A well-formed string fits its length prefix.
pub open spec fn wf_str(s: Seq<char>) -> bool {
    s.len() <= u64::MAX
}

/// A well-formed string list fits its count prefix, as does each element.
pub open spec fn wf_str_list(s: Seq<Seq<char>>) -> bool {
    s.len() <= u64::MAX && forall|k: int| 0 <= k < s.len() ==> wf_str(#[trigger] s[k])
}

/// A well-formed variable has well-formed pieces.
pub open spec fn wf_variable(v: RetroVariableView) -> bool {
    wf_str(v.key) && wf_str(v.description) && wf_str_list(v.options) && wf_str(v.selected)
}

/// A variable travels as its key, description, options and selection.
pub open spec fn enc_variable(v: RetroVariableView) -> Seq<u8> {
    enc_str(v.key) + enc_str(v.description) + enc_str_list(v.options) + enc_str(v.selected)
}

/// Reads back a variable starting at `pos`.
pub open spec fn sdec_variable(s: Seq<u8>, pos: int) -> Option<(RetroVariableView, int)> {
    match sdec_str(s, pos) {
        Some((key, p1)) => match sdec_str(s, p1) {
            Some((description, p2)) => match sdec_str_list(s, p2) {
                Some((options, p3)) => match sdec_str(s, p3) {
                    Some((selected, p4)) => Some(
                        (RetroVariableView { key, description, options, selected }, p4),
                    ),
                    None => None,
                },
                None => None,
            },
            None => None,
        },
        None => None,
    }
}

/// A successful variable decode stays inside the buffer and consumes at
/// least eight bytes.
pub proof fn lemma_sdec_variable_bounds(s: Seq<u8>, pos: int)
    ensures
        match sdec_variable(s, pos) {
            Some((v, end)) => 0 <= pos && pos + 8 <= end && end <= s.len(),
            None => true,
        },
{
    match sdec_str(s, pos) {
        Some((key, p1)) => {
            lemma_sdec_str_bounds(s, pos);
            match sdec_str(s, p1) {
                Some((description, p2)) => {
                    lemma_sdec_str_bounds(s, p1);
                    match sdec_str_list(s, p2) {
                        Some((options, p3)) => {
                            match sdec_u64(s, p2) {
                                Some((n, q)) => {
                                    lemma_sdec_strs_bounds(s, q, n as nat);
                                },
                                None => {},
                            }
                            match sdec_str(s, p3) {
                                Some((selected, p4)) => {
                                    lemma_sdec_str_bounds(s, p3);
                                },
                                None => {},
                            }
                        },
                        None => {},
                    }
                },
                None => {},
            }
        },
        None => {},
    }
}

/// Decoding inverts encoding for variables.
pub proof fn lemma_variable_round_trip(s: Seq<u8>, pos: int, v: RetroVariableView)
    requires
        0 <= pos,
        wf_variable(v),
        pos + enc_variable(v).len() <= s.len(),
        s.subrange(pos, pos + enc_variable(v).len()) == enc_variable(v),
    ensures
        sdec_variable(s, pos) == Some((v, pos + enc_variable(v).len())),
{
    let e1 = enc_str(v.key);
    let e2 = enc_str(v.description);
    let e3 = enc_str_list(v.options);
    let e4 = enc_str(v.selected);
    assert(enc_variable(v) =~= e1 + (e2 + (e3 + e4)));
    lemma_subrange_split(s, pos, e1, e2 + (e3 + e4));
    lemma_subrange_split(s, pos + e1.len(), e2, e3 + e4);
    lemma_subrange_split(s, pos + e1.len() + e2.len(), e3, e4);
    lemma_str_round_trip(s, pos, v.key);
    lemma_str_round_trip(s, pos + e1.len(), v.description);
    lemma_str_list_round_trip(s, pos + e1.len() + e2.len(), v.options);
    lemma_str_round_trip(s, pos + e1.len() + e2.len() + e3.len(), v.selected);
}

/// Appends the encoding of a variable.
pub fn encode_variable(out: &mut Vec<u8>, v: &RetroVariable)
    ensures
        final(out)@ == old(out)@ + enc_variable(v@),
        wf_variable(v@),
{
    encode_string(out, &v.key);
    encode_string(out, &v.description);
    encode_string_list(out, &v.options);
    encode_string(out, &v.selected);
    assert(final(out)@ =~= old(out)@ + enc_variable(v@));
}

/// Reads back a variable.
pub fn decode_variable(bytes: &Vec<u8>, pos: usize) -> (r: Option<(RetroVariable, usize)>)
    ensures
        match r {
            Some(p) => sdec_variable(bytes@, pos as int) == Some((p.0@, p.1 as int)),
            None => sdec_variable(bytes@, pos as int) is None,
        },
{
    let (key, p1) = match decode_string(bytes, pos) {
        Some(p) => p,
        None => {
            return None;
        },
    };
    let (description, p2) = match decode_string(bytes, p1) {
        Some(p) => p,
        None => {
            return None;
        },
    };
    let (options, p3) = match decode_string_list(bytes, p2) {
        Some(p) => p,
        None => {
            return None;
        },
    };
    let (selected, p4) = match decode_string(bytes, p3) {
        Some(p) => p,
        None => {
            return None;
        },
    };
    Some((RetroVariable { key, description, options, selected }, p4))
}

/// The variables of a list, back to back.
pub open spec fn enc_vars(s: Seq<RetroVariableView>) -> Seq<u8>
    decreases s.len(),
{
    if s.len() == 0 {
        seq![]
    } else {
        enc_variable(s[0]) + enc_vars(s.drop_first())
    }
}

/// Appending a variable appends its encoding.
pub proof fn lemma_enc_vars_push(s: Seq<RetroVariableView>, c: RetroVariableView)
    ensures
        enc_vars(s.push(c)) == enc_vars(s) + enc_variable(c),
    decreases s.len(),
{
    if s.len() == 0 {
        assert(s.push(c) =~= seq![c]);
        assert(enc_vars(seq![c]) == enc_variable(seq![c][0]) + enc_vars(seq![c].drop_first()));
        assert(seq![c].drop_first() =~= Seq::<RetroVariableView>::empty());
        assert(enc_vars(Seq::<RetroVariableView>::empty()) == Seq::<u8>::empty());
        assert(enc_vars(s) == Seq::<u8>::empty());
        assert(enc_variable(c) + Seq::<u8>::empty() =~= enc_variable(c));
        assert(Seq::<u8>::empty() + enc_variable(c) =~= enc_variable(c));
    } else {
        assert(s.push(c).drop_first() =~= s.drop_first().push(c));
        assert(s.push(c)[0] == s[0]);
        lemma_enc_vars_push(s.drop_first(), c);
        assert(enc_variable(s[0]) + (enc_vars(s.drop_first()) + enc_variable(c)) =~= (enc_variable(
            s[0],
        ) + enc_vars(s.drop_first())) + enc_variable(c));
    }
}

/// Reads back `n` variables starting at `pos`.
pub open spec fn sdec_vars(s: Seq<u8>, pos: int, n: nat) -> Option<(Seq<RetroVariableView>, int)>
    decreases n,
{
    if n == 0 {
        Some((seq![], pos))
    } else {
        match sdec_variable(s, pos) {
            Some((c, p1)) => prepend_decoded(seq![c], sdec_vars(s, p1, (n - 1) as nat)),
            None => None,
        }
    }
}

/// A successful variable-sequence decode consumes at least eight bytes per
/// variable and stays inside the buffer.
pub proof fn lemma_sdec_vars_bounds(s: Seq<u8>, pos: int, n: nat)
    ensures
        match sdec_vars(s, pos, n) {
            Some((v, end)) => v.len() == n && pos + 8 * n <= end && (n > 0 ==> 0 <= pos && end
                <= s.len()),
            None => true,
        },
    decreases n,
{
    if n > 0 {
        match sdec_variable(s, pos) {
            Some((c, p1)) => {
                lemma_sdec_variable_bounds(s, pos);
                lemma_sdec_vars_bounds(s, p1, (n - 1) as nat);
                match sdec_vars(s, p1, (n - 1) as nat) {
                    Some((tail, end)) => {
                        if n == 1 {
                            assert(end == p1);
                        }
                    },
                    None => {},
                }
            },
            None => {},
        }
    }
}

/// Decoding inverts encoding for variable sequences.
pub proof fn lemma_vars_round_trip(s: Seq<u8>, pos: int, v: Seq<RetroVariableView>)
    requires
        0 <= pos,
        forall|k: int| 0 <= k < v.len() ==> wf_variable(#[trigger] v[k]),
        pos + enc_vars(v).len() <= s.len(),
        s.subrange(pos, pos + enc_vars(v).len()) == enc_vars(v),
    ensures
        sdec_vars(s, pos, v.len()) == Some((v, pos + enc_vars(v).len())),
    decreases v.len(),
{
    if v.len() == 0 {
    } else {
        let rest = v.drop_first();
        lemma_subrange_split(s, pos, enc_variable(v[0]), enc_vars(rest));
        lemma_variable_round_trip(s, pos, v[0]);
        lemma_vars_round_trip(s, pos + enc_variable(v[0]).len(), rest);
        assert(seq![v[0]] + rest =~= v);
    }
}

/// A variable list travels as its count followed by the variables.
pub open spec fn enc_var_list(s: Seq<RetroVariableView>) -> Seq<u8> {
    enc_u64(s.len() as u64) + enc_vars(s)
}

/// A well-formed variable list fits its count prefix, as does each element.
pub open spec fn wf_var_list(s: Seq<RetroVariableView>) -> bool {
    s.len() <= u64::MAX && forall|k: int| 0 <= k < s.len() ==> wf_variable(#[trigger] s[k])
}

/// Reads back a variable list starting at `pos`.
pub open spec fn sdec_var_list(s: Seq<u8>, pos: int) -> Option<(Seq<RetroVariableView>, int)> {
    match sdec_u64(s, pos) {
        Some((n, p1)) => sdec_vars(s, p1, n as nat),
        None => None,
    }
}

/// Decoding inverts encoding for variable lists.
pub proof fn lemma_var_list_round_trip(s: Seq<u8>, pos: int, v: Seq<RetroVariableView>)
    requires
        0 <= pos,
        wf_var_list(v),
        pos + enc_var_list(v).len() <= s.len(),
        s.subrange(pos, pos + enc_var_list(v).len()) == enc_var_list(v),
    ensures
        sdec_var_list(s, pos) == Some((v, pos + enc_var_list(v).len())),
{
    lemma_subrange_split(s, pos, enc_u64(v.len() as u64), enc_vars(v));
    lemma_u64_round_trip(s, pos, v.len() as u64);
    lemma_vars_round_trip(s, pos + 8, v);
}

/// Appends the encoding of a variable list.
pub fn encode_variables(out: &mut Vec<u8>, v: &Vec<RetroVariable>)
    ensures
        final(out)@ == old(out)@ + enc_var_list(v@.map_values(|x: RetroVariable| x@)),
        wf_var_list(v@.map_values(|x: RetroVariable| x@)),
{
    let ghost model = v@.map_values(|x: RetroVariable| x@);
    encode_u64(out, v.len() as u64);
    let mut i: usize = 0;
    while i < v.len()
        invariant
            0 <= i <= v.len(),
            model == v@.map_values(|x: RetroVariable| x@),
            out@ == old(out)@ + enc_u64(model.len() as u64) + enc_vars(model.take(i as int)),
            forall|k: int| 0 <= k < i ==> wf_variable(#[trigger] model[k]),
        decreases v.len() - i,
    {
        encode_variable(out, &v[i]);
        proof {
            lemma_enc_vars_push(model.take(i as int), model[i as int]);
            assert(model.take(i as int).push(model[i as int]) =~= model.take(i + 1 as int));
            assert(old(out)@ + enc_u64(model.len() as u64) + enc_vars(model.take(i as int))
                + enc_variable(model[i as int]) =~= old(out)@ + enc_u64(model.len() as u64) + (
            enc_vars(model.take(i as int)) + enc_variable(model[i as int])));
        }
        i = i + 1;
    }
    proof {
        assert(model.take(model.len() as int) =~= model);
    }
}

/// Reads back a variable list.
pub fn decode_variables(bytes: &Vec<u8>, pos: usize) -> (r: Option<(Vec<RetroVariable>, usize)>)
    ensures
        match r {
            Some(p) => sdec_var_list(bytes@, pos as int) == Some(
                (p.0@.map_values(|x: RetroVariable| x@), p.1 as int),
            ),
            None => sdec_var_list(bytes@, pos as int) is None,
        },
{
    let (n, p1) = match decode_u64(bytes, pos) {
        Some(p) => p,
        None => {
            return None;
        },
    };
    let avail = bytes.len() - p1;
    if n > (avail / 8) as u64 {
        proof {
            lemma_sdec_vars_bounds(bytes@, p1 as int, n as nat);
            if sdec_vars(bytes@, p1 as int, n as nat) is Some {
                assert(p1 + 8 * (n as int) <= bytes@.len());
                assert(n as int <= (avail as int) / 8);
            }
        }
        return None;
    }
    let cnt = n as usize;
    assert(cnt as int == n as int);
    let mut acc: Vec<RetroVariable> = Vec::new();
    let mut cur = p1;
    let mut i: usize = 0;
    while i < cnt
        invariant
            0 <= i <= cnt,
            cur <= bytes.len(),
            cnt as nat == n as nat,
            sdec_u64(bytes@, pos as int) == Some((n, p1 as int)),
            sdec_vars(bytes@, p1 as int, cnt as nat) == prepend_decoded(
                acc@.map_values(|x: RetroVariable| x@),
                sdec_vars(bytes@, cur as int, (cnt - i) as nat),
            ),
        decreases cnt - i,
    {
        let (piece, nxt) = match decode_variable(bytes, cur) {
            Some(p) => p,
            None => {
                proof {
                    assert(sdec_vars(bytes@, cur as int, (cnt - i) as nat) is None);
                }
                return None;
            },
        };
        proof {
            lemma_prepend_decoded_assoc(
                acc@.map_values(|x: RetroVariable| x@),
                seq![piece@],
                sdec_vars(bytes@, nxt as int, (cnt - i - 1) as nat),
            );
            assert(acc@.map_values(|x: RetroVariable| x@) + seq![piece@] =~= acc@.push(piece)
                .map_values(|x: RetroVariable| x@));
            lemma_sdec_variable_bounds(bytes@, cur as int);
        }
        acc.push(piece);
        cur = nxt;
        i = i + 1;
    }
    proof {
        assert(acc@.map_values(|x: RetroVariable| x@) + seq![] =~= acc@.map_values(
            |x: RetroVariable| x@,
        ));
    }
    Some((acc, cur))
}

// ---------------------------------------------------------------------------
// System info and audio/video info
// ---------------------------------------------------------------------------
use crate::retro_types::RetroAvInfo;
use crate::retro_types::RetroGameGeometry;
use crate::retro_types::RetroSystemInfo;
use crate::retro_types::RetroSystemTiming;
use crate::retro_types::SystemInfoView;

/// A well-formed system info has well-formed strings.
pub open spec fn wf_system_info(i: SystemInfoView) -> bool {
    wf_str(i.library_name) && wf_str(i.library_version) && wf_str_list(i.valid_extensions)
}

/// A system info travels as its two strings, its extension list and its two
/// flags.
pub open spec fn enc_system_info(i: SystemInfoView) -> Seq<u8> {
    enc_str(i.library_name) + enc_str(i.library_version) + enc_str_list(i.valid_extensions)
        + enc_bool(i.need_fullpath) + enc_bool(i.block_extract)
}

/// Reads back a system info starting at `pos`.
pub open spec fn sdec_system_info(s: Seq<u8>, pos: int) -> Option<(SystemInfoView, int)> {
    match sdec_str(s, pos) {
        Some((library_name, p1)) => match sdec_str(s, p1) {
            Some((library_version, p2)) => match sdec_str_list(s, p2) {
                Some((valid_extensions, p3)) => match sdec_bool(s, p3) {
                    Some((need_fullpath, p4)) => match sdec_bool(s, p4) {
                        Some((block_extract, p5)) => Some(
                            (
                                SystemInfoView {
                                    library_name,
                                    library_version,
                                    valid_extensions,
                                    need_fullpath,
                                    block_extract,
                                },
                                p5,
                            ),
                        ),
                        None => None,
                    },
                    None => None,
                },
                None => None,
            },
            None => None,
        },
        None => None,
    }
}

/// Decoding inverts encoding for system infos.
pub proof fn lemma_system_info_round_trip(s: Seq<u8>, pos: int, i: SystemInfoView)
    requires
        0 <= pos,
        wf_system_info(i),
        pos + enc_system_info(i).len() <= s.len(),
        s.subrange(pos, pos + enc_system_info(i).len()) == enc_system_info(i),
    ensures
        sdec_system_info(s, pos) == Some((i, pos + enc_system_info(i).len())),
{
    let e1 = enc_str(i.library_name);
    let e2 = enc_str(i.library_version);
    let e3 = enc_str_list(i.valid_extensions);
    let e4 = enc_bool(i.need_fullpath);
    let e5 = enc_bool(i.block_extract);
    assert(enc_system_info(i) =~= e1 + (e2 + (e3 + (e4 + e5))));
    lemma_subrange_split(s, pos, e1, e2 + (e3 + (e4 + e5)));
    lemma_subrange_split(s, pos + e1.len(), e2, e3 + (e4 + e5));
    lemma_subrange_split(s, pos + e1.len() + e2.len(), e3, e4 + e5);
    lemma_subrange_split(s, pos + e1.len() + e2.len() + e3.len(), e4, e5);
    lemma_str_round_trip(s, pos, i.library_name);
    lemma_str_round_trip(s, pos + e1.len(), i.library_version);
    lemma_str_list_round_trip(s, pos + e1.len() + e2.len(), i.valid_extensions);
    lemma_bool_round_trip(s, pos + e1.len() + e2.len() + e3.len(), i.need_fullpath);
    lemma_bool_round_trip(s, pos + e1.len() + e2.len() + e3.len() + 1, i.block_extract);
}

/// Appends the encoding of a system info.
pub fn encode_system_info(out: &mut Vec<u8>, i: &RetroSystemInfo)
    ensures
        final(out)@ == old(out)@ + enc_system_info(i@),
        wf_system_info(i@),
{
    encode_string(out, &i.library_name);
    encode_string(out, &i.library_version);
    encode_string_list(out, &i.valid_extensions);
    encode_bool(out, i.need_fullpath);
    encode_bool(out, i.block_extract);
    assert(final(out)@ =~= old(out)@ + enc_system_info(i@));
}

/// Reads back a system info.
pub fn decode_system_info(bytes: &Vec<u8>, pos: usize) -> (r: Option<(RetroSystemInfo, usize)>)
    ensures
        match r {
            Some(p) => sdec_system_info(bytes@, pos as int) == Some((p.0@, p.1 as int)),
            None => sdec_system_info(bytes@, pos as int) is None,
        },
{
    let (library_name, p1) = match decode_string(bytes, pos) {
        Some(p) => p,
        None => {
            return None;
        },
    };
    let (library_version, p2) = match decode_string(bytes, p1) {
        Some(p) => p,
        None => {
            return None;
        },
    };
    let (valid_extensions, p3) = match decode_string_list(bytes, p2) {
        Some(p) => p,
        None => {
            return None;
        },
    };
    let (need_fullpath, p4) = match decode_bool(bytes, p3) {
        Some(p) => p,
        None => {
            return None;
        },
    };
    let (block_extract, p5) = match decode_bool(bytes, p4) {
        Some(p) => p,
        None => {
            return None;
        },
    };
    Some(
        (
            RetroSystemInfo {
                library_name,
                library_version,
                valid_extensions,
                need_fullpath,
                block_extract,
            },
            p5,
        ),
    )
}

/// An audio/video info travels as its five geometry words and two timing
/// bit patterns.
pub open spec fn enc_av_info(a: RetroAvInfo) -> Seq<u8> {
    enc_u32(a.geometry.base_width) + enc_u32(a.geometry.base_height) + enc_u32(
        a.geometry.max_width,
    ) + enc_u32(a.geometry.max_height) + enc_u32(a.geometry.aspect_ratio_bits) + enc_u64(
        a.timing.fps_bits,
    ) + enc_u64(a.timing.sample_rate_bits)
}

/// Reads back an audio/video info starting at `pos`.
pub open spec fn sdec_av_info(s: Seq<u8>, pos: int) -> Option<(RetroAvInfo, int)> {
    match sdec_u32(s, pos) {
        Some((base_width, p1)) => match sdec_u32(s, p1) {
            Some((base_height, p2)) => match sdec_u32(s, p2) {
                Some((max_width, p3)) => match sdec_u32(s, p3) {
                    Some((max_height, p4)) => match sdec_u32(s, p4) {
                        Some((aspect_ratio_bits, p5)) => match sdec_u64(s, p5) {
                            Some((fps_bits, p6)) => match sdec_u64(s, p6) {
                                Some((sample_rate_bits, p7)) => Some(
                                    (
                                        RetroAvInfo {
                                            geometry: RetroGameGeometry {
                                                base_width,
                                                base_height,
                                                max_width,
                                                max_height,
                                                aspect_ratio_bits,
                                            },
                                            timing: RetroSystemTiming {
                                                fps_bits,
                                                sample_rate_bits,
                                            },
                                        },
                                        p7,
                                    ),
                                ),
                                None => None,
                            },
                            None => None,
                        },
                        None => None,
                    },
                    None => None,
                },
                None => None,
            },
            None => None,
        },
        None => None,
    }
}

/// Decoding inverts encoding for audio/video infos.
pub proof fn lemma_av_info_round_trip(s: Seq<u8>, pos: int, a: RetroAvInfo)
    requires
        0 <= pos,
        pos + 36 <= s.len(),
        s.subrange(pos, pos + 36) == enc_av_info(a),
    ensures
        sdec_av_info(s, pos) == Some((a, pos + 36)),
{
    let e1 = enc_u32(a.geometry.base_width);
    let e2 = enc_u32(a.geometry.base_height);
    let e3 = enc_u32(a.geometry.max_width);
    let e4 = enc_u32(a.geometry.max_height);
    let e5 = enc_u32(a.geometry.aspect_ratio_bits);
    let e6 = enc_u64(a.timing.fps_bits);
    let e7 = enc_u64(a.timing.sample_rate_bits);
    assert(enc_av_info(a) =~= e1 + (e2 + (e3 + (e4 + (e5 + (e6 + e7))))));
    lemma_subrange_split(s, pos, e1, e2 + (e3 + (e4 + (e5 + (e6 + e7)))));
    lemma_subrange_split(s, pos + 4, e2, e3 + (e4 + (e5 + (e6 + e7))));
    lemma_subrange_split(s, pos + 8, e3, e4 + (e5 + (e6 + e7)));
    lemma_subrange_split(s, pos + 12, e4, e5 + (e6 + e7));
    lemma_subrange_split(s, pos + 16, e5, e6 + e7);
    lemma_subrange_split(s, pos + 20, e6, e7);
    lemma_u32_round_trip(s, pos, a.geometry.base_width);
    lemma_u32_round_trip(s, pos + 4, a.geometry.base_height);
    lemma_u32_round_trip(s, pos + 8, a.geometry.max_width);
    lemma_u32_round_trip(s, pos + 12, a.geometry.max_height);
    lemma_u32_round_trip(s, pos + 16, a.geometry.aspect_ratio_bits);
    lemma_u64_round_trip(s, pos + 20, a.timing.fps_bits);
    lemma_u64_round_trip(s, pos + 28, a.timing.sample_rate_bits);
}

/// Appends the encoding of an audio/video info.
pub fn encode_av_info(out: &mut Vec<u8>, a: &RetroAvInfo)
    ensures
        final(out)@ == old(out)@ + enc_av_info(*a),
{
    encode_u32(out, a.geometry.base_width);
    encode_u32(out, a.geometry.base_height);
    encode_u32(out, a.geometry.max_width);
    encode_u32(out, a.geometry.max_height);
    encode_u32(out, a.geometry.aspect_ratio_bits);
    encode_u64(out, a.timing.fps_bits);
    encode_u64(out, a.timing.sample_rate_bits);
    assert(final(out)@ =~= old(out)@ + enc_av_info(*a));
}

/// Reads back an audio/video info.
pub fn decode_av_info(bytes: &Vec<u8>, pos: usize) -> (r: Option<(RetroAvInfo, usize)>)
    ensures
        match r {
            Some(p) => sdec_av_info(bytes@, pos as int) == Some((p.0, p.1 as int)),
            None => sdec_av_info(bytes@, pos as int) is None,
        },
{
    let (base_width, p1) = match decode_u32(bytes, pos) {
        Some(p) => p,
        None => {
            return None;
        },
    };
    let (base_height, p2) = match decode_u32(bytes, p1) {
        Some(p) => p,
        None => {
            return None;
        },
    };
    let (max_width, p3) = match decode_u32(bytes, p2) {
        Some(p) => p,
        None => {
            return None;
        },
    };
    let (max_height, p4) = match decode_u32(bytes, p3) {
        Some(p) => p,
        None => {
            return None;
        },
    };
    let (aspect_ratio_bits, p5) = match decode_u32(bytes, p4) {
        Some(p) => p,
        None => {
            return None;
        },
    };
    let (fps_bits, p6) = match decode_u64(bytes, p5) {
        Some(p) => p,
        None => {
            return None;
        },
    };
    let (sample_rate_bits, p7) = match decode_u64(bytes, p6) {
        Some(p) => p,
        None => {
            return None;
        },
    };
    Some(
        (
            RetroAvInfo {
                geometry: RetroGameGeometry {
                    base_width,
                    base_height,
                    max_width,
                    max_height,
                    aspect_ratio_bits,
                },
                timing: RetroSystemTiming { fps_bits, sample_rate_bits },
            },
            p7,
        ),
    )
}

// ---------------------------------------------------------------------------
// Video refresh payloads
// ---------------------------------------------------------------------------
use crate::messages::MessageTypeView;
use crate::messages::MessageView;
use crate::messages::ProtocolMessage;
use crate::messages::ProtocolMessageType;
use crate::messages::VideoRefreshType;
use crate::messages::VideoRefreshView;
use crate::messages::spec_is_blocking;
use crate::messages::spec_is_response;

/// A well-formed video refresh has a framebuffer that fits its length
/// prefix.
pub open spec fn wf_video_refresh(v: VideoRefreshView) -> bool {
    match v {
        VideoRefreshView::Software { framebuffer, width, height } => framebuffer.len()
            <= u64::MAX,
        VideoRefreshView::Hardware => true,
    }
}

/// A video refresh travels as a tag byte, then for the software path the
/// framebuffer and its dimensions.
pub open spec fn enc_video_refresh(v: VideoRefreshView) -> Seq<u8> {
    match v {
        VideoRefreshView::Software { framebuffer, width, height } => seq![0u8] + enc_bytes(
            framebuffer,
        ) + enc_u64(width) + enc_u64(height),
        VideoRefreshView::Hardware => seq![1u8],
    }
}

/// Reads back a video refresh starting at `pos`.
pub open spec fn sdec_video_refresh(s: Seq<u8>, pos: int) -> Option<(VideoRefreshView, int)> {
    if 0 <= pos && pos + 1 <= s.len() {
        if s[pos] == 0u8 {
            match sdec_bytes(s, pos + 1) {
                Some((framebuffer, p1)) => match sdec_u64(s, p1) {
                    Some((width, p2)) => match sdec_u64(s, p2) {
                        Some((height, p3)) => Some(
                            (VideoRefreshView::Software { framebuffer, width, height }, p3),
                        ),
                        None => None,
                    },
                    None => None,
                },
                None => None,
            }
        } else if s[pos] == 1u8 {
            Some((VideoRefreshView::Hardware, pos + 1))
        } else {
            None
        }
    } else {
        None
    }
}

/// Decoding inverts encoding for video refreshes.
pub proof fn lemma_video_refresh_round_trip(s: Seq<u8>, pos: int, v: VideoRefreshView)
    requires
        0 <= pos,
        wf_video_refresh(v),
        pos + enc_video_refresh(v).len() <= s.len(),
        s.subrange(pos, pos + enc_video_refresh(v).len()) == enc_video_refresh(v),
    ensures
        sdec_video_refresh(s, pos) == Some((v, pos + enc_video_refresh(v).len())),
{
    match v {
        VideoRefreshView::Software { framebuffer, width, height } => {
            let e0 = seq![0u8];
            let e1 = enc_bytes(framebuffer);
            let e2 = enc_u64(width);
            let e3 = enc_u64(height);
            assert(enc_video_refresh(v) =~= e0 + (e1 + (e2 + e3)));
            lemma_subrange_split(s, pos, e0, e1 + (e2 + e3));
            lemma_subrange_split(s, pos + 1, e1, e2 + e3);
            lemma_subrange_split(s, pos + 1 + e1.len(), e2, e3);
            assert(s[pos] == s.subrange(pos, pos + 1)[0]);
            lemma_bytes_round_trip(s, pos + 1, framebuffer);
            lemma_u64_round_trip(s, pos + 1 + e1.len(), width);
            lemma_u64_round_trip(s, pos + 1 + e1.len() + 8, height);
        },
        VideoRefreshView::Hardware => {
            assert(s[pos] == s.subrange(pos, pos + 1)[0]);
        },
    }
}

/// Appends the encoding of a video refresh.
pub fn encode_video_refresh(out: &mut Vec<u8>, v: &VideoRefreshType)
    ensures
        final(out)@ == old(out)@ + enc_video_refresh(v@),
        wf_video_refresh(v@),
{
    match v {
        VideoRefreshType::Software { framebuffer, width, height } => {
            out.push(0u8);
            encode_byte_seq(out, framebuffer);
            encode_u64(out, *width);
            encode_u64(out, *height);
            assert(final(out)@ =~= old(out)@ + enc_video_refresh(v@));
        },
        VideoRefreshType::Hardware => {
            out.push(1u8);
            assert(final(out)@ =~= old(out)@ + enc_video_refresh(v@));
        },
    }
}

/// Reads back a video refresh.
pub fn decode_video_refresh(bytes: &Vec<u8>, pos: usize) -> (r: Option<(VideoRefreshType, usize)>)
    ensures
        match r {
            Some(p) => sdec_video_refresh(bytes@, pos as int) == Some((p.0@, p.1 as int)),
            None => sdec_video_refresh(bytes@, pos as int) is None,
        },
{
    if pos >= bytes.len() {
        return None;
    }
    let tag = bytes[pos];
    if tag == 0 {
        let (framebuffer, p1) = match decode_byte_seq(bytes, pos + 1) {
            Some(p) => p,
            None => {
                return None;
            },
        };
        let (width, p2) = match decode_u64(bytes, p1) {
            Some(p) => p,
            None => {
                return None;
            },
        };
        let (height, p3) = match decode_u64(bytes, p2) {
            Some(p) => p,
            None => {
                return None;
            },
        };
        Some((VideoRefreshType::Software { framebuffer, width, height }, p3))
    } else if tag == 1 {
        Some((VideoRefreshType::Hardware, pos + 1))
    } else {
        None
    }
}

// ---------------------------------------------------------------------------
// Message payloads and whole messages
// ---------------------------------------------------------------------------
/// A well-formed payload has every sequence inside it fitting its length
/// prefix; this holds of the view of any value the process can build.
pub open spec fn wf_payload(m: MessageTypeView) -> bool {
    match m {
        MessageTypeView::SetVariables(vars) => wf_var_list(vars),
        MessageTypeView::GetVariable(key) => wf_str(key),
        MessageTypeView::VideoRefresh(v) => wf_video_refresh(v),
        MessageTypeView::AudioSample(samples) => samples.len() <= u64::MAX,
        MessageTypeView::SystemInfoResponse(i) => wf_system_info(i),
        MessageTypeView::Load(path) => wf_str(path),
        MessageTypeView::GetVariableResponse(value) => match value {
            Some(v) => wf_str(v),
            None => true,
        },
        _ => true,
    }
}

/// A payload travels as a tag byte in declaration order, then the variant's
/// fields.
pub open spec fn enc_payload(m: MessageTypeView) -> Seq<u8> {
    match m {
        MessageTypeView::SetVariables(vars) => seq![0u8] + enc_var_list(vars),
        MessageTypeView::GetVariable(key) => seq![1u8] + enc_str(key),
        MessageTypeView::VideoRefresh(v) => seq![2u8] + enc_video_refresh(v),
        MessageTypeView::AudioSample(samples) => seq![3u8] + enc_samples(samples),
        MessageTypeView::PollInput => seq![4u8],
        MessageTypeView::InputState { port, device, index, id } => seq![5u8] + enc_u32(port)
            + enc_u32(device) + enc_u32(index) + enc_u32(id),
        MessageTypeView::SystemInfoResponse(i) => seq![6u8] + enc_system_info(i),
        MessageTypeView::APIVersionResponse(version) => seq![7u8] + enc_u32(version),
        MessageTypeView::AVInfoResponse(a) => seq![8u8] + enc_av_info(a),
        MessageTypeView::RunResponse => seq![9u8],
        MessageTypeView::Init => seq![10u8],
        MessageTypeView::Deinit => seq![11u8],
        MessageTypeView::Load(path) => seq![12u8] + enc_str(path),
        MessageTypeView::Unload => seq![13u8],
        MessageTypeView::APIVersion => seq![14u8],
        MessageTypeView::AVInfo => seq![15u8],
        MessageTypeView::Run => seq![16u8],
        MessageTypeView::Reset => seq![17u8],
        MessageTypeView::SystemInfo => seq![18u8],
        MessageTypeView::InputResponse(state) => seq![19u8] + enc_i16(state),
        MessageTypeView::GetVariableResponse(value) => seq![20u8] + enc_opt_str(value),
    }
}

/// Reads back a payload starting at `pos`.
pub open spec fn sdec_payload(s: Seq<u8>, pos: int) -> Option<(MessageTypeView, int)> {
    if 0 <= pos && pos + 1 <= s.len() {
        let tag = s[pos];
        let p0 = pos + 1;
        if tag == 0u8 {
            match sdec_var_list(s, p0) {
                Some((vars, end)) => Some((MessageTypeView::SetVariables(vars), end)),
                None => None,
            }
        } else if tag == 1u8 {
            match sdec_str(s, p0) {
                Some((key, end)) => Some((MessageTypeView::GetVariable(key), end)),
                None => None,
            }
        } else if tag == 2u8 {
            match sdec_video_refresh(s, p0) {
                Some((v, end)) => Some((MessageTypeView::VideoRefresh(v), end)),
                None => None,
            }
        } else if tag == 3u8 {
            match sdec_samples(s, p0) {
                Some((samples, end)) => Some((MessageTypeView::AudioSample(samples), end)),
                None => None,
            }
        } else if tag == 4u8 {
            Some((MessageTypeView::PollInput, p0))
        } else if tag == 5u8 {
            match sdec_u32(s, p0) {
                Some((port, q1)) => match sdec_u32(s, q1) {
                    Some((device, q2)) => match sdec_u32(s, q2) {
                        Some((index, q3)) => match sdec_u32(s, q3) {
                            Some((id, q4)) => Some(
                                (MessageTypeView::InputState { port, device, index, id }, q4),
                            ),
                            None => None,
                        },
                        None => None,
                    },
                    None => None,
                },
                None => None,
            }
        } else if tag == 6u8 {
            match sdec_system_info(s, p0) {
                Some((i, end)) => Some((MessageTypeView::SystemInfoResponse(i), end)),
                None => None,
            }
        } else if tag == 7u8 {
            match sdec_u32(s, p0) {
                Some((version, end)) => Some((MessageTypeView::APIVersionResponse(version), end)),
                None => None,
            }
        } else if tag == 8u8 {
            match sdec_av_info(s, p0) {
                Some((a, end)) => Some((MessageTypeView::AVInfoResponse(a), end)),
                None => None,
            }
        } else if tag == 9u8 {
            Some((MessageTypeView::RunResponse, p0))
        } else if tag == 10u8 {
            Some((MessageTypeView::Init, p0))
        } else if tag == 11u8 {
            Some((MessageTypeView::Deinit, p0))
        } else if tag == 12u8 {
            match sdec_str(s, p0) {
                Some((path, end)) => Some((MessageTypeView::Load(path), end)),
                None => None,
            }
        } else if tag == 13u8 {
            Some((MessageTypeView::Unload, p0))
        } else if tag == 14u8 {
            Some((MessageTypeView::APIVersion, p0))
        } else if tag == 15u8 {
            Some((MessageTypeView::AVInfo, p0))
        } else if tag == 16u8 {
            Some((MessageTypeView::Run, p0))
        } else if tag == 17u8 {
            Some((MessageTypeView::Reset, p0))
        } else if tag == 18u8 {
            Some((MessageTypeView::SystemInfo, p0))
        } else if tag == 19u8 {
            match sdec_i16(s, p0) {
                Some((state, end)) => Some((MessageTypeView::InputResponse(state), end)),
                None => None,
            }
        } else if tag == 20u8 {
            match sdec_opt_str(s, p0) {
                Some((value, end)) => Some((MessageTypeView::GetVariableResponse(value), end)),
                None => None,
            }
        } else {
            None
        }
    } else {
        None
    }
}

/// Decoding inverts encoding for payloads.
pub proof fn lemma_payload_round_trip(s: Seq<u8>, pos: int, m: MessageTypeView)
    requires
        0 <= pos,
        wf_payload(m),
        pos + enc_payload(m).len() <= s.len(),
        s.subrange(pos, pos + enc_payload(m).len()) == enc_payload(m),
    ensures
        sdec_payload(s, pos) == Some((m, pos + enc_payload(m).len())),
{
    assert(s[pos] == s.subrange(pos, pos + enc_payload(m).len())[0]);
    match m {
        MessageTypeView::SetVariables(vars) => {
            lemma_subrange_split(s, pos, seq![0u8], enc_var_list(vars));
            lemma_var_list_round_trip(s, pos + 1, vars);
        },
        MessageTypeView::GetVariable(key) => {
            lemma_subrange_split(s, pos, seq![1u8], enc_str(key));
            lemma_str_round_trip(s, pos + 1, key);
        },
        MessageTypeView::VideoRefresh(v) => {
            lemma_subrange_split(s, pos, seq![2u8], enc_video_refresh(v));
            lemma_video_refresh_round_trip(s, pos + 1, v);
        },
        MessageTypeView::AudioSample(samples) => {
            lemma_subrange_split(s, pos, seq![3u8], enc_samples(samples));
            lemma_samples_round_trip(s, pos + 1, samples);
        },
        MessageTypeView::PollInput => {},
        MessageTypeView::InputState { port, device, index, id } => {
            let e1 = enc_u32(port);
            let e2 = enc_u32(device);
            let e3 = enc_u32(index);
            let e4 = enc_u32(id);
            assert(enc_payload(m) =~= seq![5u8] + (e1 + (e2 + (e3 + e4))));
            lemma_subrange_split(s, pos, seq![5u8], e1 + (e2 + (e3 + e4)));
            lemma_subrange_split(s, pos + 1, e1, e2 + (e3 + e4));
            lemma_subrange_split(s, pos + 5, e2, e3 + e4);
            lemma_subrange_split(s, pos + 9, e3, e4);
            lemma_u32_round_trip(s, pos + 1, port);
            lemma_u32_round_trip(s, pos + 5, device);
            lemma_u32_round_trip(s, pos + 9, index);
            lemma_u32_round_trip(s, pos + 13, id);
        },
        MessageTypeView::SystemInfoResponse(i) => {
            lemma_subrange_split(s, pos, seq![6u8], enc_system_info(i));
            lemma_system_info_round_trip(s, pos + 1, i);
        },
        MessageTypeView::APIVersionResponse(version) => {
            lemma_subrange_split(s, pos, seq![7u8], enc_u32(version));
            lemma_u32_round_trip(s, pos + 1, version);
        },
        MessageTypeView::AVInfoResponse(a) => {
            lemma_subrange_split(s, pos, seq![8u8], enc_av_info(a));
            lemma_av_info_round_trip(s, pos + 1, a);
        },
        MessageTypeView::RunResponse => {},
        MessageTypeView::Init => {},
        MessageTypeView::Deinit => {},
        MessageTypeView::Load(path) => {
            lemma_subrange_split(s, pos, seq![12u8], enc_str(path));
            lemma_str_round_trip(s, pos + 1, path);
        },
        MessageTypeView::Unload => {},
        MessageTypeView::APIVersion => {},
        MessageTypeView::AVInfo => {},
        MessageTypeView::Run => {},
        MessageTypeView::Reset => {},
        MessageTypeView::SystemInfo => {},
        MessageTypeView::InputResponse(state) => {
            lemma_subrange_split(s, pos, seq![19u8], enc_i16(state));
            lemma_i16_round_trip(s, pos + 1, state);
        },
        MessageTypeView::GetVariableResponse(value) => {
            lemma_subrange_split(s, pos, seq![20u8], enc_opt_str(value));
            lemma_opt_str_round_trip(s, pos + 1, value);
        },
    }
}

/// Appends the encoding of a payload.
pub fn encode_payload(out: &mut Vec<u8>, m: &ProtocolMessageType)
    ensures
        final(out)@ == old(out)@ + enc_payload(m@),
        wf_payload(m@),
{
    match m {
        ProtocolMessageType::SetVariables(vars) => {
            out.push(0u8);
            encode_variables(out, vars);
            assert(final(out)@ =~= old(out)@ + enc_payload(m@));
        },
        ProtocolMessageType::GetVariable(key) => {
            out.push(1u8);
            encode_string(out, key);
            assert(final(out)@ =~= old(out)@ + enc_payload(m@));
        },
        ProtocolMessageType::VideoRefresh(v) => {
            out.push(2u8);
            encode_video_refresh(out, v);
            assert(final(out)@ =~= old(out)@ + enc_payload(m@));
        },
        ProtocolMessageType::AudioSample(samples) => {
            out.push(3u8);
            encode_samples(out, samples);
            assert(final(out)@ =~= old(out)@ + enc_payload(m@));
        },
        ProtocolMessageType::PollInput => {
            out.push(4u8);
            assert(final(out)@ =~= old(out)@ + enc_payload(m@));
        },
        ProtocolMessageType::InputState { port, device, index, id } => {
            out.push(5u8);
            encode_u32(out, *port);
            encode_u32(out, *device);
            encode_u32(out, *index);
            encode_u32(out, *id);
            assert(final(out)@ =~= old(out)@ + enc_payload(m@));
        },
        ProtocolMessageType::SystemInfoResponse(i) => {
            out.push(6u8);
            encode_system_info(out, i);
            assert(final(out)@ =~= old(out)@ + enc_payload(m@));
        },
        ProtocolMessageType::APIVersionResponse(version) => {
            out.push(7u8);
            encode_u32(out, *version);
            assert(final(out)@ =~= old(out)@ + enc_payload(m@));
        },
        ProtocolMessageType::AVInfoResponse(a) => {
            out.push(8u8);
            encode_av_info(out, a);
            assert(final(out)@ =~= old(out)@ + enc_payload(m@));
        },
        ProtocolMessageType::RunResponse => {
            out.push(9u8);
            assert(final(out)@ =~= old(out)@ + enc_payload(m@));
        },
        ProtocolMessageType::Init => {
            out.push(10u8);
            assert(final(out)@ =~= old(out)@ + enc_payload(m@));
        },
        ProtocolMessageType::Deinit => {
            out.push(11u8);
            assert(final(out)@ =~= old(out)@ + enc_payload(m@));
        },
        ProtocolMessageType::Load(path) => {
            out.push(12u8);
            encode_string(out, path);
            assert(final(out)@ =~= old(out)@ + enc_payload(m@));
        },
        ProtocolMessageType::Unload => {
            out.push(13u8);
            assert(final(out)@ =~= old(out)@ + enc_payload(m@));
        },
        ProtocolMessageType::APIVersion => {
            out.push(14u8);
            assert(final(out)@ =~= old(out)@ + enc_payload(m@));
        },
        ProtocolMessageType::AVInfo => {
            out.push(15u8);
            assert(final(out)@ =~= old(out)@ + enc_payload(m@));
        },
        ProtocolMessageType::Run => {
            out.push(16u8);
            assert(final(out)@ =~= old(out)@ + enc_payload(m@));
        },
        ProtocolMessageType::Reset => {
            out.push(17u8);
            assert(final(out)@ =~= old(out)@ + enc_payload(m@));
        },
        ProtocolMessageType::SystemInfo => {
            out.push(18u8);
            assert(final(out)@ =~= old(out)@ + enc_payload(m@));
        },
        ProtocolMessageType::InputResponse(state) => {
            out.push(19u8);
            encode_i16(out, *state);
            assert(final(out)@ =~= old(out)@ + enc_payload(m@));
        },
        ProtocolMessageType::GetVariableResponse(value) => {
            out.push(20u8);
            encode_opt_string(out, value);
            assert(final(out)@ =~= old(out)@ + enc_payload(m@));
        },
    }
}

/// Reads back a payload.
pub fn decode_payload(bytes: &Vec<u8>, pos: usize) -> (r: Option<(ProtocolMessageType, usize)>)
    ensures
        match r {
            Some(p) => sdec_payload(bytes@, pos as int) == Some((p.0@, p.1 as int)),
            None => sdec_payload(bytes@, pos as int) is None,
        },
{
    if pos >= bytes.len() {
        return None;
    }
    let tag = bytes[pos];
    let p0 = pos + 1;
    if tag == 0 {
        match decode_variables(bytes, p0) {
            Some((vars, end)) => Some((ProtocolMessageType::SetVariables(vars), end)),
            None => None,
        }
    } else if tag == 1 {
        match decode_string(bytes, p0) {
            Some((key, end)) => Some((ProtocolMessageType::GetVariable(key), end)),
            None => None,
        }
    } else if tag == 2 {
        match decode_video_refresh(bytes, p0) {
            Some((v, end)) => Some((ProtocolMessageType::VideoRefresh(v), end)),
            None => None,
        }
    } else if tag == 3 {
        match decode_samples(bytes, p0) {
            Some((samples, end)) => Some((ProtocolMessageType::AudioSample(samples), end)),
            None => None,
        }
    } else if tag == 4 {
        Some((ProtocolMessageType::PollInput, p0))
    } else if tag == 5 {
        let (port, q1) = match decode_u32(bytes, p0) {
            Some(p) => p,
            None => {
                return None;
            },
        };
        let (device, q2) = match decode_u32(bytes, q1) {
            Some(p) => p,
            None => {
                return None;
            },
        };
        let (index, q3) = match decode_u32(bytes, q2) {
            Some(p) => p,
            None => {
                return None;
            },
        };
        let (id, q4) = match decode_u32(bytes, q3) {
            Some(p) => p,
            None => {
                return None;
            },
        };
        Some((ProtocolMessageType::InputState { port, device, index, id }, q4))
    } else if tag == 6 {
        match decode_system_info(bytes, p0) {
            Some((i, end)) => Some((ProtocolMessageType::SystemInfoResponse(i), end)),
            None => None,
        }
    } else if tag == 7 {
        match decode_u32(bytes, p0) {
            Some((version, end)) => Some((ProtocolMessageType::APIVersionResponse(version), end)),
            None => None,
        }
    } else if tag == 8 {
        match decode_av_info(bytes, p0) {
            Some((a, end)) => Some((ProtocolMessageType::AVInfoResponse(a), end)),
            None => None,
        }
    } else if tag == 9 {
        Some((ProtocolMessageType::RunResponse, p0))
    } else if tag == 10 {
        Some((ProtocolMessageType::Init, p0))
    } else if tag == 11 {
        Some((ProtocolMessageType::Deinit, p0))
    } else if tag == 12 {
        match decode_string(bytes, p0) {
            Some((path, end)) => Some((ProtocolMessageType::Load(path), end)),
            None => None,
        }
    } else if tag == 13 {
        Some((ProtocolMessageType::Unload, p0))
    } else if tag == 14 {
        Some((ProtocolMessageType::APIVersion, p0))
    } else if tag == 15 {
        Some((ProtocolMessageType::AVInfo, p0))
    } else if tag == 16 {
        Some((ProtocolMessageType::Run, p0))
    } else if tag == 17 {
        Some((ProtocolMessageType::Reset, p0))
    } else if tag == 18 {
        Some((ProtocolMessageType::SystemInfo, p0))
    } else if tag == 19 {
        match decode_i16(bytes, p0) {
            Some((state, end)) => Some((ProtocolMessageType::InputResponse(state), end)),
            None => None,
        }
    } else if tag == 20 {
        match decode_opt_string(bytes, p0) {
            Some((value, end)) => Some((ProtocolMessageType::GetVariableResponse(value), end)),
            None => None,
        }
    } else {
        None
    }
}

/// A well-formed message has a well-formed payload.
pub open spec fn wf_message(m: MessageView) -> bool {
    wf_payload(m.data)
}

/// A message travels as its correlation id followed by its payload.
pub open spec fn enc_message(m: MessageView) -> Seq<u8> {
    enc_u64(m.id) + enc_payload(m.data)
}

/// Reads back a whole message starting at `pos`.
pub open spec fn sdec_message(s: Seq<u8>, pos: int) -> Option<(MessageView, int)> {
    match sdec_u64(s, pos) {
        Some((id, p1)) => match sdec_payload(s, p1) {
            Some((data, end)) => Some((MessageView { id, data }, end)),
            None => None,
        },
        None => None,
    }
}

/// Deserialising a serialised message gives the message back: the round-trip
/// law for the whole wire format.
pub proof fn lemma_message_round_trip(m: MessageView)
    requires
        wf_message(m),
    ensures
        sdec_message(enc_message(m), 0) == Some((m, enc_message(m).len() as int)),
{
    let s = enc_message(m);
    assert(s.subrange(0, s.len() as int) =~= s);
    lemma_subrange_split(s, 0, enc_u64(m.id), enc_payload(m.data));
    lemma_u64_round_trip(s, 0, m.id);
    lemma_payload_round_trip(s, 8, m.data);
}

/// The blocking and response classifications are functions of the tag alone
/// and survive a serialisation round trip unchanged.
pub proof fn lemma_classification_round_trip(m: MessageView)
    requires
        wf_message(m),
    ensures
        match sdec_message(enc_message(m), 0) {
            Some((back, end)) => spec_is_blocking(back.data) == spec_is_blocking(m.data)
                && spec_is_response(back.data) == spec_is_response(m.data),
            None => false,
        },
{
    lemma_message_round_trip(m);
}

/// Serialises a message into its wire bytes.
pub fn serialize_message(m: &ProtocolMessage) -> (r: Vec<u8>)
    ensures
        r@ == enc_message(m@),
        wf_message(m@),
{
    let mut out: Vec<u8> = Vec::new();
    encode_u64(&mut out, m.id);
    encode_payload(&mut out, &m.data);
    assert(out@ =~= enc_message(m@));
    out
}

/// Deserialises a message from its wire bytes; the whole buffer must be
/// consumed.
pub fn deserialize_message(bytes: &Vec<u8>) -> (r: Option<ProtocolMessage>)
    ensures
        match r {
            Some(m) => sdec_message(bytes@, 0) == Some((m@, bytes@.len() as int)),
            None => match sdec_message(bytes@, 0) {
                Some(p) => p.1 != bytes@.len(),
                None => true,
            },
        },
{
    let (id, p1) = match decode_u64(bytes, 0) {
        Some(p) => p,
        None => {
            return None;
        },
    };
    let (data, end) = match decode_payload(bytes, p1) {
        Some(p) => p,
        None => {
            return None;
        },
    };
    if end != bytes.len() {
        return None;
    }
    Some(ProtocolMessage { id, data })
}

/// Reads back a character.
fn decode_char(bytes: &Vec<u8>, pos: usize) -> (r: Option<(char, usize)>)
    ensures
        match r {
            Some(p) => sdec_char(bytes@, pos as int) == Some((p.0, p.1 as int)) && p.1 <= bytes.len(),
            None => sdec_char(bytes@, pos as int) is None,
        },
{
    match decode_u32(bytes, pos) {
        Some((v, end)) => match char::from_u32(v) {
            Some(c) => Some((c, end)),
            None => None,
        },
        None => None,
    }
}

} // verus!
