//! Hex encoding and decoding of byte strings, with an exact mathematical
//! model. The executable paths call the `hex` crate; the model is this
//! module's own, and the trusted wrappers state that the crate matches it.

use vstd::prelude::*;

verus! {

/// The lowercase hex digit for a value in 0..16.
pub open spec fn hex_digit(v: int) -> char {
    if v == 0 { '0' } else if v == 1 { '1' } else if v == 2 { '2' }
    else if v == 3 { '3' } else if v == 4 { '4' } else if v == 5 { '5' }
    else if v == 6 { '6' } else if v == 7 { '7' } else if v == 8 { '8' }
    else if v == 9 { '9' } else if v == 10 { 'a' } else if v == 11 { 'b' }
    else if v == 12 { 'c' } else if v == 13 { 'd' } else if v == 14 { 'e' }
    else { 'f' }
}

/// The numeric value of a hex digit character; `None` for any other
/// character. Both cases are accepted, as `hex::decode` accepts both.
pub open spec fn hex_val(c: char) -> Option<u8> {
    if '0' <= c && c <= '9' { Some((c as u8 - '0' as u8) as u8) }
    else if 'a' <= c && c <= 'f' { Some((c as u8 - 'a' as u8 + 10) as u8) }
    else if 'A' <= c && c <= 'F' { Some((c as u8 - 'A' as u8 + 10) as u8) }
    else { None }
}

/// The lowercase hex encoding of a byte string: two digits per byte,
/// high nibble first.
pub open spec fn hex_of(b: Seq<u8>) -> Seq<char>
    decreases b.len(),
{
    if b.len() == 0 {
        Seq::empty()
    } else {
        seq![hex_digit(b[0] as int / 16), hex_digit(b[0] as int % 16)] + hex_of(b.skip(1))
    }
}

/// The bytes denoted by a hex string: `None` when the length is odd or any
/// character is not a hex digit, as `hex::decode` rejects exactly those.
pub open spec fn unhex(s: Seq<char>) -> Option<Seq<u8>>
    decreases s.len(),
{
    if s.len() % 2 != 0 {
        None
    } else if s.len() == 0 {
        Some(Seq::empty())
    } else {
        match (hex_val(s[0]), hex_val(s[1])) {
            (Some(hi), Some(lo)) => match unhex(s.skip(2)) {
                Some(rest) => Some(seq![(hi * 16 + lo) as u8] + rest),
                None => None,
            },
            _ => None,
        }
    }
}

pub proof fn lemma_hex_of_len(b: Seq<u8>)
    ensures
        hex_of(b).len() == 2 * b.len(),
    decreases b.len(),
{
    if b.len() > 0 {
        lemma_hex_of_len(b.skip(1));
    }
}

/// Every character of a hex encoding is a hex digit; in particular the
/// encoding never contains a separator character such as ':'.
pub proof fn lemma_hex_of_digits(b: Seq<u8>)
    ensures
        forall|i: int| 0 <= i < hex_of(b).len() ==> hex_val(#[trigger] hex_of(b)[i]) is Some,
    decreases b.len(),
{
    if b.len() > 0 {
        lemma_hex_of_digits(b.skip(1));
        lemma_hex_of_len(b.skip(1));
        assert forall|i: int| 0 <= i < hex_of(b).len() implies hex_val(#[trigger] hex_of(b)[i]) is Some by {
            if i >= 2 {
                assert(hex_of(b)[i] == hex_of(b.skip(1))[i - 2]);
            }
        }
    }
}

/// Decoding is the inverse of encoding: `unhex(hex_of(b))` gives back `b`.
pub proof fn lemma_hex_round_trip(b: Seq<u8>)
    ensures
        unhex(hex_of(b)) == Some(b),
    decreases b.len(),
{
    if b.len() == 0 {
        assert(hex_of(b) =~= Seq::<char>::empty());
        assert(unhex(hex_of(b)) =~= Some(Seq::<u8>::empty()));
        assert(Some(b) =~= Some(Seq::<u8>::empty()));
    } else {
        lemma_hex_round_trip(b.skip(1));
        lemma_hex_of_len(b.skip(1));
        let s = hex_of(b);
        assert(s.len() % 2 == 0);
        assert(s[0] == hex_digit(b[0] as int / 16));
        assert(s[1] == hex_digit(b[0] as int % 16));
        assert(hex_val(hex_digit(b[0] as int / 16)) == Some((b[0] / 16) as u8));
        assert(hex_val(hex_digit(b[0] as int % 16)) == Some((b[0] % 16) as u8));
        assert(s.skip(2) =~= hex_of(b.skip(1)));
        assert((b[0] / 16) * 16 + b[0] % 16 == b[0]);
        assert(unhex(s) =~= Some(seq![b[0]] + b.skip(1)));
        assert(seq![b[0]] + b.skip(1) =~= b);
    }
}

/// A hex encoding consists of ASCII characters only, so its UTF-8 byte
/// length equals its character length.
pub proof fn lemma_hex_of_ascii(b: Seq<u8>)
    ensures
        vstd::utf8::is_ascii_chars(hex_of(b)),
        vstd::utf8::encode_utf8(hex_of(b)).len() == 2 * b.len(),
{
    lemma_hex_of_len(b);
    lemma_hex_of_digits(b);
    assert forall|i: int| 0 <= i < hex_of(b).len() implies '\0' <= #[trigger] hex_of(b)[i]
        <= '\u{7f}' by {
        assert(hex_val(hex_of(b)[i]) is Some);
    }
    vstd::utf8::is_ascii_chars_encode_utf8(hex_of(b));
}

/// Relies on `hex::encode`: lowercase hex, two digits per byte, high
/// nibble first.
#[verifier::external_body]
pub fn hex_encode(b: &[u8]) -> (r: String)
    ensures
        r@ == hex_of(b@),
{
    hex::encode(b)
}

/// Relies on `hex::decode`: accepts upper- and lowercase digits, rejects
/// an odd length or a non-digit character.
#[verifier::external_body]
pub fn hex_decode(s: &str) -> (r: Option<Vec<u8>>)
    ensures
        r is Some <==> unhex(s@) is Some,
        r matches Some(v) ==> Some(v@) == unhex(s@),
{
    hex::decode(s).ok()
}

} // verus!
