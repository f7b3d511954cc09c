//! Percent-encoding and decoding of byte strings, as used in request targets
//! and in the links of a listing.
use vstd::prelude::*;

verus! {

pub open spec fn is_hex_digit(b: u8) -> bool {
    (0x30 <= b && b <= 0x39) || (0x41 <= b && b <= 0x46) || (0x61 <= b && b <= 0x66)
}

pub open spec fn hex_value(b: u8) -> int {
    if b <= 0x39 {
        b - 0x30
    } else if b <= 0x46 {
        b - 0x41 + 10
    } else {
        b - 0x61 + 10
    }
}

/// Upper-case hexadecimal digit of a value below 16.
pub open spec fn hex_upper(d: int) -> u8 {
    if d < 10 {
        (0x30 + d) as u8
    } else {
        (0x41 + d - 10) as u8
    }
}

pub open spec fn is_ascii_alphanumeric(b: u8) -> bool {
    (0x30 <= b && b <= 0x39) || (0x41 <= b && b <= 0x5a) || (0x61 <= b && b <= 0x7a)
}

/// Every `%` followed by two hexadecimal digits becomes the byte they spell;
/// every other byte, a lone `%` included, is kept.
pub open spec fn percent_decoded(s: Seq<u8>) -> Seq<u8>
    decreases s.len(),
{
    if s.len() == 0 {
        Seq::empty()
    } else if s[0] == 0x25 && s.len() >= 3 && is_hex_digit(s[1]) && is_hex_digit(s[2]) {
        seq![(hex_value(s[1]) * 16 + hex_value(s[2])) as u8] + percent_decoded(
            s.subrange(3, s.len() as int),
        )
    } else {
        seq![s[0]] + percent_decoded(s.subrange(1, s.len() as int))
    }
}

/// The bytes that stand for one byte: itself when it is an ASCII letter or
/// digit, else `%` and two upper-case hexadecimal digits.
pub open spec fn percent_escape(b: u8) -> Seq<u8> {
    if is_ascii_alphanumeric(b) {
        seq![b]
    } else {
        seq![0x25u8, hex_upper(b as int / 16), hex_upper(b as int % 16)]
    }
}

pub open spec fn percent_encoded(s: Seq<u8>) -> Seq<u8>
    decreases s.len(),
{
    if s.len() == 0 {
        Seq::empty()
    } else {
        percent_escape(s[0]) + percent_encoded(s.subrange(1, s.len() as int))
    }
}

/// Relies on percent_encoding::percent_decode: each `%` followed by two
/// hexadecimal digits (either case) is replaced by that byte, all else is kept.
#[verifier::external_body]
pub(crate) fn percent_decode_bytes(b: &[u8]) -> (r: Vec<u8>)
    ensures
        r@ == percent_decoded(b@),
{
    percent_encoding::percent_decode(b).collect()
}

/// Relies on percent_encoding::percent_encode with NON_ALPHANUMERIC: ASCII
/// letters and digits are kept, every other byte becomes `%XX` in upper case.
#[verifier::external_body]
pub(crate) fn percent_encode_bytes(b: &[u8]) -> (r: Vec<u8>)
    ensures
        r@ == percent_encoded(b@),
{
    percent_encoding::percent_encode(b, percent_encoding::NON_ALPHANUMERIC).to_string().into_bytes()
}

proof fn lemma_escape_round_trip(b: u8, t: Seq<u8>)
    ensures
        percent_decoded(percent_escape(b) + t) == seq![b] + percent_decoded(t),
{
    let s = percent_escape(b) + t;
    if is_ascii_alphanumeric(b) {
        assert(s.subrange(1, s.len() as int) =~= t);
    } else {
        let hi = b as int / 16;
        let lo = b as int % 16;
        assert(s[1] == hex_upper(hi) && s[2] == hex_upper(lo));
        assert(is_hex_digit(s[1]) && is_hex_digit(s[2]));
        assert(hex_value(s[1]) == hi);
        assert(hex_value(s[2]) == lo);
        assert(hi * 16 + lo == b as int);
        assert(s.subrange(3, s.len() as int) =~= t);
    }
}

/// Decoding what was encoded gives back the original bytes.
pub proof fn lemma_percent_round_trip(s: Seq<u8>)
    ensures
        percent_decoded(percent_encoded(s)) == s,
    decreases s.len(),
{
    if s.len() > 0 {
        let rest = s.subrange(1, s.len() as int);
        lemma_percent_round_trip(rest);
        lemma_escape_round_trip(s[0], percent_encoded(rest));
        assert(seq![s[0]] + rest =~= s);
    }
}

} // verus!
