//! Percent-encoding of `confluence://` URI components (RFC 3986 unreserved
//! set), through the `percent-encoding` crate.
use vstd::prelude::*;
use vstd::utf8::{decode_utf8, encode_utf8, is_ascii_chars, valid_utf8};

use percent_encoding::percent_decode_str;

verus! {

/// RFC 3986 unreserved bytes: `A-Z a-z 0-9 - _ . ~`.
pub open spec fn is_unreserved(b: u8) -> bool {
    ||| (48 <= b && b <= 57)
    ||| (65 <= b && b <= 90)
    ||| (97 <= b && b <= 122)
    ||| b == 45
    ||| b == 95
    ||| b == 46
    ||| b == 126
}

/// Upper-case hexadecimal digit of `n < 16`.
pub open spec fn hex_upper(n: u8) -> char {
    if n < 10 {
        (48 + n) as char
    } else {
        (55 + n) as char
    }
}

/// The value of a hexadecimal digit byte (either case).
pub open spec fn hex_value(b: u8) -> Option<u8> {
    if 48 <= b && b <= 57 {
        Some((b - 48) as u8)
    } else if 97 <= b && b <= 102 {
        Some((b - 87) as u8)
    } else if 65 <= b && b <= 70 {
        Some((b - 55) as u8)
    } else {
        None
    }
}

/// One byte, kept when unreserved and written `%XX` otherwise.
pub open spec fn encode_byte(b: u8) -> Seq<char> {
    if is_unreserved(b) {
        seq![b as char]
    } else {
        seq!['%', hex_upper(b / 16), hex_upper(b % 16)]
    }
}

pub open spec fn encode_bytes(bs: Seq<u8>) -> Seq<char>
    decreases bs.len(),
{
    if bs.len() == 0 {
        seq![]
    } else {
        encode_byte(bs[0]) + encode_bytes(bs.drop_first())
    }
}

/// The percent-encoding of the UTF-8 bytes of `s`.
pub open spec fn encode_uri(s: Seq<char>) -> Seq<char> {
    encode_bytes(encode_utf8(s))
}

/// `%XX` with two hexadecimal digits becomes one byte; every other byte,
/// including a `%` not followed by two digits, passes through.
pub open spec fn percent_decode_bytes(b: Seq<u8>) -> Seq<u8>
    decreases b.len(),
{
    if b.len() == 0 {
        seq![]
    } else if b[0] == 37 && b.len() >= 3 && hex_value(b[1]) is Some && hex_value(b[2]) is Some {
        seq![(hex_value(b[1])->0 * 16 + hex_value(b[2])->0) as u8] + percent_decode_bytes(
            b.skip(3),
        )
    } else {
        seq![b[0]] + percent_decode_bytes(b.skip(1))
    }
}

/// What `percent_decode_str(s).decode_utf8_lossy()` gives when the decoded
/// bytes are not valid UTF-8 (invalid sequences become U+FFFD).
pub uninterp spec fn percent_decode_lossy(s: Seq<char>) -> Seq<char>;

/// The percent-decoding of `s`, read back as UTF-8.
pub open spec fn decode_uri(s: Seq<char>) -> Seq<char> {
    let b = percent_decode_bytes(encode_utf8(s));
    if valid_utf8(b) {
        decode_utf8(b)
    } else {
        percent_decode_lossy(s)
    }
}

/// `percent_encode_byte(b)` from the `percent-encoding` crate: the `%XX`
/// form of a byte, with upper-case hexadecimal digits (the crate's table).
#[verifier::external_body]
fn percent_encode_byte(b: u8) -> (r: &'static str)
    ensures
        r@ == seq!['%', hex_upper(b / 16), hex_upper(b % 16)],
{
    percent_encoding::percent_encode_byte(b)
}

/// `b` is an unreserved byte.
fn unreserved(b: u8) -> (r: bool)
    ensures
        r == is_unreserved(b),
{
    (48 <= b && b <= 57) || (65 <= b && b <= 90) || (97 <= b && b <= 122) || b == 45 || b == 95
        || b == 46 || b == 126
}

/// Percent-encodes a `confluence://` URI component: the UTF-8 bytes of `s`
/// outside the RFC 3986 unreserved set (`A-Za-z0-9-_.~`) are written as `%XX`,
/// as `utf8_percent_encode` does with that set.
pub fn encode_uri_component(s: &str) -> (r: Vec<char>)
    ensures
        r@ == encode_uri(s@),
{
    let bytes = s.as_bytes();
    let ghost bs = bytes@;
    assert(bs == encode_utf8(s@));
    let mut out: Vec<char> = Vec::new();
    let mut i: usize = 0;
    assert(bs.skip(0) =~= bs);
    assert(out@ + encode_bytes(bs) =~= encode_bytes(bs));
    while i < bytes.len()
        invariant
            i <= bytes@.len(),
            bs == bytes@,
            encode_bytes(bs) == out@ + encode_bytes(bs.skip(i as int)),
        decreases bytes.len() - i,
    {
        let b = bytes[i];
        let ghost before = out@;
        proof {
            assert(bs.skip(i as int)[0] == b);
            assert(bs.skip(i as int).drop_first() =~= bs.skip(i + 1));
        }
        if unreserved(b) {
            out.push(b as char);
        } else {
            crate::text::push_str(&mut out, percent_encode_byte(b));
        }
        proof {
            assert(out@ =~= before + encode_byte(b));
            assert(encode_bytes(bs) =~= out@ + encode_bytes(bs.skip(i + 1)));
        }
        i += 1;
    }
    assert(bs.skip(i as int) =~= Seq::<u8>::empty());
    assert(out@ + Seq::<char>::empty() =~= out@);
    out
}

/// `percent_decode_str(s).decode_utf8_lossy()` from the `percent-encoding`
/// crate. The contract states the byte-level decoding exactly and, when the
/// bytes are valid UTF-8, the decoded characters (lossy decoding changes
/// nothing then); for invalid bytes it only names the result.
#[verifier::external_body]
pub(crate) fn decode_uri_component(s: &str) -> (r: String)
    ensures
        valid_utf8(percent_decode_bytes(encode_utf8(s@))) ==> r@ == decode_utf8(
            percent_decode_bytes(encode_utf8(s@)),
        ),
        !valid_utf8(percent_decode_bytes(encode_utf8(s@))) ==> r@ == percent_decode_lossy(s@),
{
    percent_decode_str(s).decode_utf8_lossy().into_owned()
}

// ---------------------------------------------------------------------------
// Round trip
// ---------------------------------------------------------------------------

proof fn lemma_encode_byte_ascii(b: u8)
    ensures
        is_ascii_chars(encode_byte(b)),
        forall|i: int| 0 <= i < encode_byte(b).len() ==> encode_byte(b)[i] != '&'
            && encode_byte(b)[i] != '=' && encode_byte(b)[i] != '?',
{
}

pub proof fn lemma_encode_bytes_ascii(bs: Seq<u8>)
    ensures
        is_ascii_chars(encode_bytes(bs)),
        forall|i: int|
            0 <= i < encode_bytes(bs).len() ==> encode_bytes(bs)[i] != '&' && encode_bytes(bs)[i]
                != '=' && encode_bytes(bs)[i] != '?',
    decreases bs.len(),
{
    if bs.len() > 0 {
        lemma_encode_byte_ascii(bs[0]);
        lemma_encode_bytes_ascii(bs.drop_first());
        let a = encode_byte(bs[0]);
        let r = encode_bytes(bs.drop_first());
        assert forall|i: int| 0 <= i < (a + r).len() implies '\0' <= #[trigger] (a + r)[i] <= '\u{7f}' by {
            if i < a.len() {
                assert((a + r)[i] == a[i]);
            } else {
                assert((a + r)[i] == r[i - a.len()]);
            }
        }
        assert forall|i: int| 0 <= i < (a + r).len() implies (a + r)[i] != '&' && (a + r)[i]
            != '=' && (a + r)[i] != '?' by {
            if i < a.len() {
                assert((a + r)[i] == a[i]);
            } else {
                assert((a + r)[i] == r[i - a.len()]);
            }
        }
    }
}

/// The bytes of an ASCII character sequence.
pub open spec fn ascii_bytes(s: Seq<char>) -> Seq<u8> {
    s.map_values(|c: char| c as u8)
}

proof fn lemma_ascii_utf8(s: Seq<char>)
    requires
        is_ascii_chars(s),
    ensures
        encode_utf8(s) == ascii_bytes(s),
{
    vstd::utf8::is_ascii_chars_encode_utf8(s);
    assert(encode_utf8(s) =~= ascii_bytes(s));
}

proof fn lemma_decode_encoded_bytes(bs: Seq<u8>)
    ensures
        percent_decode_bytes(ascii_bytes(encode_bytes(bs))) == bs,
    decreases bs.len(),
{
    if bs.len() == 0 {
        assert(ascii_bytes(encode_bytes(bs)) =~= Seq::<u8>::empty());
    } else {
        let b = bs[0];
        let rest = bs.drop_first();
        lemma_decode_encoded_bytes(rest);
        let head = encode_byte(b);
        let tail = encode_bytes(rest);
        let all = ascii_bytes(head + tail);
        assert(ascii_bytes(encode_bytes(bs)) == all);
        if is_unreserved(b) {
            assert((b as char) as u8 == b);
            assert(all[0] == b);
            assert(all.skip(1) =~= ascii_bytes(tail));
        } else {
            let hi = b / 16;
            let lo = b % 16;
            assert(all[0] == 37u8);
            assert(all[1] == hex_upper(hi) as u8);
            assert(all[2] == hex_upper(lo) as u8);
            assert(hex_value(all[1]) == Some(hi));
            assert(hex_value(all[2]) == Some(lo));
            assert(all.skip(3) =~= ascii_bytes(tail));
        }
        assert(seq![b] + rest =~= bs);
    }
}

/// Decoding an encoded component gives it back.
pub proof fn lemma_uri_roundtrip(s: Seq<char>)
    ensures
        decode_uri(encode_uri(s)) == s,
        forall|i: int|
            0 <= i < encode_uri(s).len() ==> encode_uri(s)[i] != '&' && encode_uri(s)[i] != '='
                && encode_uri(s)[i] != '?',
{
    let bs = encode_utf8(s);
    lemma_encode_bytes_ascii(bs);
    lemma_ascii_utf8(encode_bytes(bs));
    lemma_decode_encoded_bytes(bs);
    vstd::utf8::encode_utf8_valid_utf8(s);
    vstd::utf8::encode_utf8_decode_utf8(s);
}

} // verus!
