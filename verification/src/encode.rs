//! Percent-encoding of query parameters.

use vstd::prelude::*;
use vstd::utf8::encode_utf8;
use crate::text::push_char;

verus! {

/// Bytes that stand for themselves in a query parameter: ASCII letters,
/// digits and `-`, `.`, `_`, `~`.
pub open spec fn is_unreserved(b: u8) -> bool {
    ||| 97 <= b <= 122
    ||| 65 <= b <= 90
    ||| 48 <= b <= 57
    ||| b == 45
    ||| b == 46
    ||| b == 95
    ||| b == 126
}

/// The upper-case hexadecimal digit for `n < 16`.
pub open spec fn hex_digit(n: u8) -> char {
    if n < 10 {
        (48 + n) as char
    } else {
        (55 + n) as char
    }
}

/// The encoding of one byte: itself when unreserved, else `%` and two
/// upper-case hexadecimal digits.
pub open spec fn encode_byte(b: u8) -> Seq<char> {
    if is_unreserved(b) {
        seq![b as char]
    } else {
        seq!['%', hex_digit(b / 16), hex_digit(b % 16)]
    }
}

/// The percent-encoding of a byte string.
pub open spec fn percent_encoding(bs: Seq<u8>) -> Seq<char>
    decreases bs.len(),
{
    if bs.len() == 0 {
        seq![]
    } else {
        encode_byte(bs[0]) + percent_encoding(bs.drop_first())
    }
}

/// The value of a hexadecimal digit of either case.
pub open spec fn hex_value(c: char) -> int {
    if '0' <= c <= '9' {
        c as int - 48
    } else if 'A' <= c <= 'F' {
        c as int - 55
    } else if 'a' <= c <= 'f' {
        c as int - 87
    } else {
        0
    }
}

/// Percent-decoding: `%` and two hexadecimal digits stand for one byte, any
/// other character for its code truncated to a byte.
pub open spec fn percent_decoding(cs: Seq<char>) -> Seq<u8>
    decreases cs.len(),
{
    if cs.len() == 0 {
        seq![]
    } else if cs[0] == '%' && cs.len() >= 3 {
        seq![(hex_value(cs[1]) * 16 + hex_value(cs[2])) as u8] + percent_decoding(cs.skip(3))
    } else {
        seq![cs[0] as u8] + percent_decoding(cs.skip(1))
    }
}

/// A character that may stand in an encoded query parameter.
pub open spec fn is_url_safe(c: char) -> bool {
    ||| is_unreserved(c as u8) && (c as u32) < 128
    ||| c == '%'
}

proof fn lemma_encoding_push(bs: Seq<u8>, b: u8)
    ensures
        percent_encoding(bs.push(b)) == percent_encoding(bs) + encode_byte(b),
    decreases bs.len(),
{
    if bs.len() == 0 {
        assert(bs.push(b).drop_first() =~= Seq::<u8>::empty());
        assert(bs.push(b)[0] == b);
        assert(percent_encoding(Seq::<u8>::empty()) == Seq::<char>::empty());
        assert(encode_byte(b) + Seq::<char>::empty() =~= encode_byte(b));
        assert(percent_encoding(bs) == Seq::<char>::empty());
    } else {
        assert(bs.push(b).drop_first() =~= bs.drop_first().push(b));
        lemma_encoding_push(bs.drop_first(), b);
        assert(percent_encoding(bs.push(b)) =~= percent_encoding(bs) + encode_byte(b));
    }
}

/// Decoding an encoding gives back the bytes that were encoded: the encoding
/// loses nothing, so distinct strings give distinct query parameters.
pub proof fn lemma_encoding_round_trip(bs: Seq<u8>)
    ensures
        percent_decoding(percent_encoding(bs)) == bs,
    decreases bs.len(),
{
    if bs.len() > 0 {
        let b = bs[0];
        let e = encode_byte(b);
        let rest = percent_encoding(bs.drop_first());
        lemma_encoding_round_trip(bs.drop_first());
        let all = e + rest;
        if is_unreserved(b) {
            assert(all[0] == b as char);
            assert(all.skip(1) =~= rest);
            assert((b as char) as u8 == b);
        } else {
            assert(all[0] == '%');
            assert(all.skip(3) =~= rest);
            let hi = b / 16;
            let lo = b % 16;
            assert(hex_value(hex_digit(hi)) == hi);
            assert(hex_value(hex_digit(lo)) == lo);
        }
        assert(percent_decoding(all) =~= bs);
    }
}

/// Every character of an encoding may stand in a query parameter.
pub proof fn lemma_encoding_safe(bs: Seq<u8>)
    ensures
        forall|i: int|
            0 <= i < percent_encoding(bs).len() ==> is_url_safe(#[trigger] percent_encoding(bs)[i]),
    decreases bs.len(),
{
    if bs.len() > 0 {
        lemma_encoding_safe(bs.drop_first());
        let e = encode_byte(bs[0]);
        let rest = percent_encoding(bs.drop_first());
        assert(percent_encoding(bs) == e + rest);
        assert forall|i: int| 0 <= i < percent_encoding(bs).len() implies is_url_safe(
            #[trigger] percent_encoding(bs)[i],
        ) by {
            if i >= e.len() {
                assert(percent_encoding(bs)[i] == rest[i - e.len()]);
            }
        }
    }
}

/// Encoding two byte strings one after the other gives the encoding of the
/// two together.
pub proof fn lemma_encoding_concat(bs1: Seq<u8>, bs2: Seq<u8>)
    ensures
        percent_encoding(bs1 + bs2) == percent_encoding(bs1) + percent_encoding(bs2),
    decreases bs1.len(),
{
    if bs1.len() == 0 {
        assert(bs1 + bs2 =~= bs2);
        assert(Seq::<char>::empty() + percent_encoding(bs2) =~= percent_encoding(bs2));
    } else {
        lemma_encoding_concat(bs1.drop_first(), bs2);
        assert((bs1 + bs2).drop_first() =~= bs1.drop_first() + bs2);
        assert((bs1 + bs2)[0] == bs1[0]);
        assert(percent_encoding(bs1 + bs2) =~= percent_encoding(bs1) + percent_encoding(bs2));
    }
}

/// The UTF-8 encoding of two strings one after the other is the two
/// encodings one after the other.
pub proof fn lemma_utf8_concat(a: Seq<char>, b: Seq<char>)
    ensures
        encode_utf8(a + b) == encode_utf8(a) + encode_utf8(b),
    decreases a.len(),
{
    if a.len() == 0 {
        assert(a + b =~= b);
        assert(Seq::<u8>::empty() + encode_utf8(b) =~= encode_utf8(b));
    } else {
        lemma_utf8_concat(a.drop_first(), b);
        assert((a + b).drop_first() =~= a.drop_first() + b);
        assert((a + b)[0] == a[0]);
        assert(encode_utf8(a + b) =~= encode_utf8(a) + encode_utf8(b));
    }
}

/// What `url_encode` gives for two strings one after the other is what it
/// gives for each, one after the other.
pub proof fn lemma_url_encode_concat(a: Seq<char>, b: Seq<char>)
    ensures
        percent_encoding(encode_utf8(a + b)) == percent_encoding(encode_utf8(a))
            + percent_encoding(encode_utf8(b)),
{
    lemma_utf8_concat(a, b);
    lemma_encoding_concat(encode_utf8(a), encode_utf8(b));
}

/// An upper-case hexadecimal digit.
pub open spec fn is_upper_hex(c: char) -> bool {
    ('0' <= c <= '9') || ('A' <= c <= 'F')
}

/// In an encoding every `%` is followed by two upper-case hexadecimal
/// digits.
pub proof fn lemma_encoding_escapes(bs: Seq<u8>)
    ensures
        forall|i: int|
            0 <= i < percent_encoding(bs).len() && #[trigger] percent_encoding(bs)[i] == '%' ==> i
                + 2 < percent_encoding(bs).len() && is_upper_hex(percent_encoding(bs)[i + 1])
                && is_upper_hex(percent_encoding(bs)[i + 2]),
    decreases bs.len(),
{
    if bs.len() > 0 {
        lemma_encoding_escapes(bs.drop_first());
        let b = bs[0];
        let e = encode_byte(b);
        let rest = percent_encoding(bs.drop_first());
        let all = percent_encoding(bs);
        assert(all == e + rest);
        assert forall|i: int| 0 <= i < all.len() && #[trigger] all[i] == '%' implies i + 2
            < all.len() && is_upper_hex(all[i + 1]) && is_upper_hex(all[i + 2]) by {
            if i >= e.len() {
                assert(all[i] == rest[i - e.len()]);
                assert(all[i + 1] == rest[i + 1 - e.len()]);
                assert(all[i + 2] == rest[i + 2 - e.len()]);
            } else if is_unreserved(b) {
                assert(all[i] == b as char);
            } else {
                assert(b / 16 < 16 && b % 16 < 16);
                assert(all[1] == hex_digit(b / 16));
                assert(all[2] == hex_digit(b % 16));
            }
        }
    }
}

fn hex_digit_exec(n: u8) -> (c: char)
    requires
        n < 16,
    ensures
        c == hex_digit(n),
{
    if n < 10 {
        (48 + n) as char
    } else {
        (55 + n) as char
    }
}

/// Percent-encodes a string, byte by byte of its UTF-8 encoding, so that it
/// can be passed safely as a query parameter.
pub fn url_encode(input: &str) -> (encoded: String)
    ensures
        encoded@ == percent_encoding(encode_utf8(input@)),
{
    let bytes = input.as_bytes();
    let mut encoded = String::new();
    let mut i: usize = 0;
    assert(bytes@.take(0) =~= Seq::<u8>::empty());
    while i < bytes.len()
        invariant
            bytes@ == encode_utf8(input@),
            i <= bytes@.len(),
            encoded@ == percent_encoding(bytes@.take(i as int)),
        decreases bytes@.len() - i,
    {
        let b = bytes[i];
        let ghost before = encoded@;
        if (97 <= b && b <= 122) || (65 <= b && b <= 90) || (48 <= b && b <= 57) || b == 45 || b
            == 46 || b == 95 || b == 126 {
            push_char(&mut encoded, b as char);
        } else {
            push_char(&mut encoded, '%');
            push_char(&mut encoded, hex_digit_exec(b / 16));
            push_char(&mut encoded, hex_digit_exec(b % 16));
        }
        proof {
            assert(bytes@.take(i + 1) =~= bytes@.take(i as int).push(b));
            lemma_encoding_push(bytes@.take(i as int), b);
            assert(encoded@ =~= before + encode_byte(b));
        }
        i = i + 1;
    }
    assert(bytes@.take(bytes@.len() as int) =~= bytes@);
    encoded
}

} // verus!
