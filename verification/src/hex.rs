//! Lowercase hexadecimal encoding of byte strings.

use vstd::prelude::*;

use crate::text::push_char;
use vstd::string::StringSliceAdditionalSpecFns;

verus! {

/// The lowercase hexadecimal digit for a value below sixteen.
pub open spec fn hex_digit_char(n: u8) -> char
    recommends
        n < 16,
{
    if n < 10 {
        (48 + n) as char
    } else {
        (87 + n) as char
    }
}

/// Lowercase hexadecimal text of a byte string, two digits per byte.
pub open spec fn hex_text(bytes: Seq<u8>) -> Seq<char>
    decreases bytes.len(),
{
    if bytes.len() == 0 {
        Seq::empty()
    } else {
        hex_text(bytes.drop_last()) + seq![
            hex_digit_char(bytes.last() >> 4),
            hex_digit_char(bytes.last() & 0x0f),
        ]
    }
}

/// The value of one hexadecimal digit byte (either letter case).
pub open spec fn hex_value(byte: u8) -> Option<u8> {
    if 48 <= byte <= 57 {
        Some((byte - 48) as u8)
    } else if 97 <= byte <= 102 {
        Some((byte - 87) as u8)
    } else if 65 <= byte <= 70 {
        Some((byte - 55) as u8)
    } else {
        None
    }
}

/// The bytes spelled by pairs of hexadecimal digits, or `None` when the text
/// has odd length or a non-digit byte.
pub open spec fn hex_bytes(text: Seq<u8>) -> Option<Seq<u8>>
    decreases text.len(),
{
    if text.len() % 2 == 1 {
        None
    } else if text.len() == 0 {
        Some(Seq::empty())
    } else {
        let n = text.len() as int;
        match (hex_bytes(text.subrange(0, n - 2)), hex_value(text[n - 2]), hex_value(text[n - 1])) {
            (Some(prefix), Some(high), Some(low)) => Some(prefix.push((high * 16 + low) as u8)),
            _ => None,
        }
    }
}

fn hex_digit(n: u8) -> (c: char)
    requires
        n < 16,
    ensures
        c == hex_digit_char(n),
{
    if n < 10 {
        (48 + n) as char
    } else {
        (87 + n) as char
    }
}

/// Encodes bytes as lowercase hexadecimal.
pub fn encode(bytes: &[u8]) -> (encoded: String)
    ensures
        encoded@ == hex_text(bytes@),
{
    let mut encoded = String::new();
    let mut i: usize = 0;
    while i < bytes.len()
        invariant
            i <= bytes.len(),
            encoded@ == hex_text(bytes@.subrange(0, i as int)),
        decreases bytes.len() - i,
    {
        let byte = bytes[i];
        assert(byte >> 4 < 16) by (bit_vector);
        assert(byte & 0x0f < 16) by (bit_vector);
        push_char(&mut encoded, hex_digit(byte >> 4));
        push_char(&mut encoded, hex_digit(byte & 0x0f));
        assert(bytes@.subrange(0, i + 1).drop_last() =~= bytes@.subrange(0, i as int));
        i = i + 1;
    }
    assert(bytes@.subrange(0, bytes.len() as int) =~= bytes@);
    encoded
}

/// Converts one hexadecimal digit.
fn digit(byte: u8) -> (value: Option<u8>)
    ensures
        value == hex_value(byte),
{
    if 48 <= byte && byte <= 57 {
        Some(byte - 48)
    } else if 97 <= byte && byte <= 102 {
        Some(byte - 87)
    } else if 65 <= byte && byte <= 70 {
        Some(byte - 55)
    } else {
        None
    }
}

/// Decodes hexadecimal bytes.
pub fn decode(value: &str) -> (decoded: Option<Vec<u8>>)
    ensures
        decoded.is_some() == hex_bytes(value.spec_bytes()).is_some(),
        decoded matches Some(d) ==> Some(d@) == hex_bytes(value.spec_bytes()),
{
    let bytes = value.as_bytes();
    if bytes.len() % 2 == 1 {
        return None;
    }
    let mut decoded: Vec<u8> = Vec::new();
    let mut i: usize = 0;
    while i < bytes.len()
        invariant
            i <= bytes.len(),
            i % 2 == 0,
            bytes.len() % 2 == 0,
            bytes@ == value.spec_bytes(),
            hex_bytes(bytes@.subrange(0, i as int)) == Some(decoded@),
        decreases bytes.len() - i,
    {
        let high = digit(bytes[i]);
        let low = digit(bytes[i + 1]);
        let ghost next = bytes@.subrange(0, i + 2);
        assert(next.subrange(0, i as int) =~= bytes@.subrange(0, i as int));
        match (high, low) {
            (Some(high), Some(low)) => {
                assert(high * 16 + low < 256) by (nonlinear_arith)
                    requires high < 16, low < 16;
                decoded.push(high * 16 + low);
            },
            _ => {
                proof {
                    lemma_hex_bytes_none_extends(bytes@, (i + 2) as int);
                }
                return None;
            },
        }
        i = i + 2;
    }
    assert(bytes@.subrange(0, bytes.len() as int) =~= bytes@);
    Some(decoded)
}

/// A bad digit pair inside an even-length prefix makes every longer
/// even-length text undecodable.
proof fn lemma_hex_bytes_none_extends(text: Seq<u8>, k: int)
    requires
        2 <= k <= text.len(),
        k % 2 == 0,
        text.len() % 2 == 0,
        hex_bytes(text.subrange(0, k)) is None,
    ensures
        hex_bytes(text) is None,
    decreases text.len() - k,
{
    if k == text.len() {
        assert(text.subrange(0, k) =~= text);
    } else {
        let next = text.subrange(0, k + 2);
        assert(next.subrange(0, k) =~= text.subrange(0, k));
        lemma_hex_bytes_none_extends(text, k + 2);
    }
}


/// A byte upper-cased if it is an ASCII small letter (`u8::to_ascii_uppercase`).
pub open spec fn ascii_upper(b: u8) -> u8 {
    if 97 <= b <= 122 {
        (b - 32) as u8
    } else {
        b
    }
}

/// Whether some byte of a text is not a hexadecimal digit.
pub open spec fn has_non_digit(text: Seq<u8>) -> bool {
    exists|i: int| 0 <= i < text.len() && hex_value(#[trigger] text[i]) is None
}

/// Decoding fails exactly when the text has odd length or a byte that is not
/// a hexadecimal digit.
pub proof fn hex_decoding_fails_exactly(text: Seq<u8>)
    ensures
        hex_bytes(text) is None <==> (text.len() % 2 == 1 || has_non_digit(text)),
    decreases text.len(),
{
    if text.len() % 2 == 0 && text.len() > 0 {
        let n = text.len() as int;
        let prefix = text.subrange(0, n - 2);
        hex_decoding_fails_exactly(prefix);
        if has_non_digit(prefix) {
            let i = choose|i: int| 0 <= i < prefix.len() && hex_value(#[trigger] prefix[i]) is None;
            assert(hex_value(text[i]) is None);
        }
        if has_non_digit(text) {
            let i = choose|i: int| 0 <= i < text.len() && hex_value(#[trigger] text[i]) is None;
            if i < n - 2 {
                assert(hex_value(prefix[i]) is None);
            }
        }
    }
}

/// Upper-casing a text does not change what it decodes to.
pub proof fn hex_decoding_ignores_case(text: Seq<u8>)
    ensures
        hex_bytes(text.map_values(|b: u8| ascii_upper(b))) == hex_bytes(text),
    decreases text.len(),
{
    let upper = text.map_values(|b: u8| ascii_upper(b));
    if text.len() % 2 == 0 && text.len() > 0 {
        let n = text.len() as int;
        let prefix = text.subrange(0, n - 2);
        hex_decoding_ignores_case(prefix);
        assert(upper.subrange(0, n - 2) =~= prefix.map_values(|b: u8| ascii_upper(b)));
        assert(hex_value(upper[n - 2]) == hex_value(text[n - 2]));
        assert(hex_value(upper[n - 1]) == hex_value(text[n - 1]));
    }
}

} // verus!

verus! {

proof fn lemma_hex_digit_value(n: u8)
    requires
        n < 16,
    ensures
        (hex_digit_char(n) as u32) < 128,
        hex_value(hex_digit_char(n) as u8) == Some(n),
{
}

/// Hexadecimal text is ASCII.
pub proof fn lemma_hex_text_ascii(bytes: Seq<u8>)
    ensures
        vstd::utf8::is_ascii_chars(hex_text(bytes)),
        hex_text(bytes).len() == 2 * bytes.len(),
    decreases bytes.len(),
{
    if bytes.len() > 0 {
        lemma_hex_text_ascii(bytes.drop_last());
        let last = bytes.last();
        assert(last >> 4 < 16) by (bit_vector);
        assert(last & 0x0f < 16) by (bit_vector);
        lemma_hex_digit_value(last >> 4);
        lemma_hex_digit_value(last & 0x0f);
        let pair = seq![hex_digit_char(last >> 4), hex_digit_char(last & 0x0f)];
        assert(vstd::utf8::is_ascii_chars(pair));
        vstd::utf8::is_ascii_chars_concat(hex_text(bytes), hex_text(bytes.drop_last()), pair);
    }
}

/// Decoding the UTF-8 bytes of encoded text gives those bytes back.
pub proof fn hex_round_trip(bytes: Seq<u8>)
    ensures
        hex_bytes(vstd::utf8::encode_utf8(hex_text(bytes))) == Some(bytes),
    decreases bytes.len(),
{
    let text = hex_text(bytes);
    lemma_hex_text_ascii(bytes);
    vstd::utf8::is_ascii_chars_encode_utf8(text);
    let encoded = vstd::utf8::encode_utf8(text);
    if bytes.len() == 0 {
        assert(encoded.len() == 0);
    } else {
        let rest = bytes.drop_last();
        let last = bytes.last();
        hex_round_trip(rest);
        lemma_hex_text_ascii(rest);
        vstd::utf8::is_ascii_chars_encode_utf8(hex_text(rest));
        let n = encoded.len() as int;
        assert(encoded.subrange(0, n - 2) =~= vstd::utf8::encode_utf8(hex_text(rest)));
        assert(last >> 4 < 16) by (bit_vector);
        assert(last & 0x0f < 16) by (bit_vector);
        lemma_hex_digit_value(last >> 4);
        lemma_hex_digit_value(last & 0x0f);
        assert(text[n - 2] == hex_digit_char(last >> 4));
        assert(text[n - 1] == hex_digit_char(last & 0x0f));
        assert(((last >> 4) * 16 + (last & 0x0f)) as u8 == last) by (bit_vector);
        assert(rest.push(last) =~= bytes);
    }
}

} // verus!
