//! Lowercase hexadecimal text for byte strings, and its decoding.

use vstd::prelude::*;
use vstd::string::StrSliceExecFns;
use vstd::string::StringExecFns;
use vstd::utf8::encode_utf8;
use vstd::utf8::is_ascii_chars;

verus! {

/// The lowercase hexadecimal digit for a value below 16.
pub open spec fn hex_digit(n: int) -> char {
    if n < 10 {
        (48 + n) as char
    } else {
        (87 + n) as char
    }
}

/// Each byte as two lowercase hexadecimal digits, high half first.
pub open spec fn hex_lower(bytes: Seq<u8>) -> Seq<char> {
    Seq::new(
        2 * bytes.len(),
        |i: int|
            if i % 2 == 0 {
                hex_digit(bytes[i / 2] as int / 16)
            } else {
                hex_digit(bytes[i / 2] as int % 16)
            },
    )
}

/// The value of one hexadecimal digit byte, upper or lower case.
pub open spec fn hex_value(b: u8) -> Option<u8> {
    if 48 <= b <= 57 {
        Some((b - 48) as u8)
    } else if 97 <= b <= 102 {
        Some((b - 87) as u8)
    } else if 65 <= b <= 70 {
        Some((b - 55) as u8)
    } else {
        None
    }
}

/// What a hexadecimal text decodes to: `None` where its length is odd or a
/// byte of it is no hexadecimal digit.
pub open spec fn hex_decoded(text: Seq<u8>) -> Option<Seq<u8>> {
    if text.len() % 2 != 0 || exists|i: int| 0 <= i < text.len() && (#[trigger] hex_value(text[i])) is None {
        None
    } else {
        Some(
            Seq::new(
                text.len() / 2,
                |i: int|
                    (hex_value(text[2 * i])->0 * 16 + hex_value(text[2 * i + 1])->0) as u8,
            ),
        )
    }
}

/// Encodes bytes as lowercase hexadecimal text.
pub fn to_hex(bytes: &[u8]) -> (text: String)
    ensures
        text@ == hex_lower(bytes@),
{
    let digits = "0123456789abcdef";
    proof {
        reveal_strlit("0123456789abcdef");
    }
    assert(digits.is_ascii());
    let mut text = String::new();
    let mut i: usize = 0;
    while i < bytes.len()
        invariant
            i <= bytes@.len(),
            digits@ == "0123456789abcdef"@,
            digits.is_ascii(),
            digits@.len() == 16,
            forall|k: int| 0 <= k < 16 ==> #[trigger] digits@[k] == hex_digit(k),
            text@ == hex_lower(bytes@.take(i as int)),
        decreases bytes@.len() - i,
    {
        let b = bytes[i];
        let high: usize = (b / 16) as usize;
        let low: usize = (b % 16) as usize;
        let hs = digits.substring_ascii(high, high + 1);
        let ls = digits.substring_ascii(low, low + 1);
        text.append(hs);
        text.append(ls);
        proof {
            let prev = bytes@.take(i as int);
            let next = bytes@.take(i + 1);
            assert(hs@ =~= seq![hex_digit(high as int)]);
            assert(ls@ =~= seq![hex_digit(low as int)]);
            assert(hex_lower(next) =~= hex_lower(prev) + seq![hex_digit(b as int / 16), hex_digit(b as int % 16)]);
        }
        i = i + 1;
    }
    assert(bytes@.take(bytes@.len() as int) =~= bytes@);
    text
}

/// The message of the error that `hex::decode` gives on a text it refuses.
pub uninterp spec fn hex_error_text(text: Seq<u8>) -> Seq<char>;

/// Decodes hexadecimal text (`hex::decode`); the error is the crate's
/// message, which for a text of odd length is "Odd number of digits".
#[verifier::external_body]
pub(crate) fn decode_hex(text: &str) -> (bytes: Result<Vec<u8>, String>)
    ensures
        match bytes {
            Ok(v) => hex_decoded(encode_utf8(text@)) == Some(v@),
            Err(e) => {
                &&& hex_decoded(encode_utf8(text@)) is None
                &&& e@ == hex_error_text(encode_utf8(text@))
                &&& encode_utf8(text@).len() % 2 != 0 ==> e@ == "Odd number of digits"@
            },
        },
{
    ::hex::decode(text).map_err(|e| e.to_string())
}

/// Lowercase hexadecimal text is made of ASCII characters.
pub proof fn lemma_hex_lower_ascii(bytes: Seq<u8>)
    ensures
        is_ascii_chars(hex_lower(bytes)),
{
}

/// Decoding the hexadecimal text of any bytes gives back those bytes.
pub proof fn lemma_hex_round_trip(bytes: Seq<u8>)
    ensures
        hex_decoded(encode_utf8(hex_lower(bytes))) == Some(bytes),
{
    let chars = hex_lower(bytes);
    vstd::utf8::is_ascii_chars_encode_utf8(chars);
    let text = encode_utf8(chars);
    assert forall|i: int| 0 <= i < text.len() implies (#[trigger] hex_value(text[i])) is Some
        && hex_value(text[i])->0 == (if i % 2 == 0 { bytes[i / 2] as int / 16 } else { bytes[i / 2] as int % 16 }) by {
        assert(text[i] == chars[i] as u8);
    }
    let decoded = hex_decoded(text).unwrap();
    assert forall|j: int| 0 <= j < bytes.len() implies decoded[j] == bytes[j] by {
        assert(hex_value(text[2 * j]) is Some);
        assert(hex_value(text[2 * j + 1]) is Some);
        assert((2 * j) / 2 == j && (2 * j) % 2 == 0);
        assert((2 * j + 1) / 2 == j && (2 * j + 1) % 2 == 1);
    }
    assert(decoded =~= bytes);
}

} // verus!
