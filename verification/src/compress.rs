//! Compression of messages and the header that agrees on its level.
use std::io::Write;

use vstd::prelude::*;

use crate::text::{
    all_digits, digits_value, digits_value_grows, is_digit, latin_text, unsigned_number,
    without_plus,
};

verus! {

/// What bytes unpack to as a DEFLATE stream, or nothing when unpacking fails.
pub uninterp spec fn inflated(bytes: Seq<u8>) -> Option<Seq<u8>>;

/// The DEFLATE stream that a message packs to at a compression level.
pub uninterp spec fn deflated(msg: Seq<u8>, level: u32) -> Seq<u8>;

/// The view of bytes that may be missing.
pub open spec fn optional_bytes(b: Option<Vec<u8>>) -> Option<Seq<u8>> {
    match b {
        Some(v) => Some(v@),
        None => None,
    }
}

/// `flate2::write::DeflateDecoder`, fed with the whole of `msg` and finished,
/// hands out what it has unpacked, or fails; which of the two, and what comes
/// out, goes by the bytes alone.
#[verifier::external_body]
pub(crate) fn inflate(msg: &[u8]) -> (r: Option<Vec<u8>>)
    ensures
        optional_bytes(r) == inflated(msg@),
{
    let mut decompressor = flate2::write::DeflateDecoder::new(vec![]);
    decompressor.write_all(msg).ok()?;
    decompressor.finish().ok()
}

/// `flate2::write::DeflateEncoder`, fed with the whole of `msg` and finished,
/// hands out a DEFLATE stream that unpacks to `msg` again, whatever the level.
/// Writing to a vector does not fail, and neither does the encoder at levels up
/// to ten. Levels above ten fail an assertion in the encoder.
#[verifier::external_body]
pub(crate) fn deflate(msg: &[u8], level: u32) -> (r: Option<Vec<u8>>)
    requires
        level <= 10,
    ensures
        r is Some,
        r matches Some(out) ==> out@ == deflated(msg@, level),
        r matches Some(out) ==> inflated(out@) == Some(msg@),
{
    let mut compressor = flate2::write::DeflateEncoder::new(
        vec![],
        flate2::Compression::new(level),
    );
    compressor.write_all(msg).ok()?;
    compressor.finish().ok()
}

/// `flate2::Compression::default` stands for level six.
#[verifier::external_body]
pub(crate) fn default_level() -> (r: u32)
    ensures
        r == 6,
{
    flate2::Compression::default().level()
}

/// Turns an encoded message into the frame that is sent, or nothing when the
/// message could not be encoded. The frame unpacks to the message again,
/// whatever the level.
pub fn pack(encoded: Option<Vec<u8>>, level: u32) -> (r: Option<Vec<u8>>)
    requires
        level <= 10,
    ensures
        r is Some <==> encoded is Some,
        r matches Some(frame) ==> frame@ == deflated(encoded->0@, level),
        r matches Some(frame) ==> inflated(frame@) == Some(encoded->0@),
{
    match encoded {
        Some(msg) => deflate(msg.as_slice(), level),
        None => None,
    }
}

/// Turns a received frame into the encoded message, or nothing when the frame
/// does not unpack.
pub fn unpack(frame: &[u8]) -> (r: Option<Vec<u8>>)
    ensures
        optional_bytes(r) == inflated(frame@),
{
    inflate(frame)
}

/// The compression level that a header value asks for: a decimal number up to
/// nine.
pub open spec fn header_level(value: Seq<u8>) -> Option<u32> {
    match unsigned_number(latin_text(value)) {
        Some(n) => if n <= 9 {
            Some(n as u32)
        } else {
            None
        },
        None => None,
    }
}

/// Reads the value of an `X-HL-Compress` header.
pub fn parse_level(value: &[u8]) -> (r: Option<u32>)
    ensures
        r == header_level(value@),
{
    let ghost text = latin_text(value@);
    let start: usize = if value.len() > 0 && value[0] == 43u8 {
        1
    } else {
        0
    };
    let ghost digits = without_plus(text);
    proof {
        if value@.len() > 0 {
            assert(text[0] == value@[0] as char);
        }
        assert(digits =~= text.skip(start as int));
    }
    if start >= value.len() {
        return None;
    }
    let mut level: u32 = 0;
    let mut i: usize = start;
    while i < value.len()
        invariant
            start <= i <= value@.len(),
            start <= 1,
            text == latin_text(value@),
            digits == without_plus(text),
            digits == text.skip(start as int),
            level <= 9,
            level == digits_value(digits.take(i - start)),
            forall|j: int| 0 <= j < i - start ==> is_digit(#[trigger] digits[j]),
        decreases value@.len() - i,
    {
        let b = value[i];
        assert(digits[i - start] == b as char);
        if b < 48 || b > 57 {
            assert(!is_digit(digits[i - start]));
            return None;
        }
        let next: u32 = level * 10 + (b - 48) as u32;
        proof {
            let upto = digits.take(i - start + 1);
            assert(upto.drop_last() =~= digits.take(i - start));
            assert(upto.last() == b as char);
        }
        if next > 9 {
            proof {
                if all_digits(digits) {
                    digits_value_grows(digits, i - start + 1);
                }
            }
            return None;
        }
        level = next;
        i += 1;
    }
    assert(digits.take(i - start) =~= digits);
    Some(level)
}

/// Digits spell nothing but zero exactly when all of them are zeros.
proof fn zero_is_all_zeros(s: Seq<char>)
    requires
        forall|i: int| 0 <= i < s.len() ==> '0' <= #[trigger] s[i] <= '9',
    ensures
        digits_value(s) == 0 <==> forall|i: int| 0 <= i < s.len() ==> #[trigger] s[i] == '0',
    decreases s.len(),
{
    if s.len() > 0 {
        let front = s.drop_last();
        zero_is_all_zeros(front);
        assert('0' <= s[s.len() - 1] <= '9');
        if forall|i: int| 0 <= i < front.len() ==> #[trigger] front[i] == '0' {
            assert forall|i: int| 0 <= i < s.len() - 1 implies #[trigger] s[i] == '0' by {
                assert(s[i] == front[i]);
            }
        }
        if forall|i: int| 0 <= i < s.len() ==> #[trigger] s[i] == '0' {
            assert forall|i: int| 0 <= i < front.len() implies #[trigger] front[i] == '0' by {
                assert(s[i] == front[i]);
            }
        }
    }
}

/// A header asks for a level exactly when it is one digit, after any number of
/// zeros and perhaps a plus sign at the very start, and then for the level that
/// the digit gives.
pub proof fn levels_are_single_digits(value: Seq<u8>)
    ensures
        header_level(value) == (if value.len() > 0 && 48 <= value[value.len() - 1] <= 57 && (forall|
            i: int,
        |
            0 <= i < value.len() - 1 ==> #[trigger] value[i] == 48 || i == 0 && value[i] == 43) {
            Some((value[value.len() - 1] - 48) as u32)
        } else {
            None
        }),
{
    let text = latin_text(value);
    let digits = without_plus(text);
    let start: int = if value.len() > 0 && value[0] == 43 {
        1
    } else {
        0
    };
    if value.len() > 0 {
        assert(text[0] == value[0] as char);
    }
    assert(digits =~= text.skip(start));
    assert forall|i: int| start <= i < value.len() implies digits[i - start] == #[trigger] value[i] as char by {}
    let n = value.len() as int;
    let plain = n > 0 && 48 <= value[n - 1] <= 57 && (forall|i: int|
        0 <= i < n - 1 ==> #[trigger] value[i] == 48 || i == 0 && value[i] == 43);
    if plain {
        assert(n > start);
        let front = digits.drop_last();
        assert forall|i: int| 0 <= i < front.len() implies #[trigger] front[i] == '0' by {
            assert(front[i] == value[i + start] as char);
        }
        zero_is_all_zeros(front);
        assert(digits.last() == value[n - 1] as char);
        assert forall|i: int| 0 <= i < digits.len() implies is_digit(#[trigger] digits[i]) by {
            if i < front.len() {
                assert(digits[i] == front[i]);
            }
        }
        assert(all_digits(digits));
    } else if all_digits(digits) {
        assert(is_digit(digits[digits.len() - 1]));
        assert(digits[n - 1 - start] == value[n - 1] as char);
        let front = digits.drop_last();
        assert forall|i: int| 0 <= i < front.len() implies '0' <= #[trigger] front[i] <= '9' by {
            assert(is_digit(digits[i]));
        }
        zero_is_all_zeros(front);
        if forall|i: int| 0 <= i < front.len() ==> #[trigger] front[i] == '0' {
            assert forall|i: int| 0 <= i < n - 1 implies #[trigger] value[i] == 48 || i == 0
                && value[i] == 43 by {
                if i >= start {
                    assert(front[i - start] == value[i] as char);
                }
            }
        }
        assert(digits_value(digits) >= 10);
    }
}

/// The view of bytes that may be missing tells them, or that they are missing.
pub proof fn optional_bytes_tell_all(bytes: Vec<u8>)
    ensures
        optional_bytes(None) is None,
        optional_bytes(Some(bytes)) == Some(bytes@),
{
}

} // verus!
