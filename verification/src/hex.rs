//! Bytes as hex digits, the form a header value takes.

use crate::refusal::{Refusal, RefusalView};
use crate::text::lower;
use vstd::prelude::*;
use vstd::string::*;
use vstd::utf8::{
    char_u32_cast, encode_scalar, encode_utf8, encode_utf8_first_scalar, has_width_1_encoding,
    is_ascii_chars, is_ascii_chars_encode_utf8,
};

verus! {

/// The lower-case digit for `n`, which is less than sixteen.
pub open spec fn hex_digit(n: u8) -> char {
    if n < 10 {
        (48 + n) as u8 as char
    } else {
        (87 + n) as u8 as char
    }
}

/// `bytes` as lower-case hex pairs.
pub open spec fn hex_text(bytes: Seq<u8>) -> Seq<char> {
    Seq::new(
        2 * bytes.len(),
        |i: int|
            if i % 2 == 0 {
                hex_digit(bytes[i / 2] / 16)
            } else {
                hex_digit(bytes[i / 2] % 16)
            },
    )
}

/// What the digit `b`, of either case, stands for.
pub open spec fn hex_value(b: u8) -> Option<u8> {
    if 48 <= b <= 57 {
        Some((b - 48) as u8)
    } else if 65 <= b <= 70 {
        Some((b - 55) as u8)
    } else if 97 <= b <= 102 {
        Some((b - 87) as u8)
    } else {
        None
    }
}

/// The byte that a pair spells: two digits.
pub open spec fn pair_value(high: u8, low: u8) -> Option<u8> {
    match (hex_value(high), hex_value(low)) {
        (Some(h), Some(l)) => Some((16 * h + l) as u8),
        _ => None,
    }
}

/// The bytes that pairs spell, where each of them spells one.
pub open spec fn pairs_value(pairs: Seq<u8>) -> Option<Seq<u8>> {
    if forall|i: int|
        0 <= i < pairs.len() / 2 ==> #[trigger] pair_value(pairs[2 * i], pairs[2 * i + 1]) is Some {
        Some(Seq::new(pairs.len() / 2, |i: int| pair_value(pairs[2 * i], pairs[2 * i + 1])->0))
    } else {
        None
    }
}

/// The bytes that `digits` spell, refused where they do not.
pub open spec fn hex_bytes(digits: Seq<char>) -> Result<Seq<u8>, RefusalView> {
    let pairs = encode_utf8(digits);
    if pairs.len() % 2 != 0 {
        Err(RefusalView::OddHex(digits))
    } else {
        match pairs_value(pairs) {
            Some(bytes) => Ok(bytes),
            None => Err(RefusalView::NotHex(digits)),
        }
    }
}

/// Bytes, or why there are none, as views.
pub open spec fn bytes_view(read: Result<Vec<u8>, Refusal>) -> Result<Seq<u8>, RefusalView> {
    match read {
        Ok(bytes) => Ok(bytes@),
        Err(refusal) => Err(refusal@),
    }
}

/// Hex digits are ASCII, so each of them is one byte.
pub proof fn lemma_hex_text_ascii(bytes: Seq<u8>)
    ensures
        is_ascii_chars(hex_text(bytes)),
        encode_utf8(hex_text(bytes)).len() == 2 * bytes.len(),
        forall|i: int|
            0 <= i < 2 * bytes.len() ==> #[trigger] encode_utf8(hex_text(bytes))[i] == hex_text(
                bytes,
            )[i] as u8,
{
    is_ascii_chars_encode_utf8(hex_text(bytes));
}

/// Bytes one after the other are written as their digits one after the other.
pub proof fn hex_of_a_concatenation(a: Seq<u8>, b: Seq<u8>)
    ensures
        hex_text(a + b) == hex_text(a) + hex_text(b),
{
    assert(hex_text(a + b) =~= hex_text(a) + hex_text(b));
}

/// What is written as hex reads back.
pub proof fn hex_reads_back(bytes: Seq<u8>)
    ensures
        hex_bytes(hex_text(bytes)) == Ok::<Seq<u8>, RefusalView>(bytes),
{
    let text = hex_text(bytes);
    let pairs = encode_utf8(text);
    lemma_hex_text_ascii(bytes);
    assert forall|i: int| 0 <= i < pairs.len() / 2 implies #[trigger] pair_value(
        pairs[2 * i],
        pairs[2 * i + 1],
    ) == Some(bytes[i]) by {
        assert(pairs[2 * i] == text[2 * i] as u8);
        assert(pairs[2 * i + 1] == text[2 * i + 1] as u8);
        assert(text[2 * i] == hex_digit(bytes[i] / 16));
        assert(text[2 * i + 1] == hex_digit(bytes[i] % 16));
    }
    assert(pairs_value(pairs)->0 =~= bytes);
}

/// Text whose UTF-8 is ASCII is ASCII itself.
proof fn lemma_ascii(text: Seq<char>)
    requires
        forall|i: int|
            0 <= i < encode_utf8(text).len() ==> #[trigger] encode_utf8(text)[i] < 128,
    ensures
        is_ascii_chars(text),
    decreases text.len(),
{
    if text.len() > 0 {
        let bytes = encode_utf8(text);
        let rest = text.drop_first();
        let first = encode_scalar(text[0] as u32);
        encode_utf8_first_scalar(text);
        assert(bytes[0] < 128);
        assert(first.len() == 1);
        char_u32_cast(text[0], text[0] as u32);
        assert(has_width_1_encoding(text[0] as u32));
        assert forall|i: int| 0 <= i < encode_utf8(rest).len() implies #[trigger] encode_utf8(
            rest,
        )[i] < 128 by {
            assert(bytes[i + 1] == encode_utf8(rest)[i]);
        }
        lemma_ascii(rest);
        assert forall|i: int| 0 <= i < text.len() implies '\0' <= #[trigger] text[i]
            <= '\u{7f}' by {
            if i > 0 {
                assert(text[i] == rest[i - 1]);
            }
        }
    }
}

/// Whether `c` is a hex digit, of either case.
pub open spec fn is_hex(c: char) -> bool {
    ||| '0' <= c <= '9'
    ||| 'A' <= c <= 'F'
    ||| 'a' <= c <= 'f'
}

/// What is read as hex is an even number of hex digits, of either case, and
/// nothing else.
pub proof fn only_hex_is_read(digits: Seq<char>)
    ensures
        hex_bytes(digits) is Ok <==> (digits.len() % 2 == 0 && forall|i: int|
            0 <= i < digits.len() ==> is_hex(#[trigger] digits[i])),
{
    let pairs = encode_utf8(digits);
    if hex_bytes(digits) is Ok {
        lemma_read_pairs(digits);
    }
    if digits.len() % 2 == 0 && forall|i: int|
        0 <= i < digits.len() ==> is_hex(#[trigger] digits[i]) {
        assert(is_ascii_chars(digits));
        is_ascii_chars_encode_utf8(digits);
        assert forall|i: int| 0 <= i < pairs.len() / 2 implies #[trigger] pair_value(
            pairs[2 * i],
            pairs[2 * i + 1],
        ) is Some by {
            assert(is_hex(digits[2 * i]) && is_hex(digits[2 * i + 1]));
        }
    }
}

/// What is read as hex is one byte a character, each of them a digit.
proof fn lemma_read_pairs(digits: Seq<char>)
    requires
        hex_bytes(digits) is Ok,
    ensures
        encode_utf8(digits).len() == digits.len(),
        digits.len() % 2 == 0,
        forall|i: int|
            0 <= i < digits.len() ==> is_hex(#[trigger] digits[i]) && digits[i] as u8
                == encode_utf8(digits)[i],
{
    let pairs = encode_utf8(digits);
    assert forall|i: int| 0 <= i < pairs.len() implies hex_value(#[trigger] pairs[i]) is Some by {
        let k = i / 2;
        assert(pair_value(pairs[2 * k], pairs[2 * k + 1]) is Some);
        assert(i == 2 * k || i == 2 * k + 1);
    }
    lemma_ascii(digits);
    is_ascii_chars_encode_utf8(digits);
    assert forall|i: int| 0 <= i < digits.len() implies is_hex(#[trigger] digits[i])
        && digits[i] as u8 == pairs[i] by {
        assert(hex_value(pairs[i]) is Some);
    }
}

/// Writing what was read as hex gives the same digits, in lower case.
pub proof fn hex_writes_back(digits: Seq<char>)
    ensures
        hex_bytes(digits) matches Ok(bytes) ==> hex_text(bytes) == digits.map_values(
            |c: char| lower(c),
        ),
{
    if let Ok(bytes) = hex_bytes(digits) {
        let pairs = encode_utf8(digits);
        let small = digits.map_values(|c: char| lower(c));
        lemma_read_pairs(digits);
        assert forall|i: int| 0 <= i < small.len() implies hex_text(bytes)[i] == small[i] by {
            let k = i / 2;
            assert(pair_value(pairs[2 * k], pairs[2 * k + 1]) is Some);
            assert(bytes[k] == pair_value(pairs[2 * k], pairs[2 * k + 1])->0);
            assert(is_hex(digits[2 * k]) && is_hex(digits[2 * k + 1]));
            assert(i == 2 * k || i == 2 * k + 1);
        }
        assert(hex_text(bytes) =~= small);
    }
}

/// The lower-case digit for `n`.
fn to_digit(n: u8) -> (c: char)
    requires
        n < 16,
    ensures
        c == hex_digit(n),
{
    if n < 10 {
        (48 + n) as char
    } else {
        (87 + n) as char
    }
}

/// `bytes` as lower-case hex pairs, the form a header value takes.
#[must_use]
pub fn hex(bytes: &[u8]) -> (text: String)
    ensures
        text@ == hex_text(bytes@),
{
    let mut text = String::new();
    let mut i: usize = 0;
    while i < bytes.len()
        invariant
            i <= bytes@.len(),
            text@ == hex_text(bytes@.take(i as int)),
        decreases bytes@.len() - i,
    {
        text.push(to_digit(bytes[i] / 16));
        text.push(to_digit(bytes[i] % 16));
        i += 1;
        assert(text@ =~= hex_text(bytes@.take(i as int)));
    }
    assert(bytes@.take(bytes@.len() as int) == bytes@);
    text
}

/// What the digit `b`, of either case, stands for.
fn digit_value(b: u8) -> (value: Option<u8>)
    ensures
        value == hex_value(b),
{
    if 48 <= b && b <= 57 {
        Some(b - 48)
    } else if 65 <= b && b <= 70 {
        Some(b - 55)
    } else if 97 <= b && b <= 102 {
        Some(b - 87)
    } else {
        None
    }
}

/// The bytes `digits` spell, refused where they do not. A pair is two digits
/// of either case.
///
/// # Errors
/// An odd number of bytes, or a pair that is not hex.
pub fn unhex(digits: &str) -> (read: Result<Vec<u8>, Refusal>)
    ensures
        bytes_view(read) == hex_bytes(digits@),
{
    let pairs = digits.as_bytes();
    if pairs.len() % 2 != 0 {
        return Err(Refusal::OddHex(digits.to_string()));
    }
    let mut bytes: Vec<u8> = Vec::new();
    let mut at: usize = 0;
    while at < pairs.len()
        invariant
            pairs@ == encode_utf8(digits@),
            pairs@.len() % 2 == 0,
            at <= pairs@.len(),
            at == 2 * bytes@.len(),
            forall|i: int|
                0 <= i < bytes@.len() ==> #[trigger] pair_value(pairs@[2 * i], pairs@[2 * i + 1])
                    == Some(bytes@[i]),
        decreases pairs@.len() - at,
    {
        let high = pairs[at];
        let low = pairs[at + 1];
        let ghost k = bytes@.len() as int;
        assert(pairs@[2 * k] == high && pairs@[2 * k + 1] == low);
        match (digit_value(high), digit_value(low)) {
            (Some(h), Some(l)) => {
                bytes.push(16 * h + l);
            },
            _ => {
                assert(pair_value(pairs@[2 * k], pairs@[2 * k + 1]) is None);
                return Err(Refusal::NotHex(digits.to_string()));
            },
        }
        at += 2;
    }
    assert(pairs_value(pairs@)->0 =~= bytes@);
    Ok(bytes)
}

/// Each byte is written as two digits: how many sixteens it holds, and what is
/// left.
pub proof fn bytes_are_written_in_sixteens(bytes: Seq<u8>, i: int)
    requires
        0 <= i < bytes.len(),
    ensures
        hex_text(bytes).len() == 2 * bytes.len(),
        hex_text(bytes)[2 * i] == "0123456789abcdef"@[bytes[i] as int / 16],
        hex_text(bytes)[2 * i + 1] == "0123456789abcdef"@[bytes[i] as int % 16],
{
    reveal_strlit("0123456789abcdef");
    assert(hex_text(bytes)[2 * i] == hex_digit(bytes[i] / 16));
    assert(hex_text(bytes)[2 * i + 1] == hex_digit(bytes[i] % 16));
}

/// What is not read as hex is refused, with the text that is at fault: an odd
/// number of bytes as odd, anything else as not hex.
pub proof fn what_is_not_hex_is_refused(digits: Seq<char>)
    ensures
        hex_bytes(digits) matches Err(refusal) ==> refusal == if encode_utf8(digits).len() % 2
            != 0 {
            RefusalView::OddHex(digits)
        } else {
            RefusalView::NotHex(digits)
        },
{
}

/// Bytes, or why there are none, are seen as they are.
pub proof fn bytes_are_seen(read: Result<Vec<u8>, Refusal>)
    ensures
        read matches Ok(bytes) ==> bytes_view(read) == Ok::<Seq<u8>, RefusalView>(bytes@),
        read matches Err(refusal) ==> bytes_view(read) == Err::<Seq<u8>, RefusalView>(refusal@),
{
}

} // verus!
