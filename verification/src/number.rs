//! Decimal numbers, written and read.

use vstd::prelude::*;
use vstd::string::*;

verus! {

/// Whether `c` is one of the ten digits.
pub open spec fn digit(c: char) -> bool {
    '0' <= c <= '9'
}

/// The digit for `n`, which is less than ten.
pub open spec fn digit_of(n: nat) -> char {
    (48 + n) as u8 as char
}

/// `n` in decimal, with no zero in front.
pub open spec fn decimal(n: nat) -> Seq<char>
    decreases n,
{
    if n < 10 {
        seq![digit_of(n)]
    } else {
        decimal(n / 10).push(digit_of(n % 10))
    }
}

/// Whether `text` is one digit or more and nothing else.
pub open spec fn digits(text: Seq<char>) -> bool {
    &&& text.len() > 0
    &&& forall|i: int| 0 <= i < text.len() ==> digit(#[trigger] text[i])
}

/// The number that digits spell.
pub open spec fn value(text: Seq<char>) -> nat
    decreases text.len(),
{
    if text.len() == 0 {
        0
    } else {
        value(text.drop_last()) * 10 + (text.last() as nat - 48) as nat
    }
}

/// The number that `text` spells, no more than `max`: digits and nothing
/// else.
pub open spec fn bounded(text: Seq<char>, max: nat) -> Option<nat> {
    if digits(text) && value(text) <= max {
        Some(value(text))
    } else {
        None
    }
}

/// The number that `text` spells, no more than `max`: digits, after a plus
/// sign or none.
pub open spec fn number(text: Seq<char>, max: nat) -> Option<nat> {
    if text.len() > 0 && text[0] == '+' {
        bounded(text.skip(1), max)
    } else {
        bounded(text, max)
    }
}

/// A number does not shrink when digits follow it.
proof fn lemma_value_grows(text: Seq<char>, n: int)
    requires
        0 <= n <= text.len(),
    ensures
        value(text.take(n)) <= value(text),
    decreases text.len() - n,
{
    if n < text.len() {
        lemma_value_grows(text, n + 1);
        assert(text.take(n + 1).drop_last() == text.take(n));
    } else {
        assert(text.take(n) == text);
    }
}

/// A number written in decimal reads back.
pub proof fn decimal_reads_back(n: nat)
    ensures
        digits(decimal(n)),
        value(decimal(n)) == n,
    decreases n,
{
    if n < 10 {
        assert(decimal(n).drop_last() == Seq::<char>::empty());
        assert(value(Seq::<char>::empty()) == 0);
    } else {
        decimal_reads_back(n / 10);
        assert(decimal(n).drop_last() == decimal(n / 10));
    }
}

/// A number written in decimal is what it reads back as, whatever the bound
/// that it meets.
pub proof fn number_reads_back(n: nat, max: nat)
    requires
        n <= max,
    ensures
        number(decimal(n), max) == Some(n),
        bounded(decimal(n), max) == Some(n),
{
    decimal_reads_back(n);
    assert(digit(decimal(n)[0]));
}

/// Ten times itself `k` times.
pub open spec fn ten_to(k: nat) -> nat
    decreases k,
{
    if k == 0 {
        1
    } else {
        10 * ten_to((k - 1) as nat)
    }
}

/// A number less than a power of ten has no more digits than its exponent.
pub proof fn lemma_decimal_len(n: nat, k: nat)
    requires
        k > 0,
        n < ten_to(k),
    ensures
        decimal(n).len() <= k,
    decreases k,
{
    if n >= 10 {
        if k == 1 {
            reveal_with_fuel(ten_to, 2);
        } else {
            lemma_decimal_len(n / 10, (k - 1) as nat);
        }
    }
}

/// A number of more than one digit does not start with a zero.
pub proof fn lemma_no_zero_in_front(n: nat)
    ensures
        decimal(n).len() > 1 ==> decimal(n)[0] != '0',
        n > 0 ==> decimal(n)[0] != '0',
    decreases n,
{
    if n >= 10 {
        lemma_no_zero_in_front(n / 10);
        decimal_reads_back(n / 10);
        assert(decimal(n)[0] == decimal(n / 10)[0]);
    }
}

/// `n` in decimal.
pub fn to_decimal(n: u64) -> (text: String)
    ensures
        text@ == decimal(n as nat),
{
    let mut reversed: Vec<char> = Vec::new();
    let mut rest = n;
    let ghost mut tail: Seq<char> = seq![];
    while rest >= 10
        invariant
            tail == reversed@.reverse(),
            decimal(n as nat) == decimal(rest as nat) + tail,
        decreases rest,
    {
        let low = (rest % 10) as u8;
        let c = (48 + low) as char;
        proof {
            assert(decimal(rest as nat) == decimal((rest / 10) as nat).push(c));
            assert(reversed@.push(c).reverse() == seq![c] + tail);
            assert(decimal((rest / 10) as nat).push(c) + tail == decimal((rest / 10) as nat) + (
            seq![c] + tail));
            tail = seq![c] + tail;
        }
        reversed.push(c);
        rest = rest / 10;
    }
    let mut text = String::new();
    text.push((48 + rest as u8) as char);
    let mut i: usize = reversed.len();
    assert(text@ == decimal(rest as nat));
    while i > 0
        invariant
            i <= reversed@.len(),
            tail == reversed@.reverse(),
            text@ == decimal(rest as nat) + tail.take(reversed@.len() - i),
        decreases i,
    {
        i -= 1;
        text.push(reversed[i]);
        assert(tail.take(reversed@.len() - i) == tail.take(reversed@.len() - i - 1).push(
            reversed@[i as int],
        ));
    }
    assert(tail.take(reversed@.len() as int) == tail);
    text
}

/// The number that `chars` spell, no more than `max`: digits and nothing
/// else.
pub fn read_bounded(chars: &[char], max: u64) -> (read: Option<u64>)
    ensures
        (match read {
            Some(n) => Some(n as nat),
            None => None,
        }) == bounded(chars@, max as nat),
{
    if chars.len() == 0 {
        return None;
    }
    let mut n: u64 = 0;
    let mut i: usize = 0;
    while i < chars.len()
        invariant
            i <= chars@.len(),
            forall|j: int| 0 <= j < i ==> digit(#[trigger] chars@[j]),
            n == value(chars@.take(i as int)),
            n <= max,
        decreases chars@.len() - i,
    {
        let c = chars[i];
        if c < '0' || '9' < c {
            assert(!digit(chars@[i as int]));
            return None;
        }
        let d = c as u64 - 48;
        proof {
            assert(chars@.take(i + 1).drop_last() == chars@.take(i as int));
            lemma_value_grows(chars@, i + 1);
        }
        if d > max || n > (max - d) / 10 {
            return None;
        }
        n = n * 10 + d;
        i += 1;
    }
    assert(chars@.take(chars@.len() as int) == chars@);
    Some(n)
}

/// The number that `chars` spell, no more than `max`: digits, after a plus
/// sign or none.
pub fn read_number(chars: &[char], max: u64) -> (read: Option<u64>)
    ensures
        (match read {
            Some(n) => Some(n as nat),
            None => None,
        }) == number(chars@, max as nat),
{
    if chars.len() > 0 && chars[0] == '+' {
        read_bounded(vstd::slice::slice_subrange(chars, 1, chars.len()), max)
    } else {
        read_bounded(chars, max)
    }
}

/// Digits spell a number by place: one more digit makes it ten times as much
/// and that digit.
pub proof fn value_is_by_place(text: Seq<char>, c: char)
    requires
        '0' <= c <= '9',
    ensures
        value(Seq::<char>::empty()) == 0,
        value(text.push(c)) == 10 * value(text) + (c as u32 - 48),
{
    assert(text.push(c).drop_last() =~= text);
}

/// Digits without a zero in front are the number they spell in decimal.
pub proof fn decimal_is_the_digits(text: Seq<char>)
    requires
        text.len() > 0,
        forall|i: int| 0 <= i < text.len() ==> '0' <= #[trigger] text[i] <= '9',
        text.len() > 1 ==> text[0] != '0',
    ensures
        decimal(value(text)) == text,
    decreases text.len(),
{
    let rest = text.drop_last();
    let c = text.last();
    assert('0' <= c <= '9');
    let d = (c as nat - 48) as nat;
    assert(digit_of(d) == c);
    if rest.len() == 0 {
        assert(rest =~= Seq::<char>::empty());
        assert(value(rest) == 0);
        assert(decimal(value(text)) =~= text);
    } else {
        assert(forall|i: int| 0 <= i < rest.len() ==> rest[i] == text[i]);
        decimal_is_the_digits(rest);
        if value(rest) == 0 {
            assert(decimal(0) =~= seq!['0']);
            assert(rest[0] == '0');
        }
        assert(value(text) / 10 == value(rest));
        assert(value(text) % 10 == d);
        assert(decimal(value(text)) =~= text);
    }
}

/// A number is read exactly where it is digits and nothing else, spelling no
/// more than the bound.
pub proof fn only_digits_are_read(text: Seq<char>, max: nat, n: nat)
    ensures
        bounded(text, max) == Some(n) <==> (text.len() > 0 && (forall|i: int|
            0 <= i < text.len() ==> '0' <= #[trigger] text[i] <= '9') && value(text) == n && n
            <= max),
{
    if forall|i: int| 0 <= i < text.len() ==> '0' <= #[trigger] text[i] <= '9' {
        assert(forall|i: int| 0 <= i < text.len() ==> digit(#[trigger] text[i]));
    }
    if digits(text) {
        assert forall|i: int| 0 <= i < text.len() implies '0' <= #[trigger] text[i] <= '9' by {
            assert(digit(text[i]));
        }
    }
}

/// One plus sign in front of a number changes nothing; without one a number
/// is its digits.
pub proof fn plus_sign_is_ignored(text: Seq<char>, max: nat)
    ensures
        number(seq!['+'] + text, max) == bounded(text, max),
        text.len() == 0 || text[0] != '+' ==> number(text, max) == bounded(text, max),
{
    assert((seq!['+'] + text).skip(1) =~= text);
}

} // verus!
