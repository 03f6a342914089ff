//! Text as a sequence of characters: white space, splitting, trimming and
//! comparison.

use vstd::prelude::*;
use vstd::slice::slice_subrange;
use vstd::string::*;

verus! {

/// `String::push`: the character goes to the end of the string.
pub assume_specification[ String::push ](s: &mut String, c: char)
    ensures
        final(s)@ == old(s)@.push(c),
;

/// `String::from` of a string slice: the same characters, owned.
pub assume_specification<'a>[ <String as core::convert::From<&'a str>>::from ](
    s: &str,
) -> (owned: String)
    ensures
        owned@ == s@,
;

/// `From` of a type for itself, by which a `String` is turned into a `String`:
/// the argument, unchanged.
pub assume_specification<A>[ <A as core::convert::From<A>>::from ](given: A) -> (kept: A)
    ensures
        kept == given,
;

/// Whether `c` has Unicode's `White_Space` property.
pub open spec fn white(c: char) -> bool {
    ||| '\t' <= c <= '\r'
    ||| c == ' '
    ||| c == '\u{85}'
    ||| c == '\u{a0}'
    ||| c == '\u{1680}'
    ||| '\u{2000}' <= c <= '\u{200a}'
    ||| c == '\u{2028}'
    ||| c == '\u{2029}'
    ||| c == '\u{202f}'
    ||| c == '\u{205f}'
    ||| c == '\u{3000}'
}

/// How many characters open `text` that are white space.
pub open spec fn leading_white(text: Seq<char>) -> nat
    decreases text.len(),
{
    if text.len() == 0 || !white(text[0]) {
        0
    } else {
        1 + leading_white(text.skip(1))
    }
}

/// How many characters open `text` that are not white space.
pub open spec fn leading_word(text: Seq<char>) -> nat
    decreases text.len(),
{
    if text.len() == 0 || white(text[0]) {
        0
    } else {
        1 + leading_word(text.skip(1))
    }
}

/// How many characters open `text` before the first `mark`; all of them
/// where there is none.
pub open spec fn before(text: Seq<char>, mark: char) -> nat
    decreases text.len(),
{
    if text.len() == 0 || text[0] == mark {
        0
    } else {
        1 + before(text.skip(1), mark)
    }
}

/// `text` without the white space that opens it.
pub open spec fn trim_start(text: Seq<char>) -> Seq<char> {
    text.skip(leading_white(text) as int)
}

/// `text` without the white space that closes it.
pub open spec fn trim_end(text: Seq<char>) -> Seq<char>
    decreases text.len(),
{
    if text.len() > 0 && white(text.last()) {
        trim_end(text.drop_last())
    } else {
        text
    }
}

/// `text` without the white space around it.
pub open spec fn trim(text: Seq<char>) -> Seq<char> {
    trim_end(trim_start(text))
}

/// `text` without every `mark` that closes it.
pub open spec fn strip_end(text: Seq<char>, mark: char) -> Seq<char>
    decreases text.len(),
{
    if text.len() > 0 && text.last() == mark {
        strip_end(text.drop_last(), mark)
    } else {
        text
    }
}

/// The pieces of `text` between one `mark` and the next, at least one.
pub open spec fn split(text: Seq<char>, mark: char) -> Seq<Seq<char>>
    decreases text.len(),
{
    let at = before(text, mark) as int;
    if at < text.len() {
        seq![text.take(at)] + split(text.skip(at + 1), mark)
    } else {
        seq![text]
    }
}

/// What stands before the first `mark` and what stands after it.
pub open spec fn split_once(text: Seq<char>, mark: char) -> Option<(Seq<char>, Seq<char>)> {
    let at = before(text, mark) as int;
    if at < text.len() {
        Some((text.take(at), text.skip(at + 1)))
    } else {
        None
    }
}

/// The runs of characters between white space.
pub open spec fn words(text: Seq<char>) -> Seq<Seq<char>>
    decreases text.len(),
{
    let rest = trim_start(text);
    if rest.len() == 0 {
        seq![]
    } else {
        proof {
            lemma_leading_white(text);
            assert(!white(rest[0]));
            lemma_leading_word(rest);
        }
        let n = leading_word(rest) as int;
        seq![rest.take(n)] + words(rest.skip(n))
    }
}

/// `c`, with a capital letter of ASCII made small.
pub open spec fn lower(c: char) -> char {
    if 'A' <= c <= 'Z' {
        (c as u8 + 32) as u8 as char
    } else {
        c
    }
}

/// Whether two texts are the same but for the case of ASCII letters.
pub open spec fn same_ignoring_case(a: Seq<char>, b: Seq<char>) -> bool {
    &&& a.len() == b.len()
    &&& forall|i: int| 0 <= i < a.len() ==> lower(#[trigger] a[i]) == lower(b[i])
}

/// What stands before the first mark is not the mark, and the mark stands next.
pub proof fn lemma_before(text: Seq<char>, mark: char)
    ensures
        before(text, mark) <= text.len(),
        forall|i: int| 0 <= i < before(text, mark) ==> text[i] != mark,
        before(text, mark) < text.len() ==> text[before(text, mark) as int] == mark,
    decreases text.len(),
{
    if text.len() > 0 && text[0] != mark {
        let rest = text.skip(1);
        lemma_before(rest, mark);
        assert forall|i: int| 0 <= i < before(text, mark) implies text[i] != mark by {
            if i > 0 {
                assert(text[i] == rest[i - 1]);
            }
        }
    }
}

/// The first mark stands where nothing before it is the mark.
pub proof fn lemma_before_is(text: Seq<char>, mark: char, at: int)
    requires
        0 <= at <= text.len(),
        forall|i: int| 0 <= i < at ==> text[i] != mark,
        at < text.len() ==> text[at] == mark,
    ensures
        before(text, mark) == at,
{
    lemma_before(text, mark);
    let b = before(text, mark) as int;
    if b < at {
        assert(text[b] != mark);
    }
}

/// What opens a text as white space is white, and what stands next is not.
pub proof fn lemma_leading_white(text: Seq<char>)
    ensures
        leading_white(text) <= text.len(),
        forall|i: int| 0 <= i < leading_white(text) ==> white(text[i]),
        leading_white(text) < text.len() ==> !white(text[leading_white(text) as int]),
    decreases text.len(),
{
    if text.len() > 0 && white(text[0]) {
        let rest = text.skip(1);
        lemma_leading_white(rest);
        assert forall|i: int| 0 <= i < leading_white(text) implies white(text[i]) by {
            if i > 0 {
                assert(text[i] == rest[i - 1]);
            }
        }
    }
}

/// The white space that opens a text ends at the first character that is not.
pub proof fn lemma_leading_white_is(text: Seq<char>, at: int)
    requires
        0 <= at <= text.len(),
        forall|i: int| 0 <= i < at ==> white(text[i]),
        at < text.len() ==> !white(text[at]),
    ensures
        leading_white(text) == at,
{
    lemma_leading_white(text);
    let b = leading_white(text) as int;
    if b < at {
        assert(white(text[b]));
    }
}

/// What opens a text as a word is not white, and what stands next is.
pub proof fn lemma_leading_word(text: Seq<char>)
    ensures
        leading_word(text) <= text.len(),
        forall|i: int| 0 <= i < leading_word(text) ==> !white(text[i]),
        leading_word(text) < text.len() ==> white(text[leading_word(text) as int]),
    decreases text.len(),
{
    if text.len() > 0 && !white(text[0]) {
        let rest = text.skip(1);
        lemma_leading_word(rest);
        assert forall|i: int| 0 <= i < leading_word(text) implies !white(text[i]) by {
            if i > 0 {
                assert(text[i] == rest[i - 1]);
            }
        }
    }
}

/// The word that opens a text ends at the first white space.
pub proof fn lemma_leading_word_is(text: Seq<char>, at: int)
    requires
        0 <= at <= text.len(),
        forall|i: int| 0 <= i < at ==> !white(text[i]),
        at < text.len() ==> white(text[at]),
    ensures
        leading_word(text) == at,
{
    lemma_leading_word(text);
    let b = leading_word(text) as int;
    if b < at {
        assert(!white(text[b]));
    }
}

/// What is trimmed off the end is white, and what is left does not end so.
pub proof fn lemma_trim_end(text: Seq<char>)
    ensures
        trim_end(text).len() <= text.len(),
        trim_end(text) == text.take(trim_end(text).len() as int),
        trim_end(text).len() > 0 ==> !white(trim_end(text).last()),
        forall|i: int| trim_end(text).len() <= i < text.len() ==> white(text[i]),
    decreases text.len(),
{
    if text.len() > 0 && white(text.last()) {
        let rest = text.drop_last();
        lemma_trim_end(rest);
        assert(trim_end(text) == text.take(trim_end(text).len() as int));
        assert forall|i: int| trim_end(text).len() <= i < text.len() implies white(text[i]) by {
            if i < rest.len() {
                assert(text[i] == rest[i]);
            }
        }
    }
}

/// What is stripped off the end is the mark, and what is left does not end so.
pub proof fn lemma_strip_end(text: Seq<char>, mark: char)
    ensures
        strip_end(text, mark).len() <= text.len(),
        strip_end(text, mark) == text.take(strip_end(text, mark).len() as int),
        strip_end(text, mark).len() > 0 ==> strip_end(text, mark).last() != mark,
        forall|i: int| strip_end(text, mark).len() <= i < text.len() ==> text[i] == mark,
    decreases text.len(),
{
    if text.len() > 0 && text.last() == mark {
        let rest = text.drop_last();
        lemma_strip_end(rest, mark);
        assert(strip_end(text, mark) == text.take(strip_end(text, mark).len() as int));
        assert forall|i: int| strip_end(text, mark).len() <= i < text.len() implies text[i]
            == mark by {
            if i < rest.len() {
                assert(text[i] == rest[i]);
            }
        }
    }
}

/// The pieces of a text with a mark in it are those before that mark and those
/// after it.
pub proof fn lemma_split_at(a: Seq<char>, mark: char, b: Seq<char>)
    ensures
        split(a + seq![mark] + b, mark) == split(a, mark) + split(b, mark),
    decreases a.len(),
{
    let text = a + seq![mark] + b;
    let at = before(a, mark) as int;
    lemma_before(a, mark);
    assert forall|i: int| 0 <= i < at implies text[i] != mark by {
        assert(text[i] == a[i]);
    }
    lemma_before_is(text, mark, at);
    assert(text.take(at) =~= a.take(at));
    if at < a.len() {
        let rest = a.skip(at + 1);
        assert(text.skip(at + 1) =~= rest + seq![mark] + b);
        lemma_split_at(rest, mark, b);
        assert(seq![a.take(at)] + (split(rest, mark) + split(b, mark)) =~= seq![a.take(at)] + split(
            rest,
            mark,
        ) + split(b, mark));
    } else {
        assert(a.take(at) =~= a);
        assert(text.skip(at + 1) =~= b);
    }
}

/// Whether `c` is white space.
pub fn is_white(c: char) -> (is: bool)
    ensures
        is == white(c),
{
    ('\t' <= c && c <= '\r') || c == ' ' || c == '\u{85}' || c == '\u{a0}' || c == '\u{1680}' || (
    '\u{2000}' <= c && c <= '\u{200a}') || c == '\u{2028}' || c == '\u{2029}' || c == '\u{202f}'
        || c == '\u{205f}' || c == '\u{3000}'
}

/// The characters of `text`.
pub fn chars_of(text: &str) -> (chars: Vec<char>)
    ensures
        chars@ == text@,
{
    let mut chars: Vec<char> = Vec::new();
    for c in it: text.chars()
        invariant
            it.seq() == text@,
            chars@ == text@.take(it.index() as int),
    {
        chars.push(c);
    }
    assert(text@.take(text@.len() as int) == text@);
    chars
}

/// `chars` as a string.
pub fn string_of(chars: &[char]) -> (text: String)
    ensures
        text@ == chars@,
{
    let mut text = String::new();
    let mut i: usize = 0;
    while i < chars.len()
        invariant
            i <= chars@.len(),
            text@ == chars@.take(i as int),
        decreases chars@.len() - i,
    {
        text.push(chars[i]);
        i += 1;
    }
    assert(chars@.take(chars@.len() as int) == chars@);
    text
}

/// Where the first `mark` stands in `chars`, or their number where there is
/// none.
pub fn find(chars: &[char], mark: char) -> (at: usize)
    ensures
        at == before(chars@, mark),
        at <= chars@.len(),
{
    let mut at: usize = 0;
    while at < chars.len() && chars[at] != mark
        invariant
            at <= chars@.len(),
            forall|i: int| 0 <= i < at ==> chars@[i] != mark,
        decreases chars@.len() - at,
    {
        at += 1;
    }
    proof {
        lemma_before_is(chars@, mark, at as int);
    }
    at
}

/// `chars` without the white space that opens them.
pub fn trimmed_start(chars: &[char]) -> (rest: &[char])
    ensures
        rest@ == trim_start(chars@),
{
    let mut at: usize = 0;
    while at < chars.len() && is_white(chars[at])
        invariant
            at <= chars@.len(),
            forall|i: int| 0 <= i < at ==> white(chars@[i]),
        decreases chars@.len() - at,
    {
        at += 1;
    }
    proof {
        lemma_leading_white_is(chars@, at as int);
    }
    slice_subrange(chars, at, chars.len())
}

/// `chars` without the white space around them.
pub fn trimmed(chars: &[char]) -> (rest: &[char])
    ensures
        rest@ == trim(chars@),
{
    let rest = trimmed_start(chars);
    let mut end: usize = rest.len();
    assert(rest@.take(rest@.len() as int) == rest@);
    while end > 0 && is_white(rest[end - 1])
        invariant
            end <= rest@.len(),
            trim_end(rest@.take(end as int)) == trim_end(rest@),
        decreases end,
    {
        assert(rest@.take(end as int).drop_last() == rest@.take(end - 1));
        end -= 1;
    }
    slice_subrange(rest, 0, end)
}

/// `chars` without every `mark` that closes them.
pub fn stripped_end(chars: &[char], mark: char) -> (rest: &[char])
    ensures
        rest@ == strip_end(chars@, mark),
{
    let mut end: usize = chars.len();
    assert(chars@.take(chars@.len() as int) == chars@);
    while end > 0 && chars[end - 1] == mark
        invariant
            end <= chars@.len(),
            strip_end(chars@.take(end as int), mark) == strip_end(chars@, mark),
        decreases end,
    {
        assert(chars@.take(end as int).drop_last() == chars@.take(end - 1));
        end -= 1;
    }
    slice_subrange(chars, 0, end)
}

/// Whether two slices hold the same characters.
pub fn same_chars(a: &[char], b: &[char]) -> (same: bool)
    ensures
        same == (a@ == b@),
{
    if a.len() != b.len() {
        return false;
    }
    let mut i: usize = 0;
    while i < a.len()
        invariant
            a@.len() == b@.len(),
            i <= a@.len(),
            forall|j: int| 0 <= j < i ==> a@[j] == b@[j],
        decreases a@.len() - i,
    {
        if a[i] != b[i] {
            return false;
        }
        i += 1;
    }
    assert(a@ =~= b@);
    true
}

/// Whether two texts are the same.
pub fn same(a: &str, b: &str) -> (same: bool)
    ensures
        same == (a@ == b@),
{
    let left = chars_of(a);
    let right = chars_of(b);
    same_chars(left.as_slice(), right.as_slice())
}

/// `c`, with a capital letter of ASCII made small.
fn lowered(c: char) -> (low: char)
    ensures
        low == lower(c),
{
    if 'A' <= c && c <= 'Z' {
        (c as u8 + 32) as char
    } else {
        c
    }
}

/// Whether two texts are the same but for the case of ASCII letters.
pub fn same_but_case(a: &str, b: &str) -> (same: bool)
    ensures
        same == same_ignoring_case(a@, b@),
{
    let left = chars_of(a);
    let right = chars_of(b);
    if left.len() != right.len() {
        return false;
    }
    let mut i: usize = 0;
    while i < left.len()
        invariant
            left@ == a@,
            right@ == b@,
            left@.len() == right@.len(),
            i <= left@.len(),
            forall|j: int| 0 <= j < i ==> lower(#[trigger] a@[j]) == lower(b@[j]),
        decreases left@.len() - i,
    {
        if lowered(left[i]) != lowered(right[i]) {
            assert(lower(a@[i as int]) != lower(b@[i as int]));
            return false;
        }
        i += 1;
    }
    true
}

/// The pieces of `chars` between one `mark` and the next, at least one.
pub fn split_on(chars: &[char], mark: char) -> (pieces: Vec<&[char]>)
    ensures
        pieces@.map_values(|piece: &[char]| piece@) == split(chars@, mark),
{
    let mut pieces: Vec<&[char]> = Vec::new();
    let mut rest = chars;
    let ghost view = |piece: &[char]| piece@;
    let mut end = find(rest, mark);
    assert(pieces@.map_values(view) + split(rest@, mark) == split(chars@, mark));
    while end < rest.len()
        invariant
            view == |piece: &[char]| piece@,
            end == before(rest@, mark),
            end <= rest@.len(),
            pieces@.map_values(view) + split(rest@, mark) == split(chars@, mark),
        decreases rest@.len(),
    {
        let piece = slice_subrange(rest, 0, end);
        let after = slice_subrange(rest, end + 1, rest.len());
        proof {
            assert(after@ == rest@.skip(end + 1));
            let had = pieces@.map_values(view);
            assert(pieces@.push(piece).map_values(view) == had.push(piece@));
            assert(had + (seq![piece@] + split(after@, mark)) == had.push(piece@) + split(
                after@,
                mark,
            ));
        }
        pieces.push(piece);
        rest = after;
        end = find(rest, mark);
    }
    assert(pieces@.push(rest).map_values(view) == pieces@.map_values(view) + seq![rest@]);
    pieces.push(rest);
    pieces
}

/// The runs of characters between white space.
pub fn split_words(chars: &[char]) -> (found: Vec<&[char]>)
    ensures
        found@.map_values(|word: &[char]| word@) == words(chars@),
{
    let mut found: Vec<&[char]> = Vec::new();
    let mut rest = trimmed_start(chars);
    proof {
        lemma_leading_white(chars@);
        lemma_words_trimmed(chars@);
        assert(found@.map_values(|word: &[char]| word@) == Seq::<Seq<char>>::empty());
    }
    while rest.len() > 0
        invariant
            found@.map_values(|word: &[char]| word@) + words(rest@) == words(chars@),
            rest@.len() > 0 ==> !white(rest@[0]),
        decreases rest@.len(),
    {
        let mut n: usize = 0;
        while n < rest.len() && !is_white(rest[n])
            invariant
                n <= rest@.len(),
                forall|i: int| 0 <= i < n ==> !white(rest@[i]),
            decreases rest@.len() - n,
        {
            n += 1;
        }
        proof {
            lemma_leading_word_is(rest@, n as int);
        }
        let word = slice_subrange(rest, 0, n);
        let after = slice_subrange(rest, n, rest.len());
        let next = trimmed_start(after);
        proof {
            lemma_leading_white_is(rest@, 0);
            assert(trim_start(rest@) == rest@);
            lemma_leading_white(after@);
            lemma_words_trimmed(after@);
            assert(words(rest@) == seq![word@] + words(after@));
            let old_words = found@.map_values(|word: &[char]| word@);
            assert(found@.push(word).map_values(|word: &[char]| word@) == old_words.push(word@));
            assert(old_words.push(word@) + words(next@) == old_words + (seq![word@] + words(
                next@,
            )));
        }
        found.push(word);
        rest = next;
    }
    assert(words(rest@) == Seq::<Seq<char>>::empty());
    found
}

/// The words of a text are those of the text without the white space that
/// opens it.
pub proof fn lemma_words_trimmed(text: Seq<char>)
    ensures
        words(trim_start(text)) == words(text),
{
    lemma_leading_white(text);
    let rest = trim_start(text);
    lemma_leading_white_is(rest, 0);
    assert(trim_start(rest) == rest);
    if rest.len() > 0 {
        lemma_leading_word(rest);
    }
}

/// The white space there is, by code point.
pub proof fn white_space(c: char)
    ensures
        white(c) <==> {
            let n = c as u32;
            ||| 0x9 <= n <= 0xd
            ||| n == 0x20
            ||| n == 0x85
            ||| n == 0xa0
            ||| n == 0x1680
            ||| 0x2000 <= n <= 0x200a
            ||| n == 0x2028
            ||| n == 0x2029
            ||| n == 0x202f
            ||| n == 0x205f
            ||| n == 0x3000
        },
{
}

/// The same character, or the two cases of one of the 26 letters of ASCII.
proof fn lemma_lower(a: char, b: char)
    ensures
        lower(a) == lower(b) <==> {
            ||| a == b
            ||| 65 <= a as u32 <= 90 && b as u32 == a as u32 + 32
            ||| 65 <= b as u32 <= 90 && a as u32 == b as u32 + 32
        },
{
}

/// Texts match without regard to case exactly where they are equally long and
/// hold at each place either the same character or the two cases of one of
/// the 26 letters of ASCII, which are 32 code points apart.
pub proof fn case_of_letters_is_ignored(a: Seq<char>, b: Seq<char>)
    ensures
        same_ignoring_case(a, b) <==> (a.len() == b.len() && forall|i: int|
            0 <= i < a.len() ==> {
                ||| #[trigger] a[i] == b[i]
                ||| 65 <= a[i] as u32 <= 90 && b[i] as u32 == a[i] as u32 + 32
                ||| 65 <= b[i] as u32 <= 90 && a[i] as u32 == b[i] as u32 + 32
            }),
{
    assert forall|i: int| 0 <= i < a.len() implies (lower(#[trigger] a[i]) == lower(b[i]) <==> {
        ||| a[i] == b[i]
        ||| 65 <= a[i] as u32 <= 90 && b[i] as u32 == a[i] as u32 + 32
        ||| 65 <= b[i] as u32 <= 90 && a[i] as u32 == b[i] as u32 + 32
    }) by {
        lemma_lower(a[i], b[i]);
    }
}

/// Trimming takes the white space around a text off and nothing else: what is
/// left of a text between white space is the text, where it is empty or has no
/// white space at either end.
pub proof fn trim_takes_white_space_off(left: Seq<char>, text: Seq<char>, right: Seq<char>)
    requires
        forall|i: int| 0 <= i < left.len() ==> white(left[i]),
        forall|i: int| 0 <= i < right.len() ==> white(right[i]),
        text.len() > 0 ==> !white(text[0]) && !white(text.last()),
    ensures
        trim(left + text + right) == text,
{
    let all = left + text + right;
    if text.len() == 0 {
        assert forall|i: int| 0 <= i < all.len() implies white(all[i]) by {
            if i >= left.len() {
                assert(all[i] == right[i - left.len()]);
            }
        }
        lemma_leading_white_is(all, all.len() as int);
        assert(trim_start(all) =~= text);
    } else {
        assert(all[left.len() as int] == text[0]);
        assert forall|i: int| 0 <= i < left.len() implies white(all[i]) by {
            assert(all[i] == left[i]);
        }
        lemma_leading_white_is(all, left.len() as int);
        let rest = text + right;
        assert(trim_start(all) =~= rest);
        lemma_trim_end(rest);
        let n = trim_end(rest).len();
        if n < text.len() {
            assert(white(rest[text.len() - 1]));
        } else if n > text.len() {
            assert(trim_end(rest).last() == right[n - text.len() - 1]);
        }
        assert(trim_end(rest) =~= text);
    }
}

/// A text is what trimming leaves of it, between white space.
pub proof fn lemma_trim_parts(text: Seq<char>) -> (parts: (Seq<char>, Seq<char>))
    ensures
        text == parts.0 + trim(text) + parts.1,
        forall|i: int| 0 <= i < parts.0.len() ==> white(parts.0[i]),
        forall|i: int| 0 <= i < parts.1.len() ==> white(parts.1[i]),
        trim(text).len() > 0 ==> !white(trim(text)[0]) && !white(trim(text).last()),
{
    let rest = trim_start(text);
    lemma_leading_white(text);
    lemma_trim_end(rest);
    let left = text.take(leading_white(text) as int);
    let right = rest.skip(trim(text).len() as int);
    assert(text =~= left + trim(text) + right);
    if trim(text).len() > 0 {
        assert(trim(text)[0] == rest[0]);
    }
    (left, right)
}

/// White space around a text does not change what trimming leaves of it.
pub proof fn trim_ignores_white_space_around(left: Seq<char>, text: Seq<char>, right: Seq<char>)
    requires
        forall|i: int| 0 <= i < left.len() ==> white(left[i]),
        forall|i: int| 0 <= i < right.len() ==> white(right[i]),
    ensures
        trim(left + text + right) == trim(text),
{
    let (a, b) = lemma_trim_parts(text);
    let core = trim(text);
    let before_it = left + a;
    let after_it = b + right;
    assert forall|i: int| 0 <= i < before_it.len() implies white(before_it[i]) by {
        if i >= left.len() {
            assert(before_it[i] == a[i - left.len()]);
        }
    }
    assert forall|i: int| 0 <= i < after_it.len() implies white(after_it[i]) by {
        if i >= b.len() {
            assert(after_it[i] == right[i - b.len()]);
        }
    }
    trim_takes_white_space_off(before_it, core, after_it);
    assert(left + text + right =~= before_it + core + after_it);
}

/// Every mark that closes a text is stripped off, and nothing else.
pub proof fn strip_takes_marks_off(text: Seq<char>, marks: Seq<char>, mark: char)
    requires
        text.len() > 0 ==> text.last() != mark,
        forall|i: int| 0 <= i < marks.len() ==> marks[i] == mark,
    ensures
        strip_end(text + marks, mark) == text,
{
    let all = text + marks;
    lemma_strip_end(all, mark);
    let n = strip_end(all, mark).len();
    if n < text.len() {
        assert(all[text.len() - 1] == mark);
    } else if n > text.len() {
        assert(strip_end(all, mark).last() == marks[n - text.len() - 1]);
    }
    assert(strip_end(all, mark) =~= text);
}

/// A text without the mark is one piece.
pub proof fn one_piece_without_a_mark(text: Seq<char>, mark: char)
    requires
        !text.contains(mark),
    ensures
        split(text, mark) == seq![text],
        split_once(text, mark) is None,
{
    lemma_before(text, mark);
    if before(text, mark) < text.len() {
        assert(text.contains(text[before(text, mark) as int]));
    }
}

/// A text is split at the first mark in it: whatever stands before it, and
/// all that stands after it.
pub proof fn split_at_the_first_mark(left: Seq<char>, mark: char, right: Seq<char>)
    requires
        !left.contains(mark),
    ensures
        split_once(left + seq![mark] + right, mark) == Some((left, right)),
{
    let text = left + seq![mark] + right;
    let at = left.len() as int;
    assert forall|i: int| 0 <= i < at implies text[i] != mark by {
        assert(left.contains(left[i]));
    }
    lemma_before_is(text, mark, at);
    assert(text.take(at) =~= left);
    assert(text.skip(at + 1) =~= right);
}

/// White space alone holds no words.
pub proof fn white_space_holds_no_words(text: Seq<char>)
    requires
        forall|i: int| 0 <= i < text.len() ==> white(text[i]),
    ensures
        words(text) == Seq::<Seq<char>>::empty(),
{
    lemma_leading_white_is(text, text.len() as int);
    assert(trim_start(text) =~= Seq::<char>::empty());
}

/// Characters that are not white space are one word.
pub proof fn one_word_without_white_space(text: Seq<char>)
    requires
        text.len() > 0,
        forall|i: int| 0 <= i < text.len() ==> !white(text[i]),
    ensures
        words(text) == seq![text],
{
    lemma_leading_white_is(text, 0);
    lemma_leading_word_is(text, text.len() as int);
    assert(trim_start(text) =~= text);
    assert(text.take(text.len() as int) =~= text);
    let none = text.skip(text.len() as int);
    assert(none =~= Seq::<char>::empty());
    white_space_holds_no_words(none);
    assert(words(text) =~= seq![text]);
}

/// White space parts words: those of a text are those before it and those
/// after it.
pub proof fn white_space_parts_words(left: Seq<char>, gap: char, right: Seq<char>)
    requires
        white(gap),
    ensures
        words(left + seq![gap] + right) == words(left) + words(right),
    decreases left.len(),
{
    let text = left + seq![gap] + right;
    let rest = trim_start(left);
    lemma_leading_white(left);
    lemma_leading_white(right);
    if rest.len() == 0 {
        let n = left.len() + 1 + leading_white(right);
        assert forall|i: int| 0 <= i < n implies white(text[i]) by {
            if i < left.len() {
                assert(text[i] == left[i]);
            } else if i > left.len() {
                assert(text[i] == right[i - left.len() - 1]);
            }
        }
        if n < text.len() {
            assert(text[n as int] == right[leading_white(right) as int]);
        }
        lemma_leading_white_is(text, n as int);
        assert(trim_start(text) =~= trim_start(right));
        lemma_words_trimmed(text);
        lemma_words_trimmed(right);
        assert(words(left) =~= Seq::<Seq<char>>::empty());
        assert(words(left) + words(right) =~= words(right));
    } else {
        let n = leading_word(rest) as int;
        assert(rest[0] == left[leading_white(left) as int]);
        lemma_leading_word(rest);
        assert(n > 0);
        let all = rest + seq![gap] + right;
        assert forall|i: int| 0 <= i < leading_white(left) implies white(text[i]) by {
            assert(text[i] == left[i]);
        }
        assert(text[leading_white(left) as int] == rest[0]);
        lemma_leading_white_is(text, leading_white(left) as int);
        assert(trim_start(text) =~= all);
        assert forall|i: int| 0 <= i < n implies !white(all[i]) by {
            assert(all[i] == rest[i]);
        }
        if n < rest.len() {
            assert(all[n] == rest[n]);
        }
        lemma_leading_word_is(all, n);
        assert(all.take(n) =~= rest.take(n));
        assert(all.skip(n) =~= rest.skip(n) + seq![gap] + right);
        white_space_parts_words(rest.skip(n), gap, right);
        assert(seq![rest.take(n)] + (words(rest.skip(n)) + words(right)) =~= seq![rest.take(n)]
            + words(rest.skip(n)) + words(right));
    }
}

/// White space at the end of a text changes none of its words.
proof fn lemma_words_before_white(text: Seq<char>, gap: Seq<char>)
    requires
        forall|i: int| 0 <= i < gap.len() ==> white(gap[i]),
    ensures
        words(text + gap) == words(text),
    decreases gap.len(),
{
    if gap.len() == 0 {
        assert(text + gap =~= text);
    } else {
        let none = Seq::<char>::empty();
        white_space_holds_no_words(none);
        white_space_parts_words(text + gap.drop_last(), gap.last(), none);
        assert(text + gap =~= text + gap.drop_last() + seq![gap.last()] + none);
        lemma_words_before_white(text, gap.drop_last());
        assert(words(text) + words(none) =~= words(text));
    }
}

/// Trimming a text changes none of its words.
pub proof fn lemma_words_of_trimmed(text: Seq<char>)
    ensures
        words(trim(text)) == words(text),
{
    let rest = trim_start(text);
    lemma_words_trimmed(text);
    lemma_trim_end(rest);
    let gap = rest.skip(trim(text).len() as int);
    assert(rest =~= trim(text) + gap);
    lemma_words_before_white(trim(text), gap);
}

/// The white space that opens a text is taken off, and nothing else.
pub proof fn trim_start_takes_white_space_off(left: Seq<char>, text: Seq<char>)
    requires
        forall|i: int| 0 <= i < left.len() ==> white(left[i]),
        text.len() > 0 ==> !white(text[0]),
    ensures
        trim_start(left + text) == text,
{
    let all = left + text;
    assert forall|i: int| 0 <= i < left.len() implies white(all[i]) by {
        assert(all[i] == left[i]);
    }
    if text.len() > 0 {
        assert(all[left.len() as int] == text[0]);
    }
    lemma_leading_white_is(all, left.len() as int);
    assert(trim_start(all) =~= text);
}

} // verus!
