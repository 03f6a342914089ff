//! What a message reads back as: the laws of writing and reading.

use crate::message::{
    header_line, header_lines, kind_of, lemma_lines, lines, opens_as_message, opens_with,
    read_datagram, read_headers, read_text, HeaderView, Kind, MessageView, ALIVE, BYEBYE, GROUP,
};
use crate::number::{decimal, decimal_reads_back, digit};
use crate::refusal::RefusalView;
use crate::text::{
    before, leading_white, lemma_before, lemma_before_is, lemma_leading_white,
    lemma_leading_white_is, lemma_leading_word_is, lemma_split_at, lemma_strip_end, lemma_trim_end,
    lemma_words_of_trimmed, lemma_words_trimmed, one_piece_without_a_mark, split,
    split_at_the_first_mark, split_once, strip_end, strip_takes_marks_off, trim, trim_end,
    trim_ignores_white_space_around, trim_start, white, words,
};
use vstd::prelude::*;
use vstd::utf8::{
    decode_utf8, encode_scalar, encode_utf8, encode_utf8_decode_utf8, encode_utf8_valid_utf8,
    valid_utf8,
};

verus! {

/// Text that a header value reads back as: on one line, with no white space
/// around it.
pub open spec fn clean_value(value: Seq<char>) -> bool {
    trim(value) == value && !value.contains('\n')
}

/// Text that a header name reads back as: a value without a colon.
pub open spec fn clean_name(name: Seq<char>) -> bool {
    clean_value(name) && !name.contains(':')
}

/// Headers that read back.
pub open spec fn clean_headers(headers: Seq<HeaderView>) -> bool {
    forall|i: int|
        0 <= i < headers.len() ==> clean_name((#[trigger] headers[i]).0) && clean_value(
            headers[i].1,
        )
}

/// Nothing is trimmed where no white space stands at either end.
pub proof fn lemma_trim_keeps(text: Seq<char>)
    ensures
        trim(text) == text <==> (text.len() == 0 || (!white(text[0]) && !white(text.last()))),
{
    lemma_leading_white(text);
    lemma_trim_end(trim_start(text));
    if text.len() == 0 || (!white(text[0]) && !white(text.last())) {
        lemma_leading_white_is(text, 0);
        assert(trim_start(text) == text);
    } else if white(text[0]) {
        assert(leading_white(text) > 0);
        assert(trim(text).len() < text.len());
    } else {
        lemma_leading_white_is(text, 0);
        assert(trim_start(text) == text);
        assert(trim(text).len() < text.len());
    }
}

/// What is trimmed is part of the text, and has no white space at either end.
pub proof fn lemma_trim(text: Seq<char>)
    ensures
        trim(trim(text)) == trim(text),
        forall|c: char| #[trigger] trim(text).contains(c) ==> text.contains(c),
{
    let rest = trim_start(text);
    lemma_leading_white(text);
    lemma_trim_end(rest);
    let kept = trim(text);
    if kept.len() > 0 {
        assert(kept[0] == rest[0]);
    }
    lemma_trim_keeps(kept);
    assert forall|c: char| #[trigger] kept.contains(c) implies text.contains(c) by {
        let i = choose|i: int| 0 <= i < kept.len() && kept[i] == c;
        assert(kept[i] == rest[i]);
        assert(rest[i] == text[i + leading_white(text)]);
    }
}

/// No piece of a split holds the mark.
proof fn lemma_split_pieces(text: Seq<char>, mark: char)
    ensures
        split(text, mark).len() > 0,
        forall|i: int|
            0 <= i < split(text, mark).len() ==> !(#[trigger] split(text, mark)[i]).contains(mark),
    decreases text.len(),
{
    let at = before(text, mark) as int;
    lemma_before(text, mark);
    if at < text.len() {
        let rest = text.skip(at + 1);
        lemma_split_pieces(rest, mark);
        assert forall|i: int| 0 <= i < split(text, mark).len() implies !(#[trigger] split(
            text,
            mark,
        )[i]).contains(mark) by {
            if i > 0 {
                assert(split(text, mark)[i] == split(rest, mark)[i - 1]);
            }
        }
    }
}

/// No line holds a newline.
proof fn lemma_lines_clean(text: Seq<char>)
    ensures
        lines(text).len() > 0,
        forall|i: int| 0 <= i < lines(text).len() ==> !(#[trigger] lines(text)[i]).contains('\n'),
{
    lemma_split_pieces(text, '\n');
    let pieces = split(text, '\n');
    assert forall|i: int| 0 <= i < lines(text).len() implies !(#[trigger] lines(
        text,
    )[i]).contains('\n') by {
        lemma_strip_end(pieces[i], '\r');
        let line = lines(text)[i];
        if line.contains('\n') {
            let j = choose|j: int| 0 <= j < line.len() && line[j] == '\n';
            assert(pieces[i][j] == '\n');
        }
    }
}

/// Headers that were read are clean.
proof fn lemma_read_headers_clean(rows: Seq<Seq<char>>)
    requires
        forall|i: int| 0 <= i < rows.len() ==> !(#[trigger] rows[i]).contains('\n'),
    ensures
        read_headers(rows) matches Ok(headers) ==> clean_headers(headers),
    decreases rows.len(),
{
    if rows.len() > 0 && rows[0].len() > 0 {
        let row = rows[0];
        lemma_before(row, ':');
        assert forall|i: int| 0 <= i < rows.skip(1).len() implies !(#[trigger] rows.skip(
            1,
        )[i]).contains('\n') by {
            assert(rows.skip(1)[i] == rows[i + 1]);
        }
        lemma_read_headers_clean(rows.skip(1));
        match (split_once(row, ':'), read_headers(rows.skip(1))) {
            (Some((name, value)), Ok(rest)) => {
                lemma_trim(name);
                lemma_trim(value);
                assert(!row.contains('\n'));
                assert(!name.contains('\n')) by {
                    if name.contains('\n') {
                        let j = choose|j: int| 0 <= j < name.len() && name[j] == '\n';
                        assert(row[j] == '\n');
                    }
                }
                assert(!name.contains(':'));
                assert(!value.contains('\n')) by {
                    if value.contains('\n') {
                        let j = choose|j: int| 0 <= j < value.len() && value[j] == '\n';
                        assert(row[j + before(row, ':') + 1] == '\n');
                    }
                }
                assert(!trim(name).contains('\n') && !trim(name).contains(':'));
                assert(!trim(value).contains('\n'));
                let headers = seq![(trim(name), trim(value))] + rest;
                assert forall|i: int| 0 <= i < headers.len() implies clean_name(
                    (#[trigger] headers[i]).0,
                ) && clean_value(headers[i].1) by {
                    if i > 0 {
                        assert(headers[i] == rest[i - 1]);
                    }
                }
            },
            _ => {},
        }
    }
}

/// What was read from a datagram has clean headers: names and values without
/// white space around them, on one line, and no colon in a name.
pub proof fn what_is_read_is_clean(bytes: Seq<u8>)
    ensures
        read_datagram(bytes) matches Ok(message) ==> clean_headers(message.headers),
{
    if valid_utf8(bytes) {
        let rows = lines(decode_utf8(bytes));
        lemma_lines_clean(decode_utf8(bytes));
        assert forall|i: int| 0 <= i < rows.skip(1).len() implies !(#[trigger] rows.skip(
            1,
        )[i]).contains('\n') by {
            assert(rows.skip(1)[i] == rows[i + 1]);
        }
        lemma_read_headers_clean(rows.skip(1));
    }
}

/// The first line of a text that opens with `line`, a carriage return and a
/// newline.
proof fn lemma_first_line(line: Seq<char>, rest: Seq<char>)
    requires
        !line.contains('\n'),
        line.len() > 0 ==> line.last() != '\r',
    ensures
        lines(line + "\r\n"@ + rest) == seq![line] + lines(rest),
{
    reveal_strlit("\r\n");
    let text = line + "\r\n"@ + rest;
    let at = line.len() as int + 1;
    assert forall|i: int| 0 <= i < at implies text[i] != '\n' by {
        if i < line.len() {
            assert(text[i] == line[i]);
            assert(line.contains(line[i]));
        }
    }
    lemma_before_is(text, '\n', at);
    lemma_lines(text);
    assert(text.skip(at + 1) =~= rest);
    let ended = text.take(at);
    assert(ended =~= line.push('\r'));
    assert(ended.drop_last() =~= line);
    assert(strip_end(ended, '\r') == strip_end(line, '\r'));
    assert(strip_end(line, '\r') == line);
}

/// A clean header reads back from its line.
proof fn lemma_header_reads_back(header: HeaderView)
    requires
        clean_name(header.0),
        clean_value(header.1),
    ensures
        ({
            let line = header.0 + ": "@ + header.1;
            &&& line.len() > 0
            &&& line.last() != '\r'
            &&& !line.contains('\n')
            &&& split_once(line, ':') matches Some((name, value)) && trim(name) == header.0 && trim(
                value,
            ) == header.1
        }),
{
    reveal_strlit(": ");
    let (name, value) = header;
    let line = name + ": "@ + value;
    lemma_trim_keeps(name);
    lemma_trim_keeps(value);
    if value.len() > 0 {
        assert(line.last() == value.last());
    } else {
        assert(line.last() == ' ');
    }
    if line.contains('\n') {
        let i = choose|i: int| 0 <= i < line.len() && line[i] == '\n';
        if i < name.len() {
            assert(name.contains(name[i]));
        } else if i >= name.len() + 2 {
            assert(value.contains(value[i - name.len() - 2]));
        }
    }
    assert forall|i: int| 0 <= i < name.len() implies line[i] != ':' by {
        assert(name.contains(name[i]));
    }
    lemma_before_is(line, ':', name.len() as int);
    assert(line.take(name.len() as int) =~= name);
    let after = line.skip(name.len() as int + 1);
    assert(after =~= seq![' '] + value);
    lemma_leading_white_is(after, 1);
    assert(trim_start(after) =~= value);
    assert(trim_end(value) == value);
}

/// Clean headers read back from their lines and the blank line after them,
/// whatever follows.
proof fn lemma_headers_read_back(headers: Seq<HeaderView>, tail: Seq<char>)
    requires
        clean_headers(headers),
    ensures
        read_headers(lines(header_lines(headers) + "\r\n"@ + tail)) == Ok::<
            Seq<HeaderView>,
            RefusalView,
        >(headers),
    decreases headers.len(),
{
    let empty = Seq::<char>::empty();
    if headers.len() == 0 {
        lemma_first_line(empty, tail);
        assert(empty + "\r\n"@ + tail =~= header_lines(headers) + "\r\n"@ + tail);
        assert((seq![empty] + lines(tail))[0] == empty);
        assert(headers =~= Seq::<HeaderView>::empty());
    } else {
        let header = headers[0];
        let line = header.0 + ": "@ + header.1;
        let rest = headers.skip(1);
        let after = header_lines(rest) + "\r\n"@ + tail;
        assert(clean_headers(rest)) by {
            assert forall|i: int| 0 <= i < rest.len() implies clean_name((#[trigger] rest[i]).0)
                && clean_value(rest[i].1) by {
                assert(rest[i] == headers[i + 1]);
            }
        }
        lemma_header_reads_back(header);
        lemma_first_line(line, after);
        assert(header_lines(headers) + "\r\n"@ + tail =~= line + "\r\n"@ + after);
        lemma_headers_read_back(rest, tail);
        let all = seq![line] + lines(after);
        assert(all.skip(1) =~= lines(after));
        assert(all[0] == line);
        assert(seq![header] + rest =~= headers);
    }
}

/// One word by itself.
proof fn lemma_one_word(word: Seq<char>)
    requires
        word.len() > 0,
        forall|i: int| 0 <= i < word.len() ==> !white(#[trigger] word[i]),
    ensures
        words(word) == seq![word],
{
    lemma_leading_white_is(word, 0);
    lemma_leading_word_is(word, word.len() as int);
    assert(trim_start(word) =~= word);
    assert(word.take(word.len() as int) =~= word);
    let none = word.skip(word.len() as int);
    assert(none =~= Seq::<char>::empty());
    assert(trim_start(none) =~= Seq::<char>::empty());
    assert(words(none) =~= Seq::<Seq<char>>::empty());
}

/// One word before others.
proof fn lemma_word_before(word: Seq<char>, rest: Seq<char>)
    requires
        word.len() > 0,
        forall|i: int| 0 <= i < word.len() ==> !white(#[trigger] word[i]),
        rest.len() > 0,
        !white(rest[0]),
    ensures
        words(word + seq![' '] + rest) == seq![word] + words(rest),
{
    let text = word + seq![' '] + rest;
    assert forall|i: int| 0 <= i < word.len() implies !white(#[trigger] text[i]) by {
        assert(text[i] == word[i]);
    }
    lemma_leading_white_is(text, 0);
    lemma_leading_word_is(text, word.len() as int);
    assert(trim_start(text) =~= text);
    assert(text.take(word.len() as int) =~= word);
    let after = text.skip(word.len() as int);
    lemma_leading_white_is(after, 1);
    assert(trim_start(after) =~= rest);
    lemma_words_trimmed(after);
}

/// Each start line is one line, and opens the kind of message it is for.
proof fn lemma_start_line(kind: Kind)
    ensures
        kind.line().len() > 0,
        kind.line().last() != '\r',
        !kind.line().contains('\n'),
        trim(kind.line()) == kind.line(),
        kind_of(words(kind.line())) == Some(kind),
{
    reveal_strlit("NOTIFY");
    reveal_strlit("M-SEARCH");
    reveal_strlit("*");
    reveal_strlit("HTTP/1.1");
    reveal_strlit("200");
    reveal_strlit("OK");
    lemma_one_word("HTTP/1.1"@);
    lemma_one_word("OK"@);
    lemma_word_before("*"@, "HTTP/1.1"@);
    let tail = "*"@ + seq![' '] + "HTTP/1.1"@;
    lemma_trim_keeps(kind.line());
    match kind {
        Kind::Notify => {
            reveal_strlit("NOTIFY * HTTP/1.1");
            lemma_word_before("NOTIFY"@, tail);
            assert(kind.line() =~= "NOTIFY"@ + seq![' '] + tail);
            assert(words(kind.line()) =~= seq!["NOTIFY"@, "*"@, "HTTP/1.1"@]);
        },
        Kind::Search => {
            reveal_strlit("M-SEARCH * HTTP/1.1");
            lemma_word_before("M-SEARCH"@, tail);
            assert(kind.line() =~= "M-SEARCH"@ + seq![' '] + tail);
            assert(words(kind.line()) =~= seq!["M-SEARCH"@, "*"@, "HTTP/1.1"@]);
            assert("NOTIFY"@.len() != "M-SEARCH"@.len());
            assert(words(kind.line())[0] != seq!["NOTIFY"@, "*"@, "HTTP/1.1"@][0]);
        },
        Kind::Response => {
            reveal_strlit("HTTP/1.1 200 OK");
            lemma_word_before("200"@, "OK"@);
            let end = "200"@ + seq![' '] + "OK"@;
            lemma_word_before("HTTP/1.1"@, end);
            assert(kind.line() =~= "HTTP/1.1"@ + seq![' '] + end);
            assert(words(kind.line()) =~= seq!["HTTP/1.1"@, "200"@, "OK"@]);
            assert("HTTP/1.1"@.len() != "NOTIFY"@.len());
            assert("HTTP/1.1"@[0] != "M-SEARCH"@[0]);
            assert(words(kind.line())[0] != seq!["NOTIFY"@, "*"@, "HTTP/1.1"@][0]);
            assert(words(kind.line())[0] != seq!["M-SEARCH"@, "*"@, "HTTP/1.1"@][0]);
        },
    }
}

/// The lines of a text with a newline in it are those before that newline and
/// those after it.
proof fn lemma_lines_at(a: Seq<char>, b: Seq<char>)
    ensures
        lines(a + seq!['\n'] + b) == lines(a) + lines(b),
{
    lemma_split_at(a, '\n', b);
    let strip = |line: Seq<char>| strip_end(line, '\r');
    assert((split(a, '\n') + split(b, '\n')).map_values(strip) =~= split(a, '\n').map_values(strip)
        + split(b, '\n').map_values(strip));
}

/// A carriage return at the end of a text changes none of its lines.
proof fn lemma_lines_return(text: Seq<char>)
    ensures
        lines(text.push('\r')) == lines(text),
    decreases text.len(),
{
    let longer = text.push('\r');
    let at = before(text, '\n') as int;
    lemma_before(text, '\n');
    lemma_lines(text);
    lemma_lines(longer);
    if at < text.len() {
        lemma_before_is(longer, '\n', at);
        assert(longer.take(at) =~= text.take(at));
        assert(longer.skip(at + 1) =~= text.skip(at + 1).push('\r'));
        lemma_lines_return(text.skip(at + 1));
    } else {
        lemma_before_is(longer, '\n', at + 1);
        assert(longer.take(at + 1) =~= longer);
        assert(text.take(at) =~= text);
        assert(longer.drop_last() =~= text);
    }
}

/// A bare newline ends a line as a carriage return and a newline do, anywhere
/// in a text.
pub proof fn bare_newline_ends_a_line(head: Seq<char>, tail: Seq<char>)
    ensures
        read_text(head + "\r\n"@ + tail) == read_text(head + "\n"@ + tail),
{
    reveal_strlit("\r\n");
    reveal_strlit("\n");
    assert(head + "\r\n"@ + tail =~= head.push('\r') + seq!['\n'] + tail);
    assert(head + "\n"@ + tail =~= head + seq!['\n'] + tail);
    lemma_lines_at(head.push('\r'), tail);
    lemma_lines_at(head, tail);
    lemma_lines_return(head);
}

/// The lines of headers and of one more are those of the headers and the line
/// of that one.
proof fn lemma_header_lines_push(headers: Seq<HeaderView>, header: HeaderView)
    ensures
        header_lines(headers.push(header)) == header_lines(headers) + header_line(header),
    decreases headers.len(),
{
    let all = headers.push(header);
    if headers.len() == 0 {
        assert(all.skip(1) =~= Seq::<HeaderView>::empty());
        assert(header_lines(all.skip(1)) =~= Seq::<char>::empty());
        assert(header_lines(all) =~= header_lines(headers) + header_line(header));
    } else {
        assert(all.skip(1) =~= headers.skip(1).push(header));
        lemma_header_lines_push(headers.skip(1), header);
        assert(header_line(headers[0]) + (header_lines(headers.skip(1)) + header_line(header))
            =~= header_lines(headers) + header_line(header));
    }
}

/// A header appended to a message is a line appended to its headers, before
/// the blank line.
pub proof fn header_appended_is_a_line_appended(
    message: MessageView,
    name: Seq<char>,
    value: Seq<char>,
)
    ensures
        message.text() == message.kind.line() + "\r\n"@ + header_lines(message.headers) + "\r\n"@,
        message.plus(name, value).text() == message.kind.line() + "\r\n"@ + header_lines(
            message.headers,
        ) + (name + ": "@ + value + "\r\n"@) + "\r\n"@,
{
    lemma_header_lines_push(message.headers, (name, value));
    assert(message.plus(name, value).text() =~= message.kind.line() + "\r\n"@ + header_lines(
        message.headers,
    ) + (name + ": "@ + value + "\r\n"@) + "\r\n"@);
}

/// Nothing after a blank line is read as a header.
proof fn lemma_headers_end(rows: Seq<Seq<char>>, one: Seq<Seq<char>>, other: Seq<Seq<char>>)
    requires
        one.len() > 0,
        one[0].len() == 0,
        other.len() > 0,
        other[0].len() == 0,
    ensures
        read_headers(rows + one) == read_headers(rows + other),
    decreases rows.len(),
{
    if rows.len() > 0 {
        lemma_headers_end(rows.skip(1), one, other);
        assert((rows + one).skip(1) =~= rows.skip(1) + one);
        assert((rows + other).skip(1) =~= rows.skip(1) + other);
    }
}

/// What follows the blank line is ignored, in any text: a newline, carriage
/// returns or none, and a newline end what is read.
pub proof fn what_follows_a_blank_line_is_ignored(
    head: Seq<char>,
    blank: Seq<char>,
    tail: Seq<char>,
)
    requires
        forall|i: int| 0 <= i < blank.len() ==> blank[i] == '\r',
    ensures
        read_text(head + seq!['\n'] + blank + seq!['\n'] + tail) == read_text(
            head + seq!['\n'] + blank + seq!['\n'],
        ),
{
    let none = Seq::<char>::empty();
    let one = lines(blank) + lines(tail);
    let other = lines(blank) + lines(none);
    let long = head + seq!['\n'] + blank + seq!['\n'] + tail;
    let short = head + seq!['\n'] + blank + seq!['\n'];
    assert(long =~= head + seq!['\n'] + (blank + seq!['\n'] + tail));
    assert(short =~= head + seq!['\n'] + (blank + seq!['\n'] + none));
    lemma_lines_at(head, blank + seq!['\n'] + tail);
    lemma_lines_at(blank, tail);
    lemma_lines_at(head, blank + seq!['\n'] + none);
    lemma_lines_at(blank, none);
    lemma_before_is(blank, '\n', blank.len() as int);
    lemma_lines(blank);
    lemma_strip_end(blank, '\r');
    assert(blank.take(blank.len() as int) =~= blank);
    assert(strip_end(blank, '\r').len() == 0);
    assert(one[0] == lines(blank)[0] && other[0] == lines(blank)[0]);
    lemma_lines_clean(head);
    assert(lines(long)[0] == lines(head)[0] && lines(short)[0] == lines(head)[0]);
    let rows = lines(head).skip(1);
    assert(lines(long).skip(1) =~= rows + one);
    assert(lines(short).skip(1) =~= rows + other);
    lemma_headers_end(rows, one, other);
}

/// What follows two newlines is ignored, in any text.
pub proof fn what_follows_is_ignored(head: Seq<char>, tail: Seq<char>)
    ensures
        read_text(head + "\n\n"@ + tail) == read_text(head + "\n\n"@),
{
    reveal_strlit("\n\n");
    let none = Seq::<char>::empty();
    assert(head + "\n\n"@ + tail =~= head + seq!['\n'] + none + seq!['\n'] + tail);
    assert(head + "\n\n"@ =~= head + seq!['\n'] + none + seq!['\n']);
    what_follows_a_blank_line_is_ignored(head, none, tail);
}

/// A message with clean headers is read from its text whatever stands after
/// it.
pub proof fn what_follows_a_message_is_ignored(message: MessageView, tail: Seq<char>)
    requires
        clean_headers(message.headers),
    ensures
        read_text(message.text() + tail) == Ok::<MessageView, RefusalView>(message),
{
    let line = message.kind.line();
    let after = header_lines(message.headers) + "\r\n"@ + tail;
    lemma_start_line(message.kind);
    lemma_first_line(line, after);
    assert(message.text() + tail =~= line + "\r\n"@ + after);
    lemma_headers_read_back(message.headers, tail);
    let all = seq![line] + lines(after);
    assert(all[0] == line);
    assert(all.skip(1) =~= lines(after));
}

/// A message reads back from its datagram as it was exactly where its headers
/// are clean.
pub proof fn message_reads_back(message: MessageView)
    ensures
        read_datagram(message.datagram()) == Ok::<MessageView, RefusalView>(message)
            <==> clean_headers(message.headers),
{
    let text = message.text();
    encode_utf8_valid_utf8(text);
    encode_utf8_decode_utf8(text);
    what_is_read_is_clean(message.datagram());
    if clean_headers(message.headers) {
        what_follows_a_message_is_ignored(message, seq![]);
        assert(text + seq![] =~= text);
    }
}

/// Writing what was read and reading it again changes nothing.
pub proof fn reading_settles(bytes: Seq<u8>)
    ensures
        read_datagram(bytes) matches Ok(message) ==> read_datagram(message.datagram()) == Ok::<
            MessageView,
            RefusalView,
        >(message),
{
    what_is_read_is_clean(bytes);
    if let Ok(message) = read_datagram(bytes) {
        message_reads_back(message);
    }
}

/// Text in UTF-8 is its parts in UTF-8, one after the other.
pub proof fn lemma_encode_concat(a: Seq<char>, b: Seq<char>)
    ensures
        encode_utf8(a + b) == encode_utf8(a) + encode_utf8(b),
    decreases a.len(),
{
    if a.len() == 0 {
        assert(a + b =~= b);
        assert(encode_utf8(a) + encode_utf8(b) =~= encode_utf8(b));
    } else {
        assert((a + b).drop_first() =~= a.drop_first() + b);
        lemma_encode_concat(a.drop_first(), b);
        let first = encode_scalar(a[0] as u32);
        assert(first + (encode_utf8(a.drop_first()) + encode_utf8(b)) =~= (first + encode_utf8(
            a.drop_first(),
        )) + encode_utf8(b));
    }
}

/// Every datagram that a message is opens with its start line.
pub proof fn datagram_opens_as_message(message: MessageView)
    ensures
        opens_as_message(message.datagram()),
{
    let line = message.kind.line();
    let rest = "\r\n"@ + header_lines(message.headers) + "\r\n"@;
    assert(message.text() =~= line + rest);
    lemma_encode_concat(line, rest);
    assert(message.datagram().subrange(0, encode_utf8(line).len() as int) =~= encode_utf8(line));
    assert(opens_with(message.datagram(), line));
}

/// A number in decimal is a clean value.
pub proof fn lemma_decimal_clean(n: nat)
    ensures
        clean_value(decimal(n)),
{
    decimal_reads_back(n);
    let text = decimal(n);
    assert(digit(text[0]) && digit(text.last()));
    lemma_trim_keeps(text);
    if text.contains('\n') {
        let i = choose|i: int| 0 <= i < text.len() && text[i] == '\n';
        assert(digit(text[i]));
    }
}

/// What a message of the library's own making is written with is clean.
proof fn lemma_own_text_clean()
    ensures
        clean_name("HOST"@),
        clean_name("CACHE-CONTROL"@),
        clean_name("LOCATION"@),
        clean_name("NT"@),
        clean_name("NTS"@),
        clean_name("SERVER"@),
        clean_name("USN"@),
        clean_name("MAN"@),
        clean_name("MX"@),
        clean_name("ST"@),
        clean_name("EXT"@),
        clean_value(GROUP@),
        clean_value("max-age=1800"@),
        clean_value(ALIVE@),
        clean_value(BYEBYE@),
        clean_value("\"ssdp:discover\""@),
        clean_value(""@),
{
    reveal_strlit("HOST");
    reveal_strlit("CACHE-CONTROL");
    reveal_strlit("LOCATION");
    reveal_strlit("NT");
    reveal_strlit("NTS");
    reveal_strlit("SERVER");
    reveal_strlit("USN");
    reveal_strlit("MAN");
    reveal_strlit("MX");
    reveal_strlit("ST");
    reveal_strlit("EXT");
    reveal_strlit("239.255.255.250:1900");
    reveal_strlit("max-age=1800");
    reveal_strlit("ssdp:alive");
    reveal_strlit("ssdp:byebye");
    reveal_strlit("\"ssdp:discover\"");
    reveal_strlit("");
    lemma_trim_keeps("HOST"@);
    lemma_trim_keeps("CACHE-CONTROL"@);
    lemma_trim_keeps("LOCATION"@);
    lemma_trim_keeps("NT"@);
    lemma_trim_keeps("NTS"@);
    lemma_trim_keeps("SERVER"@);
    lemma_trim_keeps("USN"@);
    lemma_trim_keeps("MAN"@);
    lemma_trim_keeps("MX"@);
    lemma_trim_keeps("ST"@);
    lemma_trim_keeps("EXT"@);
    lemma_trim_keeps(GROUP@);
    lemma_trim_keeps("max-age=1800"@);
    lemma_trim_keeps(ALIVE@);
    lemma_trim_keeps(BYEBYE@);
    lemma_trim_keeps("\"ssdp:discover\""@);
    lemma_trim_keeps(""@);
}

/// A notification that a device is there reads back exactly where what it
/// says of the device is clean.
pub proof fn alive_reads_back(
    nt: Seq<char>,
    usn: Seq<char>,
    location: Seq<char>,
    server: Seq<char>,
)
    ensures
        ({
            let message = MessageView::alive(nt, usn, location, server);
            read_datagram(message.datagram()) == Ok::<MessageView, RefusalView>(message) <==> (
            clean_value(nt) && clean_value(usn) && clean_value(location) && clean_value(server))
        }),
{
    let message = MessageView::alive(nt, usn, location, server);
    message_reads_back(message);
    lemma_own_text_clean();
    let headers = message.headers;
    assert(headers[2].1 == location && headers[3].1 == nt && headers[5].1 == server && headers[6].1
        == usn);
}

/// A notification that a device has gone reads back exactly where what it
/// says of the device is clean.
pub proof fn byebye_reads_back(nt: Seq<char>, usn: Seq<char>)
    ensures
        ({
            let message = MessageView::byebye(nt, usn);
            read_datagram(message.datagram()) == Ok::<MessageView, RefusalView>(message) <==> (
            clean_value(nt) && clean_value(usn))
        }),
{
    let message = MessageView::byebye(nt, usn);
    message_reads_back(message);
    lemma_own_text_clean();
    let headers = message.headers;
    assert(headers[1].1 == nt && headers[3].1 == usn);
}

/// A search reads back exactly where what it is for is clean.
pub proof fn search_reads_back(st: Seq<char>, mx: u8)
    ensures
        ({
            let message = MessageView::search(st, mx);
            read_datagram(message.datagram()) == Ok::<MessageView, RefusalView>(message)
                <==> clean_value(st)
        }),
{
    let message = MessageView::search(st, mx);
    message_reads_back(message);
    lemma_own_text_clean();
    lemma_decimal_clean(mx as nat);
    let headers = message.headers;
    assert(headers[3].1 == st);
}

/// An answer reads back exactly where what it says of the device is clean.
pub proof fn response_reads_back(
    st: Seq<char>,
    usn: Seq<char>,
    location: Seq<char>,
    server: Seq<char>,
)
    ensures
        ({
            let message = MessageView::response(st, usn, location, server);
            read_datagram(message.datagram()) == Ok::<MessageView, RefusalView>(message) <==> (
            clean_value(st) && clean_value(usn) && clean_value(location) && clean_value(server))
        }),
{
    let message = MessageView::response(st, usn, location, server);
    message_reads_back(message);
    lemma_own_text_clean();
    let headers = message.headers;
    assert(headers[2].1 == location && headers[3].1 == server && headers[4].1 == st && headers[5].1
        == usn);
}

/// A message without headers is its start line and a blank line.
pub proof fn bare_message_is_written()
    ensures
        (MessageView { kind: Kind::Notify, headers: seq![] }).text()
            == "NOTIFY * HTTP/1.1\r\n\r\n"@,
        (MessageView { kind: Kind::Search, headers: seq![] }).text()
            == "M-SEARCH * HTTP/1.1\r\n\r\n"@,
        (MessageView { kind: Kind::Response, headers: seq![] }).text()
            == "HTTP/1.1 200 OK\r\n\r\n"@,
{
    reveal_strlit("\r\n");
    let none = Seq::<HeaderView>::empty();
    assert(header_lines(none) =~= Seq::<char>::empty());
    assert((MessageView { kind: Kind::Notify, headers: none }).text()
        =~= "NOTIFY * HTTP/1.1\r\n\r\n"@) by {
        reveal_strlit("NOTIFY * HTTP/1.1");
        reveal_strlit("NOTIFY * HTTP/1.1\r\n\r\n");
    }
    assert((MessageView { kind: Kind::Search, headers: none }).text()
        =~= "M-SEARCH * HTTP/1.1\r\n\r\n"@) by {
        reveal_strlit("M-SEARCH * HTTP/1.1");
        reveal_strlit("M-SEARCH * HTTP/1.1\r\n\r\n");
    }
    assert((MessageView { kind: Kind::Response, headers: none }).text()
        =~= "HTTP/1.1 200 OK\r\n\r\n"@) by {
        reveal_strlit("HTTP/1.1 200 OK");
        reveal_strlit("HTTP/1.1 200 OK\r\n\r\n");
    }
}

/// A header more makes the text of a message longer by one line, in front of
/// the blank line that ends it.
pub proof fn header_more_is_a_line_more(message: MessageView, name: Seq<char>, value: Seq<char>)
    ensures
        message.text().len() >= 2,
        message.plus(name, value).text() == message.text().take(message.text().len() - 2) + name
            + ": "@ + value + "\r\n\r\n"@,
{
    header_appended_is_a_line_appended(message, name, value);
    reveal_strlit("\r\n");
    reveal_strlit("\r\n\r\n");
    let opening = message.kind.line() + "\r\n"@ + header_lines(message.headers);
    assert(message.text().take(message.text().len() - 2) =~= opening);
    assert(message.plus(name, value).text() =~= opening + name + ": "@ + value + "\r\n\r\n"@);
}

/// The datagram of a message is its text in UTF-8.
pub proof fn datagram_is_the_text(message: MessageView)
    ensures
        message.datagram() == encode_utf8(message.text()),
{
}

/// The text of a message before the blank line that ends it.
spec fn opening(message: MessageView) -> Seq<char> {
    message.text().take(message.text().len() - 2)
}

/// A header more makes the opening of a message longer by its line.
proof fn lemma_line_more(
    message: MessageView,
    name: Seq<char>,
    value: Seq<char>,
    lead: Seq<char>,
) -> (longer: MessageView)
    requires
        lead == name + ": "@,
    ensures
        longer == message.plus(name, value),
        opening(longer) == opening(message) + lead + value + "\r\n"@,
{
    header_more_is_a_line_more(message, name, value);
    reveal_strlit("\r\n");
    reveal_strlit("\r\n\r\n");
    let longer = message.plus(name, value);
    assert(opening(longer) =~= opening(message) + lead + value + "\r\n"@);
    longer
}

/// A message without headers opens with its start line.
proof fn lemma_bare_opening(kind: Kind) -> (bare: MessageView)
    ensures
        bare == (MessageView { kind, headers: seq![] }),
        opening(bare) == kind.line() + "\r\n"@,
{
    let bare = MessageView { kind, headers: seq![] };
    reveal_strlit("\r\n");
    assert(header_lines(bare.headers) =~= Seq::<char>::empty());
    assert(opening(bare) =~= kind.line() + "\r\n"@);
    bare
}

/// The text of a message is its opening and a blank line.
proof fn lemma_opening_ends(message: MessageView)
    ensures
        message.text() == opening(message) + "\r\n"@,
{
    reveal_strlit("\r\n");
    assert(message.text() =~= opening(message) + "\r\n"@);
}

/// The names in the library's own messages, as their lines begin.
proof fn lemma_leads()
    ensures
        "HOST: "@ == "HOST"@ + ": "@,
        "CACHE-CONTROL: "@ == "CACHE-CONTROL"@ + ": "@,
        "LOCATION: "@ == "LOCATION"@ + ": "@,
        "NT: "@ == "NT"@ + ": "@,
        "NTS: "@ == "NTS"@ + ": "@,
        "SERVER: "@ == "SERVER"@ + ": "@,
        "USN: "@ == "USN"@ + ": "@,
        "MAN: "@ == "MAN"@ + ": "@,
        "MX: "@ == "MX"@ + ": "@,
        "ST: "@ == "ST"@ + ": "@,
        "EXT: "@ == "EXT"@ + ": "@,
{
    reveal_strlit(": ");
    assert("HOST: "@ =~= "HOST"@ + ": "@) by {
        reveal_strlit("HOST: ");
        reveal_strlit("HOST");
    }
    assert("CACHE-CONTROL: "@ =~= "CACHE-CONTROL"@ + ": "@) by {
        reveal_strlit("CACHE-CONTROL: ");
        reveal_strlit("CACHE-CONTROL");
    }
    assert("LOCATION: "@ =~= "LOCATION"@ + ": "@) by {
        reveal_strlit("LOCATION: ");
        reveal_strlit("LOCATION");
    }
    assert("NT: "@ =~= "NT"@ + ": "@) by {
        reveal_strlit("NT: ");
        reveal_strlit("NT");
    }
    assert("NTS: "@ =~= "NTS"@ + ": "@) by {
        reveal_strlit("NTS: ");
        reveal_strlit("NTS");
    }
    assert("SERVER: "@ =~= "SERVER"@ + ": "@) by {
        reveal_strlit("SERVER: ");
        reveal_strlit("SERVER");
    }
    assert("USN: "@ =~= "USN"@ + ": "@) by {
        reveal_strlit("USN: ");
        reveal_strlit("USN");
    }
    assert("MAN: "@ =~= "MAN"@ + ": "@) by {
        reveal_strlit("MAN: ");
        reveal_strlit("MAN");
    }
    assert("MX: "@ =~= "MX"@ + ": "@) by {
        reveal_strlit("MX: ");
        reveal_strlit("MX");
    }
    assert("ST: "@ =~= "ST"@ + ": "@) by {
        reveal_strlit("ST: ");
        reveal_strlit("ST");
    }
    assert("EXT: "@ =~= "EXT"@ + ": "@) by {
        reveal_strlit("EXT: ");
        reveal_strlit("EXT");
    }
}

/// A notification that a device is there, in full.
pub proof fn alive_is_written(
    nt: Seq<char>,
    usn: Seq<char>,
    location: Seq<char>,
    server: Seq<char>,
)
    ensures
        MessageView::alive(nt, usn, location, server).text() == "NOTIFY * HTTP/1.1"@ + "\r\n"@
            + "HOST: "@ + "239.255.255.250:1900"@ + "\r\n"@
            + "CACHE-CONTROL: "@ + "max-age=1800"@ + "\r\n"@
            + "LOCATION: "@ + location + "\r\n"@
            + "NT: "@ + nt + "\r\n"@
            + "NTS: "@ + "ssdp:alive"@ + "\r\n"@
            + "SERVER: "@ + server + "\r\n"@
            + "USN: "@ + usn + "\r\n"@
            + "\r\n"@,
{
    lemma_leads();
    let m0 = lemma_bare_opening(Kind::Notify);
    let m1 = lemma_line_more(m0, "HOST"@, GROUP@, "HOST: "@);
    let m2 = lemma_line_more(m1, "CACHE-CONTROL"@, "max-age=1800"@, "CACHE-CONTROL: "@);
    let m3 = lemma_line_more(m2, "LOCATION"@, location, "LOCATION: "@);
    let m4 = lemma_line_more(m3, "NT"@, nt, "NT: "@);
    let m5 = lemma_line_more(m4, "NTS"@, ALIVE@, "NTS: "@);
    let m6 = lemma_line_more(m5, "SERVER"@, server, "SERVER: "@);
    let m7 = lemma_line_more(m6, "USN"@, usn, "USN: "@);
    assert(MessageView::alive(nt, usn, location, server) =~= m7);
    lemma_opening_ends(m7);
}

/// A notification that a device has gone, in full.
pub proof fn byebye_is_written(nt: Seq<char>, usn: Seq<char>)
    ensures
        MessageView::byebye(nt, usn).text() == "NOTIFY * HTTP/1.1"@ + "\r\n"@
            + "HOST: "@ + "239.255.255.250:1900"@ + "\r\n"@
            + "NT: "@ + nt + "\r\n"@
            + "NTS: "@ + "ssdp:byebye"@ + "\r\n"@
            + "USN: "@ + usn + "\r\n"@
            + "\r\n"@,
{
    lemma_leads();
    let m0 = lemma_bare_opening(Kind::Notify);
    let m1 = lemma_line_more(m0, "HOST"@, GROUP@, "HOST: "@);
    let m2 = lemma_line_more(m1, "NT"@, nt, "NT: "@);
    let m3 = lemma_line_more(m2, "NTS"@, BYEBYE@, "NTS: "@);
    let m4 = lemma_line_more(m3, "USN"@, usn, "USN: "@);
    assert(MessageView::byebye(nt, usn) =~= m4);
    lemma_opening_ends(m4);
}

/// A search, in full.
pub proof fn search_is_written(st: Seq<char>, mx: u8)
    ensures
        MessageView::search(st, mx).text() == "M-SEARCH * HTTP/1.1"@ + "\r\n"@
            + "HOST: "@ + "239.255.255.250:1900"@ + "\r\n"@
            + "MAN: "@ + "\"ssdp:discover\""@ + "\r\n"@
            + "MX: "@ + decimal(mx as nat) + "\r\n"@
            + "ST: "@ + st + "\r\n"@
            + "\r\n"@,
{
    lemma_leads();
    let m0 = lemma_bare_opening(Kind::Search);
    let m1 = lemma_line_more(m0, "HOST"@, GROUP@, "HOST: "@);
    let m2 = lemma_line_more(m1, "MAN"@, "\"ssdp:discover\""@, "MAN: "@);
    let m3 = lemma_line_more(m2, "MX"@, decimal(mx as nat), "MX: "@);
    let m4 = lemma_line_more(m3, "ST"@, st, "ST: "@);
    assert(MessageView::search(st, mx) =~= m4);
    lemma_opening_ends(m4);
}

/// An answer to a search, in full.
pub proof fn response_is_written(
    st: Seq<char>,
    usn: Seq<char>,
    location: Seq<char>,
    server: Seq<char>,
)
    ensures
        MessageView::response(st, usn, location, server).text() == "HTTP/1.1 200 OK"@ + "\r\n"@
            + "CACHE-CONTROL: "@ + "max-age=1800"@ + "\r\n"@
            + "EXT: "@ + ""@ + "\r\n"@
            + "LOCATION: "@ + location + "\r\n"@
            + "SERVER: "@ + server + "\r\n"@
            + "ST: "@ + st + "\r\n"@
            + "USN: "@ + usn + "\r\n"@
            + "\r\n"@,
{
    lemma_leads();
    let m0 = lemma_bare_opening(Kind::Response);
    let m1 = lemma_line_more(m0, "CACHE-CONTROL"@, "max-age=1800"@, "CACHE-CONTROL: "@);
    let m2 = lemma_line_more(m1, "EXT"@, ""@, "EXT: "@);
    let m3 = lemma_line_more(m2, "LOCATION"@, location, "LOCATION: "@);
    let m4 = lemma_line_more(m3, "SERVER"@, server, "SERVER: "@);
    let m5 = lemma_line_more(m4, "ST"@, st, "ST: "@);
    let m6 = lemma_line_more(m5, "USN"@, usn, "USN: "@);
    assert(MessageView::response(st, usn, location, server) =~= m6);
    lemma_opening_ends(m6);
}

/// Bytes are a message already exactly where they open with one of the three
/// start lines.
pub proof fn start_lines_open_a_message(bytes: Seq<u8>)
    ensures
        opens_as_message(bytes) <==> {
            ||| encode_utf8("NOTIFY * HTTP/1.1"@).is_prefix_of(bytes)
            ||| encode_utf8("M-SEARCH * HTTP/1.1"@).is_prefix_of(bytes)
            ||| encode_utf8("HTTP/1.1 200 OK"@).is_prefix_of(bytes)
        },
{
}

/// A datagram is read as the text that it is in UTF-8, and refused where it
/// is none.
pub proof fn datagrams_are_read_as_text(text: Seq<char>, bytes: Seq<u8>)
    ensures
        read_datagram(encode_utf8(text)) == read_text(text),
        !valid_utf8(bytes) ==> read_datagram(bytes) == Err::<MessageView, RefusalView>(
            RefusalView::NotUtf8,
        ),
{
    encode_utf8_valid_utf8(text);
    encode_utf8_decode_utf8(text);
}

/// The only line of a text without a newline.
proof fn lemma_only_line(text: Seq<char>)
    requires
        !text.contains('\n'),
    ensures
        lines(text) == seq![strip_end(text, '\r')],
{
    one_piece_without_a_mark(text, '\n');
    assert(lines(text) =~= seq![strip_end(text, '\r')]);
}

/// Carriage returns at the end of a text neither change its words nor what
/// trimming leaves of it.
proof fn lemma_returns_are_white(text: Seq<char>)
    ensures
        trim(strip_end(text, '\r')) == trim(text),
        words(trim(strip_end(text, '\r'))) == words(text),
{
    let line = strip_end(text, '\r');
    let none = Seq::<char>::empty();
    lemma_strip_end(text, '\r');
    let crs = text.skip(line.len() as int);
    assert(text =~= none + line + crs);
    trim_ignores_white_space_around(none, line, crs);
    lemma_words_of_trimmed(text);
}

/// The start line alone decides the kind: three words that make one of the
/// three start lines, with any white space around them. Any other is refused,
/// trimmed.
pub proof fn start_line_decides(start: Seq<char>)
    requires
        !start.contains('\n'),
    ensures
        read_text(start) == if words(start) == seq!["NOTIFY"@, "*"@, "HTTP/1.1"@] {
            Ok::<MessageView, RefusalView>(MessageView { kind: Kind::Notify, headers: seq![] })
        } else if words(start) == seq!["M-SEARCH"@, "*"@, "HTTP/1.1"@] {
            Ok(MessageView { kind: Kind::Search, headers: seq![] })
        } else if words(start) == seq!["HTTP/1.1"@, "200"@, "OK"@] {
            Ok(MessageView { kind: Kind::Response, headers: seq![] })
        } else {
            Err(RefusalView::NotStartLine(trim(start)))
        },
{
    lemma_only_line(start);
    lemma_returns_are_white(start);
    assert(lines(start).skip(1) =~= Seq::<Seq<char>>::empty());
}

/// The three start lines are read as the three kinds, and no two of them are
/// the same.
pub proof fn each_start_line_is_its_kind()
    ensures
        words("NOTIFY * HTTP/1.1"@) == seq!["NOTIFY"@, "*"@, "HTTP/1.1"@],
        words("M-SEARCH * HTTP/1.1"@) == seq!["M-SEARCH"@, "*"@, "HTTP/1.1"@],
        words("HTTP/1.1 200 OK"@) == seq!["HTTP/1.1"@, "200"@, "OK"@],
{
    reveal_strlit("NOTIFY");
    reveal_strlit("M-SEARCH");
    reveal_strlit("*");
    reveal_strlit("HTTP/1.1");
    reveal_strlit("200");
    reveal_strlit("OK");
    lemma_one_word("HTTP/1.1"@);
    lemma_one_word("OK"@);
    lemma_word_before("*"@, "HTTP/1.1"@);
    lemma_word_before("200"@, "OK"@);
    let tail = "*"@ + seq![' '] + "HTTP/1.1"@;
    let end = "200"@ + seq![' '] + "OK"@;
    lemma_word_before("NOTIFY"@, tail);
    lemma_word_before("M-SEARCH"@, tail);
    lemma_word_before("HTTP/1.1"@, end);
    assert("NOTIFY * HTTP/1.1"@ =~= "NOTIFY"@ + seq![' '] + tail) by {
        reveal_strlit("NOTIFY * HTTP/1.1");
    }
    assert("M-SEARCH * HTTP/1.1"@ =~= "M-SEARCH"@ + seq![' '] + tail) by {
        reveal_strlit("M-SEARCH * HTTP/1.1");
    }
    assert("HTTP/1.1 200 OK"@ =~= "HTTP/1.1"@ + seq![' '] + end) by {
        reveal_strlit("HTTP/1.1 200 OK");
    }
    assert(words("NOTIFY * HTTP/1.1"@) =~= seq!["NOTIFY"@, "*"@, "HTTP/1.1"@]);
    assert(words("M-SEARCH * HTTP/1.1"@) =~= seq!["M-SEARCH"@, "*"@, "HTTP/1.1"@]);
    assert(words("HTTP/1.1 200 OK"@) =~= seq!["HTTP/1.1"@, "200"@, "OK"@]);
}

/// A text whose start line is refused is refused for it, whatever follows.
pub proof fn refused_start_line_refuses_all(start: Seq<char>, rest: Seq<char>)
    requires
        !start.contains('\n'),
    ensures
        read_text(start) is Err ==> read_text(start + "\n"@ + rest) == read_text(start),
        read_text(start) is Ok ==> (read_text(start + "\n"@ + rest) matches Ok(message)
            ==> message.kind == read_text(start)->Ok_0.kind),
        read_text(start) is Ok ==> (read_text(start + "\n"@ + rest) matches Err(refusal)
            ==> refusal is NoColon),
{
    lemma_only_line(start);
    lemma_text_from(start, rest);
    assert(lines(start).skip(1) =~= Seq::<Seq<char>>::empty());
    lemma_refused_headers(lines(rest));
}

/// Headers are refused only for a line without a colon.
proof fn lemma_refused_headers(rows: Seq<Seq<char>>)
    ensures
        read_headers(rows) matches Err(refusal) ==> refusal is NoColon,
    decreases rows.len(),
{
    if rows.len() > 0 {
        lemma_refused_headers(rows.skip(1));
    }
}

/// What a start line and more make.
proof fn lemma_text_from(start: Seq<char>, rest: Seq<char>)
    requires
        !start.contains('\n'),
    ensures
        lines(start + "\n"@ + rest)[0] == strip_end(start, '\r'),
        lines(start + "\n"@ + rest).skip(1) == lines(rest),
{
    reveal_strlit("\n");
    assert(start + "\n"@ + rest =~= start + seq!['\n'] + rest);
    lemma_lines_at(start, rest);
    lemma_only_line(start);
    assert((seq![strip_end(start, '\r')] + lines(rest)).skip(1) =~= lines(rest));
}

/// A header line, with or without white space around its name and its value,
/// adds that name and that value, both trimmed, in front of the headers after
/// it. The first colon ends the name; colons after it belong to the value.
pub proof fn header_line_is_read(
    start: Seq<char>,
    name: Seq<char>,
    gap: Seq<char>,
    value: Seq<char>,
    gap_after: Seq<char>,
    rest: Seq<char>,
)
    requires
        !start.contains('\n'),
        !name.contains(':'),
        !name.contains('\n'),
        !value.contains('\n'),
        forall|i: int| 0 <= i < gap.len() ==> white(gap[i]) && gap[i] != '\n',
        forall|i: int| 0 <= i < gap_after.len() ==> white(gap_after[i]) && gap_after[i] != '\n',
    ensures
        read_text(
            start + "\n"@ + (name + ":"@ + gap + value + gap_after + "\n"@ + rest),
        ) == match read_text(start + "\n"@ + rest) {
            Ok(message) => Ok::<MessageView, RefusalView>(
                MessageView {
                    kind: message.kind,
                    headers: seq![(trim(name), trim(value))] + message.headers,
                },
            ),
            Err(refusal) => Err(refusal),
        },
{
    reveal_strlit("\n");
    reveal_strlit(":");
    let after = gap + value + gap_after;
    let line = name + seq![':'] + after;
    let more = name + ":"@ + gap + value + gap_after + "\n"@ + rest;
    assert(!line.contains('\n')) by {
        if line.contains('\n') {
            let i = choose|i: int| 0 <= i < line.len() && line[i] == '\n';
            let j = i - name.len() - 1;
            if i < name.len() {
                assert(name.contains(name[i]));
            } else if j >= 0 {
                if j < gap.len() {
                    assert(line[i] == gap[j]);
                } else if j < gap.len() + value.len() {
                    assert(line[i] == value[j - gap.len()]);
                    assert(value.contains(value[j - gap.len()]));
                } else {
                    assert(line[i] == gap_after[j - gap.len() - value.len()]);
                }
            }
        }
    }
    assert(more =~= line + "\n"@ + rest);
    lemma_text_from(start, more);
    lemma_text_from(start, rest);
    lemma_text_from(line, rest);
    let row = strip_end(line, '\r');
    lemma_strip_end(line, '\r');
    let rows = lines(more);
    assert(line[name.len() as int] == ':');
    assert(row.len() > name.len()) by {
        if row.len() <= name.len() {
            assert(line[name.len() as int] == '\r');
        }
    }
    let left = row.skip(name.len() as int + 1);
    assert(row =~= name + seq![':'] + left);
    split_at_the_first_mark(name, ':', left);
    let none = Seq::<char>::empty();
    let crs = line.skip(row.len() as int);
    assert(after =~= none + left + crs);
    assert forall|i: int| 0 <= i < crs.len() implies white(crs[i]) by {
        assert(crs[i] == line[row.len() + i]);
    }
    trim_ignores_white_space_around(none, left, crs);
    trim_ignores_white_space_around(gap, value, gap_after);
    assert(rows[0] == row);
    assert(rows.skip(1) == lines(rest));
}

/// A newline at the end of a text changes nothing.
pub proof fn last_newline_changes_nothing(text: Seq<char>)
    ensures
        read_text(text + "\n"@) == read_text(text),
{
    reveal_strlit("\n");
    let none = Seq::<char>::empty();
    assert(text + "\n"@ =~= text + seq!['\n'] + none);
    lemma_lines_at(text, none);
    lemma_only_line(none);
    lemma_lines_clean(text);
    let rows = lines(text).skip(1);
    assert(lines(text + "\n"@).skip(1) =~= rows + lines(none));
    assert(lines(none)[0].len() == 0);
    lemma_headers_need_no_end(rows, lines(none));
}

/// A blank row ends headers as the last row does.
proof fn lemma_headers_need_no_end(rows: Seq<Seq<char>>, blank: Seq<Seq<char>>)
    requires
        blank.len() > 0,
        blank[0].len() == 0,
    ensures
        read_headers(rows + blank) == read_headers(rows),
    decreases rows.len(),
{
    if rows.len() > 0 {
        lemma_headers_need_no_end(rows.skip(1), blank);
        assert((rows + blank).skip(1) =~= rows.skip(1) + blank);
    }
}

/// A blank line, with carriage returns on it or none, ends what is read.
pub proof fn blank_line_ends_the_headers(head: Seq<char>, crs: Seq<char>, tail: Seq<char>)
    requires
        forall|i: int| 0 <= i < crs.len() ==> crs[i] == '\r',
    ensures
        read_text(head + "\n"@ + crs + "\n"@ + tail) == read_text(head),
{
    reveal_strlit("\n");
    let after = crs + seq!['\n'] + tail;
    assert(head + "\n"@ + crs + "\n"@ + tail =~= head + seq!['\n'] + after);
    lemma_lines_at(head, after);
    lemma_lines_at(crs, tail);
    lemma_only_line(crs);
    lemma_strip_end(crs, '\r');
    lemma_lines_clean(head);
    assert(lines(after)[0].len() == 0);
    let rows = lines(head).skip(1);
    assert(lines(head + seq!['\n'] + after).skip(1) =~= rows + lines(after));
    lemma_headers_need_no_end(rows, lines(after));
}

/// A line that is not blank and has no colon is refused, without the carriage
/// returns that close it.
pub proof fn line_without_a_colon_is_refused(
    start: Seq<char>,
    line: Seq<char>,
    crs: Seq<char>,
    rest: Seq<char>,
)
    requires
        !start.contains('\n'),
        read_text(start) is Ok,
        line.len() > 0,
        line.last() != '\r',
        !line.contains('\n'),
        !line.contains(':'),
        forall|i: int| 0 <= i < crs.len() ==> crs[i] == '\r',
    ensures
        read_text(start + "\n"@ + (line + crs + "\n"@ + rest)) == Err::<
            MessageView,
            RefusalView,
        >(RefusalView::NoColon(line)),
{
    let whole = line + crs;
    assert(!whole.contains('\n')) by {
        if whole.contains('\n') {
            let i = choose|i: int| 0 <= i < whole.len() && whole[i] == '\n';
            if i < line.len() {
                assert(line.contains(line[i]));
            } else {
                assert(whole[i] == crs[i - line.len()]);
            }
        }
    }
    lemma_only_line(start);
    lemma_text_from(start, whole + "\n"@ + rest);
    lemma_text_from(whole, rest);
    strip_takes_marks_off(line, crs, '\r');
    one_piece_without_a_mark(line, ':');
}

} // verus!
