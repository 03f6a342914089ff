//! HTTPU, the HTTP-shaped text SSDP puts in a datagram: a start line that
//! is `NOTIFY * HTTP/1.1`, `M-SEARCH * HTTP/1.1` or `HTTP/1.1 200 OK`,
//! then headers to a blank line and nothing after it. Header names are
//! matched without regard to case, as HTTP's are, because every `UPnP`
//! stack capitalises them differently.

use crate::number::{decimal, to_decimal};
use crate::refusal::{Refusal, RefusalView};
use crate::text::{
    before, chars_of, find, lemma_before, same_but_case, same_chars, same_ignoring_case, split,
    split_once, split_words, string_of, strip_end, stripped_end, trim, trimmed, words,
};
use vstd::prelude::*;
use vstd::slice::slice_subrange;
use vstd::string::*;
use vstd::utf8::{decode_utf8, encode_utf8, valid_utf8};

verus! {

/// The multicast group and port SSDP lives on.
pub const GROUP: &'static str = "239.255.255.250:1900";

/// `NTS` of a device arriving.
pub const ALIVE: &'static str = "ssdp:alive";

/// `NTS` of a device leaving.
pub const BYEBYE: &'static str = "ssdp:byebye";

/// `ST` that asks for everything.
pub const ALL: &'static str = "ssdp:all";

/// The three start lines.
#[derive(Clone, Copy, Debug, PartialEq, Eq, Structural)]
pub enum Kind {
    Notify,
    Search,
    Response,
}

impl Kind {
    /// The start line as written.
    pub open spec fn line(self) -> Seq<char> {
        match self {
            Kind::Notify => "NOTIFY * HTTP/1.1"@,
            Kind::Search => "M-SEARCH * HTTP/1.1"@,
            Kind::Response => "HTTP/1.1 200 OK"@,
        }
    }

    /// The start line as written.
    #[must_use]
    pub fn start_line(self) -> (line: &'static str)
        ensures
            line@ == self.line(),
    {
        match self {
            Kind::Notify => "NOTIFY * HTTP/1.1",
            Kind::Search => "M-SEARCH * HTTP/1.1",
            Kind::Response => "HTTP/1.1 200 OK",
        }
    }
}

/// One message: its kind and its headers in the order written.
#[derive(Clone, Debug, PartialEq, Eq)]
pub struct Message {
    pub kind: Kind,
    pub headers: Vec<(String, String)>,
}

/// A header: its name and its value.
pub type HeaderView = (Seq<char>, Seq<char>);

/// A message, its text as sequences of characters.
#[verifier::ext_equal]
pub struct MessageView {
    pub kind: Kind,
    pub headers: Seq<HeaderView>,
}

impl View for Message {
    type V = MessageView;

    open spec fn view(&self) -> MessageView {
        MessageView {
            kind: self.kind,
            headers: self.headers@.map_values(|h: (String, String)| (h.0@, h.1@)),
        }
    }
}

/// The value of the first of `headers` called `name`, case not mattering.
pub open spec fn find_header(headers: Seq<HeaderView>, name: Seq<char>) -> Option<Seq<char>>
    decreases headers.len(),
{
    if headers.len() == 0 {
        None
    } else if same_ignoring_case(headers[0].0, name) {
        Some(headers[0].1)
    } else {
        find_header(headers.skip(1), name)
    }
}

impl MessageView {
    /// With `name: value` appended.
    pub open spec fn plus(self, name: Seq<char>, value: Seq<char>) -> MessageView {
        MessageView { kind: self.kind, headers: self.headers.push((name, value)) }
    }

    /// The first header called `name`, case not mattering.
    pub open spec fn header(self, name: Seq<char>) -> Option<Seq<char>> {
        find_header(self.headers, name)
    }

    /// The value of the first header called `name`, empty where there is none.
    pub open spec fn header_or_empty(self, name: Seq<char>) -> Seq<char> {
        match self.header(name) {
            Some(value) => value,
            None => seq![],
        }
    }

    /// The notification subtype: `NTS`, but empty for a search response
    /// whatever headers it has.
    pub open spec fn notification_subtype(self) -> Seq<char> {
        if self.kind == Kind::Response {
            seq![]
        } else {
            self.header_or_empty("NTS"@)
        }
    }

    /// `NT` of a notify, `ST` of a search or response.
    pub open spec fn notification_type(self) -> Seq<char> {
        if self.kind == Kind::Notify {
            self.header_or_empty("NT"@)
        } else {
            self.header_or_empty("ST"@)
        }
    }
}

impl MessageView {
    /// `NOTIFY` that `usn` of type `nt` is at `location`.
    pub open spec fn alive(
        nt: Seq<char>,
        usn: Seq<char>,
        location: Seq<char>,
        server: Seq<char>,
    ) -> MessageView {
        MessageView {
            kind: Kind::Notify,
            headers: seq![
                ("HOST"@, GROUP@),
                ("CACHE-CONTROL"@, "max-age=1800"@),
                ("LOCATION"@, location),
                ("NT"@, nt),
                ("NTS"@, ALIVE@),
                ("SERVER"@, server),
                ("USN"@, usn),
            ],
        }
    }

    /// `NOTIFY` that `usn` of type `nt` has gone.
    pub open spec fn byebye(nt: Seq<char>, usn: Seq<char>) -> MessageView {
        MessageView {
            kind: Kind::Notify,
            headers: seq![("HOST"@, GROUP@), ("NT"@, nt), ("NTS"@, BYEBYE@), ("USN"@, usn)],
        }
    }

    /// `M-SEARCH` for `st`, answers spread over `mx` seconds.
    pub open spec fn search(st: Seq<char>, mx: u8) -> MessageView {
        MessageView {
            kind: Kind::Search,
            headers: seq![
                ("HOST"@, GROUP@),
                ("MAN"@, "\"ssdp:discover\""@),
                ("MX"@, decimal(mx as nat)),
                ("ST"@, st),
            ],
        }
    }

    /// The answer to a search: `usn` of type `st` is at `location`.
    pub open spec fn response(
        st: Seq<char>,
        usn: Seq<char>,
        location: Seq<char>,
        server: Seq<char>,
    ) -> MessageView {
        MessageView {
            kind: Kind::Response,
            headers: seq![
                ("CACHE-CONTROL"@, "max-age=1800"@),
                ("EXT"@, ""@),
                ("LOCATION"@, location),
                ("SERVER"@, server),
                ("ST"@, st),
                ("USN"@, usn),
            ],
        }
    }
}

/// A header as a line of its own.
pub open spec fn header_line(header: HeaderView) -> Seq<char> {
    header.0 + ": "@ + header.1 + "\r\n"@
}

/// Headers, a line each.
pub open spec fn header_lines(headers: Seq<HeaderView>) -> Seq<char>
    decreases headers.len(),
{
    if headers.len() == 0 {
        seq![]
    } else {
        header_line(headers[0]) + header_lines(headers.skip(1))
    }
}

impl MessageView {
    /// The message as text: the start line, a line for each header and a
    /// blank line.
    pub open spec fn text(self) -> Seq<char> {
        self.kind.line() + "\r\n"@ + header_lines(self.headers) + "\r\n"@
    }

    /// The message as the datagram.
    pub open spec fn datagram(self) -> Seq<u8> {
        encode_utf8(self.text())
    }
}

/// Whether `bytes` open with the characters of `text`.
pub open spec fn opens_with(bytes: Seq<u8>, text: Seq<char>) -> bool {
    encode_utf8(text).is_prefix_of(bytes)
}

/// Whether `bytes` open with one of the three start lines.
pub open spec fn opens_as_message(bytes: Seq<u8>) -> bool {
    opens_with(bytes, Kind::Notify.line()) || opens_with(bytes, Kind::Search.line()) || opens_with(
        bytes,
        Kind::Response.line(),
    )
}

/// The lines of `text`: what stands between newlines, without the carriage
/// returns that close it.
pub open spec fn lines(text: Seq<char>) -> Seq<Seq<char>> {
    split(text, '\n').map_values(|line: Seq<char>| strip_end(line, '\r'))
}

/// The kind of message that a start line of these words opens.
pub open spec fn kind_of(start: Seq<Seq<char>>) -> Option<Kind> {
    if start == seq!["NOTIFY"@, "*"@, "HTTP/1.1"@] {
        Some(Kind::Notify)
    } else if start == seq!["M-SEARCH"@, "*"@, "HTTP/1.1"@] {
        Some(Kind::Search)
    } else if start == seq!["HTTP/1.1"@, "200"@, "OK"@] {
        Some(Kind::Response)
    } else {
        None
    }
}

/// The headers on `lines`, to the first blank one; what is not a header is
/// refused.
pub open spec fn read_headers(lines: Seq<Seq<char>>) -> Result<Seq<HeaderView>, RefusalView>
    decreases lines.len(),
{
    if lines.len() == 0 || lines[0].len() == 0 {
        Ok(seq![])
    } else {
        match split_once(lines[0], ':') {
            None => Err(RefusalView::NoColon(lines[0])),
            Some((name, value)) => match read_headers(lines.skip(1)) {
                Ok(rest) => Ok(seq![(trim(name), trim(value))] + rest),
                Err(refusal) => Err(refusal),
            },
        }
    }
}

/// The message that `text` is.
pub open spec fn read_text(text: Seq<char>) -> Result<MessageView, RefusalView> {
    let start = trim(lines(text)[0]);
    match kind_of(words(start)) {
        None => Err(RefusalView::NotStartLine(start)),
        Some(kind) => match read_headers(lines(text).skip(1)) {
            Ok(headers) => Ok(MessageView { kind, headers }),
            Err(refusal) => Err(refusal),
        },
    }
}

/// The message that a datagram is.
pub open spec fn read_datagram(bytes: Seq<u8>) -> Result<MessageView, RefusalView> {
    if valid_utf8(bytes) {
        read_text(decode_utf8(bytes))
    } else {
        Err(RefusalView::NotUtf8)
    }
}

/// What `parse` and its parts return, as views.
pub open spec fn read_view(read: Result<Message, Refusal>) -> Result<MessageView, RefusalView> {
    match read {
        Ok(message) => Ok(message@),
        Err(refusal) => Err(refusal@),
    }
}

impl Message {
    /// A message of `kind` without headers.
    #[must_use]
    pub fn new(kind: Kind) -> (message: Self)
        ensures
            message@ == (MessageView { kind, headers: seq![] }),
    {
        let message = Message { kind, headers: Vec::new() };
        assert(message@.headers == Seq::<HeaderView>::empty());
        message
    }

    /// With `name: value` appended.
    #[must_use]
    pub fn with(self, name: &str, value: &str) -> (message: Self)
        ensures
            message@ == self@.plus(name@, value@),
    {
        let mut headers = self.headers;
        headers.push((name.to_string(), value.to_string()));
        let message = Message { kind: self.kind, headers };
        assert(message@.headers == self@.headers.push((name@, value@)));
        message
    }

    /// The first header called `name`, case not mattering.
    #[must_use]
    pub fn header(&self, name: &str) -> (value: Option<&str>)
        ensures
            (match value {
                Some(value) => Some(value@),
                None => None,
            }) == self@.header(name@),
    {
        let mut i: usize = 0;
        assert(self@.headers.skip(0) == self@.headers);
        while i < self.headers.len()
            invariant
                i <= self.headers@.len(),
                find_header(self@.headers.skip(i as int), name@) == self@.header(name@),
            decreases self.headers@.len() - i,
        {
            assert(self@.headers.skip(i as int)[0] == self@.headers[i as int]);
            if same_but_case(self.headers[i].0.as_str(), name) {
                return Some(self.headers[i].1.as_str());
            }
            assert(self@.headers.skip(i as int).skip(1) == self@.headers.skip(i + 1));
            i += 1;
        }
        None
    }

    /// The value of the first header called `name`, empty where there is none.
    pub(crate) fn header_or_empty(&self, name: &str) -> (found: &str)
        ensures
            found@ == self@.header_or_empty(name@),
    {
        proof {
            reveal_strlit("");
        }
        assert(""@ == Seq::<char>::empty());
        match self.header(name) {
            Some(value) => value,
            None => "",
        }
    }

    /// The notification subtype: `NTS`, but empty for a search response
    /// whatever headers it has.
    #[must_use]
    pub fn notification_subtype(&self) -> (found: &str)
        ensures
            found@ == self@.notification_subtype(),
    {
        proof {
            reveal_strlit("");
        }
        assert(""@ == Seq::<char>::empty());
        if self.kind == Kind::Response {
            ""
        } else {
            self.header_or_empty("NTS")
        }
    }

    /// The notification type: `NT` of a notify, `ST` of a search or
    /// response.
    #[must_use]
    pub fn notification_type(&self) -> (found: &str)
        ensures
            found@ == self@.notification_type(),
    {
        if self.kind == Kind::Notify {
            self.header_or_empty("NT")
        } else {
            self.header_or_empty("ST")
        }
    }

    /// `NOTIFY` that `usn` of type `nt` is at `location`.
    #[must_use]
    pub fn alive(nt: &str, usn: &str, location: &str, server: &str) -> (message: Self)
        ensures
            message@ == MessageView::alive(nt@, usn@, location@, server@),
    {
        let message = Message::new(Kind::Notify).with("HOST", GROUP).with(
            "CACHE-CONTROL",
            "max-age=1800",
        ).with("LOCATION", location).with("NT", nt).with("NTS", ALIVE).with("SERVER", server).with(
            "USN",
            usn,
        );
        assert(message@ =~= MessageView::alive(nt@, usn@, location@, server@));
        message
    }

    /// `NOTIFY` that `usn` of type `nt` has gone.
    #[must_use]
    pub fn byebye(nt: &str, usn: &str) -> (message: Self)
        ensures
            message@ == MessageView::byebye(nt@, usn@),
    {
        let message = Message::new(Kind::Notify).with("HOST", GROUP).with("NT", nt).with(
            "NTS",
            BYEBYE,
        ).with("USN", usn);
        assert(message@ =~= MessageView::byebye(nt@, usn@));
        message
    }

    /// `M-SEARCH` for `st`, answers spread over `mx` seconds.
    #[must_use]
    pub fn search(st: &str, mx: u8) -> (message: Self)
        ensures
            message@ == MessageView::search(st@, mx),
    {
        let seconds = to_decimal(mx as u64);
        let message = Message::new(Kind::Search).with("HOST", GROUP).with(
            "MAN",
            "\"ssdp:discover\"",
        ).with("MX", seconds.as_str()).with("ST", st);
        assert(message@ =~= MessageView::search(st@, mx));
        message
    }

    /// The answer to a search: `usn` of type `st` is at `location`.
    #[must_use]
    pub fn response(st: &str, usn: &str, location: &str, server: &str) -> (message: Self)
        ensures
            message@ == MessageView::response(st@, usn@, location@, server@),
    {
        let message = Message::new(Kind::Response).with("CACHE-CONTROL", "max-age=1800").with(
            "EXT",
            "",
        ).with("LOCATION", location).with("SERVER", server).with("ST", st).with("USN", usn);
        assert(message@ =~= MessageView::response(st@, usn@, location@, server@));
        message
    }
}

/// `message` as the datagram.
#[must_use]
pub fn format(message: &Message) -> (datagram: Vec<u8>)
    ensures
        datagram@ == message@.datagram(),
{
    let mut out = String::from(message.kind.start_line());
    out.append("\r\n");
    let mut i: usize = 0;
    let ghost headers = message@.headers;
    let ghost opening = out@;
    assert(headers.skip(0) == headers);
    assert(out@ + header_lines(headers) == opening + header_lines(headers));
    while i < message.headers.len()
        invariant
            i <= message.headers@.len(),
            headers == message@.headers,
            out@ + header_lines(headers.skip(i as int)) == opening + header_lines(headers),
        decreases message.headers@.len() - i,
    {
        let ghost so_far = out@;
        out.append(message.headers[i].0.as_str());
        out.append(": ");
        out.append(message.headers[i].1.as_str());
        out.append("\r\n");
        proof {
            let rest = headers.skip(i as int);
            assert(rest[0] == headers[i as int]);
            assert(rest.skip(1) == headers.skip(i + 1));
            assert(out@ == so_far + header_line(rest[0]));
            assert(so_far + header_line(rest[0]) + header_lines(rest.skip(1)) == so_far + (
            header_line(rest[0]) + header_lines(rest.skip(1))));
        }
        i += 1;
    }
    assert(header_lines(headers.skip(i as int)) == Seq::<char>::empty());
    out.append("\r\n");
    out.as_str().as_bytes_vec()
}

/// Whether `bytes` open with the characters of `text`.
pub(crate) fn starts_with(bytes: &[u8], text: &str) -> (starts: bool)
    ensures
        starts == opens_with(bytes@, text@),
{
    let prefix = text.as_bytes();
    if bytes.len() < prefix.len() {
        return false;
    }
    let mut i: usize = 0;
    while i < prefix.len()
        invariant
            prefix@ == encode_utf8(text@),
            prefix@.len() <= bytes@.len(),
            i <= prefix@.len(),
            forall|j: int| 0 <= j < i ==> prefix@[j] == bytes@[j],
        decreases prefix@.len() - i,
    {
        if prefix[i] != bytes[i] {
            assert(bytes@.subrange(0, prefix@.len() as int)[i as int] != prefix@[i as int]);
            return false;
        }
        i += 1;
    }
    assert(bytes@.subrange(0, prefix@.len() as int) == prefix@);
    true
}

/// Whether `bytes` already open with one of the three start lines.
#[must_use]
pub fn is_message(bytes: &[u8]) -> (is: bool)
    ensures
        is == opens_as_message(bytes@),
{
    starts_with(bytes, Kind::Notify.start_line()) || starts_with(bytes, Kind::Search.start_line())
        || starts_with(bytes, Kind::Response.start_line())
}

/// `std::str::from_utf8`: the text that `bytes` encode, where they are UTF-8,
/// and nothing where they are not.
#[verifier::external_body]
fn utf8_text(bytes: &[u8]) -> (decoded: Option<&str>)
    ensures
        decoded is Some <==> valid_utf8(bytes@),
        decoded matches Some(decoded) ==> decoded@ == decode_utf8(bytes@),
{
    std::str::from_utf8(bytes).ok()
}

/// The first line of a text, and the lines after it.
pub proof fn lemma_lines(text: Seq<char>)
    ensures
        ({
            let at = before(text, '\n') as int;
            let first = strip_end(text.take(at), '\r');
            lines(text) == if at < text.len() {
                seq![first] + lines(text.skip(at + 1))
            } else {
                seq![first]
            }
        }),
{
    let at = before(text, '\n') as int;
    lemma_before(text, '\n');
    let strip = |line: Seq<char>| strip_end(line, '\r');
    if at < text.len() {
        let rest = split(text.skip(at + 1), '\n');
        assert((seq![text.take(at)] + rest).map_values(strip) == seq![strip(text.take(at))]
            + rest.map_values(strip));
    } else {
        assert(text.take(at) == text);
        assert(seq![text].map_values(strip) == seq![strip(text)]);
    }
}

/// The kind of message that the words of `start` open.
fn start_kind(start: &[char]) -> (kind: Option<Kind>)
    ensures
        kind == kind_of(words(start@)),
{
    let found = split_words(start);
    let ghost seen = words(start@);
    assert(seen.len() == found@.len());
    assert(forall|i: int| 0 <= i < seen.len() ==> #[trigger] seen[i] == found@[i]@);
    if found.len() == 3 && is_word(found[1], "*") && is_word(found[2], "HTTP/1.1") {
        if is_word(found[0], "NOTIFY") {
            assert(seen == seq!["NOTIFY"@, "*"@, "HTTP/1.1"@]);
            return Some(Kind::Notify);
        }
        if is_word(found[0], "M-SEARCH") {
            assert(seen == seq!["M-SEARCH"@, "*"@, "HTTP/1.1"@]);
            proof {
                reveal_strlit("NOTIFY");
                reveal_strlit("M-SEARCH");
                assert("NOTIFY"@.len() != "M-SEARCH"@.len());
                assert(seq!["NOTIFY"@, "*"@, "HTTP/1.1"@][0] == "NOTIFY"@);
            }
            return Some(Kind::Search);
        }
    }
    proof {
        if seen == seq!["NOTIFY"@, "*"@, "HTTP/1.1"@] || seen
            == seq!["M-SEARCH"@, "*"@, "HTTP/1.1"@] {
            assert(seen[1] == "*"@ && seen[2] == "HTTP/1.1"@);
            assert(seen[0] == "NOTIFY"@ || seen[0] == "M-SEARCH"@);
        }
        if seen == seq!["HTTP/1.1"@, "200"@, "OK"@] {
            assert(seen[0] == "HTTP/1.1"@ && seen[1] == "200"@ && seen[2] == "OK"@);
        }
    }
    if found.len() == 3 && is_word(found[0], "HTTP/1.1") && is_word(found[1], "200") && is_word(
        found[2],
        "OK",
    ) {
        assert(seen == seq!["HTTP/1.1"@, "200"@, "OK"@]);
        return Some(Kind::Response);
    }
    None
}

/// Whether `chars` are those of `word`.
fn is_word(chars: &[char], word: &str) -> (is: bool)
    ensures
        is == (chars@ == word@),
{
    let expected = chars_of(word);
    same_chars(chars, expected.as_slice())
}

/// The message that `text` is.
///
/// # Errors
/// Not one of the three start lines, or a header line without a colon.
pub fn parse_text(text: &str) -> (read: Result<Message, Refusal>)
    ensures
        read_view(read) == read_text(text@),
{
    let chars = chars_of(text);
    let end = find(chars.as_slice(), '\n');
    let first = stripped_end(slice_subrange(chars.as_slice(), 0, end), '\r');
    let start = trimmed(first);
    proof {
        lemma_lines(text@);
        assert(lines(text@)[0] == first@);
    }
    let kind = match start_kind(start) {
        Some(kind) => kind,
        None => {
            return Err(Refusal::NotStartLine(string_of(start)));
        },
    };
    let mut headers: Vec<(String, String)> = Vec::new();
    let mut more = end < chars.len();
    let mut rest: &[char] = if more {
        slice_subrange(chars.as_slice(), end + 1, chars.len())
    } else {
        slice_subrange(chars.as_slice(), 0, 0)
    };
    let ghost all = lines(text@).skip(1);
    let ghost mut left = all;
    proof {
        if more {
            assert(all == lines(rest@));
        } else {
            assert(all == Seq::<Seq<char>>::empty());
        }
        assert((Message { kind, headers })@.headers == Seq::<HeaderView>::empty());
        match read_headers(left) {
            Ok(found) => {
                assert(Seq::<HeaderView>::empty() + found == found);
            },
            Err(_) => {},
        }
    }
    while more
        invariant
            more ==> left == lines(rest@),
            !more ==> left.len() == 0,
            read_headers(all) == (match read_headers(left) {
                Ok(found) => Ok((Message { kind, headers })@.headers + found),
                Err(refusal) => Err(refusal),
            }),
            kind_of(words(trim(lines(text@)[0]))) == Some(kind),
            all == lines(text@).skip(1),
        decreases rest@.len() + (if more { 1nat } else { 0 }),
    {
        let end = find(rest, '\n');
        let line = stripped_end(slice_subrange(rest, 0, end), '\r');
        proof {
            lemma_lines(rest@);
            assert(left[0] == line@);
        }
        if line.len() == 0 {
            let message = Message { kind, headers };
            assert(message@.headers + Seq::<HeaderView>::empty() == message@.headers);
            return Ok(message);
        }
        let colon = find(line, ':');
        if colon == line.len() {
            return Err(Refusal::NoColon(string_of(line)));
        }
        let name = string_of(trimmed(slice_subrange(line, 0, colon)));
        let value = string_of(trimmed(slice_subrange(line, colon + 1, line.len())));
        proof {
            let had = (Message { kind, headers })@.headers;
            let header = (name@, value@);
            let pushed = headers@.push((name, value));
            assert(pushed.map_values(|h: (String, String)| (h.0@, h.1@)) == had.push(header));
            match read_headers(left.skip(1)) {
                Ok(found) => {
                    assert(had + (seq![header] + found) == had.push(header) + found);
                },
                Err(_) => {},
            }
            if end < rest@.len() {
                assert(left.skip(1) == lines(rest@.skip(end + 1)));
            } else {
                assert(left.skip(1) == Seq::<Seq<char>>::empty());
            }
            left = left.skip(1);
        }
        headers.push((name, value));
        more = end < rest.len();
        if more {
            rest = slice_subrange(rest, end + 1, rest.len());
        }
    }
    let message = Message { kind, headers };
    assert(message@.headers + Seq::<HeaderView>::empty() == message@.headers);
    Ok(message)
}

/// One datagram.
///
/// # Errors
/// Not text, not one of the three start lines, or a header line without
/// a colon.
pub fn parse(bytes: &[u8]) -> (read: Result<Message, Refusal>)
    ensures
        read_view(read) == read_datagram(bytes@),
{
    match utf8_text(bytes) {
        Some(text) => parse_text(text),
        None => Err(Refusal::NotUtf8),
    }
}

/// A message is seen as it is: its kind and each of its headers, in order.
pub proof fn messages_are_seen(message: Message)
    ensures
        message@.kind == message.kind,
        message@.headers.len() == message.headers@.len(),
        forall|i: int|
            0 <= i < message.headers@.len() ==> #[trigger] message@.headers[i] == (
                message.headers@[i].0@,
                message.headers@[i].1@,
            ),
{
}

/// A message, or why there is none, is seen as it is.
pub proof fn reads_are_seen(read: Result<Message, Refusal>)
    ensures
        read matches Ok(message) ==> read_view(read) == Ok::<MessageView, RefusalView>(message@),
        read matches Err(refusal) ==> read_view(read) == Err::<MessageView, RefusalView>(refusal@),
{
}

/// The three start lines as written, each for its kind.
pub proof fn start_lines_are_three(kind: Kind)
    ensures
        kind.line() == "NOTIFY * HTTP/1.1"@ <==> kind == Kind::Notify,
        kind.line() == "M-SEARCH * HTTP/1.1"@ <==> kind == Kind::Search,
        kind.line() == "HTTP/1.1 200 OK"@ <==> kind == Kind::Response,
{
    reveal_strlit("NOTIFY * HTTP/1.1");
    reveal_strlit("M-SEARCH * HTTP/1.1");
    reveal_strlit("HTTP/1.1 200 OK");
    assert("NOTIFY * HTTP/1.1"@.len() == 17);
    assert("M-SEARCH * HTTP/1.1"@.len() == 19);
    assert("HTTP/1.1 200 OK"@.len() == 15);
}

} // verus!
