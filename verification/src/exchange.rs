//! What passes between two nodes: the laws of announcing, searching and
//! answering.

use crate::lookup::{alive_says, byebye_says, response_says};
use crate::message::{
    lemma_lines, lines, opens_as_message, opens_with, read_datagram, Kind, MessageView, ALIVE, ALL,
    BYEBYE,
};
use crate::node::{
    as_text, goes_as_it_is, lossy, origin, AnnouncementView, ArrivedView, ReceivedView,
    TransportView, SERVER,
};
use crate::refusal::RefusalView;
use crate::round_trip::{
    alive_is_written, alive_reads_back, clean_value, datagram_opens_as_message,
    lemma_encode_concat, lemma_trim, lemma_trim_keeps, response_is_written, response_reads_back,
};
use crate::text::{
    before, leading_word, lemma_before, lemma_leading_white, lemma_leading_white_is,
    lemma_leading_word, lemma_strip_end, lemma_trim_end, trim, trim_start, white, words,
};
use vstd::prelude::*;
use vstd::utf8::{decode_utf8, decode_utf8_encode_utf8, encode_utf8, valid_utf8};

verus! {

/// What a node composes always goes as it is, so composing it again changes
/// nothing.
pub proof fn composing_settles(node: TransportView, bytes: Seq<u8>)
    ensures
        goes_as_it_is(node.compose(bytes)),
        node.compose(node.compose(bytes)) == node.compose(bytes),
{
    if !goes_as_it_is(bytes) {
        message_goes_as_it_is(node, node.alive_at(as_text(bytes)));
    }
}

/// What a node calls itself is clean.
proof fn lemma_server_clean()
    ensures
        clean_value(SERVER@),
{
    reveal_strlit("xmip/0.1 UPnP/1.1");
    lemma_trim_keeps(SERVER@);
}

/// Bytes that open like no message are announced: the far end reads an `ssdp:alive`
/// whose `LOCATION` they are, under the type and the name announced, and its
/// origin says so. This holds exactly where the type and the name are clean
/// and the location is on one line.
pub proof fn location_is_announced(
    node: TransportView,
    bytes: Seq<u8>,
    far: TransportView,
    peer: Seq<char>,
)
    requires
        !goes_as_it_is(bytes),
    ensures
        ({
            let datagram = node.compose(bytes);
            let location = trim(as_text(bytes));
            let (nt, usn) = node.announced();
            let message = MessageView::alive(nt, usn, location, SERVER@);
            let stream = ArrivedView {
                origin_uri: "ssdp://"@ + peer + "?nt="@ + nt + "&usn="@ + usn + "&nts="@ + ALIVE@,
                bytes: datagram,
            };
            let clean = clean_value(nt) && clean_value(usn) && !location.contains('\n');
            &&& read_datagram(datagram) == Ok::<MessageView, RefusalView>(message) <==> clean
            &&& message.header("LOCATION"@) == Some(location)
            &&& clean ==> far.receive(peer, datagram) == Ok::<ReceivedView, RefusalView>(
                ReceivedView::Stream(stream),
            )
        }),
{
    let (nt, usn) = node.announced();
    let location = trim(as_text(bytes));
    lemma_trim(as_text(bytes));
    lemma_server_clean();
    alive_reads_back(nt, usn, location, SERVER@);
    alive_says(nt, usn, location, SERVER@);
}

/// A departure arrives as it was sent, and its origin says so.
pub proof fn departure_arrives(
    nt: Seq<char>,
    usn: Seq<char>,
    datagram: Seq<u8>,
    far: TransportView,
    peer: Seq<char>,
)
    requires
        read_datagram(datagram) == Ok::<MessageView, RefusalView>(MessageView::byebye(nt, usn)),
    ensures
        far.receive(peer, datagram) == Ok::<ReceivedView, RefusalView>(
            ReceivedView::Stream(
                ArrivedView {
                    origin_uri: "ssdp://"@ + peer + "?nt="@ + nt + "&usn="@ + usn + "&nts="@
                        + BYEBYE@,
                    bytes: datagram,
                },
            ),
        ),
{
    byebye_says(nt, usn);
}

/// Bytes that open with one of the three start lines go as they are, whatever
/// the node announces.
pub proof fn start_line_goes_as_it_is(node: TransportView, bytes: Seq<u8>)
    requires
        opens_as_message(bytes),
    ensures
        goes_as_it_is(bytes),
        node.compose(bytes) == bytes,
{
    reveal_strlit("NOTIFY * HTTP/1.1");
    reveal_strlit("M-SEARCH * HTTP/1.1");
    reveal_strlit("HTTP/1.1 200 OK");
    reveal_strlit("NOTIFY");
    reveal_strlit("M-SEARCH");
    reveal_strlit("HTTP/");
    let kind = if opens_with(bytes, Kind::Notify.line()) {
        Kind::Notify
    } else if opens_with(bytes, Kind::Search.line()) {
        Kind::Search
    } else {
        Kind::Response
    };
    let lead = match kind {
        Kind::Notify => "NOTIFY"@,
        Kind::Search => "M-SEARCH"@,
        Kind::Response => "HTTP/"@,
    };
    assert(lead.is_prefix_of(kind.line())) by {
        assert(kind.line().subrange(0, lead.len() as int) =~= lead);
    }
    lemma_opens_with_less(bytes, kind.line(), lead);
}

/// Bytes that open with a text open with what opens the text.
proof fn lemma_opens_with_less(bytes: Seq<u8>, text: Seq<char>, lead: Seq<char>)
    requires
        opens_with(bytes, text),
        lead.is_prefix_of(text),
    ensures
        opens_with(bytes, lead),
{
    let rest = text.skip(lead.len() as int);
    assert(text =~= lead + rest);
    lemma_encode_concat(lead, rest);
    let n = encode_utf8(lead).len() as int;
    let whole = bytes.subrange(0, encode_utf8(text).len() as int);
    assert(bytes.subrange(0, n) =~= whole.subrange(0, n));
    assert(whole.subrange(0, n) =~= encode_utf8(lead));
}

/// What reads as a message and does not open with white space goes as it is,
/// whatever the node announces.
pub proof fn what_reads_goes_as_it_is(node: TransportView, bytes: Seq<u8>)
    requires
        read_datagram(bytes) is Ok,
        !white(decode_utf8(bytes)[0]),
    ensures
        goes_as_it_is(bytes),
        node.compose(bytes) == bytes,
{
    let text = decode_utf8(bytes);
    let first = lines(text)[0];
    let start = trim(first);
    let at = before(text, '\n') as int;
    decode_utf8_encode_utf8(bytes);
    lemma_lines(text);
    lemma_before(text, '\n');
    lemma_strip_end(text.take(at), '\r');
    let found = words(start);
    let word = found[0];
    assert(word == "NOTIFY"@ || word == "M-SEARCH"@ || word == "HTTP/1.1"@) by {
        assert(seq!["NOTIFY"@, "*"@, "HTTP/1.1"@][0] == "NOTIFY"@);
        assert(seq!["M-SEARCH"@, "*"@, "HTTP/1.1"@][0] == "M-SEARCH"@);
        assert(seq!["HTTP/1.1"@, "200"@, "OK"@][0] == "HTTP/1.1"@);
    }
    assert(start.len() > 0) by {
        if start.len() == 0 {
            assert(trim_start(start) =~= Seq::<char>::empty());
            assert(found.len() == 0);
        }
    }
    lemma_leading_white(first);
    lemma_trim_end(trim_start(first));
    assert(first.len() > 0);
    assert(first[0] == text[0]);
    lemma_leading_white_is(first, 0);
    assert(trim_start(first) =~= first);
    assert(start =~= first.take(start.len() as int));
    assert(start[0] == text[0]);
    lemma_leading_white_is(start, 0);
    assert(trim_start(start) =~= start);
    lemma_leading_word(start);
    assert(word == start.take(leading_word(start) as int));
    assert(word =~= text.take(word.len() as int));
    reveal_strlit("HTTP/");
    reveal_strlit("HTTP/1.1");
    let lead = if word == "HTTP/1.1"@ {
        "HTTP/"@
    } else {
        word
    };
    assert(text.subrange(0, lead.len() as int) =~= lead) by {
        assert(word.take(lead.len() as int) =~= lead);
        assert(text.take(word.len() as int).take(lead.len() as int) =~= text.take(
            lead.len() as int,
        ));
    }
    assert(bytes.subrange(0, bytes.len() as int) =~= bytes);
    lemma_opens_with_less(bytes, text, lead);
}

/// A message goes as it is, whatever the node announces.
pub proof fn message_goes_as_it_is(node: TransportView, message: MessageView)
    ensures
        goes_as_it_is(message.datagram()),
        node.compose(message.datagram()) == message.datagram(),
{
    datagram_opens_as_message(message);
    start_line_goes_as_it_is(node, message.datagram());
}

/// A node that announces nothing answers nothing.
pub proof fn nothing_announced_nothing_answered(node: TransportView, search: MessageView)
    requires
        node.announcing is None,
    ensures
        node.answer(search) is None,
{
}

/// A search for everything or for what is announced is answered with what is
/// announced; a search for anything else is skipped.
pub proof fn search_is_answered(
    node: TransportView,
    announced: AnnouncementView,
    search: MessageView,
    datagram: Seq<u8>,
    peer: Seq<char>,
)
    requires
        node.announcing == Some(announced),
        read_datagram(datagram) == Ok::<MessageView, RefusalView>(search),
        search.kind == Kind::Search,
    ensures
        node.receive(peer, datagram) == Ok::<ReceivedView, RefusalView>(
            if search.notification_type() == ALL@ || search.notification_type() == announced.st {
                ReceivedView::Answer(
                    MessageView::response(
                        announced.st,
                        announced.usn,
                        announced.location,
                        SERVER@,
                    ).datagram(),
                )
            } else {
                ReceivedView::Skipped
            },
        ),
{
}

/// The origin of every search response says its `ST` and its `USN`; `nts` is
/// empty, whatever headers it has.
pub proof fn response_origin(peer: Seq<char>, message: MessageView)
    requires
        message.kind == Kind::Response,
    ensures
        origin(peer, message) == "ssdp://"@ + peer + "?nt="@ + message.header_or_empty("ST"@)
            + "&usn="@ + message.header_or_empty("USN"@) + "&nts="@,
{
}

/// The origin of every other message says its `NTS`, empty only where it has
/// none or an empty one.
pub proof fn other_origin(peer: Seq<char>, message: MessageView)
    requires
        message.kind != Kind::Response,
    ensures
        origin(peer, message) == "ssdp://"@ + peer + "?nt="@ + message.notification_type()
            + "&usn="@ + message.header_or_empty("USN"@) + "&nts="@ + message.header_or_empty(
            "NTS"@,
        ),
{
}

/// The origin of an answer says its type and its name; as it is no
/// notification, `nts` is empty.
pub proof fn response_arrives(
    st: Seq<char>,
    usn: Seq<char>,
    location: Seq<char>,
    server: Seq<char>,
    datagram: Seq<u8>,
    far: TransportView,
    peer: Seq<char>,
)
    requires
        read_datagram(datagram) == Ok::<MessageView, RefusalView>(
            MessageView::response(st, usn, location, server),
        ),
    ensures
        far.receive(peer, datagram) == Ok::<ReceivedView, RefusalView>(
            ReceivedView::Stream(
                ArrivedView {
                    origin_uri: "ssdp://"@ + peer + "?nt="@ + st + "&usn="@ + usn + "&nts="@,
                    bytes: datagram,
                },
            ),
        ),
{
    let message = MessageView::response(st, usn, location, server);
    response_says(st, usn, location, server);
    response_origin(peer, message);
}

/// An answer says what is announced, and reads back exactly where that is
/// clean.
pub proof fn answer_reads_back(
    node: TransportView,
    announced: AnnouncementView,
    search: MessageView,
    answer: MessageView,
)
    requires
        node.announcing == Some(announced),
        node.answer(search) == Some(answer),
    ensures
        answer.notification_type() == announced.st,
        answer.header("USN"@) == Some(announced.usn),
        answer.header("LOCATION"@) == Some(announced.location),
        read_datagram(answer.datagram()) == Ok::<MessageView, RefusalView>(answer) <==> (
        clean_value(announced.st) && clean_value(announced.usn) && clean_value(announced.location)),
{
    lemma_server_clean();
    response_reads_back(announced.st, announced.usn, announced.location, SERVER@);
    response_says(announced.st, announced.usn, announced.location, SERVER@);
}

/// Whatever reads as a notification or an answer arrives whole, from the
/// peer that sent it.
pub proof fn stream_is_the_whole_datagram(
    node: TransportView,
    peer: Seq<char>,
    datagram: Seq<u8>,
    message: MessageView,
)
    requires
        read_datagram(datagram) == Ok::<MessageView, RefusalView>(message),
        message.kind != Kind::Search,
    ensures
        node.receive(peer, datagram) == Ok::<ReceivedView, RefusalView>(
            ReceivedView::Stream(
                ArrivedView { origin_uri: origin(peer, message), bytes: datagram },
            ),
        ),
{
}

/// A search is never a Stream, whatever the node announces; a node that
/// announces nothing skips every search.
pub proof fn search_is_never_a_stream(
    node: TransportView,
    peer: Seq<char>,
    datagram: Seq<u8>,
    search: MessageView,
)
    requires
        read_datagram(datagram) == Ok::<MessageView, RefusalView>(search),
        search.kind == Kind::Search,
    ensures
        node.receive(peer, datagram) matches Ok(received) && !(received is Stream),
        node.announcing is None ==> node.receive(peer, datagram) == Ok::<ReceivedView, RefusalView>(
            ReceivedView::Skipped,
        ),
        node.receive(peer, datagram) == Ok::<ReceivedView, RefusalView>(ReceivedView::Skipped)
            <==> node.answer(search) is None,
        node.answer(search) matches Some(answer) ==> node.receive(peer, datagram) == Ok::<
            ReceivedView,
            RefusalView,
        >(ReceivedView::Answer(encode_utf8(answer.text()))),
{
}

/// What is no message is refused by every node, as reading it is.
pub proof fn what_is_no_message_is_refused(
    node: TransportView,
    peer: Seq<char>,
    datagram: Seq<u8>,
    refusal: RefusalView,
)
    requires
        read_datagram(datagram) == Err::<MessageView, RefusalView>(refusal),
    ensures
        node.receive(peer, datagram) == Err::<ReceivedView, RefusalView>(refusal),
{
}

/// A notification is a Stream of every node, whole, and its origin says its
/// `NT`, `USN` and `NTS`, each empty where it has none.
pub proof fn notification_is_a_stream(
    node: TransportView,
    peer: Seq<char>,
    datagram: Seq<u8>,
    message: MessageView,
)
    requires
        read_datagram(datagram) == Ok::<MessageView, RefusalView>(message),
        message.kind == Kind::Notify,
    ensures
        ({
            let said = |name: Seq<char>|
                match message.header(name) {
                    Some(value) => value,
                    None => Seq::<char>::empty(),
                };
            node.receive(peer, datagram) == Ok::<ReceivedView, RefusalView>(
                ReceivedView::Stream(
                    ArrivedView {
                        origin_uri: "ssdp://"@ + peer + "?nt="@ + said("NT"@) + "&usn="@ + said(
                            "USN"@,
                        ) + "&nts="@ + said("NTS"@),
                        bytes: datagram,
                    },
                ),
            )
        }),
{
}

/// A search response is a Stream of every node, whole, and its origin says its
/// `ST` and `USN`, each empty where it has none, and no `NTS`.
pub proof fn response_is_a_stream(
    node: TransportView,
    peer: Seq<char>,
    datagram: Seq<u8>,
    message: MessageView,
)
    requires
        read_datagram(datagram) == Ok::<MessageView, RefusalView>(message),
        message.kind == Kind::Response,
    ensures
        ({
            let said = |name: Seq<char>|
                match message.header(name) {
                    Some(value) => value,
                    None => Seq::<char>::empty(),
                };
            node.receive(peer, datagram) == Ok::<ReceivedView, RefusalView>(
                ReceivedView::Stream(
                    ArrivedView {
                        origin_uri: "ssdp://"@ + peer + "?nt="@ + said("ST"@) + "&usn="@ + said(
                            "USN"@,
                        ) + "&nts="@,
                        bytes: datagram,
                    },
                ),
            )
        }),
{
    response_origin(peer, message);
}

/// The origin that a search would have says its `ST`, `USN` and `NTS`, each
/// empty where it has none.
pub proof fn search_origin(peer: Seq<char>, message: MessageView)
    requires
        message.kind == Kind::Search,
    ensures
        ({
            let said = |name: Seq<char>|
                match message.header(name) {
                    Some(value) => value,
                    None => Seq::<char>::empty(),
                };
            origin(peer, message) == "ssdp://"@ + peer + "?nt="@ + said("ST"@) + "&usn="@ + said(
                "USN"@,
            ) + "&nts="@ + said("NTS"@)
        }),
{
}

/// A node answers exactly what asks for everything or for the type that it
/// announces, with the type, the name and the location that it announces.
pub proof fn answer_is_what_is_announced(
    node: TransportView,
    announced: AnnouncementView,
    search: MessageView,
    st: Seq<char>,
)
    requires
        node.announcing == Some(announced),
        search.kind == Kind::Search,
        search.header("ST"@) == Some(st) || (search.header("ST"@) is None && st.len() == 0),
    ensures
        node.answer(search) is Some <==> (st == "ssdp:all"@ || st == announced.st),
        node.answer(search) matches Some(answer) ==> answer.kind == Kind::Response && answer.text()
            == "HTTP/1.1 200 OK"@ + "\r\n"@
            + "CACHE-CONTROL: "@ + "max-age=1800"@ + "\r\n"@
            + "EXT: "@ + ""@ + "\r\n"@
            + "LOCATION: "@ + announced.location + "\r\n"@
            + "SERVER: "@ + "xmip/0.1 UPnP/1.1"@ + "\r\n"@
            + "ST: "@ + announced.st + "\r\n"@
            + "USN: "@ + announced.usn + "\r\n"@
            + "\r\n"@,
{
    if search.header("ST"@) is None {
        assert(st =~= Seq::<char>::empty());
    }
    response_is_written(announced.st, announced.usn, announced.location, "xmip/0.1 UPnP/1.1"@);
}

/// Whatever is asked, by a search or by any other message, the answer goes by
/// its type alone: two messages of one type earn one answer.
pub proof fn answer_goes_by_the_type(node: TransportView, one: MessageView, other: MessageView)
    requires
        one.notification_type() == other.notification_type(),
    ensures
        node.answer(one) == node.answer(other),
{
}

/// An `ssdp:alive` goes out under the type and the name that the node
/// announces, at the location, trimmed.
pub proof fn alive_is_under_what_is_announced(
    node: TransportView,
    announced: AnnouncementView,
    location: Seq<char>,
)
    requires
        node.announcing == Some(announced),
    ensures
        node.alive_at(location) == MessageView::alive(
            announced.st,
            announced.usn,
            trim(location),
            "xmip/0.1 UPnP/1.1"@,
        ),
        node.alive_at(location).text() == "NOTIFY * HTTP/1.1"@ + "\r\n"@
            + "HOST: "@ + "239.255.255.250:1900"@ + "\r\n"@
            + "CACHE-CONTROL: "@ + "max-age=1800"@ + "\r\n"@
            + "LOCATION: "@ + trim(location) + "\r\n"@
            + "NT: "@ + announced.st + "\r\n"@
            + "NTS: "@ + "ssdp:alive"@ + "\r\n"@
            + "SERVER: "@ + "xmip/0.1 UPnP/1.1"@ + "\r\n"@
            + "USN: "@ + announced.usn + "\r\n"@
            + "\r\n"@,
{
    alive_is_written(announced.st, announced.usn, trim(location), "xmip/0.1 UPnP/1.1"@);
}

/// An `ssdp:alive` of a node that announces nothing goes out as a root device.
pub proof fn alive_is_a_root_device(node: TransportView, location: Seq<char>)
    requires
        node.announcing is None,
    ensures
        node.alive_at(location).text() == "NOTIFY * HTTP/1.1"@ + "\r\n"@
            + "HOST: "@ + "239.255.255.250:1900"@ + "\r\n"@
            + "CACHE-CONTROL: "@ + "max-age=1800"@ + "\r\n"@
            + "LOCATION: "@ + trim(location) + "\r\n"@
            + "NT: "@ + "upnp:rootdevice"@ + "\r\n"@
            + "NTS: "@ + "ssdp:alive"@ + "\r\n"@
            + "SERVER: "@ + "xmip/0.1 UPnP/1.1"@ + "\r\n"@
            + "USN: "@ + "uuid:xmip::upnp:rootdevice"@ + "\r\n"@
            + "\r\n"@,
{
    alive_is_written(
        "upnp:rootdevice"@,
        "uuid:xmip::upnp:rootdevice"@,
        trim(location),
        "xmip/0.1 UPnP/1.1"@,
    );
}

/// Bytes that open with `NOTIFY`, `M-SEARCH` or `HTTP/` go as they are; any
/// others are announced as the location that they are in UTF-8, or with what
/// is not UTF-8 replaced.
pub proof fn what_is_composed(node: TransportView, bytes: Seq<u8>)
    ensures
        ({
            let opens = encode_utf8("NOTIFY"@).is_prefix_of(bytes) || encode_utf8(
                "M-SEARCH"@,
            ).is_prefix_of(bytes) || encode_utf8("HTTP/"@).is_prefix_of(bytes);
            let location = if valid_utf8(bytes) {
                decode_utf8(bytes)
            } else {
                lossy(bytes)
            };
            &&& opens ==> node.compose(bytes) == bytes
            &&& !opens ==> node.compose(bytes) == encode_utf8(node.alive_at(location).text())
            &&& !opens ==> (node.announcing matches Some(a) ==> node.compose(bytes)
                == MessageView::alive(a.st, a.usn, trim(location), SERVER@).datagram())
        }),
{
}

} // verus!
