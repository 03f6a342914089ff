//! How a Stream is carried: the laws of searching for it chunk by chunk.

use crate::address::{authority_of, peer_in};
use crate::addressing::{origin_names_its_peer, peer_is_before_path_and_query};
use crate::hex::{hex_bytes, hex_reads_back, hex_text, lemma_hex_text_ascii};
use crate::lookup::{appended_is_found_last, response_says, search_says};
use crate::loopback::{
    asked, chunk, chunk_count, chunk_response, control_point, device_answer, stream_type,
    ControlPointView, ProgressView, CHUNK, DEVICE, HEADER, LOCATION, STREAM, USN,
};
use crate::message::{header_line, header_lines, read_datagram, HeaderView, Kind, MessageView};
use crate::node::{origin, ArrivedView, ReceivedView, TransportView, MAX_DATAGRAM, SERVER};
use crate::number::{
    decimal, decimal_reads_back, digit, lemma_decimal_len, number, number_reads_back, ten_to,
};
use crate::refusal::RefusalView;
use crate::round_trip::{
    alive_is_written, alive_reads_back, clean_name, clean_value, header_more_is_a_line_more,
    lemma_decimal_clean, lemma_trim_keeps, message_reads_back, response_is_written,
    response_reads_back, search_is_written, search_reads_back,
};
use vstd::prelude::*;
use vstd::utf8::{encode_utf8, is_ascii_chars, is_ascii_chars_encode_utf8};

verus! {

/// A search names its chunk.
pub proof fn search_names_its_chunk(n: nat)
    requires
        n <= usize::MAX,
    ensures
        asked(stream_type(n)) == Ok::<nat, RefusalView>(n),
{
    let st = stream_type(n);
    assert(st.subrange(0, STREAM@.len() as int) =~= STREAM@);
    assert(st.skip(STREAM@.len() as int) =~= decimal(n));
    number_reads_back(n, usize::MAX as nat);
}

/// The device and the control point, run against each other from here on:
/// the control point searches, the device that holds `payload` answers, the
/// answer is received at `node` and taken. What arrives, where both end at
/// the same answer.
pub open spec fn exchange(
    node: TransportView,
    point: ControlPointView,
    payload: Seq<u8>,
) -> Option<ArrivedView>
    decreases usize::MAX - point.next,
{
    match device_answer(payload, point.search().datagram()) {
        Err(_) => None,
        Ok((answer, last)) => match node.receive(point.device, answer) {
            Ok(ReceivedView::Stream(arrived)) => match point.take(arrived.bytes) {
                Ok(ProgressView::More(next)) => if last {
                    None
                } else {
                    exchange(node, next, payload)
                },
                Ok(ProgressView::Done(stream)) => if last {
                    Some(stream)
                } else {
                    None
                },
                Err(_) => None,
            },
            _ => None,
        },
    }
}

/// What the device is announced with is clean.
proof fn lemma_device_text_clean()
    ensures
        clean_value(DEVICE@),
        clean_value(USN@),
        clean_value(LOCATION@),
        clean_value(SERVER@),
        clean_name(HEADER@),
{
    reveal_strlit("urn:xmip:device:Probe:1");
    reveal_strlit("uuid:xmip-probe::urn:xmip:device:Probe:1");
    reveal_strlit("http://127.0.0.1/probe.xml");
    reveal_strlit("xmip/0.1 UPnP/1.1");
    reveal_strlit("X-STREAM");
    lemma_trim_keeps(DEVICE@);
    lemma_trim_keeps(USN@);
    lemma_trim_keeps(LOCATION@);
    lemma_trim_keeps(SERVER@);
    lemma_trim_keeps(HEADER@);
}

/// The search type of a chunk is clean.
proof fn lemma_stream_type_clean(n: nat)
    ensures
        clean_value(stream_type(n)),
{
    reveal_strlit("urn:xmip:stream:");
    let st = stream_type(n);
    lemma_decimal_clean(n);
    decimal_reads_back(n);
    assert(digit(decimal(n).last()));
    assert(st.last() == decimal(n).last());
    assert(st[0] == 'u');
    lemma_trim_keeps(st);
    if st.contains('\n') {
        let i = choose|i: int| 0 <= i < st.len() && st[i] == '\n';
        if i >= STREAM@.len() {
            assert(digit(decimal(n)[i - STREAM@.len()]));
        }
    }
}

/// Hex digits are a clean value.
proof fn lemma_hex_clean(bytes: Seq<u8>)
    ensures
        clean_value(hex_text(bytes)),
{
    lemma_trim_keeps(hex_text(bytes));
}

/// The response to a search for a chunk reads back, carrying that chunk in
/// hex; a search past the end is answered with no Stream.
pub proof fn chunk_reads_back(payload: Seq<u8>, n: nat)
    ensures
        ({
            let message = chunk_response(payload, n);
            &&& message.kind == Kind::Response
            &&& read_datagram(message.datagram()) == Ok::<MessageView, RefusalView>(message)
            &&& message.header(HEADER@) == match chunk(payload, n) {
                Some(bytes) => Some(hex_text(bytes)),
                None => None,
            }
            &&& message.header(HEADER@) is None <==> n >= chunk_count(payload)
        }),
{
    let message = chunk_response(payload, n);
    let plain = MessageView::response(stream_type(n), USN@, LOCATION@, SERVER@);
    lemma_device_text_clean();
    lemma_stream_type_clean(n);
    response_reads_back(stream_type(n), USN@, LOCATION@, SERVER@);
    response_says(stream_type(n), USN@, LOCATION@, SERVER@);
    message_reads_back(plain);
    message_reads_back(message);
    if let Some(bytes) = chunk(payload, n) {
        lemma_hex_clean(bytes);
        appended_is_found_last(plain, HEADER@, hex_text(bytes), HEADER@);
        assert forall|i: int| 0 <= i < message.headers.len() implies clean_name(
            (#[trigger] message.headers[i]).0,
        ) && clean_value(message.headers[i].1) by {
            if i < plain.headers.len() {
                assert(message.headers[i] == plain.headers[i]);
            }
        }
    }
}

/// From a control point that has the first chunks of `payload`, the rest
/// arrives.
proof fn lemma_rest_is_delivered(
    node: TransportView,
    point: ControlPointView,
    payload: Seq<u8>,
)
    requires
        payload.len() <= usize::MAX,
        point.next <= chunk_count(payload),
        point.bytes == if point.next * CHUNK <= payload.len() {
            payload.take(point.next * CHUNK)
        } else {
            payload
        },
    ensures
        exchange(node, point, payload) == Some(
            ArrivedView { origin_uri: point.origin_uri, bytes: payload },
        ),
    decreases chunk_count(payload) - point.next,
{
    let n = point.next;
    let response = chunk_response(payload, n);
    lemma_stream_type_clean(n);
    search_reads_back(stream_type(n), 1);
    search_says(stream_type(n), 1);
    search_names_its_chunk(n);
    chunk_reads_back(payload, n);
    assert(device_answer(payload, point.search().datagram()) == Ok::<
        (Seq<u8>, bool),
        RefusalView,
    >((response.datagram(), n >= chunk_count(payload))));
    if n < chunk_count(payload) {
        let bytes = chunk(payload, n)->0;
        hex_reads_back(bytes);
        let next = ControlPointView { next: n + 1, bytes: point.bytes + bytes, ..point };
        assert(point.take(response.datagram()) == Ok::<ProgressView, RefusalView>(
            ProgressView::More(next),
        ));
        if (n + 1) * CHUNK <= payload.len() {
            assert(next.bytes =~= payload.take((n + 1) * CHUNK));
        } else {
            assert(next.bytes =~= payload);
        }
        lemma_rest_is_delivered(node, next, payload);
    } else {
        assert(point.bytes =~= payload);
    }
}

/// A Stream is delivered: a device announces itself, the control point
/// searches it chunk by chunk, and what arrives is the whole payload with
/// the announcement's origin. Both ends stop at the same answer.
pub proof fn stream_is_delivered(node: TransportView, peer: Seq<char>, payload: Seq<u8>)
    requires
        payload.len() <= usize::MAX,
        peer.len() > 0,
        !peer.contains('/'),
        !peer.contains('?'),
    ensures
        ({
            let alive = MessageView::alive(DEVICE@, USN@, LOCATION@, SERVER@);
            let uri = origin(peer, alive);
            &&& node.receive(peer, alive.datagram()) == Ok::<ReceivedView, RefusalView>(
                ReceivedView::Stream(ArrivedView { origin_uri: uri, bytes: alive.datagram() }),
            )
            &&& control_point(uri) matches Ok(point) && point.device == peer && exchange(
                node,
                point,
                payload,
            ) == Some(ArrivedView { origin_uri: uri, bytes: payload })
        }),
{
    let alive = MessageView::alive(DEVICE@, USN@, LOCATION@, SERVER@);
    let uri = origin(peer, alive);
    lemma_device_text_clean();
    alive_reads_back(DEVICE@, USN@, LOCATION@, SERVER@);
    origin_names_its_peer(peer, alive);
    let point = ControlPointView { origin_uri: uri, device: peer, next: 0, bytes: seq![] };
    assert(payload.take(0) =~= seq![]);
    lemma_rest_is_delivered(node, point, payload);
}

/// Headers of ASCII make lines of ASCII.
proof fn lemma_lines_ascii(headers: Seq<HeaderView>)
    requires
        forall|i: int|
            0 <= i < headers.len() ==> is_ascii_chars((#[trigger] headers[i]).0) && is_ascii_chars(
                headers[i].1,
            ),
    ensures
        is_ascii_chars(header_lines(headers)),
    decreases headers.len(),
{
    if headers.len() > 0 {
        let rest = headers.skip(1);
        assert forall|i: int| 0 <= i < rest.len() implies is_ascii_chars((#[trigger] rest[i]).0)
            && is_ascii_chars(rest[i].1) by {
            assert(rest[i] == headers[i + 1]);
        }
        lemma_lines_ascii(rest);
        reveal_strlit(": ");
        reveal_strlit("\r\n");
        assert(is_ascii_chars(headers[0].0) && is_ascii_chars(headers[0].1));
        assert(is_ascii_chars(header_line(headers[0])));
    }
}

/// How long the lines of one header and of those after it are.
proof fn lemma_lines_len(headers: Seq<HeaderView>)
    requires
        headers.len() > 0,
    ensures
        header_lines(headers).len() == headers[0].0.len() + headers[0].1.len() + 4 + header_lines(
            headers.skip(1),
        ).len(),
{
    reveal_strlit(": ");
    reveal_strlit("\r\n");
}

/// Every response to a search for a chunk fits the datagram that a node
/// takes.
pub proof fn response_fits(payload: Seq<u8>, n: nat)
    requires
        n <= usize::MAX,
    ensures
        chunk_response(payload, n).datagram().len() <= MAX_DATAGRAM,
{
    reveal_strlit("CACHE-CONTROL");
    reveal_strlit("max-age=1800");
    reveal_strlit("EXT");
    reveal_strlit("");
    reveal_strlit("LOCATION");
    reveal_strlit("SERVER");
    reveal_strlit("ST");
    reveal_strlit("USN");
    reveal_strlit("X-STREAM");
    reveal_strlit("uuid:xmip-probe::urn:xmip:device:Probe:1");
    reveal_strlit("http://127.0.0.1/probe.xml");
    reveal_strlit("xmip/0.1 UPnP/1.1");
    reveal_strlit("urn:xmip:stream:");
    reveal_strlit("HTTP/1.1 200 OK");
    reveal_strlit("\r\n");
    reveal_with_fuel(ten_to, 21);
    lemma_decimal_len(n, 20);
    decimal_reads_back(n);
    assert(is_ascii_chars(stream_type(n))) by {
        assert forall|i: int| 0 <= i < stream_type(n).len() implies '\0' <= #[trigger] stream_type(
            n,
        )[i] <= '\u{7f}' by {
            if i >= STREAM@.len() {
                assert(digit(decimal(n)[i - STREAM@.len()]));
            }
        }
    }
    let message = chunk_response(payload, n);
    let h0 = message.headers;
    if let Some(bytes) = chunk(payload, n) {
        lemma_hex_text_ascii(bytes);
        assert(bytes.len() <= CHUNK);
    }
    let h1 = h0.skip(1);
    let h2 = h1.skip(1);
    let h3 = h2.skip(1);
    let h4 = h3.skip(1);
    let h5 = h4.skip(1);
    let h6 = h5.skip(1);
    lemma_lines_len(h0);
    lemma_lines_len(h1);
    lemma_lines_len(h2);
    lemma_lines_len(h3);
    lemma_lines_len(h4);
    lemma_lines_len(h5);
    if h6.len() > 0 {
        lemma_lines_len(h6);
        assert(h6.skip(1).len() == 0);
    }
    lemma_lines_ascii(h0);
    assert(is_ascii_chars(message.text()));
    is_ascii_chars_encode_utf8(message.text());
}

/// A chunk is asked for by the name of the Stream and a number after it, and
/// by nothing else.
pub proof fn chunks_are_asked_for_by_number(n: nat, rest: Seq<char>, other: Seq<char>)
    ensures
        stream_type(n) == "urn:xmip:stream:"@ + decimal(n),
        asked("urn:xmip:stream:"@ + rest) == match number(rest, usize::MAX as nat) {
            Some(n) => Ok::<nat, RefusalView>(n),
            None => Err(RefusalView::OtherSearch("urn:xmip:stream:"@ + rest)),
        },
        !("urn:xmip:stream:"@.is_prefix_of(other)) ==> asked(other) == Err::<nat, RefusalView>(
            RefusalView::OtherSearch(other),
        ),
{
    let st = "urn:xmip:stream:"@ + rest;
    let at = "urn:xmip:stream:"@.len() as int;
    assert(st.subrange(0, at) =~= "urn:xmip:stream:"@);
    assert(st.skip(at) =~= rest);
}

/// A payload is cut every three thousand bytes: chunk `n` starts after as many
/// for each chunk before it, and is as long, but for what is left at the end.
pub proof fn payload_is_cut_into_chunks(payload: Seq<u8>, n: nat)
    ensures
        n < chunk_count(payload) <==> n * 3000 < payload.len(),
        chunk(payload, n) is Some <==> n * 3000 < payload.len(),
        chunk(payload, n) matches Some(bytes) ==> bytes.len() == if (n + 1) * 3000
            <= payload.len() {
            3000
        } else {
            payload.len() - n * 3000
        },
        chunk(payload, n) matches Some(bytes) ==> forall|i: int|
            0 <= i < bytes.len() ==> #[trigger] bytes[i] == payload[n * 3000 + i],
{
}

/// The response to a search for a chunk, in full: that of a device at its
/// place, and the chunk in hex where there is one.
pub proof fn chunk_response_is_written(payload: Seq<u8>, n: nat)
    ensures
        ({
            let plain = "HTTP/1.1 200 OK"@ + "\r\n"@
                + "CACHE-CONTROL: "@ + "max-age=1800"@ + "\r\n"@
                + "EXT: "@ + ""@ + "\r\n"@
                + "LOCATION: "@ + "http://127.0.0.1/probe.xml"@ + "\r\n"@
                + "SERVER: "@ + "xmip/0.1 UPnP/1.1"@ + "\r\n"@
                + "ST: "@ + ("urn:xmip:stream:"@ + decimal(n)) + "\r\n"@
                + "USN: "@ + "uuid:xmip-probe::urn:xmip:device:Probe:1"@ + "\r\n"@;
            chunk_response(payload, n).text() == match chunk(payload, n) {
                Some(bytes) => plain + "X-STREAM"@ + ": "@ + hex_text(bytes) + "\r\n\r\n"@,
                None => plain + "\r\n"@,
            }
        }),
{
    let st = stream_type(n);
    let plain = MessageView::response(st, USN@, LOCATION@, SERVER@);
    response_is_written(st, USN@, LOCATION@, SERVER@);
    if let Some(bytes) = chunk(payload, n) {
        header_more_is_a_line_more(plain, HEADER@, hex_text(bytes));
        let text = plain.text();
        let opening = "HTTP/1.1 200 OK"@ + "\r\n"@
            + "CACHE-CONTROL: "@ + "max-age=1800"@ + "\r\n"@
            + "EXT: "@ + ""@ + "\r\n"@
            + "LOCATION: "@ + LOCATION@ + "\r\n"@
            + "SERVER: "@ + SERVER@ + "\r\n"@
            + "ST: "@ + st + "\r\n"@
            + "USN: "@ + USN@ + "\r\n"@;
        reveal_strlit("\r\n");
        assert(text == opening + "\r\n"@);
        assert(text.take(text.len() - 2) =~= opening);
    }
}

/// The device answers a search for a chunk with that chunk, and is done when
/// asked for what starts at or past the end; what asks for anything else, or
/// is no message, is refused.
pub proof fn device_answers_searches(
    payload: Seq<u8>,
    datagram: Seq<u8>,
    search: MessageView,
    st: Seq<char>,
)
    requires
        read_datagram(datagram) == Ok::<MessageView, RefusalView>(search),
        search.kind == Kind::Search,
        search.header("ST"@) == Some(st) || (search.header("ST"@) is None && st.len() == 0),
    ensures
        asked(st) matches Ok(n) ==> device_answer(payload, datagram) == Ok::<
            (Seq<u8>, bool),
            RefusalView,
        >((encode_utf8(chunk_response(payload, n).text()), n * 3000 >= payload.len())),
        asked(st) matches Err(refusal) ==> device_answer(payload, datagram) == Err::<
            (Seq<u8>, bool),
            RefusalView,
        >(refusal),
{
    if search.header("ST"@) is None {
        assert(st =~= Seq::<char>::empty());
    }
}

/// The device goes by the type of what it is asked, and refuses what is no
/// message as reading it is refused.
pub proof fn device_goes_by_the_type(payload: Seq<u8>, one: Seq<u8>, other: Seq<u8>)
    ensures
        read_datagram(one) matches Err(refusal) ==> device_answer(payload, one) == Err::<
            (Seq<u8>, bool),
            RefusalView,
        >(refusal),
        read_datagram(one) is Ok && read_datagram(other) is Ok && read_datagram(
            one,
        )->Ok_0.notification_type() == read_datagram(other)->Ok_0.notification_type()
            ==> device_answer(payload, one) == device_answer(payload, other),
{
}

/// A control point starts with the first chunk and nothing of the Stream, at
/// the peer that its announcement came from.
pub proof fn control_point_starts(peer: Seq<char>, query: Seq<char>)
    requires
        peer.len() > 0,
        !peer.contains('/'),
        !peer.contains('?'),
        query.len() > 0 ==> query[0] == '?',
    ensures
        control_point("ssdp://"@ + peer + query) == Ok::<ControlPointView, RefusalView>(
            ControlPointView {
                origin_uri: "ssdp://"@ + peer + query,
                device: peer,
                next: 0,
                bytes: seq![],
            },
        ),
{
    peer_is_before_path_and_query(peer, query);
}

/// An origin that names no peer starts no control point.
pub proof fn no_peer_starts_nothing(uri: Seq<char>)
    ensures
        peer_in(uri, authority_of("ssdp"@, uri)) matches Err(refusal) ==> control_point(uri)
            == Err::<ControlPointView, RefusalView>(refusal),
{
}

/// A control point searches for the chunk that is next, to be answered within
/// a second.
pub proof fn control_point_searches(point: ControlPointView)
    ensures
        point.search().text() == "M-SEARCH * HTTP/1.1"@ + "\r\n"@
            + "HOST: "@ + "239.255.255.250:1900"@ + "\r\n"@
            + "MAN: "@ + "\"ssdp:discover\""@ + "\r\n"@
            + "MX: "@ + "1"@ + "\r\n"@
            + "ST: "@ + ("urn:xmip:stream:"@ + decimal(point.next)) + "\r\n"@
            + "\r\n"@,
{
    reveal_strlit("1");
    assert(decimal(1) =~= "1"@);
    search_is_written(stream_type(point.next), 1);
}

/// What an answer carries in hex is added to the end of the Stream, and the
/// next chunk is due; an answer that carries nothing closes it, with what has
/// come. What is no message or no hex is refused, and so is a chunk past all
/// counting.
pub proof fn answers_are_taken(point: ControlPointView, answer: Seq<u8>, response: MessageView)
    requires
        read_datagram(answer) == Ok::<MessageView, RefusalView>(response),
    ensures
        response.header("X-STREAM"@) is None ==> point.take(answer) == Ok::<
            ProgressView,
            RefusalView,
        >(
            ProgressView::Done(
                ArrivedView { origin_uri: point.origin_uri, bytes: point.bytes },
            ),
        ),
        response.header("X-STREAM"@) matches Some(digits) ==> (hex_bytes(digits) matches Err(
            refusal,
        ) ==> point.take(answer) == Err::<ProgressView, RefusalView>(refusal)),
        response.header("X-STREAM"@) matches Some(digits) ==> (hex_bytes(digits) matches Ok(found)
            ==> point.take(answer) == if point.next + 1 < usize::MAX {
            Ok::<ProgressView, RefusalView>(
                ProgressView::More(
                    ControlPointView {
                        origin_uri: point.origin_uri,
                        device: point.device,
                        next: point.next + 1,
                        bytes: point.bytes + found,
                    },
                ),
            )
        } else {
            Err(RefusalView::Endless)
        }),
{
}

/// What is no message is no answer.
pub proof fn what_is_no_message_is_not_taken(point: ControlPointView, answer: Seq<u8>)
    ensures
        read_datagram(answer) matches Err(refusal) ==> point.take(answer) == Err::<
            ProgressView,
            RefusalView,
        >(refusal),
{
}

/// The device announces itself, in full.
pub proof fn device_is_announced()
    ensures
        MessageView::alive(DEVICE@, USN@, LOCATION@, SERVER@).text() == "NOTIFY * HTTP/1.1"@
            + "\r\n"@
            + "HOST: "@ + "239.255.255.250:1900"@ + "\r\n"@
            + "CACHE-CONTROL: "@ + "max-age=1800"@ + "\r\n"@
            + "LOCATION: "@ + "http://127.0.0.1/probe.xml"@ + "\r\n"@
            + "NT: "@ + "urn:xmip:device:Probe:1"@ + "\r\n"@
            + "NTS: "@ + "ssdp:alive"@ + "\r\n"@
            + "SERVER: "@ + "xmip/0.1 UPnP/1.1"@ + "\r\n"@
            + "USN: "@ + "uuid:xmip-probe::urn:xmip:device:Probe:1"@ + "\r\n"@
            + "\r\n"@,
{
    alive_is_written(DEVICE@, USN@, LOCATION@, SERVER@);
}

} // verus!
