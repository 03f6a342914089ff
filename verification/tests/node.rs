use ssdp::message;
use ssdp::node::arrived;
use ssdp::{
    multicast_group, Announcement, Arrived, Directions, Ipv4, Kind, Message, Outgoing, Received,
    Refusal, SsdpTransport, ALL, GROUP,
};
use std::time::Duration;

const PEER: &str = "127.0.0.1:40000";

fn node() -> SsdpTransport {
    SsdpTransport::new("127.0.0.1:0").timing_out_after(Duration::from_secs(2))
}

fn printer() -> SsdpTransport {
    node().announcing(
        "urn:schemas-upnp-org:device:Printer:1",
        "uuid:1234::urn:schemas-upnp-org:device:Printer:1",
        "http://10.0.0.5:8080/desc.xml",
    )
}

fn stream(received: Result<Received, Refusal>) -> Arrived {
    match received.expect("receiving") {
        Received::Stream(arrived) => arrived,
        other => panic!("not a Stream: {:?}", other),
    }
}

#[test]
fn a_location_is_announced_alive_and_a_message_goes_as_it_is() {
    let far_end = node();
    let address = PEER;
    let sent = printer()
        .send(
            &format!("ssdp://{address}"),
            b"http://10.0.0.5:8080/desc.xml",
        )
        .expect("announcing");
    assert_eq!(sent.address, address);
    let arrived = stream(far_end.receive_datagram(PEER, &sent.datagram));
    assert!(
        arrived.origin_uri.ends_with(
            "?nt=urn:schemas-upnp-org:device:Printer:1\
             &usn=uuid:1234::urn:schemas-upnp-org:device:Printer:1&nts=ssdp:alive"
        ),
        "{}",
        arrived.origin_uri
    );
    assert!(arrived.bytes.starts_with(b"NOTIFY * HTTP/1.1\r\n"));
    let text = String::from_utf8(arrived.bytes).expect("text");
    assert!(text.contains("LOCATION: http://10.0.0.5:8080/desc.xml\r\n"));
    assert!(text.contains("SERVER: xmip/0.1 UPnP/1.1\r\n"));
    let byebye = message::format(&Message::byebye(
        "upnp:rootdevice",
        "uuid:9::upnp:rootdevice",
    ));
    let sent = node().send(address, &byebye).expect("as it is");
    assert_eq!(sent.address, address);
    let gone = stream(far_end.receive_datagram(PEER, &sent.datagram));
    assert_eq!(gone.bytes, byebye);
    assert!(
        gone.origin_uri
            .ends_with("?nt=upnp:rootdevice&usn=uuid:9::upnp:rootdevice&nts=ssdp:byebye")
    );
    let sent = node().send(address, b"http://x/").expect("no announcement");
    let plain = stream(far_end.receive_datagram(PEER, &sent.datagram));
    assert!(
        plain
            .origin_uri
            .contains("nt=upnp:rootdevice&usn=uuid:xmip::upnp:rootdevice")
    );
}

#[test]
fn a_search_is_answered_where_something_is_announced() {
    let far_end = printer();
    assert_eq!(
        far_end.receive_datagram(PEER, &message::format(&Message::search("urn:other:1", 1))),
        Ok(Received::Skipped),
        "not what is announced"
    );
    let datagram =
        match far_end.receive_datagram(PEER, &message::format(&Message::search(ALL, 1))) {
            Ok(Received::Answer(datagram)) => datagram,
            other => panic!("not answered: {:?}", other),
        };
    let answer = message::parse(&datagram).expect("parse");
    assert_eq!(answer.kind, Kind::Response);
    assert_eq!(
        answer.header("ST"),
        Some("urn:schemas-upnp-org:device:Printer:1")
    );
    assert_eq!(
        answer.header("LOCATION"),
        Some("http://10.0.0.5:8080/desc.xml")
    );
    let arrived = stream(far_end.receive_datagram(PEER, &message::format(&answer)));
    assert!(arrived.origin_uri.ends_with(
        "?nt=urn:schemas-upnp-org:device:Printer:1\
         &usn=uuid:1234::urn:schemas-upnp-org:device:Printer:1&nts="
    ));
    assert!(
        node().answer(&Message::search(ALL, 1)).is_none(),
        "nothing announced"
    );
}

#[test]
fn what_is_not_httpu_is_refused_and_the_group_is_known() {
    let far_end = node();
    let refused = far_end
        .receive_datagram(PEER, b"GET / HTTP/1.1\r\n\r\n")
        .expect_err("refused");
    assert!(!refused.retryable());
    assert!(!node().send("http://x", b"").expect_err("scheme").retryable());
    let (group, port) = multicast_group(GROUP).expect("multicast");
    assert_eq!(group, Ipv4 { a: 239, b: 255, c: 255, d: 250 });
    assert_eq!(port, "0.0.0.0:1900");
    assert!(multicast_group("127.0.0.1:1900").is_none());
    assert!(multicast_group("nonsense").is_none());
    assert_eq!(node().name(), "ssdp");
    assert!(node().directions().receives);
}

#[test]
fn a_search_for_what_is_announced_is_answered_word_for_word() {
    let search = Message::search("urn:schemas-upnp-org:device:Printer:1", 3);
    let answer = Message::response(
        "urn:schemas-upnp-org:device:Printer:1",
        "uuid:1234::urn:schemas-upnp-org:device:Printer:1",
        "http://10.0.0.5:8080/desc.xml",
        "xmip/0.1 UPnP/1.1",
    );
    assert_eq!(printer().answer(&search), Some(answer));
    assert_eq!(
        printer().answer(&Message::search("URN:schemas-upnp-org:device:Printer:1", 3)),
        None
    );
}

#[test]
fn what_is_composed_opens_as_a_message_and_composes_to_itself() {
    let once = printer().compose(b" \t http://10.0.0.5/ \r\n");
    assert_eq!(
        once,
        b"NOTIFY * HTTP/1.1\r\nHOST: 239.255.255.250:1900\r\nCACHE-CONTROL: max-age=1800\r\n\
          LOCATION: http://10.0.0.5/\r\nNT: urn:schemas-upnp-org:device:Printer:1\r\n\
          NTS: ssdp:alive\r\nSERVER: xmip/0.1 UPnP/1.1\r\n\
          USN: uuid:1234::urn:schemas-upnp-org:device:Printer:1\r\n\r\n"
            .to_vec()
    );
    assert_eq!(node().compose(&once), once);
    assert_eq!(printer().announce("http://10.0.0.5/"), once);
}

#[test]
fn what_opens_like_httpu_goes_as_it_is() {
    for bytes in [
        "NOTIFY\t* HTTP/1.1\r\n\r\n",
        "NOTIFY",
        "M-SEARCH",
        "M-SEARCHING",
        "HTTP/",
        "HTTP/1.1 404 Not Found\r\n\r\n",
        "HTTP/1.1\u{3000}200\u{3000}OK",
    ] {
        assert_eq!(node().compose(bytes.as_bytes()), bytes.as_bytes().to_vec());
        assert_eq!(printer().compose(bytes.as_bytes()), bytes.as_bytes().to_vec());
    }
    for bytes in ["", "NOTIF", "notify * HTTP/1.1", "HTTP", "http://x/", " NOTIFY * HTTP/1.1"] {
        let alive = message::parse(&node().compose(bytes.as_bytes())).expect("alive");
        assert_eq!(alive.header("LOCATION"), Some(bytes.trim()));
    }
}

#[test]
fn a_response_has_no_nts_in_its_origin() {
    let response = Message::response("st", "usn", "loc", "srv").with("NTS", "ssdp:alive");
    let datagram = message::format(&response);
    let from = arrived("127.0.0.1:1900", &response, &datagram);
    assert_eq!(from.origin_uri, "ssdp://127.0.0.1:1900?nt=st&usn=usn&nts=");
    assert_eq!(stream(node().receive_datagram("127.0.0.1:1900", &datagram)), from);
}

#[test]
fn any_other_message_has_its_nts_in_its_origin() {
    let search = Message::search("st", 1).with("USN", "usn").with("nts", "x");
    let from = arrived("p", &search, b"");
    assert_eq!(from.origin_uri, "ssdp://p?nt=st&usn=usn&nts=x");
    let notify = Message::byebye("nt", "usn");
    let from = arrived("p", &notify, b"");
    assert_eq!(from.origin_uri, "ssdp://p?nt=nt&usn=usn&nts=ssdp:byebye");
}

#[test]
fn bytes_that_are_not_text_are_announced_with_replacements() {
    let alive = message::parse(&node().compose(b"http://\xff/")).expect("alive");
    assert_eq!(alive.header("LOCATION"), Some("http://\u{fffd}/"));
    let empty = message::parse(&node().compose(b"")).expect("alive");
    assert_eq!(empty.header("LOCATION"), Some(""));
}

#[test]
fn an_origin_says_what_the_headers_knew() {
    let alive = Message::alive("nt", "usn", "loc", "srv");
    let from = arrived("[::1]:1900", &alive, b"raw");
    assert_eq!(from.origin_uri, "ssdp://[::1]:1900?nt=nt&usn=usn&nts=ssdp:alive");
    assert_eq!(from.bytes, b"raw".to_vec());
    let nothing = arrived("p", &Message::new(Kind::Notify), b"");
    assert_eq!(nothing.origin_uri, "ssdp://p?nt=&usn=&nts=");
}

#[test]
fn a_node_binds_what_it_was_given_or_joins_the_group() {
    let group = SsdpTransport::new(GROUP).bind_udp();
    assert_eq!(group.address, "0.0.0.0:1900");
    assert_eq!(group.group, Some(Ipv4 { a: 239, b: 255, c: 255, d: 250 }));
    assert_eq!(group.timeout, None);
    let alone = SsdpTransport::new("localhost:5".to_string())
        .timing_out_after(Duration::from_millis(7))
        .bind_udp();
    assert_eq!(alone.address, "localhost:5");
    assert_eq!(alone.group, None);
    assert_eq!(alone.timeout, Some(Duration::from_millis(7)));
}

#[test]
fn a_copy_of_a_node_is_the_same_node() {
    let copy = printer().clone();
    assert_eq!(copy.compose(b"x"), printer().compose(b"x"));
    assert_eq!(copy.bind_udp(), printer().bind_udp());
    let announcement = Announcement {
        st: "s".to_string(),
        usn: "u".to_string(),
        location: "l".to_string(),
    };
    assert_eq!(announcement.clone(), announcement);
    assert_eq!(
        printer().directions(),
        Directions { receives: true, sends: true }
    );
}

#[test]
fn a_send_goes_under_the_scheme_or_to_a_bare_address() {
    let to = |target: &str| -> Result<Outgoing, Refusal> { node().send(target, b"HTTP/") };
    assert_eq!(to("ssdp://host:1/path").expect("path").address, "host:1");
    assert_eq!(to("ssdp://host:1").expect("scheme").address, "host:1");
    assert_eq!(to("host:1").expect("bare").address, "host:1");
    assert_eq!(to("host:1").expect("bare").datagram, b"HTTP/".to_vec());
    assert_eq!(
        to("http://host:1"),
        Err(Refusal::NotTarget("http://host:1".to_string()))
    );
    assert_eq!(
        to("://").expect_err("no scheme").message(),
        "not an ssdp target: ://"
    );
}
