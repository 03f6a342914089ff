use ssdp::address::peer_of;
use ssdp::hex::{hex, unhex};
use ssdp::loopback::{chunk_asked, chunks, ControlPoint, Progress, CHUNK};
use ssdp::message;
use ssdp::{Arrived, Message, Received, Refusal, SsdpTransport, MAX_DATAGRAM};
use std::time::Duration;

const PEER: &str = "127.0.0.1:40000";

fn node() -> SsdpTransport {
    SsdpTransport::loopback(Duration::from_secs(2))
}

#[test]
fn hex_reads_back_and_a_search_names_its_chunk() {
    assert_eq!(hex(&[0, 0x7f, 0xff]), "007fff");
    assert_eq!(unhex("007fff").expect("hex"), [0, 0x7f, 0xff]);
    assert!(unhex("").expect("nothing").is_empty());
    assert!(unhex("abc").is_err(), "odd");
    assert!(unhex("zz").is_err(), "not hex");
    assert_eq!(chunk_asked("urn:xmip:stream:12").expect("asked"), 12);
    assert!(chunk_asked("ssdp:all").is_err());
    assert_eq!(
        peer_of("ssdp://127.0.0.1:1900?nt=x&usn=y&nts=ssdp:alive").expect("peer"),
        "127.0.0.1:1900"
    );
    assert!(peer_of("ssdp://?nt=x").is_err());
    assert!(peer_of("http://127.0.0.1:1900").is_err());
}

#[test]
fn every_byte_is_two_digits() {
    let bytes: Vec<u8> = (0..=255u8).collect();
    let text = hex(&bytes);
    for byte in 0..=255usize {
        assert_eq!(&text[2 * byte..2 * byte + 2], format!("{byte:02x}"));
    }
    assert_eq!(unhex(&text), Ok(bytes.clone()));
    assert_eq!(hex(&bytes[..100]) + &hex(&bytes[100..]), text);
    assert_eq!(unhex(&text.to_uppercase()), Ok(bytes));
}

#[test]
fn a_pair_is_two_hex_digits_and_writes_back_in_lower_case() {
    for high in 0..128u8 {
        for low in 0..128u8 {
            let pair = String::from_utf8(vec![high, low]).expect("text");
            match (char::from(high).to_digit(16), char::from(low).to_digit(16)) {
                (Some(h), Some(l)) => {
                    assert_eq!(unhex(&pair), Ok(vec![(16 * h + l) as u8]));
                    assert_eq!(hex(&unhex(&pair).expect("hex")), pair.to_lowercase());
                }
                _ => assert_eq!(unhex(&pair), Err(Refusal::NotHex(pair.clone()))),
            }
        }
    }
    assert_eq!(unhex("+f"), Err(Refusal::NotHex("+f".to_string())));
    assert_eq!(unhex("00+f"), Err(Refusal::NotHex("00+f".to_string())));
    assert_eq!(unhex("\u{e9}"), Err(Refusal::NotHex("\u{e9}".to_string())));
    assert_eq!(unhex("a\u{e9}b"), Err(Refusal::NotHex("a\u{e9}b".to_string())));
    assert_eq!(unhex("a\u{e9}"), Err(Refusal::OddHex("a\u{e9}".to_string())));
}

#[test]
fn a_chunk_is_asked_for_by_number() {
    for rest in [
        "0", "007", "+12", "+", "", "-1", "-0", " 1", "1 ", "1_0", "\u{661}", "++1",
        "18446744073709551615", "18446744073709551616", "00000000000000000000000000000001",
    ] {
        let st = format!("urn:xmip:stream:{rest}");
        match rest.parse::<usize>() {
            Ok(n) => assert_eq!(chunk_asked(&st), Ok(n)),
            Err(_) => assert_eq!(chunk_asked(&st), Err(Refusal::OtherSearch(st.clone()))),
        }
    }
    assert!(chunk_asked("urn:xmip:strea").is_err());
    assert!(chunk_asked("URN:xmip:stream:1").is_err());
}

#[test]
fn an_origin_without_a_peer_is_refused_by_name() {
    assert_eq!(
        peer_of("ssdp://?nt=x"),
        Err(Refusal::NoPeer("ssdp://?nt=x".to_string()))
    );
    assert_eq!(peer_of("ssdp://a/b?c"), Ok("a".to_string()));
    assert_eq!(peer_of("ssdp://a"), Ok("a".to_string()));
    assert!(peer_of("").is_err());
}

#[test]
fn a_response_carries_its_chunk_and_fits_a_datagram() {
    let payload: Vec<u8> = (0..2 * CHUNK + 1).map(|i| i as u8).collect();
    assert_eq!(chunks(&payload), 3);
    assert_eq!(chunks(&payload[..CHUNK]), 1);
    assert_eq!(chunks(&[]), 0);
    for n in 0..3 {
        let datagram = node().response(&payload, n);
        assert!(datagram.len() <= MAX_DATAGRAM);
        let response = message::parse(&datagram).expect("response");
        let chunk = payload.chunks(CHUNK).nth(n).expect("chunk");
        assert_eq!(response.header("x-stream"), Some(hex(chunk).as_str()));
        assert_eq!(response.notification_type(), format!("urn:xmip:stream:{n}"));
    }
    let past = message::parse(&node().response(&payload, usize::MAX)).expect("past the end");
    assert_eq!(past.header("X-STREAM"), None);
    assert_eq!(
        node().response(&[0xab], 0),
        b"HTTP/1.1 200 OK\r\nCACHE-CONTROL: max-age=1800\r\nEXT: \r\n\
          LOCATION: http://127.0.0.1/probe.xml\r\nSERVER: xmip/0.1 UPnP/1.1\r\n\
          ST: urn:xmip:stream:0\r\nUSN: uuid:xmip-probe::urn:xmip:device:Probe:1\r\n\
          X-STREAM: ab\r\n\r\n"
            .to_vec()
    );
}

fn begin() -> ControlPoint {
    match node().receive_datagram(PEER, &node().device_alive()) {
        Ok(Received::Stream(alive)) => ControlPoint::new(alive).expect("a peer"),
        other => panic!("not announced: {:?}", other),
    }
}

fn carry(payload: &[u8]) -> Arrived {
    let mut point = begin();
    loop {
        let search = point.search();
        assert_eq!(search.address, PEER);
        let answered = node().answer_search(payload, &search.datagram).expect("answered");
        let answer = match node().receive_datagram(PEER, &answered.datagram) {
            Ok(Received::Stream(answer)) => answer,
            other => panic!("not an answer: {:?}", other),
        };
        match point.take(&answer.bytes).expect("taken") {
            Progress::More(next) => {
                assert!(!answered.last);
                point = next;
            }
            Progress::Done(arrived) => {
                assert!(answered.last);
                return arrived;
            }
        }
    }
}

#[test]
fn a_stream_is_carried_whole() {
    for len in [0, 1, CHUNK - 1, CHUNK, CHUNK + 1, 3 * CHUNK, 10_001] {
        let payload: Vec<u8> = (0..len).map(|i| (i * 7) as u8).collect();
        let arrived = carry(&payload);
        assert_eq!(arrived.bytes, payload);
        assert_eq!(
            arrived.origin_uri,
            "ssdp://127.0.0.1:40000?nt=urn:xmip:device:Probe:1\
             &usn=uuid:xmip-probe::urn:xmip:device:Probe:1&nts=ssdp:alive"
        );
    }
}

#[test]
fn what_is_no_answer_stops_the_control_point() {
    let refusal = |answer: &[u8]| match begin().take(answer) {
        Ok(_) => panic!("taken"),
        Err(refusal) => refusal,
    };
    assert_eq!(refusal(&[0xff]), Refusal::NotUtf8);
    assert_eq!(
        refusal(b"HTTP/1.1 200 OK\nX-Stream: a\n"),
        Refusal::OddHex("a".to_string())
    );
    assert_eq!(
        refusal(b"HTTP/1.1 200 OK\nX-Stream: xx\n"),
        Refusal::NotHex("xx".to_string())
    );
    assert!(ControlPoint::new(Arrived { origin_uri: "x".to_string(), bytes: vec![] }).is_err());
}

#[test]
fn what_is_no_search_for_a_chunk_stops_the_device() {
    assert_eq!(
        node().answer_search(b"", &message::format(&Message::search("ssdp:all", 1))),
        Err(Refusal::OtherSearch("ssdp:all".to_string()))
    );
    assert_eq!(node().answer_search(b"", &[0xff]), Err(Refusal::NotUtf8));
}

#[test]
fn both_ends_listen_on_this_machine() {
    let binding = node().bind_udp();
    assert_eq!(binding.address, "127.0.0.1:0");
    assert_eq!(binding.group, None);
    assert_eq!(binding.timeout, Some(Duration::from_secs(2)));
}
