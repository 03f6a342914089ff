use ssdp::message;
use ssdp::message::{is_message, parse, Kind, Message, ALIVE, ALL, BYEBYE};
use ssdp::Refusal;

#[test]
fn each_kind_round_trips_and_headers_read_without_case() {
    let alive = Message::alive(
        "upnp:rootdevice",
        "uuid:1::upnp:rootdevice",
        "http://10.0.0.5/d.xml",
        "xmip/0.1",
    );
    let bytes = message::format(&alive);
    assert!(bytes.starts_with(b"NOTIFY * HTTP/1.1\r\nHOST: 239.255.255.250:1900\r\n"));
    assert!(bytes.ends_with(b"USN: uuid:1::upnp:rootdevice\r\n\r\n"));
    assert!(is_message(&bytes));
    let back = parse(&bytes).expect("parse");
    assert_eq!(back, alive);
    assert_eq!(back.header("location"), Some("http://10.0.0.5/d.xml"));
    assert_eq!(back.header("Nts"), Some(ALIVE));
    assert_eq!(back.notification_type(), "upnp:rootdevice");
    let search = parse(&message::format(&Message::search(ALL, 2))).expect("search");
    assert_eq!(search.kind, Kind::Search);
    assert_eq!(search.header("MAN"), Some("\"ssdp:discover\""));
    assert_eq!(search.notification_type(), ALL);
    let response = parse(&message::format(&Message::response("st", "usn", "loc", "srv"))).expect("ok");
    assert_eq!(response.kind, Kind::Response);
    assert_eq!(response.header("EXT"), Some(""));
    assert_eq!(
        parse(&message::format(&Message::byebye("nt", "usn")))
            .expect("bye")
            .header("NTS"),
        Some(BYEBYE)
    );
    let loose = parse(b"HTTP/1.1 200 OK\nst:  a \nusn:b\n\nignored").expect("bare newlines");
    assert_eq!(loose.header("ST"), Some("a"));
    assert_eq!(loose.header("USN"), Some("b"));
}

#[test]
fn what_is_not_httpu_is_refused() {
    assert!(parse(b"GET / HTTP/1.1\r\n\r\n").is_err(), "a request");
    assert!(parse(b"NOTIFY / HTTP/1.1\r\n\r\n").is_err(), "not *");
    assert!(parse(b"HTTP/1.1 404 Not Found\r\n\r\n").is_err(), "not 200");
    assert!(parse(b"NOTIFY * HTTP/1.1\r\nno colon\r\n\r\n").is_err());
    assert!(parse(&[0xff]).is_err(), "not text");
    assert!(
        !is_message(b"http://10.0.0.5/d.xml"),
        "a location is not a message"
    );
}

#[test]
fn a_name_is_matched_first_and_whatever_its_case() {
    let message = Message::new(Kind::Notify)
        .with("Nt", "first")
        .with("nT", "second")
        .with("X-Other", "third");
    assert_eq!(message.header("NT"), Some("first"));
    assert_eq!(message.header("nt"), Some("first"));
    assert_eq!(message.header("x-OTHER"), Some("third"));
    assert_eq!(message.header("X-Othe"), None);
    assert_eq!(message.notification_type(), "first");
    assert_eq!(Message::new(Kind::Search).notification_type(), "");
    assert_eq!(Message::new(Kind::Response).with("ST", "s").notification_type(), "s");
    assert_eq!(Message::new(Kind::Response).with("NT", "s").notification_type(), "");
    assert_eq!(Message::new(Kind::Notify).with("nts", "s").notification_subtype(), "s");
    assert_eq!(Message::new(Kind::Notify).notification_subtype(), "");
    assert_eq!(Message::new(Kind::Search).with("NTS", "s").notification_subtype(), "s");
    assert_eq!(Message::new(Kind::Response).with("NTS", "s").notification_subtype(), "");
}

#[test]
fn case_matters_beyond_ascii() {
    let message = Message::new(Kind::Notify).with("\u{c9}", "capital");
    assert_eq!(message.header("\u{c9}"), Some("capital"));
    assert_eq!(message.header("\u{e9}"), None);
}

#[test]
fn each_kind_is_written_line_by_line() {
    assert_eq!(Kind::Notify.start_line(), "NOTIFY * HTTP/1.1");
    assert_eq!(Kind::Search.start_line(), "M-SEARCH * HTTP/1.1");
    assert_eq!(Kind::Response.start_line(), "HTTP/1.1 200 OK");
    assert_eq!(
        message::format(&Message::search("upnp:rootdevice", 0)),
        b"M-SEARCH * HTTP/1.1\r\nHOST: 239.255.255.250:1900\r\nMAN: \"ssdp:discover\"\r\n\
          MX: 0\r\nST: upnp:rootdevice\r\n\r\n"
            .to_vec()
    );
    assert_eq!(
        message::format(&Message::search("a", 255)),
        b"M-SEARCH * HTTP/1.1\r\nHOST: 239.255.255.250:1900\r\nMAN: \"ssdp:discover\"\r\n\
          MX: 255\r\nST: a\r\n\r\n"
            .to_vec()
    );
    assert_eq!(
        message::format(&Message::byebye("n", "u")),
        b"NOTIFY * HTTP/1.1\r\nHOST: 239.255.255.250:1900\r\nNT: n\r\nNTS: ssdp:byebye\r\n\
          USN: u\r\n\r\n"
            .to_vec()
    );
    assert_eq!(
        message::format(&Message::response("s", "u", "l", "v")),
        b"HTTP/1.1 200 OK\r\nCACHE-CONTROL: max-age=1800\r\nEXT: \r\nLOCATION: l\r\n\
          SERVER: v\r\nST: s\r\nUSN: u\r\n\r\n"
            .to_vec()
    );
}

#[test]
fn each_refusal_says_what_is_at_fault() {
    assert_eq!(parse(&[b'N', 0xff]), Err(Refusal::NotUtf8));
    assert_eq!(
        parse(b"  GET / HTTP/1.1 \r\n\r\n"),
        Err(Refusal::NotStartLine("GET / HTTP/1.1".to_string()))
    );
    assert_eq!(parse(b""), Err(Refusal::NotStartLine(String::new())));
    assert_eq!(
        parse(b"NOTIFY * HTTP/1.1\r\na: b\r\nno colon \r\n\r\n"),
        Err(Refusal::NoColon("no colon ".to_string()))
    );
    assert_eq!(
        parse(b"NOTIFY * HTTP/1.1 x\r\n\r\n"),
        Err(Refusal::NotStartLine("NOTIFY * HTTP/1.1 x".to_string()))
    );
    assert_eq!(
        parse(b"notify * HTTP/1.1\r\n\r\n"),
        Err(Refusal::NotStartLine("notify * HTTP/1.1".to_string()))
    );
}

#[test]
fn reading_is_loose_where_writing_is_not() {
    let loose = parse(b"\t NOTIFY   *\tHTTP/1.1  \r\r\nName :  a : b \t\r\r\nE:\n:v\n").expect("loose");
    assert_eq!(loose.kind, Kind::Notify);
    assert_eq!(
        loose.headers,
        vec![
            ("Name".to_string(), "a : b".to_string()),
            ("E".to_string(), String::new()),
            (String::new(), "v".to_string()),
        ]
    );
    let bare = parse(b"HTTP/1.1 200 OK").expect("no headers");
    assert_eq!(bare, Message::new(Kind::Response));
    let endless = parse(b" HTTP/1.1\t200  OK \r\nA: b").expect("no end");
    assert_eq!(endless, Message::new(Kind::Response).with("A", "b"));
    let wide = parse("M-SEARCH\u{3000}*\u{a0}HTTP/1.1\n\u{2003}ST\u{2003}:\u{85}x\u{2028}".as_bytes());
    assert_eq!(wide.expect("wide spaces"), Message::new(Kind::Search).with("ST", "x"));
}

#[test]
fn a_response_is_ok_and_nothing_else() {
    for line in [
        "HTTP/1.1 200 Fine",
        "HTTP/1.1 200",
        "HTTP/1.1 200 OK then",
        "HTTP/1.1 200 ok",
        "HTTP/1.0 200 OK",
        "HTTP/1.1 201 OK",
        "HTTP/1.1 200OK",
    ] {
        assert_eq!(
            parse(format!("{line}\r\nST: a\r\n\r\n").as_bytes()),
            Err(Refusal::NotStartLine(line.to_string()))
        );
    }
}

#[test]
fn what_follows_the_blank_line_is_not_read() {
    for head in ["NOTIFY * HTTP/1.1\n A : b ", "NOTIFY * HTTP/1.1\nno colon", "GET", ""] {
        for blank in ["\n\n", "\n\r\n", "\n\r\r\n"] {
            assert_eq!(
                parse(format!("{head}{blank}no colon\n\nA: c").as_bytes()),
                parse(format!("{head}{blank}").as_bytes())
            );
        }
    }
    let mut bytes = message::format(&Message::byebye("nt", "usn"));
    bytes.extend_from_slice(b"no colon\r\nNTS: other\r\n");
    assert_eq!(parse(&bytes), Ok(Message::byebye("nt", "usn")));
}

#[test]
fn headers_read_back_where_they_are_clean_and_not_elsewhere() {
    let clean = Message::new(Kind::Notify)
        .with("A b", "c: d\re")
        .with("", "")
        .with("\u{e9}", "\u{1f600} x");
    assert_eq!(parse(&message::format(&clean)), Ok(clean));
    for (name, value) in [
        (" a", "b"),
        ("a ", "b"),
        ("a:", "b"),
        ("a\n", "b"),
        ("a", " b"),
        ("a", "b\r"),
        ("a", "b\nc: d"),
        ("a", "b\u{a0}"),
    ] {
        let spoilt = Message::new(Kind::Notify).with(name, value);
        assert_ne!(parse(&message::format(&spoilt)), Ok(spoilt));
    }
}

#[test]
fn a_bare_newline_ends_a_line() {
    for text in [
        "NOTIFY * HTTP/1.1\r\nA: b\r\n\r\nrest",
        "NOTIFY * HTTP/1.1\r\nno colon\r\n\r\n",
        "GET\r\n",
    ] {
        assert_eq!(parse(text.as_bytes()), parse(text.replace("\r\n", "\n").as_bytes()));
    }
}

#[test]
fn a_header_appended_is_a_line_appended() {
    let before = message::format(&Message::byebye("n", "u"));
    let mut expected = before[..before.len() - 2].to_vec();
    expected.extend_from_slice(b"A: b\r\n\r\n");
    assert_eq!(message::format(&Message::byebye("n", "u").with("A", "b")), expected);
}

#[test]
fn writing_what_was_read_settles() {
    let read = parse(b"HTTP/1.1  200 OK \nst :  a \n\nrest").expect("read");
    assert_eq!(parse(&message::format(&read)), Ok(read));
}

#[test]
fn every_kind_opens_as_a_message() {
    assert!(is_message(&message::format(&Message::new(Kind::Notify))));
    assert!(is_message(&message::format(&Message::new(Kind::Search))));
    assert!(is_message(&message::format(&Message::new(Kind::Response))));
    assert!(is_message(b"NOTIFY * HTTP/1.1"));
    assert!(is_message(b"M-SEARCH * HTTP/1.1\xff"));
    assert!(is_message(b"HTTP/1.1 200 OK"));
    assert!(!is_message(b"NOTIFY * HTTP/1."));
    assert!(!is_message(b"NOTIFY "));
    assert!(!is_message(b"NOTIFY\t* HTTP/1.1\r\n\r\n"));
    assert!(!is_message(b" NOTIFY * HTTP/1.1"));
    assert!(!is_message(b"notify * HTTP/1.1"));
    assert!(!is_message(b"HTTP/1.1 404 Not Found\r\n\r\n"));
    assert!(!is_message(b"HTTP/2"));
    assert!(!is_message(b""));
}
