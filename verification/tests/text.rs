use ssdp::address::{holds, read_socket_v4};
use ssdp::number::to_decimal;
use ssdp::text::{is_white, same, same_but_case};
use ssdp::{multicast_group, Ipv4, Refusal};

#[test]
fn white_space_is_what_the_standard_library_calls_so() {
    for c in '\0'..=char::MAX {
        assert_eq!(is_white(c), c.is_whitespace(), "{:?}", c);
    }
}

#[test]
fn numbers_are_written_in_decimal() {
    for n in [0, 7, 9, 10, 42, 100, 255, 65_535, 1_000_000, u64::MAX] {
        assert_eq!(to_decimal(n), n.to_string());
    }
}

#[test]
fn texts_are_compared_with_and_without_case() {
    for (a, b) in [("", ""), ("Ab-1", "aB-1"), ("ab", "abc"), ("\u{c9}", "\u{e9}"), ("@", "`"), ("[", "{")] {
        assert_eq!(same_but_case(a, b), a.eq_ignore_ascii_case(b));
        assert_eq!(same(a, b), a == b);
    }
    for (text, part) in [("a://b", "://"), ("", ""), ("a:/b", "://"), ("://", "://"), ("a", "ab"), ("aab", "ab")] {
        assert_eq!(holds(text, part), text.contains(part));
    }
}

#[test]
fn socket_addresses_are_read_strictly() {
    assert_eq!(
        read_socket_v4("1.22.133.255:65535"),
        Some((Ipv4 { a: 1, b: 22, c: 133, d: 255 }, 65535))
    );
    assert_eq!(
        read_socket_v4("0.0.0.0:00080"),
        Some((Ipv4 { a: 0, b: 0, c: 0, d: 0 }, 80))
    );
    for bad in [
        "", ":", "1.2.3.4", "1.2.3:4", "1.2.3.4.5:6", "1.2.3.256:4", "01.2.3.4:5", "1.2.3.0004:5",
        "1.2.3.4:", "1.2.3.4:65536", "1.2.3.4:+5", "+1.2.3.4:5", " 1.2.3.4:5", "1.2.3.4:5 ",
        "1.2.3.4:5:6", "1..3.4:5", "[::1]:5", "a.2.3.4:5",
    ] {
        assert_eq!(read_socket_v4(bad), None, "{}", bad);
    }
}

#[test]
fn groups_are_in_224_to_239() {
    assert_eq!(multicast_group("223.255.255.255:1"), None);
    assert_eq!(
        multicast_group("224.0.0.0:1"),
        Some((Ipv4 { a: 224, b: 0, c: 0, d: 0 }, "0.0.0.0:1".to_string()))
    );
    assert_eq!(
        multicast_group("239.255.255.255:0"),
        Some((Ipv4 { a: 239, b: 255, c: 255, d: 255 }, "0.0.0.0:0".to_string()))
    );
    assert_eq!(multicast_group("240.0.0.0:1"), None);
    assert_eq!(multicast_group("0.0.0.0:1"), None);
}

#[test]
fn a_refusal_says_what_is_wrong_and_with_what() {
    let said = |refusal: Refusal| refusal.message();
    assert_eq!(said(Refusal::NotUtf8), "a message not UTF-8");
    assert_eq!(
        said(Refusal::NotStartLine("a\"b".to_string())),
        "not an SSDP start line: \"a\\\"b\""
    );
    assert_eq!(
        said(Refusal::NoColon("x\ty".to_string())),
        "a header without a colon: \"x\\ty\""
    );
    assert_eq!(said(Refusal::NotTarget("a\"b".to_string())), "not an ssdp target: a\"b");
    assert_eq!(said(Refusal::NoPeer("o".to_string())), "an origin naming no peer: o");
    assert_eq!(
        said(Refusal::OtherSearch("s".to_string())),
        "a search for something else: \"s\""
    );
    assert_eq!(
        said(Refusal::OddHex("abc".to_string())),
        "an odd number of hex digits: \"abc\""
    );
    assert_eq!(said(Refusal::NotHex("zz".to_string())), "not hex: \"zz\"");
    assert_eq!(said(Refusal::Endless), "a Stream that never ends");
    assert_eq!(Refusal::NotHex("zz".to_string()).message_showing("it"), "not hex: it");
    assert!(!Refusal::Endless.retryable());
}
