//! What headers are found: the laws of looking one up.

use crate::message::{find_header, HeaderView, Kind, MessageView, ALIVE, BYEBYE};
use crate::number::{decimal, decimal_reads_back, digit, lemma_no_zero_in_front, value};
use crate::text::{lower, same_ignoring_case};
use vstd::prelude::*;

verus! {

/// The case in which a name is asked for does not matter.
pub proof fn lookup_ignores_case(headers: Seq<HeaderView>, a: Seq<char>, b: Seq<char>)
    requires
        same_ignoring_case(a, b),
    ensures
        find_header(headers, a) == find_header(headers, b),
    decreases headers.len(),
{
    if headers.len() > 0 {
        let name = headers[0].0;
        assert(same_ignoring_case(name, a) == same_ignoring_case(name, b)) by {
            if name.len() == a.len() {
                assert(forall|i: int| 0 <= i < a.len() ==> lower(#[trigger] a[i]) == lower(b[i]));
                if same_ignoring_case(name, b) {
                    assert forall|i: int| 0 <= i < name.len() implies lower(#[trigger] name[i])
                        == lower(a[i]) by {
                        assert(lower(name[i]) == lower(b[i]));
                    }
                }
            }
        }
        lookup_ignores_case(headers.skip(1), a, b);
    }
}

/// What a message has is found before what is appended to it.
pub proof fn appended_is_found_last(
    message: MessageView,
    name: Seq<char>,
    value: Seq<char>,
    sought: Seq<char>,
)
    ensures
        message.plus(name, value).header(sought) == match message.header(sought) {
            Some(found) => Some(found),
            None => if same_ignoring_case(name, sought) {
                Some(value)
            } else {
                None
            },
        },
    decreases message.headers.len(),
{
    let all = message.plus(name, value).headers;
    if message.headers.len() == 0 {
        assert(all[0] == (name, value));
        assert(all.skip(1) =~= Seq::<HeaderView>::empty());
        assert(find_header(all.skip(1), sought) is None);
    } else {
        let rest = MessageView { kind: message.kind, headers: message.headers.skip(1) };
        assert(all.skip(1) =~= rest.plus(name, value).headers);
        assert(all[0] == message.headers[0]);
        appended_is_found_last(rest, name, value, sought);
    }
}

/// Names in the library's own messages differ by more than their case.
proof fn lemma_names_differ()
    ensures
        !same_ignoring_case("HOST"@, "NT"@),
        !same_ignoring_case("HOST"@, "NTS"@),
        !same_ignoring_case("HOST"@, "ST"@),
        !same_ignoring_case("HOST"@, "USN"@),
        !same_ignoring_case("HOST"@, "LOCATION"@),
        !same_ignoring_case("HOST"@, "SERVER"@),
        !same_ignoring_case("CACHE-CONTROL"@, "NT"@),
        !same_ignoring_case("CACHE-CONTROL"@, "NTS"@),
        !same_ignoring_case("CACHE-CONTROL"@, "ST"@),
        !same_ignoring_case("CACHE-CONTROL"@, "USN"@),
        !same_ignoring_case("CACHE-CONTROL"@, "LOCATION"@),
        !same_ignoring_case("CACHE-CONTROL"@, "SERVER"@),
        !same_ignoring_case("CACHE-CONTROL"@, "X-STREAM"@),
        !same_ignoring_case("EXT"@, "NTS"@),
        !same_ignoring_case("EXT"@, "ST"@),
        !same_ignoring_case("EXT"@, "USN"@),
        !same_ignoring_case("EXT"@, "LOCATION"@),
        !same_ignoring_case("EXT"@, "SERVER"@),
        !same_ignoring_case("EXT"@, "X-STREAM"@),
        !same_ignoring_case("LOCATION"@, "NT"@),
        !same_ignoring_case("LOCATION"@, "NTS"@),
        !same_ignoring_case("LOCATION"@, "ST"@),
        !same_ignoring_case("LOCATION"@, "USN"@),
        !same_ignoring_case("LOCATION"@, "SERVER"@),
        !same_ignoring_case("LOCATION"@, "X-STREAM"@),
        !same_ignoring_case("NT"@, "NTS"@),
        !same_ignoring_case("NT"@, "USN"@),
        !same_ignoring_case("NT"@, "SERVER"@),
        !same_ignoring_case("NTS"@, "USN"@),
        !same_ignoring_case("NTS"@, "SERVER"@),
        !same_ignoring_case("SERVER"@, "NTS"@),
        !same_ignoring_case("SERVER"@, "ST"@),
        !same_ignoring_case("SERVER"@, "USN"@),
        !same_ignoring_case("SERVER"@, "X-STREAM"@),
        !same_ignoring_case("MAN"@, "ST"@),
        !same_ignoring_case("MX"@, "ST"@),
        !same_ignoring_case("ST"@, "NTS"@),
        !same_ignoring_case("ST"@, "USN"@),
        !same_ignoring_case("ST"@, "X-STREAM"@),
        !same_ignoring_case("USN"@, "NTS"@),
        !same_ignoring_case("USN"@, "X-STREAM"@),
{
    reveal_strlit("HOST");
    reveal_strlit("CACHE-CONTROL");
    reveal_strlit("EXT");
    reveal_strlit("LOCATION");
    reveal_strlit("NT");
    reveal_strlit("NTS");
    reveal_strlit("SERVER");
    reveal_strlit("USN");
    reveal_strlit("MAN");
    reveal_strlit("MX");
    reveal_strlit("ST");
    reveal_strlit("X-STREAM");
    assert(lower("EXT"@[0]) != lower("NTS"@[0]));
    assert(lower("EXT"@[0]) != lower("USN"@[0]));
    assert(lower("LOCATION"@[0]) != lower("X-STREAM"@[0]));
    assert(lower("NTS"@[0]) != lower("USN"@[0]));
    assert(lower("USN"@[0]) != lower("NTS"@[0]));
    assert(lower("MX"@[0]) != lower("ST"@[0]));
}

/// A notification that a device is there says of what type, under what name
/// and where it is.
pub proof fn alive_says(nt: Seq<char>, usn: Seq<char>, location: Seq<char>, server: Seq<char>)
    ensures
        ({
            let message = MessageView::alive(nt, usn, location, server);
            &&& message.notification_type() == nt
            &&& message.header("NTS"@) == Some(ALIVE@)
            &&& message.header("USN"@) == Some(usn)
            &&& message.header("LOCATION"@) == Some(location)
            &&& message.header("SERVER"@) == Some(server)
        }),
{
    lemma_names_differ();
    let h0 = MessageView::alive(nt, usn, location, server).headers;
    let h1 = h0.skip(1);
    let h2 = h1.skip(1);
    let h3 = h2.skip(1);
    let h4 = h3.skip(1);
    let h5 = h4.skip(1);
    let h6 = h5.skip(1);
    assert(h1[0] == ("CACHE-CONTROL"@, "max-age=1800"@));
    assert(h2[0] == ("LOCATION"@, location));
    assert(h3[0] == ("NT"@, nt));
    assert(h4[0] == ("NTS"@, ALIVE@));
    assert(h5[0] == ("SERVER"@, server));
    assert(h6[0] == ("USN"@, usn));
    reveal_with_fuel(find_header, 8);
}

/// A notification that a device has gone says of what type and under what
/// name.
pub proof fn byebye_says(nt: Seq<char>, usn: Seq<char>)
    ensures
        ({
            let message = MessageView::byebye(nt, usn);
            &&& message.notification_type() == nt
            &&& message.header("NTS"@) == Some(BYEBYE@)
            &&& message.header("USN"@) == Some(usn)
        }),
{
    lemma_names_differ();
    let h0 = MessageView::byebye(nt, usn).headers;
    let h1 = h0.skip(1);
    let h2 = h1.skip(1);
    let h3 = h2.skip(1);
    assert(h1[0] == ("NT"@, nt));
    assert(h2[0] == ("NTS"@, BYEBYE@));
    assert(h3[0] == ("USN"@, usn));
    reveal_with_fuel(find_header, 5);
}

/// A search says what it is for.
pub proof fn search_says(st: Seq<char>, mx: u8)
    ensures
        MessageView::search(st, mx).notification_type() == st,
{
    lemma_names_differ();
    let h0 = MessageView::search(st, mx).headers;
    let h1 = h0.skip(1);
    let h2 = h1.skip(1);
    let h3 = h2.skip(1);
    assert(h1[0] == ("MAN"@, "\"ssdp:discover\""@));
    assert(h2[0] == ("MX"@, decimal(mx as nat)));
    assert(h3[0] == ("ST"@, st));
    reveal_with_fuel(find_header, 5);
}

/// An answer says of what type, under what name and where the device is. It
/// is no notification, so it has no `NTS`, and it carries no Stream.
pub proof fn response_says(st: Seq<char>, usn: Seq<char>, location: Seq<char>, server: Seq<char>)
    ensures
        ({
            let message = MessageView::response(st, usn, location, server);
            &&& message.notification_type() == st
            &&& message.header("USN"@) == Some(usn)
            &&& message.header("LOCATION"@) == Some(location)
            &&& message.header("SERVER"@) == Some(server)
            &&& message.header("NTS"@) is None
            &&& message.header("X-STREAM"@) is None
        }),
{
    lemma_names_differ();
    let h0 = MessageView::response(st, usn, location, server).headers;
    let h1 = h0.skip(1);
    let h2 = h1.skip(1);
    let h3 = h2.skip(1);
    let h4 = h3.skip(1);
    let h5 = h4.skip(1);
    let h6 = h5.skip(1);
    assert(h1[0] == ("EXT"@, ""@));
    assert(h2[0] == ("LOCATION"@, location));
    assert(h3[0] == ("SERVER"@, server));
    assert(h4[0] == ("ST"@, st));
    assert(h5[0] == ("USN"@, usn));
    assert(h6.len() == 0);
    reveal_with_fuel(find_header, 8);
}

/// The first header whose name matches is the one found.
pub proof fn first_match_is_found(message: MessageView, name: Seq<char>, i: int)
    requires
        0 <= i < message.headers.len(),
        same_ignoring_case(message.headers[i].0, name),
        forall|j: int| 0 <= j < i ==> !same_ignoring_case((#[trigger] message.headers[j]).0, name),
    ensures
        message.header(name) == Some(message.headers[i].1),
    decreases i,
{
    if i > 0 {
        let rest = MessageView { kind: message.kind, headers: message.headers.skip(1) };
        assert(!same_ignoring_case(message.headers[0].0, name));
        assert forall|j: int| 0 <= j < i - 1 implies !same_ignoring_case(
            (#[trigger] rest.headers[j]).0,
            name,
        ) by {
            assert(rest.headers[j] == message.headers[j + 1]);
        }
        first_match_is_found(rest, name, i - 1);
    }
}

/// Where no name matches, nothing is found.
pub proof fn no_match_finds_nothing(message: MessageView, name: Seq<char>)
    requires
        forall|i: int|
            0 <= i < message.headers.len() ==> !same_ignoring_case(
                (#[trigger] message.headers[i]).0,
                name,
            ),
    ensures
        message.header(name) is None,
    decreases message.headers.len(),
{
    if message.headers.len() > 0 {
        let rest = MessageView { kind: message.kind, headers: message.headers.skip(1) };
        assert(!same_ignoring_case(message.headers[0].0, name));
        assert forall|j: int| 0 <= j < rest.headers.len() implies !same_ignoring_case(
            (#[trigger] rest.headers[j]).0,
            name,
        ) by {
            assert(rest.headers[j] == message.headers[j + 1]);
        }
        no_match_finds_nothing(rest, name);
    }
}

/// What is appended comes after all there was, as it is, and the kind stays.
pub proof fn appended_comes_last(message: MessageView, name: Seq<char>, value: Seq<char>)
    ensures
        message.plus(name, value).kind == message.kind,
        message.plus(name, value).headers.len() == message.headers.len() + 1,
        message.plus(name, value).headers.last() == (name, value),
        forall|i: int|
            0 <= i < message.headers.len() ==> #[trigger] message.plus(name, value).headers[i]
                == message.headers[i],
{
}

/// The type of a message is what it has as `NT` where it is a notification,
/// what it has as `ST` where it is not, and nothing where it has none.
pub proof fn type_is_nt_or_st(message: MessageView)
    ensures
        ({
            let found = message.header(
                if message.kind == Kind::Notify {
                    "NT"@
                } else {
                    "ST"@
                },
            );
            &&& found matches Some(value) ==> message.notification_type() == value
            &&& found is None ==> message.notification_type() == Seq::<char>::empty()
        }),
{
}

/// A search says how many seconds to spread its answers over: digits that
/// spell them.
pub proof fn search_says_its_seconds(st: Seq<char>, mx: u8)
    ensures
        MessageView::search(st, mx).header("MX"@) matches Some(seconds) && seconds.len() > 0 && (
        forall|i: int| 0 <= i < seconds.len() ==> '0' <= #[trigger] seconds[i] <= '9') && value(
            seconds,
        ) == mx && (mx > 0 ==> seconds[0] != '0'),
{
    let message = MessageView::search(st, mx);
    reveal_strlit("HOST");
    reveal_strlit("MAN");
    reveal_strlit("MX");
    assert(message.headers[0].0 == "HOST"@);
    assert(message.headers[1].0 == "MAN"@);
    assert(message.headers[2] == ("MX"@, decimal(mx as nat)));
    assert(same_ignoring_case("MX"@, "MX"@));
    first_match_is_found(message, "MX"@, 2);
    decimal_reads_back(mx as nat);
    lemma_no_zero_in_front(mx as nat);
    let seconds = decimal(mx as nat);
    assert forall|i: int| 0 <= i < seconds.len() implies '0' <= #[trigger] seconds[i] <= '9' by {
        assert(digit(seconds[i]));
    }
}

} // verus!
