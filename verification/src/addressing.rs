//! What addresses name: the laws of targets, origins and socket addresses.

use crate::address::{
    authority_of, contains, destination_of, every_interface, group_of, ipv4, octet, peer_in,
    socket_v4, Ipv4,
};
use crate::message::MessageView;
use crate::node::origin;
use crate::number::{
    decimal, decimal_is_the_digits, decimal_reads_back, digit, lemma_decimal_len,
    lemma_no_zero_in_front, number_reads_back, only_digits_are_read, ten_to, value,
};
use crate::refusal::RefusalView;
use crate::text::{
    before, lemma_before, lemma_before_is, split, split_at_the_first_mark, split_once,
};
use vstd::prelude::*;

verus! {

/// The authority of a URI under `ssdp` is what follows the scheme, to the
/// first slash.
proof fn lemma_authority(rest: Seq<char>)
    ensures
        authority_of("ssdp"@, "ssdp://"@ + rest) == Some(rest.take(before(rest, '/') as int)),
{
    reveal_strlit("ssdp");
    reveal_strlit("://");
    reveal_strlit("ssdp://");
    let lead = "ssdp"@ + "://"@;
    assert(lead =~= "ssdp://"@);
    let uri = "ssdp://"@ + rest;
    assert(uri.subrange(0, lead.len() as int) =~= lead);
    assert(uri.skip(lead.len() as int) =~= rest);
}

/// The origin of a message names the peer it came from exactly where the
/// peer is not empty and holds neither a slash nor a question mark.
pub proof fn origin_names_its_peer(peer: Seq<char>, message: MessageView)
    ensures
        peer_in(origin(peer, message), authority_of("ssdp"@, origin(peer, message))) == Ok::<
            Seq<char>,
            RefusalView,
        >(peer) <==> (peer.len() > 0 && !peer.contains('/') && !peer.contains('?')),
{
    reveal_strlit("?nt=");
    let uri = origin(peer, message);
    let query = "?nt="@ + message.notification_type() + "&usn="@ + message.header_or_empty("USN"@)
        + "&nts="@ + message.notification_subtype();
    let rest = peer + query;
    assert(uri =~= "ssdp://"@ + rest);
    lemma_authority(rest);
    let slash = before(rest, '/') as int;
    lemma_before(rest, '/');
    let authority = rest.take(slash);
    let mark = before(authority, '?') as int;
    lemma_before(authority, '?');
    let found = authority.take(mark);
    assert forall|i: int| 0 <= i < found.len() implies found[i] != '/' && found[i] != '?' by {
        assert(found[i] == rest[i]);
    }
    if peer.len() > 0 && !peer.contains('/') && !peer.contains('?') {
        assert forall|i: int| 0 <= i < peer.len() implies rest[i] != '/' && rest[i] != '?' by {
            assert(peer.contains(peer[i]));
        }
        assert(rest[peer.len() as int] == '?');
        assert(slash > peer.len());
        lemma_before_is(authority, '?', peer.len() as int);
        assert(found =~= peer);
    }
    if found == peer {
        assert(!peer.contains('/') && !peer.contains('?'));
    }
}

/// A send to `ssdp://address` goes to the address, exactly where the address
/// holds no slash.
pub proof fn scheme_is_taken_off(address: Seq<char>)
    ensures
        destination_of("ssdp://"@ + address, authority_of("ssdp"@, "ssdp://"@ + address)) == Ok::<
            Seq<char>,
            RefusalView,
        >(address) <==> !address.contains('/'),
{
    lemma_authority(address);
    lemma_before(address, '/');
    let slash = before(address, '/') as int;
    if !address.contains('/') {
        if slash < address.len() {
            assert(address.contains(address[slash]));
        }
        assert(address.take(slash) =~= address);
    }
    if address.take(slash) == address {
        assert forall|i: int| 0 <= i < address.len() implies address[i] != '/' by {
            assert(i < slash);
        }
    }
}

/// A send to a target without a scheme goes to the target itself; a target
/// under another scheme is refused.
pub proof fn other_targets(target: Seq<char>)
    requires
        !("ssdp://"@.is_prefix_of(target)),
    ensures
        destination_of(target, authority_of("ssdp"@, target)) == if contains(target, "://"@) {
            Err::<Seq<char>, RefusalView>(RefusalView::NotTarget(target))
        } else {
            Ok(target)
        },
{
    reveal_strlit("ssdp");
    reveal_strlit("://");
    reveal_strlit("ssdp://");
    assert("ssdp"@ + "://"@ =~= "ssdp://"@);
}

/// An IPv4 address in writing.
pub open spec fn ipv4_text(address: Ipv4) -> Seq<char> {
    decimal(address.a as nat) + seq!['.'] + (decimal(address.b as nat) + seq!['.'] + (decimal(
        address.c as nat,
    ) + seq!['.'] + decimal(address.d as nat)))
}

/// An IPv4 socket address in writing.
pub open spec fn socket_text(address: Ipv4, port: u16) -> Seq<char> {
    ipv4_text(address) + seq![':'] + decimal(port as nat)
}

/// An octet in writing reads back, and holds neither a dot nor a colon.
proof fn lemma_octet_reads_back(n: u8)
    ensures
        octet(decimal(n as nat)) == Some(n),
        !decimal(n as nat).contains('.'),
        !decimal(n as nat).contains(':'),
{
    let text = decimal(n as nat);
    reveal_with_fuel(ten_to, 4);
    lemma_decimal_len(n as nat, 3);
    lemma_no_zero_in_front(n as nat);
    number_reads_back(n as nat, 255);
    decimal_reads_back(n as nat);
    assert(forall|i: int| 0 <= i < text.len() ==> digit(#[trigger] text[i]));
}

/// Where a piece without a mark and the mark come first, the piece is split
/// off.
proof fn lemma_split_first(piece: Seq<char>, mark: char, rest: Seq<char>)
    requires
        !piece.contains(mark),
    ensures
        split(piece + seq![mark] + rest, mark) == seq![piece] + split(rest, mark),
        before(piece + seq![mark] + rest, mark) == piece.len(),
{
    let text = piece + seq![mark] + rest;
    let at = piece.len() as int;
    assert forall|i: int| 0 <= i < at implies text[i] != mark by {
        assert(piece.contains(piece[i]));
    }
    lemma_before_is(text, mark, at);
    assert(text.take(at) =~= piece);
    assert(text.skip(at + 1) =~= rest);
}

/// An address in writing reads back, and holds no colon.
proof fn lemma_ipv4_reads_back(address: Ipv4)
    ensures
        ipv4(ipv4_text(address)) == Some(address),
        !ipv4_text(address).contains(':'),
{
    let a = decimal(address.a as nat);
    let b = decimal(address.b as nat);
    let c = decimal(address.c as nat);
    let d = decimal(address.d as nat);
    lemma_octet_reads_back(address.a);
    lemma_octet_reads_back(address.b);
    lemma_octet_reads_back(address.c);
    lemma_octet_reads_back(address.d);
    let cd = c + seq!['.'] + d;
    let bcd = b + seq!['.'] + cd;
    lemma_before(d, '.');
    assert(split(d, '.') =~= seq![d]);
    lemma_split_first(c, '.', d);
    lemma_split_first(b, '.', cd);
    lemma_split_first(a, '.', bcd);
    let text = ipv4_text(address);
    assert(split(text, '.') =~= seq![a, b, c, d]);
    if text.contains(':') {
        let i = choose|i: int| 0 <= i < text.len() && text[i] == ':';
        let na = a.len() as int;
        let nb = na + 1 + b.len();
        let nc = nb + 1 + c.len();
        if i < na {
            assert(a.contains(a[i]));
        } else if na < i < nb {
            assert(b.contains(b[i - na - 1]));
        } else if nb < i < nc {
            assert(c.contains(c[i - nb - 1]));
        } else if nc < i {
            assert(d.contains(d[i - nc - 1]));
        }
    }
}

/// Every IPv4 socket address in writing is read as what it is, and is a
/// group to join exactly where the address is in 224/4.
pub proof fn socket_address_reads_back(address: Ipv4, port: u16)
    ensures
        socket_v4(socket_text(address, port)) == Some((address, port)),
        group_of(socket_text(address, port)) == if address.multicast() {
            Some((address, every_interface(port)))
        } else {
            None
        },
{
    let text = socket_text(address, port);
    let written = ipv4_text(address);
    lemma_ipv4_reads_back(address);
    lemma_split_first(written, ':', decimal(port as nat));
    assert(text.take(written.len() as int) =~= written);
    assert(text.skip(written.len() as int + 1) =~= decimal(port as nat));
    number_reads_back(port as nat, 65535);
}

/// The address that is bound for a group is every interface at the group's
/// port, and is no group itself.
pub proof fn bound_address_is_no_group(port: u16)
    ensures
        socket_v4(every_interface(port)) == Some((Ipv4 { a: 0, b: 0, c: 0, d: 0 }, port)),
        group_of(every_interface(port)) is None,
{
    reveal_strlit("0.0.0.0:");
    let every = Ipv4 { a: 0, b: 0, c: 0, d: 0 };
    assert(decimal(0) =~= seq!['0']);
    assert(every_interface(port) =~= socket_text(every, port));
    socket_address_reads_back(every, port);
}

/// What stands between two texts stands in the whole.
pub proof fn what_is_put_in_is_found(left: Seq<char>, part: Seq<char>, right: Seq<char>)
    ensures
        contains(left + part + right, part),
{
    let text = left + part + right;
    let i = left.len() as int;
    assert(text.subrange(i, i + part.len()) =~= part);
}

/// What is found in a text stands there, between the two texts given back.
pub proof fn what_is_found_is_there(text: Seq<char>, part: Seq<char>) -> (around: (
    Seq<char>,
    Seq<char>,
))
    requires
        contains(text, part),
    ensures
        text == around.0 + part + around.1,
{
    let i = choose|i: int|
        0 <= i <= text.len() - part.len() && #[trigger] text.subrange(i, i + part.len()) == part;
    let around = (text.take(i), text.skip(i + part.len()));
    assert(text =~= around.0 + text.subrange(i, i + part.len()) + around.1);
    around
}

/// A send to `ssdp://address` goes to the address, with a path after it or
/// without.
pub proof fn path_is_cut_off(address: Seq<char>, path: Seq<char>)
    requires
        !address.contains('/'),
        path.len() > 0 ==> path[0] == '/',
    ensures
        ({
            let target = "ssdp://"@ + address + path;
            destination_of(target, authority_of("ssdp"@, target)) == Ok::<Seq<char>, RefusalView>(
                address,
            )
        }),
{
    let rest = address + path;
    let target = "ssdp://"@ + address + path;
    assert(target =~= "ssdp://"@ + rest);
    lemma_authority(rest);
    assert forall|i: int| 0 <= i < address.len() implies rest[i] != '/' by {
        assert(address.contains(address[i]));
    }
    lemma_before_is(rest, '/', address.len() as int);
    assert(rest.take(address.len() as int) =~= address);
}

/// A target under another scheme is refused, and a target without a scheme
/// goes as it is: a scheme is there where `://` is.
pub proof fn scheme_is_told_by_its_mark(target: Seq<char>)
    requires
        target.len() < 7 || target.take(7) != "ssdp://"@,
    ensures
        ({
            let marked = exists|i: int|
                0 <= i < target.len() - 2 && #[trigger] target[i] == ':' && target[i + 1] == '/'
                    && target[i + 2] == '/';
            destination_of(target, authority_of("ssdp"@, target)) == if marked {
                Err::<Seq<char>, RefusalView>(RefusalView::NotTarget(target))
            } else {
                Ok(target)
            }
        }),
{
    reveal_strlit("ssdp://");
    reveal_strlit("://");
    assert(!("ssdp://"@.is_prefix_of(target))) by {
        if "ssdp://"@.is_prefix_of(target) {
            assert(target.take(7) =~= "ssdp://"@);
        }
    }
    other_targets(target);
    if contains(target, "://"@) {
        let i = choose|i: int|
            0 <= i <= target.len() - 3 && #[trigger] target.subrange(i, i + 3) == "://"@;
        let found = target.subrange(i, i + 3);
        assert(found[0] == ':' && found[1] == '/' && found[2] == '/');
        assert(target[i] == ':' && target[i + 1] == '/' && target[i + 2] == '/');
    }
    if exists|i: int|
        0 <= i < target.len() - 2 && #[trigger] target[i] == ':' && target[i + 1] == '/' && target[i
            + 2] == '/' {
        let i = choose|i: int|
            0 <= i < target.len() - 2 && #[trigger] target[i] == ':' && target[i + 1] == '/'
                && target[i + 2] == '/';
        assert(target.subrange(i, i + 3) =~= "://"@);
    }
}

/// The peer of an origin is what follows the scheme, to the first slash or
/// question mark; an origin without one is refused.
pub proof fn peer_is_before_path_and_query(peer: Seq<char>, after: Seq<char>)
    requires
        !peer.contains('/'),
        !peer.contains('?'),
        after.len() > 0 ==> after[0] == '/' || after[0] == '?',
    ensures
        ({
            let uri = "ssdp://"@ + peer + after;
            peer_in(uri, authority_of("ssdp"@, uri)) == if peer.len() > 0 {
                Ok::<Seq<char>, RefusalView>(peer)
            } else {
                Err(RefusalView::NoPeer(uri))
            }
        }),
{
    let rest = peer + after;
    let uri = "ssdp://"@ + peer + after;
    assert(uri =~= "ssdp://"@ + rest);
    lemma_authority(rest);
    let slash = before(rest, '/') as int;
    lemma_before(rest, '/');
    assert forall|i: int| 0 <= i < peer.len() implies rest[i] != '/' && rest[i] != '?' by {
        assert(peer.contains(peer[i]));
    }
    assert(slash >= peer.len());
    let authority = rest.take(slash);
    if slash > peer.len() {
        assert(rest[peer.len() as int] == after[0]);
    }
    lemma_before_is(authority, '?', peer.len() as int);
    assert(authority.take(peer.len() as int) =~= peer);
}

/// An origin under another scheme names no peer.
pub proof fn other_origins_name_no_peer(uri: Seq<char>)
    requires
        uri.len() < 7 || uri.take(7) != "ssdp://"@,
    ensures
        peer_in(uri, authority_of("ssdp"@, uri)) == Err::<Seq<char>, RefusalView>(
            RefusalView::NoPeer(uri),
        ),
{
    reveal_strlit("ssdp");
    reveal_strlit("://");
    reveal_strlit("ssdp://");
    assert("ssdp"@ + "://"@ =~= "ssdp://"@);
    if "ssdp://"@.is_prefix_of(uri) {
        assert(uri.take(7) =~= "ssdp://"@);
    }
}

/// An octet is read exactly from its decimal digits.
proof fn lemma_octet_is_decimal(text: Seq<char>, n: u8)
    requires
        octet(text) == Some(n),
    ensures
        text == decimal(n as nat),
{
    only_digits_are_read(text, 255, value(text));
    decimal_is_the_digits(text);
}

/// The first piece of a split, and what is left to split.
proof fn lemma_split_head(text: Seq<char>, mark: char) -> (rest: Seq<char>)
    ensures
        split(text, mark).len() > 0,
        split(text, mark).len() == 1 ==> text == split(text, mark)[0],
        split(text, mark).len() > 1 ==> text == split(text, mark)[0] + seq![mark] + rest && split(
            rest,
            mark,
        ) == split(text, mark).skip(1),
{
    let at = before(text, mark) as int;
    lemma_before(text, mark);
    let rest = text.skip(at + 1);
    if at < text.len() {
        lemma_split_head_len(rest, mark);
        assert(text =~= text.take(at) + seq![mark] + rest);
        assert(split(text, mark).skip(1) =~= split(rest, mark));
    }
    rest
}

/// A split has a piece.
proof fn lemma_split_head_len(text: Seq<char>, mark: char)
    ensures
        split(text, mark).len() > 0,
{
}

/// What is read as an IPv4 socket address is four numbers up to 255 without a
/// zero in front, a dot between one and the next, a colon, and the digits
/// given back, which spell the port.
pub proof fn only_socket_addresses_are_read(text: Seq<char>, address: Ipv4, port: u16) -> (spelt:
    Seq<char>)
    requires
        socket_v4(text) == Some((address, port)),
    ensures
        text == decimal(address.a as nat) + seq!['.'] + decimal(address.b as nat) + seq!['.']
            + decimal(address.c as nat) + seq!['.'] + decimal(address.d as nat) + seq![':'] + spelt,
        spelt.len() > 0,
        forall|i: int| 0 <= i < spelt.len() ==> '0' <= #[trigger] spelt[i] <= '9',
        value(spelt) == port,
{
    let (written, spelt) = split_once(text, ':')->0;
    let at = before(text, ':') as int;
    lemma_before(text, ':');
    assert(text =~= written + seq![':'] + spelt);
    only_digits_are_read(spelt, 65535, value(spelt));
    let parts = split(written, '.');
    let r1 = lemma_split_head(written, '.');
    let r2 = lemma_split_head(r1, '.');
    let r3 = lemma_split_head(r2, '.');
    let r4 = lemma_split_head(r3, '.');
    assert(split(r1, '.')[0] == parts[1]);
    assert(split(r2, '.')[0] == parts[2]);
    assert(split(r3, '.')[0] == parts[3]);
    lemma_octet_is_decimal(parts[0], address.a);
    lemma_octet_is_decimal(parts[1], address.b);
    lemma_octet_is_decimal(parts[2], address.c);
    lemma_octet_is_decimal(parts[3], address.d);
    assert(written =~= parts[0] + seq!['.'] + parts[1] + seq!['.'] + parts[2] + seq!['.']
        + parts[3]);
    assert(text =~= decimal(address.a as nat) + seq!['.'] + decimal(address.b as nat) + seq!['.']
        + decimal(address.c as nat) + seq!['.'] + decimal(address.d as nat) + seq![':'] + spelt);
    spelt
}

/// Every IPv4 socket address in writing is read as what it is, with the port
/// spelt by any digits.
pub proof fn every_socket_address_is_read(address: Ipv4, spelt: Seq<char>)
    requires
        spelt.len() > 0,
        forall|i: int| 0 <= i < spelt.len() ==> '0' <= #[trigger] spelt[i] <= '9',
        value(spelt) <= 65535,
    ensures
        socket_v4(
            decimal(address.a as nat) + seq!['.'] + decimal(address.b as nat) + seq!['.']
                + decimal(address.c as nat) + seq!['.'] + decimal(address.d as nat) + seq![':']
                + spelt,
        ) == Some((address, value(spelt) as u16)),
{
    let text = decimal(address.a as nat) + seq!['.'] + decimal(address.b as nat) + seq!['.']
        + decimal(address.c as nat) + seq!['.'] + decimal(address.d as nat) + seq![':'] + spelt;
    let written = ipv4_text(address);
    assert(text =~= written + seq![':'] + spelt);
    lemma_ipv4_reads_back(address);
    split_at_the_first_mark(written, ':', spelt);
    only_digits_are_read(spelt, 65535, value(spelt));
}

/// A node joins a group exactly where it is to listen at an address whose
/// first number is 224 to 239, and binds that port on every interface.
pub proof fn groups_are_joined(bind: Seq<char>)
    ensures
        socket_v4(bind) is None ==> group_of(bind) is None,
        socket_v4(bind) matches Some((address, port)) ==> group_of(bind) == if 224 <= address.a
            <= 239 {
            Some((address, "0.0.0.0:"@ + decimal(port as nat)))
        } else {
            None
        },
{
}

/// A URI has an authority exactly where it is under the scheme: what follows
/// `://`, to the first slash.
pub proof fn authority_is_before_the_path(
    scheme: Seq<char>,
    authority: Seq<char>,
    path: Seq<char>,
    other: Seq<char>,
)
    requires
        !authority.contains('/'),
        path.len() > 0 ==> path[0] == '/',
    ensures
        authority_of(scheme, scheme + "://"@ + authority + path) == Some(authority),
        authority_of(scheme, other) is Some <==> (scheme + "://"@).is_prefix_of(other),
{
    let lead = scheme + "://"@;
    let rest = authority + path;
    let uri = scheme + "://"@ + authority + path;
    assert(uri.subrange(0, lead.len() as int) =~= lead);
    assert(uri.skip(lead.len() as int) =~= rest);
    assert forall|i: int| 0 <= i < authority.len() implies rest[i] != '/' by {
        assert(authority.contains(authority[i]));
    }
    lemma_before_is(rest, '/', authority.len() as int);
    assert(rest.take(authority.len() as int) =~= authority);
}

/// A send goes to the authority that a target is said to have, whatever the
/// target.
pub proof fn authority_is_the_destination(target: Seq<char>, authority: Seq<char>)
    ensures
        destination_of(target, Some(authority)) == Ok::<Seq<char>, RefusalView>(authority),
        contains(target, "://"@) ==> destination_of(target, None) == Err::<Seq<char>, RefusalView>(
            RefusalView::NotTarget(target),
        ),
        !contains(target, "://"@) ==> destination_of(target, None) == Ok::<Seq<char>, RefusalView>(
            target,
        ),
{
}

/// The peer is what an origin's authority has before its query, whatever the
/// origin; where that is nothing, or there is no authority, it names none.
pub proof fn peer_is_before_the_query(origin: Seq<char>, peer: Seq<char>, query: Seq<char>)
    requires
        !peer.contains('?'),
        query.len() > 0 ==> query[0] == '?',
    ensures
        peer_in(origin, Some(peer + query)) == if peer.len() > 0 {
            Ok::<Seq<char>, RefusalView>(peer)
        } else {
            Err(RefusalView::NoPeer(origin))
        },
        peer_in(origin, None) == Err::<Seq<char>, RefusalView>(RefusalView::NoPeer(origin)),
{
    let authority = peer + query;
    assert forall|i: int| 0 <= i < peer.len() implies authority[i] != '?' by {
        assert(peer.contains(peer[i]));
    }
    lemma_before_is(authority, '?', peer.len() as int);
    assert(authority.take(peer.len() as int) =~= peer);
}

} // verus!
