//! Addresses as text: where a send goes, whom an origin names, and the
//! IPv4 socket addresses a node binds.

use crate::number::{bounded, decimal, read_bounded, to_decimal};
use crate::refusal::{Refusal, RefusalView};
use crate::text::{before, chars_of, find, same_chars, split, split_on, split_once, string_of};
use vstd::prelude::*;
use vstd::slice::slice_subrange;
use vstd::string::*;

verus! {

/// An IPv4 address, its four octets in the order written.
#[derive(Clone, Copy, Debug, PartialEq, Eq, Structural)]
pub struct Ipv4 {
    pub a: u8,
    pub b: u8,
    pub c: u8,
    pub d: u8,
}

impl Ipv4 {
    /// Whether the address is in 224/4.
    pub open spec fn multicast(self) -> bool {
        224 <= self.a <= 239
    }

    /// Whether the address is in 224/4.
    #[must_use]
    pub fn is_multicast(self) -> (is: bool)
        ensures
            is == self.multicast(),
    {
        224 <= self.a && self.a <= 239
    }
}

/// One octet: up to three digits, no zero in front of another digit, at
/// most 255.
pub open spec fn octet(text: Seq<char>) -> Option<u8> {
    if text.len() <= 3 && (text.len() > 1 ==> text[0] != '0') {
        match bounded(text, 255) {
            Some(n) => Some(n as u8),
            None => None,
        }
    } else {
        None
    }
}

/// Four octets with a dot between one and the next.
pub open spec fn ipv4(text: Seq<char>) -> Option<Ipv4> {
    let parts = split(text, '.');
    if parts.len() == 4 {
        match (octet(parts[0]), octet(parts[1]), octet(parts[2]), octet(parts[3])) {
            (Some(a), Some(b), Some(c), Some(d)) => Some(Ipv4 { a, b, c, d }),
            _ => None,
        }
    } else {
        None
    }
}

/// An IPv4 address, a colon and a port.
pub open spec fn socket_v4(text: Seq<char>) -> Option<(Ipv4, u16)> {
    match split_once(text, ':') {
        None => None,
        Some((address, port)) => match (ipv4(address), bounded(port, 65535)) {
            (Some(address), Some(port)) => Some((address, port as u16)),
            _ => None,
        },
    }
}

/// Every interface of this machine at `port`.
pub open spec fn every_interface(port: u16) -> Seq<char> {
    "0.0.0.0:"@ + decimal(port as nat)
}

/// The group and the address to bind for it, where `bind` is a multicast
/// address.
pub open spec fn group_of(bind: Seq<char>) -> Option<(Ipv4, Seq<char>)> {
    match socket_v4(bind) {
        Some((address, port)) => if address.multicast() {
            Some((address, every_interface(port)))
        } else {
            None
        },
        None => None,
    }
}

/// Whether `part` stands somewhere in `text`.
pub open spec fn contains(text: Seq<char>, part: Seq<char>) -> bool {
    exists|i: int|
        0 <= i <= text.len() - part.len() && #[trigger] text.subrange(i, i + part.len()) == part
}

/// The authority of `scheme://authority/path`: what stands after the scheme
/// and before the first slash.
///
/// Every transport takes its URIs apart in one way, which is settled outside
/// this crate. This stands in for it, on the assumption that the scheme is
/// matched as it is written, that the authority ends at the first slash or
/// with the URI, and that a query before any slash belongs to it.
/// [`destination_of`] and [`peer_in`] take the authority as an argument and
/// assume none of this.
pub open spec fn authority_of(scheme: Seq<char>, uri: Seq<char>) -> Option<Seq<char>> {
    let lead = scheme + "://"@;
    if lead.is_prefix_of(uri) {
        let rest = uri.skip(lead.len() as int);
        Some(rest.take(before(rest, '/') as int))
    } else {
        None
    }
}

/// Where a send to `target` goes, given the authority it has under `ssdp`:
/// there, or to the target itself where it has no scheme.
pub open spec fn destination_of(
    target: Seq<char>,
    authority: Option<Seq<char>>,
) -> Result<Seq<char>, RefusalView> {
    match authority {
        Some(address) => Ok(address),
        None => if contains(target, "://"@) {
            Err(RefusalView::NotTarget(target))
        } else {
            Ok(target)
        },
    }
}

/// The peer that `origin` names, given the authority it has under `ssdp`:
/// what stands before the query.
pub open spec fn peer_in(origin: Seq<char>, authority: Option<Seq<char>>) -> Result<
    Seq<char>,
    RefusalView,
> {
    match authority {
        Some(authority) => {
            let peer = authority.take(before(authority, '?') as int);
            if peer.len() == 0 {
                Err(RefusalView::NoPeer(origin))
            } else {
                Ok(peer)
            }
        },
        None => Err(RefusalView::NoPeer(origin)),
    }
}

/// A text, or why there is none, as views.
pub open spec fn text_view(read: Result<String, Refusal>) -> Result<Seq<char>, RefusalView> {
    match read {
        Ok(text) => Ok(text@),
        Err(refusal) => Err(refusal@),
    }
}

/// A text, where there is one, as a view.
pub open spec fn maybe_view(text: Option<String>) -> Option<Seq<char>> {
    match text {
        Some(text) => Some(text@),
        None => None,
    }
}

/// Whether `chars` open with those of `lead`.
fn opens(chars: &[char], lead: &[char]) -> (opens: bool)
    ensures
        opens == lead@.is_prefix_of(chars@),
{
    chars.len() >= lead.len() && same_chars(slice_subrange(chars, 0, lead.len()), lead)
}

/// Whether the characters of `part` stand somewhere in `text`.
pub fn holds(text: &str, part: &str) -> (holds: bool)
    ensures
        holds == contains(text@, part@),
{
    let chars = chars_of(text);
    let sought = chars_of(part);
    if chars.len() < sought.len() {
        return false;
    }
    let last: usize = chars.len() - sought.len();
    let mut i: usize = 0;
    while !same_chars(
        slice_subrange(chars.as_slice(), i, i + sought.len()),
        sought.as_slice(),
    )
        invariant
            chars@ == text@,
            sought@ == part@,
            last == chars@.len() - sought@.len(),
            chars@.len() <= usize::MAX,
            i <= last,
            forall|j: int|
                0 <= j < i ==> #[trigger] text@.subrange(j, j + part@.len()) != part@,
        decreases last - i,
    {
        if i == last {
            return false;
        }
        i += 1;
    }
    assert(text@.subrange(i as int, i + part@.len()) == part@);
    true
}

/// The authority of `scheme://authority/path`, where `uri` is under
/// `scheme`. It stands in for the splitting that all transports share, on the
/// assumptions that [`authority_of`] names.
#[must_use]
pub fn authority(scheme: &str, uri: &str) -> (found: Option<String>)
    ensures
        maybe_view(found) == authority_of(scheme@, uri@),
{
    let lead = chars_of(scheme.to_string().concat("://").as_str());
    let chars = chars_of(uri);
    if !opens(chars.as_slice(), lead.as_slice()) {
        return None;
    }
    let rest = slice_subrange(chars.as_slice(), lead.len(), chars.len());
    let end = find(rest, '/');
    Some(string_of(slice_subrange(rest, 0, end)))
}

/// Where a send to `target` goes, given the authority it has under `ssdp`.
///
/// # Errors
/// A target under another scheme.
pub fn destination(target: &str, authority: Option<String>) -> (address: Result<String, Refusal>)
    ensures
        text_view(address) == destination_of(target@, maybe_view(authority)),
{
    match authority {
        Some(address) => Ok(address),
        None => if holds(target, "://") {
            Err(Refusal::NotTarget(target.to_string()))
        } else {
            Ok(target.to_string())
        },
    }
}

/// The peer that `origin` names, given the authority it has under `ssdp`.
///
/// # Errors
/// An origin under another scheme, or without a peer.
pub fn peer_before_query(origin: &str, authority: Option<String>) -> (peer: Result<String, Refusal>)
    ensures
        text_view(peer) == peer_in(origin@, maybe_view(authority)),
{
    match authority {
        Some(authority) => {
            let chars = chars_of(authority.as_str());
            let end = find(chars.as_slice(), '?');
            if end == 0 {
                Err(Refusal::NoPeer(origin.to_string()))
            } else {
                Ok(string_of(slice_subrange(chars.as_slice(), 0, end)))
            }
        },
        None => Err(Refusal::NoPeer(origin.to_string())),
    }
}

/// The peer an origin `ssdp://peer?...` names.
///
/// # Errors
/// An origin under another scheme, or without a peer.
pub fn peer_of(origin: &str) -> (peer: Result<String, Refusal>)
    ensures
        text_view(peer) == peer_in(origin@, authority_of("ssdp"@, origin@)),
{
    peer_before_query(origin, authority("ssdp", origin))
}

/// One octet.
fn read_octet(chars: &[char]) -> (read: Option<u8>)
    ensures
        read == octet(chars@),
{
    if chars.len() > 3 || (chars.len() > 1 && chars[0] == '0') {
        return None;
    }
    match read_bounded(chars, 255) {
        Some(n) => Some(n as u8),
        None => None,
    }
}

/// Four octets with a dot between one and the next.
fn read_ipv4(chars: &[char]) -> (read: Option<Ipv4>)
    ensures
        read == ipv4(chars@),
{
    let parts = split_on(chars, '.');
    let ghost seen = split(chars@, '.');
    assert(seen.len() == parts@.len());
    assert(forall|i: int| 0 <= i < seen.len() ==> #[trigger] seen[i] == parts@[i]@);
    if parts.len() != 4 {
        return None;
    }
    match (
        read_octet(parts[0]),
        read_octet(parts[1]),
        read_octet(parts[2]),
        read_octet(parts[3]),
    ) {
        (Some(a), Some(b), Some(c), Some(d)) => Some(Ipv4 { a, b, c, d }),
        _ => None,
    }
}

/// An IPv4 address, a colon and a port.
#[must_use]
pub fn read_socket_v4(text: &str) -> (read: Option<(Ipv4, u16)>)
    ensures
        read == socket_v4(text@),
{
    let chars = chars_of(text);
    let colon = find(chars.as_slice(), ':');
    if colon == chars.len() {
        return None;
    }
    let address = read_ipv4(slice_subrange(chars.as_slice(), 0, colon));
    let port = read_bounded(slice_subrange(chars.as_slice(), colon + 1, chars.len()), 65535);
    match (address, port) {
        (Some(address), Some(port)) => Some((address, port as u16)),
        _ => None,
    }
}

/// The group and the `0.0.0.0:port` to bind for it, where `bind` is a
/// multicast address.
#[must_use]
pub fn multicast_group(bind: &str) -> (found: Option<(Ipv4, String)>)
    ensures
        (match found {
            Some((group, address)) => Some((group, address@)),
            None => None,
        }) == group_of(bind@),
{
    match read_socket_v4(bind) {
        Some((address, port)) => if address.is_multicast() {
            let every = "0.0.0.0:".to_string().concat(to_decimal(port as u64).as_str());
            Some((address, every))
        } else {
            None
        },
        None => None,
    }
}

/// A text, or why there is none, is seen as it is.
pub proof fn texts_are_seen(read: Result<String, Refusal>, text: Option<String>)
    ensures
        read matches Ok(text) ==> text_view(read) == Ok::<Seq<char>, RefusalView>(text@),
        read matches Err(refusal) ==> text_view(read) == Err::<Seq<char>, RefusalView>(refusal@),
        text matches Some(found) ==> maybe_view(text) == Some(found@),
        text is None ==> maybe_view(text) is None,
{
}

} // verus!
