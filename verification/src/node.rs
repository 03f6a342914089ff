//! A node on the SSDP network: what it announces, how it answers a search,
//! what it takes from a datagram and what it sends.

use crate::address::{
    authority, authority_of, destination, destination_of, group_of, multicast_group, Ipv4,
};
use crate::message;
use crate::message::{
    opens_with, read_datagram, starts_with, Kind, Message, MessageView, ALL,
};
use crate::refusal::{Refusal, RefusalView};
use crate::text::{chars_of, same, string_of, trim, trimmed};
use std::time::Duration;
use vstd::prelude::*;
use vstd::slice::slice_to_vec;
use vstd::string::*;
use vstd::utf8::{decode_utf8, valid_utf8};

verus! {

/// The largest datagram taken; an SSDP message is a few hundred bytes.
pub const MAX_DATAGRAM: usize = 8192;

/// What a node calls itself in the `SERVER` header.
pub const SERVER: &'static str = "xmip/0.1 UPnP/1.1";

/// What this node says it is, when asked or when announcing.
#[derive(Debug, PartialEq, Eq)]
pub struct Announcement {
    pub st: String,
    pub usn: String,
    pub location: String,
}

/// An announcement, its text as sequences of characters.
pub struct AnnouncementView {
    pub st: Seq<char>,
    pub usn: Seq<char>,
    pub location: Seq<char>,
}

impl View for Announcement {
    type V = AnnouncementView;

    open spec fn view(&self) -> AnnouncementView {
        AnnouncementView { st: self.st@, usn: self.usn@, location: self.location@ }
    }
}

impl Clone for Announcement {
    fn clone(&self) -> (copy: Self)
        ensures
            copy@ == self@,
    {
        Announcement {
            st: self.st.clone(),
            usn: self.usn.clone(),
            location: self.location.clone(),
        }
    }
}

/// One Stream: where it came from and what it is.
#[derive(Clone, Debug, PartialEq, Eq)]
pub struct Arrived {
    pub origin_uri: String,
    pub bytes: Vec<u8>,
}

/// A Stream, its origin as a sequence of characters.
pub struct ArrivedView {
    pub origin_uri: Seq<char>,
    pub bytes: Seq<u8>,
}

impl View for Arrived {
    type V = ArrivedView;

    open spec fn view(&self) -> ArrivedView {
        ArrivedView { origin_uri: self.origin_uri@, bytes: self.bytes@ }
    }
}

/// What a datagram comes to.
#[derive(Clone, Debug, PartialEq, Eq)]
pub enum Received {
    /// A notification or a search response: one Stream.
    Stream(Arrived),
    /// A search for what is announced: the datagram to answer its peer with,
    /// before waiting on.
    Answer(Vec<u8>),
    /// A search for something else: nothing to do but wait on.
    Skipped,
}

/// What a datagram comes to, as sequences.
pub enum ReceivedView {
    Stream(ArrivedView),
    Answer(Seq<u8>),
    Skipped,
}

impl View for Received {
    type V = ReceivedView;

    open spec fn view(&self) -> ReceivedView {
        match self {
            Received::Stream(arrived) => ReceivedView::Stream(arrived@),
            Received::Answer(datagram) => ReceivedView::Answer(datagram@),
            Received::Skipped => ReceivedView::Skipped,
        }
    }
}

/// The socket a node listens on: the address to bind, the group to join
/// there, and how long to wait.
#[derive(Clone, Debug, PartialEq, Eq)]
pub struct Binding {
    pub address: String,
    pub group: Option<Ipv4>,
    pub timeout: Option<Duration>,
}

/// One datagram on its way: where it goes and what it is.
#[derive(Clone, Debug, PartialEq, Eq)]
pub struct Outgoing {
    pub address: String,
    pub datagram: Vec<u8>,
}

/// Which ways a transport carries Streams.
#[derive(Clone, Copy, Debug, PartialEq, Eq, Structural)]
pub struct Directions {
    pub receives: bool,
    pub sends: bool,
}

/// A node: where it listens, what it announces, and how long it waits.
#[derive(Debug)]
pub struct SsdpTransport {
    bind: String,
    announcing: Option<Announcement>,
    server: String,
    timeout: Option<Duration>,
}

/// A node, its text as sequences of characters. What a node calls itself is
/// [`SERVER`] for every one of them, and is no part of what tells two apart.
pub struct TransportView {
    pub bind: Seq<char>,
    pub announcing: Option<AnnouncementView>,
    pub timeout: Option<Duration>,
}

impl View for SsdpTransport {
    type V = TransportView;

    closed spec fn view(&self) -> TransportView {
        TransportView {
            bind: self.bind@,
            announcing: match self.announcing {
                Some(announcement) => Some(announcement@),
                None => None,
            },
            timeout: self.timeout,
        }
    }
}

impl Clone for SsdpTransport {
    fn clone(&self) -> (copy: Self)
        ensures
            copy@ == self@,
    {
        proof {
            use_type_invariant(self);
        }
        SsdpTransport {
            bind: self.bind.clone(),
            announcing: match &self.announcing {
                Some(announcement) => Some(announcement.clone()),
                None => None,
            },
            server: self.server.clone(),
            timeout: self.timeout,
        }
    }
}

/// The origin of a message from `peer`, with what its headers said: `nt` is
/// `ST` for a search response, and `nts` is empty for one.
pub open spec fn origin(peer: Seq<char>, message: MessageView) -> Seq<char> {
    "ssdp://"@ + peer + "?nt="@ + message.notification_type() + "&usn="@ + message.header_or_empty(
        "USN"@,
    ) + "&nts="@ + message.notification_subtype()
}

/// `bytes` as text, with what is not UTF-8 replaced.
pub uninterp spec fn lossy(bytes: Seq<u8>) -> Seq<char>;

/// `String::from_utf8_lossy`: the text that `bytes` encode where they are
/// UTF-8. Where they are not, what is not UTF-8 is replaced; how it is
/// replaced is not stated.
#[verifier::external_body]
fn lossy_text(bytes: &[u8]) -> (decoded: String)
    ensures
        decoded@ == lossy(bytes@),
        valid_utf8(bytes@) ==> decoded@ == decode_utf8(bytes@),
{
    String::from_utf8_lossy(bytes).into_owned()
}

/// `bytes` as text: what they encode where they are UTF-8.
pub open spec fn as_text(bytes: Seq<u8>) -> Seq<char> {
    if valid_utf8(bytes) {
        decode_utf8(bytes)
    } else {
        lossy(bytes)
    }
}

/// Whether `bytes` go as they are: they open with `NOTIFY`, `M-SEARCH` or
/// `HTTP/`.
pub open spec fn goes_as_it_is(bytes: Seq<u8>) -> bool {
    opens_with(bytes, "NOTIFY"@) || opens_with(bytes, "M-SEARCH"@) || opens_with(bytes, "HTTP/"@)
}

impl TransportView {
    /// The response `search` earns, where it asks for what is announced.
    pub open spec fn answer(self, search: MessageView) -> Option<MessageView> {
        match self.announcing {
            None => None,
            Some(a) => {
                let st = search.notification_type();
                if st == ALL@ || st == a.st {
                    Some(MessageView::response(a.st, a.usn, a.location, SERVER@))
                } else {
                    None
                }
            },
        }
    }

    /// The type and the name that an `ssdp:alive` goes out under.
    pub open spec fn announced(self) -> (Seq<char>, Seq<char>) {
        match self.announcing {
            Some(a) => (a.st, a.usn),
            None => ("upnp:rootdevice"@, "uuid:xmip::upnp:rootdevice"@),
        }
    }

    /// The `ssdp:alive` at `location`, without the white space around it.
    pub open spec fn alive_at(self, location: Seq<char>) -> MessageView {
        MessageView::alive(self.announced().0, self.announced().1, trim(location), SERVER@)
    }

    /// `bytes` as a message: as they are when they already open with
    /// `NOTIFY`, `M-SEARCH` or `HTTP/`, else an `ssdp:alive` at that location.
    pub open spec fn compose(self, bytes: Seq<u8>) -> Seq<u8> {
        if goes_as_it_is(bytes) {
            bytes
        } else {
            self.alive_at(as_text(bytes)).datagram()
        }
    }

    /// What a datagram from `peer` comes to.
    pub open spec fn receive(self, peer: Seq<char>, datagram: Seq<u8>) -> Result<
        ReceivedView,
        RefusalView,
    > {
        match read_datagram(datagram) {
            Err(refusal) => Err(refusal),
            Ok(message) => if message.kind != Kind::Search {
                Ok(
                    ReceivedView::Stream(
                        ArrivedView { origin_uri: origin(peer, message), bytes: datagram },
                    ),
                )
            } else {
                match self.answer(message) {
                    Some(answer) => Ok(ReceivedView::Answer(answer.datagram())),
                    None => Ok(ReceivedView::Skipped),
                }
            },
        }
    }
}

/// The Stream that a message from `peer` is: the whole of it, with what its
/// headers said in the origin.
#[must_use]
pub fn arrived(peer: &str, message: &Message, raw: &[u8]) -> (arrived: Arrived)
    ensures
        arrived@ == (ArrivedView { origin_uri: origin(peer@, message@), bytes: raw@ }),
{
    let mut uri = String::from("ssdp://");
    uri.append(peer);
    uri.append("?nt=");
    uri.append(message.notification_type());
    uri.append("&usn=");
    uri.append(message.header_or_empty("USN"));
    uri.append("&nts=");
    uri.append(message.notification_subtype());
    Arrived { origin_uri: uri, bytes: slice_to_vec(raw) }
}

impl SsdpTransport {
    #[verifier::type_invariant]
    spec fn inv(self) -> bool {
        self.server@ == SERVER@
    }

    /// Listen at `bind`: the group `239.255.255.250:1900` for what the
    /// network announces, or a unicast address for answers to a search.
    #[must_use]
    pub fn new<T: Into<String>>(bind: T) -> (node: Self)
        ensures
            exists|address: String|
                #[trigger] call_ensures(T::into, (bind,), address) && node@ == (TransportView {
                    bind: address@,
                    announcing: None,
                    timeout: None,
                }),
    {
        let address: String = bind.into();
        SsdpTransport {
            bind: address,
            announcing: None,
            server: SERVER.to_string(),
            timeout: None,
        }
    }

    /// Answer an `M-SEARCH` for `st` (or `ssdp:all`) with `usn` at
    /// `location`, and announce the same when sent bytes that are only a
    /// location.
    #[must_use]
    pub fn announcing(self, st: &str, usn: &str, location: &str) -> (node: Self)
        ensures
            node@ == (TransportView {
                announcing: Some(AnnouncementView { st: st@, usn: usn@, location: location@ }),
                ..self@
            }),
    {
        proof {
            use_type_invariant(&self);
        }
        SsdpTransport {
            bind: self.bind,
            announcing: Some(
                Announcement {
                    st: st.to_string(),
                    usn: usn.to_string(),
                    location: location.to_string(),
                },
            ),
            server: self.server,
            timeout: self.timeout,
        }
    }

    /// Give up waiting for a message after `timeout`.
    #[must_use]
    pub fn timing_out_after(self, timeout: Duration) -> (node: Self)
        ensures
            node@ == (TransportView { timeout: Some(timeout), ..self@ }),
    {
        proof {
            use_type_invariant(&self);
        }
        SsdpTransport {
            bind: self.bind,
            announcing: self.announcing,
            server: self.server,
            timeout: Some(timeout),
        }
    }

    /// What the node calls itself in the `SERVER` header.
    #[must_use]
    pub(crate) fn server(&self) -> (server: &str)
        ensures
            server@ == SERVER@,
    {
        proof {
            use_type_invariant(self);
        }
        self.server.as_str()
    }

    /// The name of this transport, and the scheme of its origins.
    #[must_use]
    pub fn name(&self) -> (name: &'static str)
        ensures
            name@ == "ssdp"@,
    {
        "ssdp"
    }

    /// Streams go both ways.
    #[must_use]
    pub fn directions(&self) -> (directions: Directions)
        ensures
            directions == (Directions { receives: true, sends: true }),
    {
        Directions { receives: true, sends: true }
    }

    /// The socket to listen on: for a multicast address its port on every
    /// interface, with the group joined; for any other the address itself.
    #[must_use]
    pub fn bind_udp(&self) -> (binding: Binding)
        ensures
            binding.timeout == self@.timeout,
            match group_of(self@.bind) {
                Some((group, address)) => binding.address@ == address && binding.group == Some(
                    group,
                ),
                None => binding.address@ == self@.bind && binding.group is None,
            },
    {
        match multicast_group(self.bind.as_str()) {
            Some((group, address)) => Binding { address, group: Some(group), timeout: self.timeout },
            None => Binding { address: self.bind.clone(), group: None, timeout: self.timeout },
        }
    }

    /// What a datagram from `peer` comes to. A notification or a search
    /// response is a Stream. A search is answered where this node announces
    /// something it asks for, and skipped.
    ///
    /// # Errors
    /// What arrived is not HTTPU.
    pub fn receive_datagram(&self, peer: &str, datagram: &[u8]) -> (received: Result<
        Received,
        Refusal,
    >)
        ensures
            (match received {
                Ok(received) => Ok(received@),
                Err(refusal) => Err(refusal@),
            }) == self@.receive(peer@, datagram@),
    {
        match message::parse(datagram) {
            Err(refusal) => Err(refusal),
            Ok(message) => if message.kind != Kind::Search {
                Ok(Received::Stream(arrived(peer, &message, datagram)))
            } else {
                match self.answer(&message) {
                    Some(answer) => Ok(Received::Answer(message::format(&answer))),
                    None => Ok(Received::Skipped),
                }
            },
        }
    }

    /// The response `search` earns, where it asks for what is announced.
    #[must_use]
    pub fn answer(&self, search: &Message) -> (answer: Option<Message>)
        ensures
            (match answer {
                Some(answer) => Some(answer@),
                None => None,
            }) == self@.answer(search@),
    {
        proof {
            use_type_invariant(self);
        }
        match &self.announcing {
            None => None,
            Some(announcement) => {
                let st = search.notification_type();
                if same(st, ALL) || same(st, announcement.st.as_str()) {
                    Some(
                        Message::response(
                            announcement.st.as_str(),
                            announcement.usn.as_str(),
                            announcement.location.as_str(),
                            self.server.as_str(),
                        ),
                    )
                } else {
                    None
                }
            },
        }
    }

    /// The `ssdp:alive` at `location`, without the white space around it.
    #[must_use]
    pub fn announce(&self, location: &str) -> (datagram: Vec<u8>)
        ensures
            datagram@ == self@.alive_at(location@).datagram(),
    {
        proof {
            use_type_invariant(self);
        }
        let chars = chars_of(location);
        let place = string_of(trimmed(chars.as_slice()));
        let alive = match &self.announcing {
            Some(announcement) => Message::alive(
                announcement.st.as_str(),
                announcement.usn.as_str(),
                place.as_str(),
                self.server.as_str(),
            ),
            None => Message::alive(
                "upnp:rootdevice",
                "uuid:xmip::upnp:rootdevice",
                place.as_str(),
                self.server.as_str(),
            ),
        };
        message::format(&alive)
    }

    /// `bytes` as a message: as they are when they already open with
    /// `NOTIFY`, `M-SEARCH` or `HTTP/`, else an `ssdp:alive` at that location.
    #[must_use]
    pub fn compose(&self, bytes: &[u8]) -> (datagram: Vec<u8>)
        ensures
            datagram@ == self@.compose(bytes@),
    {
        if starts_with(bytes, "NOTIFY") || starts_with(bytes, "M-SEARCH") || starts_with(
            bytes,
            "HTTP/",
        ) {
            return slice_to_vec(bytes);
        }
        let location = lossy_text(bytes);
        self.announce(location.as_str())
    }

    /// The datagram that a send of `bytes` to `target` is: to `ssdp://host:port`
    /// or a bare `host:port`.
    ///
    /// # Errors
    /// A target under another scheme.
    pub fn send(&self, target: &str, bytes: &[u8]) -> (outgoing: Result<Outgoing, Refusal>)
        ensures
            match destination_of(target@, authority_of("ssdp"@, target@)) {
                Ok(address) => outgoing matches Ok(sent) && sent.address@ == address
                    && sent.datagram@ == self@.compose(bytes@),
                Err(refusal) => outgoing matches Err(refused) && refused@ == refusal,
            },
    {
        match destination(target, authority("ssdp", target)) {
            Ok(address) => Ok(Outgoing { address, datagram: self.compose(bytes) }),
            Err(refusal) => Err(refusal),
        }
    }
}

/// A Stream, an announcement and what a datagram comes to are seen as they
/// are, their text as characters.
pub proof fn what_comes_is_seen(arrived: Arrived, announcement: Announcement, datagram: Vec<u8>)
    ensures
        arrived@ == (ArrivedView { origin_uri: arrived.origin_uri@, bytes: arrived.bytes@ }),
        announcement@ == (AnnouncementView {
            st: announcement.st@,
            usn: announcement.usn@,
            location: announcement.location@,
        }),
        Received::Stream(arrived)@ == ReceivedView::Stream(arrived@),
        Received::Answer(datagram)@ == ReceivedView::Answer(datagram@),
        Received::Skipped@ == ReceivedView::Skipped,
{
}

} // verus!
