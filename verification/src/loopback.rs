//! Both ends of one SSDP exchange on one machine: a control point at an
//! ephemeral local port, and a device that announces itself to it and holds
//! the Stream. SSDP says what a device is rather than what it sends, and a
//! Stream arrives as what it says it in: the control point searches for the
//! Stream chunk by chunk, an `M-SEARCH` whose `ST` names the chunk, and the
//! device answers each with one response carrying [`CHUNK`] bytes in hex
//! under one vendor header; a search past the end is answered with no such
//! header, and that closes it. Every chunk is asked for, because nobody
//! acknowledges a notification.

use crate::address::{authority_of, peer_in, peer_of};
use crate::hex::{hex, hex_bytes, hex_text, unhex};
use crate::message;
use crate::message::{read_datagram, Message, MessageView};
use crate::number::{decimal, number, read_number, to_decimal};
use crate::refusal::{Refusal, RefusalView};
use crate::text::{chars_of, same_chars};
use crate::node::{Arrived, ArrivedView, Outgoing, SsdpTransport, TransportView, SERVER};
use std::time::Duration;
use vstd::prelude::*;
use vstd::slice::slice_subrange;
use vstd::string::*;

verus! {

/// The vendor header a response carries the Stream in.
pub const HEADER: &'static str = "X-STREAM";

/// What one response carries: twice this in hex and the headers stay well
/// inside the datagram the transport takes.
pub const CHUNK: usize = 3000;

/// The search type chunk `N` answers to, `{STREAM}N`.
pub const STREAM: &'static str = "urn:xmip:stream:";

/// What the device announces itself as.
pub const DEVICE: &'static str = "urn:xmip:device:Probe:1";

/// The name the device goes by.
pub const USN: &'static str = "uuid:xmip-probe::urn:xmip:device:Probe:1";

/// Where the device says it is.
pub const LOCATION: &'static str = "http://127.0.0.1/probe.xml";

/// The search type chunk `n` answers to.
pub open spec fn stream_type(n: nat) -> Seq<char> {
    STREAM@ + decimal(n)
}

/// How many chunks a payload makes.
pub open spec fn chunk_count(payload: Seq<u8>) -> nat {
    (payload.len() + (CHUNK - 1) as nat) / CHUNK as nat
}

/// Chunk `n` of a payload: its next [`CHUNK`] bytes, or what is left.
pub open spec fn chunk(payload: Seq<u8>, n: nat) -> Option<Seq<u8>> {
    let from = n * CHUNK;
    if from < payload.len() {
        if from + CHUNK <= payload.len() {
            Some(payload.subrange(from, from + CHUNK))
        } else {
            Some(payload.subrange(from, payload.len() as int))
        }
    } else {
        None
    }
}

/// The response to a search for chunk `n` of `payload`.
pub open spec fn chunk_response(payload: Seq<u8>, n: nat) -> MessageView {
    let plain = MessageView::response(stream_type(n), USN@, LOCATION@, SERVER@);
    match chunk(payload, n) {
        Some(bytes) => plain.plus(HEADER@, hex_text(bytes)),
        None => plain,
    }
}

/// The chunk a search type asks for, where it asks for one.
pub open spec fn asked(st: Seq<char>) -> Result<nat, RefusalView> {
    if STREAM@.is_prefix_of(st) {
        match number(st.skip(STREAM@.len() as int), usize::MAX as nat) {
            Some(n) => Ok(n),
            None => Err(RefusalView::OtherSearch(st)),
        }
    } else {
        Err(RefusalView::OtherSearch(st))
    }
}

/// What the device that holds `payload` answers a datagram with, and whether
/// it was asked past the end.
pub open spec fn device_answer(payload: Seq<u8>, datagram: Seq<u8>) -> Result<
    (Seq<u8>, bool),
    RefusalView,
> {
    match read_datagram(datagram) {
        Err(refusal) => Err(refusal),
        Ok(search) => match asked(search.notification_type()) {
            Err(refusal) => Err(refusal),
            Ok(n) => Ok((chunk_response(payload, n).datagram(), n >= chunk_count(payload))),
        },
    }
}

/// The control point: the device that announced itself, and how much of its
/// Stream has come.
pub struct ControlPoint {
    origin_uri: String,
    device: String,
    next: usize,
    bytes: Vec<u8>,
}

/// The control point, as sequences.
pub struct ControlPointView {
    /// The origin of the announcement.
    pub origin_uri: Seq<char>,
    /// The peer that made it.
    pub device: Seq<char>,
    /// The chunk to search for.
    pub next: nat,
    /// The chunks before it.
    pub bytes: Seq<u8>,
}

impl View for ControlPoint {
    type V = ControlPointView;

    closed spec fn view(&self) -> ControlPointView {
        ControlPointView {
            origin_uri: self.origin_uri@,
            device: self.device@,
            next: self.next as nat,
            bytes: self.bytes@,
        }
    }
}

/// What an answer leads to.
pub enum Progress {
    /// Another search.
    More(ControlPoint),
    /// The whole Stream.
    Done(Arrived),
}

/// What an answer leads to, as sequences.
pub enum ProgressView {
    More(ControlPointView),
    Done(ArrivedView),
}

impl View for Progress {
    type V = ProgressView;

    open spec fn view(&self) -> ProgressView {
        match self {
            Progress::More(point) => ProgressView::More(point@),
            Progress::Done(arrived) => ProgressView::Done(arrived@),
        }
    }
}

impl ControlPointView {
    /// The search for the next chunk.
    pub open spec fn search(self) -> MessageView {
        MessageView::search(stream_type(self.next), 1)
    }

    /// What an answer to that search leads to: its chunk is taken and the
    /// next one is due, until an answer carries none.
    pub open spec fn take(self, answer: Seq<u8>) -> Result<ProgressView, RefusalView> {
        match read_datagram(answer) {
            Err(refusal) => Err(refusal),
            Ok(response) => match response.header(HEADER@) {
                None => Ok(
                    ProgressView::Done(
                        ArrivedView { origin_uri: self.origin_uri, bytes: self.bytes },
                    ),
                ),
                Some(digits) => match hex_bytes(digits) {
                    Err(refusal) => Err(refusal),
                    Ok(found) => if self.next + 1 >= usize::MAX {
                        Err(RefusalView::Endless)
                    } else {
                        Ok(
                            ProgressView::More(
                                ControlPointView {
                                    next: self.next + 1,
                                    bytes: self.bytes + found,
                                    ..self
                                },
                            ),
                        )
                    },
                },
            },
        }
    }
}

/// The control point that an announcement with this origin starts.
pub open spec fn control_point(origin_uri: Seq<char>) -> Result<ControlPointView, RefusalView> {
    match peer_in(origin_uri, authority_of("ssdp"@, origin_uri)) {
        Ok(device) => Ok(ControlPointView { origin_uri, device, next: 0, bytes: seq![] }),
        Err(refusal) => Err(refusal),
    }
}

/// The chunk a search type asks for, where it asks for one.
///
/// # Errors
/// A search for something else.
pub fn chunk_asked(st: &str) -> (n: Result<usize, Refusal>)
    ensures
        (match n {
            Ok(n) => Ok(n as nat),
            Err(refusal) => Err(refusal@),
        }) == asked(st@),
{
    let chars = chars_of(st);
    let lead = chars_of(STREAM);
    if chars.len() >= lead.len() && same_chars(
        slice_subrange(chars.as_slice(), 0, lead.len()),
        lead.as_slice(),
    ) {
        let rest = slice_subrange(chars.as_slice(), lead.len(), chars.len());
        if let Some(n) = read_number(rest, usize::MAX as u64) {
            return Ok(n as usize);
        }
    }
    Err(Refusal::OtherSearch(st.to_string()))
}

/// The search type chunk `n` answers to.
fn stream_name(n: usize) -> (name: String)
    ensures
        name@ == stream_type(n as nat),
{
    STREAM.to_string().concat(to_decimal(n as u64).as_str())
}

/// How many chunks a payload makes.
#[must_use]
pub fn chunks(payload: &[u8]) -> (n: usize)
    ensures
        n == chunk_count(payload@),
{
    if payload.len() % CHUNK == 0 {
        payload.len() / CHUNK
    } else {
        payload.len() / CHUNK + 1
    }
}

/// What the device sends for a search, and whether that was the last one.
#[derive(Clone, Debug, PartialEq, Eq)]
pub struct Answered {
    pub datagram: Vec<u8>,
    pub last: bool,
}

impl SsdpTransport {
    /// Both ends on this machine: a control point at an ephemeral local
    /// port that waits for `timeout`.
    #[must_use]
    pub fn loopback(timeout: Duration) -> (node: Self)
        ensures
            node@ == (TransportView {
                bind: "127.0.0.1:0"@,
                announcing: None,
                timeout: Some(timeout),
            }),
    {
        SsdpTransport::new("127.0.0.1:0").timing_out_after(timeout)
    }

    /// The device announcing itself.
    #[must_use]
    pub fn device_alive(&self) -> (datagram: Vec<u8>)
        ensures
            datagram@ == MessageView::alive(DEVICE@, USN@, LOCATION@, SERVER@).datagram(),
    {
        message::format(&Message::alive(DEVICE, USN, LOCATION, self.server()))
    }

    /// The response to a search for chunk `n` of `payload`.
    #[must_use]
    pub fn response(&self, payload: &[u8], n: usize) -> (datagram: Vec<u8>)
        ensures
            datagram@ == chunk_response(payload@, n as nat).datagram(),
    {
        let plain = Message::response(stream_name(n).as_str(), USN, LOCATION, self.server());
        let len: usize = payload.len();
        let response = if n < chunks(payload) {
            assert(n * CHUNK < len);
            let from: usize = n * CHUNK;
            let to: usize = if len - from < CHUNK {
                len
            } else {
                from + CHUNK
            };
            plain.with(HEADER, hex(slice_subrange(payload, from, to)).as_str())
        } else {
            plain
        };
        message::format(&response)
    }

    /// What the device that holds `payload` answers a datagram with.
    ///
    /// # Errors
    /// What arrived is not HTTPU, or asks for something else.
    pub fn answer_search(&self, payload: &[u8], datagram: &[u8]) -> (answered: Result<
        Answered,
        Refusal,
    >)
        ensures
            (match answered {
                Ok(answered) => Ok((answered.datagram@, answered.last)),
                Err(refusal) => Err(refusal@),
            }) == device_answer(payload@, datagram@),
    {
        match message::parse(datagram) {
            Err(refusal) => Err(refusal),
            Ok(search) => match chunk_asked(search.notification_type()) {
                Err(refusal) => Err(refusal),
                Ok(n) => Ok(
                    Answered { datagram: self.response(payload, n), last: n >= chunks(payload) },
                ),
            },
        }
    }
}

impl ControlPoint {
    #[verifier::type_invariant]
    spec fn inv(self) -> bool {
        self.next < usize::MAX
    }

    /// Search the device that made the announcement `alive` for its Stream.
    ///
    /// # Errors
    /// An announcement whose origin names no peer.
    pub fn new(alive: Arrived) -> (point: Result<ControlPoint, Refusal>)
        ensures
            (match point {
                Ok(point) => Ok(point@),
                Err(refusal) => Err(refusal@),
            }) == control_point(alive@.origin_uri),
    {
        match peer_of(alive.origin_uri.as_str()) {
            Ok(device) => {
                let bytes: Vec<u8> = Vec::new();
                Ok(ControlPoint { origin_uri: alive.origin_uri, device, next: 0, bytes })
            },
            Err(refusal) => Err(refusal),
        }
    }

    /// The search for the next chunk, to the device.
    #[must_use]
    pub fn search(&self) -> (search: Outgoing)
        ensures
            search.address@ == self@.device,
            search.datagram@ == self@.search().datagram(),
    {
        let search = Message::search(stream_name(self.next).as_str(), 1);
        Outgoing { address: self.device.clone(), datagram: message::format(&search) }
    }

    /// Take the answer to that search.
    ///
    /// # Errors
    /// What arrived is not HTTPU, its chunk is not hex, or there are more
    /// chunks than can be counted.
    pub fn take(self, answer: &[u8]) -> (progress: Result<Progress, Refusal>)
        ensures
            (match progress {
                Ok(progress) => Ok(progress@),
                Err(refusal) => Err(refusal@),
            }) == self@.take(answer@),
    {
        proof {
            use_type_invariant(&self);
        }
        let response = match message::parse(answer) {
            Ok(response) => response,
            Err(refusal) => {
                return Err(refusal);
            },
        };
        match response.header(HEADER) {
            None => Ok(Progress::Done(Arrived { origin_uri: self.origin_uri, bytes: self.bytes })),
            Some(digits) => match unhex(digits) {
                Err(refusal) => Err(refusal),
                Ok(found) => {
                    let next: usize = self.next + 1;
                    if next == usize::MAX {
                        return Err(Refusal::Endless);
                    }
                    let mut found = found;
                    let mut bytes = self.bytes;
                    bytes.append(&mut found);
                    Ok(
                        Progress::More(
                            ControlPoint {
                                origin_uri: self.origin_uri,
                                device: self.device,
                                next,
                                bytes,
                            },
                        ),
                    )
                },
            },
        }
    }
}

/// What an answer leads to is seen as it is.
pub proof fn progress_is_seen(point: ControlPoint, arrived: Arrived)
    ensures
        Progress::More(point)@ == ProgressView::More(point@),
        Progress::Done(arrived)@ == ProgressView::Done(arrived@),
{
}

} // verus!
