//! Streams that arrive as SSDP messages. One notification or search
//! response is one Stream: the whole HTTPU text, with what its headers
//! said in the origin.
//!
//! SSDP is how `UPnP` devices find each other: a device multicasts `NOTIFY`
//! `ssdp:alive` when it arrives and `ssdp:byebye` when it leaves, a control
//! point multicasts `M-SEARCH` and each device answers it unicast with
//! `HTTP/1.1 200 OK`. A Receive Location joins the group and takes what the
//! network announces (printers, media renderers, gateways, cameras) or
//! sits at a unicast address and takes the answers to its own searches; a
//! Send Location announces a device or searches for one.
//!
//! The origin URI carries what the headers knew:
//! `ssdp://peer?nt=upnp:rootdevice&usn=uuid:...::upnp:rootdevice&nts=ssdp:alive`.
//! `nt` is `ST` for a search response, and `nts` is empty for one.
//!
//! A send goes to `ssdp://host:port` or a bare `host:port`; the group is
//! `ssdp://239.255.255.250:1900`. Bytes that already open with `NOTIFY`,
//! `M-SEARCH` or `HTTP/` go as they are; any other bytes go as a `NOTIFY`
//! `ssdp:alive` whose `LOCATION` they are, under the `NT` and `USN` the
//! transport was built announcing.
//!
//! Multicast is joined when the bind address is in 224/4: the socket
//! binds the port on every interface and joins the group.
//!
//! Nothing here touches a socket. A node says what to bind, what a datagram
//! comes to and what to send where; the sockets are its caller's.

pub mod address;
pub mod addressing;
pub mod delivery;
pub mod exchange;
pub mod hex;
pub mod lookup;
pub mod loopback;
pub mod message;
pub mod node;
pub mod number;
pub mod refusal;
pub mod round_trip;
pub mod text;

pub use address::{multicast_group, Ipv4};
pub use message::{Kind, Message, ALIVE, ALL, BYEBYE, GROUP};
pub use node::{
    Announcement, Arrived, Binding, Directions, Outgoing, Received, SsdpTransport, MAX_DATAGRAM,
};
pub use refusal::Refusal;
