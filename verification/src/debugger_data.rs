//! Data model of the capture layer: events recorded by the network-level
//! debuggers observing gossip traffic.

use vstd::prelude::*;

use crate::text::{after_last, before_first, str_after_last, str_before_first};

verus! {

/// A `host:port` address string of a network participant.
#[derive(Debug, Clone)]
pub struct NodeAddress(pub String);

impl NodeAddress {
    /// The characters of the address.
    pub open spec fn view(&self) -> Seq<char> {
        self.0@
    }

    /// The host part: everything before the first `:` (the whole address if
    /// it has no `:`).
    pub fn ip(&self) -> (r: String)
        ensures
            r@ == before_first(self@, ':'),
    {
        str_before_first(self.0.as_str(), ':')
    }

    /// The port part: everything after the last `:` (the whole address if it
    /// has no `:`).
    pub fn port(&self) -> (r: String)
        ensures
            r@ == after_last(self@, ':'),
    {
        str_after_last(self.0.as_str(), ':')
    }
}

/// A point in time as recorded by a debugger.
#[derive(Debug, Clone)]
pub struct DebuggerTime {
    pub secs_since_epoch: u64,
    pub nanos_since_epoch: u64,
}

impl DebuggerTime {
    /// Nanoseconds since the epoch.
    pub fn to_nanoseconds(&self) -> (r: u64)
        requires
            self.secs_since_epoch * 1_000_000_000 + self.nanos_since_epoch <= u64::MAX,
        ensures
            r == self.secs_since_epoch * 1_000_000_000 + self.nanos_since_epoch,
    {
        self.nanos_since_epoch + (self.secs_since_epoch * 1_000_000_000)
    }
}

/// A duration as recorded by a debugger.
#[derive(Debug, Clone)]
pub struct DebuggerLatency {
    pub secs: u64,
    pub nanos: u64,
}

impl DebuggerLatency {
    /// The duration in nanoseconds.
    pub fn to_nanoseconds(&self) -> (r: u64)
        requires
            self.secs * 1_000_000_000 + self.nanos <= u64::MAX,
        ensures
            r == self.secs * 1_000_000_000 + self.nanos,
    {
        self.nanos + (self.secs * 1_000_000_000)
    }
}

/// One block-related message observation of the block-level capture protocol.
#[derive(Debug, Clone)]
pub struct CapturedEvent {
    pub producer_id: String,
    pub hash: String,
    pub block_height: usize,
    pub global_slot: usize,
    pub incoming: bool,
    pub message_kind: String,
    pub message_id: usize,
    pub time: DebuggerTime,
    pub better_time: DebuggerTime,
    pub latency: Option<DebuggerLatency>,
    pub sender_addr: NodeAddress,
    pub receiver_addr: NodeAddress,
}

/// One debugger's response for one block height of the block-level capture
/// protocol.
#[derive(Debug, Clone)]
pub struct DebuggerBlockResponse {
    pub height: usize,
    pub events: Vec<CapturedEvent>,
}

/// The kind of a gossip sub-event, decoded from the capture's string tag at
/// the input boundary; tags other than the two known ones become `Unknown`.
#[derive(Debug, Clone, Copy, PartialEq, Eq, Structural)]
pub enum EventKind {
    /// A node originated a message.
    PublishGossip,
    /// A node received a message from a peer.
    ReceivedGossip,
    /// Any other capture tag.
    Unknown,
}

/// The kind denoted by the capture tag `s`.
pub open spec fn spec_event_kind(s: Seq<char>) -> EventKind {
    if s == "publish_gossip"@ {
        EventKind::PublishGossip
    } else if s == "received_gossip"@ {
        EventKind::ReceivedGossip
    } else {
        EventKind::Unknown
    }
}

impl EventKind {
    /// Decodes a capture tag.
    pub fn parse(s: &str) -> (r: EventKind)
        ensures
            r == spec_event_kind(s@),
    {
        let owned = s.to_owned();
        if owned.eq(&"publish_gossip".to_owned()) {
            EventKind::PublishGossip
        } else if owned.eq(&"received_gossip".to_owned()) {
            EventKind::ReceivedGossip
        } else {
            EventKind::Unknown
        }
    }
}

/// The message carried by a gossip sub-event.
#[derive(Debug, Clone)]
pub struct CpnpMessage {
    pub kind: String,
    pub height: usize,
}

/// One sub-event of a captured gossip observation.
#[derive(Debug, Clone)]
pub struct CpnpEvent {
    pub kind: EventKind,
    pub peer_id: Option<String>,
    pub peer_address: Option<NodeAddress>,
    pub hash: String,
    pub msg: CpnpMessage,
}

/// One captured gossip observation: a timestamp, the observing node, and the
/// sub-events recorded at that instant.
#[derive(Debug, Clone)]
pub struct CpnpCapturedData {
    pub time_microseconds: u64,
    pub real_time_microseconds: u64,
    pub node_address: NodeAddress,
    pub node_tag: String,
    pub events: Vec<CpnpEvent>,
}

/// One debugger's full response for one polling cycle.
pub type DebuggerCpnpResponse = Vec<CpnpCapturedData>;

} // verus!
