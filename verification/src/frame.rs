//! Frames exchanged by the TCP engine: the fields of the Ethernet II /
//! IPv4 / TCP headers that the engine reads and writes, plus the payload.
//! The ingress decoder hands the payload upward without copy; the egress
//! path fills the header fields of the outgoing frame.

use vstd::prelude::*;
use crate::seq_num::SeqNumber;

verus! {

/// An IPv4 endpoint: address and port as plain values.
#[derive(Clone, Copy, Debug, PartialEq, Eq, Structural)]
pub struct Endpoint {
    /// IPv4 address in host order.
    pub addr: u32,
    /// TCP or UDP port.
    pub port: u16,
}

/// One Ethernet II / IPv4 / TCP frame, header fields plus payload.
pub struct Frame {
    /// Source link (Ethernet) address, lower 48 bits.
    pub eth_src: u64,
    /// Destination link (Ethernet) address, lower 48 bits.
    pub eth_dst: u64,
    /// Source IPv4 endpoint.
    pub src: Endpoint,
    /// Destination IPv4 endpoint.
    pub dst: Endpoint,
    /// Sequence number of the first payload byte (or of SYN/FIN).
    pub seq: SeqNumber,
    /// Acknowledgment number; meaningful when `ack` is set.
    pub ack_num: SeqNumber,
    /// SYN flag.
    pub syn: bool,
    /// ACK flag.
    pub ack: bool,
    /// FIN flag.
    pub fin: bool,
    /// RST flag.
    pub rst: bool,
    /// Advertised receive window of this frame's sender, already scaled.
    pub wnd: u32,
    /// Maximum segment size option; meaningful only on SYN frames.
    pub mss: u32,
    /// Window-scale option; meaningful only on SYN frames.
    pub wnd_scale: u8,
    /// True for a UDP datagram; the TCP header fields are then unused.
    pub udp: bool,
    /// Payload bytes.
    pub payload: Vec<u8>,
}

impl Frame {
    /// A pure ACK: acknowledgment only, no payload and no other flag.
    pub open spec fn is_pure_ack(self) -> bool {
        self.ack && !self.syn && !self.fin && !self.rst && self.payload@.len() == 0
    }
}

} // verus!
