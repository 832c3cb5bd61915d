//! Per-connection TCP control block: sequence-number accounting, send and
//! receive queues, retransmission state, congestion and flow control.
//!
//! Central invariants, maintained by every operation:
//! - the distance from `snd_una` to `snd_nxt` (modulo 32-bit wraparound)
//!   equals the bytes held in the retransmission queue, plus one for an
//!   unacknowledged SYN or FIN;
//! - that distance never exceeds the peer's advertised window `snd_wnd`;
//! - the retransmission queue and the unsent queue are exactly the suffix
//!   of the pushed byte stream that the peer has not yet acknowledged, so
//!   bytes delivered to the peer are a prefix of bytes pushed.

use vstd::prelude::*;
use crate::frame::{Endpoint, Frame};
use crate::seq_num::{seq_sub_spec, SeqNumber};

verus! {

/// TCP connection states.
#[derive(Clone, Copy, Debug, PartialEq, Eq, Structural)]
pub enum TcpState {
    /// No connection.
    Closed,
    /// Active open sent a SYN, awaiting SYN-ACK.
    SynSent,
    /// Passive open got a SYN and answered SYN-ACK, awaiting ACK.
    SynReceived,
    /// Data transfer.
    Established,
    /// We closed first; FIN sent (or queued), nothing acknowledged yet.
    FinWait1,
    /// Our FIN is acknowledged; awaiting the peer's FIN.
    FinWait2,
    /// Peer closed first; we may still send.
    CloseWait,
    /// Both sides closed simultaneously; awaiting ACK of our FIN.
    Closing,
    /// We closed after the peer; awaiting ACK of our FIN.
    LastAck,
    /// Both FINs exchanged; linger before releasing the connection.
    TimeWait,
}

/// Static per-connection configuration.
#[derive(Clone, Copy, Debug, PartialEq, Eq, Structural)]
pub struct TcpConfig {
    /// Maximum segment size.
    pub mss: u32,
    /// Our receive window in bytes (already scaled).
    pub rcv_wnd: u32,
    /// Window-scale factor we advertise in the SYN.
    pub wnd_scale: u8,
    /// Lower bound of the retransmission timeout, nanoseconds.
    pub min_rto: u64,
    /// Upper bound of the retransmission timeout, nanoseconds.
    pub max_rto: u64,
    /// Delayed-ACK interval, nanoseconds.
    pub ack_delay: u64,
}

impl TcpConfig {
    /// Bounds that keep all window and timer arithmetic in range.
    pub open spec fn wf(self) -> bool {
        &&& 1 <= self.mss <= 0x10000
        &&& 1 <= self.rcv_wnd <= 0x4000_0000
        &&& self.wnd_scale <= 14
        &&& 0 < self.min_rto <= self.max_rto
        &&& self.max_rto <= 0x1_0000_0000_0000
        &&& self.ack_delay <= 0x1_0000_0000_0000
    }

    /// A default configuration: 1500-byte segments, a 64 KiB window with no
    /// scaling, timeouts between 100 ms and 8 s, 1 ms delayed ACKs.
    pub fn standard() -> (r: TcpConfig)
        ensures
            r.wf(),
            r.mss == 1500,
            r.rcv_wnd == 0xFFFF,
            r.wnd_scale == 0,
    {
        TcpConfig {
            mss: 1500,
            rcv_wnd: 0xFFFF,
            wnd_scale: 0,
            min_rto: 100_000_000,
            max_rto: 8_000_000_000,
            ack_delay: 1_000_000,
        }
    }
}

/// Retransmission-timeout estimator: smoothed round-trip time and mean
/// deviation via the standard 1/8 and 1/4 filters, with the timeout held
/// between the configured bounds.
pub struct RtoCalculator {
    srtt: u64,
    rttvar: u64,
    rto: u64,
    has_sample: bool,
    min_rto: u64,
    max_rto: u64,
}

impl RtoCalculator {
    /// Current retransmission timeout, nanoseconds.
    pub closed spec fn spec_rto(self) -> u64 {
        self.rto
    }

    /// Configured upper bound.
    pub closed spec fn spec_max_rto(self) -> u64 {
        self.max_rto
    }

    /// Configured lower bound.
    pub closed spec fn spec_min_rto(self) -> u64 {
        self.min_rto
    }

    /// Smoothed round-trip time.
    pub closed spec fn spec_srtt(self) -> u64 {
        self.srtt
    }

    /// Mean deviation of the round-trip time.
    pub closed spec fn spec_rttvar(self) -> u64 {
        self.rttvar
    }

    /// A sample has been folded in already.
    pub closed spec fn spec_has_sample(self) -> bool {
        self.has_sample
    }

    /// The timeout and the filter state stay inside the configured bounds;
    /// in particular the timeout never exceeds the configured maximum.
    pub closed spec fn wf(self) -> bool {
        &&& 0 < self.min_rto <= self.max_rto <= 0x1_0000_0000_0000
        &&& self.min_rto <= self.rto <= self.max_rto
        &&& self.srtt <= self.max_rto
        &&& self.rttvar <= self.max_rto
    }

    /// Starts the estimator with a 1 s timeout clamped into the bounds.
    pub fn new(min_rto: u64, max_rto: u64) -> (r: RtoCalculator)
        requires
            0 < min_rto <= max_rto <= 0x1_0000_0000_0000,
        ensures
            r.wf(),
            r.spec_min_rto() == min_rto,
            r.spec_max_rto() == max_rto,
    {
        let initial: u64 = 1_000_000_000;
        let rto: u64 = if initial < min_rto {
            min_rto
        } else if initial > max_rto {
            max_rto
        } else {
            initial
        };
        RtoCalculator { srtt: 0, rttvar: 0, rto, has_sample: false, min_rto, max_rto }
    }

    /// Folds one round-trip sample into the filters — the first sample
    /// seeds them, later ones use the standard 1/8 smoothing and 1/4
    /// deviation gains — and recomputes the timeout as `srtt + 4 * rttvar`
    /// clamped into the bounds.
    pub fn add_sample(&mut self, rtt: u64)
        requires
            old(self).wf(),
        ensures
            final(self).wf(),
            final(self).spec_min_rto() == old(self).spec_min_rto(),
            final(self).spec_max_rto() == old(self).spec_max_rto(),
            final(self).spec_has_sample(),
            ({
                let sample = min_spec(rtt as int, old(self).spec_max_rto() as int);
                &&& !old(self).spec_has_sample() ==> (final(self).spec_srtt() == sample && final(self).spec_rttvar() == sample / 2)
                &&& old(self).spec_has_sample() ==> ({
                    let dev = if old(self).spec_srtt() >= sample {
                        old(self).spec_srtt() - sample
                    } else {
                        sample - old(self).spec_srtt()
                    };
                    &&& final(self).spec_rttvar() == (3 * old(self).spec_rttvar() + dev) / 4
                    &&& final(self).spec_srtt() == (7 * old(self).spec_srtt() + sample) / 8
                })
                &&& final(self).spec_rto() == min_spec(
                    max_spec(
                        final(self).spec_srtt() + 4 * final(self).spec_rttvar(),
                        old(self).spec_min_rto() as int,
                    ),
                    old(self).spec_max_rto() as int,
                )
            }),
    {
        let sample: u64 = if rtt > self.max_rto {
            self.max_rto
        } else {
            rtt
        };
        if !self.has_sample {
            self.srtt = sample;
            self.rttvar = sample / 2;
            self.has_sample = true;
        } else {
            let dev: u64 = if self.srtt > sample {
                self.srtt - sample
            } else {
                sample - self.srtt
            };
            self.rttvar = (3 * self.rttvar + dev) / 4;
            self.srtt = (7 * self.srtt + sample) / 8;
        }
        let raw: u64 = self.srtt + 4 * self.rttvar;
        self.rto = if raw < self.min_rto {
            self.min_rto
        } else if raw > self.max_rto {
            self.max_rto
        } else {
            raw
        };
    }

    /// Exponential backoff after a loss: the timeout doubles but caps at
    /// the configured maximum, however many losses have gone before.
    pub fn backoff(&mut self)
        requires
            old(self).wf(),
        ensures
            final(self).wf(),
            final(self).spec_rto() == (if 2 * old(self).spec_rto() > old(self).spec_max_rto() {
                old(self).spec_max_rto() as int
            } else {
                2 * old(self).spec_rto()
            }),
            final(self).spec_rto() <= final(self).spec_max_rto(),
            final(self).spec_min_rto() == old(self).spec_min_rto(),
            final(self).spec_max_rto() == old(self).spec_max_rto(),
    {
        let doubled: u64 = 2 * self.rto;
        self.rto = if doubled > self.max_rto {
            self.max_rto
        } else {
            doubled
        };
    }

    /// Current timeout.
    pub fn current(&self) -> (r: u64)
        ensures
            r == self.spec_rto(),
    {
        self.rto
    }
}

/// Total bytes held by a sequence of segments.
pub open spec fn bytes_of(s: Seq<Vec<u8>>) -> nat
    decreases s.len(),
{
    if s.len() == 0 {
        0
    } else {
        s[0]@.len() + bytes_of(s.drop_first())
    }
}

/// The segments' bytes, concatenated in order.
pub open spec fn flatten_bytes(s: Seq<Vec<u8>>) -> Seq<u8>
    decreases s.len(),
{
    if s.len() == 0 {
        Seq::empty()
    } else {
        s[0]@ + flatten_bytes(s.drop_first())
    }
}

/// Appending a segment adds its bytes at the end.
pub proof fn lemma_bytes_push(s: Seq<Vec<u8>>, x: Vec<u8>)
    ensures
        bytes_of(s.push(x)) == bytes_of(s) + x@.len(),
        flatten_bytes(s.push(x)) == flatten_bytes(s) + x@,
    decreases s.len(),
{
    if s.len() == 0 {
        assert(s.push(x)[0] == x);
        assert(s.push(x).drop_first() =~= Seq::<Vec<u8>>::empty());
        assert(bytes_of(s.push(x)) == x@.len() + bytes_of(Seq::<Vec<u8>>::empty()));
        assert(flatten_bytes(s.push(x)) == x@ + flatten_bytes(Seq::<Vec<u8>>::empty()));
        assert(x@ + flatten_bytes(Seq::<Vec<u8>>::empty()) =~= x@);
        assert(flatten_bytes(s) =~= Seq::<u8>::empty());
        assert(flatten_bytes(s) + x@ =~= x@);
    } else {
        assert(s.push(x).drop_first() =~= s.drop_first().push(x));
        assert(s.push(x)[0] == s[0]);
        lemma_bytes_push(s.drop_first(), x);
        assert(bytes_of(s.push(x)) == s[0]@.len() + bytes_of(s.drop_first().push(x)));
        assert(flatten_bytes(s.push(x)) == s[0]@ + (flatten_bytes(s.drop_first()) + x@));
        assert(s[0]@ + (flatten_bytes(s.drop_first()) + x@) =~= (s[0]@ + flatten_bytes(
            s.drop_first(),
        )) + x@);
        assert(flatten_bytes(s.push(x)) =~= flatten_bytes(s) + x@);
    }
}

/// The flattened bytes have exactly the total length.
pub proof fn lemma_flatten_len(s: Seq<Vec<u8>>)
    ensures
        flatten_bytes(s).len() == bytes_of(s),
    decreases s.len(),
{
    if s.len() > 0 {
        lemma_flatten_len(s.drop_first());
    }
}

/// Per-connection control block.
pub struct ControlBlock {
    /// Connection state.
    pub state: TcpState,
    /// Our endpoint.
    pub local: Endpoint,
    /// The peer's endpoint.
    pub remote: Endpoint,
    /// Our link address.
    pub local_mac: u64,
    /// The peer's link address.
    pub remote_mac: u64,
    /// Initial send sequence number (the SYN's).
    pub iss: SeqNumber,
    /// Initial receive sequence number (the peer SYN's).
    pub irs: SeqNumber,
    /// Oldest unacknowledged sequence number.
    pub snd_una: SeqNumber,
    /// Next sequence number to send.
    pub snd_nxt: SeqNumber,
    /// Peer's advertised window, scaled.
    pub snd_wnd: u32,
    /// Window-scale factor the peer asked for.
    pub snd_scale: u8,
    /// Next sequence number expected from the peer.
    pub rcv_nxt: SeqNumber,
    /// Congestion window.
    pub cwnd: u32,
    /// Slow-start threshold.
    pub ssthresh: u32,
    /// Duplicate-ACK counter for fast retransmit.
    pub dup_acks: u32,
    /// Unacknowledged segments, consecutive from `snd_una`.
    pub rtq: Vec<Vec<u8>>,
    /// Pushed bytes not yet segmented.
    pub unsent: Vec<u8>,
    /// In-order received payloads awaiting pop.
    pub rcv_queue: Vec<Vec<u8>>,
    /// Bytes buffered in `rcv_queue`.
    pub rcv_buffered: u32,
    /// The peer's FIN has been consumed (`rcv_nxt` counts it).
    pub fin_seen: bool,
    /// Our FIN occupies sequence space (`snd_nxt` counts it).
    pub fin_sent: bool,
    /// Our FIN has been acknowledged.
    pub fin_acked: bool,
    /// Close requested: emit a FIN once the send queue drains.
    pub fin_pending: bool,
    /// Retransmission-timeout estimator.
    pub rto: RtoCalculator,
    /// Instant the retransmission timer fires, while anything is in flight.
    pub rto_expiry: Option<u64>,
    /// Instant a delayed pure ACK is due, if one is owed.
    pub ack_deadline: Option<u64>,
    /// Instant the TimeWait linger ends.
    pub time_wait_until: u64,
    /// Sequence number whose acknowledgment ends the running RTT sample.
    pub rtt_seq: u32,
    /// Instant the sampled segment was sent.
    pub rtt_time: u64,
    /// A round-trip sample is in flight and usable (Karn's rule: cleared
    /// on retransmission).
    pub rtt_valid: bool,
    /// Static configuration.
    pub cfg: TcpConfig,
    /// Every byte the user ever pushed on this connection.
    pub pushed: Ghost<Seq<u8>>,
    /// Every byte already handed to the user by a pop.
    pub popped: Ghost<Seq<u8>>,
}

impl ControlBlock {
    /// One unit of sequence space for our unacknowledged SYN.
    pub open spec fn syn_off(self) -> int {
        if self.state is SynSent || self.state is SynReceived {
            1int
        } else {
            0int
        }
    }

    /// One unit of sequence space for our unacknowledged FIN.
    pub open spec fn fin_off(self) -> int {
        if self.fin_sent && !self.fin_acked {
            1int
        } else {
            0int
        }
    }

    /// Sequence number of the first stream byte we send. This engine fixes
    /// the initial send sequence at zero, so stream byte `k` carries
    /// sequence number `1 + k` and the counters never wrap within a
    /// connection's 4 GiB of sequence space.
    pub open spec fn snd_base(self) -> int {
        self.iss.val + 1
    }

    /// Sequence number of the first stream byte we receive.
    pub open spec fn rcv_base(self) -> int {
        self.irs.val + 1
    }

    /// One unit of sequence space for our acknowledged FIN.
    pub open spec fn fin_acked_off(self) -> int {
        if self.fin_acked {
            1int
        } else {
            0int
        }
    }

    /// Bytes of the pushed stream the peer has acknowledged.
    pub open spec fn acked_len(self) -> int {
        if self.syn_off() == 1 {
            0int
        } else {
            self.snd_una.val - self.snd_base() - self.fin_acked_off()
        }
    }

    /// Sequence-space distance from `snd_una` to `snd_nxt`.
    pub open spec fn inflight(self) -> int {
        self.snd_nxt.val - self.snd_una.val
    }

    /// Bytes the user may read, in order: already popped plus buffered.
    pub open spec fn delivered(self) -> Seq<u8> {
        self.popped@ + flatten_bytes(self.rcv_queue@)
    }

    /// One unit of sequence space for the peer's consumed FIN.
    pub open spec fn fin_seen_off(self) -> int {
        if self.fin_seen {
            1int
        } else {
            0int
        }
    }

    /// Well-formedness: the sequence-number accounting of both directions.
    pub open spec fn wf(self) -> bool {
        &&& self.cfg.wf()
        &&& self.rto.wf()
        &&& self.rto.spec_min_rto() == self.cfg.min_rto
        &&& self.rto.spec_max_rto() == self.cfg.max_rto
        &&& 1 <= self.cwnd <= 0x4000_0000
        &&& self.snd_scale <= 14
        &&& self.ssthresh <= 0x4000_0000
        &&& self.iss.val == 0
        &&& self.pushed@.len() <= 0xFFFF_F000
        // Send counters never wrap: `snd_una` sits one past the
        // acknowledged prefix (and past the FIN once that is acked),
        // `snd_nxt` one past everything emitted.
        &&& self.syn_off() == 1 ==> self.snd_una.val == 0
        &&& self.acked_len() >= 0
        // The retransmission queue holds exactly the sequence space in
        // flight, SYN and FIN each counting one unit.
        &&& self.snd_nxt.val == self.snd_una.val + self.syn_off() + bytes_of(self.rtq@)
            + self.fin_off()
        // Never more in flight than the peer's advertised window.
        &&& self.inflight() <= self.snd_wnd
        // The pushed stream splits into acknowledged, in flight, unsent.
        &&& self.pushed@.len() == self.acked_len() + bytes_of(self.rtq@) + self.unsent@.len()
        &&& flatten_bytes(self.rtq@) == self.pushed@.subrange(
            self.acked_len(),
            self.acked_len() + bytes_of(self.rtq@),
        )
        &&& self.unsent@ == self.pushed@.skip(self.acked_len() + bytes_of(self.rtq@))
        // FIN bookkeeping.
        &&& self.fin_acked ==> self.fin_sent
        &&& self.fin_sent ==> self.fin_pending && self.unsent@.len() == 0
        &&& self.fin_pending ==> (self.state is FinWait1 || self.state is FinWait2
            || self.state is Closing || self.state is LastAck || self.state is TimeWait
            || self.state is Closed)
        &&& self.fin_acked ==> bytes_of(self.rtq@) == 0
        // Before the handshake completes nothing has moved.
        &&& (self.state is SynSent || self.state is SynReceived) ==> (self.pushed@.len() == 0
            && self.rtq@.len() == 0 && self.rcv_queue@.len() == 0 && self.popped@.len() == 0
            && !self.fin_sent && !self.fin_seen && !self.fin_pending)
        // Receive-side accounting, defined once the peer's SYN is known.
        &&& !(self.state is SynSent) ==> self.rcv_nxt.val == self.rcv_base()
            + self.delivered().len() + self.fin_seen_off()
        &&& self.irs.val <= 0xF000_0000
        &&& self.rcv_buffered == bytes_of(self.rcv_queue@)
        &&& bytes_of(self.rcv_queue@) <= self.cfg.rcv_wnd
        // Only non-empty payloads are queued, so an empty pop result can
        // serve as the end-of-stream marker after the peer's FIN.
        &&& forall|i: int| 0 <= i < self.rcv_queue@.len() ==> (#[trigger] self.rcv_queue@[i])@.len() > 0
        // Segments in flight are never empty.
        &&& forall|i: int| 0 <= i < self.rtq@.len() ==> (#[trigger] self.rtq@[i])@.len() > 0
    }

    /// The received bytes track the peer's pushed stream `s`: everything
    /// delivered (or deliverable) so far is exactly a prefix of `s`.
    pub open spec fn tracks(self, s: Seq<u8>) -> bool {
        &&& self.delivered().len() <= s.len()
        &&& self.delivered() == s.take(self.delivered().len() as int)
    }

    /// The window a frame leaving this connection advertises on the wire:
    /// the free receive space, scaled down by our window-scale factor and
    /// capped at the 16-bit field.
    pub open spec fn wire_wnd(self) -> u32 {
        let adv = (self.cfg.rcv_wnd - bytes_of(self.rcv_queue@)) as u32;
        let shifted = adv >> (self.cfg.wnd_scale as u32);
        if shifted > 0xFFFF {
            0xFFFFu32
        } else {
            shifted
        }
    }

    /// Fields a frame leaving this connection always carries: our
    /// addresses, the piggybacked acknowledgment, the advertised receive
    /// window, and — for data and FIN — agreement with the pushed stream.
    pub open spec fn frame_out_ok(self, f: Frame) -> bool {
        &&& f.eth_src == self.local_mac
        &&& f.eth_dst == self.remote_mac
        &&& f.src == self.local
        &&& f.dst == self.remote
        &&& f.ack
        &&& f.ack_num == self.rcv_nxt
        &&& f.wnd == self.wire_wnd()
        &&& ControlBlock::frame_from_stream(f, self.pushed@, self.snd_base())
    }

    /// Like `frame_out_ok` but without pinning the acknowledgment number:
    /// a frame emitted earlier in a call may acknowledge less than the
    /// connection's final `rcv_nxt`.
    pub open spec fn frame_sent_ok(self, f: Frame) -> bool {
        &&& f.eth_src == self.local_mac
        &&& f.eth_dst == self.remote_mac
        &&& f.src == self.local
        &&& f.dst == self.remote
        &&& f.ack
        &&& ControlBlock::frame_from_stream(f, self.pushed@, self.snd_base())
    }

    /// A data or FIN frame that the peer built from its pushed stream `s`
    /// whose first byte carries sequence number `base`: the payload sits in
    /// `s` at the frame's sequence offset, and a FIN sits just past the end
    /// of `s`.
    pub open spec fn frame_from_stream(f: Frame, s: Seq<u8>, base: int) -> bool {
        &&& !f.syn
        &&& !f.rst
        &&& !f.udp
        &&& f.payload@.len() > 0 ==> ({
            let off = f.seq.val - base;
            &&& 0 <= off
            &&& off + f.payload@.len() <= s.len()
            &&& f.payload@ == s.subrange(off, off + f.payload@.len())
        })
        &&& f.fin ==> f.seq.val + f.payload@.len() == base + s.len()
    }

    /// The frame carries the next expected in-order payload, it fits the
    /// receive window, and the connection is in a state that accepts data.
    pub open spec fn spec_data_state(self) -> bool {
        self.state is Established || self.state is FinWait1 || self.state is FinWait2
    }

    /// Identity and configuration never change over a connection's life.
    pub open spec fn same_identity(self, other: ControlBlock) -> bool {
        &&& self.local == other.local
        &&& self.remote == other.remote
        &&& self.local_mac == other.local_mac
        &&& self.remote_mac == other.remote_mac
        &&& self.cfg == other.cfg
        &&& self.iss == other.iss
    }

    /// The receive side as the user observes it.
    pub open spec fn same_receive_side(self, other: ControlBlock) -> bool {
        &&& self.popped@ == other.popped@
        &&& self.rcv_queue@ == other.rcv_queue@
        &&& self.rcv_nxt == other.rcv_nxt
        &&& self.irs == other.irs
        &&& self.fin_seen == other.fin_seen
    }

    /// Opens a connection actively: a fresh control block in SynSent and
    /// the SYN frame to send, carrying our window and segment-size options.
    pub fn connect_cb(
        cfg: TcpConfig,
        local: Endpoint,
        remote: Endpoint,
        local_mac: u64,
        remote_mac: u64,
    ) -> (r: (ControlBlock, Frame))
        requires
            cfg.wf(),
        ensures
            r.0.wf(),
            r.0.state is SynSent,
            r.0.cfg == cfg,
            r.0.local == local,
            r.0.remote == remote,
            r.0.local_mac == local_mac,
            r.0.remote_mac == remote_mac,
            r.0.pushed@.len() == 0,
            r.0.popped@.len() == 0,
            r.1.syn && !r.1.ack && !r.1.fin && !r.1.rst,
            r.1.seq.val == 0,
            r.1.src == local && r.1.dst == remote,
            r.1.payload@.len() == 0,
    {
        let cb = ControlBlock {
            state: TcpState::SynSent,
            local,
            remote,
            local_mac,
            remote_mac,
            iss: SeqNumber { val: 0 },
            irs: SeqNumber { val: 0 },
            snd_una: SeqNumber { val: 0 },
            snd_nxt: SeqNumber { val: 1 },
            snd_wnd: 1,
            snd_scale: 0,
            rcv_nxt: SeqNumber { val: 0 },
            cwnd: cfg.mss,
            ssthresh: 0x4000_0000,
            dup_acks: 0,
            rtq: Vec::new(),
            unsent: Vec::new(),
            rcv_queue: Vec::new(),
            rcv_buffered: 0,
            fin_seen: false,
            fin_sent: false,
            fin_acked: false,
            fin_pending: false,
            rtt_seq: 0,
            rtt_time: 0,
            rtt_valid: false,
            rto: RtoCalculator::new(cfg.min_rto, cfg.max_rto),
            rto_expiry: None,
            ack_deadline: None,
            time_wait_until: 0,
            cfg,
            pushed: Ghost(Seq::empty()),
            popped: Ghost(Seq::empty()),
        };
        let syn = Frame {
            eth_src: local_mac,
            eth_dst: remote_mac,
            src: local,
            dst: remote,
            seq: SeqNumber { val: 0 },
            ack_num: SeqNumber { val: 0 },
            syn: true,
            ack: false,
            fin: false,
            rst: false,
            wnd: (if cfg.rcv_wnd > 0xFFFF {
                0xFFFF
            } else {
                cfg.rcv_wnd
            }),
            mss: cfg.mss,
            wnd_scale: cfg.wnd_scale,
            udp: false,
            payload: Vec::new(),
        };
        proof {
            assert(cb.pushed@.subrange(0, 0) =~= flatten_bytes(cb.rtq@));
            assert(cb.unsent@ =~= cb.pushed@.skip(0));
        }
        (cb, syn)
    }

    /// Opens a connection passively in answer to a peer's SYN: a fresh
    /// control block in SynReceived and the SYN-ACK to send.
    pub fn accept_cb(
        cfg: TcpConfig,
        local: Endpoint,
        remote: Endpoint,
        local_mac: u64,
        remote_mac: u64,
        syn_seq: SeqNumber,
        peer_wnd: u32,
        peer_scale: u8,
    ) -> (r: (ControlBlock, Frame))
        requires
            cfg.wf(),
            syn_seq.val <= 0xF000_0000,
        ensures
            r.0.wf(),
            r.0.state is SynReceived,
            r.0.cfg == cfg,
            r.0.local == local,
            r.0.remote == remote,
            r.0.irs == syn_seq,
            r.0.rcv_nxt.val == syn_seq.val + 1,
            r.0.pushed@.len() == 0,
            r.0.popped@.len() == 0,
            r.1.syn && r.1.ack && !r.1.fin && !r.1.rst,
            r.1.seq.val == 0,
            r.1.ack_num.val == syn_seq.val + 1,
            r.1.src == local && r.1.dst == remote,
            r.1.payload@.len() == 0,
    {
        let snd_wnd: u32 = if peer_wnd == 0 {
            1
        } else {
            peer_wnd
        };
        let snd_scale: u8 = if peer_scale > 14 {
            14
        } else {
            peer_scale
        };
        let syn_wnd: u32 = if cfg.rcv_wnd > 0xFFFF {
            0xFFFF
        } else {
            cfg.rcv_wnd
        };
        let cb = ControlBlock {
            state: TcpState::SynReceived,
            local,
            remote,
            local_mac,
            remote_mac,
            iss: SeqNumber { val: 0 },
            irs: syn_seq,
            snd_una: SeqNumber { val: 0 },
            snd_nxt: SeqNumber { val: 1 },
            snd_wnd,
            snd_scale,
            rcv_nxt: SeqNumber { val: syn_seq.val + 1 },
            cwnd: cfg.mss,
            ssthresh: 0x4000_0000,
            dup_acks: 0,
            rtq: Vec::new(),
            unsent: Vec::new(),
            rcv_queue: Vec::new(),
            rcv_buffered: 0,
            fin_seen: false,
            fin_sent: false,
            fin_acked: false,
            fin_pending: false,
            rtt_seq: 0,
            rtt_time: 0,
            rtt_valid: false,
            rto: RtoCalculator::new(cfg.min_rto, cfg.max_rto),
            rto_expiry: None,
            ack_deadline: None,
            time_wait_until: 0,
            cfg,
            pushed: Ghost(Seq::empty()),
            popped: Ghost(Seq::empty()),
        };
        let syn_ack = Frame {
            eth_src: local_mac,
            eth_dst: remote_mac,
            src: local,
            dst: remote,
            seq: SeqNumber { val: 0 },
            ack_num: SeqNumber { val: syn_seq.val + 1 },
            syn: true,
            ack: true,
            fin: false,
            rst: false,
            wnd: syn_wnd,
            mss: cfg.mss,
            wnd_scale: cfg.wnd_scale,
            udp: false,
            payload: Vec::new(),
        };
        proof {
            assert(cb.pushed@.subrange(0, 0) =~= flatten_bytes(cb.rtq@));
            assert(cb.unsent@ =~= cb.pushed@.skip(0));
        }
        (cb, syn_ack)
    }

    /// Our advertised receive window: the configured window minus what is
    /// buffered and not yet popped.
    pub fn advertised_wnd(&self) -> (r: u32)
        requires
            self.wf(),
        ensures
            r == self.cfg.rcv_wnd - bytes_of(self.rcv_queue@),
    {
        self.cfg.rcv_wnd - self.rcv_buffered
    }

    /// Builds an outgoing frame with our addresses and a piggybacked
    /// acknowledgment of everything received.
    fn mk_frame(&self, seq: SeqNumber, fin: bool, payload: Vec<u8>) -> (r: Frame)
        requires
            self.wf(),
        ensures
            r.eth_src == self.local_mac,
            r.eth_dst == self.remote_mac,
            r.src == self.local,
            r.dst == self.remote,
            r.seq == seq,
            r.ack,
            r.ack_num == self.rcv_nxt,
            !r.syn,
            !r.rst,
            r.fin == fin,
            !r.udp,
            r.payload == payload,
            r.wnd == self.wire_wnd(),
            r.wnd <= 0xFFFF,
    {
        let adv = self.advertised_wnd();
        let shifted = adv >> (self.cfg.wnd_scale as u32);
        let wire = if shifted > 0xFFFF {
            0xFFFF
        } else {
            shifted
        };
        Frame {
            eth_src: self.local_mac,
            eth_dst: self.remote_mac,
            src: self.local,
            dst: self.remote,
            seq,
            ack_num: self.rcv_nxt,
            syn: false,
            ack: true,
            fin,
            rst: false,
            wnd: wire,
            mss: self.cfg.mss,
            wnd_scale: self.cfg.wnd_scale,
            udp: false,
            payload,
        }
    }

    /// Emits every segment that fits in both the congestion window and the
    /// peer's advertised window, then the pending FIN once the send queue
    /// has drained. Each emitted segment joins the retransmission queue;
    /// the retransmission timer is armed if it was idle; a piggybacked
    /// acknowledgment rides on every frame, so a separately owed pure ACK
    /// is dropped.
    #[verifier::rlimit(60)]
    pub fn emit_ready(&mut self, now: u64) -> (out: Vec<Frame>)
        requires
            old(self).wf(),
            !(old(self).state is SynSent),
            !(old(self).state is SynReceived),
            now <= 0x4000_0000_0000_0000,
        ensures
            final(self).wf(),
            final(self).same_identity(*old(self)),
            final(self).same_receive_side(*old(self)),
            final(self).state == old(self).state,
            final(self).pushed@ == old(self).pushed@,
            final(self).snd_wnd == old(self).snd_wnd,
            final(self).cwnd == old(self).cwnd,
            final(self).acked_len() == old(self).acked_len(),
            final(self).fin_seen == old(self).fin_seen,
            final(self).fin_pending == old(self).fin_pending,
            forall|i: int|
                0 <= i < out@.len() ==> final(self).frame_out_ok(#[trigger] out@[i]),
            // The send path is maximal: it stops only out of bytes or out
            // of window.
            final(self).unsent@.len() == 0 || final(self).inflight() + final(self).cfg.mss
                > min_spec(final(self).cwnd as int, final(self).snd_wnd as int),
    {
        let mut out: Vec<Frame> = Vec::new();
        loop
            invariant
                self.wf(),
                !(self.state is SynSent),
                !(self.state is SynReceived),
                now <= 0x4000_0000_0000_0000,
                self.same_identity(*old(self)),
                self.same_receive_side(*old(self)),
                self.state == old(self).state,
                self.pushed@ == old(self).pushed@,
                self.snd_wnd == old(self).snd_wnd,
                self.cwnd == old(self).cwnd,
                self.acked_len() == old(self).acked_len(),
                self.fin_pending == old(self).fin_pending,
                forall|i: int| 0 <= i < out@.len() ==> self.frame_out_ok(#[trigger] out@[i]),
            decreases self.unsent@.len() + 1 - (if self.fin_sent {
                1int
            } else {
                0int
            }),
        {
            let infl: u32 = self.snd_nxt.val - self.snd_una.val;
            let wnd_cap: u32 = if self.cwnd < self.snd_wnd {
                self.cwnd
            } else {
                self.snd_wnd
            };
            if infl >= wnd_cap {
                return out;
            }
            let budget: u32 = wnd_cap - infl;
            let mut seg: usize = self.unsent.len();
            if (self.cfg.mss as usize) < seg {
                seg = self.cfg.mss as usize;
            }
            if (budget as usize) < seg {
                seg = budget as usize;
            }
            if seg == 0 {
                // Out of bytes. Send the FIN if one is owed and fits.
                if self.fin_pending && !self.fin_sent && self.unsent.len() == 0 {
                    let seq = self.snd_nxt;
                    self.fin_sent = true;
                    self.snd_nxt = SeqNumber { val: self.snd_nxt.val + 1 };
                    if self.rto_expiry.is_none() {
                        self.rto_expiry = Some(now + self.rto.current());
                    }
                    self.ack_deadline = None;
                    let f = self.mk_frame(seq, true, Vec::new());
                    proof {
                        assert(self.frame_out_ok(f));
                    }
                    out.push(f);
                }
                return out;
            }
            // Carve one segment off the front of the unsent queue.
            let ghost pre = *self;
            let chunk = split_front(&mut self.unsent, seg);
            let payload = copy_vec(&chunk);
            let seq = self.snd_nxt;
            self.rtq.push(chunk);
            self.snd_nxt = SeqNumber { val: self.snd_nxt.val + seg as u32 };
            if self.rto_expiry.is_none() {
                self.rto_expiry = Some(now + self.rto.current());
            }
            if !self.rtt_valid {
                self.rtt_valid = true;
                self.rtt_seq = self.snd_nxt.val;
                self.rtt_time = now;
            }
            self.ack_deadline = None;
            proof {
                lemma_bytes_push(pre.rtq@, self.rtq@[self.rtq@.len() - 1]);
                let a = pre.acked_len();
                let b = bytes_of(pre.rtq@) as int;
                assert(pre.unsent@.take(seg as int) =~= pre.pushed@.subrange(a + b, a + b + seg));
                assert(flatten_bytes(self.rtq@) =~= pre.pushed@.subrange(a, a + b + seg));
                assert(self.unsent@ =~= pre.pushed@.skip(a + b + seg));
            }
            let f = self.mk_frame(seq, false, payload);
            proof {
                assert(f.payload@ =~= self.pushed@.subrange(
                    f.seq.val - self.snd_base(),
                    f.seq.val - self.snd_base() + f.payload@.len(),
                ));
                assert(self.frame_out_ok(f));
            }
            out.push(f);
        }
    }

    /// Accepts bytes from the user: they join the pushed stream and as much
    /// as the windows allow leaves immediately as segments.
    pub fn app_push(&mut self, data: Vec<u8>, now: u64) -> (out: Vec<Frame>)
        requires
            old(self).wf(),
            old(self).state is Established || old(self).state is CloseWait,
            data@.len() > 0,
            old(self).pushed@.len() + data@.len() <= 0xFFFF_F000,
            now <= 0x4000_0000_0000_0000,
        ensures
            final(self).wf(),
            final(self).same_identity(*old(self)),
            final(self).same_receive_side(*old(self)),
            final(self).state == old(self).state,
            final(self).pushed@ == old(self).pushed@ + data@,
            forall|i: int|
                0 <= i < out@.len() ==> final(self).frame_out_ok(#[trigger] out@[i]),
            final(self).unsent@.len() == 0 || final(self).inflight() + final(self).cfg.mss
                > min_spec(final(self).cwnd as int, final(self).snd_wnd as int),
    {
        let ghost pre = *self;
        let mut data = data;
        proof {
            self.pushed@ = pre.pushed@ + data@;
        }
        self.unsent.append(&mut data);
        proof {
            let a = pre.acked_len();
            let b = bytes_of(pre.rtq@) as int;
            assert(flatten_bytes(self.rtq@) =~= self.pushed@.subrange(a, a + b));
            assert(self.unsent@ =~= self.pushed@.skip(a + b));
        }
        self.emit_ready(now)
    }

    /// Hands the user the oldest received payload. With nothing buffered,
    /// a consumed peer FIN yields an empty buffer as the end-of-stream
    /// marker; otherwise the caller must wait.
    pub fn app_pop(&mut self) -> (r: Option<Vec<u8>>)
        requires
            old(self).wf(),
        ensures
            final(self).wf(),
            final(self).same_identity(*old(self)),
            final(self).state == old(self).state,
            final(self).pushed@ == old(self).pushed@,
            final(self).delivered() == old(self).delivered(),
            final(self).rcv_nxt == old(self).rcv_nxt,
            final(self).fin_seen == old(self).fin_seen,
            old(self).rcv_queue@.len() > 0 ==> ({
                &&& r matches Some(v)
                &&& v@.len() > 0
                &&& v@ == old(self).delivered().subrange(
                    old(self).popped@.len() as int,
                    old(self).popped@.len() + v@.len() as int,
                )
                &&& final(self).popped@ == old(self).popped@ + v@
            }),
            old(self).rcv_queue@.len() == 0 && old(self).fin_seen ==> (r matches Some(v)
                && v@.len() == 0 && final(self).popped@ == old(self).popped@),
            old(self).rcv_queue@.len() == 0 && !old(self).fin_seen ==> r is None
                && final(self).popped@ == old(self).popped@,
    {
        if self.rcv_queue.len() > 0 {
            let ghost pre = *self;
            let v = self.rcv_queue.remove(0);
            self.rcv_buffered = self.rcv_buffered - v.len() as u32;
            proof {
                self.popped@ = pre.popped@ + v@;
                assert(self.rcv_queue@ =~= pre.rcv_queue@.drop_first());
                assert(flatten_bytes(pre.rcv_queue@) == v@ + flatten_bytes(self.rcv_queue@));
                lemma_flatten_len(pre.rcv_queue@);
                lemma_flatten_len(self.rcv_queue@);
                assert(self.delivered() =~= pre.delivered());
                assert(v@ =~= pre.delivered().subrange(
                    pre.popped@.len() as int,
                    pre.popped@.len() + v@.len() as int,
                ));
            }
            Some(v)
        } else if self.fin_seen {
            Some(Vec::new())
        } else {
            None
        }
    }

    /// Begins an orderly close: the FIN is queued behind all pending send
    /// bytes and the state advances. Closing a connection that is not in a
    /// data-bearing state is rejected with `EINVAL`.
    pub fn app_close(&mut self, now: u64) -> (r: Result<Vec<Frame>, crate::fail::Fail>)
        requires
            old(self).wf(),
            now <= 0x4000_0000_0000_0000,
        ensures
            final(self).wf(),
            final(self).same_identity(*old(self)),
            final(self).pushed@ == old(self).pushed@,
            old(self).state is Established ==> (r is Ok && final(self).state is FinWait1
                && final(self).fin_pending),
            old(self).state is CloseWait ==> (r is Ok && final(self).state is LastAck
                && final(self).fin_pending),
            !(old(self).state is Established) && !(old(self).state is CloseWait) ==> (
            r matches Err(f) && f.errno == crate::fail::EINVAL && *final(self) == *old(self)),
            r matches Ok(out) ==> forall|i: int|
                0 <= i < out@.len() ==> final(self).frame_out_ok(#[trigger] out@[i]),
    {
        match self.state {
            TcpState::Established => {
                self.state = TcpState::FinWait1;
                self.fin_pending = true;
                Ok(self.emit_ready(now))
            },
            TcpState::CloseWait => {
                self.state = TcpState::LastAck;
                self.fin_pending = true;
                Ok(self.emit_ready(now))
            },
            _ => Err(crate::fail::Fail::new(crate::fail::EINVAL)),
        }
    }
}

/// A state whose timers `on_tick` drives: neither closed, lingering in
/// TimeWait, nor inside the handshake.
pub open spec fn tick_active(cb: ControlBlock) -> bool {
    &&& !(cb.state is Closed)
    &&& !(cb.state is TimeWait)
    &&& !(cb.state is SynSent)
    &&& !(cb.state is SynReceived)
}

/// The frame delivers the next expected bytes: a non-empty payload at
/// exactly `rcv_nxt`, fitting the receive window and the sequence space,
/// on a connection that accepts data and has not consumed a FIN.
pub open spec fn in_order_data(cb: ControlBlock, f: Frame) -> bool {
    &&& cb.spec_data_state()
    &&& !cb.fin_seen
    &&& !f.rst
    &&& !f.udp
    &&& f.payload@.len() > 0
    &&& f.payload@.len() < 0x4000_0000
    &&& f.seq.val == cb.rcv_nxt.val
    &&& bytes_of(cb.rcv_queue@) + f.payload@.len() <= cb.cfg.rcv_wnd
    &&& cb.rcv_nxt.val + f.payload@.len() < 0xFFFF_FFFF
}

/// The frame is a bare in-order FIN on a connection that accepts data.
pub open spec fn in_order_fin(cb: ControlBlock, f: Frame) -> bool {
    &&& cb.spec_data_state()
    &&& !cb.fin_seen
    &&& !f.rst
    &&& !f.udp
    &&& f.fin
    &&& f.payload@.len() == 0
    &&& f.seq.val == cb.rcv_nxt.val
    &&& cb.rcv_nxt.val < 0xFFFF_FFFF
}

/// The smaller of two mathematical integers.
pub open spec fn min_spec(a: int, b: int) -> int {
    if a < b {
        a
    } else {
        b
    }
}

/// The larger of two mathematical integers.
pub open spec fn max_spec(a: int, b: int) -> int {
    if a > b {
        a
    } else {
        b
    }
}

/// TimeWait linger: twice the maximum segment lifetime of 120 s.
pub const TIME_WAIT_NS: u64 = 240_000_000_000;

/// Drops the first `n` bytes from a queue of segments, removing whole
/// segments and trimming the front of a straddled one.
pub fn trim_segments(q: &mut Vec<Vec<u8>>, n: usize)
    requires
        n <= bytes_of(old(q)@),
    ensures
        bytes_of(final(q)@) == bytes_of(old(q)@) - n,
        flatten_bytes(final(q)@) == flatten_bytes(old(q)@).skip(n as int),
        (forall|i: int| 0 <= i < old(q)@.len() ==> (#[trigger] old(q)@[i])@.len() > 0)
            ==> (forall|i: int| 0 <= i < final(q)@.len() ==> (#[trigger] final(q)@[i])@.len() > 0),
{
    let mut rem: usize = n;
    proof {
        lemma_flatten_len(old(q)@);
        assert(flatten_bytes(q@) =~= flatten_bytes(old(q)@).skip(0));
    }
    while rem > 0
        invariant
            rem <= n <= bytes_of(old(q)@),
            rem <= bytes_of(q@),
            (forall|i: int| 0 <= i < old(q)@.len() ==> (#[trigger] old(q)@[i])@.len() > 0)
                ==> (forall|i: int| 0 <= i < q@.len() ==> (#[trigger] q@[i])@.len() > 0),
            flatten_bytes(q@) == flatten_bytes(old(q)@).skip((n - rem) as int),
            bytes_of(q@) == bytes_of(old(q)@) - (n - rem),
            flatten_bytes(old(q)@).len() == bytes_of(old(q)@),
        decreases q@.len() + rem,
    {
        proof {
            lemma_flatten_len(q@);
            if q@.len() == 0 {
                assert(false);
            }
        }
        let first_len = q[0].len();
        let ghost off0 = (n - rem) as int;
        if first_len <= rem {
            let ghost before = q@;
            let first = q.remove(0);
            rem = rem - first_len;
            proof {
                assert(q@ =~= before.drop_first());
                assert(flatten_bytes(before) == first@ + flatten_bytes(q@));
                assert(flatten_bytes(q@) =~= flatten_bytes(before).skip(first@.len() as int));
                assert(flatten_bytes(before) == flatten_bytes(old(q)@).skip(off0));
                vstd::seq_lib::lemma_seq_skip_of_skip(
                    flatten_bytes(old(q)@),
                    off0,
                    first@.len() as int,
                );
                lemma_flatten_len(q@);
                lemma_flatten_len(before);
                assert(flatten_bytes(q@) == flatten_bytes(old(q)@).skip(off0 + first@.len()));
                assert(off0 + first@.len() == n - rem);
            }
        } else {
            let ghost before = q@;
            let mut first = q.remove(0);
            proof {
                assert(q@ =~= before.drop_first());
                assert(flatten_bytes(before) == first@ + flatten_bytes(q@));
            }
            let ghost whole = first@;
            let _dropped = split_front(&mut first, rem);
            let ghost mid = q@;
            q.insert(0, first);
            proof {
                assert(q@[0] == first);
                assert(q@.drop_first() =~= mid);
                assert(q@.len() > 0);
                assert(flatten_bytes(q@) == first@ + flatten_bytes(mid));
                assert(first@ =~= whole.skip(rem as int));
                assert(flatten_bytes(q@) =~= flatten_bytes(before).skip(rem as int));
                assert(flatten_bytes(before) == flatten_bytes(old(q)@).skip(off0));
                vstd::seq_lib::lemma_seq_skip_of_skip(flatten_bytes(old(q)@), off0, rem as int);
                lemma_flatten_len(q@);
                lemma_flatten_len(before);
                assert(flatten_bytes(q@) == flatten_bytes(old(q)@).skip(off0 + rem));
                assert(off0 + rem == n);
            }
            rem = 0;
        }
    }
}

/// The peer's advertised window, scaled up by the factor it negotiated
/// and capped so the arithmetic stays in range.
pub fn scaled_wnd(wnd: u32, scale: u8) -> (r: u32)
    requires
        scale <= 14,
    ensures
        r == min_spec(((wnd as u64) << (scale as u64)) as int, 0x4000_0000),
{
    let wide: u64 = (wnd as u64) << (scale as u64);
    proof {
        assert((wnd as u64) << (scale as u64) <= 0x4_0000_0000_0000u64) by (bit_vector)
            requires scale <= 14u8;
    }
    if wide > 0x4000_0000 {
        0x4000_0000
    } else {
        wide as u32
    }
}

/// Multiplicative decrease on a retransmission timeout: the threshold
/// drops to half the congestion window but no lower than two segments, and
/// the window restarts at one segment.
pub fn cc_on_timeout(cwnd: u32, mss: u32) -> (r: (u32, u32))
    requires
        1 <= cwnd <= 0x4000_0000,
        1 <= mss <= 0x10000,
    ensures
        r.0 == max_spec(cwnd as int / 2, 2 * mss),
        r.1 == mss,
        r.0 <= 0x4000_0000,
{
    let half = cwnd / 2;
    let floor = 2 * mss;
    let ssthresh = if half > floor {
        half
    } else {
        floor
    };
    (ssthresh, mss)
}

/// Fast-retransmit adjustment on the third duplicate ACK: the threshold
/// drops to half the congestion window but no lower than two segments, and
/// the window restarts there inflated by the three segments known to have
/// left the network.
pub fn cc_on_fast_retransmit(cwnd: u32, mss: u32) -> (r: (u32, u32))
    requires
        1 <= cwnd <= 0x4000_0000,
        1 <= mss <= 0x10000,
    ensures
        r.0 == max_spec(cwnd as int / 2, 2 * mss),
        r.1 == min_spec(r.0 + 3 * mss, 0x4000_0000),
        1 <= r.1 <= 0x4000_0000,
        r.0 <= 0x4000_0000,
{
    let half = cwnd / 2;
    let floor = 2 * mss;
    let ssthresh = if half > floor {
        half
    } else {
        floor
    };
    let inflated: u64 = ssthresh as u64 + 3 * mss as u64;
    let cwnd2: u32 = if inflated > 0x4000_0000 {
        0x4000_0000
    } else {
        inflated as u32
    };
    (ssthresh, cwnd2)
}

/// Congestion-window growth on an acknowledgment of new data: slow start
/// below the threshold (one segment per ACK), congestion avoidance above
/// it (about one segment per round trip), capped at 1 GiB.
pub fn cc_on_ack(cwnd: u32, ssthresh: u32, mss: u32) -> (r: u32)
    requires
        1 <= cwnd <= 0x4000_0000,
        1 <= mss <= 0x10000,
    ensures
        1 <= r <= 0x4000_0000,
        cwnd < ssthresh ==> r == min_spec(cwnd + mss, 0x4000_0000),
        cwnd >= ssthresh ==> r == min_spec(
            cwnd + max_spec(1, (mss * mss) as int / cwnd as int),
            0x4000_0000,
        ),
{
    let grown: u64 = if cwnd < ssthresh {
        cwnd as u64 + mss as u64
    } else {
        proof {
            assert(mss as u64 * mss as u64 <= 0x1_0000_0000u64) by (nonlinear_arith)
                requires mss <= 0x10000;
            assert((mss as u64 * mss as u64) as int / (cwnd as u64) as int <= (mss as u64
                * mss as u64) as int) by (nonlinear_arith)
                requires cwnd >= 1;
        }
        let incr: u64 = (mss as u64 * mss as u64) / (cwnd as u64);
        let incr: u64 = if incr < 1 {
            1
        } else {
            incr
        };
        cwnd as u64 + incr
    };
    if grown > 0x4000_0000 {
        0x4000_0000
    } else {
        grown as u32
    }
}

/// Copies a byte vector.
pub fn copy_vec(src: &Vec<u8>) -> (r: Vec<u8>)
    ensures
        r@ == src@,
{
    let mut out: Vec<u8> = Vec::new();
    let mut i: usize = 0;
    while i < src.len()
        invariant
            i <= src@.len(),
            out@ == src@.take(i as int),
        decreases src@.len() - i,
    {
        out.push(src[i]);
        proof {
            assert(out@ =~= src@.take((i + 1) as int));
        }
        i = i + 1;
    }
    proof {
        assert(out@ =~= src@);
    }
    out
}

/// Splits the first `n` bytes off a vector: returns them, leaving the rest.
pub fn split_front(v: &mut Vec<u8>, n: usize) -> (r: Vec<u8>)
    requires
        n <= old(v)@.len(),
    ensures
        r@ == old(v)@.take(n as int),
        final(v)@ == old(v)@.skip(n as int),
{
    let mut front: Vec<u8> = Vec::new();
    let mut rest: Vec<u8> = Vec::new();
    let mut i: usize = 0;
    while i < n
        invariant
            n <= v@.len(),
            v@ == old(v)@,
            i <= n,
            front@ == v@.take(i as int),
        decreases n - i,
    {
        front.push(v[i]);
        proof {
            assert(front@ =~= v@.take((i + 1) as int));
        }
        i = i + 1;
    }
    let len = v.len();
    while i < len
        invariant
            n <= i <= len,
            len == v@.len(),
            v@ == old(v)@,
            rest@ == v@.subrange(n as int, i as int),
        decreases len - i,
    {
        rest.push(v[i]);
        proof {
            assert(rest@ =~= v@.subrange(n as int, (i + 1) as int));
        }
        i = i + 1;
    }
    proof {
        assert(rest@ =~= old(v)@.skip(n as int));
    }
    *v = rest;
    front
}

impl ControlBlock {
    /// Folds an acknowledgment into the send side: stale and future
    /// acknowledgments are ignored; a duplicate counts toward fast
    /// retransmit; new ones release the acknowledged prefix of the
    /// retransmission queue, grow the congestion window, feed the
    /// round-trip filter, restart the retransmission timer and update the
    /// peer's window. Acknowledgment of our FIN advances the closing
    /// states.
    #[verifier::rlimit(100)]
    fn process_ack(&mut self, ack_val: u32, wnd: u32, now: u64) -> (r: Option<Frame>)
        requires
            old(self).wf(),
            !(old(self).state is SynSent),
            !(old(self).state is SynReceived),
            now <= 0x4000_0000_0000_0000,
        ensures
            final(self).wf(),
            final(self).same_identity(*old(self)),
            final(self).same_receive_side(*old(self)),
            final(self).pushed@ == old(self).pushed@,
            final(self).unsent@ == old(self).unsent@,
            final(self).fin_pending == old(self).fin_pending,
            final(self).fin_sent == old(self).fin_sent,
            final(self).acked_len() >= old(self).acked_len(),
            !(final(self).state is SynSent) && !(final(self).state is SynReceived),
            old(self).state is FinWait1 ==> (final(self).state is FinWait1 || final(self).state is FinWait2),
            old(self).state is Closing ==> (final(self).state is Closing || final(self).state is TimeWait),
            old(self).state is LastAck ==> (final(self).state is LastAck || final(self).state is Closed),
            !(old(self).state is FinWait1) && !(old(self).state is Closing) && !(old(self).state is LastAck) ==> final(self).state == old(self).state,
            r matches Some(f) ==> final(self).frame_out_ok(f),
    {
        let una = self.snd_una.val;
        let nxt = self.snd_nxt.val;
        if ack_val < una || ack_val > nxt {
            // Stale or future acknowledgment: ignore it entirely.
            return None;
        }
        if ack_val == una {
            // Duplicate. Three in a row for the same `snd_una` trigger a
            // fast retransmit of the segment at `snd_una`.
            if self.rtq.len() > 0 {
                if self.dup_acks < 3 {
                    self.dup_acks = self.dup_acks + 1;
                }
                if self.dup_acks == 3 {
                    let payload = copy_vec(&self.rtq[0]);
                    let frame = self.mk_frame(self.snd_una, false, payload);
                    let (ssthresh, cwnd) = cc_on_fast_retransmit(self.cwnd, self.cfg.mss);
                    self.ssthresh = ssthresh;
                    self.cwnd = cwnd;
                    self.rtt_valid = false;
                    proof {
                        let q = self.rtq@;
                        let a = self.acked_len();
                        let b = bytes_of(q) as int;
                        assert(q[0]@.len() > 0);
                        assert(flatten_bytes(q) == q[0]@ + flatten_bytes(q.drop_first()));
                        assert(q[0]@ =~= flatten_bytes(q).take(q[0]@.len() as int));
                        lemma_flatten_len(q);
                        assert(!self.fin_acked);
                        assert(frame.seq.val - self.snd_base() == a);
                        assert(q[0]@ =~= self.pushed@.subrange(a, a + q[0]@.len()));
                        assert(frame.payload@ =~= self.pushed@.subrange(
                            frame.seq.val - self.snd_base(),
                            frame.seq.val - self.snd_base() + frame.payload@.len(),
                        ));
                    }
                    return Some(frame);
                }
            }
            return None;
        }
        // New data (and possibly our FIN) is acknowledged.
        let adv = ack_val - una;
        let fin_here = self.fin_sent && !self.fin_acked && ack_val == nxt;
        let data_adv: u32 = if fin_here {
            adv - 1
        } else {
            adv
        };
        let ghost pre = *self;
        proof {
            lemma_flatten_len(self.rtq@);
        }
        trim_segments(&mut self.rtq, data_adv as usize);
        self.snd_una = SeqNumber { val: ack_val };
        if fin_here {
            self.fin_acked = true;
        }
        self.dup_acks = 0;
        self.cwnd = cc_on_ack(self.cwnd, self.ssthresh, self.cfg.mss);
        if self.rtt_valid && ack_val >= self.rtt_seq && now >= self.rtt_time {
            let sample = now - self.rtt_time;
            self.rto.add_sample(sample);
            self.rtt_valid = false;
        }
        if self.rtq.len() == 0 && !(self.fin_sent && !self.fin_acked) {
            self.rto_expiry = None;
        } else {
            self.rto_expiry = Some(now + self.rto.current());
        }
        // The peer's window, scaled up by its negotiated factor and never
        // shrunk below what is already in flight so the in-flight bytes
        // stay within it.
        let effective = scaled_wnd(wnd, self.snd_scale);
        let infl = self.snd_nxt.val - self.snd_una.val;
        self.snd_wnd = if effective > infl {
            effective
        } else {
            infl
        };
        if fin_here {
            match self.state {
                TcpState::FinWait1 => {
                    self.state = TcpState::FinWait2;
                },
                TcpState::Closing => {
                    self.state = TcpState::TimeWait;
                    self.time_wait_until = now + TIME_WAIT_NS;
                },
                TcpState::LastAck => {
                    self.state = TcpState::Closed;
                    self.ack_deadline = None;
                },
                _ => {},
            }
        }
        proof {
            let a0 = pre.acked_len();
            let b0 = bytes_of(pre.rtq@) as int;
            let d = data_adv as int;
            assert(flatten_bytes(self.rtq@) == flatten_bytes(pre.rtq@).skip(d));
            assert(flatten_bytes(pre.rtq@).skip(d) =~= pre.pushed@.subrange(a0 + d, a0 + b0));
            assert(self.acked_len() == a0 + d);
            assert(self.unsent@ =~= self.pushed@.skip(self.acked_len() + bytes_of(self.rtq@)));
        }
        None
    }

    /// Consumes one incoming frame, in any state. An RST forces Closed. In
    /// the handshake states the SYN-ACK and the final ACK complete the
    /// handshake. Established and later: the acknowledgment is processed;
    /// an in-order payload that fits the receive window is appended to the
    /// receive queue (a delayed pure ACK becomes due); anything else only
    /// provokes an immediate acknowledgment of our current `rcv_nxt`. An
    /// in-order FIN is consumed, acknowledged at once, and advances the
    /// closing states. Whatever the window update made sendable leaves
    /// before the call returns. A closed connection emits nothing.
    #[verifier::rlimit(100)]
    pub fn on_frame(&mut self, f: &Frame, now: u64) -> (out: Vec<Frame>)
        requires
            old(self).wf(),
            now <= 0x4000_0000_0000_0000,
        ensures
            final(self).wf(),
            final(self).same_identity(*old(self)),
            final(self).popped@ == old(self).popped@,
            old(self).delivered().is_prefix_of(final(self).delivered()),
            old(self).state is Closed ==> out@.len() == 0 && *final(self) == *old(self),
            forall|i: int|
                0 <= i < out@.len() ==> final(self).frame_sent_ok(#[trigger] out@[i]),
            // Receiving frames cut from the peer's pushed stream keeps the
            // delivered bytes an exact prefix of that stream.
            forall|s: Seq<u8>|
                !(old(self).state is SynSent) && !(old(self).state is SynReceived) && old(self).tracks(s) && #[trigger] ControlBlock::frame_from_stream(*f, s, old(self).rcv_base()) ==> final(self).tracks(s) && final(self).rcv_base() == old(self).rcv_base(),
            // Progress: an in-order payload that fits is delivered, an
            // in-order bare FIN is consumed and acknowledged at once.
            in_order_data(*old(self), *f) ==> (final(self).delivered() == old(self).delivered()
                + f.payload@ && final(self).rcv_nxt.val >= old(self).rcv_nxt.val + f.payload@.len()
                && (f.fin ==> final(self).fin_seen)),
            in_order_fin(*old(self), *f) ==> (final(self).fin_seen && final(self).rcv_nxt.val
                == old(self).rcv_nxt.val + 1 && exists|k: int|
                0 <= k < out@.len() && (#[trigger] out@[k]).is_pure_ack() && out@[k].ack_num
                    == final(self).rcv_nxt),
            // Handshake completions: a valid SYN-ACK answers SynSent and is
            // acknowledged; the valid ACK answers SynReceived.
            old(self).state is SynSent && !f.udp && !f.rst && f.syn && f.ack && f.ack_num.val
                == old(self).snd_nxt.val && f.seq.val <= 0xF000_0000 ==> (final(self).state is Established && final(self).irs == f.seq && exists|k: int|
                0 <= k < out@.len() && (#[trigger] out@[k]).is_pure_ack() && out@[k].ack_num.val
                    == f.seq.val + 1),
            old(self).state is SynReceived && !f.udp && !f.rst && !f.syn && f.ack && f.ack_num.val
                == old(self).snd_nxt.val ==> final(self).state is Established,
    {
        if f.udp {
            // A datagram cannot belong to a TCP connection.
            return Vec::new();
        }
        if f.rst {
            // Connection reset: everything pending is abandoned.
            match self.state {
                TcpState::Closed => {
                    return Vec::new();
                },
                TcpState::SynSent => {
                    // Neither direction ever moved; make the counters agree
                    // before the state leaves SynSent.
                    self.rcv_nxt = SeqNumber { val: self.irs.val + 1 };
                    self.snd_una = SeqNumber { val: 1 };
                    self.snd_nxt = SeqNumber { val: 1 };
                },
                TcpState::SynReceived => {
                    self.snd_una = SeqNumber { val: 1 };
                    self.snd_nxt = SeqNumber { val: 1 };
                },
                _ => {},
            }
            self.state = TcpState::Closed;
            self.rto_expiry = None;
            self.ack_deadline = None;
            return Vec::new();
        }
        match self.state {
            TcpState::Closed => {
                return Vec::new();
            },
            TcpState::SynSent => {
                let mut out: Vec<Frame> = Vec::new();
                if f.syn && f.ack && f.ack_num.val == self.snd_nxt.val && f.seq.val
                    <= 0xF000_0000 {
                    // SYN-ACK: the handshake completes; acknowledge it.
                    self.irs = f.seq;
                    self.rcv_nxt = SeqNumber { val: f.seq.val + 1 };
                    self.snd_una = f.ack_num;
                    self.snd_wnd = if f.wnd > 0 {
                        f.wnd
                    } else {
                        1
                    };
                    self.snd_scale = if f.wnd_scale > 14 {
                        14
                    } else {
                        f.wnd_scale
                    };
                    self.state = TcpState::Established;
                    let ack = self.mk_frame(self.snd_nxt, false, Vec::new());
                    out.push(ack);
                    proof {
                        assert(out@[0].is_pure_ack());
                        assert(out@[0].ack_num.val == f.seq.val + 1);
                    }
                }
                return out;
            },
            TcpState::SynReceived => {
                if !f.syn && f.ack && f.ack_num.val == self.snd_nxt.val {
                    // ACK of our SYN-ACK: the handshake completes.
                    self.snd_una = f.ack_num;
                    let effective = scaled_wnd(f.wnd, self.snd_scale);
                    self.snd_wnd = if effective > 0 {
                        effective
                    } else {
                        1
                    };
                    self.state = TcpState::Established;
                }
                return Vec::new();
            },
            _ => {},
        }
        self.on_segment(f, now)
    }

    /// Segment processing for a connection past its handshake: the
    /// acknowledgment, the payload, the FIN, then whatever became sendable.
    #[verifier::rlimit(100)]
    fn on_segment(&mut self, f: &Frame, now: u64) -> (out: Vec<Frame>)
        requires
            old(self).wf(),
            !(old(self).state is SynSent),
            !(old(self).state is SynReceived),
            !(old(self).state is Closed),
            !f.rst,
            now <= 0x4000_0000_0000_0000,
        ensures
            final(self).wf(),
            final(self).same_identity(*old(self)),
            final(self).popped@ == old(self).popped@,
            old(self).delivered().is_prefix_of(final(self).delivered()),
            forall|i: int|
                0 <= i < out@.len() ==> final(self).frame_sent_ok(#[trigger] out@[i]),
            forall|s: Seq<u8>|
                old(self).tracks(s) && #[trigger] ControlBlock::frame_from_stream(*f, s, old(self).rcv_base()) ==> final(self).tracks(s) && final(self).rcv_base() == old(self).rcv_base(),
            // Progress: an in-order payload that fits the receive window
            // is delivered — the readable bytes extend by exactly it,
            // `rcv_nxt` advances past it, and a FIN riding on it is
            // consumed.
            in_order_data(*old(self), *f) ==> (final(self).delivered() == old(self).delivered()
                + f.payload@ && final(self).rcv_nxt.val >= old(self).rcv_nxt.val + f.payload@.len()
                && (f.fin ==> final(self).fin_seen)),
            // Progress: an in-order bare FIN is consumed and acknowledged
            // at once.
            in_order_fin(*old(self), *f) ==> (final(self).fin_seen && final(self).rcv_nxt.val
                == old(self).rcv_nxt.val + 1 && exists|k: int|
                0 <= k < out@.len() && (#[trigger] out@[k]).is_pure_ack() && out@[k].ack_num
                    == final(self).rcv_nxt),
    {
        let ghost entry = *self;
        let ghost mut fin_ack_idx: int = -1;
        let mut out: Vec<Frame> = Vec::new();
        if f.ack {
            match self.process_ack(f.ack_num.val, f.wnd, now) {
                Some(rt) => {
                    out.push(rt);
                },
                None => {},
            }
        }
        let ghost pre_data = *self;
        let plen = f.payload.len();
        let data_state = match self.state {
            TcpState::Established | TcpState::FinWait1 | TcpState::FinWait2 => true,
            _ => false,
        };
        if plen > 0 && data_state && !self.fin_seen {
            if plen < 0x4000_0000 && f.seq.val == self.rcv_nxt.val && self.rcv_buffered as u64
                + plen as u64 <= self.cfg.rcv_wnd as u64 && (self.rcv_nxt.val as u64) + (
            plen as u64) < 0xFFFF_FFFF {
                // In order and in window: accept and owe an ACK.
                let ghost pre = *self;
                let pl = copy_vec(&f.payload);
                self.rcv_queue.push(pl);
                self.rcv_buffered = self.rcv_buffered + plen as u32;
                self.rcv_nxt = SeqNumber { val: self.rcv_nxt.val + plen as u32 };
                if self.ack_deadline.is_none() {
                    self.ack_deadline = Some(now + self.cfg.ack_delay);
                }
                proof {
                    lemma_bytes_push(pre.rcv_queue@, self.rcv_queue@[self.rcv_queue@.len() - 1]);
                    assert(self.delivered() =~= pre.delivered() + f.payload@);
                    assert forall|s: Seq<u8>|
                        pre_data.tracks(s) && #[trigger] ControlBlock::frame_from_stream(
                            *f,
                            s,
                            pre_data.rcv_base(),
                        ) implies self.tracks(s) by {
                        let dl = pre_data.delivered().len() as int;
                        assert(f.seq.val - pre_data.rcv_base() == dl);
                        assert(f.payload@ == s.subrange(dl, dl + f.payload@.len()));
                        assert(pre_data.delivered() == s.take(dl));
                        assert(self.delivered() =~= s.take(dl + f.payload@.len()));
                    }
                }
            } else {
                // Out of order, duplicate, or no room: an immediate pure
                // ACK signals our position.
                let ack = self.mk_frame(self.snd_nxt, false, Vec::new());
                out.push(ack);
            }
        }
        if f.fin && !self.fin_seen && data_state {
            let fin_in_order: bool = plen < 0x4000_0000 && f.seq.val as u64 + plen as u64
                == self.rcv_nxt.val as u64 && self.rcv_nxt.val < 0xFFFF_FFFF;
            if fin_in_order {
                // In-order FIN: consume it and acknowledge immediately.
                self.fin_seen = true;
                self.rcv_nxt = SeqNumber { val: self.rcv_nxt.val + 1 };
                match self.state {
                    TcpState::Established => {
                        self.state = TcpState::CloseWait;
                    },
                    TcpState::FinWait1 => {
                        self.state = TcpState::Closing;
                    },
                    TcpState::FinWait2 => {
                        self.state = TcpState::TimeWait;
                        self.time_wait_until = now + TIME_WAIT_NS;
                    },
                    _ => {},
                }
                self.ack_deadline = None;
                let ack = self.mk_frame(self.snd_nxt, false, Vec::new());
                proof {
                    fin_ack_idx = out@.len() as int;
                }
                out.push(ack);
            } else {
                // An out-of-order FIN: signal our position at once.
                let ack = self.mk_frame(self.snd_nxt, false, Vec::new());
                out.push(ack);
            }
        }
        // An opened window or a now-unblocked FIN may allow more sending.
        let can_send = match self.state {
            TcpState::SynSent | TcpState::SynReceived | TcpState::Closed => false,
            _ => true,
        };
        if can_send {
            let mut more = self.emit_ready(now);
            out.append(&mut more);
        }
        proof {
            if in_order_fin(entry, *f) {
                assert(0 <= fin_ack_idx < out@.len());
                assert(out@[fin_ack_idx].is_pure_ack());
                assert(out@[fin_ack_idx].ack_num == self.rcv_nxt);
            }
        }
        out
    }

    /// Drives the connection's timers at instant `now`: the expired
    /// TimeWait linger releases the connection; an owed delayed ACK is
    /// emitted; an expired retransmission timeout resends the oldest
    /// unacknowledged segment (or the FIN), doubles the timeout up to its
    /// cap, and shrinks the congestion window. A closed connection emits
    /// nothing, and never will again.
    pub fn on_tick(&mut self, now: u64) -> (out: Vec<Frame>)
        requires
            old(self).wf(),
            now <= 0x4000_0000_0000_0000,
        ensures
            final(self).wf(),
            final(self).same_identity(*old(self)),
            final(self).same_receive_side(*old(self)),
            final(self).pushed@ == old(self).pushed@,
            final(self).delivered() == old(self).delivered(),
            final(self).acked_len() == old(self).acked_len(),
            old(self).state is Closed ==> out@.len() == 0 && *final(self) == *old(self),
            old(self).state is TimeWait ==> out@.len() == 0 && (now
                >= old(self).time_wait_until ==> final(self).state is Closed),
            forall|i: int|
                0 <= i < out@.len() ==> final(self).frame_out_ok(#[trigger] out@[i]),
            // Backoff on a fired retransmission timeout caps at the
            // configured maximum.
            final(self).rto.spec_rto() <= final(self).cfg.max_rto,
            // A fired retransmission timeout doubles the timeout up to its
            // cap, voids the running round-trip sample (Karn's rule), and
            // resends the oldest unacknowledged segment from `snd_una`.
            tick_active(*old(self)) && (old(self).rto_expiry matches Some(e) && now >= e) ==> ({
                &&& final(self).rto.spec_rto() == min_spec(
                    2 * old(self).rto.spec_rto(),
                    old(self).cfg.max_rto as int,
                )
                &&& !final(self).rtt_valid
                &&& old(self).rtq@.len() > 0 ==> exists|k: int|
                    0 <= k < out@.len() && (#[trigger] out@[k]).seq == old(self).snd_una
                        && out@[k].payload@ == old(self).rtq@[0]@
            }),
            // An owed delayed ACK falls due.
            tick_active(*old(self)) && (old(self).ack_deadline matches Some(d) && now >= d) ==> exists|k: int|
                0 <= k < out@.len() && (#[trigger] out@[k]).is_pure_ack() && out@[k].ack_num
                    == old(self).rcv_nxt,
    {
        match self.state {
            TcpState::Closed => {
                return Vec::new();
            },
            TcpState::TimeWait => {
                if now >= self.time_wait_until {
                    self.state = TcpState::Closed;
                    self.rto_expiry = None;
                    self.ack_deadline = None;
                }
                return Vec::new();
            },
            TcpState::SynSent | TcpState::SynReceived => {
                return Vec::new();
            },
            _ => {},
        }
        let mut out: Vec<Frame> = Vec::new();
        let ghost mut ack_idx: int = -1;
        let ghost mut rt_idx: int = -1;
        match self.ack_deadline {
            Some(d) => {
                if now >= d {
                    // Delayed pure ACK falls due.
                    let ack = self.mk_frame(self.snd_nxt, false, Vec::new());
                    proof {
                        ack_idx = out@.len() as int;
                    }
                    out.push(ack);
                    self.ack_deadline = None;
                }
            },
            None => {},
        }
        let expired = match self.rto_expiry {
            Some(e) => now >= e,
            None => false,
        };
        if expired {
            if self.rtq.len() > 0 {
                // Resend the oldest unacknowledged segment.
                let payload = copy_vec(&self.rtq[0]);
                let frame = self.mk_frame(self.snd_una, false, payload);
                proof {
                    let q = self.rtq@;
                    let a = self.acked_len();
                    assert(q[0]@.len() > 0);
                    assert(flatten_bytes(q) == q[0]@ + flatten_bytes(q.drop_first()));
                    assert(q[0]@ =~= flatten_bytes(q).take(q[0]@.len() as int));
                    lemma_flatten_len(q);
                    assert(!self.fin_acked);
                    assert(frame.seq.val - self.snd_base() == a);
                    assert(q[0]@ =~= self.pushed@.subrange(a, a + q[0]@.len()));
                    assert(frame.payload@ =~= self.pushed@.subrange(
                        frame.seq.val - self.snd_base(),
                        frame.seq.val - self.snd_base() + frame.payload@.len(),
                    ));
                    rt_idx = out@.len() as int;
                }
                out.push(frame);
            } else if self.fin_sent && !self.fin_acked {
                // Resend the FIN.
                let frame = self.mk_frame(SeqNumber { val: self.snd_nxt.val - 1 }, true, Vec::new());
                out.push(frame);
            }
            self.rtt_valid = false;
            self.rto.backoff();
            let (ssthresh, cwnd) = cc_on_timeout(self.cwnd, self.cfg.mss);
            self.ssthresh = ssthresh;
            self.cwnd = cwnd;
            self.rto_expiry = Some(now + self.rto.current());
        }
        proof {
            if tick_active(*old(self)) {
                match old(self).ack_deadline {
                    Some(d) => {
                        if now >= d {
                            assert(out@[ack_idx].is_pure_ack());
                            assert(out@[ack_idx].ack_num == old(self).rcv_nxt);
                        }
                    },
                    None => {},
                }
                match old(self).rto_expiry {
                    Some(e) => {
                        if now >= e && old(self).rtq@.len() > 0 {
                            assert(out@[rt_idx].seq == old(self).snd_una);
                            assert(out@[rt_idx].payload@ == old(self).rtq@[0]@);
                        }
                    },
                    None => {},
                }
            }
        }
        out
    }
}

/// Reliable delivery: on a connection whose received bytes track the
/// peer's pushed stream (which `on_frame` preserves for every frame the
/// peer cut from that stream), everything the user can read — the bytes
/// already popped followed by the buffered payloads — is exactly a prefix
/// of the bytes the peer pushed, same values, same order.
pub proof fn lemma_delivered_prefix_of_stream(cb: ControlBlock, s: Seq<u8>)
    requires
        cb.tracks(s),
    ensures
        cb.delivered().len() <= s.len(),
        cb.delivered() == s.take(cb.delivered().len() as int),
        cb.delivered().is_prefix_of(s),
{
    assert(cb.delivered().is_prefix_of(s)) by {
        assert(s.take(cb.delivered().len() as int).is_prefix_of(s));
    }
}

/// The windowing laws in their classical, wraparound-modular form: the
/// distance from `snd_una` to `snd_nxt` modulo 2^32 equals the bytes held
/// in the retransmission queue (plus one unit for an unacknowledged SYN or
/// FIN), and never exceeds the peer's advertised send window.
pub proof fn lemma_window_invariants(cb: ControlBlock)
    requires
        cb.wf(),
    ensures
        seq_sub_spec(cb.snd_nxt.val, cb.snd_una.val) == cb.syn_off() + bytes_of(cb.rtq@)
            + cb.fin_off(),
        seq_sub_spec(cb.snd_nxt.val, cb.snd_una.val) <= cb.snd_wnd,
{
    let d = cb.snd_nxt.val - cb.snd_una.val;
    assert(0 <= d < 0x1_0000_0000);
    vstd::arithmetic::div_mod::lemma_mod_multiples_vanish(1, d, 0x1_0000_0000);
    vstd::arithmetic::div_mod::lemma_small_mod(d as nat, 0x1_0000_0000);
    assert(seq_sub_spec(cb.snd_nxt.val, cb.snd_una.val) == d);
}

} // verus!
