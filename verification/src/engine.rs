//! TCP protocol engine: owns the per-connection control blocks and the
//! listeners, routes incoming frames to them, and collects every outgoing
//! frame in an egress queue that the transport drains.

use vstd::prelude::*;
use crate::fail::{Fail, EBADF, EINVAL};
use crate::frame::{Endpoint, Frame};
use crate::seq_num::SeqNumber;
use crate::tcp_cb::{ControlBlock, TcpConfig, TcpState};

verus! {

/// A passive socket: its port, the connections past their handshake that
/// wait to be accepted (in arrival order, bounded by the backlog), and
/// those still inside it.
pub struct Listener {
    /// The listening port.
    pub port: u16,
    /// Backlog bound on the accept queue.
    pub backlog: usize,
    /// Established connections awaiting accept, oldest first.
    pub ready: Vec<usize>,
    /// Connections still in their handshake.
    pub pending: Vec<usize>,
}

/// A datagram socket: its port and the arrived datagrams, oldest first.
pub struct UdpSock {
    /// The bound port.
    pub port: u16,
    /// Datagrams awaiting pop: sender and payload.
    pub inbox: Vec<(Endpoint, Vec<u8>)>,
}

/// A port already has a listener.
pub open spec fn listener_on(listeners: Seq<Listener>, port: u16) -> bool {
    exists|i: int| 0 <= i < listeners.len() && (#[trigger] listeners[i]).port == port
}

/// A datagram socket is bound to this port.
pub open spec fn udp_sock_on(socks: Seq<UdpSock>, port: u16) -> bool {
    exists|i: int| 0 <= i < socks.len() && (#[trigger] socks[i]).port == port
}

/// The frame's addressing names this connection: our endpoint as the
/// destination, the peer's as the source.
pub open spec fn conn_matches(cb: ControlBlock, f: Frame) -> bool {
    &&& cb.local.addr == f.dst.addr
    &&& cb.local.port == f.dst.port
    &&& cb.remote.addr == f.src.addr
    &&& cb.remote.port == f.src.port
}

/// Some connection's addressing matches the frame.
pub open spec fn some_conn_matches(conns: Seq<ControlBlock>, f: Frame) -> bool {
    exists|i: int| 0 <= i < conns.len() && conn_matches(#[trigger] conns[i], f)
}

/// The engine: connections, listeners, the egress queue and the clock.
pub struct Engine {
    /// Our IPv4 address.
    pub local_ip: u32,
    /// Our link address.
    pub local_mac: u64,
    /// Configuration handed to every new connection.
    pub cfg: TcpConfig,
    /// Control blocks; a connection's identifier is its slot.
    pub conns: Vec<ControlBlock>,
    /// Passive sockets.
    pub listeners: Vec<Listener>,
    /// Frames awaiting the transport, oldest first.
    pub outbox: Vec<Frame>,
    /// Monotonic clock, nanoseconds.
    pub clock: u64,
    /// Source port for the next active connection.
    pub next_port: u16,
    /// Datagram sockets.
    pub udp_socks: Vec<UdpSock>,
}

impl Engine {
    /// Every control block is sound and the clock is in range.
    pub open spec fn wf(self) -> bool {
        &&& self.cfg.wf()
        &&& self.clock <= 0x4000_0000_0000_0000
        &&& forall|i: int| 0 <= i < self.conns@.len() ==> (#[trigger] self.conns@[i]).wf()
        &&& forall|i: int, j: int|
            0 <= i < self.listeners@.len() && 0 <= j < self.listeners@[i].ready@.len() ==> (
            #[trigger] self.listeners@[i].ready@[j]) < self.conns@.len()
        // One listener per port.
        &&& forall|i: int, j: int|
            0 <= i < j < self.listeners@.len() ==> (#[trigger] self.listeners@[i]).port != (
            #[trigger] self.listeners@[j]).port
    }

    /// A fresh engine with no connections.
    pub fn new(local_ip: u32, local_mac: u64, cfg: TcpConfig, now: u64) -> (r: Engine)
        requires
            cfg.wf(),
            now <= 0x4000_0000_0000_0000,
        ensures
            r.wf(),
            r.local_ip == local_ip,
            r.local_mac == local_mac,
            r.conns@.len() == 0,
            r.outbox@.len() == 0,
    {
        Engine {
            local_ip,
            local_mac,
            cfg,
            conns: Vec::new(),
            listeners: Vec::new(),
            outbox: Vec::new(),
            clock: now,
            next_port: 32768,
            udp_socks: Vec::new(),
        }
    }

    /// Opens a passive socket on `port`. A port that already has a
    /// listener is rejected with `EINVAL`.
    #[verifier::loop_isolation(false)]
    pub fn listen(&mut self, port: u16, backlog: usize) -> (r: Result<(), Fail>)
        requires
            old(self).wf(),
        ensures
            final(self).wf(),
            final(self).conns@ == old(self).conns@,
            final(self).outbox@ == old(self).outbox@,
            final(self).udp_socks@.len() == old(self).udp_socks@.len(),
            final(self).clock == old(self).clock,
            // A fresh port is owed its listener; a taken one is refused.
            !listener_on(old(self).listeners@, port) ==> ({
                &&& r is Ok
                &&& final(self).listeners@.len() == old(self).listeners@.len() + 1
                &&& final(self).listeners@.take(old(self).listeners@.len() as int) == old(self).listeners@
                &&& final(self).listeners@.last().port == port
                &&& final(self).listeners@.last().backlog == backlog
                &&& final(self).listeners@.last().ready@.len() == 0
            }),
            listener_on(old(self).listeners@, port) ==> (r matches Err(e) && e.errno == EINVAL
                && final(self).listeners@ == old(self).listeners@),
    {
        let mut i: usize = 0;
        while i < self.listeners.len()
            invariant
                self == old(self),
                i <= self.listeners@.len(),
                forall|j: int| 0 <= j < i ==> (#[trigger] self.listeners@[j]).port != port,
            decreases self.listeners@.len() - i,
        {
            if self.listeners[i].port == port {
                proof {
                    assert(listener_on(self.listeners@, port));
                }
                return Err(Fail::new(EINVAL));
            }
            i = i + 1;
        }
        proof {
            if listener_on(self.listeners@, port) {
                let j = choose|j: int|
                    0 <= j < self.listeners@.len() && (#[trigger] self.listeners@[j]).port == port;
                assert(false);
            }
        }
        self.listeners.push(Listener { port, backlog, ready: Vec::new(), pending: Vec::new() });
        proof {
            assert(self.listeners@.take(old(self).listeners@.len() as int) =~= old(self).listeners@);
        }
        Ok(())
    }

    /// Opens a connection actively: a new control block in SynSent whose
    /// SYN goes to the egress queue. Returns the connection's identifier.
    pub fn connect(&mut self, remote: Endpoint, remote_mac: u64) -> (r: usize)
        requires
            old(self).wf(),
        ensures
            final(self).wf(),
            r == old(self).conns@.len(),
            final(self).conns@.len() == old(self).conns@.len() + 1,
            final(self).conns@[r as int].state is SynSent,
            final(self).conns@[r as int].remote == remote,
            final(self).conns@[r as int].pushed@.len() == 0,
            final(self).conns@.take(old(self).conns@.len() as int) == old(self).conns@,
            final(self).outbox@.len() == old(self).outbox@.len() + 1,
            final(self).udp_socks@.len() == old(self).udp_socks@.len(),
            final(self).clock == old(self).clock,
    {
        let local = Endpoint { addr: self.local_ip, port: self.next_port };
        if self.next_port < 60000 {
            self.next_port = self.next_port + 1;
        }
        let (cb, syn) = ControlBlock::connect_cb(self.cfg, local, remote, self.local_mac, remote_mac);
        let id = self.conns.len();
        self.conns.push(cb);
        self.outbox.push(syn);
        proof {
            assert(self.conns@.take(old(self).conns@.len() as int) =~= old(self).conns@);
        }
        id
    }

    /// Routes one incoming frame. A frame of an existing connection goes to
    /// its control block, and a handshake that completes moves the
    /// connection into its listener's accept queue. A SYN for a listening
    /// port opens a new connection in SynReceived. Anything else is
    /// misdelivered and rejected with `EINVAL`.
    #[verifier::loop_isolation(false)]
    pub fn receive(&mut self, f: Frame) -> (r: Result<(), Fail>)
        requires
            old(self).wf(),
        ensures
            final(self).wf(),
            final(self).conns@.len() >= old(self).conns@.len(),
            final(self).udp_socks@.len() == old(self).udp_socks@.len(),
            final(self).clock == old(self).clock,
            // Only a frame nothing claims is misdelivered, and rejection
            // changes nothing.
            r is Err ==> (r matches Err(e) && e.errno == EINVAL && *final(self) == *old(self)
                && !(f.udp && udp_sock_on(old(self).udp_socks@, f.dst.port)) && (f.udp
                || !some_conn_matches(old(self).conns@, f)) && (f.udp || !(f.syn && !f.ack && !f.rst
                && f.seq.val <= 0xF000_0000 && listener_on(old(self).listeners@, f.dst.port)))),
            // A datagram for a bound port joins that socket's inbox.
            f.udp && udp_sock_on(old(self).udp_socks@, f.dst.port) ==> (r is Ok && final(self).conns@ == old(self).conns@ && exists|u: int|
                0 <= u < old(self).udp_socks@.len() && (#[trigger] old(self).udp_socks@[u]).port
                    == f.dst.port && final(self).udp_socks@[u].inbox@ == old(self).udp_socks@[u].inbox@.push((f.src, f.payload))),
            // A frame of an existing connection is processed by its block:
            // identity kept, delivered bytes only extended, a closed block
            // untouched, and tracking of the peer's stream preserved.
            !f.udp && some_conn_matches(old(self).conns@, f) ==> (r is Ok && final(self).conns@.len() == old(self).conns@.len() && exists|i: int|
                ({
                    &&& 0 <= i < old(self).conns@.len()
                    &&& conn_matches(#[trigger] old(self).conns@[i], f)
                    &&& forall|k: int|
                        0 <= k < old(self).conns@.len() && k != i ==> final(self).conns@[k]
                            == old(self).conns@[k]
                    &&& final(self).conns@[i].same_identity(old(self).conns@[i])
                    &&& final(self).conns@[i].popped@ == old(self).conns@[i].popped@
                    &&& old(self).conns@[i].delivered().is_prefix_of(
                        final(self).conns@[i].delivered(),
                    )
                    &&& old(self).conns@[i].state is Closed ==> final(self).conns@[i] == old(self).conns@[i]
                    &&& crate::tcp_cb::in_order_data(old(self).conns@[i], f) ==> final(self).conns@[i].delivered() == old(self).conns@[i].delivered() + f.payload@
                    &&& forall|st: Seq<u8>|
                        !(old(self).conns@[i].state is SynSent) && !(old(self).conns@[i].state is SynReceived) && old(self).conns@[i].tracks(st)
                            && #[trigger] ControlBlock::frame_from_stream(
                            f,
                            st,
                            old(self).conns@[i].rcv_base(),
                        ) ==> final(self).conns@[i].tracks(st)
                })),
            // A SYN for a listening port opens a connection in SynReceived
            // and queues the SYN-ACK.
            !f.udp && !some_conn_matches(old(self).conns@, f) && f.syn && !f.ack && !f.rst
                && f.seq.val <= 0xF000_0000 && listener_on(old(self).listeners@, f.dst.port) ==> ({
                &&& r is Ok
                &&& final(self).conns@.len() == old(self).conns@.len() + 1
                &&& final(self).conns@.take(old(self).conns@.len() as int) == old(self).conns@
                &&& final(self).conns@.last().state is SynReceived
                &&& final(self).conns@.last().remote == f.src
                &&& final(self).conns@.last().irs == f.seq
                &&& final(self).outbox@.len() == old(self).outbox@.len() + 1
                &&& final(self).outbox@.last().syn && final(self).outbox@.last().ack
            }),
    {
        let now = self.clock;
        if f.udp {
            // A datagram: deliver it to the socket bound to its port.
            let mut u: usize = 0;
            while u < self.udp_socks.len()
                invariant
                    self.wf(),
                    self == old(self),
                    u <= self.udp_socks@.len(),
                    forall|a: int| 0 <= a < u ==> (#[trigger] self.udp_socks@[a]).port != f.dst.port,
                decreases self.udp_socks@.len() - u,
            {
                if self.udp_socks[u].port == f.dst.port {
                    let ghost pre = *self;
                    let sock = &mut self.udp_socks[u];
                    sock.inbox.push((f.src, f.payload));
                    proof {
                        assert(self.udp_socks@[u as int].inbox@ =~= pre.udp_socks@[u as int].inbox@.push((f.src, f.payload)));
                    }
                    return Ok(());
                }
                u = u + 1;
            }
            proof {
                if udp_sock_on(self.udp_socks@, f.dst.port) {
                    let a = choose|a: int|
                        0 <= a < self.udp_socks@.len() && (#[trigger] self.udp_socks@[a]).port
                            == f.dst.port;
                    assert(false);
                }
            }
            return Err(Fail::new(EINVAL));
        }
        // An existing connection?
        let mut i: usize = 0;
        while i < self.conns.len()
            invariant
                self.wf(),
                self == old(self),
                i <= self.conns@.len(),
                forall|a: int| 0 <= a < i ==> !conn_matches(#[trigger] self.conns@[a], f),
            decreases self.conns@.len() - i,
        {
            let matches_conn = {
                let cb = &self.conns[i];
                cb.local.addr == f.dst.addr && cb.local.port == f.dst.port && cb.remote.addr
                    == f.src.addr && cb.remote.port == f.src.port
            };
            if matches_conn {
                let ghost pre = *self;
                let mut cb = self.conns.remove(i);
                let was_syn_rcvd = match cb.state {
                    TcpState::SynReceived => true,
                    _ => false,
                };
                let mut frames = cb.on_frame(&f, now);
                let now_established = match cb.state {
                    TcpState::Established => true,
                    _ => false,
                };
                self.conns.insert(i, cb);
                proof {
                    assert(self.conns@.len() == pre.conns@.len());
                    assert(self.conns@ =~= pre.conns@.update(i as int, self.conns@[i as int]));
                    assert(conn_matches(pre.conns@[i as int], f));
                    assert forall|k: int| 0 <= k < self.conns@.len() implies (
                    #[trigger] self.conns@[k]).wf() by {
                        if k < i {
                            assert(self.conns@[k] == pre.conns@[k]);
                        } else if k > i {
                            assert(self.conns@[k] == pre.conns@[k]);
                        }
                    }
                }
                self.outbox.append(&mut frames);
                if was_syn_rcvd && now_established {
                    self.enqueue_accept(f.dst.port, i);
                }
                return Ok(());
            }
            i = i + 1;
        }
        proof {
            if some_conn_matches(self.conns@, f) {
                let a = choose|a: int|
                    0 <= a < self.conns@.len() && conn_matches(#[trigger] self.conns@[a], f);
                assert(false);
            }
        }
        // A new connection for a listener?
        if f.syn && !f.ack && !f.rst && f.seq.val <= 0xF000_0000 {
            let mut j: usize = 0;
            while j < self.listeners.len()
                invariant
                    self.wf(),
                    self == old(self),
                    j <= self.listeners@.len(),
                    forall|a: int| 0 <= a < j ==> (#[trigger] self.listeners@[a]).port != f.dst.port,
                decreases self.listeners@.len() - j,
            {
                if self.listeners[j].port == f.dst.port {
                    let local = Endpoint { addr: self.local_ip, port: f.dst.port };
                    let (cb, syn_ack) = ControlBlock::accept_cb(
                        self.cfg,
                        local,
                        f.src,
                        self.local_mac,
                        f.eth_src,
                        f.seq,
                        f.wnd,
                        f.wnd_scale,
                    );
                    let id = self.conns.len();
                    self.conns.push(cb);
                    self.outbox.push(syn_ack);
                    let ghost pre = *self;
                    let lst = &mut self.listeners[j];
                    lst.pending.push(id);
                    proof {
                        assert(self.conns@.take(old(self).conns@.len() as int) =~= old(self).conns@);
                        assert forall|a: int, b: int|
                            0 <= a < self.listeners@.len() && 0 <= b
                                < self.listeners@[a].ready@.len() implies (
                        #[trigger] self.listeners@[a].ready@[b]) < self.conns@.len() by {
                            assert(self.listeners@[a].ready@ == pre.listeners@[a].ready@);
                        }
                    }
                    return Ok(());
                }
                j = j + 1;
            }
            proof {
                if listener_on(self.listeners@, f.dst.port) {
                    let a = choose|a: int|
                        0 <= a < self.listeners@.len() && (#[trigger] self.listeners@[a]).port
                            == f.dst.port;
                    assert(false);
                }
            }
        }
        Err(Fail::new(EINVAL))
    }

    /// Moves a freshly established connection from its listener's pending
    /// set to the accept queue, dropping it if the backlog is full.
    #[verifier::loop_isolation(false)]
    fn enqueue_accept(&mut self, port: u16, conn: usize)
        requires
            old(self).wf(),
            conn < old(self).conns@.len(),
        ensures
            final(self).wf(),
            final(self).conns@ == old(self).conns@,
            final(self).outbox@ == old(self).outbox@,
            final(self).udp_socks@.len() == old(self).udp_socks@.len(),
            final(self).clock == old(self).clock,
    {
        let mut j: usize = 0;
        while j < self.listeners.len()
            invariant
                self.wf(),
                self == old(self),
                conn < self.conns@.len(),
                j <= self.listeners@.len(),
            decreases self.listeners@.len() - j,
        {
            if self.listeners[j].port == port {
                let ghost pre = *self;
                if self.listeners[j].ready.len() < self.listeners[j].backlog {
                    let lst = &mut self.listeners[j];
                    lst.ready.push(conn);
                    proof {
                        assert forall|a: int, b: int|
                            0 <= a < self.listeners@.len() && 0 <= b
                                < self.listeners@[a].ready@.len() implies (
                        #[trigger] self.listeners@[a].ready@[b]) < self.conns@.len() by {
                            if a != j {
                                assert(self.listeners@[a].ready@ == pre.listeners@[a].ready@);
                            } else {
                                if b < pre.listeners@[a].ready@.len() {
                                    assert(self.listeners@[a].ready@[b] == pre.listeners@[a].ready@[b]);
                                } else {
                                    assert(self.listeners@[a].ready@[b] == conn);
                                }
                            }
                        }
                    }
                }
                return ;
            }
            j = j + 1;
        }
    }

    /// Hands out the oldest connection awaiting accept on `port`.
    #[verifier::loop_isolation(false)]
    pub fn accept_ready(&mut self, port: u16) -> (r: Option<usize>)
        requires
            old(self).wf(),
        ensures
            final(self).wf(),
            final(self).conns@ == old(self).conns@,
            final(self).outbox@ == old(self).outbox@,
            final(self).udp_socks@.len() == old(self).udp_socks@.len(),
            final(self).clock == old(self).clock,
            r matches Some(id) ==> id < final(self).conns@.len(),
            // The oldest waiting connection of the port's listener is owed.
            r matches Some(id) ==> exists|j: int|
                0 <= j < old(self).listeners@.len() && (#[trigger] old(self).listeners@[j]).port
                    == port && old(self).listeners@[j].ready@.len() > 0 && id == old(self).listeners@[j].ready@[0] && final(self).listeners@[j].ready@ == old(self).listeners@[j].ready@.drop_first(),
            (exists|j: int|
                0 <= j < old(self).listeners@.len() && (#[trigger] old(self).listeners@[j]).port
                    == port && old(self).listeners@[j].ready@.len() > 0) ==> r is Some,
            r is None ==> final(self).listeners@ == old(self).listeners@,
    {
        let mut j: usize = 0;
        while j < self.listeners.len()
            invariant
                self.wf(),
                self == old(self),
                j <= self.listeners@.len(),
                forall|a: int| 0 <= a < j ==> (#[trigger] self.listeners@[a]).port != port,
            decreases self.listeners@.len() - j,
        {
            if self.listeners[j].port == port {
                if self.listeners[j].ready.len() > 0 {
                    let ghost pre = *self;
                    let lst = &mut self.listeners[j];
                    let id = lst.ready.remove(0);
                    proof {
                        assert(pre.listeners@[j as int].ready@[0] == id);
                        assert(self.listeners@[j as int].ready@ =~= pre.listeners@[j as int].ready@.drop_first());
                        assert forall|a: int, b: int|
                            0 <= a < self.listeners@.len() && 0 <= b
                                < self.listeners@[a].ready@.len() implies (
                        #[trigger] self.listeners@[a].ready@[b]) < self.conns@.len() by {
                            if a != j {
                                assert(self.listeners@[a].ready@ == pre.listeners@[a].ready@);
                            } else {
                                if b < j {
                                }
                                assert(self.listeners@[a].ready@[b]
                                    == pre.listeners@[a].ready@[b + 1]
                                    || self.listeners@[a].ready@[b]
                                    == pre.listeners@[a].ready@[b]);
                            }
                        }
                    }
                    return Some(id);
                }
                proof {
                    // Any listener on this port is this one, and it waits
                    // on nothing.
                    assert forall|a: int|
                        0 <= a < self.listeners@.len() && (#[trigger] self.listeners@[a]).port
                            == port implies a == j as int by {}
                }
                return None;
            }
            j = j + 1;
        }
        proof {
            if exists|a: int|
                0 <= a < self.listeners@.len() && (#[trigger] self.listeners@[a]).port == port
                    && self.listeners@[a].ready@.len() > 0 {
                let a = choose|a: int|
                    0 <= a < self.listeners@.len() && (#[trigger] self.listeners@[a]).port == port
                        && self.listeners@[a].ready@.len() > 0;
                assert(false);
            }
        }
        None
    }

    /// Pushes user bytes on a connection; every segment the windows allow
    /// goes straight to the egress queue. The connection must exist and be
    /// in a state that accepts data, else `EBADF`/`EINVAL`; the bytes must
    /// be non-empty and keep the stream inside its sequence space.
    pub fn tcp_push(&mut self, conn: usize, data: Vec<u8>) -> (r: Result<(), Fail>)
        requires
            old(self).wf(),
            data@.len() > 0,
        ensures
            final(self).wf(),
            conn >= old(self).conns@.len() ==> (r matches Err(e) && e.errno == EBADF),
            final(self).conns@.len() == old(self).conns@.len(),
            final(self).udp_socks@.len() == old(self).udp_socks@.len(),
            final(self).clock == old(self).clock,
            r is Ok ==> conn < old(self).conns@.len() && final(self).conns@[conn as int].pushed@
                == old(self).conns@[conn as int].pushed@ + data@,
            // Success is owed whenever the connection accepts data and the
            // bytes fit in the remaining sequence space.
            conn < old(self).conns@.len() && (old(self).conns@[conn as int].state is Established
                || old(self).conns@[conn as int].state is CloseWait) && data@.len() <= 0xFFFF_F000
                && old(self).conns@[conn as int].pushed@.len() + data@.len() <= 0xFFFF_F000
                ==> r is Ok,
    {
        if conn >= self.conns.len() {
            return Err(Fail::new(EBADF));
        }
        let now = self.clock;
        let ghost pre = *self;
        let mut cb = self.conns.remove(conn);
        let ok_state = match cb.state {
            TcpState::Established | TcpState::CloseWait => true,
            _ => false,
        };
        let mut result: Result<(), Fail> = Err(Fail::new(EINVAL));
        let mut frames: Vec<Frame> = Vec::new();
        if ok_state {
            proof {
                assert(cb.syn_off() == 0 && cb.fin_off() == 0 && cb.fin_acked_off() == 0);
                assert(cb.acked_len() >= 0);
            }
            // The stream length so far, recovered from the counters: bytes
            // past `snd_nxt` plus the unsent queue.
            let total: u64 = cb.snd_nxt.val as u64 - 1 + cb.unsent.len() as u64;
            proof {
                assert(total == cb.pushed@.len());
            }
            if data.len() as u64 <= 0xFFFF_F000 && total + (data.len() as u64) <= 0xFFFF_F000 {
                frames = cb.app_push(data, now);
                result = Ok(());
            }
        }
        self.conns.insert(conn, cb);
        proof {
            assert forall|k: int| 0 <= k < self.conns@.len() implies (
            #[trigger] self.conns@[k]).wf() by {
                if k != conn {
                    assert(self.conns@[k] == pre.conns@[k]);
                }
            }
        }
        self.outbox.append(&mut frames);
        result
    }

    /// Pops received bytes from a connection: the oldest buffered payload,
    /// or an empty buffer once the peer's FIN is consumed, or `None` while
    /// nothing has arrived.
    pub fn tcp_pop(&mut self, conn: usize) -> (r: Result<Option<Vec<u8>>, Fail>)
        requires
            old(self).wf(),
        ensures
            final(self).wf(),
            conn >= old(self).conns@.len() ==> (r matches Err(e) && e.errno == EBADF
                && *final(self) == *old(self)),
            final(self).conns@.len() == old(self).conns@.len(),
            final(self).udp_socks@.len() == old(self).udp_socks@.len(),
            final(self).clock == old(self).clock,
            final(self).outbox@ == old(self).outbox@,
            // A live connection is owed the oldest buffered payload, the
            // end-of-stream marker once its peer's FIN is consumed, or
            // nothing while nothing has arrived; other blocks are
            // untouched.
            conn < old(self).conns@.len() ==> ({
                let cb0 = old(self).conns@[conn as int];
                let cb1 = final(self).conns@[conn as int];
                &&& forall|k: int|
                    0 <= k < old(self).conns@.len() && k != conn ==> final(self).conns@[k] == old(self).conns@[k]
                &&& cb1.same_identity(cb0)
                &&& cb1.delivered() == cb0.delivered()
                &&& cb1.pushed@ == cb0.pushed@
                &&& cb1.state == cb0.state
                &&& cb0.rcv_queue@.len() > 0 ==> (r matches Ok(Some(v)) && v@.len() > 0 && v@
                    == cb0.delivered().subrange(
                    cb0.popped@.len() as int,
                    cb0.popped@.len() + v@.len() as int,
                ) && cb1.popped@ == cb0.popped@ + v@)
                &&& cb0.rcv_queue@.len() == 0 && cb0.fin_seen ==> (r matches Ok(Some(v)) && v@.len()
                    == 0)
                &&& cb0.rcv_queue@.len() == 0 && !cb0.fin_seen ==> r matches Ok(None)
            }),
    {
        if conn >= self.conns.len() {
            return Err(Fail::new(EBADF));
        }
        let ghost pre = *self;
        let mut cb = self.conns.remove(conn);
        let popped = cb.app_pop();
        self.conns.insert(conn, cb);
        proof {
            assert(self.conns@ =~= pre.conns@.update(conn as int, self.conns@[conn as int]));
            assert forall|k: int| 0 <= k < self.conns@.len() implies (
            #[trigger] self.conns@[k]).wf() by {
                if k != conn {
                    assert(self.conns@[k] == pre.conns@[k]);
                }
            }
        }
        Ok(popped)
    }

    /// Begins an orderly close of a connection.
    pub fn tcp_close(&mut self, conn: usize) -> (r: Result<(), Fail>)
        requires
            old(self).wf(),
        ensures
            final(self).wf(),
            conn >= old(self).conns@.len() ==> (r matches Err(e) && e.errno == EBADF
                && *final(self) == *old(self)),
            final(self).conns@.len() == old(self).conns@.len(),
            final(self).udp_socks@.len() == old(self).udp_socks@.len(),
            final(self).clock == old(self).clock,
            // A connection in a data-bearing state is owed its closing
            // transition (the FIN is queued behind the pending bytes);
            // closing any other state is refused; other blocks are
            // untouched.
            conn < old(self).conns@.len() ==> ({
                let cb0 = old(self).conns@[conn as int];
                let cb1 = final(self).conns@[conn as int];
                &&& forall|k: int|
                    0 <= k < old(self).conns@.len() && k != conn ==> final(self).conns@[k] == old(self).conns@[k]
                &&& cb1.same_identity(cb0)
                &&& cb0.state is Established ==> (r is Ok && cb1.state is FinWait1
                    && cb1.fin_pending)
                &&& cb0.state is CloseWait ==> (r is Ok && cb1.state is LastAck && cb1.fin_pending)
                &&& !(cb0.state is Established) && !(cb0.state is CloseWait) ==> (r matches Err(e)
                    && e.errno == EINVAL && cb1 == cb0)
            }),
    {
        if conn >= self.conns.len() {
            return Err(Fail::new(EBADF));
        }
        let now = self.clock;
        let ghost pre = *self;
        let mut cb = self.conns.remove(conn);
        let res = cb.app_close(now);
        self.conns.insert(conn, cb);
        proof {
            assert(self.conns@ =~= pre.conns@.update(conn as int, self.conns@[conn as int]));
            assert forall|k: int| 0 <= k < self.conns@.len() implies (
            #[trigger] self.conns@[k]).wf() by {
                if k != conn {
                    assert(self.conns@[k] == pre.conns@[k]);
                }
            }
        }
        match res {
            Ok(mut frames) => {
                self.outbox.append(&mut frames);
                Ok(())
            },
            Err(e) => Err(e),
        }
    }

    /// Advances the clock and drives every connection's timers: expired
    /// retransmission timeouts resend and back off, owed delayed ACKs are
    /// emitted, expired TimeWait lingers release their connections.
    #[verifier::loop_isolation(false)]
    pub fn advance_clock(&mut self, now: u64)
        requires
            old(self).wf(),
            old(self).clock <= now <= 0x4000_0000_0000_0000,
        ensures
            final(self).wf(),
            final(self).clock == now,
            final(self).conns@.len() == old(self).conns@.len(),
            final(self).udp_socks@.len() == old(self).udp_socks@.len(),
            // Each connection's timers fire as its block specifies: its
            // identity, streams and acknowledged prefix are untouched, a
            // closed block stays exactly as it was, an expired TimeWait
            // linger releases its connection, and the retransmission
            // timeout never exceeds its cap. Emitted frames join the
            // egress queue.
            forall|k: int|
                0 <= k < old(self).conns@.len() ==> ({
                    let cb0 = #[trigger] old(self).conns@[k];
                    let cb1 = final(self).conns@[k];
                    &&& cb1.same_identity(cb0)
                    &&& cb1.delivered() == cb0.delivered()
                    &&& cb1.popped@ == cb0.popped@
                    &&& cb1.pushed@ == cb0.pushed@
                    &&& cb1.acked_len() == cb0.acked_len()
                    &&& cb0.state is Closed ==> cb1 == cb0
                    &&& (cb0.state is TimeWait && now >= cb0.time_wait_until) ==> cb1.state is Closed
                    &&& cb1.rto.spec_rto() <= cb1.cfg.max_rto
                }),
            old(self).outbox@.is_prefix_of(final(self).outbox@),
    {
        self.clock = now;
        let mut i: usize = 0;
        proof {
            assert(self.outbox@.is_prefix_of(self.outbox@)) by {
                assert(self.outbox@.take(self.outbox@.len() as int) =~= self.outbox@);
            }
        }
        while i < self.conns.len()
            invariant
                self.wf(),
                self.clock == now,
                now <= 0x4000_0000_0000_0000,
                i <= self.conns@.len(),
                self.conns@.len() == old(self).conns@.len(),
                self.udp_socks@.len() == old(self).udp_socks@.len(),
                self.listeners@ == old(self).listeners@,
                forall|k: int|
                    i <= k < self.conns@.len() ==> (#[trigger] self.conns@[k]) == old(self).conns@[k],
                forall|k: int|
                    0 <= k < i ==> ({
                        let cb0 = #[trigger] old(self).conns@[k];
                        let cb1 = self.conns@[k];
                        &&& cb1.same_identity(cb0)
                        &&& cb1.delivered() == cb0.delivered()
                        &&& cb1.popped@ == cb0.popped@
                        &&& cb1.pushed@ == cb0.pushed@
                        &&& cb1.acked_len() == cb0.acked_len()
                        &&& cb0.state is Closed ==> cb1 == cb0
                        &&& (cb0.state is TimeWait && now >= cb0.time_wait_until)
                            ==> cb1.state is Closed
                        &&& cb1.rto.spec_rto() <= cb1.cfg.max_rto
                    }),
                old(self).outbox@.is_prefix_of(self.outbox@),
            decreases self.conns@.len() - i,
        {
            let ghost pre = *self;
            let mut cb = self.conns.remove(i);
            let mut frames = cb.on_tick(now);
            self.conns.insert(i, cb);
            proof {
                assert(self.conns@ =~= pre.conns@.update(i as int, self.conns@[i as int]));
                assert forall|k: int| 0 <= k < self.conns@.len() implies (
                #[trigger] self.conns@[k]).wf() by {
                    if k != i {
                        assert(self.conns@[k] == pre.conns@[k]);
                    }
                }
            }
            let ghost before_append = self.outbox@;
            self.outbox.append(&mut frames);
            proof {
                assert(self.outbox@.take(before_append.len() as int) =~= before_append);
                assert(old(self).outbox@.is_prefix_of(self.outbox@)) by {
                    let n = old(self).outbox@.len() as int;
                    assert(before_append.take(n) == old(self).outbox@);
                    assert(self.outbox@.take(n) =~= before_append.take(n));
                }
            }
            i = i + 1;
        }
    }

    /// Takes the oldest frame off the egress queue.
    pub fn pop_frame(&mut self) -> (r: Option<Frame>)
        requires
            old(self).wf(),
        ensures
            final(self).wf(),
            old(self).outbox@.len() == 0 ==> r is None && final(self).outbox@ == old(
                self,
            ).outbox@,
            old(self).outbox@.len() > 0 ==> (r matches Some(f) && f == old(self).outbox@[0]
                && final(self).outbox@ == old(self).outbox@.drop_first()),
            final(self).conns@ == old(self).conns@,
            final(self).udp_socks@.len() == old(self).udp_socks@.len(),
            final(self).clock == old(self).clock,
    {
        if self.outbox.len() == 0 {
            None
        } else {
            let ghost pre = self.outbox@;
            let f = self.outbox.remove(0);
            proof {
                assert(self.outbox@ =~= pre.drop_first());
            }
            Some(f)
        }
    }

    /// Binds a datagram socket to `port`, returning its identifier.
    pub fn udp_bind(&mut self, port: u16) -> (r: usize)
        requires
            old(self).wf(),
        ensures
            final(self).wf(),
            r == old(self).udp_socks@.len(),
            final(self).udp_socks@.len() == old(self).udp_socks@.len() + 1,
            final(self).conns@ == old(self).conns@,
            final(self).clock == old(self).clock,
    {
        let id = self.udp_socks.len();
        self.udp_socks.push(UdpSock { port, inbox: Vec::new() });
        id
    }

    /// Sends one datagram: a UDP frame joins the egress queue carrying the
    /// full payload.
    pub fn udp_sendto(&mut self, src_port: u16, dst: Endpoint, dst_mac: u64, data: Vec<u8>)
        requires
            old(self).wf(),
        ensures
            final(self).wf(),
            final(self).outbox@.len() == old(self).outbox@.len() + 1,
            final(self).outbox@.last().payload@ == data@,
            final(self).outbox@.last().udp,
            final(self).outbox@.last().dst == dst,
            final(self).conns@ == old(self).conns@,
            final(self).udp_socks@.len() == old(self).udp_socks@.len(),
            final(self).clock == old(self).clock,
    {
        let f = Frame {
            eth_src: self.local_mac,
            eth_dst: dst_mac,
            src: Endpoint { addr: self.local_ip, port: src_port },
            dst,
            seq: SeqNumber { val: 0 },
            ack_num: SeqNumber { val: 0 },
            syn: false,
            ack: false,
            fin: false,
            rst: false,
            wnd: 0,
            mss: 0,
            wnd_scale: 0,
            udp: true,
            payload: data,
        };
        self.outbox.push(f);
    }

    /// Pops the oldest datagram from a datagram socket.
    pub fn udp_recv(&mut self, sock: usize) -> (r: Option<(Endpoint, Vec<u8>)>)
        requires
            old(self).wf(),
        ensures
            final(self).wf(),
            final(self).conns@ == old(self).conns@,
            final(self).outbox@ == old(self).outbox@,
            final(self).udp_socks@.len() == old(self).udp_socks@.len(),
            final(self).clock == old(self).clock,
            // The oldest datagram is owed, and leaves the inbox; anything
            // else is untouched.
            sock < old(self).udp_socks@.len() && old(self).udp_socks@[sock as int].inbox@.len()
                > 0 ==> (r matches Some(d) && d.0 == old(self).udp_socks@[sock as int].inbox@[0].0
                && d.1@ == old(self).udp_socks@[sock as int].inbox@[0].1@
                && final(self).udp_socks@[sock as int].inbox@ == old(self).udp_socks@[sock as int].inbox@.drop_first()
                && final(self).udp_socks@[sock as int].port == old(self).udp_socks@[sock as int].port
                && (forall|a: int|
                0 <= a < old(self).udp_socks@.len() && a != sock ==> final(self).udp_socks@[a]
                    == old(self).udp_socks@[a])),
            sock >= old(self).udp_socks@.len() || old(self).udp_socks@[sock as int].inbox@.len()
                == 0 ==> r is None && final(self).udp_socks@ == old(self).udp_socks@,
    {
        if sock >= self.udp_socks.len() {
            return None;
        }
        let ghost pre = *self;
        let s = &mut self.udp_socks[sock];
        if s.inbox.len() == 0 {
            return None;
        }
        let d = s.inbox.remove(0);
        proof {
            assert(self.udp_socks@[sock as int].inbox@ =~= pre.udp_socks@[sock as int].inbox@.drop_first());
        }
        Some(d)
    }

    /// Reads a connection's state.
    pub fn conn_state(&self, conn: usize) -> (r: Option<TcpState>)
        requires
            self.wf(),
        ensures
            conn < self.conns@.len() ==> r == Some(self.conns@[conn as int].state),
            conn >= self.conns@.len() ==> r is None,
    {
        if conn < self.conns.len() {
            Some(self.conns[conn].state)
        } else {
            None
        }
    }
}

} // verus!
