//! The outward-facing object: maps socket calls into operation futures and
//! scheduler actions over the in-process protocol engine, and packs
//! results. A call validates its arguments against the queue-descriptor
//! table, registers an operation, and returns a queue token; `wait` and
//! `wait_any` drive the scheduler until the operation (or any of a set)
//! completes, then extract and pack the result.

use vstd::prelude::*;
use crate::engine::Engine;
use crate::fail::{Fail, EBADF, ECONNRESET, EINVAL, ENOMEM, ENOTSUP};
use crate::frame::Endpoint;
use crate::ops::{pack_result, Operation, OperationResult, QResult, Sga};
use crate::qtable::{IoQueueTable, QDesc, QType};
use crate::tcp_cb::{TcpConfig, TcpState};
use crate::umem::UmemReg;

verus! {

/// The IPv4 communication domain.
pub const AF_INET: i32 = 2;
/// Stream (TCP) socket type.
pub const SOCK_STREAM: i32 = 1;
/// Datagram (UDP) socket type.
pub const SOCK_DGRAM: i32 = 2;

/// What a queue descriptor is bound to.
#[derive(Clone, Copy, Debug, PartialEq, Eq, Structural)]
pub enum Binding {
    /// A socket not yet bound.
    Fresh,
    /// Bound to a local port, not yet listening or connected.
    BoundPort(u16),
    /// A passive TCP socket on this port.
    Listening(u16),
    /// An open TCP connection in the engine.
    Conn(usize),
    /// A datagram socket in the engine.
    Udp { sock: usize, port: u16 },
}

/// One scheduler slot: a token, the owning descriptor, the operation, and
/// its result once it completed.
pub struct TaskEntry {
    /// The queue token handed to the caller.
    pub qt: u64,
    /// The descriptor the operation was submitted on.
    pub qd: QDesc,
    /// The operation's state.
    pub op: Operation,
    /// The result, once the operation completed.
    pub done: Option<OperationResult>,
}

/// True when some scheduler slot carries this token.
pub open spec fn has_task(tasks: Seq<TaskEntry>, qt: u64) -> bool {
    exists|i: int| 0 <= i < tasks.len() && (#[trigger] tasks[i]).qt == qt
}

/// True when some scheduler slot carries this token with a recorded result.
pub open spec fn task_done(tasks: Seq<TaskEntry>, qt: u64) -> bool {
    exists|i: int|
        0 <= i < tasks.len() && (#[trigger] tasks[i]).qt == qt && tasks[i].done is Some
}

/// True when some scheduler slot carries this token, still unresolved.
pub open spec fn task_pending(tasks: Seq<TaskEntry>, qt: u64) -> bool {
    exists|i: int|
        0 <= i < tasks.len() && (#[trigger] tasks[i]).qt == qt && tasks[i].done is None
}

/// A recorded result is of the kind its operation can produce: an accept
/// yields the pre-allocated descriptor, a connect yields a connection, a
/// push a push, a pop a pop — or each may fail.
pub open spec fn result_matches(op: Operation, r: OperationResult) -> bool {
    match op {
        Operation::Accept { port, new_qd } => (r matches OperationResult::Accept(qd, _)
            && qd == new_qd) || r is Failed,
        Operation::Connect { .. } => r is Connect || r is Failed,
        Operation::Push => r is Push || r is Failed,
        Operation::Pushto => r is Push || r is Failed,
        Operation::Pop { .. } => r is Pop || r is Failed,
        Operation::PopFrom { .. } => r is Pop || r is Failed,
    }
}

/// A push can be honored: the descriptor is a live stream socket bound to
/// a connection in a data-bearing state, the bytes fit the connection's
/// remaining sequence space, and a token can still be issued.
pub open spec fn push_ready(l: LibOS, qd: QDesc, len: int) -> bool {
    &&& l.is_live(qd)
    &&& l.spec_qtable()[qd.val as int] == Some(QType::TcpSocket)
    &&& l.spec_bindings()[qd.val as int] matches Binding::Conn(c) && ({
        &&& c < l.spec_conns().len()
        &&& (l.spec_conns()[c as int].state is Established || l.spec_conns()[c as int].state is CloseWait)
        &&& len <= 0xFFFF_F000
        &&& l.spec_conns()[c as int].pushed@.len() + len <= 0xFFFF_F000
    })
    &&& l.spec_next_qt() < 0xFFFF_FFFF_FFFF_0000
}

/// A pushto can be honored: the descriptor is a live, bound datagram
/// socket and a token can still be issued.
pub open spec fn pushto_ready(l: LibOS, qd: QDesc) -> bool {
    &&& l.is_live(qd)
    &&& l.spec_qtable()[qd.val as int] == Some(QType::UdpSocket)
    &&& l.spec_bindings()[qd.val as int] is Udp
    &&& l.spec_next_qt() < 0xFFFF_FFFF_FFFF_0000
}

/// The library operating system: queue table, engine, scheduler, pool.
pub struct LibOS {
    qtable: IoQueueTable,
    bindings: Vec<Binding>,
    engine: Engine,
    tasks: Vec<TaskEntry>,
    next_qt: u64,
    umem: UmemReg,
}

impl LibOS {
    /// The scheduler slots, oldest first.
    pub closed spec fn spec_tasks(self) -> Seq<TaskEntry> {
        self.tasks@
    }

    /// The chunks of the buffer pool currently checked out.
    pub closed spec fn pool_in_use(self) -> Set<u32> {
        self.umem.in_use()
    }

    /// Free chunks left in the buffer pool.
    pub closed spec fn pool_free(self) -> nat {
        self.umem.spec_free_count()
    }

    /// The descriptor bindings, one per queue-table slot.
    pub closed spec fn spec_bindings(self) -> Seq<Binding> {
        self.bindings@
    }

    /// The queue table.
    pub closed spec fn spec_qtable(self) -> Seq<Option<QType>> {
        self.qtable@
    }

    /// The next token to be issued.
    pub closed spec fn spec_next_qt(self) -> u64 {
        self.next_qt
    }

    /// The engine's connections, as their control blocks.
    pub closed spec fn spec_conns(self) -> Seq<crate::tcp_cb::ControlBlock> {
        self.engine.conns@
    }

    /// The engine's egress queue, oldest first.
    pub closed spec fn spec_outbox(self) -> Seq<crate::frame::Frame> {
        self.engine.outbox@
    }

    /// The engine's listeners.
    pub closed spec fn spec_listeners(self) -> Seq<crate::engine::Listener> {
        self.engine.listeners@
    }

    /// True when `qd` names a live (allocated, not yet closed) descriptor.
    pub open spec fn is_live(self, qd: QDesc) -> bool {
        qd.val < self.spec_qtable().len() && self.spec_qtable()[qd.val as int] is Some
    }

    /// Structural soundness: the bindings mirror the queue table, every
    /// binding and every task points into the engine, and tokens are
    /// distinct and below the issue counter.
    pub closed spec fn wf(self) -> bool {
        &&& self.engine.wf()
        &&& self.umem.wf()
        &&& self.bindings@.len() == self.qtable@.len()
        &&& forall|i: int|
            0 <= i < self.bindings@.len() ==> match #[trigger] self.bindings@[i] {
                Binding::Conn(c) => c < self.engine.conns@.len(),
                Binding::Udp { sock, port } => sock < self.engine.udp_socks@.len(),
                _ => true,
            }
        &&& forall|i: int|
            0 <= i < self.tasks@.len() ==> match (#[trigger] self.tasks@[i]).op {
                Operation::Connect { conn } => conn < self.engine.conns@.len(),
                Operation::Pop { conn } => conn < self.engine.conns@.len(),
                Operation::PopFrom { sock } => sock < self.engine.udp_socks@.len(),
                Operation::Accept { port, new_qd } => new_qd.val < self.bindings@.len(),
                _ => true,
            }
        &&& forall|i: int|
            0 <= i < self.tasks@.len() ==> (#[trigger] self.tasks@[i]).qt < self.next_qt
        &&& forall|i: int, j: int|
            0 <= i < j < self.tasks@.len() ==> (#[trigger] self.tasks@[i]).qt != (
            #[trigger] self.tasks@[j]).qt
        &&& forall|i: int|
            0 <= i < self.tasks@.len() ==> match (#[trigger] self.tasks@[i]).done {
                Some(res) => result_matches(self.tasks@[i].op, res),
                None => true,
            }
        // A recorded accept has already bound its descriptor to the
        // accepted connection.
        &&& forall|i: int|
            0 <= i < self.tasks@.len() ==> match (#[trigger] self.tasks@[i]).done {
                Some(OperationResult::Accept(nq, _)) => nq.val < self.bindings@.len()
                    && self.bindings@[nq.val as int] is Conn,
                _ => true,
            }
    }

    /// Builds a library instance around a fresh engine and a buffer pool
    /// of `pool_chunks` chunks of `chunk_size` bytes.
    pub fn new(
        local_ip: u32,
        local_mac: u64,
        cfg: TcpConfig,
        now: u64,
        pool_chunks: u32,
        chunk_size: u16,
    ) -> (r: Result<LibOS, Fail>)
        requires
            cfg.wf(),
            now <= 0x4000_0000_0000_0000,
        ensures
            pool_chunks > 0 && chunk_size > 0 ==> r is Ok,
            r matches Ok(l) ==> ({
                &&& l.wf()
                &&& l.spec_tasks().len() == 0
                &&& l.pool_in_use() =~= Set::<u32>::empty()
                &&& l.pool_free() == pool_chunks
            }),
    {
        let umem = UmemReg::new(pool_chunks, chunk_size, 0)?;
        Ok(
            LibOS {
                qtable: IoQueueTable::new(),
                bindings: Vec::new(),
                engine: Engine::new(local_ip, local_mac, cfg, now),
                tasks: Vec::new(),
                next_qt: 1,
                umem,
            },
        )
    }

    /// Creates a socket. Only the IPv4 domain with the stream or datagram
    /// type is supported; anything else is rejected with `ENOTSUP`.
    pub fn socket(&mut self, domain: i32, typ: i32, _protocol: i32) -> (r: Result<QDesc, Fail>)
        requires
            old(self).wf(),
        ensures
            final(self).wf(),
            domain != AF_INET ==> (r matches Err(e) && e.errno == ENOTSUP),
            domain == AF_INET && typ != SOCK_STREAM && typ != SOCK_DGRAM ==> (r matches Err(e)
                && e.errno == ENOTSUP),
            final(self).spec_tasks() == old(self).spec_tasks(),
            // A supported domain and type, below the table bound, is owed
            // a fresh descriptor tagged with the matching kind.
            domain == AF_INET && (typ == SOCK_STREAM || typ == SOCK_DGRAM) && old(self).spec_qtable().len() < 0xFFFF_0000 ==> r is Ok,
            r matches Ok(qd) ==> ({
                &&& qd.val == old(self).spec_qtable().len()
                &&& final(self).spec_qtable() == old(self).spec_qtable().push(
                    Some(
                        if typ == SOCK_STREAM {
                            QType::TcpSocket
                        } else {
                            QType::UdpSocket
                        },
                    ),
                )
                &&& final(self).spec_bindings() == old(self).spec_bindings().push(Binding::Fresh)
            }),
            r is Err ==> final(self).spec_qtable() == old(self).spec_qtable() && final(self).spec_bindings() == old(self).spec_bindings(),
    {
        if domain != AF_INET {
            return Err(Fail::new(ENOTSUP));
        }
        let qtype = if typ == SOCK_STREAM {
            QType::TcpSocket
        } else if typ == SOCK_DGRAM {
            QType::UdpSocket
        } else {
            return Err(Fail::new(ENOTSUP));
        };
        if self.qtable.len() >= 0xFFFF_0000 {
            return Err(Fail::new(ENOMEM));
        }
        let qd = self.qtable.allocate(qtype);
        self.bindings.push(Binding::Fresh);
        Ok(qd)
    }

    /// Binds a socket to a local endpoint. A datagram socket becomes ready
    /// to send and receive at once; a stream socket remembers the port for
    /// `listen`. An unknown or already-bound descriptor gives `EBADF`.
    pub fn bind(&mut self, qd: QDesc, local: Endpoint) -> (r: Result<(), Fail>)
        requires
            old(self).wf(),
        ensures
            final(self).wf(),
            final(self).spec_tasks() == old(self).spec_tasks(),
            final(self).spec_qtable() == old(self).spec_qtable(),
            // A live, still-unbound descriptor is owed its binding: a
            // stream socket remembers the port, a datagram socket is ready
            // at once; anything else gives EBADF and changes nothing.
            old(self).is_live(qd) && old(self).spec_bindings()[qd.val as int] is Fresh ==> ({
                &&& r is Ok
                &&& (old(self).spec_qtable()[qd.val as int] == Some(QType::TcpSocket)
                    ==> final(self).spec_bindings()[qd.val as int] == Binding::BoundPort(local.port))
                &&& (old(self).spec_qtable()[qd.val as int] == Some(QType::UdpSocket) ==> ({
                    &&& final(self).spec_bindings()[qd.val as int] matches Binding::Udp {
                        sock: _,
                        port,
                    }
                    &&& port == local.port
                }))
                &&& forall|k: int|
                    0 <= k < old(self).spec_bindings().len() && k != qd.val ==> final(self).spec_bindings()[k] == old(self).spec_bindings()[k]
            }),
            !(old(self).is_live(qd) && old(self).spec_bindings()[qd.val as int] is Fresh) ==> (
            r matches Err(e) && e.errno == EBADF && final(self).spec_bindings() == old(self).spec_bindings()),
    {
        let kind = match self.qtable.get(qd) {
            Some(k) => k,
            None => {
                return Err(Fail::new(EBADF));
            },
        };
        let idx = qd.val as usize;
        let is_fresh = match self.bindings[idx] {
            Binding::Fresh => true,
            _ => false,
        };
        if !is_fresh {
            return Err(Fail::new(EBADF));
        }
        match kind {
            QType::TcpSocket => {
                self.bindings.set(idx, Binding::BoundPort(local.port));
            },
            QType::UdpSocket => {
                let sock = self.engine.udp_bind(local.port);
                let ghost pre = *self;
                self.bindings.set(idx, Binding::Udp { sock, port: local.port });
                proof {
                    assert forall|i: int|
                        0 <= i < self.bindings@.len() implies match #[trigger] self.bindings@[i] {
                        Binding::Conn(c) => c < self.engine.conns@.len(),
                        Binding::Udp { sock, port } => sock < self.engine.udp_socks@.len(),
                        _ => true,
                    } by {
                        if i != idx {
                            assert(self.bindings@[i] == pre.bindings@[i]);
                        }
                    }
                }
            },
        }
        Ok(())
    }

    /// Marks a bound stream socket passive with the given backlog.
    pub fn listen(&mut self, qd: QDesc, backlog: usize) -> (r: Result<(), Fail>)
        requires
            old(self).wf(),
        ensures
            final(self).wf(),
            final(self).spec_tasks() == old(self).spec_tasks(),
            final(self).spec_qtable() == old(self).spec_qtable(),
            // A bound stream socket whose port is still free is owed its
            // passive state.
            old(self).spec_qtable()[qd.val as int] == Some(QType::TcpSocket) && old(self).is_live(
                qd,
            ) && (old(self).spec_bindings()[qd.val as int] matches Binding::BoundPort(p)
                && !crate::engine::listener_on(old(self).spec_listeners(), p)) ==> (r is Ok && (
            old(self).spec_bindings()[qd.val as int] matches Binding::BoundPort(p) && final(self).spec_bindings()[qd.val as int] == Binding::Listening(p))),
            r is Err ==> final(self).spec_bindings() == old(self).spec_bindings(),
    {
        match self.qtable.get(qd) {
            Some(QType::TcpSocket) => {},
            _ => {
                return Err(Fail::new(EBADF));
            },
        }
        let idx = qd.val as usize;
        let port = match self.bindings[idx] {
            Binding::BoundPort(p) => p,
            _ => {
                return Err(Fail::new(EBADF));
            },
        };
        self.engine.listen(port, backlog)?;
        self.bindings.set(idx, Binding::Listening(port));
        Ok(())
    }

    /// Registers a new scheduler slot and returns its token.
    fn submit(&mut self, qd: QDesc, op: Operation, done: Option<OperationResult>) -> (r: u64)
        requires
            old(self).wf(),
            old(self).next_qt < 0xFFFF_FFFF_FFFF_0000,
            done matches Some(res) ==> result_matches(op, res) && res is Push,
            match op {
                Operation::Connect { conn } => conn < old(self).engine.conns@.len(),
                Operation::Pop { conn } => conn < old(self).engine.conns@.len(),
                Operation::PopFrom { sock } => sock < old(self).engine.udp_socks@.len(),
                Operation::Accept { port, new_qd } => new_qd.val < old(self).bindings@.len(),
                _ => true,
            },
        ensures
            final(self).wf(),
            final(self).spec_tasks().len() == old(self).spec_tasks().len() + 1,
            final(self).spec_tasks().last().qt == r,
            final(self).spec_tasks() == old(self).spec_tasks().push(
                TaskEntry { qt: r, qd, op, done },
            ),
            has_task(final(self).spec_tasks(), r),
            !has_task(old(self).spec_tasks(), r),
            forall|q: u64|
                has_task(old(self).spec_tasks(), q) ==> has_task(final(self).spec_tasks(), q),
            final(self).spec_bindings() == old(self).spec_bindings(),
            final(self).spec_qtable() == old(self).spec_qtable(),
            final(self).spec_conns() == old(self).spec_conns(),
            final(self).spec_outbox() == old(self).spec_outbox(),
    {
        let qt = self.next_qt;
        self.next_qt = self.next_qt + 1;
        let ghost pre = *self;
        self.tasks.push(TaskEntry { qt, qd, op, done });
        proof {
            assert(self.tasks@.last().qt == qt);
            assert(has_task(self.tasks@, qt));
            if has_task(pre.tasks@, qt) {
                let i = choose|i: int| 0 <= i < pre.tasks@.len() && pre.tasks@[i].qt == qt;
                assert(pre.tasks@[i].qt < pre.next_qt);
                assert(false);
            }
            assert forall|q: u64| has_task(pre.tasks@, q) implies has_task(self.tasks@, q) by {
                let i = choose|i: int| 0 <= i < pre.tasks@.len() && pre.tasks@[i].qt == q;
                assert(self.tasks@[i].qt == q);
            }
        }
        qt
    }

    /// Accepts a connection on a passive socket: pre-allocates the child
    /// descriptor and returns the token of the pending operation.
    pub fn accept(&mut self, qd: QDesc) -> (r: Result<u64, Fail>)
        requires
            old(self).wf(),
        ensures
            final(self).wf(),
            r matches Ok(qt) ==> has_task(final(self).spec_tasks(), qt),
            // A listening socket below the machine bounds is owed the
            // token, with a pre-allocated child descriptor.
            old(self).spec_qtable()[qd.val as int] == Some(QType::TcpSocket) && old(self).is_live(
                qd,
            ) && old(self).spec_bindings()[qd.val as int] is Listening && old(self).spec_qtable().len() < 0xFFFF_0000 && old(self).spec_next_qt() < 0xFFFF_FFFF_FFFF_0000 ==> r is Ok,
            r matches Ok(qt) ==> ({
                &&& final(self).spec_qtable() == old(self).spec_qtable().push(
                    Some(QType::TcpSocket),
                )
                &&& final(self).spec_bindings() == old(self).spec_bindings().push(Binding::Fresh)
                &&& final(self).spec_tasks() == old(self).spec_tasks().push(
                    TaskEntry {
                        qt,
                        qd,
                        op: Operation::Accept {
                            port: old(self).spec_bindings()[qd.val as int]->Listening_0,
                            new_qd: QDesc { val: old(self).spec_qtable().len() as u32 },
                        },
                        done: None,
                    },
                )
            }),
            r is Err ==> final(self).spec_tasks() == old(self).spec_tasks() && final(self).spec_qtable() == old(self).spec_qtable(),
    {
        match self.qtable.get(qd) {
            Some(QType::TcpSocket) => {},
            _ => {
                return Err(Fail::new(EBADF));
            },
        }
        let port = match self.bindings[qd.val as usize] {
            Binding::Listening(p) => p,
            _ => {
                return Err(Fail::new(EBADF));
            },
        };
        if self.qtable.len() >= 0xFFFF_0000 || self.next_qt >= 0xFFFF_FFFF_FFFF_0000 {
            return Err(Fail::new(ENOMEM));
        }
        let new_qd = self.qtable.allocate(QType::TcpSocket);
        self.bindings.push(Binding::Fresh);
        let qt = self.submit(qd, Operation::Accept { port, new_qd }, None);
        Ok(qt)
    }

    /// Establishes a connection to a remote endpoint: opens an active
    /// connection in the engine (the SYN leaves at once) and returns the
    /// token of the operation that completes with the handshake.
    pub fn connect(&mut self, qd: QDesc, remote: Endpoint) -> (r: Result<u64, Fail>)
        requires
            old(self).wf(),
        ensures
            final(self).wf(),
            r matches Ok(qt) ==> has_task(final(self).spec_tasks(), qt),
            // An unconnected stream socket below the token bound is owed
            // the token; the SYN leaves at once and the descriptor binds
            // to the new connection, whose handshake the token follows.
            old(self).spec_qtable()[qd.val as int] == Some(QType::TcpSocket) && old(self).is_live(
                qd,
            ) && (old(self).spec_bindings()[qd.val as int] is Fresh || old(self).spec_bindings()[qd.val as int] is BoundPort) && old(self).spec_next_qt() < 0xFFFF_FFFF_FFFF_0000 ==> r is Ok,
            r matches Ok(qt) ==> ({
                &&& final(self).spec_conns().len() == old(self).spec_conns().len() + 1
                &&& final(self).spec_conns().last().state is SynSent
                &&& final(self).spec_conns().last().remote == remote
                &&& final(self).spec_outbox().len() == old(self).spec_outbox().len() + 1
                &&& final(self).spec_bindings()[qd.val as int] == Binding::Conn(
                    old(self).spec_conns().len() as usize,
                )
                &&& final(self).spec_tasks() == old(self).spec_tasks().push(
                    TaskEntry {
                        qt,
                        qd,
                        op: Operation::Connect { conn: old(self).spec_conns().len() as usize },
                        done: None,
                    },
                )
            }),
            r is Err ==> final(self).spec_tasks() == old(self).spec_tasks(),
    {
        match self.qtable.get(qd) {
            Some(QType::TcpSocket) => {},
            _ => {
                return Err(Fail::new(EBADF));
            },
        }
        match self.bindings[qd.val as usize] {
            Binding::Fresh | Binding::BoundPort(_) => {},
            _ => {
                return Err(Fail::new(EBADF));
            },
        }
        if self.next_qt >= 0xFFFF_FFFF_FFFF_0000 {
            return Err(Fail::new(ENOMEM));
        }
        let conn = self.engine.connect(remote, 0);
        let ghost pre = *self;
        self.bindings.set(qd.val as usize, Binding::Conn(conn));
        proof {
            assert forall|i: int|
                0 <= i < self.bindings@.len() implies match #[trigger] self.bindings@[i] {
                Binding::Conn(c) => c < self.engine.conns@.len(),
                Binding::Udp { sock, port } => sock < self.engine.udp_socks@.len(),
                _ => true,
            } by {
                if i != qd.val as int {
                    assert(self.bindings@[i] == pre.bindings@[i]);
                }
            }
        }
        let qt = self.submit(qd, Operation::Connect { conn }, None);
        Ok(qt)
    }

    /// Pushes the bytes of a scatter-gather array to a connected stream
    /// socket. A zero-length buffer is rejected with `EINVAL` before any
    /// scheduler slot is created.
    pub fn push(&mut self, qd: QDesc, sga: &Sga) -> (r: Result<u64, Fail>)
        requires
            old(self).wf(),
        ensures
            final(self).wf(),
            sga_len(*sga) == 0 ==> (r matches Err(e) && e.errno == EINVAL && final(self).spec_tasks() == old(self).spec_tasks()),
            r matches Ok(qt) ==> has_task(final(self).spec_tasks(), qt),
            sga_len(*sga) > 0 && push_ready(*old(self), qd, sga_len(*sga) as int) ==> r is Ok,
            r is Err ==> final(self).spec_tasks() == old(self).spec_tasks(),
    {
        let buf = clone_sgarray(sga);
        if buf.len() == 0 {
            return Err(Fail::new(EINVAL));
        }
        proof {
            crate::tcp_cb::lemma_flatten_len(sga.segments@);
        }
        self.do_push(qd, buf)
    }

    /// Pushes raw bytes to a connected stream socket. A zero-length buffer
    /// is rejected with `EINVAL` before any scheduler slot is created.
    pub fn push2(&mut self, qd: QDesc, data: &[u8]) -> (r: Result<u64, Fail>)
        requires
            old(self).wf(),
        ensures
            final(self).wf(),
            data@.len() == 0 ==> (r matches Err(e) && e.errno == EINVAL && final(self).spec_tasks() == old(self).spec_tasks()),
            r matches Ok(qt) ==> has_task(final(self).spec_tasks(), qt),
            data@.len() > 0 && push_ready(*old(self), qd, data@.len() as int) ==> r is Ok,
            r is Err ==> final(self).spec_tasks() == old(self).spec_tasks(),
    {
        if data.len() == 0 {
            return Err(Fail::new(EINVAL));
        }
        let buf = slice_to_vec(data);
        self.do_push(qd, buf)
    }

    /// Hands a non-empty buffer to the engine and records the completed
    /// push operation.
    fn do_push(&mut self, qd: QDesc, buf: Vec<u8>) -> (r: Result<u64, Fail>)
        requires
            old(self).wf(),
            buf@.len() > 0,
        ensures
            final(self).wf(),
            r matches Ok(qt) ==> has_task(final(self).spec_tasks(), qt),
            // A connected stream socket whose connection accepts data, with
            // the bytes inside the remaining sequence space and the token
            // bound not exhausted, is owed the token, and the bytes enter
            // that connection's pushed stream; the completed push is
            // recorded at once.
            push_ready(*old(self), qd, buf@.len() as int) ==> r is Ok,
            r matches Ok(qt) ==> (old(self).spec_bindings()[qd.val as int] matches Binding::Conn(c)
                && final(self).spec_conns()[c as int].pushed@ == old(self).spec_conns()[c as int].pushed@ + buf@ && final(self).spec_tasks() == old(self).spec_tasks().push(
                TaskEntry { qt, qd, op: Operation::Push, done: Some(OperationResult::Push) },
            )),
            r is Err ==> final(self).spec_tasks() == old(self).spec_tasks(),
    {
        match self.qtable.get(qd) {
            Some(QType::TcpSocket) => {},
            _ => {
                return Err(Fail::new(EBADF));
            },
        }
        let conn = match self.bindings[qd.val as usize] {
            Binding::Conn(c) => c,
            _ => {
                return Err(Fail::new(EBADF));
            },
        };
        if self.next_qt >= 0xFFFF_FFFF_FFFF_0000 {
            return Err(Fail::new(ENOMEM));
        }
        self.engine.tcp_push(conn, buf)?;
        let qt = self.submit(qd, Operation::Push, Some(OperationResult::Push));
        Ok(qt)
    }

    /// Sends the bytes of a scatter-gather array as one datagram. A
    /// zero-length buffer is rejected with `EINVAL` before any scheduler
    /// slot is created.
    pub fn pushto(&mut self, qd: QDesc, sga: &Sga, remote: Endpoint) -> (r: Result<u64, Fail>)
        requires
            old(self).wf(),
        ensures
            final(self).wf(),
            sga_len(*sga) == 0 ==> (r matches Err(e) && e.errno == EINVAL && final(self).spec_tasks() == old(self).spec_tasks()),
            r matches Ok(qt) ==> has_task(final(self).spec_tasks(), qt),
            sga_len(*sga) > 0 && pushto_ready(*old(self), qd) ==> r is Ok,
            r is Err ==> final(self).spec_tasks() == old(self).spec_tasks(),
    {
        let buf = clone_sgarray(sga);
        if buf.len() == 0 {
            return Err(Fail::new(EINVAL));
        }
        proof {
            crate::tcp_cb::lemma_flatten_len(sga.segments@);
        }
        self.do_pushto(qd, buf, remote)
    }

    /// Sends raw bytes as one datagram. A zero-length buffer is rejected
    /// with `EINVAL` before any scheduler slot is created.
    pub fn pushto2(&mut self, qd: QDesc, data: &[u8], remote: Endpoint) -> (r: Result<u64, Fail>)
        requires
            old(self).wf(),
        ensures
            final(self).wf(),
            data@.len() == 0 ==> (r matches Err(e) && e.errno == EINVAL && final(self).spec_tasks() == old(self).spec_tasks()),
            r matches Ok(qt) ==> has_task(final(self).spec_tasks(), qt),
            data@.len() > 0 && pushto_ready(*old(self), qd) ==> r is Ok,
            r is Err ==> final(self).spec_tasks() == old(self).spec_tasks(),
    {
        if data.len() == 0 {
            return Err(Fail::new(EINVAL));
        }
        let buf = slice_to_vec(data);
        self.do_pushto(qd, buf, remote)
    }

    /// Hands one datagram to the engine and records the completed pushto.
    fn do_pushto(&mut self, qd: QDesc, buf: Vec<u8>, remote: Endpoint) -> (r: Result<u64, Fail>)
        requires
            old(self).wf(),
            buf@.len() > 0,
        ensures
            final(self).wf(),
            r matches Ok(qt) ==> has_task(final(self).spec_tasks(), qt),
            final(self).spec_qtable() == old(self).spec_qtable(),
            // A bound datagram socket below the token bound is owed the
            // token; the datagram leaves at once and the completed pushto
            // is recorded.
            pushto_ready(*old(self), qd) ==> r is Ok,
            r matches Ok(qt) ==> ({
                &&& final(self).spec_outbox().len() == old(self).spec_outbox().len() + 1
                &&& final(self).spec_outbox().last().udp
                &&& final(self).spec_outbox().last().payload@ == buf@
                &&& final(self).spec_outbox().last().dst == remote
                &&& final(self).spec_tasks() == old(self).spec_tasks().push(
                    TaskEntry { qt, qd, op: Operation::Pushto, done: Some(OperationResult::Push) },
                )
            }),
            r is Err ==> final(self).spec_tasks() == old(self).spec_tasks(),
    {
        match self.qtable.get(qd) {
            Some(QType::UdpSocket) => {},
            _ => {
                return Err(Fail::new(EBADF));
            },
        }
        let port = match self.bindings[qd.val as usize] {
            Binding::Udp { sock: _, port } => port,
            _ => {
                return Err(Fail::new(EBADF));
            },
        };
        if self.next_qt >= 0xFFFF_FFFF_FFFF_0000 {
            return Err(Fail::new(ENOMEM));
        }
        self.engine.udp_sendto(port, remote, 0, buf);
        let qt = self.submit(qd, Operation::Pushto, Some(OperationResult::Push));
        Ok(qt)
    }

    /// Pops data from a socket: the token completes when bytes (or the
    /// peer's end-of-stream) arrive.
    pub fn pop(&mut self, qd: QDesc) -> (r: Result<u64, Fail>)
        requires
            old(self).wf(),
        ensures
            final(self).wf(),
            r matches Ok(qt) ==> has_task(final(self).spec_tasks(), qt),
            // An unknown descriptor gives EBADF; a connected stream or a
            // bound datagram socket below the token bound is owed the
            // token, following that very connection or socket.
            !old(self).is_live(qd) ==> (r matches Err(e) && e.errno == EBADF),
            old(self).is_live(qd) && (old(self).spec_bindings()[qd.val as int] is Conn || old(self).spec_bindings()[qd.val as int] is Udp) && old(self).spec_next_qt()
                < 0xFFFF_FFFF_FFFF_0000 ==> r is Ok,
            r matches Ok(qt) ==> ({
                &&& (old(self).spec_bindings()[qd.val as int] matches Binding::Conn(c)
                    ==> final(self).spec_tasks() == old(self).spec_tasks().push(
                    TaskEntry { qt, qd, op: Operation::Pop { conn: c }, done: None },
                ))
                &&& (old(self).spec_bindings()[qd.val as int] matches Binding::Udp { sock, port }
                    ==> final(self).spec_tasks() == old(self).spec_tasks().push(
                    TaskEntry { qt, qd, op: Operation::PopFrom { sock }, done: None },
                ))
            }),
            r is Err ==> final(self).spec_tasks() == old(self).spec_tasks(),
    {
        match self.qtable.get(qd) {
            Some(_) => {},
            None => {
                return Err(Fail::new(EBADF));
            },
        }
        if self.next_qt >= 0xFFFF_FFFF_FFFF_0000 {
            return Err(Fail::new(ENOMEM));
        }
        match self.bindings[qd.val as usize] {
            Binding::Conn(conn) => {
                let qt = self.submit(qd, Operation::Pop { conn }, None);
                Ok(qt)
            },
            Binding::Udp { sock, port: _ } => {
                let qt = self.submit(qd, Operation::PopFrom { sock }, None);
                Ok(qt)
            },
            _ => Err(Fail::new(EBADF)),
        }
    }

    /// Closes a socket: frees the descriptor (rejecting a double close
    /// with `EBADF`), begins closing the connection, and completes every
    /// operation still pending on it with `EBADF`.
    pub fn close(&mut self, qd: QDesc) -> (r: Result<(), Fail>)
        requires
            old(self).wf(),
        ensures
            final(self).wf(),
            // A live descriptor is owed its close: it is freed — so a
            // second close gives EBADF — and every operation still pending
            // on it completes with EBADF while every other slot is
            // untouched. Closing an unknown or already-closed descriptor
            // gives EBADF and changes nothing.
            old(self).is_live(qd) ==> ({
                &&& r is Ok
                &&& final(self).spec_qtable() == old(self).spec_qtable().update(
                    qd.val as int,
                    None::<QType>,
                )
                &&& final(self).spec_tasks().len() == old(self).spec_tasks().len()
                &&& forall|i: int|
                    0 <= i < old(self).spec_tasks().len() ==> ({
                        let t0 = #[trigger] old(self).spec_tasks()[i];
                        let t1 = final(self).spec_tasks()[i];
                        &&& t1.qt == t0.qt
                        &&& t1.qd == t0.qd
                        &&& t1.op == t0.op
                        &&& (t0.qd.val == qd.val && t0.done is None ==> t1.done == Some(
                            OperationResult::Failed(EBADF),
                        ))
                        &&& (!(t0.qd.val == qd.val && t0.done is None) ==> t1.done == t0.done)
                    })
            }),
            !old(self).is_live(qd) ==> (r matches Err(e) && e.errno == EBADF && final(self).spec_tasks() == old(self).spec_tasks() && final(self).spec_qtable() == old(self).spec_qtable()),
    {
        let binding = match self.qtable.get(qd) {
            Some(_) => self.bindings[qd.val as usize],
            None => {
                return Err(Fail::new(EBADF));
            },
        };
        match self.qtable.free(qd) {
            Ok(()) => {},
            Err(e) => {
                return Err(e);
            },
        }
        match binding {
            Binding::Conn(conn) => {
                let _ = self.engine.tcp_close(conn);
            },
            _ => {},
        }
        // Pending operations on this descriptor fail rather than dangle.
        let ghost before_loop = *self;
        let mut i: usize = 0;
        while i < self.tasks.len()
            invariant
                old(self).wf(),
                self.wf(),
                i <= self.tasks@.len(),
                self.qtable@ == before_loop.qtable@,
                self.tasks@.len() == old(self).spec_tasks().len(),
                forall|k: int|
                    i <= k < self.tasks@.len() ==> (#[trigger] self.tasks@[k]) == old(self).spec_tasks()[k],
                forall|k: int|
                    0 <= k < i ==> ({
                        let t0 = #[trigger] old(self).spec_tasks()[k];
                        let t1 = self.tasks@[k];
                        &&& t1.qt == t0.qt
                        &&& t1.qd == t0.qd
                        &&& t1.op == t0.op
                        &&& (t0.qd.val == qd.val && t0.done is None ==> t1.done == Some(
                            OperationResult::Failed(EBADF),
                        ))
                        &&& (!(t0.qd.val == qd.val && t0.done is None) ==> t1.done == t0.done)
                    }),
            decreases self.tasks@.len() - i,
        {
            let ghost pre = *self;
            if self.tasks[i].qd.val == qd.val && self.tasks[i].done.is_none() {
                let entry = self.tasks.remove(i);
                let replaced = TaskEntry {
                    qt: entry.qt,
                    qd: entry.qd,
                    op: entry.op,
                    done: Some(OperationResult::Failed(EBADF)),
                };
                self.tasks.insert(i, replaced);
                proof {
                    assert(self.tasks@ =~= pre.tasks@.update(i as int, replaced));
                    assert forall|a: int, b: int|
                        0 <= a < b < self.tasks@.len() implies (#[trigger] self.tasks@[a]).qt != (
                    #[trigger] self.tasks@[b]).qt by {
                        assert(self.tasks@[a].qt == pre.tasks@[a].qt);
                        assert(self.tasks@[b].qt == pre.tasks@[b].qt);
                    }
                    assert forall|a: int|
                        0 <= a < self.tasks@.len() implies (#[trigger] self.tasks@[a]).qt
                        < self.next_qt && match self.tasks@[a].op {
                        Operation::Connect { conn } => conn < self.engine.conns@.len(),
                        Operation::Pop { conn } => conn < self.engine.conns@.len(),
                        Operation::PopFrom { sock } => sock < self.engine.udp_socks@.len(),
                        Operation::Accept { port, new_qd } => new_qd.val < self.bindings@.len(),
                        _ => true,
                    } by {
                        if a != i {
                            assert(self.tasks@[a] == pre.tasks@[a]);
                        } else {
                            assert(self.tasks@[a].op == pre.tasks@[a].op);
                        }
                    }
                }
            }
            i = i + 1;
        }
        Ok(())
    }

    /// One scheduler pass: gives every pending operation a chance to make
    /// progress against the engine.
    fn poll_once(&mut self)
        requires
            old(self).wf(),
        ensures
            final(self).wf(),
            final(self).spec_tasks().len() == old(self).spec_tasks().len(),
            final(self).spec_qtable() == old(self).spec_qtable(),
            forall|i: int|
                0 <= i < final(self).spec_tasks().len() ==> ((#[trigger] final(self).spec_tasks()[i]).qt == old(self).spec_tasks()[i].qt
                    && final(self).spec_tasks()[i].qd == old(self).spec_tasks()[i].qd
                    && final(self).spec_tasks()[i].op == old(self).spec_tasks()[i].op),
            // A recorded result is never lost or rewritten.
            forall|i: int|
                0 <= i < final(self).spec_tasks().len() && old(self).spec_tasks()[i].done is Some
                    ==> (#[trigger] final(self).spec_tasks()[i]).done == old(self).spec_tasks()[i].done,
    {
        let mut i: usize = 0;
        while i < self.tasks.len()
            invariant
                self.wf(),
                i <= self.tasks@.len(),
                self.tasks@.len() == old(self).spec_tasks().len(),
                self.qtable@ == old(self).spec_qtable(),
                forall|k: int|
                    0 <= k < self.tasks@.len() ==> ((#[trigger] self.tasks@[k]).qt == old(self).spec_tasks()[k].qt
                        && self.tasks@[k].qd == old(self).spec_tasks()[k].qd
                        && self.tasks@[k].op == old(self).spec_tasks()[k].op),
                forall|k: int|
                    0 <= k < self.tasks@.len() && old(self).spec_tasks()[k].done is Some
                        ==> (#[trigger] self.tasks@[k]).done == old(self).spec_tasks()[k].done,
            decreases self.tasks@.len() - i,
        {
            let ghost pre = *self;
            let pending = self.tasks[i].done.is_none();
            if pending {
                let entry = self.tasks.remove(i);
                let mut done: Option<OperationResult> = None;
                let mut rebind: Option<(usize, usize)> = None;
                match entry.op {
                    Operation::Accept { port, new_qd } => {
                        match self.engine.accept_ready(port) {
                            Some(conn) => {
                                // The accepted connection's remote peer
                                // rides in the result.
                                let peer = self.engine.conns[conn].remote;
                                rebind = Some((new_qd.val as usize, conn));
                                done = Some(OperationResult::Accept(new_qd, peer));
                            },
                            None => {},
                        }
                    },
                    Operation::Connect { conn } => {
                        match self.engine.conn_state(conn) {
                            Some(TcpState::Established) => {
                                done = Some(OperationResult::Connect);
                            },
                            Some(TcpState::Closed) => {
                                done = Some(OperationResult::Failed(ECONNRESET));
                            },
                            _ => {},
                        }
                    },
                    Operation::Push | Operation::Pushto => {},
                    Operation::Pop { conn } => {
                        match self.engine.tcp_pop(conn) {
                            Ok(Some(bytes)) => {
                                done = Some(OperationResult::Pop(None, bytes));
                            },
                            Ok(None) => {
                                // A reset or torn-down connection fails its
                                // pending pops rather than leaving them
                                // dangling.
                                match self.engine.conn_state(conn) {
                                    Some(TcpState::Closed) => {
                                        done = Some(OperationResult::Failed(ECONNRESET));
                                    },
                                    _ => {},
                                }
                            },
                            Err(_) => {
                                done = Some(OperationResult::Failed(EBADF));
                            },
                        }
                    },
                    Operation::PopFrom { sock } => {
                        match self.engine.udp_recv(sock) {
                            Some((who, bytes)) => {
                                done = Some(OperationResult::Pop(Some(who), bytes));
                            },
                            None => {},
                        }
                    },
                }
                match rebind {
                    Some((slot, conn)) => {
                        if slot < self.bindings.len() {
                            let ghost mid = *self;
                            self.bindings.set(slot, Binding::Conn(conn));
                            proof {
                                assert forall|b: int|
                                    0 <= b < self.bindings@.len() implies match #[trigger] self.bindings@[b] {
                                    Binding::Conn(c) => c < self.engine.conns@.len(),
                                    Binding::Udp { sock, port } => sock
                                        < self.engine.udp_socks@.len(),
                                    _ => true,
                                } by {
                                    if b != slot {
                                        assert(self.bindings@[b] == mid.bindings@[b]);
                                    }
                                }
                            }
                        }
                    },
                    None => {},
                }
                let replaced = TaskEntry { qt: entry.qt, qd: entry.qd, op: entry.op, done };
                self.tasks.insert(i, replaced);
                proof {
                    assert forall|a: int, b: int|
                        0 <= a < b < self.tasks@.len() implies (#[trigger] self.tasks@[a]).qt != (
                    #[trigger] self.tasks@[b]).qt by {
                        assert(self.tasks@[a].qt == pre.tasks@[a].qt);
                        assert(self.tasks@[b].qt == pre.tasks@[b].qt);
                    }
                    assert forall|a: int|
                        0 <= a < self.tasks@.len() implies (#[trigger] self.tasks@[a]).qt
                        < self.next_qt && match self.tasks@[a].op {
                        Operation::Connect { conn } => conn < self.engine.conns@.len(),
                        Operation::Pop { conn } => conn < self.engine.conns@.len(),
                        Operation::PopFrom { sock } => sock < self.engine.udp_socks@.len(),
                        Operation::Accept { port, new_qd } => new_qd.val < self.bindings@.len(),
                        _ => true,
                    } by {
                        if a != i {
                            assert(self.tasks@[a] == pre.tasks@[a]);
                        } else {
                            assert(self.tasks@[a].op == pre.tasks@[a].op);
                        }
                    }
                }
            }
            i = i + 1;
        }
    }

    /// Finds the scheduler slot carrying a token.
    fn find_task(&self, qt: u64) -> (r: Option<usize>)
        ensures
            r matches Some(i) ==> i < self.spec_tasks().len() && self.spec_tasks()[i as int].qt
                == qt,
            r is None ==> !has_task(self.spec_tasks(), qt),
    {
        let mut i: usize = 0;
        while i < self.tasks.len()
            invariant
                i <= self.tasks@.len(),
                forall|k: int| 0 <= k < i ==> (#[trigger] self.tasks@[k]).qt != qt,
            decreases self.tasks@.len() - i,
        {
            if self.tasks[i].qt == qt {
                return Some(i);
            }
            i = i + 1;
        }
        proof {
            if has_task(self.tasks@, qt) {
                let k = choose|k: int| 0 <= k < self.tasks@.len() && self.tasks@[k].qt == qt;
                assert(false);
            }
        }
        None
    }

    /// Drives one scheduler pass, then extracts the operation's result if
    /// it completed. An unknown token — in particular one already
    /// extracted — is rejected with `EINVAL`; a successful wait consumes
    /// the token, so a second wait on it gives `EINVAL`. In this
    /// single-threaded engine a pass either completes the operation or
    /// nothing more can happen until the caller feeds the engine another
    /// frame, so an operation still pending reports `EAGAIN` rather than
    /// spinning.
    pub fn wait2(&mut self, qt: u64) -> (r: Result<(QDesc, OperationResult), Fail>)
        requires
            old(self).wf(),
        ensures
            final(self).wf(),
            !has_task(old(self).spec_tasks(), qt) ==> (r matches Err(e) && e.errno == EINVAL
                && final(self).spec_tasks() == old(self).spec_tasks()),
            r is Ok ==> !has_task(final(self).spec_tasks(), qt),
            final(self).spec_qtable() == old(self).spec_qtable(),
            // An operation whose result is already recorded is owed
            // exactly that result, with its originating descriptor.
            forall|i: int|
                0 <= i < old(self).spec_tasks().len() && (#[trigger] old(self).spec_tasks()[i]).qt
                    == qt && old(self).spec_tasks()[i].done is Some ==> ({
                    &&& r matches Ok((qd, res))
                    &&& qd == old(self).spec_tasks()[i].qd
                    &&& Some(res) == old(self).spec_tasks()[i].done
                }),
            // Any result handed out belongs to this token's operation and
            // is of the kind that operation produces.
            r matches Ok((qd, res)) ==> exists|i: int|
                0 <= i < old(self).spec_tasks().len() && (#[trigger] old(self).spec_tasks()[i]).qt
                    == qt && old(self).spec_tasks()[i].qd == qd && result_matches(
                    old(self).spec_tasks()[i].op,
                    res,
                ),
            // An extracted accept has bound its new descriptor to the
            // accepted connection.
            r matches Ok((qd, res)) ==> (res matches OperationResult::Accept(nq, _)
                ==> nq.val < final(self).spec_bindings().len() && final(self).spec_bindings()[nq.val as int] is Conn),
    {
        let ghost at_entry = *self;
        match self.find_task(qt) {
            None => {
                return Err(Fail::new(EINVAL));
            },
            Some(_) => {},
        }
        self.poll_once();
        let idx = match self.find_task(qt) {
            Some(i) => i,
            None => {
                proof {
                    let k = choose|k: int|
                        0 <= k < at_entry.spec_tasks().len() && at_entry.spec_tasks()[k].qt == qt;
                    assert(self.tasks@[k].qt == qt);
                    assert(false);
                }
                return Err(Fail::new(crate::fail::EAGAIN));
            },
        };
        let is_done = match &self.tasks[idx].done {
            Some(_) => true,
            None => false,
        };
        if !is_done {
            proof {
                // Nothing recorded for this token: its unique slot kept
                // whatever result it had, and has none.
                assert forall|i: int|
                    0 <= i < at_entry.spec_tasks().len() && (
                #[trigger] at_entry.spec_tasks()[i]).qt == qt
                    && at_entry.spec_tasks()[i].done is Some implies false by {
                    assert(self.tasks@[i].qt == qt);
                    assert(self.tasks@[i].done == at_entry.spec_tasks()[i].done);
                    assert(self.tasks@[idx as int].qt == qt);
                    if i != idx as int {
                        assert(false);
                    }
                }
            }
            return Err(Fail::new(crate::fail::EAGAIN));
        }
        let ghost pre = *self;
        let entry = self.tasks.remove(idx);
        proof {
            // The token's unique slot is the one extracted; the pass kept
            // its identity and any recorded result.
            assert(entry == pre.tasks@[idx as int]);
            assert(at_entry.spec_tasks()[idx as int].qt == qt);
            assert(at_entry.spec_tasks()[idx as int].qd == entry.qd);
            assert(at_entry.spec_tasks()[idx as int].op == entry.op);
            assert forall|i: int|
                0 <= i < at_entry.spec_tasks().len() && (
            #[trigger] at_entry.spec_tasks()[i]).qt == qt implies i == idx as int by {
                assert(pre.tasks@[i].qt == qt);
                assert(pre.tasks@[idx as int].qt == qt);
            }
        }
        proof {
            assert forall|a: int, b: int|
                0 <= a < b < self.tasks@.len() implies (#[trigger] self.tasks@[a]).qt != (
            #[trigger] self.tasks@[b]).qt by {
                let pa = if a < idx {
                    a
                } else {
                    a + 1
                };
                let pb = if b < idx {
                    b
                } else {
                    b + 1
                };
                assert(self.tasks@[a].qt == pre.tasks@[pa].qt);
                assert(self.tasks@[b].qt == pre.tasks@[pb].qt);
            }
            if has_task(self.tasks@, qt) {
                let k = choose|k: int| 0 <= k < self.tasks@.len() && self.tasks@[k].qt == qt;
                let pk = if k < idx {
                    k
                } else {
                    k + 1
                };
                assert(pre.tasks@[pk].qt == qt);
                assert(pre.tasks@[idx as int].qt == qt);
                assert(false);
            }
        }
        match entry.done {
            Some(result) => Ok((entry.qd, result)),
            None => {
                proof {
                    assert(false);
                }
                Err(Fail::new(EINVAL))
            },
        }
    }

    /// Waits for one operation to complete and packs its result.
    pub fn wait(&mut self, qt: u64) -> (r: Result<QResult, Fail>)
        requires
            old(self).wf(),
        ensures
            final(self).wf(),
            !has_task(old(self).spec_tasks(), qt) ==> (r matches Err(e) && e.errno == EINVAL),
            r matches Ok(qr) ==> qr.qt == qt && !has_task(final(self).spec_tasks(), qt),
            // An already-recorded result is owed, packed, with its
            // originating descriptor in the record.
            task_done(old(self).spec_tasks(), qt) ==> r is Ok,
            r matches Ok(qr) ==> exists|i: int|
                0 <= i < old(self).spec_tasks().len() && (#[trigger] old(self).spec_tasks()[i]).qt
                    == qt && old(self).spec_tasks()[i].qd.val == qr.qd,
    {
        let ghost at_entry = *self;
        let (qd, result) = self.wait2(qt)?;
        proof {
            if task_done(at_entry.spec_tasks(), qt) {
                let i = choose|i: int|
                    0 <= i < at_entry.spec_tasks().len() && (#[trigger] at_entry.spec_tasks()[i]).qt
                        == qt && at_entry.spec_tasks()[i].done is Some;
                assert(at_entry.spec_tasks()[i].done is Some);
            }
        }
        Ok(pack_result(result, qd, qt))
    }

    /// Drives one scheduler pass and scans the given tokens in order,
    /// extracting the first completed one; its index is returned, and
    /// every lower-index token is still registered and can be waited on
    /// later. An unknown token gives `EINVAL`; when none of the set has
    /// completed, `EAGAIN`, so the caller can feed the engine more frames
    /// and try again.
    #[verifier::loop_isolation(false)]
    pub fn wait_any2(&mut self, qts: &[u64]) -> (r: Result<(usize, QDesc, OperationResult), Fail>)
        requires
            old(self).wf(),
        ensures
            final(self).wf(),
            r matches Ok((i, qd, res)) ==> ({
                &&& i < qts@.len()
                &&& !has_task(final(self).spec_tasks(), qts@[i as int])
                // The result belongs to the winning token's operation and
                // is of the kind that operation produces.
                &&& exists|k: int|
                    0 <= k < old(self).spec_tasks().len() && (
                    #[trigger] old(self).spec_tasks()[k]).qt == qts@[i as int] && old(self).spec_tasks()[k].qd == qd && result_matches(old(self).spec_tasks()[k].op, res)
                // Lower-index operations had not completed in the deciding
                // pass: each is still registered, without a result.
                &&& forall|j: int|
                    0 <= j < i && qts@[j] != qts@[i as int] ==> task_pending(
                        final(self).spec_tasks(),
                        #[trigger] qts@[j],
                    )
            }),
            // Success is owed once every listed token is known and any of
            // them already holds a recorded result.
            (forall|j: int|
                0 <= j < qts@.len() ==> has_task(old(self).spec_tasks(), #[trigger] qts@[j]))
                && (exists|j: int|
                0 <= j < qts@.len() && task_done(old(self).spec_tasks(), #[trigger] qts@[j]))
                ==> r is Ok,
    {
        let ghost at_entry = *self;
        self.poll_once();
        let mut i: usize = 0;
        while i < qts.len()
            invariant
                self.wf(),
                i <= qts@.len(),
                forall|j: int| 0 <= j < i ==> task_pending(self.tasks@, #[trigger] qts@[j]),
                // The deciding pass preserved every slot's identity and
                // any recorded result; the scan itself changes nothing.
                self.tasks@.len() == at_entry.spec_tasks().len(),
                forall|k: int|
                    0 <= k < self.tasks@.len() ==> ((#[trigger] self.tasks@[k]).qt
                        == at_entry.spec_tasks()[k].qt && self.tasks@[k].qd
                        == at_entry.spec_tasks()[k].qd && self.tasks@[k].op
                        == at_entry.spec_tasks()[k].op),
                forall|k: int|
                    0 <= k < self.tasks@.len() && at_entry.spec_tasks()[k].done is Some ==> (
                    #[trigger] self.tasks@[k]).done == at_entry.spec_tasks()[k].done,
            decreases qts@.len() - i,
        {
            let qt = qts[i];
            let idx = match self.find_task(qt) {
                Some(k) => k,
                None => {
                    proof {
                        // A token known at entry is still registered after
                        // the pass, so this exit needs an unknown token.
                        if forall|j: int|
                            0 <= j < qts@.len() ==> has_task(
                                at_entry.spec_tasks(),
                                #[trigger] qts@[j],
                            ) {
                            assert(has_task(at_entry.spec_tasks(), qts@[i as int]));
                            let k = choose|k: int|
                                0 <= k < at_entry.spec_tasks().len() && (
                                #[trigger] at_entry.spec_tasks()[k]).qt == qt;
                            assert(self.tasks@[k].qt == qt);
                            assert(false);
                        }
                    }
                    return Err(Fail::new(EINVAL));
                },
            };
            let is_done = match &self.tasks[idx].done {
                Some(_) => true,
                None => false,
            };
            if is_done {
                let ghost pre = *self;
                let entry = self.tasks.remove(idx);
                proof {
                    assert forall|a: int, b: int|
                        0 <= a < b < self.tasks@.len() implies (
                    #[trigger] self.tasks@[a]).qt != (#[trigger] self.tasks@[b]).qt by {
                        let pa = if a < idx {
                            a
                        } else {
                            a + 1
                        };
                        let pb = if b < idx {
                            b
                        } else {
                            b + 1
                        };
                        assert(self.tasks@[a].qt == pre.tasks@[pa].qt);
                        assert(self.tasks@[b].qt == pre.tasks@[pb].qt);
                    }
                    if has_task(self.tasks@, qt) {
                        let k = choose|k: int|
                            0 <= k < self.tasks@.len() && self.tasks@[k].qt == qt;
                        let pk = if k < idx {
                            k
                        } else {
                            k + 1
                        };
                        assert(pre.tasks@[pk].qt == qt);
                        assert(pre.tasks@[idx as int].qt == qt);
                        assert(false);
                    }
                    assert forall|j: int|
                        0 <= j < i && qts@[j] != qt implies task_pending(
                        self.tasks@,
                        #[trigger] qts@[j],
                    ) by {
                        let k = choose|k: int|
                            0 <= k < pre.tasks@.len() && (#[trigger] pre.tasks@[k]).qt == qts@[j]
                                && pre.tasks@[k].done is None;
                        assert(pre.tasks@[k].qt != qt);
                        if k < idx {
                            assert(self.tasks@[k].qt == qts@[j]);
                            assert(self.tasks@[k].done is None);
                        } else {
                            assert(self.tasks@[k - 1].qt == qts@[j]);
                            assert(self.tasks@[k - 1].done is None);
                        }
                    }
                    // Provenance: the extracted slot is the token's unique
                    // one, with its identity from entry to extraction.
                    assert(entry == pre.tasks@[idx as int]);
                    assert(at_entry.spec_tasks()[idx as int].qt == qt);
                    assert(at_entry.spec_tasks()[idx as int].qd == entry.qd);
                    assert(at_entry.spec_tasks()[idx as int].op == entry.op);
                }
                match entry.done {
                    Some(result) => {
                        return Ok((i, entry.qd, result));
                    },
                    None => {
                        proof {
                            assert(false);
                        }
                        return Err(Fail::new(EINVAL));
                    },
                }
            }
            i = i + 1;
        }
        proof {
            // Every listed slot came through the pass without a result, so
            // none held one at entry either.
            if exists|j: int|
                0 <= j < qts@.len() && task_done(at_entry.spec_tasks(), #[trigger] qts@[j]) {
                let j = choose|j: int|
                    0 <= j < qts@.len() && task_done(at_entry.spec_tasks(), qts@[j]);
                let k = choose|k: int|
                    0 <= k < at_entry.spec_tasks().len() && (#[trigger] at_entry.spec_tasks()[k]).qt
                        == qts@[j] && at_entry.spec_tasks()[k].done is Some;
                assert(self.tasks@[k].qt == qts@[j]);
                assert(self.tasks@[k].done == at_entry.spec_tasks()[k].done);
                assert(task_pending(self.tasks@, qts@[j]));
                let k2 = choose|k2: int|
                    0 <= k2 < self.tasks@.len() && (#[trigger] self.tasks@[k2]).qt == qts@[j]
                        && self.tasks@[k2].done is None;
                if k != k2 {
                    assert(false);
                }
            }
        }
        Err(Fail::new(crate::fail::EAGAIN))
    }

    /// Waits until any of the given operations completes, packing the
    /// result of the lowest completed index.
    pub fn wait_any(&mut self, qts: &[u64]) -> (r: Result<(usize, QResult), Fail>)
        requires
            old(self).wf(),
        ensures
            final(self).wf(),
            r matches Ok((i, qr)) ==> i < qts@.len() && qr.qt == qts@[i as int],
            // Success is owed once every listed token is known and any of
            // them already holds a recorded result.
            (forall|j: int|
                0 <= j < qts@.len() ==> has_task(old(self).spec_tasks(), #[trigger] qts@[j]))
                && (exists|j: int|
                0 <= j < qts@.len() && task_done(old(self).spec_tasks(), #[trigger] qts@[j]))
                ==> r is Ok,
    {
        let (i, qd, result) = self.wait_any2(qts)?;
        let qt = qts[i];
        Ok((i, pack_result(result, qd, qt)))
    }

    /// Allocates a scatter-gather array of `size` bytes out of the buffer
    /// pool: one zeroed segment backed by one chunk. A zero or oversized
    /// request is rejected with `EINVAL`; an exhausted pool with `ENOMEM`,
    /// and a later free makes a retry succeed.
    pub fn sgaalloc(&mut self, size: usize) -> (r: Result<Sga, Fail>)
        requires
            old(self).wf(),
        ensures
            final(self).wf(),
            final(self).spec_tasks() == old(self).spec_tasks(),
            size == 0 ==> (r matches Err(e) && e.errno == EINVAL && final(self).pool_in_use()
                == old(self).pool_in_use()),
            size > 0 && size <= old(self).pool_chunk_capacity() && old(self).pool_free() == 0 ==> (
            r matches Err(e) && e.errno == ENOMEM && final(self).pool_in_use() == old(self).pool_in_use()),
            size > 0 && size <= old(self).pool_chunk_capacity() && old(self).pool_free() > 0 ==> (
            r matches Ok(sga) && ({
                &&& sga.segments@.len() == 1
                &&& sga.segments@[0]@.len() == size
                &&& sga.chunk matches Some(id)
                &&& !old(self).pool_in_use().contains(id)
                &&& final(self).pool_in_use() == old(self).pool_in_use().insert(id)
                &&& final(self).pool_free() == old(self).pool_free() - 1
            })),
    {
        if size == 0 {
            return Err(Fail::new(EINVAL));
        }
        let cap = self.umem.chunk_capacity() as usize;
        if size > cap {
            return Err(Fail::new(EINVAL));
        }
        match self.umem.get_buffer() {
            None => Err(Fail::new(ENOMEM)),
            Some(buf) => {
                let id = match buf.chunk_id() {
                    Some(id) => id,
                    None => {
                        proof {
                            assert(false);
                        }
                        return Err(Fail::new(EINVAL));
                    },
                };
                let bytes = zero_vec(size);
                let mut segments: Vec<Vec<u8>> = Vec::new();
                segments.push(bytes);
                Ok(Sga { segments, addr: None, chunk: Some(id) })
            },
        }
    }

    /// Frees a scatter-gather array: its pool chunk, if it has one, goes
    /// back to the free list. Freeing the same chunk twice is rejected
    /// with `EINVAL`, so alloc followed by free is a no-op on the pool's
    /// in-use set.
    pub fn sgafree(&mut self, sga: Sga) -> (r: Result<(), Fail>)
        requires
            old(self).wf(),
        ensures
            final(self).wf(),
            final(self).spec_tasks() == old(self).spec_tasks(),
            sga.chunk matches Some(id) ==> ({
                &&& old(self).pool_in_use().contains(id) ==> (r is Ok && final(self).pool_in_use()
                    == old(self).pool_in_use().remove(id) && final(self).pool_free() == old(self).pool_free() + 1)
                &&& !old(self).pool_in_use().contains(id) ==> (r matches Err(e) && e.errno
                    == EINVAL && final(self).pool_in_use() == old(self).pool_in_use())
            }),
            sga.chunk is None ==> r is Ok && final(self).pool_in_use() == old(self).pool_in_use(),
    {
        match sga.chunk {
            Some(id) => self.umem.put_buffer(id),
            None => Ok(()),
        }
    }

    /// The engine's monotonic clock.
    pub closed spec fn spec_clock(self) -> u64 {
        self.engine.clock
    }

    /// The IPv4 address this instance answers on.
    pub closed spec fn spec_local_ip(self) -> u32 {
        self.engine.local_ip
    }

    /// The IPv4 address this instance answers on.
    pub fn local_ipv4_addr(&self) -> (r: u32)
        ensures
            r == self.spec_local_ip(),
    {
        self.engine.local_ip
    }

    /// Takes the oldest frame off the engine's egress queue, for the
    /// transport to carry.
    pub fn pop_frame(&mut self) -> (r: Option<crate::frame::Frame>)
        requires
            old(self).wf(),
        ensures
            final(self).wf(),
            final(self).spec_tasks() == old(self).spec_tasks(),
            // The oldest queued frame leaves, or nothing is queued.
            old(self).spec_outbox().len() == 0 ==> r is None && final(self).spec_outbox() == old(self).spec_outbox(),
            old(self).spec_outbox().len() > 0 ==> (r matches Some(f) && f == old(self).spec_outbox()[0] && final(self).spec_outbox() == old(self).spec_outbox().drop_first()),
            final(self).spec_conns() == old(self).spec_conns(),
    {
        self.engine.pop_frame()
    }

    /// Hands one frame arriving from the transport to the engine.
    pub fn receive_frame(&mut self, f: crate::frame::Frame) -> (r: Result<(), Fail>)
        requires
            old(self).wf(),
        ensures
            final(self).wf(),
            final(self).spec_tasks() == old(self).spec_tasks(),
            // Routing is the engine's: a frame of an existing connection
            // is processed by that block, delivered bytes only ever
            // extend, and a frame nothing claims is rejected unchanged.
            r is Err ==> (r matches Err(e) && e.errno == EINVAL && final(self).spec_conns()
                == old(self).spec_conns() && final(self).spec_outbox() == old(self).spec_outbox()),
            !f.udp && crate::engine::some_conn_matches(old(self).spec_conns(), f) ==> (r is Ok
                && exists|i: int|
                ({
                    &&& 0 <= i < old(self).spec_conns().len()
                    &&& crate::engine::conn_matches(#[trigger] old(self).spec_conns()[i], f)
                    &&& old(self).spec_conns()[i].delivered().is_prefix_of(
                        final(self).spec_conns()[i].delivered(),
                    )
                    &&& crate::tcp_cb::in_order_data(old(self).spec_conns()[i], f) ==> final(self).spec_conns()[i].delivered() == old(self).spec_conns()[i].delivered()
                        + f.payload@
                })),
    {
        let ghost pre = *self;
        let r = self.engine.receive(f);
        proof {
            assert forall|i: int|
                0 <= i < self.bindings@.len() implies match #[trigger] self.bindings@[i] {
                Binding::Conn(c) => c < self.engine.conns@.len(),
                Binding::Udp { sock, port } => sock < self.engine.udp_socks@.len(),
                _ => true,
            } by {
                assert(self.bindings@[i] == pre.bindings@[i]);
            }
            assert forall|i: int|
                0 <= i < self.tasks@.len() implies match (#[trigger] self.tasks@[i]).op {
                Operation::Connect { conn } => conn < self.engine.conns@.len(),
                Operation::Pop { conn } => conn < self.engine.conns@.len(),
                Operation::PopFrom { sock } => sock < self.engine.udp_socks@.len(),
                Operation::Accept { port, new_qd } => new_qd.val < self.bindings@.len(),
                _ => true,
            } by {
                assert(self.tasks@[i] == pre.tasks@[i]);
            }
        }
        r
    }

    /// Advances the engine's clock, driving timers.
    pub fn advance(&mut self, now: u64)
        requires
            old(self).wf(),
            old(self).spec_clock() <= now <= 0x4000_0000_0000_0000,
        ensures
            final(self).wf(),
            final(self).spec_tasks() == old(self).spec_tasks(),
            final(self).spec_clock() == now,
            // Each connection's timers fire as its block specifies; a
            // closed one stays untouched, an expired TimeWait linger
            // releases its connection, and emitted frames queue up behind
            // the frames already waiting.
            final(self).spec_conns().len() == old(self).spec_conns().len(),
            forall|k: int|
                0 <= k < old(self).spec_conns().len() ==> ({
                    let cb0 = #[trigger] old(self).spec_conns()[k];
                    let cb1 = final(self).spec_conns()[k];
                    &&& cb1.delivered() == cb0.delivered()
                    &&& cb1.pushed@ == cb0.pushed@
                    &&& cb0.state is Closed ==> cb1 == cb0
                    &&& (cb0.state is TimeWait && now >= cb0.time_wait_until)
                        ==> cb1.state is Closed
                }),
            old(self).spec_outbox().is_prefix_of(final(self).spec_outbox()),
    {
        let ghost pre = *self;
        self.engine.advance_clock(now);
        proof {
            assert forall|i: int|
                0 <= i < self.bindings@.len() implies match #[trigger] self.bindings@[i] {
                Binding::Conn(c) => c < self.engine.conns@.len(),
                Binding::Udp { sock, port } => sock < self.engine.udp_socks@.len(),
                _ => true,
            } by {
                assert(self.bindings@[i] == pre.bindings@[i]);
            }
            assert forall|i: int|
                0 <= i < self.tasks@.len() implies match (#[trigger] self.tasks@[i]).op {
                Operation::Connect { conn } => conn < self.engine.conns@.len(),
                Operation::Pop { conn } => conn < self.engine.conns@.len(),
                Operation::PopFrom { sock } => sock < self.engine.udp_socks@.len(),
                Operation::Accept { port, new_qd } => new_qd.val < self.bindings@.len(),
                _ => true,
            } by {
                assert(self.tasks@[i] == pre.tasks@[i]);
            }
        }
    }

    /// Usable bytes of one pool chunk.
    pub open spec fn pool_chunk_capacity(self) -> int {
        self.umem_chunk_capacity()
    }

    /// Usable bytes of one pool chunk (internal form).
    pub closed spec fn umem_chunk_capacity(self) -> int {
        self.umem.spec_chunk_size() - self.umem.spec_headroom()
    }
}

/// Total bytes across a scatter-gather array's segments.
pub open spec fn sga_len(sga: Sga) -> nat {
    crate::tcp_cb::bytes_of(sga.segments@)
}

/// Concatenates a scatter-gather array's segments into one buffer.
pub fn clone_sgarray(sga: &Sga) -> (r: Vec<u8>)
    ensures
        r@ == crate::tcp_cb::flatten_bytes(sga.segments@),
        r@.len() == sga_len(*sga),
{
    let mut out: Vec<u8> = Vec::new();
    let mut i: usize = 0;
    proof {
        crate::tcp_cb::lemma_flatten_len(sga.segments@);
    }
    while i < sga.segments.len()
        invariant
            i <= sga.segments@.len(),
            out@ == crate::tcp_cb::flatten_bytes(sga.segments@.take(i as int)),
        decreases sga.segments@.len() - i,
    {
        let mut part = crate::tcp_cb::copy_vec(&sga.segments[i]);
        out.append(&mut part);
        proof {
            crate::tcp_cb::lemma_bytes_push(sga.segments@.take(i as int), sga.segments@[i as int]);
            assert(sga.segments@.take(i as int).push(sga.segments@[i as int]) =~= sga.segments@.take(
                i as int + 1,
            ));
        }
        i = i + 1;
    }
    proof {
        assert(sga.segments@.take(sga.segments@.len() as int) =~= sga.segments@);
        crate::tcp_cb::lemma_flatten_len(sga.segments@);
    }
    out
}

/// Copies a slice into a vector.
pub fn slice_to_vec(data: &[u8]) -> (r: Vec<u8>)
    ensures
        r@ == data@,
{
    let mut out: Vec<u8> = Vec::new();
    let mut i: usize = 0;
    while i < data.len()
        invariant
            i <= data@.len(),
            out@ == data@.take(i as int),
        decreases data@.len() - i,
    {
        out.push(data[i]);
        proof {
            assert(out@ =~= data@.take(i as int + 1));
        }
        i = i + 1;
    }
    proof {
        assert(out@ =~= data@);
    }
    out
}

/// A zero-filled vector of the given length.
pub fn zero_vec(n: usize) -> (r: Vec<u8>)
    ensures
        r@.len() == n,
        forall|i: int| 0 <= i < n ==> r@[i] == 0u8,
{
    let mut out: Vec<u8> = Vec::new();
    let mut i: usize = 0;
    while i < n
        invariant
            i <= n,
            out@.len() == i,
            forall|j: int| 0 <= j < i ==> out@[j] == 0u8,
        decreases n - i,
    {
        out.push(0);
        i = i + 1;
    }
    out
}

} // verus!
