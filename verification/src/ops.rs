//! Operation futures and their results: one tagged variant per supported
//! operation, the scatter-gather array, the packed record handed to the
//! caller, and the poll-step decision rules for transports that report
//! completion through a size-or-errno word.

use vstd::prelude::*;
use crate::fail::{Fail, EAGAIN};
use crate::frame::Endpoint;
use crate::qtable::QDesc;

verus! {

/// Result record opcode: connect completed.
pub const OPC_CONNECT: u32 = 1;
/// Result record opcode: accept completed.
pub const OPC_ACCEPT: u32 = 2;
/// Result record opcode: push completed.
pub const OPC_PUSH: u32 = 3;
/// Result record opcode: pop completed.
pub const OPC_POP: u32 = 4;
/// Result record opcode: the operation failed.
pub const OPC_FAILED: u32 = 5;

/// One pending operation: the state needed to make progress on one
/// polling step.
#[derive(Clone, Copy, Debug, PartialEq, Eq, Structural)]
pub enum Operation {
    /// Accept on a listening socket: the port polled and the queue
    /// descriptor pre-allocated for the new connection.
    Accept { port: u16, new_qd: QDesc },
    /// Connect: the engine connection whose handshake is polled.
    Connect { conn: usize },
    /// Push on a TCP connection (the bytes enter the engine at submission).
    Push,
    /// Pushto on a datagram socket (the datagram leaves at submission).
    Pushto,
    /// Pop on a TCP connection.
    Pop { conn: usize },
    /// Pop on a datagram socket.
    PopFrom { sock: usize },
}

/// What a completed operation produced.
#[derive(Debug)]
pub enum OperationResult {
    /// The connection is established.
    Connect,
    /// A connection was accepted under this new descriptor, from this
    /// remote peer.
    Accept(QDesc, Endpoint),
    /// The bytes were handed to the transport.
    Push,
    /// Bytes arrived, with the sender where the transport knows one.
    Pop(Option<Endpoint>, Vec<u8>),
    /// The operation failed with this error number.
    Failed(i32),
}

/// A scatter-gather array: payload segments, the peer address where one is
/// known, and the pool chunk backing the allocation, if any.
#[derive(Debug)]
pub struct Sga {
    /// The payload segments, in order.
    pub segments: Vec<Vec<u8>>,
    /// Peer address for datagram results.
    pub addr: Option<Endpoint>,
    /// Pool chunk checked out for this array, returned by `sgafree`.
    pub chunk: Option<u32>,
}

/// The value arm of a packed result, selected by the opcode.
#[derive(Debug)]
pub enum QrValue {
    /// Accept result: the new descriptor and the remote peer.
    Accept { qd: u32, addr: Endpoint },
    /// Pop result: the received scatter-gather array.
    Sga(Sga),
    /// No payload (connect, push, failed).
    Zero,
}

/// The packed operation record handed to callers.
#[derive(Debug)]
pub struct QResult {
    /// One of the `OPC_` opcodes.
    pub opcode: u32,
    /// The originating queue descriptor.
    pub qd: u32,
    /// The queue token the caller waited on.
    pub qt: u64,
    /// The union arm selected by the opcode.
    pub value: QrValue,
}

/// Packs an operation's outcome into the caller-facing record: the opcode
/// names the variant, the descriptor and token identify the operation, and
/// only accept and pop carry a value arm.
pub fn pack_result(result: OperationResult, qd: QDesc, qt: u64) -> (r: QResult)
    ensures
        r.qd == qd.val,
        r.qt == qt,
        result is Connect ==> r.opcode == OPC_CONNECT && r.value is Zero,
        result is Accept ==> r.opcode == OPC_ACCEPT && (r.value matches QrValue::Accept {
            qd: nqd,
            addr,
        } && nqd == result->Accept_0.val && addr == result->Accept_1),
        result is Push ==> r.opcode == OPC_PUSH && r.value is Zero,
        result is Pop ==> r.opcode == OPC_POP && (r.value matches QrValue::Sga(sga)
            && sga.addr == result->Pop_0 && sga.segments@.len() == 1 && sga.segments@[0]@
            == result->Pop_1@ && sga.chunk is None),
        result is Failed ==> r.opcode == OPC_FAILED && r.value is Zero,
{
    match result {
        OperationResult::Connect => QResult {
            opcode: OPC_CONNECT,
            qd: qd.val,
            qt,
            value: QrValue::Zero,
        },
        OperationResult::Accept(new_qd, peer) => QResult {
            opcode: OPC_ACCEPT,
            qd: qd.val,
            qt,
            value: QrValue::Accept { qd: new_qd.val, addr: peer },
        },
        OperationResult::Push => QResult { opcode: OPC_PUSH, qd: qd.val, qt, value: QrValue::Zero },
        OperationResult::Pop(addr, bytes) => {
            let mut segments: Vec<Vec<u8>> = Vec::new();
            segments.push(bytes);
            QResult {
                opcode: OPC_POP,
                qd: qd.val,
                qt,
                value: QrValue::Sga(Sga { segments, addr, chunk: None }),
            }
        },
        OperationResult::Failed(errno) => QResult {
            opcode: OPC_FAILED,
            qd: qd.val,
            qt,
            value: QrValue::Zero,
        },
    }
}

/// What one polling step decides.
#[derive(Clone, Copy, Debug, PartialEq, Eq, Structural)]
pub enum PollStep {
    /// The operation completed.
    Ready,
    /// Not ready yet: re-arm the waker and poll again.
    Pending,
    /// The operation failed with this error number.
    Fault(i32),
}

/// One polling step of a pushto operation over a transport that reports a
/// submitted request as a signed size: a non-negative size is completion; a
/// negative one carries an errno, where "would block" means pending and
/// anything else is fatal; a failed peek is fatal with its own error. A
/// reported size both negative and attributed to a peer is out of the
/// transport's contract, so `requires` leaves it out.
pub fn pushto_poll_step(peek: Result<(Option<Endpoint>, i64), Fail>) -> (r: PollStep)
    requires
        peek matches Ok((who, size)) ==> (who is Some ==> size >= 0),
        peek matches Ok((who, size)) ==> size >= -0x7FFF_FFFF,
    ensures
        peek matches Ok((_, size)) ==> ({
            &&& size >= 0 ==> r is Ready
            &&& size < 0 && -size == EAGAIN ==> r is Pending
            &&& size < 0 && -size != EAGAIN ==> (r matches PollStep::Fault(e) && e == -size)
        }),
        peek matches Err(f) ==> (r matches PollStep::Fault(e) && e == f.errno),
{
    match peek {
        Ok((_, size)) => {
            if size >= 0 {
                PollStep::Ready
            } else {
                let errno = -size;
                if errno == EAGAIN as i64 {
                    PollStep::Pending
                } else {
                    PollStep::Fault(errno as i32)
                }
            }
        },
        Err(f) => PollStep::Fault(f.errno),
    }
}

} // verus!
