//! A userspace networking library with a POSIX-like asynchronous socket
//! interface: queue descriptors with push/pop operations, a cooperative
//! scheduler driving per-operation state machines, and an in-process TCP
//! engine with sequence-number accounting, retransmission and window
//! management.

pub mod buffer;
pub mod codec;
pub mod engine;
pub mod fail;
pub mod frame;
pub mod libos;
pub mod ops;
pub mod qtable;
pub mod tcp_cb;
pub mod sched;
pub mod seq_num;
pub mod umem;

use vstd::prelude::*;

verus! {

} // verus!
