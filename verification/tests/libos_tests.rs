//! Tests of the caller-facing layer: queue tokens, wait semantics,
//! zero-length pushes, wait-any fairness, datagram sockets, and the
//! scatter-gather pool.

use qstack::fail::{EAGAIN, EINVAL, ENOMEM, ENOTSUP};
use qstack::frame::Endpoint;
use qstack::libos::{LibOS, AF_INET, SOCK_DGRAM, SOCK_STREAM};
use qstack::ops::{OperationResult, OPC_ACCEPT, OPC_CONNECT, OPC_POP, OPC_PUSH};
use qstack::tcp_cb::TcpConfig;

const ALICE_IPV4: u32 = 0xC0A8_0101;
const BOB_IPV4: u32 = 0xC0A8_0102;
const ALICE_MAC: u64 = 0x0202_0000_0001;
const BOB_MAC: u64 = 0x0202_0000_0002;

fn new_pair() -> (LibOS, LibOS) {
    let alice = LibOS::new(ALICE_IPV4, ALICE_MAC, TcpConfig::standard(), 0, 16, 2048)
        .expect("alice failed to start");
    let bob = LibOS::new(BOB_IPV4, BOB_MAC, TcpConfig::standard(), 0, 16, 2048)
        .expect("bob failed to start");
    (alice, bob)
}

/// Carries every queued frame from one peer to the other, both ways,
/// until the wires are quiet.
fn pump(a: &mut LibOS, b: &mut LibOS) {
    loop {
        let mut moved = false;
        while let Some(f) = a.pop_frame() {
            let _ = b.receive_frame(f);
            moved = true;
        }
        while let Some(f) = b.pop_frame() {
            let _ = a.receive_frame(f);
            moved = true;
        }
        if !moved {
            break;
        }
    }
}

/// Full TCP setup through the façade; returns (alice's connected
/// descriptor, bob's accepted descriptor) for one connection.
fn connect_pair(alice: &mut LibOS, bob: &mut LibOS, port: u16) -> (u32, u32) {
    let lsn = bob.socket(AF_INET, SOCK_STREAM, 0).expect("socket failed");
    bob.bind(lsn, Endpoint { addr: BOB_IPV4, port }).expect("bind failed");
    bob.listen(lsn, 16).expect("listen failed");
    let accept_qt = bob.accept(lsn).expect("accept failed");

    let cli = alice.socket(AF_INET, SOCK_STREAM, 0).expect("socket failed");
    let connect_qt = alice
        .connect(cli, Endpoint { addr: BOB_IPV4, port })
        .expect("connect failed");

    pump(alice, bob);

    let conn_res = alice.wait(connect_qt).expect("connect did not complete");
    assert_eq!(conn_res.opcode, OPC_CONNECT);
    let acc_res = bob.wait(accept_qt).expect("accept did not complete");
    assert_eq!(acc_res.opcode, OPC_ACCEPT);
    let new_qd = match acc_res.value {
        qstack::ops::QrValue::Accept { qd, addr } => {
            // The accept result names the remote peer.
            assert_eq!(addr.addr, ALICE_IPV4);
            qd
        },
        _ => panic!("accept result carried no descriptor"),
    };
    (cli.val, new_qd)
}

/// A queue token is consumed by exactly one successful wait; any further
/// use of it fails with EINVAL.
#[test]
fn token_single_extraction() {
    let (mut alice, mut bob) = new_pair();
    let (cli, srv) = connect_pair(&mut alice, &mut bob, 80);
    let cli = qstack::qtable::QDesc { val: cli };
    let srv = qstack::qtable::QDesc { val: srv };

    let qt = alice.push2(cli, &[1, 2, 3]).expect("push failed");
    let r = alice.wait(qt).expect("push did not complete");
    assert_eq!(r.opcode, OPC_PUSH);
    // The token is spent: a second wait on it is invalid.
    let again = alice.wait(qt);
    assert_eq!(again.unwrap_err().errno, EINVAL);
    // A made-up token is just as invalid.
    let bogus = alice.wait(0xDEAD);
    assert_eq!(bogus.unwrap_err().errno, EINVAL);

    // Round out the transfer: bob pops the pushed bytes.
    pump(&mut alice, &mut bob);
    let pop_qt = bob.pop(srv).expect("pop failed");
    let r = bob.wait(pop_qt).expect("pop did not complete");
    assert_eq!(r.opcode, OPC_POP);
    match r.value {
        qstack::ops::QrValue::Sga(sga) => {
            assert_eq!(sga.segments.len(), 1);
            assert_eq!(sga.segments[0], vec![1, 2, 3]);
        },
        _ => panic!("pop result carried no scatter-gather array"),
    }
}

/// A zero-length push is rejected with EINVAL before any scheduler handle
/// is created: a wait on any token still fails with EINVAL afterwards.
#[test]
fn zero_length_push_rejected() {
    let (mut alice, mut bob) = new_pair();
    let (cli, _srv) = connect_pair(&mut alice, &mut bob, 80);
    let cli = qstack::qtable::QDesc { val: cli };

    let empty: [u8; 0] = [];
    let r = alice.push2(cli, &empty);
    assert_eq!(r.unwrap_err().errno, EINVAL);

    let sga = qstack::ops::Sga { segments: Vec::new(), addr: None, chunk: None };
    let r = alice.push(cli, &sga);
    assert_eq!(r.unwrap_err().errno, EINVAL);

    let r = alice.pushto2(cli, &empty, Endpoint { addr: BOB_IPV4, port: 80 });
    assert_eq!(r.unwrap_err().errno, EINVAL);
}

/// Unsupported domains and socket types are refused with ENOTSUP.
#[test]
fn unsupported_socket_flavors() {
    let (mut alice, _bob) = new_pair();
    assert_eq!(alice.socket(10, SOCK_STREAM, 0).unwrap_err().errno, ENOTSUP);
    assert_eq!(alice.socket(AF_INET, 99, 0).unwrap_err().errno, ENOTSUP);
}

/// wait_any returns the lowest completed index and leaves the other
/// operations pending and extractable later.
#[test]
fn wait_any_fairness() {
    let (mut alice, mut bob) = new_pair();
    let (cli_a, srv_a) = connect_pair(&mut alice, &mut bob, 80);
    let (cli_b, srv_b) = connect_pair(&mut alice, &mut bob, 81);
    let cli_a = qstack::qtable::QDesc { val: cli_a };
    let cli_b = qstack::qtable::QDesc { val: cli_b };
    let srv_a = qstack::qtable::QDesc { val: srv_a };
    let srv_b = qstack::qtable::QDesc { val: srv_b };

    // Two pops on bob, one per connection.
    let pop_a = bob.pop(srv_a).expect("pop failed");
    let pop_b = bob.pop(srv_b).expect("pop failed");

    // Nothing has arrived: wait_any has nothing to hand out yet.
    let r = bob.wait_any(&[pop_a, pop_b]);
    assert_eq!(r.unwrap_err().errno, EAGAIN);

    // Deliver data to the second connection only.
    let qt = alice.push2(cli_b, &[7, 7, 7]).expect("push failed");
    let _ = alice.wait(qt).expect("push did not complete");
    pump(&mut alice, &mut bob);

    let (idx, r) = bob.wait_any(&[pop_a, pop_b]).expect("wait_any found nothing");
    assert_eq!(idx, 1);
    assert_eq!(r.opcode, OPC_POP);
    assert_eq!(r.qt, pop_b);

    // The first pop is still registered and completes later.
    let qt = alice.push2(cli_a, &[9]).expect("push failed");
    let _ = alice.wait(qt).expect("push did not complete");
    pump(&mut alice, &mut bob);
    let r = bob.wait(pop_a).expect("first pop was lost");
    assert_eq!(r.opcode, OPC_POP);
}

/// Datagram round trip: pushto on one side, pop with the sender's address
/// on the other.
#[test]
fn udp_round_trip() {
    let (mut alice, mut bob) = new_pair();

    let a_sock = alice.socket(AF_INET, SOCK_DGRAM, 0).expect("socket failed");
    alice.bind(a_sock, Endpoint { addr: ALICE_IPV4, port: 9000 }).expect("bind failed");
    let b_sock = bob.socket(AF_INET, SOCK_DGRAM, 0).expect("socket failed");
    bob.bind(b_sock, Endpoint { addr: BOB_IPV4, port: 9001 }).expect("bind failed");

    let qt = alice
        .pushto2(a_sock, &[4, 5, 6], Endpoint { addr: BOB_IPV4, port: 9001 })
        .expect("pushto failed");
    let r = alice.wait(qt).expect("pushto did not complete");
    assert_eq!(r.opcode, OPC_PUSH);

    pump(&mut alice, &mut bob);

    let pop_qt = bob.pop(b_sock).expect("pop failed");
    let (qd, result) = bob.wait2(pop_qt).expect("pop did not complete");
    assert_eq!(qd.val, b_sock.val);
    match result {
        OperationResult::Pop(Some(who), bytes) => {
            assert_eq!(who.port, 9000);
            assert_eq!(bytes, vec![4, 5, 6]);
        },
        _ => panic!("datagram pop carried no sender"),
    }
}

/// Pool exhaustion: with K chunks, the K+1st allocation reports ENOMEM;
/// after one free, a retry succeeds. Alloc followed by free is a no-op on
/// the pool's in-use set, so a full drain succeeds again.
#[test]
fn pool_exhaustion_and_recovery() {
    let k: usize = 4;
    let mut alice = LibOS::new(ALICE_IPV4, ALICE_MAC, TcpConfig::standard(), 0, k as u32, 512)
        .expect("failed to start");

    let mut sgas = Vec::new();
    for _ in 0..k {
        sgas.push(alice.sgaalloc(100).expect("allocation failed early"));
    }
    let overflow = alice.sgaalloc(100);
    assert_eq!(overflow.unwrap_err().errno, ENOMEM);

    // One free makes room for exactly one retry.
    let freed = sgas.pop().unwrap();
    alice.sgafree(freed).expect("free failed");
    let retry = alice.sgaalloc(100).expect("retry after free failed");
    sgas.push(retry);

    // Drain everything; the in-use set is empty again, so K allocations
    // succeed once more.
    while let Some(sga) = sgas.pop() {
        alice.sgafree(sga).expect("free failed");
    }
    for _ in 0..k {
        sgas.push(alice.sgaalloc(1).expect("reallocation failed"));
    }

    // Zero-sized and oversized requests are invalid.
    assert_eq!(alice.sgaalloc(0).unwrap_err().errno, EINVAL);
    assert_eq!(alice.sgaalloc(4096).unwrap_err().errno, EINVAL);
}

/// Freeing the same pool chunk twice is rejected.
#[test]
fn sga_double_free_rejected() {
    let mut alice = LibOS::new(ALICE_IPV4, ALICE_MAC, TcpConfig::standard(), 0, 4, 512)
        .expect("failed to start");
    let sga = alice.sgaalloc(8).expect("allocation failed");
    let chunk = sga.chunk;
    alice.sgafree(sga).expect("first free failed");
    let twin = qstack::ops::Sga { segments: Vec::new(), addr: None, chunk };
    assert_eq!(alice.sgafree(twin).unwrap_err().errno, EINVAL);
}

/// Closing a descriptor while an operation is pending completes that
/// operation with a failure, and a second close is rejected.
#[test]
fn close_fails_pending_operations() {
    let (mut alice, mut bob) = new_pair();
    let (_cli, srv) = connect_pair(&mut alice, &mut bob, 80);
    let srv = qstack::qtable::QDesc { val: srv };

    let pop_qt = bob.pop(srv).expect("pop failed");
    bob.close(srv).expect("close failed");
    let (_qd, result) = bob.wait2(pop_qt).expect("pending op vanished");
    match result {
        OperationResult::Failed(errno) => assert_eq!(errno, qstack::fail::EBADF),
        _ => panic!("pending pop did not fail on close"),
    }
    assert_eq!(bob.close(srv).unwrap_err().errno, qstack::fail::EBADF);
}


/// A reset connection fails its pending pop with ECONNRESET instead of
/// leaving it dangling.
#[test]
fn reset_fails_pending_pop() {
    let (mut alice, mut bob) = new_pair();
    let (_cli, srv) = connect_pair(&mut alice, &mut bob, 80);
    let srv = qstack::qtable::QDesc { val: srv };

    let pop_qt = bob.pop(srv).expect("pop failed");
    // A raw reset arrives for bob's connection.
    let rst = qstack::frame::Frame {
        eth_src: ALICE_MAC,
        eth_dst: BOB_MAC,
        src: Endpoint { addr: ALICE_IPV4, port: 32768 },
        dst: Endpoint { addr: BOB_IPV4, port: 80 },
        seq: qstack::seq_num::SeqNumber { val: 1 },
        ack_num: qstack::seq_num::SeqNumber { val: 1 },
        syn: false,
        ack: false,
        fin: false,
        rst: true,
        wnd: 0,
        mss: 0,
        wnd_scale: 0,
        udp: false,
        payload: Vec::new(),
    };
    bob.receive_frame(rst).expect("reset not routed");
    let (_qd, result) = bob.wait2(pop_qt).expect("pending pop vanished");
    match result {
        OperationResult::Failed(errno) => assert_eq!(errno, qstack::fail::ECONNRESET),
        _ => panic!("pop on a reset connection did not fail"),
    }
}
