//! Unit tests of the leaf subsystems: buffers and pools, the user memory
//! region, the timer schedule, sequence numbers, result packing, the
//! poll-step rules, and the window boundaries of the TCP engine.

use qstack::buffer::{BufferPool, DataBuffer};
use qstack::engine::Engine;
use qstack::fail::{Fail, EAGAIN, EINVAL, ENOMEM};
use qstack::frame::Endpoint;
use qstack::ops::{pushto_poll_step, PollStep};
use qstack::qtable::{IoQueueTable, QDesc, QType};
use qstack::sched::{Record, Schedule, Status, Task};
use qstack::seq_num::SeqNumber;
use qstack::tcp_cb::{RtoCalculator, TcpConfig, TcpState};
use qstack::umem::UmemReg;

#[test]
fn buffer_basics() {
    let mut b = DataBuffer::from_slice(&[10, 20, 30, 40]);
    assert_eq!(b.len(), 4);
    assert_eq!(b.at(2), 30);
    b.set(0, 99);
    assert_eq!(b.at(0), 99);
    b.trim_front(2);
    assert_eq!(b.len(), 2);
    assert_eq!(b.at(0), 30);
    b.restore_front(1);
    assert_eq!(b.len(), 3);
    assert_eq!(b.at(1), 30);
    let d = b.duplicate();
    assert_eq!(d.to_vec(), b.to_vec());

    let z = DataBuffer::new(3);
    assert_eq!(z.to_vec(), vec![0, 0, 0]);
}

#[test]
fn pool_checkout_and_return() {
    assert_eq!(BufferPool::new(4, 0).unwrap_err().errno, EINVAL);
    assert_eq!(BufferPool::new(0, 64).unwrap_err().errno, ENOMEM);

    let mut pool = BufferPool::new(2, 64).unwrap();
    let a = pool.checkout().expect("first checkout failed");
    let b = pool.checkout().expect("second checkout failed");
    assert!(pool.checkout().is_none());
    let ida = a.chunk_id().unwrap();
    let idb = b.chunk_id().unwrap();
    assert_ne!(ida, idb);
    pool.give_back(ida).expect("return failed");
    // Double return of the same chunk is rejected.
    assert_eq!(pool.give_back(ida).unwrap_err().errno, EINVAL);
    // The freed chunk can be checked out again.
    let c = pool.checkout().expect("recheckout failed");
    assert_eq!(c.chunk_id().unwrap(), ida);
}

#[test]
fn umem_region_metadata() {
    assert!(UmemReg::new(4, 0, 0).is_err());
    assert!(UmemReg::new(0, 64, 0).is_err());
    assert!(UmemReg::new(4, 64, 65).is_err());

    let mut u = UmemReg::new(4, 64, 16).unwrap();
    assert_eq!(u.chunk_capacity(), 48);
    let b = u.get_buffer().expect("checkout failed");
    assert_eq!(b.len(), 48);
    assert_eq!(b.to_vec(), vec![0u8; 48]);
    let id = b.chunk_id().unwrap();
    u.put_buffer(id).expect("return failed");
    assert_eq!(u.put_buffer(id).unwrap_err().errno, EINVAL);
}

#[test]
fn qtable_alloc_get_free() {
    let mut t = IoQueueTable::new();
    let a = t.allocate(QType::TcpSocket);
    let b = t.allocate(QType::UdpSocket);
    assert_ne!(a.val, b.val);
    assert_eq!(t.get(a), Some(QType::TcpSocket));
    assert_eq!(t.get(b), Some(QType::UdpSocket));
    t.free(a).expect("free failed");
    // Double free is rejected, and the slot stays dead.
    assert_eq!(t.free(a).unwrap_err().errno, qstack::fail::EBADF);
    assert_eq!(t.get(a), None);
    // Descriptors are not reused.
    let c = t.allocate(QType::TcpSocket);
    assert_ne!(c.val, a.val);
}

#[test]
fn record_orders_earlier_as_greater() {
    let early = Record { when: 5, tid: 1 };
    let late = Record { when: 9, tid: 2 };
    assert_eq!(early.cmp(&late), std::cmp::Ordering::Greater);
    assert_eq!(late.cmp(&early), std::cmp::Ordering::Less);
    assert_eq!(early.cmp(&early), std::cmp::Ordering::Equal);
}

#[test]
fn schedule_poll_and_cancel() {
    let mut s = Schedule::new();
    s.schedule(&Task { id: 1, status: Status::AsleepUntil(50) });
    s.schedule(&Task { id: 2, status: Status::AsleepUntil(70) });

    // Nothing is due before the earliest wake instant.
    assert_eq!(s.poll(40), None);
    // Once its instant has passed, the earliest task wakes, and each
    // record and identifier is consumed exactly once.
    assert_eq!(s.poll(55), Some(1));
    assert_eq!(s.poll(56), None);
    assert_eq!(s.poll(70), Some(2));
    assert_eq!(s.poll(71), None);
}

#[test]
fn schedule_skips_cancelled_records() {
    let mut s = Schedule::new();
    s.schedule(&Task { id: 7, status: Status::AsleepUntil(100) });
    s.schedule(&Task { id: 8, status: Status::AsleepUntil(200) });
    // Cancelling leaves the record behind but marks the task dead; poll
    // discards the overdue dead record and hands out the next live task
    // that is due.
    s.cancel(7);
    assert_eq!(s.poll(150), None);
    assert_eq!(s.poll(250), Some(8));
    assert_eq!(s.poll(251), None);
}

#[test]
fn seq_numbers_wrap() {
    let near_end = SeqNumber::from_u32(0xFFFF_FFF0);
    let wrapped = near_end.add(0x20);
    assert_eq!(wrapped.val, 0x10);
    assert_eq!(wrapped.sub(near_end), 0x20);
    assert_eq!(SeqNumber::from_u32(5).sub(SeqNumber::from_u32(5)), 0);
}

#[test]
fn poll_step_rules() {
    assert_eq!(pushto_poll_step(Ok((None, 64))), PollStep::Ready);
    assert_eq!(pushto_poll_step(Ok((None, -(EAGAIN as i64)))), PollStep::Pending);
    assert_eq!(pushto_poll_step(Ok((None, -13))), PollStep::Fault(13));
    assert_eq!(pushto_poll_step(Err(Fail::new(7))), PollStep::Fault(7));
}

#[test]
fn pack_result_layout() {
    let qd = QDesc { val: 3 };
    let r = qstack::ops::pack_result(qstack::ops::OperationResult::Connect, qd, 42);
    assert_eq!(r.opcode, qstack::ops::OPC_CONNECT);
    assert_eq!(r.qd, 3);
    assert_eq!(r.qt, 42);
    let r = qstack::ops::pack_result(
        qstack::ops::OperationResult::Pop(None, vec![1, 2]),
        qd,
        43,
    );
    assert_eq!(r.opcode, qstack::ops::OPC_POP);
    match r.value {
        qstack::ops::QrValue::Sga(sga) => assert_eq!(sga.segments[0], vec![1, 2]),
        _ => panic!("pop packed without a scatter-gather array"),
    }
    let r = qstack::ops::pack_result(qstack::ops::OperationResult::Failed(9), qd, 44);
    assert_eq!(r.opcode, qstack::ops::OPC_FAILED);
    let peer = Endpoint { addr: 0xC0A8_0101, port: 32768 };
    let r = qstack::ops::pack_result(
        qstack::ops::OperationResult::Accept(QDesc { val: 7 }, peer),
        qd,
        45,
    );
    assert_eq!(r.opcode, qstack::ops::OPC_ACCEPT);
    match r.value {
        qstack::ops::QrValue::Accept { qd, addr } => {
            assert_eq!(qd, 7);
            assert_eq!(addr, peer);
        },
        _ => panic!("accept packed without its value arm"),
    }
}

#[test]
fn rto_backoff_caps_at_maximum() {
    let mut rto = RtoCalculator::new(100_000_000, 8_000_000_000);
    assert_eq!(rto.current(), 1_000_000_000);
    for _ in 0..10 {
        rto.backoff();
    }
    // 1 s doubled repeatedly caps at the configured 8 s maximum.
    assert_eq!(rto.current(), 8_000_000_000);
    rto.backoff();
    assert_eq!(rto.current(), 8_000_000_000);
}

fn handshake(server: &mut Engine, client: &mut Engine, port: u16) -> (usize, usize) {
    server.listen(port, 16).unwrap();
    let c = client.connect(Endpoint { addr: 2, port }, 0);
    let syn = client.pop_frame().unwrap();
    server.receive(syn).unwrap();
    let syn_ack = server.pop_frame().unwrap();
    client.receive(syn_ack).unwrap();
    let ack = client.pop_frame().unwrap();
    server.receive(ack).unwrap();
    let s = server.accept_ready(port).unwrap();
    (s, c)
}

/// A push of exactly the receive window fills the window — nothing more
/// can leave — and drains fully after the first pop and its ACK.
#[test]
fn window_fill_and_drain() {
    // One segment can span the whole window in this configuration.
    let cfg = TcpConfig {
        mss: 0xFFFF,
        rcv_wnd: 0xFFFF,
        wnd_scale: 0,
        min_rto: 100_000_000,
        max_rto: 8_000_000_000,
        ack_delay: 1_000_000,
    };
    let mut client = Engine::new(1, 0, cfg, 0);
    let mut server = Engine::new(2, 0, cfg, 0);
    let (s, c) = handshake(&mut server, &mut client, 80);

    let window: usize = 0xFFFF;
    let payload = vec![0xABu8; window];
    client.tcp_push(c, payload.clone()).unwrap();
    let frame = client.pop_frame().expect("window-sized push emitted nothing");
    assert_eq!(frame.payload.len(), window);
    // The window is full: one more byte is queued but cannot leave.
    client.tcp_push(c, vec![0xCD]).unwrap();
    assert!(client.pop_frame().is_none());

    // The first pop drains the whole window.
    server.receive(frame).unwrap();
    let got = server.tcp_pop(s).unwrap().expect("nothing buffered");
    assert_eq!(got.len(), window);
    assert_eq!(got, payload);

    // The receiver's ACK reopens the window; the queued byte leaves.
    server.advance_clock(2_000_000);
    let ack = server.pop_frame().expect("no ACK after pop");
    assert_eq!(ack.ack_num.val, 1 + window as u32);
    client.receive(ack).unwrap();
    let tail = client.pop_frame().expect("queued byte still stuck");
    assert_eq!(tail.payload, vec![0xCD]);
}

/// Repeated losses double the retransmission timeout only up to the
/// configured maximum, and each timeout resends the oldest segment.
#[test]
fn rto_backoff_on_losses() {
    let mut client = Engine::new(1, 0, TcpConfig::standard(), 0);
    let mut server = Engine::new(2, 0, TcpConfig::standard(), 0);
    let (_s, c) = handshake(&mut server, &mut client, 80);

    client.tcp_push(c, vec![1, 2, 3]).unwrap();
    let first = client.pop_frame().expect("no data frame");
    drop(first);  // lost on the wire

    let mut now: u64 = 0;
    for _ in 0..12 {
        now += 9_000_000_000;  // beyond any timeout
        client.advance_clock(now);
        let resent = client.pop_frame().expect("no retransmission after timeout");
        assert_eq!(resent.seq.val, 1);
        assert_eq!(resent.payload, vec![1, 2, 3]);
        assert!(client.pop_frame().is_none());
    }
    // After repeated losses the timeout sits at the configured maximum.
    assert_eq!(client.conns[c].rto.current(), 8_000_000_000);
}

/// A reset closes the connection and nothing is emitted afterwards.
#[test]
fn reset_closes_quietly() {
    let mut client = Engine::new(1, 0, TcpConfig::standard(), 0);
    let mut server = Engine::new(2, 0, TcpConfig::standard(), 0);
    let (_s, c) = handshake(&mut server, &mut client, 80);

    client.tcp_push(c, vec![5]).unwrap();
    let data = client.pop_frame().unwrap();
    let mut rst = data;
    rst.rst = true;
    rst.payload = Vec::new();
    // Reflect it back at the client as if the peer refused.
    let reflected = qstack::frame::Frame {
        eth_src: rst.eth_dst,
        eth_dst: rst.eth_src,
        src: rst.dst,
        dst: rst.src,
        seq: SeqNumber { val: 1 },
        ack_num: SeqNumber { val: 1 },
        syn: false,
        ack: false,
        fin: false,
        rst: true,
        wnd: 0,
        mss: 0,
        wnd_scale: 0,
        udp: false,
        payload: Vec::new(),
    };
    client.receive(reflected).unwrap();
    assert_eq!(client.conn_state(c), Some(TcpState::Closed));
    assert!(client.pop_frame().is_none());
    client.advance_clock(50_000_000_000);
    assert!(client.pop_frame().is_none());
}

#[test]
fn codec_round_trip() {
    let f = qstack::frame::Frame {
        eth_src: 0x0202_0000_0001,
        eth_dst: 0x0202_0000_0002,
        src: Endpoint { addr: 0xC0A8_0101, port: 32768 },
        dst: Endpoint { addr: 0xC0A8_0102, port: 80 },
        seq: SeqNumber { val: 12345 },
        ack_num: SeqNumber { val: 6789 },
        syn: false,
        ack: true,
        fin: false,
        rst: false,
        wnd: 0xFFFF,
        mss: 1500,
        wnd_scale: 0,
        udp: false,
        payload: vec![1, 2, 3, 4, 5],
    };
    let wire = qstack::codec::encode_frame(&f);
    assert_eq!(wire.len(), qstack::codec::FRAME_HDR_LEN + 5);
    // Ethernet II carries the IPv4 ethertype.
    assert_eq!(wire[12], 0x08);
    assert_eq!(wire[13], 0x00);
    let g = qstack::codec::parse_frame(&wire).expect("own encoding rejected");
    assert_eq!(g.eth_src, f.eth_src);
    assert_eq!(g.eth_dst, f.eth_dst);
    assert_eq!(g.src, f.src);
    assert_eq!(g.dst, f.dst);
    assert_eq!(g.seq, f.seq);
    assert_eq!(g.ack_num, f.ack_num);
    assert_eq!(g.syn, f.syn);
    assert_eq!(g.ack, f.ack);
    assert_eq!(g.fin, f.fin);
    assert_eq!(g.rst, f.rst);
    assert_eq!(g.wnd, f.wnd);
    assert_eq!(g.mss, f.mss);
    assert_eq!(g.wnd_scale, f.wnd_scale);
    assert_eq!(g.payload, f.payload);

    // A frame with the wrong ethertype is dropped by the decoder.
    let mut bad = wire.clone();
    bad[12] = 0x86;
    assert!(qstack::codec::parse_frame(&bad).is_none());
    // A truncated frame is dropped.
    assert!(qstack::codec::parse_frame(&wire[..40]).is_none());
}
