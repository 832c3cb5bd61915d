//! Established-connection tests: two engines exchange frames directly, one
//! playing client and one server, exercising data transfer, pure
//! acknowledgments, delayed pops and the orderly close.

use qstack::engine::Engine;
use qstack::frame::{Endpoint, Frame};
use qstack::tcp_cb::{TcpConfig, TcpState};

const ALICE_IPV4: u32 = 0xC0A8_0101;
const BOB_IPV4: u32 = 0xC0A8_0102;
const ALICE_MAC: u64 = 0x0202_0000_0001;
const BOB_MAC: u64 = 0x0202_0000_0002;
const TICK: u64 = 2_000_000;

fn cook_buffer(size: usize, stamp: Option<u8>) -> Vec<u8> {
    let mut buf = Vec::new();
    for i in 0..size {
        buf.push(match stamp {
            Some(s) => s,
            None => i as u8,
        });
    }
    buf
}

fn new_alice(now: u64) -> Engine {
    Engine::new(ALICE_IPV4, ALICE_MAC, TcpConfig::standard(), now)
}

fn new_bob(now: u64) -> Engine {
    Engine::new(BOB_IPV4, BOB_MAC, TcpConfig::standard(), now)
}

fn advance_clock(server: &mut Engine, client: &mut Engine, now: &mut u64) {
    *now += TICK;
    server.advance_clock(*now);
    client.advance_clock(*now);
}

/// Three-way handshake between client and server; returns the connection
/// identifiers (server side, client side).
fn connection_setup(server: &mut Engine, client: &mut Engine, listen_port: u16) -> (usize, usize) {
    server.listen(listen_port, 16).expect("listen failed");
    let client_conn = client.connect(
        Endpoint { addr: BOB_IPV4, port: listen_port },
        BOB_MAC,
    );
    let syn = client.pop_frame().expect("no SYN emitted");
    assert!(syn.syn && !syn.ack);
    assert_eq!(syn.seq.val, 0);
    server.receive(syn).expect("server rejected SYN");
    let syn_ack = server.pop_frame().expect("no SYN-ACK emitted");
    assert!(syn_ack.syn && syn_ack.ack);
    assert_eq!(syn_ack.ack_num.val, 1);
    client.receive(syn_ack).expect("client rejected SYN-ACK");
    let ack = client.pop_frame().expect("no handshake ACK emitted");
    assert!(ack.ack && !ack.syn && ack.payload.is_empty());
    server.receive(ack).expect("server rejected handshake ACK");
    let server_conn = server.accept_ready(listen_port).expect("no accepted connection");
    assert_eq!(server.conn_state(server_conn), Some(TcpState::Established));
    assert_eq!(client.conn_state(client_conn), Some(TcpState::Established));
    (server_conn, client_conn)
}

/// Pushes `bytes` on the sender and checks the emitted data frame.
fn send_data(
    receiver: &mut Engine,
    sender: &mut Engine,
    sender_conn: usize,
    window_size: u32,
    seq_no: u32,
    bytes: Vec<u8>,
    now: &mut u64,
) -> Frame {
    let expected = bytes.clone();
    sender.tcp_push(sender_conn, bytes).expect("push failed");
    let frame = sender.pop_frame().expect("no data frame emitted");
    assert_eq!(frame.eth_src, sender.local_mac);
    assert_eq!(frame.eth_dst, receiver.local_mac);
    assert_eq!(frame.src.addr, sender.local_ip);
    assert_eq!(frame.dst.addr, receiver.local_ip);
    assert_eq!(frame.wnd, window_size);
    assert_eq!(frame.seq.val, seq_no);
    assert_eq!(frame.payload, expected);
    advance_clock(receiver, sender, now);
    frame
}

/// Delivers a data frame and pops it on the receiver.
fn recv_data(receiver: &mut Engine, receiver_conn: usize, frame: Frame) -> Vec<u8> {
    let expected = frame.payload.clone();
    receiver.receive(frame).expect("receive failed");
    let got = receiver
        .tcp_pop(receiver_conn)
        .expect("pop failed")
        .expect("pop returned nothing");
    assert_eq!(got, expected);
    got
}

/// Drains the receiver's delayed pure ACK and hands it to the sender.
fn recv_pure_ack(receiver: &mut Engine, sender: &mut Engine, ack_num: u32, now: &mut u64) {
    advance_clock(receiver, sender, now);
    if let Some(ack) = receiver.pop_frame() {
        assert!(ack.ack && !ack.syn && !ack.fin && !ack.rst);
        assert!(ack.payload.is_empty());
        assert_eq!(ack.ack_num.val, ack_num);
        sender.receive(ack).expect("sender rejected pure ACK");
    }
}

/// One-way communication: the receiving peer must emit pure ACKs back.
#[test]
fn test_send_recv_loop() {
    let mut now: u64 = 0;
    let listen_port: u16 = 80;
    let mut server = new_bob(now);
    let mut client = new_alice(now);
    let max_window_size: u32 = 0xFFFF;
    let (server_conn, client_conn) = connection_setup(&mut server, &mut client, listen_port);
    let _ = client_conn;

    let bufsize: u32 = 64;
    let buf = cook_buffer(bufsize as usize, None);

    for i in 0..((max_window_size + 1) / bufsize) {
        let seq_no = 1 + i * bufsize;
        let frame = send_data(
            &mut server,
            &mut client,
            client_conn,
            max_window_size,
            seq_no,
            buf.clone(),
            &mut now,
        );
        recv_data(&mut server, server_conn, frame);
        recv_pure_ack(&mut server, &mut client, seq_no + bufsize, &mut now);
    }
}

/// Data in both directions each round.
#[test]
fn test_send_recv_round_loop() {
    let mut now: u64 = 0;
    let listen_port: u16 = 80;
    let mut server = new_bob(now);
    let mut client = new_alice(now);
    let max_window_size: u32 = 0xFFFF;
    let (server_conn, client_conn) = connection_setup(&mut server, &mut client, listen_port);

    let bufsize: u32 = 64;
    let buf = cook_buffer(bufsize as usize, None);

    for i in 0..((max_window_size + 1) / bufsize) {
        let seq_no = 1 + i * bufsize;
        // Client -> server.
        let frame = send_data(
            &mut server,
            &mut client,
            client_conn,
            max_window_size,
            seq_no,
            buf.clone(),
            &mut now,
        );
        recv_data(&mut server, server_conn, frame);
        // Server -> client, same round.
        let back = cook_buffer(bufsize as usize, None);
        let frame = send_data(
            &mut client,
            &mut server,
            server_conn,
            max_window_size,
            seq_no,
            back,
            &mut now,
        );
        assert_eq!(frame.ack_num.val, seq_no + bufsize);
        recv_data(&mut client, client_conn, frame);
        recv_pure_ack(&mut server, &mut client, seq_no + bufsize, &mut now);
        recv_pure_ack(&mut client, &mut server, seq_no + bufsize, &mut now);
    }
}

/// One-way communication with delayed pops: frames pile up in flight and
/// acknowledgment numbers advance monotonically until all drain.
#[test]
fn test_send_recv_with_delay() {
    let mut now: u64 = 0;
    let listen_port: u16 = 80;
    let mut server = new_bob(now);
    let mut client = new_alice(now);
    let max_window_size: u32 = 0xFFFF;
    let (server_conn, client_conn) = connection_setup(&mut server, &mut client, listen_port);

    let bufsize: u32 = 64;
    let buf = cook_buffer(bufsize as usize, None);
    let mut recv_seq_no: u32 = 1;
    let mut seq_no: u32 = 1;
    let mut inflight: Vec<Frame> = Vec::new();
    // A small deterministic generator stands in for coin flips.
    let mut rng_state: u64 = 0x2545_F491_4F6C_DD1D;

    for _ in 0..((max_window_size + 1) / bufsize) {
        let frame = send_data(
            &mut server,
            &mut client,
            client_conn,
            max_window_size,
            seq_no,
            buf.clone(),
            &mut now,
        );
        seq_no += bufsize;
        inflight.push(frame);

        rng_state = rng_state.wrapping_mul(6364136223846793005).wrapping_add(1442695040888963407);
        if rng_state & 1 == 1 && !inflight.is_empty() {
            let frame = inflight.remove(0);
            recv_data(&mut server, server_conn, frame);
            recv_seq_no += bufsize;
        }
        recv_pure_ack(&mut server, &mut client, recv_seq_no, &mut now);
    }

    while !inflight.is_empty() {
        let frame = inflight.remove(0);
        recv_data(&mut server, server_conn, frame);
        recv_seq_no += bufsize;
        recv_pure_ack(&mut server, &mut client, recv_seq_no, &mut now);
    }
}

/// Connect, no data, orderly close from both sides: the state sequence
/// ends Closed on both peers and no stray frames remain.
#[test]
fn test_connect_disconnect() {
    let mut now: u64 = 0;
    let listen_port: u16 = 80;
    let mut server = new_bob(now);
    let mut client = new_alice(now);
    let (server_conn, client_conn) = connection_setup(&mut server, &mut client, listen_port);

    // Client closes first: FIN to the server.
    client.tcp_close(client_conn).expect("client close failed");
    assert_eq!(client.conn_state(client_conn), Some(TcpState::FinWait1));
    let fin = client.pop_frame().expect("no FIN emitted");
    assert!(fin.fin);
    advance_clock(&mut server, &mut client, &mut now);

    // Server ACKs the FIN.
    server.receive(fin).expect("server rejected FIN");
    assert_eq!(server.conn_state(server_conn), Some(TcpState::CloseWait));
    let fin_ack = server.pop_frame().expect("no ACK of FIN emitted");
    assert!(fin_ack.ack && !fin_ack.fin);
    advance_clock(&mut server, &mut client, &mut now);

    // Client learns its FIN is acknowledged.
    client.receive(fin_ack).expect("client rejected ACK");
    assert_eq!(client.conn_state(client_conn), Some(TcpState::FinWait2));
    advance_clock(&mut server, &mut client, &mut now);

    // Server closes: FIN to the client.
    server.tcp_close(server_conn).expect("server close failed");
    assert_eq!(server.conn_state(server_conn), Some(TcpState::LastAck));
    let fin2 = server.pop_frame().expect("no server FIN emitted");
    assert!(fin2.fin);
    advance_clock(&mut server, &mut client, &mut now);

    // Client ACKs it and lingers in TimeWait.
    client.receive(fin2).expect("client rejected server FIN");
    assert_eq!(client.conn_state(client_conn), Some(TcpState::TimeWait));
    let fin2_ack = client.pop_frame().expect("no ACK of server FIN emitted");
    assert!(fin2_ack.ack && !fin2_ack.fin);
    advance_clock(&mut server, &mut client, &mut now);

    // Server is done.
    server.receive(fin2_ack).expect("server rejected final ACK");
    assert_eq!(server.conn_state(server_conn), Some(TcpState::Closed));

    // After the TimeWait linger expires the client is done too, and no
    // stray frames remain anywhere.
    now += 300_000_000_000;
    client.advance_clock(now);
    server.advance_clock(now);
    assert_eq!(client.conn_state(client_conn), Some(TcpState::Closed));
    assert!(client.pop_frame().is_none());
    assert!(server.pop_frame().is_none());

    // Once closed, nothing ever emits again.
    now += TICK;
    client.advance_clock(now);
    assert!(client.pop_frame().is_none());
}
