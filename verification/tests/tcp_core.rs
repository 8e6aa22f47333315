use usertcp::seqnum::{is_between_wrapped, wrap_add, wrap_sub};
use usertcp::table::{ConnectionTable, FlowKey};
use usertcp::tcp::{
    Connection, RecvSequenceSpace, SendSequenceSpace, State, TcpFields, ADVERTISED_WND,
    INITIAL_SEQ, MAX_RETRANSMITS, TIME_WAIT_TICKS,
};

fn seg(seq: u32, ackn: u32, syn: bool, ack: bool, fin: bool, rst: bool) -> TcpFields {
    TcpFields {
        src_port: 4000,
        dst_port: 80,
        seq,
        ackn,
        syn,
        ack,
        fin,
        rst,
        wnd: 4096,
        header_len: 20,
    }
}

fn established(snd: u32, rcv_nxt: u32, rcv_wnd: u16) -> Connection {
    Connection {
        state: State::Established,
        send: SendSequenceSpace {
            una: snd,
            nxt: snd,
            wnd: ADVERTISED_WND,
            up: false,
            wl1: 0,
            wl2: 0,
            iss: 0,
        },
        recv: RecvSequenceSpace {
            nxt: rcv_nxt,
            wnd: rcv_wnd,
            up: false,
            irs: 0,
        },
        ticks: 0,
    }
}

fn key() -> FlowKey {
    FlowKey {
        src_addr: 0x0a000002,
        src_port: 4000,
        dst_addr: 0x0a000001,
        dst_port: 80,
    }
}

#[test]
fn between_wraps_around() {
    // an interval that crosses the wrap boundary contains numbers on both sides
    assert!(is_between_wrapped(0xFFFFFFF0, 0xFFFFFFFF, 0x10));
    assert!(is_between_wrapped(0xFFFFFFF0, 0x0, 0x10));
    assert!(is_between_wrapped(0xFFFFFFF0, 0x5, 0x10));
    assert!(!is_between_wrapped(0xFFFFFFF0, 0x10, 0x10));
    assert!(!is_between_wrapped(0xFFFFFFF0, 0x11, 0x10));
    assert!(!is_between_wrapped(0xFFFFFFF0, 0xFFFFFFEF, 0x10));
    // una just below the wrap is treated as older than nxt just above it
    assert_eq!(wrap_sub(0x10, 0xFFFFFFF0), 0x20);
    assert_eq!(wrap_add(0xFFFFFFF0, 0x20), 0x10);
}

#[test]
fn between_agrees_with_difference() {
    let samples: [u32; 8] = [
        0,
        1,
        9,
        0x7FFFFFFF,
        0x80000000,
        0xFFFFFFF0,
        0xFFFFFFFF,
        0x12345678,
    ];
    for &a in samples.iter() {
        for &b in samples.iter() {
            for &c in samples.iter() {
                let by_difference = b.wrapping_sub(a) < c.wrapping_sub(a);
                assert_eq!(is_between_wrapped(a, b, c), by_difference);
            }
        }
    }
}

#[test]
fn handshake_reaches_established() {
    let syn = seg(1000, 0, true, false, false, false);
    let (mut conn, syn_ack) = Connection::accept(&syn).expect("syn must be accepted");
    assert_eq!(conn.state, State::SynRcvd);
    assert_eq!(conn.send.iss, INITIAL_SEQ);
    assert_eq!(conn.send.una, INITIAL_SEQ);
    assert_eq!(conn.send.nxt, INITIAL_SEQ.wrapping_add(1));
    assert_eq!(conn.recv.irs, 1000);
    assert_eq!(conn.recv.nxt, 1001);
    assert_eq!(conn.recv.wnd, 4096);
    assert!(syn_ack.syn && syn_ack.ack && !syn_ack.fin && !syn_ack.rst);
    assert_eq!(syn_ack.seq, INITIAL_SEQ);
    assert_eq!(syn_ack.ackn, 1001);
    assert_eq!(syn_ack.wnd, ADVERTISED_WND);

    let ack = seg(1001, INITIAL_SEQ.wrapping_add(1), false, true, false, false);
    let out = conn.on_packet(&ack, 0);
    assert_eq!(conn.state, State::Established);
    assert_eq!(conn.send.una, INITIAL_SEQ.wrapping_add(1));
    assert!(out.reply.is_none());
    assert!(!out.done);
}

#[test]
fn accept_refuses_non_syn_and_syn_with_rst_or_fin() {
    assert!(Connection::accept(&seg(1, 2, false, true, false, false)).is_none());
    assert!(Connection::accept(&seg(1, 2, true, false, true, false)).is_none());
    assert!(Connection::accept(&seg(1, 2, true, false, false, true)).is_none());
}

#[test]
fn handshake_bad_ack_answered_with_rst() {
    let syn = seg(1000, 0, true, false, false, false);
    let (mut conn, _) = Connection::accept(&syn).unwrap();
    // acknowledges something never sent
    let bad = seg(1001, INITIAL_SEQ.wrapping_add(7), false, true, false, false);
    let out = conn.on_packet(&bad, 0);
    assert!(out.done);
    let rst = out.reply.expect("bad ack gets a reset");
    assert!(rst.rst && !rst.ack && !rst.syn);
    assert_eq!(rst.seq, INITIAL_SEQ.wrapping_add(7));
}

#[test]
fn out_of_window_segment_gets_bare_ack() {
    let mut conn = established(100, 2000, 1024);
    let out = conn.on_packet(&seg(5000, 100, false, true, false, false), 3);
    let ack = out.reply.expect("out-of-window segment is answered");
    assert!(ack.ack && !ack.syn && !ack.fin && !ack.rst);
    assert_eq!(ack.ackn, 2000);
    assert_eq!(ack.seq, 100);
    assert_eq!(conn.recv.nxt, 2000);
    assert_eq!(conn.state, State::Established);
    assert!(!out.done);
}

#[test]
fn zero_window_accepts_only_repeats_of_nxt() {
    let mut conn = established(100, 2000, 0);
    // empty segment repeating exactly nxt: acceptable, nothing to answer
    let out = conn.on_packet(&seg(2000, 100, false, true, false, false), 0);
    assert!(out.reply.is_none());
    // any payload is unacceptable under a zero window
    let out = conn.on_packet(&seg(2000, 100, false, true, false, false), 1);
    let ack = out.reply.expect("data under zero window is refused with an ack");
    assert_eq!(ack.ackn, 2000);
    assert_eq!(conn.recv.nxt, 2000);
}

#[test]
fn in_order_data_advances_and_is_acked() {
    let mut conn = established(100, 2000, 1024);
    let out = conn.on_packet(&seg(2000, 100, false, true, false, false), 5);
    let ack = out.reply.expect("data is acknowledged");
    assert_eq!(ack.ackn, 2005);
    assert_eq!(conn.recv.nxt, 2005);
    assert_eq!(conn.state, State::Established);
}

#[test]
fn retransmitted_segment_does_not_regress() {
    let mut conn = established(100, 2000, 1024);
    let data = seg(2000, 100, false, true, false, false);
    let first = conn.on_packet(&data, 5);
    assert_eq!(first.reply.unwrap().ackn, 2005);
    // the very same segment again: everything below recv.nxt already
    let again = conn.on_packet(&data, 5);
    let ack = again.reply.expect("duplicate is re-acknowledged");
    assert_eq!(ack.ackn, 2005);
    assert_eq!(conn.recv.nxt, 2005, "recv.nxt must not regress");
    assert_eq!(conn.send.una, 100, "send.una must not regress");
    // a duplicate pure ACK of old news moves nothing either
    let dup_ack = conn.on_packet(&seg(2005, 100, false, true, false, false), 0);
    assert!(dup_ack.reply.is_none());
    assert_eq!(conn.send.una, 100);
}

#[test]
fn in_window_but_misaligned_data_is_not_consumed() {
    let mut conn = established(100, 2000, 1024);
    let out = conn.on_packet(&seg(2100, 100, false, true, false, false), 5);
    let ack = out.reply.expect("gap provokes a duplicate ack");
    assert_eq!(ack.ackn, 2000);
    assert_eq!(conn.recv.nxt, 2000);
}

#[test]
fn window_update_honors_wl_rule() {
    let mut conn = established(100, 2000, 1024);
    conn.send.wl1 = 2500;
    conn.send.wl2 = 0;
    // in-window but older than the last update: no window change
    let mut old_seg = seg(2000, 100, false, true, false, false);
    old_seg.wnd = 777;
    conn.on_packet(&old_seg, 0);
    assert_eq!(conn.send.wnd, ADVERTISED_WND);
    // newer than the last update: window taken over
    let mut new_seg = seg(2600, 100, false, true, false, false);
    new_seg.wnd = 888;
    conn.on_packet(&new_seg, 0);
    assert_eq!(conn.send.wnd, 888);
    assert_eq!(conn.send.wl1, 2600);
}

#[test]
fn table_handshake_and_unsolicited_drop() {
    let mut table = ConnectionTable::new();
    let k = key();
    // unsolicited non-SYN: dropped, no entry, no reply
    let r = table.handle_segment(k, &seg(9, 9, false, true, false, false), 0);
    assert!(r.is_none());
    assert!(!table.contains(&k));
    // SYN creates the connection and provokes the SYN+ACK
    let r = table.handle_segment(k, &seg(1000, 0, true, false, false, false), 0);
    let syn_ack = r.expect("syn is answered");
    assert!(syn_ack.syn && syn_ack.ack);
    assert_eq!(syn_ack.ackn, 1001);
    assert_eq!(table.get(&k).unwrap().state, State::SynRcvd);
    // handshake ACK
    let r = table.handle_segment(
        k,
        &seg(1001, INITIAL_SEQ.wrapping_add(1), false, true, false, false),
        0,
    );
    assert!(r.is_none());
    assert_eq!(table.get(&k).unwrap().state, State::Established);
}

#[test]
fn teardown_to_time_wait_and_expiry() {
    let mut table = ConnectionTable::new();
    let k = key();
    table.handle_segment(k, &seg(1000, 0, true, false, false, false), 0);
    table.handle_segment(k, &seg(1001, INITIAL_SEQ.wrapping_add(1), false, true, false, false), 0);
    assert_eq!(table.get(&k).unwrap().state, State::Established);

    // local close sends the FIN, consuming one sequence number
    let fin = table.close(k).expect("close from established sends a fin");
    assert!(fin.fin && fin.ack);
    assert_eq!(fin.seq, INITIAL_SEQ.wrapping_add(1));
    let c = table.get(&k).unwrap();
    assert_eq!(c.state, State::FinWait1);
    assert_eq!(c.send.nxt, INITIAL_SEQ.wrapping_add(2));

    // the peer acknowledges our FIN
    let r = table.handle_segment(k, &seg(1001, INITIAL_SEQ.wrapping_add(2), false, true, false, false), 0);
    assert!(r.is_none());
    assert_eq!(table.get(&k).unwrap().state, State::FinWait2);

    // the peer's own FIN: acknowledged, and we enter time-wait
    let r = table.handle_segment(k, &seg(1001, INITIAL_SEQ.wrapping_add(2), false, true, true, false), 0);
    let ack = r.expect("peer fin is acknowledged");
    assert_eq!(ack.ackn, 1002);
    assert_eq!(table.get(&k).unwrap().state, State::TimeWait);

    // half the delay: still there
    for _ in 0..(TIME_WAIT_TICKS / 2) {
        assert!(table.tick(k).is_none());
    }
    assert!(table.contains(&k));
    // the rest of the delay: gone
    for _ in 0..TIME_WAIT_TICKS {
        let _ = table.tick(k);
    }
    assert!(!table.contains(&k), "time-wait expiry removes the flow");
}

#[test]
fn close_wait_to_last_ack_removal() {
    let mut table = ConnectionTable::new();
    let k = key();
    table.handle_segment(k, &seg(1000, 0, true, false, false, false), 0);
    table.handle_segment(k, &seg(1001, INITIAL_SEQ.wrapping_add(1), false, true, false, false), 0);
    // the peer closes first
    let r = table.handle_segment(k, &seg(1001, INITIAL_SEQ.wrapping_add(1), false, true, true, false), 0);
    assert_eq!(r.unwrap().ackn, 1002);
    assert_eq!(table.get(&k).unwrap().state, State::CloseWait);
    // our FIN, then its acknowledgment, ends the connection
    let fin = table.close(k).expect("close from close-wait sends a fin");
    assert!(fin.fin);
    assert_eq!(table.get(&k).unwrap().state, State::LastAck);
    let r = table.handle_segment(k, &seg(1002, INITIAL_SEQ.wrapping_add(2), false, true, false, false), 0);
    assert!(r.is_none());
    assert!(!table.contains(&k));
}

#[test]
fn reset_removes_connection_silently() {
    let mut table = ConnectionTable::new();
    let k = key();
    // in syn-received
    table.handle_segment(k, &seg(1000, 0, true, false, false, false), 0);
    let r = table.handle_segment(k, &seg(1001, 0, false, false, false, true), 0);
    assert!(r.is_none(), "a reset is never answered");
    assert!(!table.contains(&k));
    // in established
    table.handle_segment(k, &seg(1000, 0, true, false, false, false), 0);
    table.handle_segment(k, &seg(1001, INITIAL_SEQ.wrapping_add(1), false, true, false, false), 0);
    let r = table.handle_segment(k, &seg(1001, 0, false, false, false, true), 0);
    assert!(r.is_none());
    assert!(!table.contains(&k));
}

#[test]
fn reset_in_time_wait_is_ignored() {
    let mut table = ConnectionTable::new();
    let k = key();
    let mut conn = established(100, 2000, 1024);
    conn.state = State::TimeWait;
    assert!(table.insert(k, conn));
    let r = table.handle_segment(k, &seg(2000, 0, false, false, false, true), 0);
    assert!(r.is_none());
    assert!(table.contains(&k), "a reset does not cut time-wait short");
}

#[test]
fn syn_ack_is_retransmitted_then_abandoned() {
    let mut table = ConnectionTable::new();
    let k = key();
    table.handle_segment(k, &seg(1000, 0, true, false, false, false), 0);
    // every tick without the handshake ACK resends the SYN+ACK
    for _ in 0..MAX_RETRANSMITS {
        let resend = table.tick(k).expect("unacknowledged syn+ack is resent");
        assert!(resend.syn && resend.ack);
        assert_eq!(resend.seq, INITIAL_SEQ);
        assert_eq!(resend.ackn, 1001);
    }
    // the retry budget is spent: the connection is abandoned
    assert!(table.tick(k).is_none());
    assert!(!table.contains(&k));
}

#[test]
fn table_insert_refuses_duplicates_and_remove_works() {
    let mut table = ConnectionTable::new();
    let k = key();
    assert!(table.insert(k, established(1, 2, 3)));
    assert!(!table.insert(k, established(4, 5, 6)), "occupied key refuses insertion");
    assert_eq!(table.get(&k).unwrap().send.una, 1);
    assert!(table.remove(&k));
    assert!(!table.contains(&k));
    assert!(!table.remove(&k));
}

#[test]
fn simultaneous_close_goes_through_closing() {
    let mut table = ConnectionTable::new();
    let k = key();
    table.handle_segment(k, &seg(1000, 0, true, false, false, false), 0);
    table.handle_segment(k, &seg(1001, INITIAL_SEQ.wrapping_add(1), false, true, false, false), 0);
    table.close(k).expect("close sends a fin");
    assert_eq!(table.get(&k).unwrap().state, State::FinWait1);
    // the peer's FIN crosses ours: it acknowledges only the old data
    let r = table.handle_segment(k, &seg(1001, INITIAL_SEQ.wrapping_add(1), false, true, true, false), 0);
    assert_eq!(r.unwrap().ackn, 1002);
    assert_eq!(table.get(&k).unwrap().state, State::Closing);
    // the late acknowledgment of our FIN completes the close
    let r = table.handle_segment(k, &seg(1002, INITIAL_SEQ.wrapping_add(2), false, true, false, false), 0);
    assert!(r.is_none());
    assert_eq!(table.get(&k).unwrap().state, State::TimeWait);
}

#[test]
fn unacknowledged_fin_is_retransmitted() {
    let mut table = ConnectionTable::new();
    let k = key();
    table.handle_segment(k, &seg(1000, 0, true, false, false, false), 0);
    table.handle_segment(k, &seg(1001, INITIAL_SEQ.wrapping_add(1), false, true, false, false), 0);
    table.close(k).expect("close sends a fin");
    let resend = table.tick(k).expect("unacknowledged fin is resent");
    assert!(resend.fin && resend.ack && !resend.syn);
    assert_eq!(resend.seq, INITIAL_SEQ.wrapping_add(1));
}

#[test]
fn close_outside_established_or_close_wait_does_nothing() {
    let mut table = ConnectionTable::new();
    let k = key();
    table.handle_segment(k, &seg(1000, 0, true, false, false, false), 0);
    assert_eq!(table.get(&k).unwrap().state, State::SynRcvd);
    assert!(table.close(k).is_none());
    assert_eq!(table.get(&k).unwrap().state, State::SynRcvd);
    // a key with no connection has nothing to close
    assert!(table.close(k.swapped()).is_none());
}

#[test]
fn swapped_keys_share_a_canonical_form() {
    let k = key();
    let reverse = k.swapped();
    assert_ne!(k, reverse);
    assert_eq!(k.canonical(), reverse.canonical());
    assert_eq!(k.swapped().swapped(), k);
    // a flow between identical endpoints is its own reverse
    let same = FlowKey {
        src_addr: 7,
        src_port: 9,
        dst_addr: 7,
        dst_port: 9,
    };
    assert_eq!(same.swapped(), same);
    assert_eq!(same.canonical(), same);
}
