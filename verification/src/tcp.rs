//! The per-flow TCP state machine and its sequence spaces.
use vstd::prelude::*;
use crate::seqnum::{seq_add, seq_le, seq_lt, seq_sub};

verus! {

/// Protocol state of one connection. A connection only exists while it is in
/// the table: the closed state is represented by absence of an entry, and
/// listening is implicit (any unmatched SYN may create a connection).
#[derive(Clone, Copy, Debug, PartialEq, Eq, Structural)]
pub enum State {
    SynRcvd,
    Established,
    FinWait1,
    FinWait2,
    Closing,
    TimeWait,
    CloseWait,
    LastAck,
}

/// Send sequence space: the numbers this side has used or may use.
#[derive(Clone, Copy, Debug, PartialEq, Eq, Structural)]
pub struct SendSequenceSpace {
    /// oldest unacknowledged sequence number
    pub una: u32,
    /// next sequence number to send
    pub nxt: u32,
    /// send window
    pub wnd: u16,
    /// send urgent flag
    pub up: bool,
    /// segment sequence number of the last window update
    pub wl1: u32,
    /// segment acknowledgment number of the last window update
    pub wl2: u32,
    /// initial send sequence number
    pub iss: u32,
}

/// Receive sequence space: the numbers this side is willing to accept.
#[derive(Clone, Copy, Debug, PartialEq, Eq, Structural)]
pub struct RecvSequenceSpace {
    /// next sequence number expected from the peer
    pub nxt: u32,
    /// receive window
    pub wnd: u16,
    /// receive urgent flag
    pub up: bool,
    /// initial receive sequence number
    pub irs: u32,
}

/// The fields of one inbound TCP header that the state machine reads.
#[derive(Clone, Copy, Debug)]
pub struct TcpFields {
    pub src_port: u16,
    pub dst_port: u16,
    pub seq: u32,
    pub ackn: u32,
    pub syn: bool,
    pub ack: bool,
    pub fin: bool,
    pub rst: bool,
    pub wnd: u16,
    /// length in bytes of the header as it stood on the wire
    pub header_len: usize,
}

/// One outbound segment, described by its TCP fields; the ports and
/// addresses come from the flow key when the segment is encoded.
#[derive(Clone, Copy, Debug, PartialEq, Eq, Structural)]
pub struct OutSegment {
    pub seq: u32,
    pub ackn: u32,
    pub syn: bool,
    pub ack: bool,
    pub fin: bool,
    pub rst: bool,
    pub wnd: u16,
}

/// What one inbound segment did to a connection.
#[derive(Clone, Copy, Debug)]
pub struct PacketOutcome {
    /// segment to send back, if any
    pub reply: Option<OutSegment>,
    /// the connection is finished and must leave the table
    pub done: bool,
}

/// What one timer tick did to a connection.
#[derive(Clone, Copy, Debug)]
pub struct TickOutcome {
    /// segment to retransmit, if any
    pub resend: Option<OutSegment>,
    /// the connection has expired or given up and must leave the table
    pub done: bool,
}

/// One connection: protocol state plus both sequence spaces.
#[derive(Clone, Copy, Debug)]
pub struct Connection {
    pub state: State,
    pub send: SendSequenceSpace,
    pub recv: RecvSequenceSpace,
    /// timer ticks since the last forward progress; counts retransmission
    /// intervals outside time-wait and the time-wait delay inside it
    pub ticks: u32,
}

/// Initial send sequence number handed to every new connection. A fixed
/// value keeps the core deterministic; production use would randomize it.
pub const INITIAL_SEQ: u32 = 0;

/// Window advertised in every segment this side sends.
pub const ADVERTISED_WND: u16 = 10;

/// Retransmissions of the oldest unacknowledged segment before the
/// connection is abandoned.
pub const MAX_RETRANSMITS: u32 = 5;

/// Timer ticks a connection lingers in time-wait before it leaves the table.
pub const TIME_WAIT_TICKS: u32 = 10;

/// Sequence numbers the segment occupies: its payload bytes plus one for a
/// SYN flag and one for a FIN flag.
pub open spec fn seg_len(t: TcpFields, data_len: nat) -> nat {
    data_len + (if t.syn {
        1nat
    } else {
        0nat
    }) + (if t.fin {
        1nat
    } else {
        0nat
    })
}

/// RFC 793 acceptability: at least one occupied sequence number lies in
/// `[rcv_nxt, rcv_nxt + rcv_wnd)`; an empty segment is acceptable when its
/// sequence number is in the window, or the window is zero and it repeats
/// exactly `rcv_nxt`.
pub open spec fn segment_acceptable(rcv_nxt: u32, rcv_wnd: u16, seq: u32, len: nat) -> bool {
    if len == 0 {
        if rcv_wnd == 0 {
            seq == rcv_nxt
        } else {
            seq_sub(seq, rcv_nxt) < rcv_wnd
        }
    } else {
        if rcv_wnd == 0 {
            false
        } else {
            seq_sub(seq, rcv_nxt) < rcv_wnd || seq_sub(
                seq_add(seq, (len - 1) as nat),
                rcv_nxt,
            ) < rcv_wnd
        }
    }
}

/// An acknowledgment number is news exactly when it lies in `(una, nxt]`.
pub open spec fn ack_acceptable(una: u32, nxt: u32, ackn: u32) -> bool {
    1 <= seq_sub(ackn, una) && seq_sub(ackn, una) <= seq_sub(nxt, una)
}

/// The window-update guard: only a segment newer than the last update may
/// change `send.wnd` (newer sequence number, or the same sequence number
/// with an acknowledgment no older than the last one).
pub open spec fn window_update_due(s: SendSequenceSpace, t: TcpFields) -> bool {
    seq_lt(s.wl1, t.seq) || (s.wl1 == t.seq && seq_le(s.wl2, t.ackn))
}

/// States in which the peer may still deliver data or a FIN.
pub open spec fn recv_open(s: State) -> bool {
    s == State::Established || s == State::FinWait1 || s == State::FinWait2
}

impl Connection {
    /// Well-formedness: exactly the states that have a SYN or FIN of ours in
    /// flight hold one unacknowledged sequence number; all others hold none.
    pub open spec fn wf(self) -> bool {
        match self.state {
            State::SynRcvd | State::FinWait1 | State::Closing | State::LastAck => self.send.nxt
                == seq_add(self.send.una, 1),
            State::Established | State::FinWait2 | State::CloseWait | State::TimeWait => self.send.nxt
                == self.send.una,
        }
    }
}

/// The pure ACK sent for duplicates and out-of-window segments, and to
/// acknowledge delivered data: it repeats `send.nxt` and `recv.nxt`.
pub open spec fn bare_ack(c: Connection) -> OutSegment {
    OutSegment {
        seq: c.send.nxt,
        ackn: c.recv.nxt,
        syn: false,
        ack: true,
        fin: false,
        rst: false,
        wnd: c.send.wnd,
    }
}

/// The reset answering an unacceptable acknowledgment during the handshake:
/// its sequence number is the peer's own acknowledgment number.
pub open spec fn rst_reply(t: TcpFields) -> OutSegment {
    OutSegment {
        seq: t.ackn,
        ackn: 0,
        syn: false,
        ack: false,
        fin: false,
        rst: true,
        wnd: 0,
    }
}

/// Acknowledgment processing shared by all synchronized states: advance
/// `send.una` on news, apply the guarded window update, and move past a
/// fully acknowledged FIN of ours.
pub open spec fn apply_ack(c: Connection, t: TcpFields) -> Connection {
    let acked = t.ack && ack_acceptable(c.send.una, c.send.nxt, t.ackn);
    let fin_acked = acked && t.ackn == c.send.nxt;
    let st = if c.state == State::FinWait1 && fin_acked {
        State::FinWait2
    } else if c.state == State::Closing && fin_acked {
        State::TimeWait
    } else {
        c.state
    };
    let wl = t.ack && window_update_due(c.send, t);
    Connection {
        state: st,
        send: SendSequenceSpace {
            una: if acked {
                t.ackn
            } else {
                c.send.una
            },
            wnd: if wl {
                t.wnd
            } else {
                c.send.wnd
            },
            wl1: if wl {
                t.seq
            } else {
                c.send.wl1
            },
            wl2: if wl {
                t.ackn
            } else {
                c.send.wl2
            },
            ..c.send
        },
        ticks: if acked {
            0
        } else {
            c.ticks
        },
        ..c
    }
}

/// Processing of an acceptable, non-reset segment in every state past the
/// handshake: acknowledgments first, then in-order data and FIN delivery.
pub open spec fn step_synchronized(c: Connection, t: TcpFields, data_len: nat) -> (Connection, Option<
    OutSegment,
>, bool) {
    let acked = t.ack && ack_acceptable(c.send.una, c.send.nxt, t.ackn);
    if c.state == State::LastAck && acked && t.ackn == c.send.nxt {
        (c, None, true)
    } else {
        let c1 = apply_ack(c, t);
        if recv_open(c1.state) && (data_len > 0 || t.fin) {
            if t.seq == c1.recv.nxt {
                let adv = data_len + (if t.fin {
                    1nat
                } else {
                    0nat
                });
                let st = if t.fin {
                    if c1.state == State::Established {
                        State::CloseWait
                    } else if c1.state == State::FinWait1 {
                        State::Closing
                    } else {
                        State::TimeWait
                    }
                } else {
                    c1.state
                };
                let c2 = Connection {
                    state: st,
                    recv: RecvSequenceSpace { nxt: seq_add(c1.recv.nxt, adv), ..c1.recv },
                    ticks: if t.fin && c1.state == State::FinWait2 {
                        0
                    } else {
                        c1.ticks
                    },
                    ..c1
                };
                (c2, Some(bare_ack(c2)), false)
            } else {
                (c1, Some(bare_ack(c1)), false)
            }
        } else {
            (c1, None, false)
        }
    }
}

/// Handshake completion: an acceptable segment in syn-received either
/// confirms the handshake, or is answered with a reset and discards the
/// connection.
pub open spec fn step_syn_rcvd(c: Connection, t: TcpFields, data_len: nat) -> (Connection, Option<
    OutSegment,
>, bool) {
    if !t.ack {
        (c, None, false)
    } else if ack_acceptable(c.send.una, c.send.nxt, t.ackn) {
        let c1 = Connection {
            state: State::Established,
            send: SendSequenceSpace { una: t.ackn, ..c.send },
            ticks: 0,
            ..c
        };
        step_synchronized(c1, t, data_len)
    } else {
        (c, Some(rst_reply(t)), true)
    }
}

/// The complete transition one inbound segment makes on one connection:
/// the new connection, the reply to send, and whether the connection must
/// leave the table.
pub open spec fn step(c: Connection, t: TcpFields, data_len: nat) -> (Connection, Option<OutSegment>, bool) {
    if t.rst {
        if c.state == State::TimeWait {
            (c, None, false)
        } else {
            (c, None, true)
        }
    } else if !segment_acceptable(c.recv.nxt, c.recv.wnd, t.seq, seg_len(t, data_len)) {
        (c, Some(bare_ack(c)), false)
    } else if c.state == State::SynRcvd {
        step_syn_rcvd(c, t, data_len)
    } else {
        step_synchronized(c, t, data_len)
    }
}

/// A new connection for an unmatched inbound segment: only a SYN without
/// RST or FIN is accepted, and it is answered with a SYN+ACK.
pub open spec fn accept_spec(t: TcpFields) -> Option<(Connection, OutSegment)> {
    if t.syn && !t.rst && !t.fin {
        Some(
            (
                Connection {
                    state: State::SynRcvd,
                    send: SendSequenceSpace {
                        una: INITIAL_SEQ,
                        nxt: seq_add(INITIAL_SEQ, 1),
                        wnd: ADVERTISED_WND,
                        up: false,
                        wl1: t.seq,
                        wl2: 0,
                        iss: INITIAL_SEQ,
                    },
                    recv: RecvSequenceSpace {
                        nxt: seq_add(t.seq, 1),
                        wnd: t.wnd,
                        up: false,
                        irs: t.seq,
                    },
                    ticks: 0,
                },
                OutSegment {
                    seq: INITIAL_SEQ,
                    ackn: seq_add(t.seq, 1),
                    syn: true,
                    ack: true,
                    fin: false,
                    rst: false,
                    wnd: ADVERTISED_WND,
                },
            ),
        )
    } else {
        None
    }
}

/// A locally initiated close: send a FIN that consumes one sequence number.
pub open spec fn close_spec(c: Connection) -> (Connection, Option<OutSegment>) {
    if c.state == State::Established || c.state == State::CloseWait {
        let fin = OutSegment {
            seq: c.send.nxt,
            ackn: c.recv.nxt,
            syn: false,
            ack: true,
            fin: true,
            rst: false,
            wnd: c.send.wnd,
        };
        let c2 = Connection {
            state: if c.state == State::Established {
                State::FinWait1
            } else {
                State::LastAck
            },
            send: SendSequenceSpace { nxt: seq_add(c.send.nxt, 1), ..c.send },
            ticks: 0,
            ..c
        };
        (c2, Some(fin))
    } else {
        (c, None)
    }
}

/// The segment resent while an unacknowledged SYN or FIN of ours is in
/// flight: the SYN+ACK during the handshake, the FIN afterwards.
pub open spec fn retransmit_segment(c: Connection) -> OutSegment {
    if c.state == State::SynRcvd {
        OutSegment {
            seq: c.send.una,
            ackn: c.recv.nxt,
            syn: true,
            ack: true,
            fin: false,
            rst: false,
            wnd: c.send.wnd,
        }
    } else {
        OutSegment {
            seq: c.send.una,
            ackn: c.recv.nxt,
            syn: false,
            ack: true,
            fin: true,
            rst: false,
            wnd: c.send.wnd,
        }
    }
}

/// One timer tick: count down the time-wait delay, or retransmit the oldest
/// unacknowledged segment until the retry budget is spent.
pub open spec fn tick_spec(c: Connection) -> (Connection, Option<OutSegment>, bool) {
    if c.state == State::TimeWait {
        if c.ticks + 1 >= TIME_WAIT_TICKS {
            (c, None, true)
        } else {
            (Connection { ticks: (c.ticks + 1) as u32, ..c }, None, false)
        }
    } else if c.send.una != c.send.nxt {
        if c.ticks >= MAX_RETRANSMITS {
            (c, None, true)
        } else {
            (Connection { ticks: (c.ticks + 1) as u32, ..c }, Some(retransmit_segment(c)), false)
        }
    } else {
        (c, None, false)
    }
}

/// Exec form of `seg_len`.
fn seg_len_of(t: &TcpFields, data_len: usize) -> (r: u32)
    requires
        data_len <= 0xFFFF,
    ensures
        r == seg_len(*t, data_len as nat),
{
    data_len as u32 + (if t.syn {
        1
    } else {
        0
    }) + (if t.fin {
        1
    } else {
        0
    })
}

/// Exec form of `segment_acceptable`.
fn check_acceptable(rcv_nxt: u32, rcv_wnd: u16, seq: u32, len: u32) -> (r: bool)
    ensures
        r == segment_acceptable(rcv_nxt, rcv_wnd, seq, len as nat),
{
    if len == 0 {
        if rcv_wnd == 0 {
            seq == rcv_nxt
        } else {
            crate::seqnum::wrap_sub(seq, rcv_nxt) < rcv_wnd as u32
        }
    } else {
        if rcv_wnd == 0 {
            false
        } else {
            crate::seqnum::wrap_sub(seq, rcv_nxt) < rcv_wnd as u32 || crate::seqnum::wrap_sub(
                crate::seqnum::wrap_add(seq, len - 1),
                rcv_nxt,
            ) < rcv_wnd as u32
        }
    }
}

/// Exec form of `ack_acceptable`.
fn check_ack_ok(una: u32, nxt: u32, ackn: u32) -> (r: bool)
    ensures
        r == ack_acceptable(una, nxt, ackn),
{
    let d = crate::seqnum::wrap_sub(ackn, una);
    1 <= d && d <= crate::seqnum::wrap_sub(nxt, una)
}

/// Exec form of `window_update_due`.
fn check_window_update(s: &SendSequenceSpace, t: &TcpFields) -> (r: bool)
    ensures
        r == window_update_due(*s, *t),
{
    (s.wl1 != t.seq && crate::seqnum::wrap_sub(t.seq, s.wl1) < 0x8000_0000) || (s.wl1 == t.seq && (
    s.wl2 == t.ackn || crate::seqnum::wrap_sub(t.ackn, s.wl2) < 0x8000_0000))
}

impl Connection {
    /// The pure ACK for the connection as it now stands.
    fn bare_ack_now(&self) -> (r: OutSegment)
        ensures
            r == bare_ack(*self),
    {
        OutSegment {
            seq: self.send.nxt,
            ackn: self.recv.nxt,
            syn: false,
            ack: true,
            fin: false,
            rst: false,
            wnd: self.send.wnd,
        }
    }

    /// Connection acceptance: an unmatched SYN creates a connection in
    /// syn-received and is answered with a SYN+ACK acknowledging the SYN;
    /// anything else creates nothing.
    pub fn accept(t: &TcpFields) -> (r: Option<(Connection, OutSegment)>)
        ensures
            r == accept_spec(*t),
            r matches Some(p) ==> p.0.wf(),
    {
        if t.syn && !t.rst && !t.fin {
            let c = Connection {
                state: State::SynRcvd,
                send: SendSequenceSpace {
                    una: INITIAL_SEQ,
                    nxt: crate::seqnum::wrap_add(INITIAL_SEQ, 1),
                    wnd: ADVERTISED_WND,
                    up: false,
                    wl1: t.seq,
                    wl2: 0,
                    iss: INITIAL_SEQ,
                },
                recv: RecvSequenceSpace {
                    nxt: crate::seqnum::wrap_add(t.seq, 1),
                    wnd: t.wnd,
                    up: false,
                    irs: t.seq,
                },
                ticks: 0,
            };
            let syn_ack = OutSegment {
                seq: INITIAL_SEQ,
                ackn: c.recv.nxt,
                syn: true,
                ack: true,
                fin: false,
                rst: false,
                wnd: ADVERTISED_WND,
            };
            Some((c, syn_ack))
        } else {
            None
        }
    }

    /// Drive the state machine with one inbound segment. The result and the
    /// new connection are exactly what `step` says; a reset outside
    /// time-wait silently removes the connection.
    pub fn on_packet(&mut self, t: &TcpFields, data_len: usize) -> (r: PacketOutcome)
        requires
            old(self).wf(),
            data_len <= 0xFFFF,
        ensures
            *final(self) == step(*old(self), *t, data_len as nat).0,
            r.reply == step(*old(self), *t, data_len as nat).1,
            r.done == step(*old(self), *t, data_len as nat).2,
            final(self).wf(),
            t.rst && old(self).state != State::TimeWait ==> r.done && r.reply is None,
    {
        let len = seg_len_of(t, data_len);
        if t.rst {
            return PacketOutcome { reply: None, done: self.state != State::TimeWait };
        }
        if !check_acceptable(self.recv.nxt, self.recv.wnd, t.seq, len) {
            return PacketOutcome { reply: Some(self.bare_ack_now()), done: false };
        }
        if self.state == State::SynRcvd {
            if !t.ack {
                return PacketOutcome { reply: None, done: false };
            }
            if !check_ack_ok(self.send.una, self.send.nxt, t.ackn) {
                return PacketOutcome { reply: Some(OutSegment {
                    seq: t.ackn,
                    ackn: 0,
                    syn: false,
                    ack: false,
                    fin: false,
                    rst: true,
                    wnd: 0,
                }), done: true };
            }
            self.state = State::Established;
            self.send.una = t.ackn;
            self.ticks = 0;
        }
        let acked = t.ack && check_ack_ok(self.send.una, self.send.nxt, t.ackn);
        if self.state == State::LastAck && acked && t.ackn == self.send.nxt {
            return PacketOutcome { reply: None, done: true };
        }
        let fin_acked = acked && t.ackn == self.send.nxt;
        let wl = t.ack && check_window_update(&self.send, t);
        if acked {
            self.send.una = t.ackn;
            self.ticks = 0;
        }
        if wl {
            self.send.wnd = t.wnd;
            self.send.wl1 = t.seq;
            self.send.wl2 = t.ackn;
        }
        if self.state == State::FinWait1 && fin_acked {
            self.state = State::FinWait2;
        } else if self.state == State::Closing && fin_acked {
            self.state = State::TimeWait;
        }
        let open = self.state == State::Established || self.state == State::FinWait1
            || self.state == State::FinWait2;
        if open && (data_len > 0 || t.fin) {
            if t.seq == self.recv.nxt {
                let adv = data_len as u32 + (if t.fin {
                    1
                } else {
                    0
                });
                self.recv.nxt = crate::seqnum::wrap_add(self.recv.nxt, adv);
                if t.fin {
                    if self.state == State::Established {
                        self.state = State::CloseWait;
                    } else if self.state == State::FinWait1 {
                        self.state = State::Closing;
                    } else {
                        self.state = State::TimeWait;
                        self.ticks = 0;
                    }
                }
                return PacketOutcome { reply: Some(self.bare_ack_now()), done: false };
            }
            return PacketOutcome { reply: Some(self.bare_ack_now()), done: false };
        }
        PacketOutcome { reply: None, done: false }
    }

    /// Close this side of the connection: from established or close-wait a
    /// FIN goes out and consumes one sequence number; elsewhere nothing
    /// happens.
    pub fn local_close(&mut self) -> (r: Option<OutSegment>)
        requires
            old(self).wf(),
        ensures
            *final(self) == close_spec(*old(self)).0,
            r == close_spec(*old(self)).1,
            final(self).wf(),
    {
        if self.state == State::Established || self.state == State::CloseWait {
            let fin = OutSegment {
                seq: self.send.nxt,
                ackn: self.recv.nxt,
                syn: false,
                ack: true,
                fin: true,
                rst: false,
                wnd: self.send.wnd,
            };
            self.state = if self.state == State::Established {
                State::FinWait1
            } else {
                State::LastAck
            };
            self.send.nxt = crate::seqnum::wrap_add(self.send.nxt, 1);
            self.ticks = 0;
            Some(fin)
        } else {
            None
        }
    }

    /// One timer tick, as `tick_spec` says: the time-wait delay runs down,
    /// and an unacknowledged SYN or FIN of ours is retransmitted until the
    /// retry budget is spent.
    pub fn on_tick(&mut self) -> (r: TickOutcome)
        requires
            old(self).wf(),
        ensures
            *final(self) == tick_spec(*old(self)).0,
            r.resend == tick_spec(*old(self)).1,
            r.done == tick_spec(*old(self)).2,
            final(self).wf(),
    {
        if self.state == State::TimeWait {
            if self.ticks >= TIME_WAIT_TICKS - 1 {
                return TickOutcome { resend: None, done: true };
            }
            self.ticks = self.ticks + 1;
            return TickOutcome { resend: None, done: false };
        }
        if self.send.una != self.send.nxt {
            if self.ticks >= MAX_RETRANSMITS {
                return TickOutcome { resend: None, done: true };
            }
            let seg = if self.state == State::SynRcvd {
                OutSegment {
                    seq: self.send.una,
                    ackn: self.recv.nxt,
                    syn: true,
                    ack: true,
                    fin: false,
                    rst: false,
                    wnd: self.send.wnd,
                }
            } else {
                OutSegment {
                    seq: self.send.una,
                    ackn: self.recv.nxt,
                    syn: false,
                    ack: true,
                    fin: true,
                    rst: false,
                    wnd: self.send.wnd,
                }
            };
            self.ticks = self.ticks + 1;
            return TickOutcome { resend: Some(seg), done: false };
        }
        TickOutcome { resend: None, done: false }
    }
}

/// Law: processing a retransmitted, already-delivered segment never moves
/// the connection backwards. `send.una` stays within `[una, nxt]` for every
/// segment whatsoever, and a segment whose occupied sequence numbers all
/// lie before `recv.nxt` leaves `recv.nxt` untouched.
pub proof fn lemma_retransmit_no_regress(c: Connection, t: TcpFields, data_len: nat)
    requires
        1 <= seg_len(t, data_len),
        seg_len(t, data_len) <= seq_sub(c.recv.nxt, t.seq),
    ensures
        step(c, t, data_len).0.recv.nxt == c.recv.nxt,
        seq_sub(step(c, t, data_len).0.send.una, c.send.una) <= seq_sub(c.send.nxt, c.send.una),
{
    assert(t.seq != c.recv.nxt);
}

} // verus!

