//! The frame-processing pipeline: decode one raw frame, demultiplex it onto
//! the table, step the owning connection, and encode the reply.
use vstd::prelude::*;
use crate::codec::{Ipv4Fields, encode_segment, ipv4_parse, parse_ipv4, parse_tcp, segment_bytes,
    tcp_parse};
use crate::table::{ConnectionTable, FlowKey, table_step};
use crate::tcp::{Connection, OutSegment, TcpFields};

verus! {

/// IPv4 protocol number of TCP.
pub const TCP_PROTOCOL: u8 = 6;

/// Hop limit on every frame this side sends.
pub const SEND_TTL: u8 = 64;

/// The key of the flow a segment belongs to, in the direction it was
/// received: the peer's endpoint first, ours second.
pub open spec fn key_for(ip: Ipv4Fields, t: TcpFields) -> FlowKey {
    FlowKey { src_addr: ip.src, src_port: t.src_port, dst_addr: ip.dst, dst_port: t.dst_port }
}

/// The bytes of a reply on a flow: it travels from our endpoint back to the
/// peer's.
pub open spec fn reply_bytes(key: FlowKey, seg: OutSegment) -> Seq<u8> {
    segment_bytes(
        key.dst_addr,
        key.src_addr,
        key.dst_port,
        key.src_port,
        seg.seq,
        seg.ackn,
        seg.syn,
        seg.ack,
        seg.fin,
        seg.rst,
        seg.wnd,
        SEND_TTL,
    )
}

/// Encode one reply segment for its flow.
pub fn encode_reply(key: &FlowKey, seg: &OutSegment) -> (r: Vec<u8>)
    ensures
        r@ == reply_bytes(*key, *seg),
{
    encode_segment(
        key.dst_addr,
        key.src_addr,
        key.dst_port,
        key.src_port,
        seg.seq,
        seg.ackn,
        seg.syn,
        seg.ack,
        seg.fin,
        seg.rst,
        seg.wnd,
        SEND_TTL,
    )
}

/// What one raw frame does to the table, and the reply it provokes: a frame
/// that is not sound IPv4, does not carry TCP, or is too short for its
/// headers is dropped; otherwise its segment steps the table.
pub open spec fn frame_step(m: Map<FlowKey, Connection>, b: Seq<u8>) -> (Map<FlowKey, Connection>, Option<
    (FlowKey, OutSegment),
>) {
    match ipv4_parse(b) {
        None => (m, None),
        Some(ip) => {
            if ip.protocol != TCP_PROTOCOL {
                (m, None)
            } else {
                match tcp_parse(b.subrange(ip.header_len as int, b.len() as int)) {
                    None => (m, None),
                    Some(t) => {
                        if ip.header_len + t.header_len <= b.len() {
                            let key = key_for(ip, t);
                            let s = table_step(
                                m,
                                key,
                                t,
                                (b.len() - ip.header_len - t.header_len) as nat,
                            );
                            (
                                s.0,
                                match s.1 {
                                    Some(seg) => Some((key, seg)),
                                    None => None,
                                },
                            )
                        } else {
                            (m, None)
                        }
                    },
                }
            }
        },
    }
}

/// Process one raw inbound frame against the table, as `frame_step` says,
/// and return the raw frame to send back, if any.
pub fn process_frame(table: &mut ConnectionTable, buf: &[u8]) -> (r: Option<Vec<u8>>)
    requires
        old(table).wf(),
        buf@.len() <= 0xFFFF,
    ensures
        final(table).wf(),
        final(table).view_map() == frame_step(old(table).view_map(), buf@).0,
        match frame_step(old(table).view_map(), buf@).1 {
            Some(p) => r matches Some(v) && v@ == reply_bytes(p.0, p.1),
            None => r is None,
        },
{
    let ip = match parse_ipv4(buf) {
        Some(f) => f,
        None => {
            return None;
        },
    };
    if ip.protocol != TCP_PROTOCOL {
        return None;
    }
    let rest = vstd::slice::slice_subrange(buf, ip.header_len, buf.len());
    let t = match parse_tcp(rest) {
        Some(t) => t,
        None => {
            return None;
        },
    };
    let key = FlowKey { src_addr: ip.src, src_port: t.src_port, dst_addr: ip.dst, dst_port: t.dst_port };
    let data_len = buf.len() - ip.header_len - t.header_len;
    let reply = table.handle_segment(key, &t, data_len);
    match reply {
        Some(seg) => Some(encode_reply(&key, &seg)),
        None => None,
    }
}

} // verus!
