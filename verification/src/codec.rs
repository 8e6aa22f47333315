//! The header-codec boundary: raw frames are decoded into plain header
//! fields, and reply segments are encoded back into raw frames, through the
//! etherparse crate. Nothing here is proved; every caller is verified
//! against the contracts below.
use vstd::prelude::*;
use crate::tcp::TcpFields;

verus! {

/// The fields of one IPv4 header that the demultiplexer reads.
#[derive(Clone, Copy, Debug)]
pub struct Ipv4Fields {
    /// source address, as one big-endian number
    pub src: u32,
    /// destination address, as one big-endian number
    pub dst: u32,
    /// protocol number of the payload
    pub protocol: u8,
    /// length in bytes of the header as it stood on the wire
    pub header_len: usize,
}

/// What etherparse's IPv4 header parser yields on the given bytes; a
/// function of the bytes alone.
pub uninterp spec fn ipv4_parse(b: Seq<u8>) -> Option<Ipv4Fields>;

/// What etherparse's TCP header parser yields on the given bytes; a
/// function of the bytes alone.
pub uninterp spec fn tcp_parse(b: Seq<u8>) -> Option<TcpFields>;

/// The raw IPv4 frame etherparse builds for one TCP segment without
/// payload, from the given addresses, ports, header fields and hop limit; a
/// function of these alone.
pub uninterp spec fn segment_bytes(
    src: u32,
    dst: u32,
    src_port: u16,
    dst_port: u16,
    seq: u32,
    ackn: u32,
    syn: bool,
    ack: bool,
    fin: bool,
    rst: bool,
    wnd: u16,
    ttl: u8,
) -> Seq<u8>;

/// Relies on etherparse::Ipv4HeaderSlice::from_slice: it accepts only a
/// well-formed IPv4 header whose declared length fits in the given bytes,
/// and keeps exactly the header, at least 20 bytes.
#[verifier::external_body]
pub(crate) fn parse_ipv4(b: &[u8]) -> (r: Option<Ipv4Fields>)
    ensures
        r == ipv4_parse(b@),
        r matches Some(f) ==> 20 <= f.header_len <= b@.len(),
{
    match etherparse::Ipv4HeaderSlice::from_slice(b) {
        Ok(h) => Some(Ipv4Fields {
            src: u32::from_be_bytes(h.source()),
            dst: u32::from_be_bytes(h.destination()),
            protocol: h.protocol().0,
            header_len: h.slice().len(),
        }),
        Err(_) => None,
    }
}

/// Relies on etherparse::TcpHeaderSlice::from_slice: it accepts only a TCP
/// header whose data offset is sound for the given bytes, and keeps exactly
/// the header, at least 20 bytes.
#[verifier::external_body]
pub(crate) fn parse_tcp(b: &[u8]) -> (r: Option<TcpFields>)
    ensures
        r == tcp_parse(b@),
        r matches Some(t) ==> 20 <= t.header_len <= b@.len(),
{
    match etherparse::TcpHeaderSlice::from_slice(b) {
        Ok(h) => Some(TcpFields {
            src_port: h.source_port(), dst_port: h.destination_port(),
            seq: h.sequence_number(), ackn: h.acknowledgment_number(),
            syn: h.syn(), ack: h.ack(), fin: h.fin(), rst: h.rst(),
            wnd: h.window_size(), header_len: h.slice().len(),
        }),
        Err(_) => None,
    }
}

/// Relies on etherparse::TcpHeader::new, Ipv4Header::new,
/// TcpHeader::calc_checksum_ipv4 and the write methods of both: together
/// they serialize one payload-free TCP/IPv4 frame with a computed checksum,
/// and the bytes depend on the arguments alone.
#[verifier::external_body]
pub(crate) fn encode_segment(
    src: u32,
    dst: u32,
    src_port: u16,
    dst_port: u16,
    seq: u32,
    ackn: u32,
    syn: bool,
    ack: bool,
    fin: bool,
    rst: bool,
    wnd: u16,
    ttl: u8,
) -> (r: Vec<u8>)
    ensures
        r@ == segment_bytes(src, dst, src_port, dst_port, seq, ackn, syn, ack, fin, rst, wnd, ttl),
{
    let mut tcp = etherparse::TcpHeader::new(src_port, dst_port, seq, wnd);
    tcp.acknowledgment_number = ackn;
    tcp.syn = syn; tcp.ack = ack; tcp.fin = fin; tcp.rst = rst;
    let ip = match etherparse::Ipv4Header::new(
        tcp.header_len_u16(), ttl, etherparse::IpNumber::TCP,
        src.to_be_bytes(), dst.to_be_bytes(),
    ) { Ok(h) => h, Err(_) => return Vec::new() };
    tcp.checksum = match tcp.calc_checksum_ipv4(&ip, &[]) { Ok(c) => c, Err(_) => return Vec::new() };
    let mut out: Vec<u8> = Vec::new();
    let _ = ip.write(&mut out);
    let _ = tcp.write(&mut out);
    out
}

} // verus!
