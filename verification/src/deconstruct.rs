//! Reading received ICMP messages: echo replies, time-exceeded and destination-unreachable
//! messages with the headers of the probe they quote, and RFC 4884 MPLS extensions.
use vstd::prelude::*;

use crate::construct::{ICMP_HEADER, IP4_HEADER, IP6_HEADER, UDP_HEADER};
use crate::ipaddr::{IpAddr, Ipv4Addr, Ipv6Addr};
use crate::mpls::MplsLabel;
use crate::probe_table::{find_from, Probe, ProbeTable, SockAddr};
use crate::request::Protocol;
use crate::response::ProbeResult;

verus! {

broadcast use vstd::seq_lib::group_seq_properties;

/// Most MPLS labels decoded from one message.
pub const MAX_MPLS_LABELS: usize = 8;
/// The minimum size of the quoted original datagram before an RFC 4884 extension.
pub const ICMP_ORIGINAL_DATAGRAM_MIN_SIZE: usize = 128;
/// ICMP extension header and object header sizes.
pub const ICMP_EXT_HEADER: usize = 4;
pub const ICMP_EXT_OBJECT: usize = 4;
/// Bytes of a TCP or SCTP header that are looked at.
pub const STREAM_HEADER: usize = 8;
pub const ICMP_EXT_MPLS_CLASSNUM: u8 = 1;
pub const ICMP_EXT_MPLS_CTYPE: u8 = 1;
pub const ICMP_ECHOREPLY: u8 = 0;
pub const ICMP_DEST_UNREACH: u8 = 3;
pub const ICMP_TIME_EXCEEDED: u8 = 11;
pub const ICMP_PORT_UNREACH: u8 = 3;
pub const ICMP6_DEST_UNREACH: u8 = 1;
pub const ICMP6_TIME_EXCEEDED: u8 = 3;
pub const ICMP6_ECHOREPLY: u8 = 129;
pub const ICMP6_PORT_UNREACH: u8 = 4;
pub const IPPROTO_ICMP: u8 = 1;
pub const IPPROTO_TCP: u8 = 6;
pub const IPPROTO_UDP: u8 = 17;
pub const IPPROTO_ICMPV6: u8 = 58;
pub const IPPROTO_SCTP: u8 = 132;

/// The three ICMP messages acted on; everything else is dropped.
#[derive(Debug, Clone, Copy, PartialEq, Eq, Structural)]
pub enum IcmpKind {
    EchoReply,
    TimeExceeded,
    DestUnreach { code: u8 },
}

/// The headers of the original datagram quoted back inside a time-exceeded or destination
/// unreachable message.
#[derive(Debug, Clone, Copy, PartialEq, Eq, Structural)]
pub enum Inner {
    Icmp { id: u16, sequence: u16 },
    Udp { src: IpAddr, dst: IpAddr, src_port: u16, dst_port: u16, checksum: u16 },
    /// TCP or SCTP: the sequence number is the source port.
    Stream { src_port: u16 },
}

/// Everything matching needs out of a received ICMP message.
#[derive(Debug, Clone, PartialEq, Eq)]
pub struct Parsed {
    pub kind: IcmpKind,
    /// `(id, sequence)` of an echo reply; `None` for the quoting messages.
    pub echo: Option<(u16, u16)>,
    pub inner: Option<Inner>,
    pub mpls: Vec<MplsLabel>,
}

/// `Parsed` with its labels as a sequence.
pub struct ParsedView {
    pub kind: IcmpKind,
    pub echo: Option<(u16, u16)>,
    pub inner: Option<Inner>,
    pub mpls: Seq<MplsLabel>,
}

impl View for Parsed {
    type V = ParsedView;

    open spec fn view(&self) -> ParsedView {
        ParsedView { kind: self.kind, echo: self.echo, inner: self.inner, mpls: self.mpls@ }
    }
}

/// The big-endian 16-bit value at `at`, if both bytes are there.
pub open spec fn be16_spec(b: Seq<u8>, at: int) -> Option<u16> {
    if 0 <= at && at + 2 <= b.len() {
        Some((b[at] * 256 + b[at + 1]) as u16)
    } else {
        None
    }
}

/// Network-order 16-bit read; `None` past the end, so no caller can index past it.
pub fn be16(b: &[u8], at: usize) -> (r: Option<u16>)
    ensures
        r == be16_spec(b@, at as int),
{
    if at < b.len() && b.len() - at >= 2 {
        Some(b[at] as u16 * 256 + b[at + 1] as u16)
    } else {
        None
    }
}

// ---------------------------------------------------------------------------------------------
// MPLS extensions
// ---------------------------------------------------------------------------------------------
/// The label of a four-byte label stack entry: 20-bit label, 3-bit traffic class, bottom of
/// stack bit, TTL.
pub open spec fn label_entry(b0: u8, b1: u8, b2: u8, b3: u8) -> MplsLabel {
    MplsLabel {
        label: (b0 * 4096 + b1 * 16 + b2 / 16) as u32,
        tc: ((b2 / 2) % 8) as u8,
        bottom_of_stack: b2 % 2 != 0,
        ttl: b3,
    }
}

/// The label stack entries of an MPLS object's payload, at most `MAX_MPLS_LABELS`; a partial
/// trailing entry is ignored.
pub open spec fn label_entries(s: Seq<u8>) -> Seq<MplsLabel> {
    let n: int = if s.len() / 4 < MAX_MPLS_LABELS {
        (s.len() / 4) as int
    } else {
        MAX_MPLS_LABELS as int
    };
    Seq::new(n as nat, |i: int| label_entry(s[4 * i], s[4 * i + 1], s[4 * i + 2], s[4 * i + 3]))
}

/// Walking the extension objects from `pos`: the labels of the first MPLS object; none when a
/// length is bad or no MPLS object comes.
pub open spec fn mpls_walk(b: Seq<u8>, pos: int) -> Seq<MplsLabel>
    decreases b.len() - pos,
{
    if pos < 0 || b.len() - pos < ICMP_EXT_OBJECT {
        seq![]
    } else {
        let len = b[pos] * 256 + b[pos + 1];
        if len > b.len() - pos || len < ICMP_EXT_OBJECT {
            seq![]
        } else if b[pos + 2] == ICMP_EXT_MPLS_CLASSNUM && b[pos + 3] == ICMP_EXT_MPLS_CTYPE {
            label_entries(b.subrange(pos + ICMP_EXT_OBJECT, pos + len))
        } else {
            mpls_walk(b, pos + len)
        }
    }
}

/// The MPLS labels of an ICMP message (`msg` starts at the ICMP header): the RFC 4884
/// extension follows the 128-byte original-datagram area and must be version 2.
pub open spec fn decode_mpls_spec(msg: Seq<u8>) -> Seq<MplsLabel> {
    let ext_at = ICMP_HEADER + ICMP_ORIGINAL_DATAGRAM_MIN_SIZE;
    if msg.len() < ext_at + ICMP_EXT_HEADER || msg[ext_at as int] / 16 != 2 {
        seq![]
    } else {
        mpls_walk(msg, ext_at + ICMP_EXT_HEADER)
    }
}

fn label_entries_exec(b: &[u8], from: usize, to: usize) -> (v: Vec<MplsLabel>)
    requires
        from <= to <= b.len(),
    ensures
        v@ == label_entries(b@.subrange(from as int, to as int)),
{
    let ghost s = b@.subrange(from as int, to as int);
    let mut v: Vec<MplsLabel> = Vec::new();
    let mut at: usize = from;
    while to - at >= 4 && v.len() < MAX_MPLS_LABELS
        invariant
            from <= at <= to <= b.len(),
            s == b@.subrange(from as int, to as int),
            at - from == 4 * v.len(),
            v.len() <= MAX_MPLS_LABELS,
            forall|i: int| 0 <= i < v.len() ==> #[trigger] v@[i] == label_entry(s[4 * i], s[4 * i + 1], s[4 * i + 2], s[4 * i + 3]),
        decreases to - at,
    {
        let b0 = b[at];
        let b1 = b[at + 1];
        let b2 = b[at + 2];
        let b3 = b[at + 3];
        let l = MplsLabel {
            label: b0 as u32 * 4096 + b1 as u32 * 16 + b2 as u32 / 16,
            tc: (b2 / 2) % 8,
            bottom_of_stack: b2 % 2 != 0,
            ttl: b3,
        };
        proof {
            let k = v.len() as int;
            assert(s[4 * k] == b0 && s[4 * k + 1] == b1 && s[4 * k + 2] == b2 && s[4 * k + 3] == b3);
        }
        v.push(l);
        at += 4;
    }
    assert(v@ =~= label_entries(s));
    v
}

/// The MPLS labels of an ICMP message (see `decode_mpls_spec`).
pub fn decode_mpls(msg: &[u8]) -> (v: Vec<MplsLabel>)
    ensures
        v@ == decode_mpls_spec(msg@),
{
    let ext_at = ICMP_HEADER + ICMP_ORIGINAL_DATAGRAM_MIN_SIZE;
    if msg.len() < ext_at + ICMP_EXT_HEADER || msg[ext_at] / 16 != 2 {
        return Vec::new();
    }
    let mut pos = ext_at + ICMP_EXT_HEADER;
    while msg.len() - pos >= ICMP_EXT_OBJECT
        invariant
            ext_at + ICMP_EXT_HEADER <= pos <= msg.len(),
            decode_mpls_spec(msg@) == mpls_walk(msg@, pos as int),
        decreases msg.len() - pos,
    {
        let len = msg[pos] as usize * 256 + msg[pos + 1] as usize;
        if len > msg.len() - pos || len < ICMP_EXT_OBJECT {
            return Vec::new();
        }
        if msg[pos + 2] == ICMP_EXT_MPLS_CLASSNUM && msg[pos + 3] == ICMP_EXT_MPLS_CTYPE {
            return label_entries_exec(msg, pos + ICMP_EXT_OBJECT, pos + len);
        }
        pos = pos + len;
    }
    Vec::new()
}


// ---------------------------------------------------------------------------------------------
// Headers
// ---------------------------------------------------------------------------------------------
/// The length of an IPv4 header from its IHL field; `None` when the buffer is shorter than a
/// minimal header, the version is not 4, IHL is below 5, or the header runs past the end.
pub open spec fn ip4_header_len_spec(ip: Seq<u8>) -> Option<int> {
    if ip.len() < IP4_HEADER || ip[0] / 16 != 4 {
        None
    } else {
        let len = (ip[0] % 16) * 4;
        if len < IP4_HEADER || len > ip.len() {
            None
        } else {
            Some(len as int)
        }
    }
}

pub fn ip4_header_len(ip: &[u8]) -> (r: Option<usize>)
    ensures
        r matches Some(n) ==> ip4_header_len_spec(ip@) == Some(n as int),
        r is None ==> ip4_header_len_spec(ip@) is None,
{
    if ip.len() < IP4_HEADER || ip[0] / 16 != 4 {
        return None;
    }
    let len = (ip[0] % 16) as usize * 4;
    if len < IP4_HEADER || len > ip.len() {
        return None;
    }
    Some(len)
}

/// The big-endian 16-bit value at `at`, for a position known to be in range.
pub open spec fn word_at(b: Seq<u8>, at: int) -> u16 {
    (b[at] * 256 + b[at + 1]) as u16
}

/// The quoted transport header `t` of protocol `proto`, sent from `src` to `dst`.
pub open spec fn inner_transport_spec(proto: u8, src: IpAddr, dst: IpAddr, t: Seq<u8>) -> Option<Inner> {
    if (proto == IPPROTO_ICMP || proto == IPPROTO_ICMPV6) && t.len() >= ICMP_HEADER {
        Some(Inner::Icmp { id: word_at(t, 4), sequence: word_at(t, 6) })
    } else if proto == IPPROTO_UDP && t.len() >= UDP_HEADER {
        Some(
            Inner::Udp {
                src,
                dst,
                src_port: word_at(t, 0),
                dst_port: word_at(t, 2),
                checksum: word_at(t, 6),
            },
        )
    } else if (proto == IPPROTO_TCP || proto == IPPROTO_SCTP) && t.len() >= STREAM_HEADER {
        Some(Inner::Stream { src_port: word_at(t, 0) })
    } else {
        None
    }
}

/// The protocol dispatch shared by IPv4 and IPv6; `t` starts at the transport header.
fn inner_transport(proto: u8, src: IpAddr, dst: IpAddr, t: &[u8]) -> (r: Option<Inner>)
    ensures
        r == inner_transport_spec(proto, src, dst, t@),
{
    if (proto == IPPROTO_ICMP || proto == IPPROTO_ICMPV6) && t.len() >= ICMP_HEADER {
        match (be16(t, 4), be16(t, 6)) {
            (Some(id), Some(sequence)) => Some(Inner::Icmp { id, sequence }),
            _ => None,
        }
    } else if proto == IPPROTO_UDP && t.len() >= UDP_HEADER {
        match (be16(t, 0), be16(t, 2), be16(t, 6)) {
            (Some(src_port), Some(dst_port), Some(checksum)) => Some(
                Inner::Udp { src, dst, src_port, dst_port, checksum },
            ),
            _ => None,
        }
    } else if (proto == IPPROTO_TCP || proto == IPPROTO_SCTP) && t.len() >= STREAM_HEADER {
        match be16(t, 0) {
            Some(src_port) => Some(Inner::Stream { src_port }),
            None => None,
        }
    } else {
        None
    }
}

/// The IPv6 address whose sixteen bytes start at `at`.
pub open spec fn v6_at(b: Seq<u8>, at: int) -> Ipv6Addr {
    Ipv6Addr {
        s0: word_at(b, at),
        s1: word_at(b, at + 2),
        s2: word_at(b, at + 4),
        s3: word_at(b, at + 6),
        s4: word_at(b, at + 8),
        s5: word_at(b, at + 10),
        s6: word_at(b, at + 12),
        s7: word_at(b, at + 14),
    }
}

/// The original datagram quoted after an ICMP header: an IPv4 header (options skipped), then
/// the transport header.
pub open spec fn inner4_spec(ip: Seq<u8>) -> Option<Inner> {
    match ip4_header_len_spec(ip) {
        None => None,
        Some(hl) => if ip.len() < hl + ICMP_HEADER {
            None
        } else {
            inner_transport_spec(
                ip[9],
                IpAddr::V4(Ipv4Addr { a: ip[12], b: ip[13], c: ip[14], d: ip[15] }),
                IpAddr::V4(Ipv4Addr { a: ip[16], b: ip[17], c: ip[18], d: ip[19] }),
                ip.skip(hl),
            )
        },
    }
}

/// The original datagram quoted after an ICMPv6 header: a fixed IPv6 header, then the
/// transport header.
pub open spec fn inner6_spec(ip: Seq<u8>) -> Option<Inner> {
    if ip.len() < IP6_HEADER + ICMP_HEADER {
        None
    } else {
        inner_transport_spec(ip[6], IpAddr::V6(v6_at(ip, 8)), IpAddr::V6(v6_at(ip, 24)), ip.skip(IP6_HEADER as int))
    }
}

fn inner4(ip: &[u8]) -> (r: Option<Inner>)
    ensures
        r == inner4_spec(ip@),
{
    let header_len = match ip4_header_len(ip) {
        Some(n) => n,
        None => return None,
    };
    if ip.len() < header_len + ICMP_HEADER {
        return None;
    }
    let src = IpAddr::V4(Ipv4Addr { a: ip[12], b: ip[13], c: ip[14], d: ip[15] });
    let dst = IpAddr::V4(Ipv4Addr { a: ip[16], b: ip[17], c: ip[18], d: ip[19] });
    let t = &ip[header_len..ip.len()];
    assert(t@ =~= ip@.skip(header_len as int));
    inner_transport(ip[9], src, dst, t)
}

/// The IPv6 address whose sixteen bytes start at `at`.
fn v6_from(ip: &[u8], at: usize) -> (a: Ipv6Addr)
    requires
        at + 16 <= ip.len(),
    ensures
        a == v6_at(ip@, at as int),
{
    Ipv6Addr {
        s0: ip[at] as u16 * 256 + ip[at + 1] as u16,
        s1: ip[at + 2] as u16 * 256 + ip[at + 3] as u16,
        s2: ip[at + 4] as u16 * 256 + ip[at + 5] as u16,
        s3: ip[at + 6] as u16 * 256 + ip[at + 7] as u16,
        s4: ip[at + 8] as u16 * 256 + ip[at + 9] as u16,
        s5: ip[at + 10] as u16 * 256 + ip[at + 11] as u16,
        s6: ip[at + 12] as u16 * 256 + ip[at + 13] as u16,
        s7: ip[at + 14] as u16 * 256 + ip[at + 15] as u16,
    }
}

fn inner6(ip: &[u8]) -> (r: Option<Inner>)
    ensures
        r == inner6_spec(ip@),
{
    if ip.len() < IP6_HEADER + ICMP_HEADER {
        return None;
    }
    let src = v6_from(ip, 8);
    let dst = v6_from(ip, 24);
    let t = &ip[IP6_HEADER..ip.len()];
    assert(t@ =~= ip@.skip(IP6_HEADER as int));
    inner_transport(ip[6], IpAddr::V6(src), IpAddr::V6(dst), t)
}


// ---------------------------------------------------------------------------------------------
// Messages
// ---------------------------------------------------------------------------------------------
/// The quoted datagram of a message of IP version `version`.
pub open spec fn inner_of(version: u8, body: Seq<u8>) -> Option<Inner> {
    if version == 6 {
        inner6_spec(body)
    } else {
        inner4_spec(body)
    }
}

/// An ICMP (version 4) or ICMPv6 (version 6) message `m`, starting at its header: echo replies,
/// time-exceeded and destination-unreachable messages; `None` for anything else.
pub open spec fn parse_message_spec(m: Seq<u8>, version: u8) -> Option<ParsedView> {
    if m.len() < ICMP_HEADER {
        None
    } else {
        let echo_t = if version == 6 {
            ICMP6_ECHOREPLY
        } else {
            ICMP_ECHOREPLY
        };
        let exceeded_t = if version == 6 {
            ICMP6_TIME_EXCEEDED
        } else {
            ICMP_TIME_EXCEEDED
        };
        let unreach_t = if version == 6 {
            ICMP6_DEST_UNREACH
        } else {
            ICMP_DEST_UNREACH
        };
        let mpls = decode_mpls_spec(m);
        if m[0] == echo_t {
            Some(
                ParsedView {
                    kind: IcmpKind::EchoReply,
                    echo: Some((word_at(m, 4), word_at(m, 6))),
                    inner: None,
                    mpls,
                },
            )
        } else if m[0] == exceeded_t {
            Some(
                ParsedView {
                    kind: IcmpKind::TimeExceeded,
                    echo: None,
                    inner: inner_of(version, m.skip(8)),
                    mpls,
                },
            )
        } else if m[0] == unreach_t {
            Some(
                ParsedView {
                    kind: IcmpKind::DestUnreach { code: m[1] },
                    echo: None,
                    inner: inner_of(version, m.skip(8)),
                    mpls,
                },
            )
        } else {
            None
        }
    }
}

/// The bytes of `b` from `at` on.
fn tail_from(b: &[u8], at: usize) -> (r: &[u8])
    requires
        at <= b.len(),
    ensures
        r@ == b@.skip(at as int),
{
    let r = &b[at..b.len()];
    assert(r@ =~= b@.skip(at as int));
    r
}

/// Reads an ICMP or ICMPv6 message (see `parse_message_spec`).
fn parse_icmp(m: &[u8], version: u8) -> (r: Option<Parsed>)
    ensures
        r matches Some(p) ==> parse_message_spec(m@, version) == Some(p@),
        r is None ==> parse_message_spec(m@, version) is None,
{
    if m.len() < ICMP_HEADER {
        return None;
    }
    let echo_t = if version == 6 {
        ICMP6_ECHOREPLY
    } else {
        ICMP_ECHOREPLY
    };
    let exceeded_t = if version == 6 {
        ICMP6_TIME_EXCEEDED
    } else {
        ICMP_TIME_EXCEEDED
    };
    let unreach_t = if version == 6 {
        ICMP6_DEST_UNREACH
    } else {
        ICMP_DEST_UNREACH
    };
    let mpls = decode_mpls(m);
    let body = &m[ICMP_HEADER..m.len()];
    assert(body@ =~= m@.skip(8));
    if m[0] == echo_t {
        let id = match be16(m, 4) {
            Some(v) => v,
            None => return None,
        };
        let sequence = match be16(m, 6) {
            Some(v) => v,
            None => return None,
        };
        return Some(Parsed { kind: IcmpKind::EchoReply, echo: Some((id, sequence)), inner: None, mpls });
    }
    let kind = if m[0] == exceeded_t {
        IcmpKind::TimeExceeded
    } else if m[0] == unreach_t {
        IcmpKind::DestUnreach { code: m[1] }
    } else {
        return None;
    };
    let inner = if version == 6 {
        inner6(body)
    } else {
        inner4(body)
    };
    Some(Parsed { kind, echo: None, inner, mpls })
}

/// What is read from an IPv4 packet: with its IP header when it came over a raw socket
/// (which must then carry ICMP), the bare ICMP message otherwise.
pub open spec fn parse_message4_spec(packet: Seq<u8>, has_ip_header: bool) -> Option<ParsedView> {
    if has_ip_header {
        match ip4_header_len_spec(packet) {
            None => None,
            Some(hl) => if packet.len() < hl + ICMP_HEADER || packet[9] != IPPROTO_ICMP {
                None
            } else {
                parse_message_spec(packet.skip(hl), 4)
            },
        }
    } else {
        parse_message_spec(packet, 4)
    }
}

/// Reads a received IPv4 packet (see `parse_message4_spec`).
pub fn parse_icmp4(packet: &[u8], has_ip_header: bool) -> (r: Option<Parsed>)
    ensures
        r matches Some(p) ==> parse_message4_spec(packet@, has_ip_header) == Some(p@),
        r is None ==> parse_message4_spec(packet@, has_ip_header) is None,
{
    if has_ip_header {
        let header_len = match ip4_header_len(packet) {
            Some(n) => n,
            None => return None,
        };
        if packet.len() < header_len + ICMP_HEADER || packet[9] != IPPROTO_ICMP {
            return None;
        }
        parse_icmp(tail_from(packet, header_len), 4)
    } else {
        parse_icmp(packet, 4)
    }
}

/// Reads a received ICMPv6 message: the socket hands it over without an IPv6 header.
pub fn parse_icmp6(packet: &[u8]) -> (r: Option<Parsed>)
    ensures
        r matches Some(p) ==> parse_message_spec(packet@, 6) == Some(p@),
        r is None ==> parse_message_spec(packet@, 6) is None,
{
    parse_icmp(packet, 6)
}

/// The port-unreachable code of destination-unreachable messages of IP version `version`.
pub fn port_unreach_code(version: u8) -> (r: u8)
    ensures
        r == if version == 6 {
            ICMP6_PORT_UNREACH
        } else {
            ICMP_PORT_UNREACH
        },
{
    if version == 6 {
        ICMP6_PORT_UNREACH
    } else {
        ICMP_PORT_UNREACH
    }
}


// ---------------------------------------------------------------------------------------------
// Matching replies to probes
// ---------------------------------------------------------------------------------------------
/// The first of the destination port, the source port and the checksum field that is the
/// sequence number of an outstanding probe, and that probe.
pub open spec fn udp_candidate(ps: Seq<Probe>, src_port: u16, dst_port: u16, checksum: u16) -> Option<usize> {
    match find_from(ps, dst_port, 0) {
        Some(i) => Some(i),
        None => match find_from(ps, src_port, 0) {
            Some(i) => Some(i),
            None => find_from(ps, checksum, 0),
        },
    }
}

/// The probe a quoted UDP header answers: the first candidate (see `udp_candidate`) must be a
/// UDP probe with these ports and, when the quoted IP header is there, these addresses; no
/// other candidate is tried.
pub open spec fn match_udp_spec(
    ps: Seq<Probe>,
    src_port: u16,
    dst_port: u16,
    checksum: u16,
    addrs: Option<(IpAddr, IpAddr)>,
) -> Option<usize> {
    match udp_candidate(ps, src_port, dst_port, checksum) {
        None => None,
        Some(i) => {
            let p = ps[i as int];
            if !(p.protocol is Udp) || dst_port != p.remote.port || src_port != p.local.port {
                None
            } else {
                match addrs {
                    Some((src, dst)) => if dst != p.remote.ip || src != p.local.ip {
                        None
                    } else {
                        Some(i)
                    },
                    None => Some(i),
                }
            }
        },
    }
}

/// The probe a quoted UDP header answers (see `match_udp_spec`).
pub fn match_udp(
    table: &ProbeTable,
    src_port: u16,
    dst_port: u16,
    checksum: u16,
    addrs: Option<(IpAddr, IpAddr)>,
) -> (r: Option<usize>)
    ensures
        r == match_udp_spec(table.probes@, src_port, dst_port, checksum, addrs),
        r matches Some(i) ==> i < table.probes@.len(),
{
    let idx = match table.find_by_sequence(dst_port) {
        Some(i) => i,
        None => match table.find_by_sequence(src_port) {
            Some(i) => i,
            None => match table.find_by_sequence(checksum) {
                Some(i) => i,
                None => return None,
            },
        },
    };
    let p = &table.probes[idx];
    let is_udp = match p.protocol {
        Protocol::Udp => true,
        _ => false,
    };
    if !is_udp || dst_port != p.remote.port || src_port != p.local.port {
        return None;
    }
    match addrs {
        Some((src, dst)) => if !dst.same(&p.remote.ip) || !src.same(&p.local.ip) {
            None
        } else {
            Some(idx)
        },
        None => Some(idx),
    }
}

/// The outcome a message reports: an echo reply or a port unreachable is `reply`, a time
/// exceeded is `ttl-expired`, any other destination unreachable is `no-route-host`.
pub open spec fn outcome_of(kind: IcmpKind, version: u8) -> ProbeResult {
    match kind {
        IcmpKind::EchoReply => ProbeResult::Reply,
        IcmpKind::TimeExceeded => ProbeResult::TtlExpired,
        IcmpKind::DestUnreach { code } => if code == (if version == 6 {
            ICMP6_PORT_UNREACH
        } else {
            ICMP_PORT_UNREACH
        }) {
            ProbeResult::Reply
        } else {
            ProbeResult::NoRouteHost
        },
    }
}

/// The probe a parsed message answers, and the outcome. An echo reply, or a quoted echo
/// request, must carry our identifier `echo_id`; a quoted TCP or SCTP header names the probe
/// by its source port.
pub open spec fn match_reply_spec(ps: Seq<Probe>, parsed: ParsedView, version: u8, echo_id: u16) -> Option<(usize, ProbeResult)> {
    let result = outcome_of(parsed.kind, version);
    let idx = match parsed.echo {
        Some((id, sequence)) => if id != echo_id {
            None
        } else {
            find_from(ps, sequence, 0)
        },
        None => match parsed.inner {
            None => None,
            Some(Inner::Icmp { id, sequence }) => if id != echo_id {
                None
            } else {
                find_from(ps, sequence, 0)
            },
            Some(Inner::Udp { src, dst, src_port, dst_port, checksum }) => match_udp_spec(
                ps,
                src_port,
                dst_port,
                checksum,
                Some((src, dst)),
            ),
            Some(Inner::Stream { src_port }) => find_from(ps, src_port, 0),
        },
    };
    match idx {
        Some(i) => Some((i, result)),
        None => None,
    }
}

/// The probe a parsed message answers, and the outcome (see `match_reply_spec`).
pub fn match_reply(table: &ProbeTable, parsed: &Parsed, version: u8, echo_id: u16) -> (r: Option<(usize, ProbeResult)>)
    ensures
        r == match_reply_spec(table.probes@, parsed@, version, echo_id),
        r matches Some((i, _)) ==> i < table.probes@.len(),
{
    let result = match parsed.kind {
        IcmpKind::EchoReply => ProbeResult::Reply,
        IcmpKind::TimeExceeded => ProbeResult::TtlExpired,
        IcmpKind::DestUnreach { code } => if code == port_unreach_code(version) {
            ProbeResult::Reply
        } else {
            ProbeResult::NoRouteHost
        },
    };
    let idx = match parsed.echo {
        Some((id, sequence)) => if id != echo_id {
            None
        } else {
            table.find_by_sequence(sequence)
        },
        None => match parsed.inner {
            None => None,
            Some(Inner::Icmp { id, sequence }) => if id != echo_id {
                None
            } else {
                table.find_by_sequence(sequence)
            },
            Some(Inner::Udp { src, dst, src_port, dst_port, checksum }) => match_udp(
                table,
                src_port,
                dst_port,
                checksum,
                Some((src, dst)),
            ),
            Some(Inner::Stream { src_port }) => table.find_by_sequence(src_port),
        },
    };
    match idx {
        Some(i) => Some((i, result)),
        None => None,
    }
}


// ---------------------------------------------------------------------------------------------
// Errors queued on unprivileged datagram sockets
// ---------------------------------------------------------------------------------------------
/// What a socket's error queue reported about one of our datagrams.
#[derive(Debug, Clone, Copy, PartialEq, Eq, Structural)]
pub enum QueuedError {
    /// A time exceeded for our datagram.
    TimeExceeded,
    /// Port unreachable: the datagram reached its destination.
    Refused,
    /// Any other destination unreachable, with its code.
    Unreachable { code: u8 },
}

/// The ICMP message a queued error stands for, so that the matcher can take it as if it had
/// been received: a refusal is a port unreachable of the datagram's IP version.
pub open spec fn queued_kind_spec(kind: QueuedError, version: u8) -> IcmpKind {
    match kind {
        QueuedError::TimeExceeded => IcmpKind::TimeExceeded,
        QueuedError::Refused => IcmpKind::DestUnreach {
            code: if version == 6 {
                ICMP6_PORT_UNREACH
            } else {
                ICMP_PORT_UNREACH
            },
        },
        QueuedError::Unreachable { code } => IcmpKind::DestUnreach { code },
    }
}

pub fn queued_icmp_kind(kind: QueuedError, version: u8) -> (r: IcmpKind)
    ensures
        r == queued_kind_spec(kind, version),
{
    match kind {
        QueuedError::TimeExceeded => IcmpKind::TimeExceeded,
        QueuedError::Refused => IcmpKind::DestUnreach { code: port_unreach_code(version) },
        QueuedError::Unreachable { code } => IcmpKind::DestUnreach { code },
    }
}

/// The outcome of a matched message depends only on its kind and IP version: an echo reply is a
/// reply, a time-exceeded message a TTL expiry, and a destination-unreachable message a reply
/// exactly when its code is port unreachable of that version (3 for IPv4, 4 for IPv6), the
/// destination having answered, and otherwise no route to the host.
pub proof fn lemma_match_outcome(ps: Seq<Probe>, parsed: ParsedView, version: u8, echo_id: u16)
    ensures
        match_reply_spec(ps, parsed, version, echo_id) matches Some((_, r)) ==> match parsed.kind {
            IcmpKind::EchoReply => r == ProbeResult::Reply,
            IcmpKind::TimeExceeded => r == ProbeResult::TtlExpired,
            IcmpKind::DestUnreach { code } => {
                &&& version == 6 ==> (r == ProbeResult::Reply <==> code == 4)
                &&& version != 6 ==> (r == ProbeResult::Reply <==> code == 3)
                &&& (r == ProbeResult::Reply || r == ProbeResult::NoRouteHost)
            },
        },
{
}

/// An ICMPv6 time-exceeded (type 3) or destination-unreachable (type 1) message quoting an IPv6
/// header whose next header is UDP (17) names the quoted datagram's source by the sixteen bytes
/// at offset 8 of the quoted header, its destination by the sixteen at offset 24, and its ports
/// by the first four bytes after the header.
pub proof fn lemma_v6_error_quotes_udp_addresses(m: Seq<u8>)
    requires
        m.len() >= 8 + 40 + 8,
        m[0] == 3 || m[0] == 1,
        m[14] == 17,
    ensures
        parse_message_spec(m, 6) matches Some(p) && p.inner matches Some(
            Inner::Udp { src: IpAddr::V6(a), dst: IpAddr::V6(b), src_port, dst_port, .. },
        ) && (forall|i: int| 0 <= i < 8 ==> #[trigger] a.segs()[i] == m[16 + 2 * i] * 256 + m[17 + 2 * i])
            && (forall|i: int| 0 <= i < 8 ==> #[trigger] b.segs()[i] == m[32 + 2 * i] * 256 + m[33 + 2 * i])
            && src_port == m[48] * 256 + m[49] && dst_port == m[50] * 256 + m[51],
{
    let ip = m.skip(8);
    assert(ip[6] == 17);
    let t = ip.skip(IP6_HEADER as int);
    assert(t.len() >= UDP_HEADER);
    let a = v6_at(ip, 8);
    let b = v6_at(ip, 24);
    assert forall|k: int| 0 <= k < 48 implies #[trigger] ip[k] == m[8 + k] by {}
    assert forall|i: int| 0 <= i < 8 implies #[trigger] a.segs()[i] == m[16 + 2 * i] * 256 + m[17 + 2 * i] by {
        assert(ip[8 + 2 * i] == m[16 + 2 * i]);
        assert(ip[9 + 2 * i] == m[17 + 2 * i]);
        assert(m[16 + 2 * i] * 256 + m[17 + 2 * i] < 0x10000);
    }
    assert forall|i: int| 0 <= i < 8 implies #[trigger] b.segs()[i] == m[32 + 2 * i] * 256 + m[33 + 2 * i] by {
        assert(ip[24 + 2 * i] == m[32 + 2 * i]);
        assert(ip[25 + 2 * i] == m[33 + 2 * i]);
        assert(m[32 + 2 * i] * 256 + m[33 + 2 * i] < 0x10000);
    }
    assert(t[0] == m[48] && t[1] == m[49] && t[2] == m[50] && t[3] == m[51]);
    assert(m[48] * 256 + m[49] < 0x10000);
    assert(m[50] * 256 + m[51] < 0x10000);
}

/// What `find_from` finds carries the sequence number looked for.
proof fn lemma_found_sequence(ps: Seq<Probe>, sq: u16, at: int)
    requires
        0 <= at,
        ps.len() <= usize::MAX,
    ensures
        find_from(ps, sq, at) matches Some(i) ==> at <= i < ps.len() && ps[i as int].sequence == sq,
    decreases ps.len() - at,
{
    if at < ps.len() && ps[at].sequence != sq {
        lemma_found_sequence(ps, sq, at + 1);
    }
}

/// Probe `i` of `ps`.
pub open spec fn probe_at(ps: Seq<Probe>, i: usize) -> Probe {
    ps[i as int]
}

/// A matched message names the probe it answers: an echo reply, or a quoted echo request,
/// carries our identifier and the probe's sequence number; a quoted UDP header carries the
/// probe's ports and, inside its quoted IP header, the probe's addresses, with the sequence
/// number in one of the ports or the checksum field; a quoted TCP or SCTP header carries the
/// sequence number as its source port.
pub proof fn lemma_match_names_the_probe(ps: Seq<Probe>, parsed: ParsedView, version: u8, echo_id: u16)
    requires
        ps.len() <= usize::MAX,
    ensures
        match_reply_spec(ps, parsed, version, echo_id) matches Some((i, _)) ==> {
            &&& i < ps.len()
            &&& (parsed.echo matches Some((id, sq)) ==> id == echo_id && probe_at(ps, i).sequence == sq)
            &&& (parsed.echo is None ==> match parsed.inner {
                Some(Inner::Icmp { id, sequence }) => id == echo_id && probe_at(ps, i).sequence == sequence,
                Some(Inner::Udp { src, dst, src_port, dst_port, checksum }) => {
                    &&& probe_at(ps, i).protocol is Udp
                    &&& probe_at(ps, i).local == SockAddr { ip: src, port: src_port }
                    &&& probe_at(ps, i).remote == SockAddr { ip: dst, port: dst_port }
                    &&& (probe_at(ps, i).sequence == dst_port || probe_at(ps, i).sequence == src_port
                        || probe_at(ps, i).sequence == checksum)
                },
                Some(Inner::Stream { src_port }) => probe_at(ps, i).sequence == src_port,
                None => false,
            })
        },
{
    match parsed.echo {
        Some((id, sq)) => lemma_found_sequence(ps, sq, 0),
        None => match parsed.inner {
            Some(Inner::Icmp { id, sequence }) => lemma_found_sequence(ps, sequence, 0),
            Some(Inner::Udp { src, dst, src_port, dst_port, checksum }) => {
                lemma_found_sequence(ps, dst_port, 0);
                lemma_found_sequence(ps, src_port, 0);
                lemma_found_sequence(ps, checksum, 0);
            },
            Some(Inner::Stream { src_port }) => lemma_found_sequence(ps, src_port, 0),
            None => {},
        },
    }
}

} // verus!
