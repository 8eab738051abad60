//! Probe packet construction: the Internet checksum, probe sizes, ICMP echo requests and UDP
//! datagrams with their pseudo-header. The IPv4 header is never built (the kernel adds it),
//! only accounted for in the size.
use vstd::prelude::*;

use crate::cdecode::CProbeParams;
use crate::ipaddr::{IpAddr, Ipv4Addr, Ipv6Addr};
use crate::request::Protocol;

verus! {

broadcast use vstd::seq_lib::group_seq_properties;

pub const IP4_HEADER: usize = 20;
pub const IP6_HEADER: usize = 40;
pub const ICMP_HEADER: usize = 8;
pub const UDP_HEADER: usize = 8;
pub const ICMP_ECHO: u8 = 8;
pub const ICMP6_ECHO: u8 = 128;
pub const MIN_UNPRIVILEGED_PORT: u32 = 1024;
pub const UDP_PORT_RANGE: u32 = 65536;

// ---------------------------------------------------------------------------------------------
// The Internet checksum
// ---------------------------------------------------------------------------------------------
/// Weight of byte `i` in the 16-bit big-endian word sum: even bytes are high halves.
pub open spec fn byte_weight(i: int) -> int {
    if i % 2 == 0 {
        256
    } else {
        1
    }
}

/// The sum of the 16-bit big-endian words of `b`, an odd trailing byte in the high half.
pub open spec fn word_sum(b: Seq<u8>) -> int
    decreases b.len(),
{
    if b.len() == 0 {
        0
    } else {
        word_sum(b.drop_last()) + byte_weight(b.len() - 1) * b.last()
    }
}

/// End-around-carry folding to 16 bits.
pub open spec fn fold16(x: int) -> int
    decreases x,
{
    if x < 0x10000 {
        x
    } else {
        fold16(x / 0x10000 + x % 0x10000)
    }
}

/// The Internet checksum (RFC 1071): the one's complement of the folded word sum.
pub open spec fn checksum_spec(b: Seq<u8>) -> u16 {
    (0xffff - fold16(word_sum(b))) as u16
}

/// Most bytes a checksum is computed over: the 32-bit running sum cannot overflow.
pub const CHECKSUM_MAX_LEN: usize = 0x20000;

proof fn lemma_word_sum_bound(b: Seq<u8>)
    ensures
        0 <= word_sum(b) <= 65280 * ((b.len() + 1) / 2) + 255 * (b.len() / 2),
    decreases b.len(),
{
    if b.len() > 0 {
        lemma_word_sum_bound(b.drop_last());
    }
}

/// RFC 1071 checksum: 16-bit one's-complement sum, odd trailing byte in the high half.
pub fn checksum(bytes: &[u8]) -> (c: u16)
    requires
        bytes.len() <= CHECKSUM_MAX_LEN,
    ensures
        c == checksum_spec(bytes@),
{
    let mut sum: u32 = 0;
    let mut i: usize = 0;
    while i < bytes.len()
        invariant
            i <= bytes.len() <= CHECKSUM_MAX_LEN,
            sum == word_sum(bytes@.take(i as int)),
        decreases bytes.len() - i,
    {
        proof {
            lemma_word_sum_bound(bytes@.take(i + 1));
            assert(bytes@.take(i + 1).drop_last() =~= bytes@.take(i as int));
            assert(65280 * ((i + 2) / 2) + 255 * ((i + 1) / 2) <= 65535 * 65536) by (nonlinear_arith)
                requires
                    i + 1 <= 0x20000,
            ;
        }
        let b: u32 = bytes[i] as u32;
        if i % 2 == 0 {
            sum = sum + b * 256;
        } else {
            sum = sum + b;
        }
        i += 1;
    }
    assert(bytes@.take(i as int) =~= bytes@);
    let ghost total = sum as int;
    while sum >= 0x10000
        invariant
            fold16(sum as int) == fold16(total),
        decreases sum,
    {
        sum = sum / 0x10000 + sum % 0x10000;
    }
    0xffffu16 - (sum as u16)
}

// ---------------------------------------------------------------------------------------------
// Why a checksum balances a packet
// ---------------------------------------------------------------------------------------------
/// Folding keeps the value modulo 0xffff, stays within 16 bits, never grows, and is zero only
/// for zero.
proof fn lemma_fold16(x: int)
    requires
        x >= 0,
    ensures
        0 <= fold16(x) <= 0xffff,
        fold16(x) <= x,
        fold16(x) % 0xffff == x % 0xffff,
        x > 0 ==> fold16(x) > 0,
    decreases x,
{
    if x >= 0x10000 {
        let q = x / 0x10000;
        let r = x % 0x10000;
        let y = q + r;
        assert(x == q * 0x10000 + r);
        assert(y < x) by (nonlinear_arith)
            requires
                x == q * 0x10000 + r,
                y == q + r,
                q >= 1,
                0 <= r,
        ;
        assert(y % 0xffff == x % 0xffff) by (nonlinear_arith)
            requires
                x == q * 0x10000 + r,
                y == q + r,
                q >= 0,
                r >= 0,
        ;
        assert(y > 0);
        lemma_fold16(y);
    }
}

/// Changing one byte changes the word sum by that byte's weighted difference.
proof fn lemma_word_sum_update(b: Seq<u8>, k: int, v: u8)
    requires
        0 <= k < b.len(),
    ensures
        word_sum(b.update(k, v)) == word_sum(b) + byte_weight(k) * (v - b[k]),
    decreases b.len(),
{
    let u = b.update(k, v);
    let w = byte_weight(k);
    assert(w * v - w * b[k] == w * (v - b[k])) by (nonlinear_arith);
    if k == b.len() - 1 {
        assert(u.drop_last() =~= b.drop_last());
        assert(u.last() == v);
        assert(word_sum(u) == word_sum(b.drop_last()) + w * v);
    } else {
        lemma_word_sum_update(b.drop_last(), k, v);
        assert(u.drop_last() =~= b.drop_last().update(k, v));
        assert(u.last() == b.last());
        assert(b.drop_last()[k] == b[k]);
    }
}

/// Word sums add over a split at an even position.
proof fn lemma_word_sum_concat(a: Seq<u8>, b: Seq<u8>)
    requires
        a.len() % 2 == 0,
    ensures
        word_sum(a + b) == word_sum(a) + word_sum(b),
    decreases b.len(),
{
    if b.len() == 0 {
        assert(a + b =~= a);
    } else {
        lemma_word_sum_concat(a, b.drop_last());
        assert((a + b).drop_last() =~= a + b.drop_last());
        assert(byte_weight(a.len() + b.len() - 1) == byte_weight(b.len() - 1)) by {
            assert((a.len() + b.len() - 1) % 2 == (b.len() - 1) % 2) by (nonlinear_arith)
                requires
                    a.len() % 2 == 0,
                    b.len() >= 1,
            ;
        }
    }
}

/// A checksum written big-endian into a zeroed, word-aligned field balances the bytes: their
/// checksum becomes zero.
pub proof fn lemma_checksum_balances(b: Seq<u8>, at: int)
    requires
        0 <= at,
        at + 1 < b.len(),
        at % 2 == 0,
        b[at] == 0,
        b[at + 1] == 0,
    ensures
        checksum_spec(
            b.update(at, (checksum_spec(b) / 256) as u8).update(at + 1, (checksum_spec(b) % 256) as u8),
        ) == 0,
{
    let c = checksum_spec(b);
    let s = word_sum(b);
    lemma_word_sum_bound(b);
    lemma_fold16(s);
    let f = fold16(s);
    assert(c == 0xffff - f);
    let b1 = b.update(at, (c / 256) as u8);
    let b2 = b1.update(at + 1, (c % 256) as u8);
    lemma_word_sum_update(b, at, (c / 256) as u8);
    lemma_word_sum_update(b1, at + 1, (c % 256) as u8);
    assert((at + 1) % 2 == 1);
    assert(word_sum(b2) == s + 256 * (c / 256) + c % 256);
    assert(word_sum(b2) == s + c);
    let s2 = s + c;
    assert(s2 % 0xffff == 0) by (nonlinear_arith)
        requires
            s2 == s + 0xffff - f,
            f % 0xffff == s % 0xffff,
            s >= 0,
            0 <= f,
    ;
    assert(s2 > 0);
    lemma_fold16(s2);
    assert(fold16(s2) == 0xffff);
}


/// Appending the checksum of an even number of bytes, big-endian, balances them.
pub proof fn lemma_checksum_appended(b: Seq<u8>)
    requires
        b.len() % 2 == 0,
    ensures
        checksum_spec(b + be16_bytes(checksum_spec(b))) == 0,
{
    let zz: Seq<u8> = seq![0u8, 0u8];
    let z = b + zz;
    lemma_word_sum_concat(b, zz);
    let o: Seq<u8> = seq![0u8];
    assert(zz.drop_last() =~= o);
    assert(o.drop_last() =~= Seq::<u8>::empty());
    assert(o.last() == 0);
    assert(word_sum(Seq::<u8>::empty()) == 0);
    assert(word_sum(o) == word_sum(o.drop_last()) + byte_weight(0) * o.last());
    assert(word_sum(o) == 0);
    assert(zz.last() == 0);
    assert(word_sum(zz) == 0);
    assert(checksum_spec(z) == checksum_spec(b));
    lemma_checksum_balances(z, b.len() as int);
    let c = checksum_spec(b);
    assert(z.update(b.len() as int, (c / 256) as u8).update(b.len() + 1int, (c % 256) as u8) =~= b + be16_bytes(c));
}

/// The 16-bit big-endian words of `b`, in order (a trailing odd byte is left out).
pub open spec fn words16(b: Seq<u8>) -> Seq<int>
    decreases b.len(),
{
    if b.len() < 2 {
        seq![]
    } else {
        words16(b.subrange(0, b.len() - 2)).push(256 * b[b.len() - 2] + b[b.len() - 1])
    }
}

/// Adding up a sequence of integers.
pub open spec fn add_int(acc: int, w: int) -> int {
    acc + w
}

/// For an even number of bytes the word sum is the sum of the words.
proof fn lemma_word_sum_words(b: Seq<u8>)
    requires
        b.len() % 2 == 0,
    ensures
        word_sum(b) == words16(b).fold_left(0int, |acc: int, w: int| add_int(acc, w)),
    decreases b.len(),
{
    let f = |acc: int, w: int| add_int(acc, w);
    if b.len() >= 2 {
        let n = b.len() as int;
        let p = b.subrange(0, n - 2);
        lemma_word_sum_words(p);
        assert(b.drop_last().drop_last() =~= p);
        assert(b.drop_last().last() == b[n - 2]);
        assert(byte_weight(n - 1) == 1);
        assert(byte_weight(n - 2) == 256);
        assert(word_sum(b.drop_last()) == word_sum(p) + 256 * b[n - 2]);
        let w = words16(b);
        assert(w.drop_last() =~= words16(p));
        assert(w.last() == 256 * b[n - 2] + b[n - 1]);
        assert(w.fold_left(0int, f) == f(w.drop_last().fold_left(0int, f), w.last()));
    } else {
        assert(b.len() == 0);
    }
}

/// The checksum does not depend on the order of the 16-bit words: two even-length byte strings
/// whose words are the same, each as often, have the same checksum.
pub proof fn lemma_checksum_word_permutation(a: Seq<u8>, b: Seq<u8>)
    requires
        a.len() % 2 == 0,
        b.len() % 2 == 0,
        words16(a).to_multiset() == words16(b).to_multiset(),
    ensures
        checksum_spec(a) == checksum_spec(b),
{
    let f = |acc: int, w: int| add_int(acc, w);
    lemma_word_sum_words(a);
    lemma_word_sum_words(b);
    assert(vstd::seq_lib::commutative_foldl(f));
    vstd::seq_lib::lemma_fold_left_permutation(words16(a), words16(b), f, 0int);
}

// ---------------------------------------------------------------------------------------------
// Sizes
// ---------------------------------------------------------------------------------------------
/// The size of the probe packet to send; `None` for an IP version other than 4 or 6. TCP and
/// SCTP probes send no payload. The IPv4 header is counted even though the kernel adds it, the
/// IPv6 header is not.
pub open spec fn packet_size_spec(protocol: Protocol, ip_version: u8, packet_size: i32, is_raw: bool) -> Option<int> {
    if protocol is Tcp || protocol is Sctp {
        Some(0)
    } else if ip_version != 4 && ip_version != 6 {
        None
    } else {
        let base: int = if !is_raw {
            0
        } else if ip_version == 6 {
            IP6_HEADER as int
        } else {
            IP4_HEADER as int
        };
        let size = base + if protocol is Udp {
            UDP_HEADER as int + 4
        } else {
            ICMP_HEADER as int
        };
        let size = if packet_size as int > size {
            packet_size as int
        } else {
            size
        };
        Some(
            if ip_version == 6 && is_raw {
                size - IP6_HEADER as int
            } else {
                size
            },
        )
    }
}

/// The size of the probe packet to send (see `packet_size_spec`).
pub fn packet_size(params: &CProbeParams, is_raw: bool) -> (r: Option<usize>)
    ensures
        r matches Some(n) ==> packet_size_spec(params.protocol, params.ip_version, params.packet_size, is_raw) == Some(n as int),
        r is None ==> packet_size_spec(params.protocol, params.ip_version, params.packet_size, is_raw) is None,
{
    match params.protocol {
        Protocol::Tcp | Protocol::Sctp => {
            return Some(0);
        },
        _ => {},
    }
    let mut size: usize = if params.ip_version == 6 && is_raw {
        IP6_HEADER
    } else if params.ip_version == 4 && is_raw {
        IP4_HEADER
    } else if params.ip_version == 4 || params.ip_version == 6 {
        0
    } else {
        return None;
    };
    size += match params.protocol {
        Protocol::Udp => UDP_HEADER + 4,
        _ => ICMP_HEADER,
    };
    if params.packet_size >= 0 {
        let requested = params.packet_size as usize;
        if requested > size {
            size = requested;
        }
    }
    if params.ip_version == 6 && is_raw {
        size -= IP6_HEADER;
    }
    Some(size)
}

// ---------------------------------------------------------------------------------------------
// ICMP echo requests
// ---------------------------------------------------------------------------------------------
/// Big-endian bytes of a 16-bit value.
pub open spec fn be16_bytes(v: u16) -> Seq<u8> {
    seq![(v / 256) as u8, (v % 256) as u8]
}

/// `b` with an echo request header over its first eight bytes: type, zero code and checksum,
/// identifier and sequence.
pub open spec fn echo_request(b: Seq<u8>, version: u8, id: u16, sequence: u16) -> Seq<u8> {
    seq![if version == 6 {
        ICMP6_ECHO
    } else {
        ICMP_ECHO
    }, 0u8, 0u8, 0u8] + be16_bytes(id) + be16_bytes(sequence) + b.skip(8)
}

/// `b` with its checksum written big-endian at `at`.
pub open spec fn with_checksum(b: Seq<u8>, at: int) -> Seq<u8> {
    b.update(at, (checksum_spec(b) / 256) as u8).update(at + 1, (checksum_spec(b) % 256) as u8)
}

/// Writes `v` big-endian at `at`.
fn put_be16(buf: &mut [u8], at: usize, v: u16)
    requires
        at + 2 <= old(buf).len(),
    ensures
        final(buf)@ == old(buf)@.update(at as int, (v / 256) as u8).update(at + 1, (v % 256) as u8),
{
    buf[at] = (v / 256) as u8;
    buf[at + 1] = (v % 256) as u8;
}

/// Fills in an ICMP (or ICMPv6) echo request header over the first eight bytes of a buffer
/// that already holds the payload. For IPv4 the checksum covers the whole buffer; for IPv6 the
/// kernel computes it.
pub fn icmp_echo(buf: &mut [u8], version: u8, id: u16, sequence: u16)
    requires
        old(buf).len() >= ICMP_HEADER,
        version == 4 ==> old(buf).len() <= CHECKSUM_MAX_LEN,
    ensures
        final(buf)@ == if version == 4 {
            with_checksum(echo_request(old(buf)@, version, id, sequence), 2)
        } else {
            echo_request(old(buf)@, version, id, sequence)
        },
        version == 4 ==> checksum_spec(final(buf)@) == 0,
{
    buf[0] = if version == 6 {
        ICMP6_ECHO
    } else {
        ICMP_ECHO
    };
    buf[1] = 0;
    buf[2] = 0;
    buf[3] = 0;
    put_be16(buf, 4, id);
    put_be16(buf, 6, sequence);
    let ghost e = echo_request(old(buf)@, version, id, sequence);
    assert(buf@ =~= e);
    if version == 4 {
        let c = checksum(buf);
        put_be16(buf, 2, c);
        proof {
            lemma_checksum_balances(e, 2);
        }
    }
}

// ---------------------------------------------------------------------------------------------
// UDP
// ---------------------------------------------------------------------------------------------
/// The source port derived from the process id: the low 16 bits, moved out of the privileged
/// range.
pub open spec fn pid_port_spec(pid: u32) -> u16 {
    let port = pid % 65536;
    if port < MIN_UNPRIVILEGED_PORT {
        (port + UDP_PORT_RANGE - MIN_UNPRIVILEGED_PORT) as u16
    } else {
        port as u16
    }
}

pub fn udp_source_port_from_pid(pid: u32) -> (r: u16)
    ensures
        r == pid_port_spec(pid),
        r >= MIN_UNPRIVILEGED_PORT,
{
    let mut port = pid & 0xffff;
    assert(pid & 0xffff == pid % 65536) by (bit_vector);
    if port < MIN_UNPRIVILEGED_PORT {
        port += UDP_PORT_RANGE - MIN_UNPRIVILEGED_PORT;
    }
    port as u16
}

/// The ports of a UDP probe, and whether its checksum field carries the sequence number.
#[derive(Debug, Clone, Copy, PartialEq, Eq, Structural)]
pub struct UdpPorts {
    pub src: u16,
    pub dst: u16,
    pub checksum_is_sequence: bool,
}

/// Where the sequence number travels depends on which ports were requested: in the
/// destination port when none is fixed, else in the source port when that is free, else in
/// the checksum field.
pub open spec fn udp_ports_spec(dest_port: i32, local_port: i32, sequence: u16, pid_port: u16) -> UdpPorts {
    if dest_port != 0 {
        if local_port != 0 {
            UdpPorts { src: local_port as u16, dst: dest_port as u16, checksum_is_sequence: true }
        } else {
            UdpPorts { src: sequence, dst: dest_port as u16, checksum_is_sequence: false }
        }
    } else {
        UdpPorts {
            src: if local_port != 0 {
                local_port as u16
            } else {
                pid_port
            },
            dst: sequence,
            checksum_is_sequence: false,
        }
    }
}

pub fn udp_ports(params: &CProbeParams, sequence: u16, pid_port: u16) -> (r: UdpPorts)
    ensures
        r == udp_ports_spec(params.dest_port, params.local_port, sequence, pid_port),
{
    let dest = params.dest_port as u16;
    let local = params.local_port as u16;
    if params.dest_port != 0 {
        if params.local_port != 0 {
            UdpPorts { src: local, dst: dest, checksum_is_sequence: true }
        } else {
            UdpPorts { src: sequence, dst: dest, checksum_is_sequence: false }
        }
    } else {
        let src = if params.local_port != 0 {
            local
        } else {
            pid_port
        };
        UdpPorts { src, dst: sequence, checksum_is_sequence: false }
    }
}


/// The four bytes of an IPv4 address.
pub open spec fn v4_bytes(a: Ipv4Addr) -> Seq<u8> {
    seq![a.a, a.b, a.c, a.d]
}

/// The sixteen bytes of an IPv6 address, in network order.
pub open spec fn v6_bytes(a: Ipv6Addr) -> Seq<u8> {
    Seq::new(
        16,
        |i: int|
            if i % 2 == 0 {
                (a.segs()[i / 2] / 256) as u8
            } else {
                (a.segs()[i / 2] % 256) as u8
            },
    )
}

/// The pseudo-header a UDP checksum covers: both addresses, the protocol and the UDP length;
/// empty when the addresses are of different families.
pub open spec fn pseudo_spec(src: IpAddr, dst: IpAddr, udp_len: u16) -> Seq<u8> {
    match (src, dst) {
        (IpAddr::V4(s), IpAddr::V4(d)) => v4_bytes(s) + v4_bytes(d) + seq![0u8, 17u8] + be16_bytes(
            udp_len,
        ),
        (IpAddr::V6(s), IpAddr::V6(d)) => v6_bytes(s) + v6_bytes(d) + seq![0u8, 0u8] + be16_bytes(
            udp_len,
        ) + seq![0u8, 0u8, 0u8, 17u8],
        _ => seq![],
    }
}

fn push_v6_bytes(v: &mut Vec<u8>, a: &Ipv6Addr)
    ensures
        final(v)@ == old(v)@ + v6_bytes(*a),
{
    let o = a.octets();
    let mut i: usize = 0;
    while i < 16
        invariant
            i <= 16,
            forall|k: int| 0 <= k < 8 ==> o@[2 * k] == #[trigger] a.segs()[k] / 256 && o@[2 * k + 1] == a.segs()[k] % 256,
            v@ == old(v)@ + v6_bytes(*a).take(i as int),
        decreases 16 - i,
    {
        let k: usize = i / 2;
        assert(o@[2 * k as int] == a.segs()[k as int] / 256);
        assert(o@[i as int] == v6_bytes(*a)[i as int]);
        v.push(o[i]);
        assert(v6_bytes(*a).take(i + 1) =~= v6_bytes(*a).take(i as int).push(v6_bytes(*a)[i as int]));
        i += 1;
    }
    assert(v6_bytes(*a).take(16) =~= v6_bytes(*a));
}

/// The pseudo-header bytes for `udp_len` bytes of UDP.
pub fn pseudo_header(src: &IpAddr, dst: &IpAddr, udp_len: u16) -> (v: Vec<u8>)
    ensures
        v@ == pseudo_spec(*src, *dst, udp_len),
{
    let mut v: Vec<u8> = Vec::new();
    match (src, dst) {
        (IpAddr::V4(s), IpAddr::V4(d)) => {
            v.push(s.a);
            v.push(s.b);
            v.push(s.c);
            v.push(s.d);
            v.push(d.a);
            v.push(d.b);
            v.push(d.c);
            v.push(d.d);
            v.push(0);
            v.push(17);
            v.push((udp_len / 256) as u8);
            v.push((udp_len % 256) as u8);
            assert(v@ =~= pseudo_spec(*src, *dst, udp_len));
        },
        (IpAddr::V6(s), IpAddr::V6(d)) => {
            push_v6_bytes(&mut v, s);
            push_v6_bytes(&mut v, d);
            v.push(0);
            v.push(0);
            v.push((udp_len / 256) as u8);
            v.push((udp_len % 256) as u8);
            v.push(0);
            v.push(0);
            v.push(0);
            v.push(17);
            assert(v@ =~= pseudo_spec(*src, *dst, udp_len));
        },
        _ => {
            assert(v@ =~= pseudo_spec(*src, *dst, udp_len));
        },
    }
    v
}

/// `b` with a UDP header over its first eight bytes: ports, length, and the checksum field
/// holding the sequence (or zero).
pub open spec fn udp_header(b: Seq<u8>, ports: UdpPorts, sequence: u16) -> Seq<u8> {
    be16_bytes(ports.src) + be16_bytes(ports.dst) + be16_bytes((b.len() % 65536) as u16)
        + if ports.checksum_is_sequence {
        be16_bytes(sequence)
    } else {
        seq![0u8, 0u8]
    } + b.skip(8)
}

/// The UDP datagram `udp_datagram` makes of `b`: when the checksum field carries the sequence
/// (and there is room), the checksum is balanced through the two payload bytes after the
/// header; otherwise it sits in the checksum field.
pub open spec fn udp_datagram_spec(b: Seq<u8>, ports: UdpPorts, sequence: u16, src: IpAddr, dst: IpAddr) -> Seq<u8> {
    let h = udp_header(b, ports, sequence);
    let ph = pseudo_spec(src, dst, (b.len() % 65536) as u16);
    if ports.checksum_is_sequence && b.len() >= UDP_HEADER + 2 {
        let c = checksum_spec(ph + h.update(8, 0).update(9, 0));
        h.update(8, (c / 256) as u8).update(9, (c % 256) as u8)
    } else {
        let c = checksum_spec(ph + h);
        h.update(6, (c / 256) as u8).update(7, (c % 256) as u8)
    }
}

/// A UDP datagram over a buffer that already holds the payload: header, length, and a checksum
/// that either sits in the checksum field or, when that field carries the sequence, is balanced
/// through the two payload bytes right after the header. Either way the datagram checks out
/// against its pseudo-header.
#[verifier::rlimit(100)]
pub fn udp_datagram(buf: &mut [u8], ports: UdpPorts, sequence: u16, src: &IpAddr, dst: &IpAddr)
    requires
        old(buf).len() >= UDP_HEADER,
        old(buf).len() + 40 <= CHECKSUM_MAX_LEN,
    ensures
        final(buf)@ == udp_datagram_spec(old(buf)@, ports, sequence, *src, *dst),
        !ports.checksum_is_sequence || old(buf).len() >= UDP_HEADER + 2 ==> checksum_spec(
            pseudo_spec(*src, *dst, (old(buf).len() % 65536) as u16) + final(buf)@,
        ) == 0,
{
    let n = buf.len();
    let len = (n % 65536) as u16;
    put_be16(buf, 0, ports.src);
    put_be16(buf, 2, ports.dst);
    put_be16(buf, 4, len);
    if ports.checksum_is_sequence {
        put_be16(buf, 6, sequence);
    } else {
        put_be16(buf, 6, 0);
    }
    let ghost h = udp_header(old(buf)@, ports, sequence);
    assert(buf@ =~= h);
    let mut all = pseudo_header(src, dst, len);
    let ghost ph = all@;
    let off = all.len();
    let mut i: usize = 0;
    while i < n
        invariant
            i <= n == buf.len(),
            off == ph.len(),
            all@ == ph + buf@.take(i as int),
        decreases n - i,
    {
        all.push(buf[i]);
        assert(buf@.take(i + 1) =~= buf@.take(i as int).push(buf@[i as int]));
        i += 1;
    }
    assert(buf@.take(n as int) =~= buf@);
    assert(ph.len() % 2 == 0);
    if ports.checksum_is_sequence && n >= UDP_HEADER + 2 {
        all.set(off + 8, 0);
        all.set(off + 9, 0);
        assert(all@ =~= ph + h.update(8, 0).update(9, 0));
        let c = checksum(all.as_slice());
        put_be16(buf, 8, c);
        proof {
            let z = ph + h.update(8, 0).update(9, 0);
            lemma_checksum_balances(z, off + 8);
            assert(ph + buf@ =~= z.update(off + 8, (c / 256) as u8).update(off + 9, (c % 256) as u8));
        }
    } else {
        let c = checksum(all.as_slice());
        put_be16(buf, 6, c);
        proof {
            if !ports.checksum_is_sequence {
                lemma_checksum_balances(ph + h, off + 6);
                assert(ph + buf@ =~= (ph + h).update(off + 6, (c / 256) as u8).update(off + 7, (c % 256) as u8));
            }
        }
    }
}

} // verus!
