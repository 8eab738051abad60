//! What the helper computes to send a probe: its addresses, the datagram of an ICMP or UDP
//! probe, and when a failed send or connect is tried again.
use vstd::prelude::*;

use crate::cdecode::CProbeParams;
use crate::command::Errnos;
use crate::construct::{
    echo_request, icmp_echo, packet_size, packet_size_spec, udp_datagram, udp_datagram_spec,
    udp_ports, udp_ports_spec, with_checksum, CHECKSUM_MAX_LEN,
};
use crate::ipaddr::{parse_ipv4, parse_ipv6, parse_v4_spec, parse_v6_spec, IpAddr};
use crate::probe_table::{ProbeTable, SockAddr};
use crate::request::Protocol;

verus! {

broadcast use vstd::seq_lib::group_seq_properties;

/// An address in the text of IP version `ip_version`: that family only.
pub open spec fn decode_spec(ip_version: u8, s: Seq<char>) -> Option<IpAddr> {
    if ip_version == 4 {
        match parse_v4_spec(s) {
            Some(a) => Some(IpAddr::V4(a)),
            None => None,
        }
    } else if ip_version == 6 {
        match parse_v6_spec(s) {
            Some(a) => Some(IpAddr::V6(a)),
            None => None,
        }
    } else {
        None
    }
}

/// Reads an address of the requested family only.
pub fn decode(ip_version: u8, s: &str) -> (r: Option<IpAddr>)
    ensures
        r == decode_spec(ip_version, s@),
{
    if ip_version == 4 {
        match parse_ipv4(s) {
            Some(a) => Some(IpAddr::V4(a)),
            None => None,
        }
    } else if ip_version == 6 {
        match parse_ipv6(s) {
            Some(a) => Some(IpAddr::V6(a)),
            None => None,
        }
    } else {
        None
    }
}

/// The local port a probe is bound to: on an unprivileged ICMP socket the kernel puts the
/// bound port in the echo identifier, so it is ours; any other probe leaves it to the kernel.
pub fn local_port_for(protocol: Protocol, is_raw: bool, echo_id: u16) -> (r: u16)
    ensures
        r == if protocol == Protocol::Icmp && !is_raw {
            echo_id
        } else {
            0
        },
{
    match protocol {
        Protocol::Icmp => if is_raw {
            0
        } else {
            echo_id
        },
        _ => 0,
    }
}

/// A buffer of `n` bytes of the fill pattern.
pub open spec fn filled(n: nat, pattern: u8) -> Seq<u8> {
    Seq::new(n, |i: int| pattern)
}

fn fill(n: usize, pattern: u8) -> (v: Vec<u8>)
    ensures
        v@ == filled(n as nat, pattern),
{
    let mut v: Vec<u8> = Vec::new();
    while v.len() < n
        invariant
            v@.len() <= n,
            forall|i: int| 0 <= i < v@.len() ==> v@[i] == pattern,
        decreases n - v@.len(),
    {
        v.push(pattern);
    }
    assert(v@ =~= filled(n as nat, pattern));
    v
}

/// Whether a failed send is tried once more: on an unprivileged datagram socket a queued ICMP
/// error of an earlier probe is reported, and cleared, by the next send, so a refusal or an
/// unreachable host may not be this probe's.
pub fn should_retry_send(is_raw: bool, errno: Option<i32>, e: &Errnos) -> (r: bool)
    ensures
        r == (!is_raw && (errno == Some(e.econnrefused) || errno == Some(e.ehostunreach))),
{
    if is_raw {
        return false;
    }
    match errno {
        Some(n) => n == e.econnrefused || n == e.ehostunreach,
        None => false,
    }
}

/// Whether a stream probe whose connect failed with `errno` tries the next sequence number:
/// its source port was taken or not available.
pub fn stream_port_taken(errno: Option<i32>, e: &Errnos) -> (r: bool)
    ensures
        r == (errno == Some(e.eaddrinuse) || errno == Some(e.eaddrnotavail)),
{
    match errno {
        Some(n) => n == e.eaddrinuse || n == e.eaddrnotavail,
        None => false,
    }
}

/// An echo request over a buffer that holds the payload.
fn echo_packet(buf: Vec<u8>, version: u8, id: u16, sequence: u16) -> (v: Vec<u8>)
    requires
        buf@.len() >= 8,
        version == 4 ==> buf@.len() <= CHECKSUM_MAX_LEN,
    ensures
        v@ == if version == 4 {
            with_checksum(echo_request(buf@, version, id, sequence), 2)
        } else {
            echo_request(buf@, version, id, sequence)
        },
{
    let mut b = buf;
    icmp_echo(b.as_mut_slice(), version, id, sequence);
    b
}

/// The packet an ICMP or UDP probe `p` sends and where it goes; `None` (invalid argument) for
/// an IP version other than 4 or 6 or a stream protocol. The buffer starts out filled with the
/// bit pattern and each builder overwrites only its own header. A UDP probe's ports become the
/// probe's own; the kernel builds the UDP header of an unprivileged socket, so the destination
/// port then goes on the address instead.
#[verifier::rlimit(50)]
pub fn build_datagram(table: &mut ProbeTable, idx: usize, params: &CProbeParams, is_raw: bool, echo_id: u16, pid_port: u16) -> (r: Option<(Vec<u8>, SockAddr)>)
    requires
        idx < old(table).probes@.len(),
        params.packet_size + 40 <= CHECKSUM_MAX_LEN,
    ensures
        final(table).probes@.len() == old(table).probes@.len(),
        final(table).next_sequence == old(table).next_sequence,
        forall|j: int| 0 <= j < final(table).probes@.len() && j != idx ==> final(table).probes@[j] == old(table).probes@[j],
        ({
            let p = old(table).probes@[idx as int];
            let size = packet_size_spec(params.protocol, params.ip_version, params.packet_size, is_raw);
            if size is None || params.protocol is Tcp || params.protocol is Sctp {
                r is None && final(table).probes@ == old(table).probes@
            } else {
                let buf = filled(size->Some_0 as nat, params.bit_pattern as u8);
                if !(params.protocol is Udp) {
                    &&& final(table).probes@ == old(table).probes@
                    &&& r matches Some((b, d)) && d == p.remote && b@ == if params.ip_version == 4 {
                        with_checksum(echo_request(buf, params.ip_version, echo_id, p.sequence), 2)
                    } else {
                        echo_request(buf, params.ip_version, echo_id, p.sequence)
                    }
                } else {
                    let ports = udp_ports_spec(params.dest_port, params.local_port, p.sequence, pid_port);
                    let local = SockAddr { port: ports.src, ..p.local };
                    let remote = SockAddr { port: ports.dst, ..p.remote };
                    &&& final(table).probes@[idx as int].local == local
                    &&& final(table).probes@[idx as int].remote == remote
                    &&& final(table).probes@[idx as int].sequence == p.sequence
                    &&& final(table).probes@[idx as int].token == p.token
                    &&& r matches Some((b, d)) && d == (SockAddr { port: if is_raw { 0 } else { ports.dst }, ..p.remote })
                        && b@ == udp_datagram_spec(buf, ports, p.sequence, local.ip, remote.ip)
                }
            }
        }),
{
    let size = match packet_size(params, is_raw) {
        Some(n) => n,
        None => return None,
    };
    let is_udp = match params.protocol {
        Protocol::Udp => true,
        _ => false,
    };
    let is_stream = match params.protocol {
        Protocol::Tcp | Protocol::Sctp => true,
        _ => false,
    };
    if is_stream {
        return None;
    }
    proof {
        assert(size >= 8);
        assert(size + 40 <= CHECKSUM_MAX_LEN);
    }
    let mut buf = fill(size, params.bit_pattern as u8);
    let sequence = table.probes[idx].sequence;
    if !is_udp {
        let buf = echo_packet(buf, params.ip_version, echo_id, sequence);
        let dst = table.probes[idx].remote;
        Some((buf, dst))
    } else {
        let ports = udp_ports(params, sequence, pid_port);
        table.set_ports(idx, ports.src, ports.dst);
        let local_ip = table.probes[idx].local.ip;
        let remote = table.probes[idx].remote;
        udp_datagram(buf.as_mut_slice(), ports, sequence, &local_ip, &remote.ip);
        let dst = SockAddr {
            ip: remote.ip,
            port: if is_raw {
                0
            } else {
                ports.dst
            },
        };
        Some((buf, dst))
    }
}


/// The TOS and TTL a probe's socket gets: both must be non-negative and the TTL at most 255,
/// else the probe is an invalid argument.
pub fn tos_and_ttl(params: &CProbeParams) -> (r: Option<(u32, u32)>)
    ensures
        r is Some <==> (params.type_of_service >= 0 && 0 <= params.ttl <= 255),
        r matches Some((tos, ttl)) ==> tos == params.type_of_service && ttl == params.ttl,
{
    if params.type_of_service < 0 || params.ttl < 0 || params.ttl > 255 {
        None
    } else {
        Some((params.type_of_service as u32, params.ttl as u32))
    }
}

/// The address a shared send socket is bound to: a raw socket has no port.
pub fn bind_address(local: SockAddr, is_raw: bool) -> (r: SockAddr)
    ensures
        r == if is_raw {
            SockAddr { port: 0, ..local }
        } else {
            local
        },
{
    if is_raw {
        SockAddr { ip: local.ip, port: 0 }
    } else {
        local
    }
}

/// Whether a shared send socket bound to `current` still needs binding to `local`: a raw
/// socket is bound when its address is the one wanted, any other socket once it has a port.
pub fn needs_bind(current: Option<SockAddr>, local: SockAddr, is_raw: bool) -> (r: bool)
    ensures
        r == match current {
            Some(cur) => if is_raw {
                cur.ip != local.ip
            } else {
                cur.port == 0
            },
            None => true,
        },
{
    match current {
        Some(cur) => if is_raw {
            !cur.ip.same(&local.ip)
        } else {
            cur.port == 0
        },
        None => true,
    }
}

} // verus!
