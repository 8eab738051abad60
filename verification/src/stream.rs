//! TCP and SCTP connect probes: where they go, and what a finished connect means.
use vstd::prelude::*;

use crate::cdecode::CProbeParams;
use crate::command::Errnos;
use crate::ipaddr::IpAddr;
use crate::probe_table::{sequence_after, Probe, ProbeTable, SockAddr, MAX_PORT, MIN_PORT};
use crate::request::Protocol;

verus! {

/// The destination when the request named none.
pub const HTTP_PORT: u16 = 80;

/// What is known about a probe's connect.
#[derive(Debug, Clone, Copy, PartialEq, Eq, Structural)]
pub enum Completion {
    /// Not writable yet: the connect is still in flight.
    Pending,
    /// Connected, or refused: either way the destination answered.
    Reached,
    /// The socket error says the probe failed, with its errno if there is one; the caller
    /// reports it and frees the probe.
    Failed(Option<i32>),
}

/// The destination port of a stream probe: the requested one (a C `int`, narrowed to 16 bits),
/// or http when the request named none.
pub open spec fn dest_port_spec(dest_port: i32) -> u16 {
    if dest_port != 0 {
        dest_port as u16
    } else {
        HTTP_PORT
    }
}

pub fn dest_port(params: &CProbeParams) -> (r: u16)
    ensures
        r == dest_port_spec(params.dest_port),
{
    if params.dest_port != 0 {
        params.dest_port as u16
    } else {
        HTTP_PORT
    }
}


/// How often a stream probe tries another source port before it gives up: once for each
/// sequence number but one.
pub const STREAM_ATTEMPTS: u16 = MAX_PORT - MIN_PORT;

/// A stream probe's connect could not be started, the system saying `errno`. Where its source
/// port was taken or not available the probe moves on to the next sequence number and the
/// result says to try again; otherwise it stays aimed at the destination port of `params`, so
/// that a refusal names the right port, and the attempt has failed.
pub fn stream_open_failed(table: &mut ProbeTable, idx: usize, errno: Option<i32>, params: &CProbeParams, e: &Errnos) -> (retry: bool)
    requires
        idx < old(table).probes@.len(),
    ensures
        retry == (errno == Some(e.eaddrinuse) || errno == Some(e.eaddrnotavail)),
        final(table).probes@.len() == old(table).probes@.len(),
        forall|j: int| 0 <= j < final(table).probes@.len() && j != idx ==> final(table).probes@[j] == old(table).probes@[j],
        retry ==> final(table).next_sequence == sequence_after(old(table).next_sequence)
            && final(table).probes@[idx as int] == (Probe { sequence: old(table).next_sequence, ..old(table).probes@[idx as int] }),
        !retry ==> final(table).next_sequence == old(table).next_sequence
            && final(table).probes@[idx as int] == (Probe {
                remote: SockAddr { port: dest_port_spec(params.dest_port), ..old(table).probes@[idx as int].remote },
                ..old(table).probes@[idx as int]
            }),
{
    if crate::sending::stream_port_taken(errno, e) {
        table.retry_sequence(idx);
        true
    } else {
        let remote = SockAddr { port: dest_port(params), ..table.probes[idx].remote };
        let local = table.probes[idx].local;
        table.set_addrs(idx, remote, local);
        false
    }
}

/// Whether a stream probe can be opened: TCP or SCTP, IP version 4 or 6, and both addresses of
/// that family.
pub fn stream_open_allowed(protocol: Protocol, version: u8, local: &IpAddr, remote: &IpAddr) -> (r: bool)
    ensures
        r == ((protocol is Tcp || protocol is Sctp) && (version == 4 || version == 6) && (version == 6
            <==> local is V6) && (version == 6 <==> remote is V6)),
{
    let stream = match protocol {
        Protocol::Tcp | Protocol::Sctp => true,
        _ => false,
    };
    stream && (version == 4 || version == 6) && (version == 6) == local.is_ipv6() && (version == 6)
        == remote.is_ipv6()
}

/// What a connect came to: nothing yet while the socket is neither writable nor in error;
/// then, by its socket error (`None` when there is none, else the errno if any), reached when
/// there is no error or the connect was refused, failed otherwise.
pub fn connect_outcome(ready: bool, error: Option<Option<i32>>, e: &Errnos) -> (c: Completion)
    ensures
        !ready ==> c == Completion::Pending,
        ready ==> c == match error {
            None => Completion::Reached,
            Some(errno) => if errno == Some(e.econnrefused) {
                Completion::Reached
            } else {
                Completion::Failed(errno)
            },
        },
{
    if !ready {
        return Completion::Pending;
    }
    match error {
        None => Completion::Reached,
        Some(errno) => {
            let refused = match errno {
                Some(n) => n == e.econnrefused,
                None => false,
            };
            if refused {
                Completion::Reached
            } else {
                Completion::Failed(errno)
            }
        },
    }
}

} // verus!
