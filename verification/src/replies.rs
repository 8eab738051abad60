//! Turning what the sockets hand back into replies: a received ICMP message or a queued
//! socket error is matched to its probe, which leaves the table with exactly one reply.
use vstd::prelude::*;

use crate::command::{error_kind_spec, error_response, pushed_one, Errnos};
use crate::stream::Completion;
use crate::construct::UDP_HEADER;
use crate::deconstruct::{
    match_reply, match_reply_spec, match_udp, match_udp_spec, outcome_of, parse_icmp4,
    parse_icmp6, parse_message4_spec, parse_message_spec, port_unreach_code, queued_icmp_kind,
    queued_kind_spec, word_at, IcmpKind, Inner, Parsed, ParsedView, QueuedError,
};
use crate::ipaddr::IpAddr;
use crate::mpls::MplsLabel;
use crate::probe_table::{rtt_spec, rtt_us, swap_removed, ProbeTable};
use crate::response::{ProbeResult, Response, ResponseKind, ResponseKindView, ResponseView};

verus! {

broadcast use vstd::seq_lib::group_seq_properties;

/// The reply of probe `p` answered from `from` at `now`.
pub open spec fn reply_view(token: i32, result: ProbeResult, from: IpAddr, departure: u64, now: u64, mpls: Seq<MplsLabel>) -> ResponseView {
    ResponseView {
        token,
        kind: ResponseKindView::Probe { result, addr: from, rtt_us: rtt_spec(departure, now), mpls },
    }
}

/// Answers probe `idx`: it leaves the table, and its token gets one reply naming `from` and
/// the round-trip time.
pub fn respond(
    table: &mut ProbeTable,
    idx: usize,
    result: ProbeResult,
    from: IpAddr,
    now: u64,
    mpls: Vec<MplsLabel>,
    out: &mut Vec<Response>,
)
    requires
        idx < old(table).probes@.len(),
    ensures
        final(table).probes@ == swap_removed(old(table).probes@, idx as int),
        final(table).next_sequence == old(table).next_sequence,
        pushed_one(
            old(out)@,
            final(out)@,
            reply_view(old(table).probes@[idx as int].token, result, from, old(table).probes@[idx as int].departure_us, now, mpls@),
        ),
{
    let p = table.remove(idx);
    out.push(
        Response {
            token: p.token,
            kind: ResponseKind::Probe { result, addr: from, rtt_us: rtt_us(p.departure_us, now), mpls },
        },
    );
    assert(out@.drop_last() =~= old(out)@);
}

/// What delivering a parsed message does: the probe it answers, if any, is answered.
pub open spec fn delivered(
    old_ps: Seq<crate::probe_table::Probe>,
    new_ps: Seq<crate::probe_table::Probe>,
    old_out: Seq<Response>,
    new_out: Seq<Response>,
    m: Option<(usize, ProbeResult)>,
    from: IpAddr,
    now: u64,
    mpls: Seq<MplsLabel>,
) -> bool {
    match m {
        None => new_ps == old_ps && new_out == old_out,
        Some((i, result)) => {
            &&& new_ps == swap_removed(old_ps, i as int)
            &&& pushed_one(old_out, new_out, reply_view(old_ps[i as int].token, result, from, old_ps[i as int].departure_us, now, mpls))
        },
    }
}

/// A parsed message that matches no outstanding probe is dropped silently.
pub fn deliver(
    table: &mut ProbeTable,
    parsed: &Parsed,
    version: u8,
    echo_id: u16,
    from: IpAddr,
    now: u64,
    out: &mut Vec<Response>,
)
    ensures
        final(table).next_sequence == old(table).next_sequence,
        delivered(
            old(table).probes@,
            final(table).probes@,
            old(out)@,
            final(out)@,
            match_reply_spec(old(table).probes@, parsed@, version, echo_id),
            from,
            now,
            parsed@.mpls,
        ),
{
    match match_reply(table, parsed, version, echo_id) {
        Some((idx, result)) => {
            respond(table, idx, result, from, now, vstd::slice::slice_to_vec(parsed.mpls.as_slice()), out);
        },
        None => {},
    }
}

/// The probe a queued error names: for a UDP socket, the first eight bytes of our datagram are
/// its UDP header (there is no quoted IP header); otherwise the ICMP echo header, whose
/// identifier must be ours.
pub open spec fn queued_match(
    ps: Seq<crate::probe_table::Probe>,
    is_udp: bool,
    version: u8,
    echo_id: u16,
    payload: Seq<u8>,
    kind: QueuedError,
) -> Option<(usize, ProbeResult)> {
    if payload.len() < 8 {
        None
    } else if is_udp {
        match match_udp_spec(ps, word_at(payload, 0), word_at(payload, 2), word_at(payload, 6), None) {
            Some(i) => Some((i, outcome_of(queued_kind_spec(kind, version), version))),
            None => None,
        }
    } else {
        match_reply_spec(
            ps,
            ParsedView {
                kind: queued_kind_spec(kind, version),
                echo: None,
                inner: Some(Inner::Icmp { id: word_at(payload, 4), sequence: word_at(payload, 6) }),
                mpls: Seq::empty(),
            },
            version,
            echo_id,
        )
    }
}

/// The big-endian 16-bit value at `at`.
fn read_word(b: &[u8], at: usize) -> (r: u16)
    requires
        at + 2 <= b.len(),
    ensures
        r == word_at(b@, at as int),
{
    b[at] as u16 * 256 + b[at + 1] as u16
}

/// A socket error queue entry for one of our datagrams, reported by `offender`: the probe it
/// names, if any, is answered with the outcome the error stands for.
#[verifier::rlimit(50)]
pub fn deliver_queued(
    is_udp: bool,
    table: &mut ProbeTable,
    version: u8,
    echo_id: u16,
    offender: IpAddr,
    payload: &[u8],
    kind: QueuedError,
    now: u64,
    out: &mut Vec<Response>,
)
    ensures
        final(table).next_sequence == old(table).next_sequence,
        delivered(
            old(table).probes@,
            final(table).probes@,
            old(out)@,
            final(out)@,
            queued_match(old(table).probes@, is_udp, version, echo_id, payload@, kind),
            offender,
            now,
            Seq::empty(),
        ),
{
    if payload.len() < UDP_HEADER {
        return;
    }
    let w0 = read_word(payload, 0);
    let w2 = read_word(payload, 2);
    let w4 = read_word(payload, 4);
    let w6 = read_word(payload, 6);
    if is_udp {
        let idx = match match_udp(table, w0, w2, w6, None) {
            Some(i) => i,
            None => return,
        };
        let k = queued_icmp_kind(kind, version);
        let result = match k {
            IcmpKind::TimeExceeded => ProbeResult::TtlExpired,
            IcmpKind::DestUnreach { code } => if code == port_unreach_code(version) {
                ProbeResult::Reply
            } else {
                ProbeResult::NoRouteHost
            },
            IcmpKind::EchoReply => ProbeResult::Reply,
        };
        let none: Vec<MplsLabel> = Vec::new();
        assert(none@ =~= Seq::<MplsLabel>::empty());
        respond(table, idx, result, offender, now, none, out);
        return;
    }
    let parsed = Parsed {
        kind: queued_icmp_kind(kind, version),
        echo: None,
        inner: Some(Inner::Icmp { id: w4, sequence: w6 }),
        mpls: Vec::new(),
    };
    assert(parsed@.mpls =~= Seq::<MplsLabel>::empty());
    deliver(table, &parsed, version, echo_id, offender, now, out);
}

/// What to do after a receive on a probe socket failed with `errno`.
#[derive(Debug, Clone, Copy, PartialEq, Eq, Structural)]
pub enum RecvAction {
    /// Nothing more to read from this socket now.
    Done,
    /// Read the socket's error queue, with this guess of what the entry reports.
    ReadQueue(QueuedError),
    /// Interrupted: receive again.
    Retry,
    /// Any other error is fatal: a swallowed receive error would look like timeouts.
    Fatal,
}

/// The decision after a failed receive: no data on a raw socket ends its turn, while on a
/// datagram socket the error queue may still hold an entry (its ICMP code unknown); an
/// unreachable host is a time exceeded and a refusal a port unreachable until the queue says
/// more.
pub open spec fn recv_action_spec(errno: i32, is_raw: bool, e: Errnos) -> RecvAction {
    if errno == e.eagain {
        if is_raw {
            RecvAction::Done
        } else {
            RecvAction::ReadQueue(QueuedError::Unreachable { code: 0 })
        }
    } else if errno == e.eintr {
        RecvAction::Retry
    } else if errno == e.ehostunreach {
        RecvAction::ReadQueue(QueuedError::TimeExceeded)
    } else if errno == e.econnrefused {
        RecvAction::ReadQueue(QueuedError::Refused)
    } else {
        RecvAction::Fatal
    }
}

pub fn recv_action(errno: i32, is_raw: bool, e: &Errnos) -> (r: RecvAction)
    ensures
        r == recv_action_spec(errno, is_raw, *e),
{
    if errno == e.eagain {
        if is_raw {
            RecvAction::Done
        } else {
            RecvAction::ReadQueue(QueuedError::Unreachable { code: 0 })
        }
    } else if errno == e.eintr {
        RecvAction::Retry
    } else if errno == e.ehostunreach {
        RecvAction::ReadQueue(QueuedError::TimeExceeded)
    } else if errno == e.econnrefused {
        RecvAction::ReadQueue(QueuedError::Refused)
    } else {
        RecvAction::Fatal
    }
}

/// What a received packet of IP version `version` is read as.
pub open spec fn received_spec(bytes: Seq<u8>, version: u8, is_raw: bool) -> Option<ParsedView> {
    if version == 6 {
        parse_message_spec(bytes, 6)
    } else {
        parse_message4_spec(bytes, is_raw)
    }
}

/// A packet received from `from` on a probe socket: read, then delivered. A packet without a
/// sender address, or one that does not read, is dropped.
pub fn handle_packet(
    bytes: &[u8],
    from: Option<IpAddr>,
    version: u8,
    is_raw: bool,
    table: &mut ProbeTable,
    echo_id: u16,
    now: u64,
    out: &mut Vec<Response>,
)
    ensures
        final(table).next_sequence == old(table).next_sequence,
        from is None || received_spec(bytes@, version, is_raw) is None ==> final(table).probes@ == old(table).probes@ && final(out)@ == old(out)@,
        from matches Some(f) ==> (received_spec(bytes@, version, is_raw) matches Some(p) ==> delivered(
            old(table).probes@,
            final(table).probes@,
            old(out)@,
            final(out)@,
            match_reply_spec(old(table).probes@, p, version, echo_id),
            f,
            now,
            p.mpls,
        )),
{
    let f = match from {
        Some(f) => f,
        None => return,
    };
    let parsed = if version == 6 {
        parse_icmp6(bytes)
    } else {
        parse_icmp4(bytes, is_raw)
    };
    match parsed {
        Some(p) => deliver(table, &p, version, echo_id, f, now, out),
        None => {},
    }
}


/// What a finished (or still pending) connect means for stream probe `idx`: nothing while
/// pending; a connect that completed, or was refused, means the destination answered; a failed
/// one is reported by its errno. Either way a finished probe leaves the table.
pub fn stream_outcome(table: &mut ProbeTable, idx: usize, c: Completion, now: u64, e: &Errnos, out: &mut Vec<Response>)
    requires
        idx < old(table).probes@.len(),
    ensures
        final(table).next_sequence == old(table).next_sequence,
        c is Pending ==> final(table).probes@ == old(table).probes@ && final(out)@ == old(out)@,
        c is Reached ==> final(table).probes@ == swap_removed(old(table).probes@, idx as int) && pushed_one(
            old(out)@,
            final(out)@,
            reply_view(
                old(table).probes@[idx as int].token,
                ProbeResult::Reply,
                old(table).probes@[idx as int].remote.ip,
                old(table).probes@[idx as int].departure_us,
                now,
                Seq::empty(),
            ),
        ),
        c matches Completion::Failed(errno) ==> final(table).probes@ == swap_removed(old(table).probes@, idx as int) && pushed_one(
            old(out)@,
            final(out)@,
            ResponseView { token: old(table).probes@[idx as int].token, kind: error_kind_spec(errno, *e) },
        ),
{
    match c {
        Completion::Pending => {},
        Completion::Reached => {
            let from = table.probes[idx].remote.ip;
            let none: Vec<MplsLabel> = Vec::new();
            assert(none@ =~= Seq::<MplsLabel>::empty());
            respond(table, idx, ProbeResult::Reply, from, now, none, out);
        },
        Completion::Failed(errno) => {
            let p = table.remove(idx);
            out.push(error_response(p.token, errno, e));
            assert(out@.drop_last() =~= old(out)@);
        },
    }
}

} // verus!
