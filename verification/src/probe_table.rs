//! Outstanding probes: their sequence numbers, which double as source ports, their addresses
//! and their deadlines. Times are microseconds on a monotonic clock the caller reads.
use vstd::prelude::*;

use crate::ipaddr::{IpAddr, Ipv4Addr};
use crate::request::Protocol;
use crate::response::{Response, ResponseKind};

verus! {

broadcast use vstd::seq_lib::group_seq_properties;

/// `socket2::Socket`: the socket of a TCP or SCTP probe that is still connecting, carried
/// through the table and never looked into.
#[verifier::external_type_specification]
#[verifier::external_body]
pub struct ExSocket(socket2::Socket);

/// Most probes outstanding at once.
pub const MAX_PROBES: usize = 10240;
/// Sequence numbers run from `MIN_PORT` to `MAX_PORT` and wrap.
pub const MIN_PORT: u16 = 33434;
pub const MAX_PORT: u16 = 65535;
/// Microseconds per second.
pub const MICROS_PER_SECOND: u64 = 1_000_000;

/// An address and port.
#[derive(Debug, Clone, Copy, PartialEq, Eq, Structural)]
pub struct SockAddr {
    pub ip: IpAddr,
    pub port: u16,
}

/// One outstanding probe.
pub struct Probe {
    pub token: i32,
    pub sequence: u16,
    pub protocol: Protocol,
    pub remote: SockAddr,
    pub local: SockAddr,
    /// When it was sent.
    pub departure_us: u64,
    /// When it times out.
    pub timeout_at_us: u64,
    /// The connecting socket of a TCP/SCTP probe.
    pub stream: Option<socket2::Socket>,
}

/// The outstanding probes and the next sequence number to hand out.
pub struct ProbeTable {
    pub probes: Vec<Probe>,
    pub next_sequence: u16,
}

/// `0.0.0.0:0`.
pub open spec fn unspecified_addr() -> SockAddr {
    SockAddr { ip: IpAddr::V4(Ipv4Addr { a: 0, b: 0, c: 0, d: 0 }), port: 0 }
}

/// The sequence number after `s`.
pub open spec fn sequence_after(s: u16) -> u16 {
    if s == MAX_PORT {
        MIN_PORT
    } else {
        (s + 1) as u16
    }
}

/// The deadline of a probe sent at `now` with a timeout of `timeout_s` seconds; a non-positive
/// timeout expires at the next check. Saturates at the end of the clock.
pub open spec fn deadline(now: u64, timeout_s: i32) -> u64 {
    let t = if timeout_s > 0 {
        now + timeout_s * MICROS_PER_SECOND
    } else {
        now as int
    };
    if t > u64::MAX {
        u64::MAX
    } else {
        t as u64
    }
}

/// `v` with element `i` replaced by the last one, and the last one dropped.
pub open spec fn swap_removed<T>(v: Seq<T>, i: int) -> Seq<T> {
    v.update(i, v.last()).drop_last()
}

/// Expiring from position `i` on: a probe strictly past its deadline is swap-removed and its
/// token reported, then the same position is looked at again. The probes left, and the tokens
/// reported in order.
pub open spec fn expire_run(ps: Seq<Probe>, i: int, now: u64) -> (Seq<Probe>, Seq<i32>)
    decreases ps.len() - i,
{
    if i < 0 || i >= ps.len() {
        (ps, seq![])
    } else if ps[i].timeout_at_us < now {
        let rest = expire_run(swap_removed(ps, i), i, now);
        (rest.0, seq![ps[i].token] + rest.1)
    } else {
        expire_run(ps, i + 1, now)
    }
}

/// The first probe from position `i` on with sequence number `s`.
pub open spec fn find_from(ps: Seq<Probe>, s: u16, i: int) -> Option<usize>
    decreases ps.len() - i,
{
    if i < 0 || i >= ps.len() {
        None
    } else if ps[i].sequence == s {
        Some(i as usize)
    } else {
        find_from(ps, s, i + 1)
    }
}

/// Sequence numbers handed out stay within `MIN_PORT..=MAX_PORT`: the one after a number in
/// that range is in it too.
pub proof fn lemma_sequence_after_in_range(s: u16)
    requires
        MIN_PORT <= s,
    ensures
        MIN_PORT <= sequence_after(s) <= MAX_PORT,
        s < MAX_PORT ==> sequence_after(s) == s + 1,
{
}

/// Expiring leaves no probe past its deadline, and every probe either stays or is reported.
pub proof fn lemma_expire_run(ps: Seq<Probe>, i: int, now: u64)
    requires
        0 <= i <= ps.len(),
        forall|j: int| 0 <= j < i ==> (#[trigger] ps[j]).timeout_at_us >= now,
    ensures
        forall|j: int| 0 <= j < expire_run(ps, i, now).0.len() ==> (#[trigger] expire_run(ps, i, now).0[j]).timeout_at_us >= now,
        expire_run(ps, i, now).0.len() + expire_run(ps, i, now).1.len() == ps.len(),
    decreases ps.len() - i,
{
    if i < ps.len() {
        if ps[i].timeout_at_us < now {
            let q = swap_removed(ps, i);
            assert forall|j: int| 0 <= j < i implies (#[trigger] q[j]).timeout_at_us >= now by {
                assert(q[j] == ps[j]);
            }
            lemma_expire_run(q, i, now);
        } else {
            lemma_expire_run(ps, i + 1, now);
        }
    }
}

/// The tokens of `ps`, in order.
pub open spec fn tokens_of(ps: Seq<Probe>) -> Seq<i32> {
    ps.map_values(|p: Probe| p.token)
}

/// Swap-removing element `i` takes one copy of it out of the multiset of elements.
pub proof fn lemma_swap_removed_multiset<T>(v: Seq<T>, i: int)
    requires
        0 <= i < v.len(),
    ensures
        swap_removed(v, i).to_multiset() == v.to_multiset().remove(v[i]),
{
    broadcast use vstd::seq_lib::group_to_multiset_ensures, vstd::multiset::group_multiset_axioms;

    let u = v.update(i, v.last());
    let w = u.drop_last();
    assert(u.len() == v.len());
    assert(u.last() == v.last());
    vstd::seq_lib::to_multiset_update(v, i, v.last());
    assert(u =~= w.push(u.last()));
    vstd::seq_lib::to_multiset_build(w, u.last());
    vstd::seq_lib::to_multiset_contains(v, v[i]);
    assert(v.contains(v[i]));
    assert forall|x: T| #[trigger] w.to_multiset().count(x) == v.to_multiset().remove(v[i]).count(x) by {
        assert(u.to_multiset().count(x) == w.to_multiset().count(x) + if x == u.last() { 1int } else { 0int });
    }
    assert(w.to_multiset() =~= v.to_multiset().remove(v[i]));
}

/// Expiring from position `i` on, with every probe before `i` not yet due: the probes left
/// are exactly the old probes not yet due, counted with multiplicity, and the tokens reported
/// are exactly those of the others.
proof fn lemma_expire_run_multiset(ps: Seq<Probe>, i: int, now: u64)
    requires
        0 <= i <= ps.len(),
        forall|j: int| 0 <= j < i ==> (#[trigger] ps[j]).timeout_at_us >= now,
    ensures
        forall|p: Probe| (#[trigger] expire_run(ps, i, now).0.to_multiset().count(p))
            == if p.timeout_at_us >= now { ps.to_multiset().count(p) } else { 0 },
        tokens_of(ps).to_multiset() == tokens_of(expire_run(ps, i, now).0).to_multiset().add(
            expire_run(ps, i, now).1.to_multiset(),
        ),
    decreases ps.len() - i,
{
    broadcast use vstd::seq_lib::group_to_multiset_ensures, vstd::multiset::group_multiset_axioms;

    if i >= ps.len() {
        assert forall|p: Probe| (#[trigger] expire_run(ps, i, now).0.to_multiset().count(p))
            == if p.timeout_at_us >= now { ps.to_multiset().count(p) } else { 0 } by {
            if p.timeout_at_us < now {
                vstd::seq_lib::to_multiset_contains(ps, p);
                if ps.contains(p) {
                    let j = choose|j: int| 0 <= j < ps.len() && ps[j] == p;
                    assert(ps[j].timeout_at_us >= now);
                }
            }
        }
        assert(tokens_of(ps).to_multiset() =~= tokens_of(ps).to_multiset().add(
            Seq::<i32>::empty().to_multiset(),
        ));
    } else if ps[i].timeout_at_us < now {
        let q = swap_removed(ps, i);
        assert forall|j: int| 0 <= j < i implies (#[trigger] q[j]).timeout_at_us >= now by {
            assert(q[j] == ps[j]);
        }
        lemma_expire_run_multiset(q, i, now);
        lemma_swap_removed_multiset(ps, i);
        let t = tokens_of(ps);
        assert(tokens_of(q) =~= swap_removed(t, i));
        lemma_swap_removed_multiset(t, i);
        vstd::seq_lib::to_multiset_contains(t, t[i]);
        let rest = expire_run(q, i, now);
        assert(expire_run(ps, i, now).1 == seq![ps[i].token] + rest.1);
        assert(seq![ps[i].token] + rest.1 == rest.1.insert(0, ps[i].token));
        vstd::seq_lib::to_multiset_insert(rest.1, 0, ps[i].token);
        let tok = ps[i].token;
        assert(t[i] == tok);
        assert(expire_run(ps, i, now).0 == rest.0);
        assert(t.contains(tok));
        assert forall|x: i32| #[trigger] t.to_multiset().count(x) == tokens_of(rest.0).to_multiset().add(
            expire_run(ps, i, now).1.to_multiset(),
        ).count(x) by {
            assert(tokens_of(q).to_multiset().count(x) == t.to_multiset().count(x) - if x == tok { 1int } else { 0int });
        }
        assert(t.to_multiset() =~= tokens_of(rest.0).to_multiset().add(
            expire_run(ps, i, now).1.to_multiset(),
        ));
    } else {
        lemma_expire_run_multiset(ps, i + 1, now);
    }
}

/// Expiry keeps exactly the probes not yet due (`timeout_at_us >= now`), each as often as it
/// stood in the table, and reports the tokens of exactly the others.
pub proof fn lemma_expire_keeps_not_due(ps: Seq<Probe>, now: u64)
    ensures
        forall|p: Probe| (#[trigger] expire_run(ps, 0, now).0.to_multiset().count(p))
            == if p.timeout_at_us >= now { ps.to_multiset().count(p) } else { 0 },
        tokens_of(ps).to_multiset() == tokens_of(expire_run(ps, 0, now).0).to_multiset().add(
            expire_run(ps, 0, now).1.to_multiset(),
        ),
{
    lemma_expire_run_multiset(ps, 0, now);
}

/// The `no-reply` answers for `tokens`.
pub open spec fn no_replies(tokens: Seq<i32>) -> Seq<Response> {
    tokens.map_values(|t: i32| Response { token: t, kind: ResponseKind::NoReply })
}

/// The time left until `deadline`, zero when it has passed.
pub open spec fn time_left(deadline: u64, now: u64) -> u64 {
    if deadline > now {
        (deadline - now) as u64
    } else {
        0
    }
}

/// Microseconds since `departure`, zero when the clock reads earlier, saturated to `u32`.
pub open spec fn rtt_spec(departure: u64, now: u64) -> u32 {
    let d = time_left(now, departure);
    if d > u32::MAX {
        u32::MAX
    } else {
        d as u32
    }
}

/// The round-trip time in microseconds of a reply at `now` to a probe sent at `departure`:
/// monotonic and saturated.
pub fn rtt_us(departure: u64, now: u64) -> (r: u32)
    ensures
        r == rtt_spec(departure, now),
{
    if now <= departure {
        0
    } else if now - departure > u32::MAX as u64 {
        u32::MAX
    } else {
        (now - departure) as u32
    }
}

/// The deadline of a probe sent at `now` with a timeout of `timeout_s` seconds.
pub fn deadline_of(now: u64, timeout_s: i32) -> (r: u64)
    ensures
        r == deadline(now, timeout_s),
{
    if timeout_s > 0 {
        let add: u64 = timeout_s as u64 * MICROS_PER_SECOND;
        if now > u64::MAX - add {
            u64::MAX
        } else {
            now + add
        }
    } else {
        now
    }
}

impl ProbeTable {
    /// Well formed: at most `MAX_PROBES` probes.
    pub open spec fn wf(&self) -> bool {
        self.probes@.len() <= MAX_PROBES
    }

    pub fn new() -> (t: Self)
        ensures
            t.wf(),
            t.probes@.len() == 0,
            t.next_sequence == MIN_PORT,
    {
        ProbeTable { probes: Vec::new(), next_sequence: MIN_PORT }
    }

    pub fn len(&self) -> (r: usize)
        ensures
            r == self.probes@.len(),
    {
        self.probes.len()
    }

    pub fn is_empty(&self) -> (r: bool)
        ensures
            r == (self.probes@.len() == 0),
    {
        self.probes.len() == 0
    }

    /// Hands out the current sequence number, then advances it, wrapping past `MAX_PORT`.
    pub fn next_sequence(&mut self) -> (s: u16)
        ensures
            s == old(self).next_sequence,
            final(self).next_sequence == sequence_after(s),
            final(self).probes@ == old(self).probes@,
    {
        let s = self.next_sequence;
        self.next_sequence = if s == MAX_PORT {
            MIN_PORT
        } else {
            s + 1
        };
        s
    }

    /// Takes a new probe, sent at `now` with the given timeout; `None` when `MAX_PROBES` are
    /// outstanding. The probe has the next sequence number, protocol ICMP, unspecified
    /// addresses and no socket.
    pub fn alloc_probe(&mut self, token: i32, now: u64, timeout_s: i32) -> (r: Option<usize>)
        requires
            old(self).wf(),
        ensures
            final(self).wf(),
            old(self).probes@.len() >= MAX_PROBES ==> r is None && final(self).probes@ == old(self).probes@
                && final(self).next_sequence == old(self).next_sequence,
            old(self).probes@.len() < MAX_PROBES ==> {
                &&& r matches Some(i) && i == old(self).probes@.len()
                &&& final(self).probes@.len() == old(self).probes@.len() + 1
                &&& final(self).probes@.drop_last() == old(self).probes@
                &&& final(self).next_sequence == sequence_after(old(self).next_sequence)
                &&& final(self).probes@.last().token == token
                &&& final(self).probes@.last().sequence == old(self).next_sequence
                &&& final(self).probes@.last().protocol == Protocol::Icmp
                &&& final(self).probes@.last().remote == unspecified_addr()
                &&& final(self).probes@.last().local == unspecified_addr()
                &&& final(self).probes@.last().departure_us == now
                &&& final(self).probes@.last().timeout_at_us == deadline(now, timeout_s)
                &&& final(self).probes@.last().stream is None
            },
    {
        if self.probes.len() >= MAX_PROBES {
            return None;
        }
        let sequence = self.next_sequence();
        let timeout_at_us = deadline_of(now, timeout_s);
        let unspecified = SockAddr { ip: IpAddr::V4(Ipv4Addr { a: 0, b: 0, c: 0, d: 0 }), port: 0 };
        let ghost before = self.probes@;
        self.probes.push(
            Probe {
                token,
                sequence,
                protocol: Protocol::Icmp,
                remote: unspecified,
                local: unspecified,
                departure_us: now,
                timeout_at_us,
                stream: None,
            },
        );
        assert(self.probes@.drop_last() =~= before);
        Some(self.probes.len() - 1)
    }

    /// Frees probe `idx`: the last probe takes its place.
    pub fn remove(&mut self, idx: usize) -> (p: Probe)
        requires
            idx < old(self).probes@.len(),
        ensures
            p == old(self).probes@[idx as int],
            final(self).probes@ == swap_removed(old(self).probes@, idx as int),
            final(self).next_sequence == old(self).next_sequence,
    {
        self.probes.swap_remove(idx)
    }

    /// The first probe with sequence number `sequence`.
    pub fn find_by_sequence(&self, sequence: u16) -> (r: Option<usize>)
        ensures
            r matches Some(i) ==> i < self.probes@.len() && self.probes@[i as int].sequence == sequence
                && forall|j: int| 0 <= j < i ==> #[trigger] self.probes@[j].sequence != sequence,
            r is None ==> forall|j: int| 0 <= j < self.probes@.len() ==> #[trigger] self.probes@[j].sequence != sequence,
            r == find_from(self.probes@, sequence, 0),
    {
        let mut i: usize = 0;
        while i < self.probes.len()
            invariant
                i <= self.probes@.len(),
                find_from(self.probes@, sequence, 0) == find_from(self.probes@, sequence, i as int),
                forall|j: int| 0 <= j < i ==> #[trigger] self.probes@[j].sequence != sequence,
            decreases self.probes@.len() - i,
        {
            if self.probes[i].sequence == sequence {
                return Some(i);
            }
            i += 1;
        }
        assert(find_from(self.probes@, sequence, i as int) is None);
        None
    }

    /// Answers `no-reply` for every probe strictly past its deadline, and frees it.
    pub fn expire(&mut self, now: u64, out: &mut Vec<Response>)
        ensures
            final(self).probes@ == expire_run(old(self).probes@, 0, now).0,
            final(out)@ == old(out)@ + no_replies(expire_run(old(self).probes@, 0, now).1),
            final(self).next_sequence == old(self).next_sequence,
            forall|j: int| 0 <= j < final(self).probes@.len() ==> (#[trigger] final(self).probes@[j]).timeout_at_us >= now,
            final(self).probes@.len() + (final(out)@.len() - old(out)@.len()) == old(self).probes@.len(),
            forall|p: Probe| (#[trigger] final(self).probes@.to_multiset().count(p))
                == if p.timeout_at_us >= now { old(self).probes@.to_multiset().count(p) } else { 0 },
    {
        proof {
            lemma_expire_run(self.probes@, 0, now);
            lemma_expire_keeps_not_due(self.probes@, now);
        }
        let ghost start = self.probes@;
        let ghost mut reported: Seq<i32> = seq![];
        let mut i: usize = 0;
        while i < self.probes.len()
            invariant
                i <= self.probes@.len(),
                self.next_sequence == old(self).next_sequence,
                expire_run(start, 0, now) == (
                    expire_run(self.probes@, i as int, now).0,
                    reported + expire_run(self.probes@, i as int, now).1,
                ),
                out@ == old(out)@ + no_replies(reported),
            decreases self.probes@.len() - i,
        {
            if self.probes[i].timeout_at_us < now {
                let ghost before = self.probes@;
                let p = self.probes.swap_remove(i);
                proof {
                    let rest = expire_run(self.probes@, i as int, now);
                    assert(expire_run(before, i as int, now) == (rest.0, seq![p.token] + rest.1));
                    assert(reported + (seq![p.token] + rest.1) =~= reported.push(p.token) + rest.1);
                    reported = reported.push(p.token);
                }
                out.push(Response { token: p.token, kind: ResponseKind::NoReply });
                proof {
                    assert(no_replies(reported) =~= no_replies(reported.drop_last()).push(
                        Response { token: p.token, kind: ResponseKind::NoReply },
                    ));
                }
            } else {
                i += 1;
            }
        }
        proof {
            assert(expire_run(self.probes@, i as int, now) == (self.probes@, Seq::<i32>::empty()));
            assert(reported + Seq::<i32>::empty() =~= reported);
        }
    }

    /// The time left until the earliest deadline, zero when it has passed; `None` with no
    /// probe outstanding.
    pub fn next_timeout(&self, now: u64) -> (r: Option<u64>)
        ensures
            r is None <==> self.probes@.len() == 0,
            r matches Some(d) ==> (exists|i: int| 0 <= i < self.probes@.len() && d == time_left(#[trigger] self.probes@[i].timeout_at_us, now))
                && forall|i: int| 0 <= i < self.probes@.len() ==> d <= time_left(#[trigger] self.probes@[i].timeout_at_us, now),
    {
        if self.probes.len() == 0 {
            return None;
        }
        let mut best: u64 = if self.probes[0].timeout_at_us > now {
            self.probes[0].timeout_at_us - now
        } else {
            0
        };
        let ghost mut at: int = 0;
        let mut i: usize = 1;
        while i < self.probes.len()
            invariant
                1 <= i <= self.probes@.len(),
                0 <= at < i,
                best == time_left(self.probes@[at].timeout_at_us, now),
                forall|j: int| 0 <= j < i ==> best <= time_left(#[trigger] self.probes@[j].timeout_at_us, now),
            decreases self.probes@.len() - i,
        {
            let d: u64 = if self.probes[i].timeout_at_us > now {
                self.probes[i].timeout_at_us - now
            } else {
                0
            };
            if d < best {
                best = d;
                proof {
                    at = i as int;
                }
            }
            i += 1;
        }
        Some(best)
    }

    /// Records the protocol of probe `idx`.
    pub fn set_protocol(&mut self, idx: usize, protocol: Protocol)
        requires
            idx < old(self).probes@.len(),
        ensures
            final(self).probes@.len() == old(self).probes@.len(),
            final(self).next_sequence == old(self).next_sequence,
            final(self).probes@[idx as int].protocol == protocol,
            final(self).probes@[idx as int].token == old(self).probes@[idx as int].token,
            final(self).probes@[idx as int].sequence == old(self).probes@[idx as int].sequence,
            final(self).probes@[idx as int].departure_us == old(self).probes@[idx as int].departure_us,
            final(self).probes@[idx as int].timeout_at_us == old(self).probes@[idx as int].timeout_at_us,
            final(self).probes@[idx as int].remote == old(self).probes@[idx as int].remote,
            final(self).probes@[idx as int].local == old(self).probes@[idx as int].local,
            forall|j: int| 0 <= j < final(self).probes@.len() && j != idx ==> final(self).probes@[j] == old(self).probes@[j],
    {
        self.probes[idx].protocol = protocol;
    }

    /// Records the ports a probe's packet uses.
    pub fn set_ports(&mut self, idx: usize, local_port: u16, remote_port: u16)
        requires
            idx < old(self).probes@.len(),
        ensures
            final(self).probes@.len() == old(self).probes@.len(),
            final(self).next_sequence == old(self).next_sequence,
            final(self).probes@[idx as int].local == (SockAddr { port: local_port, ..old(self).probes@[idx as int].local }),
            final(self).probes@[idx as int].remote == (SockAddr { port: remote_port, ..old(self).probes@[idx as int].remote }),
            final(self).probes@[idx as int].token == old(self).probes@[idx as int].token,
            final(self).probes@[idx as int].sequence == old(self).probes@[idx as int].sequence,
            final(self).probes@[idx as int].protocol == old(self).probes@[idx as int].protocol,
            final(self).probes@[idx as int].departure_us == old(self).probes@[idx as int].departure_us,
            final(self).probes@[idx as int].timeout_at_us == old(self).probes@[idx as int].timeout_at_us,
            forall|j: int| 0 <= j < final(self).probes@.len() && j != idx ==> final(self).probes@[j] == old(self).probes@[j],
    {
        self.probes[idx].local.port = local_port;
        self.probes[idx].remote.port = remote_port;
    }

    /// Records the addresses a probe is sent between.
    pub fn set_addrs(&mut self, idx: usize, remote: SockAddr, local: SockAddr)
        requires
            idx < old(self).probes@.len(),
        ensures
            final(self).probes@.len() == old(self).probes@.len(),
            final(self).next_sequence == old(self).next_sequence,
            final(self).probes@[idx as int].remote == remote,
            final(self).probes@[idx as int].local == local,
            final(self).probes@[idx as int] == (Probe { remote: remote, local: local, ..old(self).probes@[idx as int] }),
            final(self).probes@[idx as int].token == old(self).probes@[idx as int].token,
            final(self).probes@[idx as int].sequence == old(self).probes@[idx as int].sequence,
            final(self).probes@[idx as int].protocol == old(self).probes@[idx as int].protocol,
            final(self).probes@[idx as int].departure_us == old(self).probes@[idx as int].departure_us,
            final(self).probes@[idx as int].timeout_at_us == old(self).probes@[idx as int].timeout_at_us,
            forall|j: int| 0 <= j < final(self).probes@.len() && j != idx ==> final(self).probes@[j] == old(self).probes@[j],
    {
        self.probes[idx].remote = remote;
        self.probes[idx].local = local;
    }

    /// A stream probe's source port was taken: it moves on to the next sequence number.
    pub fn retry_sequence(&mut self, idx: usize)
        requires
            idx < old(self).probes@.len(),
        ensures
            final(self).probes@.len() == old(self).probes@.len(),
            final(self).next_sequence == sequence_after(old(self).next_sequence),
            final(self).probes@[idx as int].sequence == old(self).next_sequence,
            final(self).probes@[idx as int] == (Probe { sequence: old(self).next_sequence, ..old(self).probes@[idx as int] }),
            final(self).probes@[idx as int].token == old(self).probes@[idx as int].token,
            final(self).probes@[idx as int].remote == old(self).probes@[idx as int].remote,
            final(self).probes@[idx as int].local == old(self).probes@[idx as int].local,
            forall|j: int| 0 <= j < final(self).probes@.len() && j != idx ==> final(self).probes@[j] == old(self).probes@[j],
    {
        let next = self.next_sequence();
        self.probes[idx].sequence = next;
    }

    /// A stream probe's connect is under way: it goes to `dest` from its sequence number, on
    /// `sock`.
    pub fn stream_started(&mut self, idx: usize, dest: SockAddr, sock: socket2::Socket)
        requires
            idx < old(self).probes@.len(),
        ensures
            final(self).probes@.len() == old(self).probes@.len(),
            final(self).next_sequence == old(self).next_sequence,
            final(self).probes@[idx as int].remote == dest,
            final(self).probes@[idx as int].local == (SockAddr {
                port: old(self).probes@[idx as int].sequence,
                ..old(self).probes@[idx as int].local
            }),
            final(self).probes@[idx as int].stream is Some,
            final(self).probes@[idx as int].token == old(self).probes@[idx as int].token,
            final(self).probes@[idx as int].sequence == old(self).probes@[idx as int].sequence,
            forall|j: int| 0 <= j < final(self).probes@.len() && j != idx ==> final(self).probes@[j] == old(self).probes@[j],
    {
        self.probes[idx].remote = dest;
        let seq = self.probes[idx].sequence;
        self.probes[idx].local.port = seq;
        self.probes[idx].stream = Some(sock);
    }

    /// Stamps probe `idx` as sent at `now`.
    pub fn set_departure(&mut self, idx: usize, now: u64)
        requires
            idx < old(self).probes@.len(),
        ensures
            final(self).probes@.len() == old(self).probes@.len(),
            final(self).next_sequence == old(self).next_sequence,
            final(self).probes@[idx as int].departure_us == now,
            final(self).probes@[idx as int].token == old(self).probes@[idx as int].token,
            final(self).probes@[idx as int].sequence == old(self).probes@[idx as int].sequence,
            final(self).probes@[idx as int].protocol == old(self).probes@[idx as int].protocol,
            final(self).probes@[idx as int].remote == old(self).probes@[idx as int].remote,
            final(self).probes@[idx as int].local == old(self).probes@[idx as int].local,
            final(self).probes@[idx as int].timeout_at_us == old(self).probes@[idx as int].timeout_at_us,
            forall|j: int| 0 <= j < final(self).probes@.len() && j != idx ==> final(self).probes@[j] == old(self).probes@[j],
    {
        self.probes[idx].departure_us = now;
    }

    /// Positions of the probes whose connect is under way, in table order.
    pub fn stream_indices(&self) -> (v: Vec<usize>)
        ensures
            forall|k: int| 0 <= k < v@.len() ==> (#[trigger] v@[k]) < self.probes@.len() && self.probes@[v@[k] as int].stream is Some,
            forall|k: int, l: int| 0 <= k < l < v@.len() ==> v@[k] < v@[l],
            forall|i: int| 0 <= i < self.probes@.len() && (#[trigger] self.probes@[i]).stream is Some ==> v@.contains(i as usize),
    {
        let mut v: Vec<usize> = Vec::new();
        let mut i: usize = 0;
        while i < self.probes.len()
            invariant
                i <= self.probes@.len(),
                forall|k: int| 0 <= k < v@.len() ==> (#[trigger] v@[k]) < i && self.probes@[v@[k] as int].stream is Some,
                forall|k: int, l: int| 0 <= k < l < v@.len() ==> v@[k] < v@[l],
                forall|j: int| 0 <= j < i && (#[trigger] self.probes@[j]).stream is Some ==> v@.contains(j as usize),
            decreases self.probes@.len() - i,
        {
            if self.probes[i].stream.is_some() {
                v.push(i);
                assert(v@[v@.len() - 1] == i);
            }
            i += 1;
        }
        v
    }
}

} // verus!
