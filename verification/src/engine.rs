//! The client's probing state machine: which hop is probed when, with which token and packet,
//! when a batch of probes ends, how replies and timeouts reach their hops, what the interactive
//! actions change, and when the run is over. Times are microseconds on a monotonic clock the
//! caller reads; the random packet size and bit pattern of a batch come in as draws, and the
//! floating-point means of a reply from the driver.
use vstd::prelude::*;

use crate::hop::{addr_index, hop_reset, no_reply_recorded, reply_recorded, Hop, HopError, Reply, UserAction};
use crate::ipaddr::IpAddr;
use crate::request::{low_byte, ProbeParams, ProbeParamsView, Protocol};
use crate::response::{ProbeResult, ResponseKind};
use crate::stats::{MeanUpdate, RTT_LIMIT};
use crate::{DEFAULT_NUMHOSTS, HISTORY_LEN, MAX_HOST, MAX_PATH, MAX_SEQUENCE, MIN_PACKET, MIN_SEQUENCE};

verus! {

broadcast use vstd::seq_lib::group_seq_properties;

/// Latest time the engine handles, so that deadlines stay within `u64`.
pub const TIME_LIMIT: u64 = 0x4000_0000_0000_0000;

/// The probing settings, times in microseconds.
#[derive(Debug, Clone, PartialEq, Eq)]
pub struct EngineConfig {
    pub protocol: Protocol,
    /// Time between cycles.
    pub interval_us: u64,
    /// Cycles before the grace period (report modes; interactive only when forced).
    pub max_ping: u32,
    pub interactive: bool,
    pub force_max_ping: bool,
    /// Negative: a random size in `[MIN_PACKET, -packet_size)` per batch.
    pub packet_size: i32,
    /// Negative: a random byte per batch.
    pub bit_pattern: i32,
    pub tos: u8,
    /// 0: unset.
    pub mark: u32,
    /// First TTL probed (at least 1).
    pub first_ttl: u8,
    pub max_ttl: u8,
    /// 0: unset.
    pub due_ttl: u8,
    pub max_unknown: u32,
    /// Sent to the helper in whole seconds.
    pub probe_timeout_s: u32,
    /// Grace period after the last cycle.
    pub grace_us: u64,
    /// Skip a hop that answered within this long.
    pub cache_timeout_us: Option<u64>,
    /// 0: unset.
    pub remote_port: u16,
    /// 0: unset.
    pub local_port: u16,
    /// Forwarded as `local-device`.
    pub interface: Option<String>,
    /// Report columns, by key.
    pub fields: String,
    /// Names are looked up.
    pub dns: bool,
    /// MPLS labels are shown.
    pub mpls: bool,
    /// Indices of the ip-info fields shown (0: the AS number); empty: none.
    pub ipinfo_fields: Vec<u8>,
}

/// What a token was sent for.
#[derive(Debug, Clone, Copy, PartialEq, Eq, Structural)]
pub struct SeqSlot {
    pub hop: u8,
    pub transit: bool,
    pub saved_seq: u32,
}

/// What happens to the engine.
#[derive(Debug, Clone, PartialEq, Eq)]
pub enum Event {
    /// Time advanced: send or expire whatever is due.
    Tick,
    /// A line from the helper, with the running mean, squared deviations and geometric mean
    /// that the reply brings its hop to (the driver computes them, in floating point, from the
    /// statistics of `Engine::reply_hop(token)`; they are not read for other kinds).
    Probe { token: i32, kind: ResponseKind, means: MeanUpdate },
    Action(UserAction),
}

/// What the engine asks of its driver.
#[derive(Debug, Clone, PartialEq, Eq)]
pub enum Command {
    SendProbe { token: i32, params: ProbeParams },
    /// A never-before-seen address answered: look up its name.
    Resolve(IpAddr),
    /// Deliver the next `Event::Tick` at this time (earlier if other events arrive).
    NextWake(u64),
    /// Cycles and grace period are over; the statistics are final.
    Finished,
}

/// `Command` by views.
pub enum CommandView {
    SendProbe { token: i32, params: ProbeParamsView },
    Resolve(IpAddr),
    NextWake(u64),
    Finished,
}

impl View for Command {
    type V = CommandView;

    open spec fn view(&self) -> CommandView {
        match self {
            Command::SendProbe { token, params } => CommandView::SendProbe { token: *token, params: params@ },
            Command::Resolve(a) => CommandView::Resolve(*a),
            Command::NextWake(t) => CommandView::NextWake(*t),
            Command::Finished => CommandView::Finished,
        }
    }
}

/// The views of commands.
pub open spec fn commands_view(v: Seq<Command>) -> Seq<CommandView> {
    v.map_values(|c: Command| c@)
}

/// The probing state machine.
pub struct Engine {
    pub cfg: EngineConfig,
    pub target: IpAddr,
    pub local: Option<IpAddr>,
    pub hops: Vec<Hop>,
    pub seqs: Vec<SeqSlot>,
    /// The next token; wraps inside `[MIN_SEQUENCE, MAX_SEQUENCE)`.
    pub next_sequence: u32,
    /// Hop index probed by the next `send_batch`.
    pub batch_at: usize,
    /// Pacing divisor: probes in the last completed batch.
    pub numhosts: u32,
    /// Completed batches.
    pub num_ping: u32,
    /// Packet size and bit pattern chosen at the start of the current batch.
    pub packet_size: i32,
    pub bit_pattern: i32,
    pub next_send: Option<u64>,
    pub grace_start: Option<u64>,
    pub finished: bool,
    pub paused: bool,
    pub started: u64,
}

/// The index of the first hop shown and probed: `first_ttl - 1`, with `first_ttl` at least 1.
pub open spec fn first_hop(cfg: EngineConfig) -> int {
    if cfg.first_ttl > 1 {
        cfg.first_ttl - 1
    } else {
        0
    }
}

/// The exclusive bound of the size draw of a batch.
pub open spec fn size_bound(packet_size: i32) -> int {
    if packet_size < 0 && -packet_size > MIN_PACKET {
        -packet_size - MIN_PACKET
    } else {
        0x1_0000_0000
    }
}

/// The packet size of a batch: fixed, or `MIN_PACKET` plus the draw below `-packet_size`.
pub open spec fn chosen_size(packet_size: i32, draw: u32) -> int {
    if packet_size >= 0 {
        packet_size as int
    } else if -packet_size <= MIN_PACKET {
        MIN_PACKET as int
    } else {
        MIN_PACKET + draw
    }
}

/// The bit pattern of a batch: fixed, or a random byte (kept as `-(256 + draw)`).
pub open spec fn chosen_pattern(bit_pattern: i32, draw: u32) -> int {
    if bit_pattern >= 0 {
        bit_pattern as int
    } else {
        -(256 + draw)
    }
}

/// The token after `s`.
pub open spec fn next_token(s: u32) -> u32 {
    if s + 1 >= MAX_SEQUENCE {
        MIN_SEQUENCE
    } else {
        (s + 1) as u32
    }
}

/// Tokens stay within `[MIN_SEQUENCE, MAX_SEQUENCE)`: the one after a token in that range is
/// in it too, one more unless it wraps.
pub proof fn lemma_next_token_in_range(s: u32)
    requires
        MIN_SEQUENCE <= s < MAX_SEQUENCE,
    ensures
        MIN_SEQUENCE <= next_token(s) < MAX_SEQUENCE,
        s + 1 < MAX_SEQUENCE ==> next_token(s) == s + 1,
{
}

/// `a - b`, zero when `b` is later.
pub open spec fn since(a: u64, b: u64) -> int {
    if a >= b {
        a - b
    } else {
        0
    }
}

/// Whether the cache skips hop `h`: it is up and answered within the cache timeout.
pub open spec fn cache_skips(cfg: EngineConfig, h: Hop, now: u64) -> bool {
    match (cfg.cache_timeout_us, h.seen) {
        (Some(t), Some(seen)) => h.up && since(now, seen) <= t,
        _ => false,
    }
}

/// What a probe of hop `at` asks the helper for.
pub open spec fn probe_for(e: Engine, at: int) -> ProbeParamsView {
    ProbeParamsView {
        target: e.target,
        local_ip: e.local,
        local_device: match e.cfg.interface {
            Some(d) => Some(d@),
            None => None,
        },
        protocol: e.cfg.protocol,
        size: Some(
            (if e.packet_size < 0 {
                if -e.packet_size > 65535 { 65535 } else { -e.packet_size }
            } else {
                if e.packet_size > 65535 { 65535 } else { e.packet_size as int }
            }) as u16,
        ),
        bit_pattern: Some((e.bit_pattern % 256) as u8),
        tos: Some(e.cfg.tos),
        ttl: Some((at + 1) as u8),
        timeout_s: Some(e.cfg.probe_timeout_s),
        port: if e.cfg.remote_port != 0 { Some(e.cfg.remote_port) } else { None },
        local_port: if e.cfg.local_port != 0 { Some(e.cfg.local_port) } else { None },
        mark: if e.cfg.mark != 0 { Some(e.cfg.mark) } else { None },
    }
}

/// The hops before `at` from `i` on: how many are unknown up to the first one that is the
/// target at or past the due TTL, and that one.
pub open spec fn scan_batch(hops: Seq<Hop>, target: IpAddr, due: int, i: int, at: int) -> (int, Option<int>)
    decreases at - i,
{
    if i >= at {
        (0, None)
    } else {
        let u: int = if hops[i].addr is None {
            1
        } else {
            0
        };
        if hops[i].addr == Some(target) && due <= i + 1 {
            (u, Some(i))
        } else {
            let (n, f) = scan_batch(hops, target, due, i + 1, at);
            (u + n, f)
        }
    }
}

/// Whether the batch ends at hop `at` by its own reasons: too many unknown hops before it or the
/// target reached (each only from the due TTL on), or the maximum TTL.
pub open spec fn ends_at(e: Engine, at: int) -> bool {
    let (unknown, _) = scan_batch(e.hops@, e.target, e.cfg.due_ttl as int, first_hop(e.cfg), at);
    ((unknown > e.cfg.max_unknown || e.hops@[at].addr == Some(e.target)) && e.cfg.due_ttl <= at + 1)
        || at + 1 >= e.cfg.max_ttl
}

/// The hop index after `max_hop`'s scan from `at` with the answer so far `max`.
pub open spec fn max_hop_from(hops: Seq<Hop>, target: IpAddr, at: int, lim: int, max: int) -> int
    decreases lim - at,
{
    if at >= lim {
        if max < lim {
            max
        } else {
            lim
        }
    } else if hops[at].addr == Some(target) || hops[at].err is Some {
        at + 1
    } else {
        max_hop_from(hops, target, at + 1, lim, if hops[at].addr is Some { at + 2 } else { max })
    }
}

/// `Hop::record_send`'s effect on a hop.
pub open spec fn hop_sent(h0: Hop, h1: Hop) -> bool {
    &&& h1.wf()
    &&& h1.stats.xmit == h0.stats.xmit + 1
    &&& h1.stats.transit == 1
    &&& h1.stats.returned == h0.stats.returned
    &&& h1.outstanding
    &&& h1.up == (h0.up && !h0.outstanding)
    &&& h1.addr == h0.addr
    &&& h1.err == h0.err
    &&& h1.seen == h0.seen
    &&& h1.addrs@ == h0.addrs@
}

/// The settings and the run state other than hops, tokens and pacing stay as they were.
pub open spec fn same_run(e0: Engine, e1: Engine) -> bool {
    &&& e1.cfg == e0.cfg
    &&& e1.target == e0.target
    &&& e1.local == e0.local
    &&& e1.num_ping == e0.num_ping
    &&& e1.next_send == e0.next_send
    &&& e1.grace_start == e0.grace_start
    &&& e1.finished == e0.finished
    &&& e1.paused == e0.paused
    &&& e1.started == e0.started
}

/// What `send_batch` does from `e0` (responses `out0`) to `e1` (`out1`), returning `ended`.
pub open spec fn batch_effect(
    e0: Engine,
    e1: Engine,
    out0: Seq<Command>,
    out1: Seq<Command>,
    now: u64,
    size_draw: u32,
    pattern_draw: u32,
    ended: bool,
) -> bool {
    let at = e0.batch_at as int;
    let first = first_hop(e0.cfg);
    let fresh = at < e0.cfg.first_ttl;
    let mid = Engine { packet_size: e1.packet_size, bit_pattern: e1.bit_pattern, ..e0 };
    let found = scan_batch(e0.hops@, e0.target, e0.cfg.due_ttl as int, first, at).1;
    let by_itself = ends_at(e0, at);
    &&& e1.packet_size == if fresh {
        chosen_size(e0.cfg.packet_size, size_draw) as i32
    } else {
        e0.packet_size
    }
    &&& e1.bit_pattern == if fresh {
        chosen_pattern(e0.cfg.bit_pattern, pattern_draw) as i32
    } else {
        e0.bit_pattern
    }
    &&& if cache_skips(e0.cfg, e0.hops@[at], now) {
        &&& e1.hops@ == e0.hops@
        &&& e1.next_sequence == e0.next_sequence
        &&& out1 == out0
    } else {
        &&& e1.next_sequence == next_token(e0.next_sequence)
        &&& e1.hops@.len() == e0.hops@.len()
        &&& hop_sent(e0.hops@[at], e1.hops@[at])
        &&& (forall|j: int| 0 <= j < MAX_HOST && j != at ==> e1.hops@[j] == e0.hops@[j])
        &&& commands_view(out1) == commands_view(out0).push(
            CommandView::SendProbe { token: e0.next_sequence as i32, params: probe_for(mid, at) },
        )
    }
    &&& ended == (found is Some || by_itself)
    &&& e1.numhosts == if by_itself {
        (at - first + 1) as u32
    } else if found is Some {
        (found->Some_0 - first + 1) as u32
    } else {
        e0.numhosts
    }
    &&& e1.batch_at == if ended {
        first
    } else {
        at + 1
    }
}

/// The hops with no probe in flight: a final unanswered probe counts as dropped.
pub open spec fn transit_ended(h0: Seq<Hop>, h1: Seq<Hop>) -> bool {
    &&& h1.len() == h0.len()
    &&& forall|i: int|
        0 <= i < h0.len() ==> (#[trigger] h1[i]).stats == (crate::stats::RttStats { transit: 0, ..h0[i].stats })
            && h1[i].addr == h0[i].addr && h1[i].err == h0[i].err && h1[i].addrs@ == h0[i].addrs@
            && h1[i].up == h0[i].up && h1[i].outstanding == h0[i].outstanding
}

/// When the engine wants its next tick: never while finished or paused; at the end of the grace
/// period once it began; else at the next send, or at once.
pub open spec fn next_wake_spec(e: Engine, now: u64) -> Option<u64> {
    if e.finished || e.paused {
        None
    } else if e.grace_start is Some {
        Some((e.grace_start->Some_0 + e.cfg.grace_us) as u64)
    } else if e.next_send is Some {
        e.next_send
    } else {
        Some(now)
    }
}

/// The time between two sends: the interval spread over the probes of the last batch.
pub open spec fn send_gap(e: Engine) -> int {
    e.cfg.interval_us as int / (if e.numhosts > 1 { e.numhosts as int } else { 1 })
}

/// Whether the cycles are done and the grace period is due to begin.
pub open spec fn cycles_over(e: Engine) -> bool {
    e.num_ping >= e.cfg.max_ping && (!e.cfg.interactive || e.cfg.force_max_ping)
}

/// What one tick does from `e0` (commands `out0`) to `e1` (`out1`).
pub open spec fn tick_effect(e0: Engine, e1: Engine, out0: Seq<Command>, out1: Seq<Command>, now: u64, draws: (u32, u32)) -> bool {
    if e0.finished || e0.paused {
        e1 == e0 && out1 == out0
    } else if e0.grace_start is Some {
        if since(now, e0.grace_start->Some_0) >= e0.cfg.grace_us {
            &&& e1.finished
            &&& transit_ended(e0.hops@, e1.hops@)
            &&& e1.num_ping == e0.num_ping
            &&& e1.grace_start == e0.grace_start
            &&& commands_view(out1) == commands_view(out0).push(CommandView::Finished)
        } else {
            e1 == e0 && out1 == out0
        }
    } else if e0.next_send matches Some(t) && now < t {
        e1 == e0 && out1 == out0
    } else if cycles_over(e0) {
        e1 == (Engine { grace_start: Some(now), ..e0 }) && out1 == out0
    } else {
        exists|ended: bool|
            {
                &&& batch_effect(e0, Engine { num_ping: e0.num_ping, next_send: e0.next_send, ..e1 }, out0, out1, now, draws.0, draws.1, ended)
                &&& same_run(e0, Engine { num_ping: e0.num_ping, next_send: e0.next_send, ..e1 })
                &&& e1.num_ping == if ended { (e0.num_ping + 1) as u32 } else { e0.num_ping }
                &&& e1.next_send == Some((now + send_gap(e1)) as u64)
            }
    }
}

/// The commands of a handled event: those of the event, then the next wake, if any.
pub open spec fn wake_last(c1: Seq<Command>, cmds: Seq<CommandView>, wake: Option<u64>) -> bool {
    cmds == commands_view(c1) + match wake {
        Some(t) => seq![CommandView::NextWake(t)],
        None => Seq::<CommandView>::empty(),
    }
}

/// The protocol after `p` when cycling: ICMP, UDP, TCP, then ICMP again.
pub open spec fn next_protocol(p: Protocol) -> Protocol {
    match p {
        Protocol::Icmp => Protocol::Udp,
        Protocol::Udp => Protocol::Tcp,
        _ => Protocol::Icmp,
    }
}

/// The settings after an action (`c0` before, `c1` after).
pub open spec fn config_after(c0: EngineConfig, c1: EngineConfig, a: UserAction) -> bool {
    match a {
        UserAction::ToggleDns => c1 == (EngineConfig { dns: !c0.dns, ..c0 }),
        UserAction::ToggleMpls => c1 == (EngineConfig { mpls: !c0.mpls, ..c0 }),
        UserAction::ToggleAsn => {
            &&& c1.ipinfo_fields@ == if c0.ipinfo_fields@.len() == 0 {
                seq![0u8]
            } else {
                Seq::<u8>::empty()
            }
            &&& (EngineConfig { ipinfo_fields: c0.ipinfo_fields, ..c1 }) == c0
        },
        UserAction::SetInterval(ms) => c1 == (EngineConfig { interval_us: (ms * 1000) as u64, ..c0 }),
        UserAction::SetPacketSize(n) => c1 == if n > i32::MIN {
            EngineConfig { packet_size: n, ..c0 }
        } else {
            c0
        },
        UserAction::SetBitPattern(n) => c1 == (EngineConfig { bit_pattern: n, ..c0 }),
        UserAction::SetTos(t) => c1 == (EngineConfig { tos: t, ..c0 }),
        UserAction::SetFirstTtl(f) => c1 == (EngineConfig {
            first_ttl: if f > c0.max_ttl {
                if c0.max_ttl < 1 { 1 } else { c0.max_ttl }
            } else if f < 1 {
                1
            } else {
                f
            },
            ..c0
        }),
        UserAction::SetMaxTtl(m) => c1 == (EngineConfig {
            max_ttl: if m < c0.first_ttl {
                c0.first_ttl
            } else {
                m
            },
            ..c0
        }),
        UserAction::SetFields(f) => c1.fields@ == f@ && (EngineConfig { fields: c0.fields, ..c1 }) == c0,
        UserAction::CycleProtocol => c1 == (EngineConfig { protocol: next_protocol(c0.protocol), ..c0 }),
        _ => c1 == c0,
    }
}

/// A fresh start of the statistics (`e0` before, `e1` after): every hop back to nothing known,
/// no token in transit, the next batch from the first hop, the pacing divisor back to its
/// default and the run's start now; the rest, settings aside, as it was.
pub open spec fn statistics_reset(e0: Engine, e1: Engine, now: u64) -> bool {
    &&& e1 == (Engine {
        cfg: e1.cfg,
        hops: e1.hops,
        seqs: e1.seqs,
        batch_at: e1.batch_at,
        numhosts: e1.numhosts,
        started: e1.started,
        ..e0
    })
    &&& e1.batch_at == first_hop(e1.cfg)
    &&& e1.numhosts == DEFAULT_NUMHOSTS
    &&& e1.started == now
    &&& e1.hops@.len() == e0.hops@.len()
    &&& forall|i: int| 0 <= i < e0.hops@.len() ==> hop_reset(#[trigger] e0.hops@[i], e1.hops@[i])
    &&& e1.seqs@.len() == e0.seqs@.len()
    &&& forall|j: int| 0 <= j < e0.seqs@.len() ==> (#[trigger] e1.seqs@[j]) == (SeqSlot { transit: false, ..e0.seqs@[j] })
}

/// What an interactive action does: pausing and resuming; a reset and a change of protocol start
/// the statistics afresh; a new first TTL moves the next probe up to it if it lies below; the
/// others change the settings only.
pub open spec fn action_effect(e0: Engine, e1: Engine, a: UserAction, now: u64) -> bool {
    match a {
        UserAction::Pause => e1 == (Engine { paused: true, ..e0 }),
        UserAction::Resume => e1 == (Engine { paused: false, ..e0 }),
        UserAction::Reset => config_after(e0.cfg, e1.cfg, a) && statistics_reset(e0, e1, now),
        UserAction::CycleProtocol => config_after(e0.cfg, e1.cfg, a) && statistics_reset(e0, e1, now),
        UserAction::SetFirstTtl(_) => config_after(e0.cfg, e1.cfg, a) && e1 == (Engine {
            cfg: e1.cfg,
            batch_at: if e0.batch_at < first_hop(e1.cfg) {
                first_hop(e1.cfg) as usize
            } else {
                e0.batch_at
            },
            ..e0
        }),
        _ => config_after(e0.cfg, e1.cfg, a) && e1 == (Engine { cfg: e1.cfg, ..e0 }),
    }
}

/// Whether `token` names a probe still in transit.
pub open spec fn in_transit(e: Engine, token: i32) -> bool {
    0 <= token < MAX_SEQUENCE && e.seqs@[token as int].transit
}

/// The error a reply leaves on its hop.
pub open spec fn reply_error(result: ProbeResult) -> Option<HopError> {
    match result {
        ProbeResult::NoRouteHost => Some(HopError::NoRouteHost),
        _ => None,
    }
}

/// A reply to a probe in transit stays within what the statistics hold: a round-trip time up to
/// `RTT_LIMIT` and room for one more reply at its hop.
pub open spec fn reply_fits(e: Engine, ev: Event) -> bool {
    match ev {
        Event::Probe { token, kind: ResponseKind::Probe { rtt_us, .. }, .. } => in_transit(e, token) ==> rtt_us <= RTT_LIMIT
            && e.hops@[e.seqs@[token as int].hop as int].stats.returned < i32::MAX,
        _ => true,
    }
}

/// What a line from the helper does (`e0` before, `e1` after, `c` the commands): a reply or a
/// timeout for a probe in transit ends its transit and is recorded at its hop, the hop's address
/// becoming the responder's, and an address new at that hop is to be resolved; anything else
/// changes nothing.
pub open spec fn probe_effect(e0: Engine, e1: Engine, c: Seq<Command>, token: i32, kind: ResponseKind, now: u64, means: MeanUpdate) -> bool {
    if !in_transit(e0, token) {
        e1 == e0 && c.len() == 0
    } else {
        let slot = e0.seqs@[token as int];
        let h = slot.hop as int;
        let rest = (Engine { hops: e0.hops, seqs: e0.seqs, ..e1 }) == e0 && e1.seqs@ == e0.seqs@.update(
            token as int,
            SeqSlot { transit: false, ..slot },
        );
        match kind {
            ResponseKind::Probe { result, addr, rtt_us, mpls } => {
                let new_addr = addr_index(e0.hops@[h].addrs@, addr, 0) is None && e0.hops@[h].addrs@.len() < MAX_PATH;
                {
                    &&& rest
                    &&& e1.hops@ == e0.hops@.update(h, e1.hops@[h])
                    &&& reply_recorded(
                        e0.hops@[h],
                        e1.hops@[h],
                        slot.saved_seq,
                        addr,
                        rtt_us,
                        mpls@,
                        reply_error(result),
                        now,
                        true,
                        e0.cfg.cache_timeout_us is Some,
                        means,
                        new_addr,
                    )
                    &&& commands_view(c) == if new_addr {
                        seq![CommandView::Resolve(addr)]
                    } else {
                        Seq::<CommandView>::empty()
                    }
                }
            },
            ResponseKind::NoReply => {
                &&& rest
                &&& e1.hops@ == e0.hops@.update(h, e1.hops@[h])
                &&& no_reply_recorded(e0.hops@[h], e1.hops@[h], slot.saved_seq)
                &&& c.len() == 0
            },
            _ => e1 == e0 && c.len() == 0,
        }
    }
}

/// A hop that ends the path: the target answered there, or it reported an error.
pub open spec fn ends_path(h: Hop, target: IpAddr) -> bool {
    h.addr == Some(target) || h.err is Some
}

/// The number of TTLs probed at most: the maximum TTL, capped at `MAX_HOST`.
pub open spec fn ttl_cap(cfg: EngineConfig) -> int {
    if cfg.max_ttl < MAX_HOST {
        cfg.max_ttl as int
    } else {
        MAX_HOST as int
    }
}

proof fn lemma_scan_end(hops: Seq<Hop>, target: IpAddr, at: int, lim: int, max: int, k: int)
    requires
        0 <= at <= k < lim,
        ends_path(hops[k], target),
        forall|j: int| at <= j < k ==> !ends_path(#[trigger] hops[j], target),
    ensures
        max_hop_from(hops, target, at, lim, max) == k + 1,
    decreases k - at,
{
    if at < k {
        assert(!ends_path(hops[at], target));
        lemma_scan_end(hops, target, at + 1, lim, if hops[at].addr is Some { at + 2 } else { max }, k);
    }
}

proof fn lemma_scan_none(hops: Seq<Hop>, target: IpAddr, at: int, lim: int, max: int)
    requires
        0 <= at <= lim,
        forall|j: int| at <= j < lim ==> !ends_path(#[trigger] hops[j], target) && hops[j].addr is None,
    ensures
        max_hop_from(hops, target, at, lim, max) == if max < lim { max } else { lim },
    decreases lim - at,
{
    if at < lim {
        assert(!ends_path(hops[at], target) && hops[at].addr is None);
        lemma_scan_none(hops, target, at + 1, lim, max);
    }
}

proof fn lemma_scan_last_known(hops: Seq<Hop>, target: IpAddr, at: int, lim: int, max: int, k: int)
    requires
        0 <= at <= k < lim,
        hops[k].addr is Some,
        forall|j: int| at <= j < lim ==> !ends_path(#[trigger] hops[j], target),
        forall|j: int| k < j < lim ==> (#[trigger] hops[j]).addr is None,
    ensures
        max_hop_from(hops, target, at, lim, max) == if k + 2 < lim { k + 2 } else { lim },
    decreases k - at,
{
    assert(!ends_path(hops[at], target));
    if at < k {
        lemma_scan_last_known(hops, target, at + 1, lim, if hops[at].addr is Some { at + 2 } else { max }, k);
    } else {
        lemma_scan_none(hops, target, at + 1, lim, k + 2);
    }
}

/// The path shown ends at the first hop, below the TTL cap, where the target answered or an
/// error was reported: `max_hop` is that hop's index plus one, whatever follows it.
pub proof fn lemma_max_hop_stops_at_first_end(e: Engine, k: int)
    requires
        e.wf(),
        0 <= k < ttl_cap(e.cfg),
        ends_path(e.hops@[k], e.target),
        forall|j: int| 0 <= j < k ==> !ends_path(#[trigger] e.hops@[j], e.target),
    ensures
        e.max_hop_spec() == k + 1,
{
    lemma_scan_end(e.hops@, e.target, 0, ttl_cap(e.cfg), 0, k);
}

/// With no hop below the TTL cap ending the path, the path shown runs one hop past the last
/// hop that answered, within the cap.
pub proof fn lemma_max_hop_past_last_known(e: Engine, k: int)
    requires
        e.wf(),
        0 <= k < ttl_cap(e.cfg),
        e.hops@[k].addr is Some,
        forall|j: int| 0 <= j < ttl_cap(e.cfg) ==> !ends_path(#[trigger] e.hops@[j], e.target),
        forall|j: int| k < j < ttl_cap(e.cfg) ==> (#[trigger] e.hops@[j]).addr is None,
    ensures
        e.max_hop_spec() == if k + 2 < ttl_cap(e.cfg) { k + 2 } else { ttl_cap(e.cfg) },
{
    lemma_scan_last_known(e.hops@, e.target, 0, ttl_cap(e.cfg), 0, k);
}

/// With no hop below the TTL cap known, nothing is shown: `max_hop` is zero.
pub proof fn lemma_max_hop_nothing_known(e: Engine)
    requires
        e.wf(),
        forall|j: int| 0 <= j < ttl_cap(e.cfg) ==> (#[trigger] e.hops@[j]).addr is None && e.hops@[j].err is None,
    ensures
        e.max_hop_spec() == 0,
{
    assert forall|j: int| 0 <= j < ttl_cap(e.cfg) implies !ends_path(#[trigger] e.hops@[j], e.target) && e.hops@[j].addr is None by {
        assert(e.hops@[j].addr is None && e.hops@[j].err is None);
    }
    lemma_scan_none(e.hops@, e.target, 0, ttl_cap(e.cfg), 0);
}

/// A reply or a timeout is taken once: the probe leaves transit, and the same line again
/// changes nothing and asks for nothing.
pub proof fn lemma_reply_taken_once(
    e0: Engine,
    e1: Engine,
    e2: Engine,
    c1: Seq<Command>,
    c2: Seq<Command>,
    token: i32,
    kind: ResponseKind,
    now1: u64,
    now2: u64,
    means1: MeanUpdate,
    means2: MeanUpdate,
)
    requires
        e0.wf(),
        kind is Probe || kind is NoReply,
        probe_effect(e0, e1, c1, token, kind, now1, means1),
        probe_effect(e1, e2, c2, token, kind, now2, means2),
    ensures
        !in_transit(e1, token),
        e2 == e1,
        c2.len() == 0,
{
    if in_transit(e0, token) {
        assert(e1.seqs@[token as int] == (SeqSlot { transit: false, ..e0.seqs@[token as int] }));
    }
}

impl Engine {
    /// Every hop slot there and well formed, one token slot per token, the next token in range,
    /// the hop of the next probe between the first hop and TTL 255, and the settings within
    /// what the arithmetic holds.
    pub open spec fn wf(&self) -> bool {
        &&& self.hops@.len() == MAX_HOST
        &&& forall|i: int| 0 <= i < MAX_HOST ==> (#[trigger] self.hops@[i]).wf()
        &&& self.seqs@.len() == MAX_SEQUENCE
        &&& MIN_SEQUENCE <= self.next_sequence < MAX_SEQUENCE
        &&& first_hop(self.cfg) <= self.batch_at <= 254
        &&& self.cfg.packet_size > i32::MIN
        &&& self.cfg.interval_us <= TIME_LIMIT
        &&& self.cfg.grace_us <= TIME_LIMIT
        &&& (self.grace_start matches Some(g) ==> g <= TIME_LIMIT)
        &&& (self.next_send matches Some(t) ==> t <= 2 * TIME_LIMIT)
        &&& self.numhosts >= 1
    }

    /// A hop can take one more probe.
    pub open spec fn room_at(&self, at: int) -> bool {
        self.hops@[at].stats.xmit < i32::MAX
    }

    /// `first_hop`, executable.
    pub fn min_hop(&self) -> (r: usize)
        ensures
            r == first_hop(self.cfg),
    {
        if self.cfg.first_ttl > 1 {
            (self.cfg.first_ttl - 1) as usize
        } else {
            0
        }
    }

    /// An engine that has sent nothing, for `target` (from `local`, when given), started at
    /// `now`.
    pub fn new(cfg: EngineConfig, target: IpAddr, local: Option<IpAddr>, now: u64) -> (e: Self)
        requires
            cfg.packet_size > i32::MIN,
            cfg.interval_us <= TIME_LIMIT,
            cfg.grace_us <= TIME_LIMIT,
        ensures
            e.wf(),
            e.cfg == cfg,
            e.target == target,
            e.local == local,
            forall|i: int| 0 <= i < MAX_HOST ==> (#[trigger] e.hops@[i]).addr is None && e.hops@[i].stats
                == crate::stats::RttStats::new_spec() && e.hops@[i].history.cap() == HISTORY_LEN,
            e.next_sequence == MIN_SEQUENCE,
            e.batch_at == first_hop(cfg),
            e.numhosts == DEFAULT_NUMHOSTS,
            e.num_ping == 0,
            e.packet_size == cfg.packet_size,
            e.bit_pattern == cfg.bit_pattern,
            e.next_send is None,
            e.grace_start is None,
            !e.finished,
            !e.paused,
            e.started == now,
    {
        let first: usize = if cfg.first_ttl > 1 {
            (cfg.first_ttl - 1) as usize
        } else {
            0
        };
        let mut hops: Vec<Hop> = Vec::new();
        while hops.len() < MAX_HOST
            invariant
                hops@.len() <= MAX_HOST,
                forall|i: int| 0 <= i < hops@.len() ==> (#[trigger] hops@[i]).wf() && hops@[i].addr is None
                    && hops@[i].stats == crate::stats::RttStats::new_spec() && hops@[i].history.cap() == HISTORY_LEN,
            decreases MAX_HOST - hops@.len(),
        {
            hops.push(Hop::new(HISTORY_LEN));
        }
        let mut seqs: Vec<SeqSlot> = Vec::new();
        while seqs.len() < MAX_SEQUENCE as usize
            invariant
                seqs@.len() <= MAX_SEQUENCE,
            decreases MAX_SEQUENCE - seqs@.len(),
        {
            seqs.push(SeqSlot { hop: 0, transit: false, saved_seq: 0 });
        }
        let packet_size = cfg.packet_size;
        let bit_pattern = cfg.bit_pattern;
        Engine {
            cfg,
            target,
            local,
            hops,
            seqs,
            next_sequence: MIN_SEQUENCE,
            batch_at: first,
            numhosts: DEFAULT_NUMHOSTS,
            num_ping: 0,
            packet_size,
            bit_pattern,
            next_send: None,
            grace_start: None,
            finished: false,
            paused: false,
            started: now,
        }
    }

    pub fn config(&self) -> (r: &EngineConfig)
        ensures
            *r == self.cfg,
    {
        &self.cfg
    }

    pub fn target(&self) -> (r: IpAddr)
        ensures
            r == self.target,
    {
        self.target
    }

    pub fn local(&self) -> (r: Option<IpAddr>)
        ensures
            r == self.local,
    {
        self.local
    }

    pub fn hops(&self) -> (r: &[Hop])
        ensures
            r@ == self.hops@,
    {
        self.hops.as_slice()
    }

    pub fn paused(&self) -> (r: bool)
        ensures
            r == self.paused,
    {
        self.paused
    }

    pub fn is_finished(&self) -> (r: bool)
        ensures
            r == self.finished,
    {
        self.finished
    }

    /// Completed batches.
    pub fn cycles_done(&self) -> (r: u32)
        ensures
            r == self.num_ping,
    {
        self.num_ping
    }

    pub fn started(&self) -> (r: u64)
        ensures
            r == self.started,
    {
        self.started
    }

    /// One past the last hop shown: the first hop (up to the maximum TTL) that is the target or
    /// reported an error ends the path; otherwise one past the hop after the last known one,
    /// capped at the maximum TTL.
    pub fn max_hop(&self) -> (r: usize)
        requires
            self.wf(),
        ensures
            r == max_hop_from(
                self.hops@,
                self.target,
                0,
                if self.cfg.max_ttl < MAX_HOST { self.cfg.max_ttl as int } else { MAX_HOST as int },
                0,
            ),
    {
        let lim: usize = if (self.cfg.max_ttl as usize) < MAX_HOST {
            self.cfg.max_ttl as usize
        } else {
            MAX_HOST
        };
        let mut max: usize = 0;
        let mut at: usize = 0;
        while at < lim
            invariant
                at <= lim <= MAX_HOST == self.hops@.len(),
                lim as int == (if self.cfg.max_ttl < MAX_HOST { self.cfg.max_ttl as int } else { MAX_HOST as int }),
                max <= at + 1,
                max_hop_from(self.hops@, self.target, 0, lim as int, 0) == max_hop_from(
                    self.hops@,
                    self.target,
                    at as int,
                    lim as int,
                    max as int,
                ),
            decreases lim - at,
        {
            let h = &self.hops[at];
            let is_target = match h.addr {
                Some(a) => a.same(&self.target),
                None => false,
            };
            if is_target || h.err.is_some() {
                assert(self.hops@[at as int].addr == Some(self.target) || self.hops@[at as int].err is Some);
                assert(max_hop_from(self.hops@, self.target, at as int, lim as int, max as int) == at + 1);
                return at + 1;
            }
            if h.addr.is_some() {
                max = at + 2;
            }
            at += 1;
        }
        if max < lim {
            max
        } else {
            lim
        }
    }

    /// The hops shown: from the first hop to `max_hop`, never below the first.
    pub fn display_range(&self) -> (r: (usize, usize))
        requires
            self.wf(),
        ensures
            r.0 == first_hop(self.cfg),
            r.1 == if self.max_hop_spec() > first_hop(self.cfg) { self.max_hop_spec() } else { first_hop(self.cfg) },
    {
        let lo = self.min_hop();
        let hi = self.max_hop();
        (lo, if hi > lo { hi } else { lo })
    }

    /// `max_hop`'s answer.
    pub open spec fn max_hop_spec(&self) -> int {
        max_hop_from(
            self.hops@,
            self.target,
            0,
            if self.cfg.max_ttl < MAX_HOST { self.cfg.max_ttl as int } else { MAX_HOST as int },
            0,
        )
    }

    /// Sends a probe to hop `at`: the next token, the hop's send counted, and a `SendProbe`
    /// with the batch's size and bit pattern and TTL `at + 1`.
    #[verifier::rlimit(50)]
    fn send_query(&mut self, at: usize, now: u64, out: &mut Vec<Command>)
        requires
            old(self).wf(),
            at <= 254,
            old(self).room_at(at as int),
        ensures
            final(self).wf(),
            same_run(*old(self), *final(self)),
            final(self).batch_at == old(self).batch_at,
            final(self).numhosts == old(self).numhosts,
            final(self).packet_size == old(self).packet_size,
            final(self).bit_pattern == old(self).bit_pattern,
            final(self).next_sequence == next_token(old(self).next_sequence),
            hop_sent(old(self).hops@[at as int], final(self).hops@[at as int]),
            forall|j: int| 0 <= j < MAX_HOST && j != at ==> final(self).hops@[j] == old(self).hops@[j],
            commands_view(final(out)@) == commands_view(old(out)@).push(
                CommandView::SendProbe { token: old(self).next_sequence as i32, params: probe_for(*old(self), at as int) },
            ),
    {
        let seq = self.next_sequence;
        self.next_sequence = if seq + 1 >= MAX_SEQUENCE {
            MIN_SEQUENCE
        } else {
            seq + 1
        };
        let saved = self.hops[at].record_send(now);
        self.seqs.set(seq as usize, SeqSlot { hop: at as u8, transit: true, saved_seq: saved });
        let mut p = ProbeParams::new(self.target);
        p.local_ip = self.local;
        p.protocol = self.cfg.protocol;
        let ps = self.packet_size;
        let magnitude: i64 = if ps < 0 {
            -(ps as i64)
        } else {
            ps as i64
        };
        p.size = Some(
            if magnitude > 65535 {
                65535u16
            } else {
                magnitude as u16
            },
        );
        p.bit_pattern = Some(low_byte(self.bit_pattern as i128));
        p.tos = Some(self.cfg.tos);
        p.ttl = Some((at + 1) as u8);
        p.timeout_s = Some(self.cfg.probe_timeout_s);
        if self.cfg.remote_port != 0 {
            p.port = Some(self.cfg.remote_port);
        }
        if self.cfg.local_port != 0 {
            p.local_port = Some(self.cfg.local_port);
        }
        if self.cfg.mark != 0 {
            p.mark = Some(self.cfg.mark);
        }
        p.local_device = match &self.cfg.interface {
            Some(d) => Some(d.clone()),
            None => None,
        };
        let ghost before = out@;
        out.push(Command::SendProbe { token: seq as i32, params: p });
        proof {
            assert(p@ == probe_for(*old(self), at as int));
            assert(commands_view(out@) =~= commands_view(before).push(out@.last()@));
        }
    }

    /// Probes one hop; true when this ended a batch. A batch starts at the first TTL with its
    /// packet size and bit pattern (drawn when negative); a hop the cache skips is not probed;
    /// the batch ends where the target is found past the due TTL, where too many hops are
    /// unknown, or at the maximum TTL, and the pacing divisor becomes the batch's length.
    #[verifier::rlimit(80)]
    pub fn send_batch(&mut self, now: u64, size_draw: u32, pattern_draw: u32, out: &mut Vec<Command>) -> (ended: bool)
        requires
            old(self).wf(),
            size_draw < size_bound(old(self).cfg.packet_size),
            pattern_draw < 256,
            old(self).room_at(old(self).batch_at as int),
        ensures
            final(self).wf(),
            same_run(*old(self), *final(self)),
            batch_effect(*old(self), *final(self), old(out)@, final(out)@, now, size_draw, pattern_draw, ended),
    {
        let first = self.min_hop();
        let at = self.batch_at;
        if at < self.cfg.first_ttl as usize {
            let ps = self.cfg.packet_size;
            self.packet_size = if ps < 0 {
                let m = -ps;
                if m <= MIN_PACKET {
                    MIN_PACKET
                } else {
                    MIN_PACKET + size_draw as i32
                }
            } else {
                ps
            };
            self.bit_pattern = if self.cfg.bit_pattern < 0 {
                -(256 + pattern_draw as i32)
            } else {
                self.cfg.bit_pattern
            };
        }
        let ghost old_hops = self.hops@;
        let skip = match (self.cfg.cache_timeout_us, self.hops[at].seen) {
            (Some(t), Some(seen)) => self.hops[at].up && (if now >= seen {
                now - seen
            } else {
                0
            }) <= t,
            _ => false,
        };
        if !skip {
            self.send_query(at, now, out);
        }
        let due = self.cfg.due_ttl as usize;
        let mut n_unknown: u32 = 0;
        let mut found: Option<usize> = None;
        let mut i: usize = first;
        let ghost target = self.target;
        while i < at
            invariant_except_break
                found is None,
                scan_batch(old_hops, target, due as int, first as int, at as int) == ({
                    let r = scan_batch(old_hops, target, due as int, i as int, at as int);
                    (n_unknown + r.0, r.1)
                }),
            invariant
                first <= i <= at <= 254,
                self.hops@.len() == MAX_HOST,
                old_hops.len() == MAX_HOST,
                self.target == target,
                due == self.cfg.due_ttl,
                forall|j: int| 0 <= j < at ==> self.hops@[j] == old_hops[j],
                n_unknown <= i,
            ensures
                found is None ==> scan_batch(old_hops, target, due as int, first as int, at as int) == (
                    n_unknown as int,
                    None::<int>,
                ),
                found matches Some(k) ==> first <= k < at && scan_batch(old_hops, target, due as int, first as int, at as int) == (
                    n_unknown as int,
                    Some(k as int),
                ),
            decreases at - i,
        {
            let h = &self.hops[i];
            if h.addr.is_none() {
                n_unknown = n_unknown + 1;
            }
            let is_target = match h.addr {
                Some(a) => a.same(&self.target),
                None => false,
            };
            if is_target && due <= i + 1 {
                found = Some(i);
                break;
            }
            i += 1;
        }
        let at_target = match self.hops[at].addr {
            Some(a) => a.same(&self.target),
            None => false,
        };
        let by_itself = ((n_unknown > self.cfg.max_unknown || at_target) && due <= at + 1) || at + 1 >= self.cfg.max_ttl as usize;
        let ended = found.is_some() || by_itself;
        if by_itself {
            self.numhosts = (at - first + 1) as u32;
        } else if let Some(k) = found {
            self.numhosts = (k - first + 1) as u32;
        }
        if ended {
            self.batch_at = first;
        } else {
            self.batch_at = at + 1;
        }
        ended
    }

    /// Ends every hop's probe in flight: a final unanswered probe counts as dropped.
    pub fn end_transit(&mut self)
        requires
            old(self).wf(),
        ensures
            final(self).wf(),
            transit_ended(old(self).hops@, final(self).hops@),
            same_run(*old(self), *final(self)),
            final(self).next_sequence == old(self).next_sequence,
            final(self).batch_at == old(self).batch_at,
            final(self).numhosts == old(self).numhosts,
            final(self).packet_size == old(self).packet_size,
            final(self).bit_pattern == old(self).bit_pattern,
    {
        let mut i: usize = 0;
        while i < self.hops.len()
            invariant
                i <= MAX_HOST == self.hops@.len(),
                self.wf(),
                same_run(*old(self), *self),
                self.next_sequence == old(self).next_sequence,
                self.batch_at == old(self).batch_at,
                self.numhosts == old(self).numhosts,
                self.packet_size == old(self).packet_size,
                self.bit_pattern == old(self).bit_pattern,
                self.seqs@.len() == old(self).seqs@.len(),
                forall|j: int|
                    0 <= j < i ==> (#[trigger] self.hops@[j]).stats == (crate::stats::RttStats { transit: 0, ..old(self).hops@[j].stats })
                        && self.hops@[j].addr == old(self).hops@[j].addr && self.hops@[j].err == old(self).hops@[j].err
                        && self.hops@[j].addrs@ == old(self).hops@[j].addrs@ && self.hops@[j].up == old(self).hops@[j].up
                        && self.hops@[j].outstanding == old(self).hops@[j].outstanding,
                forall|j: int| i <= j < MAX_HOST ==> self.hops@[j] == old(self).hops@[j],
            decreases MAX_HOST - i,
        {
            self.hops[i].stats.transit = 0;
            i += 1;
        }
    }

    fn finish(&mut self, out: &mut Vec<Command>)
        requires
            old(self).wf(),
        ensures
            final(self).wf(),
            final(self).finished,
            transit_ended(old(self).hops@, final(self).hops@),
            final(self).cfg == old(self).cfg,
            final(self).paused == old(self).paused,
            final(self).num_ping == old(self).num_ping,
            final(self).grace_start == old(self).grace_start,
            final(self).next_send == old(self).next_send,
            commands_view(final(out)@) == commands_view(old(out)@).push(CommandView::Finished),
    {
        self.finished = true;
        self.end_transit();
        let ghost before = out@;
        out.push(Command::Finished);
        assert(commands_view(out@) =~= commands_view(before).push(CommandView::Finished));
    }

    /// When the engine wants its next tick (see `next_wake_spec`).
    pub fn next_wake(&self, now: u64) -> (r: Option<u64>)
        requires
            self.wf(),
        ensures
            r == next_wake_spec(*self, now),
    {
        if self.finished || self.paused {
            return None;
        }
        match self.grace_start {
            Some(g) => Some(g + self.cfg.grace_us),
            None => match self.next_send {
                Some(t) => Some(t),
                None => Some(now),
            },
        }
    }

    /// Starts the statistics afresh (see `statistics_reset`), the settings kept.
    fn restart_statistics(&mut self, now: u64)
        requires
            old(self).wf(),
        ensures
            final(self).wf(),
            final(self).cfg == old(self).cfg,
            statistics_reset(*old(self), *final(self), now),
    {
        let mut i: usize = 0;
        while i < self.hops.len()
            invariant
                i <= MAX_HOST == self.hops@.len(),
                self.wf(),
                *self == (Engine { hops: self.hops, ..*old(self) }),
                forall|k: int| 0 <= k < i ==> hop_reset(#[trigger] old(self).hops@[k], self.hops@[k]),
                forall|k: int| i <= k < MAX_HOST ==> #[trigger] self.hops@[k] == old(self).hops@[k],
            decreases MAX_HOST - i,
        {
            self.hops[i].reset();
            i += 1;
        }
        let mut j: usize = 0;
        while j < self.seqs.len()
            invariant
                j <= MAX_SEQUENCE == self.seqs@.len(),
                self.wf(),
                *self == (Engine { hops: self.hops, seqs: self.seqs, ..*old(self) }),
                forall|k: int| 0 <= k < MAX_HOST ==> hop_reset(#[trigger] old(self).hops@[k], self.hops@[k]),
                forall|k: int| 0 <= k < j ==> (#[trigger] self.seqs@[k]) == (SeqSlot { transit: false, ..old(self).seqs@[k] }),
                forall|k: int| j <= k < MAX_SEQUENCE ==> #[trigger] self.seqs@[k] == old(self).seqs@[k],
            decreases MAX_SEQUENCE - j,
        {
            let slot = self.seqs[j];
            self.seqs.set(j, SeqSlot { transit: false, ..slot });
            j += 1;
        }
        self.batch_at = self.min_hop();
        self.numhosts = DEFAULT_NUMHOSTS;
        self.started = now;
    }

    /// `next_protocol`, executable.
    fn protocol_after(p: Protocol) -> (r: Protocol)
        ensures
            r == next_protocol(p),
    {
        match p {
            Protocol::Icmp => Protocol::Udp,
            Protocol::Udp => Protocol::Tcp,
            _ => Protocol::Icmp,
        }
    }

    /// An interactive action (see `action_effect`).
    fn on_action(&mut self, a: UserAction, now: u64)
        requires
            old(self).wf(),
        ensures
            final(self).wf(),
            action_effect(*old(self), *final(self), a, now),
    {
        match a {
            UserAction::Pause => self.paused = true,
            UserAction::Resume => self.paused = false,
            UserAction::Reset => self.restart_statistics(now),
            UserAction::CycleProtocol => {
                self.cfg.protocol = Self::protocol_after(self.cfg.protocol);
                self.restart_statistics(now);
            },
            UserAction::ToggleDns => self.cfg.dns = !self.cfg.dns,
            UserAction::ToggleMpls => self.cfg.mpls = !self.cfg.mpls,
            UserAction::ToggleAsn => {
                if self.cfg.ipinfo_fields.len() == 0 {
                    self.cfg.ipinfo_fields = vec![0u8];
                    assert(self.cfg.ipinfo_fields@ =~= seq![0u8]);
                } else {
                    self.cfg.ipinfo_fields = Vec::new();
                    assert(self.cfg.ipinfo_fields@ =~= Seq::<u8>::empty());
                }
            },
            UserAction::SetInterval(ms) => self.cfg.interval_us = ms as u64 * 1000,
            UserAction::SetPacketSize(n) => {
                if n > i32::MIN {
                    self.cfg.packet_size = n;
                }
            },
            UserAction::SetBitPattern(n) => self.cfg.bit_pattern = n,
            UserAction::SetTos(t) => self.cfg.tos = t,
            UserAction::SetFirstTtl(f) => {
                self.cfg.first_ttl = if f > self.cfg.max_ttl {
                    if self.cfg.max_ttl < 1 { 1 } else { self.cfg.max_ttl }
                } else if f < 1 {
                    1
                } else {
                    f
                };
                let first = self.min_hop();
                if self.batch_at < first {
                    self.batch_at = first;
                }
            },
            UserAction::SetMaxTtl(m) => {
                self.cfg.max_ttl = if m < self.cfg.first_ttl {
                    self.cfg.first_ttl
                } else {
                    m
                };
            },
            UserAction::SetFields(f) => self.cfg.fields = f,
        }
    }

    /// The hop a token's probe in transit was sent to.
    pub fn reply_hop(&self, token: i32) -> (r: Option<usize>)
        requires
            self.wf(),
        ensures
            r is Some <==> in_transit(*self, token),
            r matches Some(h) ==> h == self.seqs@[token as int].hop,
    {
        if token < 0 || token as u32 >= MAX_SEQUENCE {
            return None;
        }
        let slot = self.seqs[token as usize];
        if slot.transit {
            Some(slot.hop as usize)
        } else {
            None
        }
    }

    /// The error a reply leaves on its hop.
    fn reply_error_of(result: ProbeResult) -> (r: Option<HopError>)
        ensures
            r == reply_error(result),
    {
        match result {
            ProbeResult::NoRouteHost => Some(HopError::NoRouteHost),
            _ => None,
        }
    }

    /// A line from the helper (see `probe_effect`).
    fn on_probe(&mut self, token: i32, kind: ResponseKind, now: u64, means: MeanUpdate, out: &mut Vec<Command>)
        requires
            old(self).wf(),
            old(out)@.len() == 0,
            reply_fits(*old(self), Event::Probe { token, kind, means }),
        ensures
            final(self).wf(),
            probe_effect(*old(self), *final(self), final(out)@, token, kind, now, means),
    {
        let h = match self.reply_hop(token) {
            Some(h) => h,
            None => return,
        };
        let t = token as usize;
        let slot = self.seqs[t];
        match kind {
            ResponseKind::Probe { result, addr, rtt_us, mpls } => {
                self.seqs.set(t, SeqSlot { transit: false, ..slot });
                let cache = self.cfg.cache_timeout_us.is_some();
                let err = Self::reply_error_of(result);
                let ghost hops0 = self.hops@;
                let r = Reply {
                    saved_seq: slot.saved_seq,
                    from: addr,
                    rtt_us,
                    mpls: mpls.as_slice(),
                    err,
                    now,
                    overwrite_addr: true,
                    cache,
                };
                let new_addr = self.hops[h].record_reply(r, means);
                proof {
                    assert(self.hops@ =~= hops0.update(h as int, self.hops@[h as int]));
                }
                if new_addr {
                    out.push(Command::Resolve(addr));
                }
                proof {
                    if new_addr {
                        assert(commands_view(out@) =~= seq![CommandView::Resolve(addr)]);
                    } else {
                        assert(commands_view(out@) =~= Seq::<CommandView>::empty());
                    }
                }
            },
            ResponseKind::NoReply => {
                self.seqs.set(t, SeqSlot { transit: false, ..slot });
                let ghost hops0 = self.hops@;
                self.hops[h].record_no_reply(slot.saved_seq);
                proof {
                    assert(self.hops@ =~= hops0.update(h as int, self.hops@[h as int]));
                }
            },
            _ => {},
        }
    }

    /// One tick: nothing while finished or paused; during the grace period, finish once it is
    /// over; nothing before the next send is due; when the cycles are over, the grace period
    /// begins; otherwise one `send_batch`, a completed batch counted, and the next send one gap
    /// later.
    #[verifier::rlimit(80)]
    fn tick(&mut self, now: u64, draws: (u32, u32), out: &mut Vec<Command>)
        requires
            old(self).wf(),
            now <= TIME_LIMIT,
            draws.0 < size_bound(old(self).cfg.packet_size),
            draws.1 < 256,
            old(self).room_at(old(self).batch_at as int),
            old(self).num_ping < u32::MAX,
        ensures
            final(self).wf(),
            tick_effect(*old(self), *final(self), old(out)@, final(out)@, now, draws),
    {
        if self.finished || self.paused {
            return;
        }
        match self.grace_start {
            Some(g) => {
                let waited = if now >= g {
                    now - g
                } else {
                    0
                };
                if waited >= self.cfg.grace_us {
                    self.finish(out);
                }
                return;
            },
            None => {},
        }
        match self.next_send {
            Some(t) => {
                if now < t {
                    return;
                }
            },
            None => {},
        }
        if self.num_ping >= self.cfg.max_ping && (!self.cfg.interactive || self.cfg.force_max_ping) {
            self.grace_start = Some(now);
            return;
        }
        let ghost before = *self;
        let ended = self.send_batch(now, draws.0, draws.1, out);
        if ended {
            self.num_ping = self.num_ping + 1;
        }
        let divisor: u64 = if self.numhosts > 1 {
            self.numhosts as u64
        } else {
            1
        };
        self.next_send = Some(now + self.cfg.interval_us / divisor);
        assert(batch_effect(before, Engine { num_ping: before.num_ping, next_send: before.next_send, ..*self }, old(out)@, out@, now, draws.0, draws.1, ended));
    }

    /// Handles one event and returns what the driver is to do, the next wake last.
    pub fn handle(&mut self, ev: Event, now: u64, draws: (u32, u32)) -> (cmds: Vec<Command>)
        requires
            old(self).wf(),
            now <= TIME_LIMIT,
            draws.0 < size_bound(old(self).cfg.packet_size),
            draws.1 < 256,
            old(self).room_at(old(self).batch_at as int),
            old(self).num_ping < u32::MAX,
            reply_fits(*old(self), ev),
        ensures
            final(self).wf(),
            ({
                match ev {
                    Event::Tick => exists|e1: Engine, c1: Seq<Command>|
                        tick_effect(*old(self), e1, Seq::empty(), c1, now, draws) && *final(self) == e1 && wake_last(
                            c1,
                            commands_view(cmds@),
                            next_wake_spec(e1, now),
                        ),
                    Event::Probe { token, kind, means } => exists|c1: Seq<Command>|
                        probe_effect(*old(self), *final(self), c1, token, kind, now, means) && wake_last(
                            c1,
                            commands_view(cmds@),
                            next_wake_spec(*final(self), now),
                        ),
                    Event::Action(a) => action_effect(*old(self), *final(self), a, now) && wake_last(
                        Seq::empty(),
                        commands_view(cmds@),
                        next_wake_spec(*final(self), now),
                    ),
                }
            }),
    {
        let mut out: Vec<Command> = Vec::new();
        assert(out@ =~= Seq::<Command>::empty());
        match ev {
            Event::Tick => self.tick(now, draws, &mut out),
            Event::Probe { token, kind, means } => self.on_probe(token, kind, now, means, &mut out),
            Event::Action(a) => self.on_action(a, now),
        }
        let ghost c1 = out@;
        let ghost e1 = *self;
        if let Some(t) = self.next_wake(now) {
            out.push(Command::NextWake(t));
        }
        proof {
            assert(commands_view(out@) =~= commands_view(c1) + match next_wake_spec(e1, now) {
                Some(t) => seq![CommandView::NextWake(t)],
                None => Seq::<CommandView>::empty(),
            });
            assert(wake_last(c1, commands_view(out@), next_wake_spec(e1, now)));
            if ev is Tick {
                assert(tick_effect(*old(self), e1, Seq::empty(), c1, now, draws));
                assert(*self == e1);
            }
        }
        out
    }
}

} // verus!
