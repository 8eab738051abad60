use mtr_rs::engine::{Command, Engine, EngineConfig, Event};
use mtr_rs::hop::UserAction;
use mtr_rs::ipaddr::IpAddr;
use mtr_rs::request::{ProbeParams, Protocol};

const MS: u64 = 1_000;
const S: u64 = 1_000_000;

fn ip(s: &str) -> IpAddr {
    IpAddr::parse_text(s).unwrap()
}

fn defaults() -> EngineConfig {
    EngineConfig {
        protocol: Protocol::Icmp,
        interval_us: S,
        max_ping: 10,
        interactive: true,
        force_max_ping: false,
        packet_size: 64,
        bit_pattern: 0,
        tos: 0,
        mark: 0,
        first_ttl: 1,
        max_ttl: 30,
        due_ttl: 0,
        max_unknown: 12,
        probe_timeout_s: 10,
        grace_us: 5 * S,
        cache_timeout_us: None,
        remote_port: 0,
        local_port: 0,
        interface: None,
        fields: "LS NABWV".to_string(),
        dns: true,
        mpls: false,
        ipinfo_fields: Vec::new(),
    }
}

fn cfg() -> EngineConfig {
    EngineConfig { interactive: false, ..defaults() }
}

fn engine(c: EngineConfig) -> (Engine, u64) {
    let t0 = 1_000;
    (Engine::new(c, ip("192.0.2.10"), Some(ip("192.0.2.1")), t0), t0)
}

fn sends(cmds: &[Command]) -> Vec<(i32, ProbeParams)> {
    cmds.iter()
        .filter_map(|c| match c {
            Command::SendProbe { token, params } => Some((*token, params.clone())),
            _ => None,
        })
        .collect()
}

fn wake(cmds: &[Command]) -> u64 {
    cmds.iter()
        .find_map(|c| match c {
            Command::NextWake(t) => Some(*t),
            _ => None,
        })
        .expect("a running engine always schedules a wake")
}

fn tick(e: &mut Engine, now: u64) -> Vec<Command> {
    e.handle(Event::Tick, now, (0, 0))
}

#[test]
fn first_tick_sends_ttl_one_with_c_field_values() {
    let (mut e, t0) = engine(cfg());
    let cmds = tick(&mut e, t0);
    let s = sends(&cmds);
    assert_eq!(s.len(), 1);
    let (token, p) = &s[0];
    assert_eq!(*token, 33000);
    assert_eq!(p.target, ip("192.0.2.10"));
    assert_eq!(p.local_ip, Some(ip("192.0.2.1")));
    assert_eq!((p.ttl, p.size, p.bit_pattern, p.tos, p.timeout_s), (Some(1), Some(64), Some(0), Some(0), Some(10)));
    assert_eq!((p.port, p.local_port, p.mark, &p.local_device), (None, None, None, &None));
    assert_eq!(wake(&cmds), t0 + 100 * MS);
    assert_eq!(e.hops()[0].stats.xmit, 1);
}

#[test]
fn early_tick_sends_nothing_and_keeps_the_wake() {
    let (mut e, t0) = engine(cfg());
    tick(&mut e, t0);
    let cmds = tick(&mut e, t0 + 50 * MS);
    assert!(sends(&cmds).is_empty());
    assert_eq!(wake(&cmds), t0 + 100 * MS);
}

#[test]
fn optional_fields_are_forwarded_when_set() {
    let c = EngineConfig {
        remote_port: 443,
        local_port: 40000,
        mark: 9,
        interface: Some("eth0".into()),
        tos: 16,
        probe_timeout_s: 3,
        protocol: Protocol::Tcp,
        ..cfg()
    };
    let (mut e, t0) = engine(c);
    let p = sends(&tick(&mut e, t0))[0].1.clone();
    assert_eq!((p.port, p.local_port, p.mark, p.tos, p.timeout_s), (Some(443), Some(40000), Some(9), Some(16), Some(3)));
    assert_eq!(p.local_device.as_deref(), Some("eth0"));
    assert_eq!(p.protocol, Protocol::Tcp);
}

#[test]
fn batch_ends_at_max_ttl_and_numhosts_shrinks() {
    let (mut e, t0) = engine(EngineConfig { max_ttl: 3, ..cfg() });
    let mut now = t0;
    for ttl in 1..=3u8 {
        let cmds = tick(&mut e, now);
        assert_eq!(sends(&cmds)[0].1.ttl, Some(ttl));
        now = wake(&cmds);
    }
    assert_eq!(e.cycles_done(), 1);
    assert_eq!(now - (t0 + 200 * MS), S / 3, "the third probe completed a 3-probe batch");
    let cmds = tick(&mut e, now);
    assert_eq!(sends(&cmds)[0].1.ttl, Some(1));
}

#[test]
fn max_unknown_ends_the_batch() {
    let (mut e, t0) = engine(EngineConfig { max_unknown: 2, ..cfg() });
    let mut now = t0;
    let mut ttls = Vec::new();
    for _ in 0..5 {
        let cmds = tick(&mut e, now);
        ttls.push(sends(&cmds)[0].1.ttl.unwrap());
        now = wake(&cmds);
    }
    assert_eq!(ttls, vec![1, 2, 3, 4, 1]);
    assert_eq!(e.cycles_done(), 1);
}

#[test]
fn tokens_increment_and_wrap_at_65536() {
    let (mut e, t0) = engine(EngineConfig { max_ttl: 1, max_ping: u32::MAX, ..cfg() });
    let mut now = t0;
    let mut last = 0;
    for i in 0..32540 {
        let cmds = tick(&mut e, now);
        let s = sends(&cmds);
        assert_eq!(s.len(), 1);
        last = s[0].0;
        if i == 0 {
            assert_eq!(last, 33000);
        }
        now = wake(&cmds);
    }
    assert_eq!(last, 33003);
}

#[test]
fn random_size_and_pattern_are_chosen_once_per_batch() {
    let (mut e, t0) = engine(EngineConfig { packet_size: -100, bit_pattern: -1, max_ttl: 2, ..cfg() });
    let a = sends(&e.handle(Event::Tick, t0, (40, 7)))[0].1.clone();
    let b = sends(&e.handle(Event::Tick, t0 + 100 * MS, (3, 200)))[0].1.clone();
    assert_eq!(a.size, Some(28 + 40));
    assert_eq!(a.size, b.size);
    assert_eq!(a.bit_pattern, b.bit_pattern);
    assert_eq!(a.bit_pattern, Some(((-(256 + 7)) & 0xff) as u8));
}

#[test]
fn paused_engine_sends_nothing_and_schedules_no_wake() {
    let (mut e, t0) = engine(defaults());
    tick(&mut e, t0);
    let cmds = e.handle(Event::Action(UserAction::Pause), t0, (0, 0));
    assert!(!cmds.iter().any(|c| matches!(c, Command::NextWake(_))));
    assert!(e.paused());
    let cmds = tick(&mut e, t0 + 100 * MS);
    assert!(sends(&cmds).is_empty());
    let cmds = e.handle(Event::Action(UserAction::Resume), t0 + 150 * MS, (0, 0));
    assert_eq!(wake(&cmds), t0 + 100 * MS);
    let cmds = tick(&mut e, t0 + 200 * MS);
    assert_eq!(sends(&cmds).len(), 1);
}

#[test]
fn pause_freezes_the_grace_countdown_like_select_c() {
    let (mut e, t0) = engine(EngineConfig { max_ttl: 1, max_ping: 1, force_max_ping: true, grace_us: 500 * MS, ..defaults() });
    let t1 = wake(&tick(&mut e, t0));
    tick(&mut e, t1);
    let cmds = e.handle(Event::Action(UserAction::Pause), t1, (0, 0));
    assert!(!cmds.iter().any(|c| matches!(c, Command::NextWake(_))));
    let cmds = tick(&mut e, t1 + 5 * S);
    assert!(!cmds.contains(&Command::Finished), "paused: the grace clock is not consulted");
    let cmds = e.handle(Event::Action(UserAction::Resume), t1 + 5 * S, (0, 0));
    assert_eq!(wake(&cmds), t1 + 500 * MS);
    let cmds = tick(&mut e, t1 + 5 * S);
    assert!(cmds.contains(&Command::Finished));
    assert!(e.is_finished());
    assert_eq!(e.hops()[0].stats.transit, 0, "a final probe in flight counts as dropped");
}

#[test]
fn non_positive_timing_values_do_not_panic() {
    let (mut e, t0) = engine(EngineConfig { interval_us: 0, grace_us: 0, max_ttl: 1, max_ping: 1, ..cfg() });
    let t1 = wake(&tick(&mut e, t0));
    assert_eq!(t1, t0, "a zero interval means 'send immediately'");
    tick(&mut e, t1);
    let cmds = tick(&mut e, t1);
    assert!(cmds.contains(&Command::Finished));
}

#[test]
fn the_target_ends_the_path_and_the_range_shown() {
    let (e, _) = engine(EngineConfig { first_ttl: 3, ..cfg() });
    assert_eq!(e.min_hop(), 2);
    assert_eq!(e.max_hop(), 0);
    assert_eq!(e.display_range(), (2, 2));
}

use mtr_rs::response::{ProbeResult, ResponseKind};
use mtr_rs::stats::{MeanUpdate, RttStats};
use mtr_rs::MAX_PATH;

/// The mean, squared deviations and geometric mean a reply of `rtt` brings `s` to, in floating
/// point as the driver computes them.
fn means_after(s: &RttStats, rtt: i32) -> MeanUpdate {
    let first = s.returned < 1;
    let (avg0, ssd0, gmean0) = if first { (0, 0, rtt) } else { (s.avg, s.ssd, s.gmean) };
    let returned = s.returned + 1;
    let avg = (f64::from(avg0) + f64::from(rtt - avg0) / f64::from(returned)) as i32;
    let ssd = (ssd0 as f64 + f64::from(rtt - avg0) * f64::from(rtt - avg)) as i64;
    let gmean = if returned > 1 {
        let n = f64::from(returned);
        (f64::from(gmean0).powf((n - 1.0) / n) * f64::from(rtt).powf(1.0 / n)) as i32
    } else {
        gmean0
    };
    MeanUpdate { avg, ssd, gmean }
}

/// Loss in thousandths of a percent, the probe in flight excluded.
fn loss(s: &RttStats) -> i32 {
    let denominator = s.xmit - s.transit;
    if denominator == 0 {
        return 0;
    }
    (1000.0 * (100.0 - 100.0 * f64::from(s.returned) / f64::from(denominator))) as i32
}

fn answer(e: &mut Engine, token: i32, result: ProbeResult, from: IpAddr, rtt_us: u32, now: u64) -> Vec<Command> {
    let means = match e.reply_hop(token) {
        Some(h) => means_after(&e.hops()[h].stats, rtt_us as i32),
        None => MeanUpdate { avg: 0, ssd: 0, gmean: 0 },
    };
    let kind = ResponseKind::Probe { result, addr: from, rtt_us, mpls: vec![] };
    e.handle(Event::Probe { token, kind, means }, now, (0, 0))
}

fn reply(e: &mut Engine, token: i32, from: &str, rtt_us: u32, now: u64) -> Vec<Command> {
    answer(e, token, ProbeResult::TtlExpired, ip(from), rtt_us, now)
}

/// Drives the engine until it finishes, answering each probe through `path(ttl)` (`None`: the
/// probe is lost); time jumps to every wake. Returns the time it finished.
fn run_to_finish(e: &mut Engine, t0: u64, mut path: impl FnMut(u8) -> Option<(IpAddr, u32)>) -> u64 {
    let mut now = t0;
    loop {
        let cmds = tick(e, now);
        let mut next = None;
        for c in cmds {
            match c {
                Command::SendProbe { token, params } => {
                    if let Some((from, rtt_us)) = path(params.ttl.unwrap()) {
                        let result = if from == e.target() { ProbeResult::Reply } else { ProbeResult::TtlExpired };
                        answer(e, token, result, from, rtt_us, now);
                    }
                }
                Command::NextWake(t) => next = Some(t),
                Command::Finished => return now,
                Command::Resolve(_) => {}
            }
        }
        now = next.expect("a running engine always schedules a wake");
    }
}

fn three_hop_path(ttl: u8) -> Option<(IpAddr, u32)> {
    match ttl {
        1 => Some((ip("10.0.0.1"), 500)),
        2 => None,
        _ => Some((ip("192.0.2.10"), 2500)),
    }
}

#[test]
fn a_hop_remembers_at_most_max_path_addresses() {
    let (mut e, t0) = engine(EngineConfig { max_ttl: 1, max_ping: u32::MAX, ..defaults() });
    let mut now = t0;
    for i in 0..(MAX_PATH + 10) {
        let cmds = tick(&mut e, now);
        let token = sends(&cmds)[0].0;
        let from = format!("10.{}.{}.1", i / 256, i % 256);
        reply(&mut e, token, &from, 100, now);
        now = wake(&cmds);
    }
    let h = &e.hops()[0];
    assert_eq!(h.addrs.len(), MAX_PATH);
    assert_eq!(h.stats.returned as usize, MAX_PATH + 10, "stats still count every reply");
    assert_eq!(h.addr, Some(ip("10.0.137.1")), "addr follows the latest responder");
}

#[test]
fn linear_discovery_two_cycles() {
    let (mut e, t0) = engine(EngineConfig { interactive: false, max_ping: 2, ..defaults() });
    let end = run_to_finish(&mut e, t0, three_hop_path);

    assert_eq!(e.cycles_done(), 2);
    assert_eq!(e.display_range(), (0, 3));
    let h = e.hops();
    assert_eq!((h[0].stats.xmit, h[0].stats.returned, h[0].avg()), (2, 2, 500));
    assert_eq!((h[1].stats.xmit, h[1].stats.returned, loss(&h[1].stats)), (2, 0, 100_000));
    assert_eq!((h[2].stats.xmit, h[2].stats.returned, h[2].avg()), (2, 2, 2500));
    assert_eq!(h[3].stats.xmit, 1, "one hop past the target is probed during discovery");
    assert!(h.iter().all(|h| h.stats.transit == 0), "end_transit ran");
    let elapsed = (end - t0) as f64 / 1e6;
    assert!((elapsed - (0.3 + 1.0 / 3.0 + 2.0 / 3.0 + 1.0 / 3.0 + 5.0)).abs() < 1e-3, "{elapsed}");
}

#[test]
fn all_lost_path_stops_at_max_unknown_and_reports_loss() {
    let (mut e, t0) = engine(EngineConfig {
        interactive: false,
        max_ping: 1,
        max_unknown: 3,
        grace_us: S,
        ..defaults()
    });
    run_to_finish(&mut e, t0, |_| None);
    assert_eq!(e.hops().iter().filter(|h| h.stats.xmit == 1).count(), 5);
    assert_eq!(e.display_range(), (0, 0), "nothing known => nothing to display");
    assert_eq!(loss(&e.hops()[0].stats), 100_000);
}

#[test]
fn cache_skips_a_hop_that_answered_recently() {
    let (mut e, t0) = engine(EngineConfig { max_ttl: 1, cache_timeout_us: Some(60 * S), ..defaults() });
    let cmds = tick(&mut e, t0);
    let token = sends(&cmds)[0].0;
    answer(&mut e, token, ProbeResult::Reply, ip("192.0.2.10"), 100, t0);
    let cmds = tick(&mut e, t0 + S);
    assert!(!cmds.iter().any(|c| matches!(c, Command::SendProbe { .. })), "recently seen: skipped");
    assert_eq!(e.cycles_done(), 2, "a skipped hop still completes the batch");
    let cmds = tick(&mut e, t0 + 62 * S);
    assert!(cmds.iter().any(|c| matches!(c, Command::SendProbe { .. })), "cache expired: probed again");
}

#[test]
fn first_ttl_offsets_the_batch_and_the_display_range() {
    let (mut e, t0) = engine(EngineConfig { interactive: false, max_ping: 1, first_ttl: 3, ..defaults() });
    let mut seen = Vec::new();
    run_to_finish(&mut e, t0, |ttl| {
        seen.push(ttl);
        three_hop_path(ttl)
    });
    assert_eq!(seen.first(), Some(&3), "the first probe uses the first TTL");
    assert_eq!(e.display_range(), (2, 3));
    assert_eq!((e.hops()[0].stats.xmit, e.hops()[1].stats.xmit), (0, 0));
    assert_eq!(e.hops()[2].stats.xmit, 1);
}

#[test]
fn a_reply_is_recorded_once_and_a_timeout_marks_the_sample_lost() {
    let (mut e, t0) = engine(EngineConfig { max_ttl: 2, ..defaults() });
    let cmds = tick(&mut e, t0);
    let token = sends(&cmds)[0].0;
    assert_eq!(e.reply_hop(token), Some(0));
    let out = reply(&mut e, token, "10.0.0.1", 700, t0);
    assert!(matches!(out[0], Command::Resolve(a) if a == ip("10.0.0.1")), "a new address is resolved");
    assert_eq!(e.hops()[0].stats.returned, 1);
    assert_eq!(e.reply_hop(token), None, "the token left transit");
    let out = reply(&mut e, token, "10.0.0.1", 700, t0);
    assert!(!out.iter().any(|c| matches!(c, Command::Resolve(_))));
    assert_eq!(e.hops()[0].stats.returned, 1, "a second answer is ignored");
    let cmds = tick(&mut e, wake(&cmds));
    let token = sends(&cmds)[0].0;
    let hop = e.reply_hop(token).unwrap();
    let means = MeanUpdate { avg: 0, ssd: 0, gmean: 0 };
    e.handle(Event::Probe { token, kind: ResponseKind::NoReply, means }, t0, (0, 0));
    assert_eq!(e.reply_hop(token), None);
    assert_eq!(e.hops()[hop].stats.returned, if hop == 0 { 1 } else { 0 });
}

fn act(e: &mut Engine, a: UserAction, now: u64) -> Vec<Command> {
    e.handle(Event::Action(a), now, (0, 0))
}

#[test]
fn toggle_mpls_size_pattern_tos_and_fields_only_change_config() {
    let (mut e, t0) = engine(defaults());
    tick(&mut e, t0);
    reply(&mut e, 33000, "10.0.0.1", 100, t0);
    act(&mut e, UserAction::ToggleMpls, t0);
    assert!(e.config().mpls);
    act(&mut e, UserAction::SetPacketSize(-200), t0);
    act(&mut e, UserAction::SetBitPattern(-1), t0);
    act(&mut e, UserAction::SetTos(0x10), t0);
    act(&mut e, UserAction::SetFields("DR AGJMXI".to_string()), t0);
    let c = e.config();
    assert_eq!((c.packet_size, c.bit_pattern, c.tos), (-200, -1, 0x10));
    assert_eq!(c.fields, "DR AGJMXI");
    assert_eq!(e.hops()[0].stats.returned, 1, "no statistics reset");
}

#[test]
fn new_size_and_tos_reach_the_next_batch() {
    let (mut e, t0) = engine(EngineConfig { max_ttl: 1, ..defaults() });
    let t1 = wake(&tick(&mut e, t0));
    act(&mut e, UserAction::SetPacketSize(100), t1);
    act(&mut e, UserAction::SetTos(7), t1);
    let p = sends(&tick(&mut e, t1))[0].1.clone();
    assert_eq!((p.size, p.tos), (Some(100), Some(7)));
}

#[test]
fn set_max_ttl_clamps_to_first_ttl_and_shortens_the_batch() {
    let (mut e, t0) = engine(EngineConfig { first_ttl: 3, ..defaults() });
    act(&mut e, UserAction::SetMaxTtl(1), t0);
    assert_eq!(e.config().max_ttl, 3, "a maximum below the first TTL is raised to it");
    act(&mut e, UserAction::SetMaxTtl(3), t0);
    let cmds = tick(&mut e, t0);
    assert_eq!(sends(&cmds)[0].1.ttl, Some(3));
    assert_eq!(e.cycles_done(), 1, "ttl 3 == the maximum ends the batch");
}

#[test]
fn set_interval_changes_the_pacing_of_the_next_tick() {
    let (mut e, t0) = engine(EngineConfig { max_ttl: 1, ..defaults() });
    let t1 = wake(&tick(&mut e, t0));
    assert_eq!(t1, t0 + S);
    act(&mut e, UserAction::SetInterval(2500), t1);
    let t2 = wake(&tick(&mut e, t1));
    assert_eq!(t2, t1 + 2500 * MS);
}

#[test]
fn cycle_protocol_resets_statistics_and_restarts_at_first_ttl() {
    let (mut e, t0) = engine(defaults());
    let mut now = t0;
    for _ in 0..3 {
        let cmds = tick(&mut e, now);
        now = wake(&cmds);
    }
    reply(&mut e, 33000, "10.0.0.1", 100, now);
    assert_eq!(e.hops()[0].stats.returned, 1);
    act(&mut e, UserAction::CycleProtocol, now);
    assert_eq!(e.config().protocol, Protocol::Udp);
    assert_eq!(e.hops()[0].stats.returned, 0);
    let cmds = tick(&mut e, now);
    let p = &sends(&cmds)[0].1;
    assert_eq!((p.ttl, p.protocol), (Some(1), Protocol::Udp));
    act(&mut e, UserAction::CycleProtocol, now);
    assert_eq!(e.config().protocol, Protocol::Tcp);
    act(&mut e, UserAction::CycleProtocol, now);
    assert_eq!(e.config().protocol, Protocol::Icmp);
}

#[test]
fn toggles_flip_back_and_resume_without_pause_is_harmless() {
    let (mut e, t0) = engine(defaults());
    act(&mut e, UserAction::ToggleDns, t0);
    act(&mut e, UserAction::ToggleDns, t0);
    assert!(e.config().dns);
    act(&mut e, UserAction::ToggleAsn, t0);
    act(&mut e, UserAction::ToggleAsn, t0);
    assert!(e.config().ipinfo_fields.is_empty());
    let cmds = act(&mut e, UserAction::Resume, t0);
    assert!(!e.paused());
    assert_eq!(wake(&cmds), t0, "still due immediately");
}

#[test]
fn reset_keeps_config_changes_made_before_it() {
    let (mut e, t0) = engine(defaults());
    act(&mut e, UserAction::SetTos(9), t0);
    act(&mut e, UserAction::Pause, t0);
    act(&mut e, UserAction::Reset, t0);
    assert_eq!(e.config().tos, 9);
    assert!(e.paused(), "a reset does not touch pausing");
}

#[test]
fn a_new_first_ttl_stays_within_the_maximum_and_asn_toggles_on() {
    let (mut e, t0) = engine(EngineConfig { max_ttl: 5, ..defaults() });
    act(&mut e, UserAction::SetFirstTtl(9), t0);
    assert_eq!(e.config().first_ttl, 5);
    assert_eq!(e.min_hop(), 4);
    let cmds = tick(&mut e, t0);
    assert_eq!(sends(&cmds)[0].1.ttl, Some(5), "the next probe moved up to the first TTL");
    act(&mut e, UserAction::SetFirstTtl(0), t0);
    assert_eq!(e.config().first_ttl, 1);
    act(&mut e, UserAction::ToggleAsn, t0);
    assert_eq!(e.config().ipinfo_fields, vec![0]);
}
