use mtr_rs::fields::{active_fields, field_by_key, fields, validate_fields, FieldFormat, AVAILABLE_OPTIONS};
use mtr_rs::history::{History, HistoryEntry, Sample};
use mtr_rs::hop::HopError;
use mtr_rs::mpls::MplsLabel;
use mtr_rs::response::ProbeResult;
use mtr_rs::stats::{MeanUpdate, RttStats};

// ---------------------------------------------------------------------------------------------
// history
// ---------------------------------------------------------------------------------------------
#[test]
fn records_by_per_hop_sequence() {
    let t: u64 = 1_000;
    let mut h = History::new(4);
    h.push_sent(1, t);
    h.push_sent(2, t);
    h.push_sent(3, t);
    h.record(2, Sample::Rtt(500));
    h.record(3, Sample::Lost);
    let v: Vec<Sample> = h.iter();
    assert_eq!(v, vec![Sample::Pending { sent: t }, Sample::Rtt(500), Sample::Lost]);
    assert_eq!(h.latest(), Some(Sample::Lost));
}

#[test]
fn evicts_oldest_and_keeps_indexing_correct() {
    let t: u64 = 1_000;
    let mut h = History::new(2);
    for seq in 1..=3u32 {
        h.push_sent(seq, t + seq as u64 * 1_000_000);
    }
    assert_eq!(h.len(), 2);
    h.record(1, Sample::Rtt(1));
    h.record(3, Sample::Rtt(3));
    let v: Vec<Sample> = h.iter();
    assert_eq!(v, vec![Sample::Pending { sent: t + 2_000_000 }, Sample::Rtt(3)]);
}

#[test]
fn entries_expose_seq_sent_result_and_mpls() {
    let t: u64 = 1_000;
    let mut h = History::new(4);
    h.push_sent(1, t);
    h.push_sent(2, t + 1_000_000);
    let lbl = MplsLabel { label: 100, tc: 1, bottom_of_stack: true, ttl: 64 };
    h.record_outcome(1, Sample::Rtt(700), Some(ProbeResult::TtlExpired), &[lbl]);
    h.record(2, Sample::Lost);
    let e: Vec<&HistoryEntry> = h.entries();
    assert_eq!((e[0].seq, e[0].sent, e[0].sample), (1, t, Sample::Rtt(700)));
    assert_eq!(e[0].result, Some(ProbeResult::TtlExpired));
    assert_eq!(e[0].mpls, vec![lbl]);
    assert_eq!((e[1].seq, e[1].sample, e[1].result), (2, Sample::Lost, None));
    assert_eq!(h.latest_entry().unwrap().seq, 2);
    assert_eq!(h.entries().last().unwrap().seq, 2);
    assert_eq!(h.iter(), vec![Sample::Rtt(700), Sample::Lost]);
}

#[test]
fn clear_restarts_numbering() {
    let t: u64 = 1_000;
    let mut h = History::new(4);
    h.push_sent(1, t);
    h.clear();
    assert!(h.is_empty());
    h.push_sent(1, t);
    h.record(1, Sample::Rtt(9));
    assert_eq!(h.latest(), Some(Sample::Rtt(9)));
}

#[test]
fn capacity_is_at_least_one() {
    assert_eq!(History::new(0).capacity(), 1);
    let mut h = History::new(1);
    h.push_sent(5, 0);
    h.push_sent(6, 1);
    assert_eq!(h.len(), 1);
    assert_eq!(h.latest_entry().unwrap().seq, 6);
    h.record(5, Sample::Lost);
    assert_eq!(h.latest(), Some(Sample::Pending { sent: 1 }));
}

// ---------------------------------------------------------------------------------------------
// fields
// ---------------------------------------------------------------------------------------------
#[test]
fn table_matches_ui_mtr_c() {
    let keys: String = fields().iter().map(|f| f.key).collect();
    assert_eq!(keys, " LDRSNBAWVGJMXI");
    let titles: Vec<&str> = fields().iter().map(|f| f.title).collect();
    assert_eq!(
        titles,
        [" ", "Loss%", "Drop", "Rcv", "Snt", "Last", "Best", "Avg", "Wrst", "StDev", "Gmean", "Jttr", "Javg", "Jmax", "Jint"]
    );
    let lengths: Vec<usize> = fields().iter().map(|f| f.length).collect();
    assert_eq!(lengths, [1, 8, 5, 6, 6, 6, 6, 6, 6, 6, 6, 5, 5, 5, 5]);
}

#[test]
fn default_active_fields_and_skipping_of_underscore() {
    let keys: String = active_fields("LS NABWV").iter().map(|f| f.key).collect();
    assert_eq!(keys, "LS NABWV");
    assert_eq!(active_fields("L_S").len(), 2);
}

#[test]
fn validation_matches_c_messages() {
    assert_eq!(validate_fields("LS NABWV_"), Ok(()));
    assert_eq!(validate_fields("LQ"), Err("Unknown field identifier: Q".to_string()));
    let long = "L".repeat(21);
    assert_eq!(validate_fields(&long), Err(format!("Too many fields: {long}")));
    assert_eq!(validate_fields(&"L".repeat(20)), Ok(()));
}

#[test]
fn available_options_is_exactly_the_field_keys_plus_underscore() {
    let keys: String = fields().iter().map(|f| f.key).collect();
    assert_eq!(AVAILABLE_OPTIONS, format!("{keys}_"));
}

#[test]
fn float_formats_are_the_millisecond_and_percent_ones() {
    let f = |k| field_by_key(k).unwrap();
    assert!(f('L').format.is_float() && f('N').format.is_float() && f('J').format.is_float());
    assert!(!f('S').format.is_float() && !f(' ').format.is_float());
    assert_eq!(f('D').format, FieldFormat::Int4);
    assert!(field_by_key('_').is_none());
}

// ---------------------------------------------------------------------------------------------
// hops and statistics
// ---------------------------------------------------------------------------------------------
#[test]
fn hop_errors_read_like_strerror() {
    assert_eq!(HopError::NetworkDown.as_str(), "network is down");
    assert_eq!(HopError::HostDown.as_str(), "host is down");
    assert_eq!(HopError::NoRouteNetwork.as_str(), "no route to network");
    assert_eq!(HopError::NoRouteHost.as_str(), "no route to host");
}

fn run(rtts: &[(i32, MeanUpdate)]) -> RttStats {
    let mut s = RttStats::new();
    for &(r, m) in rtts {
        s.record_send();
        s.record_reply(r, m);
    }
    s
}

fn means(avg: i32, ssd: i64, gmean: i32) -> MeanUpdate {
    MeanUpdate { avg, ssd, gmean }
}

#[test]
fn first_reply_initialises_everything() {
    let s = run(&[(1000, means(1000, 0, 1000))]);
    assert_eq!(
        (s.returned, s.last, s.best, s.worst, s.avg, s.gmean, s.ssd, s.jitter, s.javg, s.jworst, s.jinta),
        (1, 1000, 1000, 1000, 1000, 1000, 0, 0, 0, 0, 0)
    );
    assert_eq!((s.xmit, s.transit), (1, 0));
}

#[test]
fn three_replies_match_net_c_arithmetic() {
    let s = run(&[
        (1000, means(1000, 0, 1000)),
        (3000, means(2000, 2_000_000, 1732)),
        (2000, means(2000, 2_000_000, 1817)),
    ]);
    assert_eq!((s.best, s.worst, s.last), (1000, 3000, 2000));
    assert_eq!(s.jitter, 1000);
    assert_eq!(s.jworst, 2000);
    assert_eq!(s.javg, 1000);
    assert_eq!(s.jinta, 2875);
}

#[test]
fn javg_uses_integer_division() {
    let m = means(0, 0, 0);
    assert_eq!(run(&[(1000, m), (2000, m), (3500, m)]).javg, 833);
}

#[test]
fn loss_and_drop_exclude_the_in_flight_probe() {
    let mut s = RttStats::new();
    for _ in 0..8 {
        s.record_send();
        s.record_reply(100, means(100, 0, 100));
    }
    s.record_send();
    s.record_send();
    assert_eq!((s.xmit, s.returned, s.transit), (10, 8, 1));
    assert_eq!(s.dropped(), 1);
    s.transit = 0;
    assert_eq!(s.dropped(), 2);
}

// ---------------------------------------------------------------------------------------------
// hops
// ---------------------------------------------------------------------------------------------
use mtr_rs::hop::{Hop, Reply};
use mtr_rs::ipaddr::IpAddr;

fn ip(s: &str) -> IpAddr {
    IpAddr::parse_text(s).unwrap()
}

fn reply<'a>(saved_seq: u32, from: &str, rtt_us: u32, now: u64) -> Reply<'a> {
    Reply { saved_seq, from: ip(from), rtt_us, mpls: &[], err: None, now, overwrite_addr: true, cache: false }
}

fn m(v: i32) -> MeanUpdate {
    MeanUpdate { avg: v, ssd: 0, gmean: v }
}

#[test]
fn second_unanswered_send_marks_hop_down() {
    let t: u64 = 7;
    let mut h = Hop::new(8);
    assert_eq!(h.record_send(t), 1);
    assert!(h.outstanding && !h.up);
    h.up = true;
    assert_eq!(h.record_send(t), 2);
    assert!(!h.up, "a still-outstanding probe marks the hop down");
    assert_eq!(h.stats.xmit, 2);
    assert_eq!(h.history.len(), 2);
}

#[test]
fn reply_sets_address_stats_flags_and_history() {
    let t: u64 = 7;
    let mut h = Hop::new(8);
    let seq = h.record_send(t);
    assert!(h.record_reply(reply(seq, "10.0.0.1", 1500, t), m(1500)));
    assert_eq!(h.addr, Some(ip("10.0.0.1")));
    assert_eq!(h.addrs.len(), 1);
    assert_eq!((h.addrs[0].count, h.addrs[0].last_rtt), (1, 1500));
    assert!(h.up && !h.outstanding);
    assert_eq!((h.stats.returned, h.stats.transit, h.last()), (1, 0, 1500));
    assert_eq!(h.history.latest(), Some(Sample::Rtt(1500)));
    assert_eq!(h.seen, None);
}

#[test]
fn ecmp_addresses_append_in_order_and_latest_wins() {
    let t: u64 = 7;
    let mut h = Hop::new(8);
    let s1 = h.record_send(t);
    assert!(h.record_reply(reply(s1, "10.0.0.1", 100, t), m(100)));
    let s2 = h.record_send(t);
    assert!(h.record_reply(reply(s2, "10.0.0.2", 200, t), m(150)));
    let s3 = h.record_send(t);
    assert!(!h.record_reply(reply(s3, "10.0.0.1", 300, t), m(200)));
    assert_eq!(h.addr, Some(ip("10.0.0.1")));
    assert_eq!(h.addrs.iter().map(|a| a.addr).collect::<Vec<_>>(), vec![ip("10.0.0.1"), ip("10.0.0.2")]);
    assert_eq!(h.addrs[0].count, 2);
}

#[test]
fn overwrite_flag_false_keeps_previous_addr_but_still_records_it() {
    let t: u64 = 7;
    let mut h = Hop::new(8);
    let s = h.record_send(t);
    let mut r = reply(s, "192.0.2.10", 100, t);
    r.overwrite_addr = false;
    h.record_reply(r, m(100));
    assert_eq!(h.addr, None);
    assert_eq!(h.addrs.len(), 1);
}

#[test]
fn error_replies_set_err_and_normal_replies_clear_it() {
    let t: u64 = 7;
    let mut h = Hop::new(8);
    let s = h.record_send(t);
    let mut r = reply(s, "10.0.0.5", 100, t);
    r.err = Some(HopError::NoRouteHost);
    h.record_reply(r, m(100));
    assert_eq!(h.err, Some(HopError::NoRouteHost));
    let s = h.record_send(t);
    h.record_reply(reply(s, "10.0.0.5", 100, t), m(100));
    assert_eq!(h.err, None);
}

#[test]
fn no_reply_only_touches_history() {
    let t: u64 = 7;
    let mut h = Hop::new(8);
    let s = h.record_send(t);
    h.record_no_reply(s);
    assert_eq!(h.history.latest(), Some(Sample::Lost));
    assert_eq!((h.stats.xmit, h.stats.transit, h.stats.returned), (1, 1, 0));
}

#[test]
fn cache_records_seen_and_reset_clears_everything() {
    let t: u64 = 7;
    let mut h = Hop::new(8);
    let s = h.record_send(t);
    let mut r = reply(s, "10.0.0.1", 100, t);
    r.cache = true;
    h.record_reply(r, m(100));
    assert_eq!(h.seen, Some(t));
    h.reset();
    assert!(h.addr.is_none() && h.addrs.is_empty() && h.history.is_empty());
    assert_eq!(h.stats, RttStats::new());
    assert_eq!(h.history.capacity(), 8);
}

#[test]
fn accessors_expose_stats_in_microseconds() {
    let t: u64 = 7;
    let mut h = Hop::new(8);
    let s = h.record_send(t);
    h.record_reply(reply(s, "10.0.0.1", 2500, t), m(2500));
    assert_eq!((h.transmitted(), h.received(), h.dropped()), (1, 1, 0));
    assert_eq!((h.last(), h.best(), h.avg(), h.worst(), h.gmean()), (2500, 2500, 2500, 2500, 2500));
    assert_eq!((h.jitter(), h.javg(), h.jworst(), h.jinta()), (0, 0, 0, 0));
}

#[test]
fn loss_is_zero_before_anything_completes() {
    let mut s = RttStats::new();
    assert_eq!(s.dropped(), 0);
    s.record_send();
    assert_eq!(s.dropped(), 0, "the probe in flight is not dropped");
}
