use mtr_rs::cdecode::CProbeParams;
use mtr_rs::command::{
    error_response, platform_errnos, CommandBuffer, Helper, ProbeBackend, VERSION,
};
use mtr_rs::construct::{
    checksum, icmp_echo, packet_size, pseudo_header, udp_datagram, udp_ports,
    udp_source_port_from_pid, UdpPorts,
};
use mtr_rs::deconstruct::{
    be16, decode_mpls, match_reply, parse_icmp4, parse_icmp6, port_unreach_code,
    queued_icmp_kind, IcmpKind, Inner, QueuedError,
};
use mtr_rs::ipaddr::IpAddr;
use mtr_rs::mpls::MplsLabel;
use mtr_rs::probe_table::{rtt_us, ProbeTable, SockAddr, MAX_PORT, MIN_PORT};
use mtr_rs::replies::{deliver_queued, recv_action, RecvAction};
use mtr_rs::request::Protocol;
use mtr_rs::response::{InvalidReason, ProbeResult, Response, ResponseKind};
use mtr_rs::sockets::{parse_ping_group_range, range_allows_gid};
use mtr_rs::stream::{dest_port, HTTP_PORT};
use mtr_rs::COMMAND_BUFFER_SIZE;

fn ip(s: &str) -> IpAddr {
    IpAddr::parse_text(s).unwrap()
}

// ---------------------------------------------------------------------------------------------
// construction
// ---------------------------------------------------------------------------------------------
#[test]
fn checksum_matches_rfc_1071_examples() {
    assert_eq!(checksum(&[0x08, 0x00, 0x00, 0x00, 0x12, 0x34, 0x00, 0x01]), 0xE5CA);
    assert_eq!(checksum(&[]), 0xFFFF);
    assert_eq!(checksum(&[0xFF, 0xFF]), 0x0000);
    assert_eq!(checksum(&[0x01]), !0x0100u16);
}

#[test]
fn sizes_follow_compute_packet_size() {
    let mut p = CProbeParams { ip_version: 4, ..Default::default() };
    assert_eq!(packet_size(&p, true), Some(64));
    assert_eq!(packet_size(&p, false), Some(64));
    p.packet_size = 10;
    assert_eq!(packet_size(&p, true), Some(28));
    assert_eq!(packet_size(&p, false), Some(10));
    p.protocol = Protocol::Udp;
    assert_eq!(packet_size(&p, true), Some(20 + 8 + 4));
    assert_eq!(packet_size(&p, false), Some(12));
    p.ip_version = 6;
    p.packet_size = 100;
    assert_eq!(packet_size(&p, true), Some(60));
    assert_eq!(packet_size(&p, false), Some(100));
    p.protocol = Protocol::Tcp;
    assert_eq!(packet_size(&p, true), Some(0));
    p.protocol = Protocol::Icmp;
    p.ip_version = 0;
    assert_eq!(packet_size(&p, true), None);
}

#[test]
fn icmp4_echo_is_type_8_with_a_checksum_over_the_whole_buffer() {
    let mut buf = vec![0u8; 64];
    icmp_echo(&mut buf, 4, 0x1234, 33434);
    assert_eq!(&buf[..8], &[8, 0, 0x63, 0x31, 0x12, 0x34, 0x82, 0x9A]);
    assert_eq!(checksum(&buf), 0);
    let mut buf6 = vec![0u8; 16];
    icmp_echo(&mut buf6, 6, 0x1234, 33434);
    assert_eq!(&buf6[..8], &[128, 0, 0, 0, 0x12, 0x34, 0x82, 0x9A]);
}

#[test]
fn udp_ports_pick_where_the_sequence_lives() {
    let mut p = CProbeParams { protocol: Protocol::Udp, ..Default::default() };
    let u = udp_ports(&p, 40000, 5555);
    assert_eq!((u.src, u.dst, u.checksum_is_sequence), (5555, 40000, false));
    p.dest_port = 990;
    let u = udp_ports(&p, 40000, 5555);
    assert_eq!((u.src, u.dst, u.checksum_is_sequence), (40000, 990, false));
    p.local_port = 1991;
    let u = udp_ports(&p, 40000, 5555);
    assert_eq!((u.src, u.dst, u.checksum_is_sequence), (1991, 990, true));
    p.dest_port = 0;
    let u = udp_ports(&p, 40000, 5555);
    assert_eq!((u.src, u.dst, u.checksum_is_sequence), (1991, 40000, false));
    assert_eq!(udp_source_port_from_pid(70000), (70000u32 & 0xffff) as u16);
    assert_eq!(udp_source_port_from_pid(1000), (1000u32 + 65536 - 1024) as u16);
}

#[test]
fn udp_datagrams_verify_against_the_pseudo_header_in_both_modes() {
    let src = ip("192.0.2.1");
    let dst = ip("192.0.2.2");
    let mut buf = vec![0x2Cu8; 40];
    udp_datagram(&mut buf, UdpPorts { src: 5555, dst: 40000, checksum_is_sequence: false }, 40000, &src, &dst);
    assert_eq!(u16::from_be_bytes([buf[4], buf[5]]), 40);
    let mut all = pseudo_header(&src, &dst, 40);
    all.extend_from_slice(&buf);
    assert_eq!(checksum(&all), 0, "checksum field balances the datagram");

    let mut buf = vec![0x2Cu8; 40];
    udp_datagram(&mut buf, UdpPorts { src: 1991, dst: 990, checksum_is_sequence: true }, 40000, &src, &dst);
    assert_eq!(u16::from_be_bytes([buf[6], buf[7]]), 40000, "checksum field carries the sequence");
    let mut all = pseudo_header(&src, &dst, 40);
    all.extend_from_slice(&buf);
    assert_eq!(checksum(&all), 0, "payload bytes 8..10 were adjusted to balance");

    let src6 = ip("2001:db8::1");
    let dst6 = ip("2001:db8::2");
    let mut buf = vec![0u8; 20];
    udp_datagram(&mut buf, UdpPorts { src: 5555, dst: 40000, checksum_is_sequence: false }, 40000, &src6, &dst6);
    let mut all = pseudo_header(&src6, &dst6, 20);
    all.extend_from_slice(&buf);
    assert_eq!(checksum(&all), 0);
}

#[test]
fn pseudo_headers_lay_out_addresses_protocol_and_length() {
    assert_eq!(
        pseudo_header(&ip("1.2.3.4"), &ip("5.6.7.8"), 0x0102),
        vec![1, 2, 3, 4, 5, 6, 7, 8, 0, 17, 1, 2]
    );
    let v6 = pseudo_header(&ip("::1"), &ip("::2"), 20);
    assert_eq!(v6.len(), 40);
    assert_eq!(v6[15], 1);
    assert_eq!(v6[31], 2);
    assert_eq!(&v6[32..], &[0, 0, 0, 20, 0, 0, 0, 17]);
    assert!(pseudo_header(&ip("1.2.3.4"), &ip("::2"), 20).is_empty());
}

#[test]
fn the_default_destination_port_is_http() {
    let params = |port: u16| CProbeParams { protocol: Protocol::Tcp, dest_port: i32::from(port), ..Default::default() };
    assert_eq!(dest_port(&params(0)), HTTP_PORT);
    assert_eq!(dest_port(&params(443)), 443);
    assert_eq!(dest_port(&CProbeParams { dest_port: 70000, ..Default::default() }), 70000u32 as u16);
}

// ---------------------------------------------------------------------------------------------
// reading replies
// ---------------------------------------------------------------------------------------------
fn ip4(proto: u8, src: [u8; 4], dst: [u8; 4], payload_len: usize) -> Vec<u8> {
    let mut h = vec![0x45, 0, 0, 0, 0, 0, 0x40, 0, 64, proto, 0, 0];
    let len = (20 + payload_len) as u16;
    h[2..4].copy_from_slice(&len.to_be_bytes());
    h.extend_from_slice(&src);
    h.extend_from_slice(&dst);
    h
}

fn icmp(t: u8, code: u8, id: u16, seq: u16) -> Vec<u8> {
    let mut v = vec![t, code, 0, 0];
    v.extend_from_slice(&id.to_be_bytes());
    v.extend_from_slice(&seq.to_be_bytes());
    v
}

fn udp(sp: u16, dp: u16, csum: u16) -> Vec<u8> {
    let mut v = Vec::new();
    v.extend_from_slice(&sp.to_be_bytes());
    v.extend_from_slice(&dp.to_be_bytes());
    v.extend_from_slice(&12u16.to_be_bytes());
    v.extend_from_slice(&csum.to_be_bytes());
    v.extend_from_slice(&[0; 4]);
    v
}

#[test]
fn be16_is_none_past_the_end() {
    assert_eq!(be16(&[1, 2, 3], 1), Some(0x0203));
    assert_eq!(be16(&[1, 2, 3], 2), None);
    assert_eq!(be16(&[], 0), None);
}

#[test]
fn echo_reply_over_a_raw_socket_carries_the_ip_header() {
    let mut pkt = ip4(1, [8, 8, 8, 8], [10, 0, 0, 2], 8);
    pkt.extend(icmp(0, 0, 0x1234, 33434));
    let p = parse_icmp4(&pkt, true).unwrap();
    assert_eq!(p.kind, IcmpKind::EchoReply);
    assert_eq!(p.echo, Some((0x1234, 33434)));
    assert!(p.inner.is_none() && p.mpls.is_empty());
    let p = parse_icmp4(&icmp(0, 0, 0x1234, 33434), false).unwrap();
    assert_eq!(p.echo, Some((0x1234, 33434)));
    assert!(parse_icmp4(&pkt[..25], true).is_none(), "too short");
    let mut not_icmp = ip4(17, [8, 8, 8, 8], [10, 0, 0, 2], 8);
    not_icmp.extend(icmp(0, 0, 1, 1));
    assert!(parse_icmp4(&not_icmp, true).is_none());
}

#[test]
fn time_exceeded_exposes_the_inner_udp_header() {
    let mut quoted = ip4(17, [10, 0, 0, 2], [10, 0, 0, 9], 12);
    quoted.extend(udp(33000, 33434, 0));
    let mut outer = ip4(1, [10, 0, 0, 5], [10, 0, 0, 2], 8 + quoted.len());
    outer.extend(icmp(11, 0, 0, 0));
    outer.extend(&quoted);
    let p = parse_icmp4(&outer, true).unwrap();
    assert_eq!(p.kind, IcmpKind::TimeExceeded);
    assert_eq!(
        p.inner,
        Some(Inner::Udp { src: ip("10.0.0.2"), dst: ip("10.0.0.9"), src_port: 33000, dst_port: 33434, checksum: 0 })
    );
}

#[test]
fn icmpv6_destination_unreachable_quotes_an_echo_request() {
    let mut m = icmp(1, 4, 0, 0);
    let mut inner = vec![0x60, 0, 0, 0, 0, 8, 58, 64];
    inner.extend_from_slice(&[0; 32]);
    inner.extend(icmp(128, 0, 0x4321, 33500));
    m.extend(inner);
    let p = parse_icmp6(&m).unwrap();
    assert_eq!(p.kind, IcmpKind::DestUnreach { code: 4 });
    assert_eq!(p.inner, Some(Inner::Icmp { id: 0x4321, sequence: 33500 }));
}

#[test]
fn mpls_labels_are_decoded_from_the_rfc_4884_extension() {
    let mut icmp_bytes = icmp(11, 0, 0, 0);
    let mut inner = ip4(1, [10, 0, 0, 2], [8, 8, 8, 8], 8);
    inner.extend(icmp(8, 0, 0x1234, 33435));
    inner.resize(128, 0);
    icmp_bytes.extend(inner);
    icmp_bytes.extend_from_slice(&[0x20, 0, 0, 0]);
    icmp_bytes.extend_from_slice(&[0, 12, 1, 1]);
    icmp_bytes.extend_from_slice(&[0x00, 0x01, 0x01, 0xff]);
    icmp_bytes.extend_from_slice(&[0x03, 0xe8, 0x06, 0x01]);
    let labels = decode_mpls(&icmp_bytes);
    assert_eq!(
        labels,
        vec![
            MplsLabel { label: 16, tc: 0, bottom_of_stack: true, ttl: 255 },
            MplsLabel { label: 16000, tc: 3, bottom_of_stack: false, ttl: 1 },
        ]
    );
    let mut pkt = ip4(1, [10, 0, 0, 1], [10, 0, 0, 2], icmp_bytes.len());
    pkt.extend(&icmp_bytes);
    let p = parse_icmp4(&pkt, true).unwrap();
    assert_eq!(p.mpls.len(), 2);
    assert_eq!(p.inner, Some(Inner::Icmp { id: 0x1234, sequence: 33435 }));
    let mut bad = icmp_bytes.clone();
    bad[8 + 128] = 0x10;
    assert!(decode_mpls(&bad).is_empty());
    assert!(decode_mpls(&icmp_bytes[..100]).is_empty());
}

#[test]
fn a_second_extension_object_is_walked_to() {
    let mut m = icmp(11, 0, 0, 0);
    m.extend(vec![0u8; 128]);
    m.extend_from_slice(&[0x20, 0, 0, 0]);
    m.extend_from_slice(&[0, 8, 2, 1, 9, 9, 9, 9]);
    m.extend_from_slice(&[0, 8, 1, 1, 0, 0, 0x10, 9]);
    let labels = decode_mpls(&m);
    assert_eq!(labels, vec![MplsLabel { label: 1, tc: 0, bottom_of_stack: false, ttl: 9 }]);
}

#[test]
fn matching_follows_identifier_and_sequence() {
    let mut t = ProbeTable::new();
    let i = t.alloc_probe(7, 0, 10).unwrap();
    let seq = t.probes[i].sequence;
    let mut pkt = ip4(1, [10, 0, 0, 1], [10, 0, 0, 2], 8);
    pkt.extend(icmp(0, 0, 0x1234, seq));
    let p = parse_icmp4(&pkt, true).unwrap();
    assert_eq!(match_reply(&t, &p, 4, 0x1234), Some((i, ProbeResult::Reply)));
    assert_eq!(match_reply(&t, &p, 4, 0x9999), None, "another process's identifier");
    assert_eq!(port_unreach_code(4), 3);
    assert_eq!(port_unreach_code(6), 4);
}

#[test]
fn queued_errors_stand_for_icmp_messages() {
    assert_eq!(queued_icmp_kind(QueuedError::TimeExceeded, 4), IcmpKind::TimeExceeded);
    assert_eq!(queued_icmp_kind(QueuedError::Refused, 6), IcmpKind::DestUnreach { code: 4 });
    assert_eq!(queued_icmp_kind(QueuedError::Unreachable { code: 1 }, 4), IcmpKind::DestUnreach { code: 1 });
}

#[test]
fn a_queued_udp_error_answers_its_probe_once() {
    let mut t = ProbeTable::new();
    let i = t.alloc_probe(9, 100, 10).unwrap();
    t.set_protocol(i, Protocol::Udp);
    let seq = t.probes[i].sequence;
    t.set_ports(i, 5555, seq);
    let mut out = Vec::new();
    let payload = udp(5555, seq, 0);
    deliver_queued(true, &mut t, 4, 0x1234, ip("10.9.9.9"), &payload, QueuedError::Refused, 600, &mut out);
    assert!(t.is_empty());
    assert_eq!(
        out,
        vec![Response {
            token: 9,
            kind: ResponseKind::Probe { result: ProbeResult::Reply, addr: ip("10.9.9.9"), rtt_us: 500, mpls: vec![] },
        }]
    );
}

#[test]
fn receive_errors_decide_what_comes_next() {
    let e = platform_errnos();
    assert_eq!(recv_action(e.eagain, true, &e), RecvAction::Done);
    assert_eq!(recv_action(e.eagain, false, &e), RecvAction::ReadQueue(QueuedError::Unreachable { code: 0 }));
    assert_eq!(recv_action(e.eintr, true, &e), RecvAction::Retry);
    assert_eq!(recv_action(e.ehostunreach, false, &e), RecvAction::ReadQueue(QueuedError::TimeExceeded));
    assert_eq!(recv_action(e.econnrefused, false, &e), RecvAction::ReadQueue(QueuedError::Refused));
    assert_eq!(recv_action(e.eperm, false, &e), RecvAction::Fatal);
}

#[test]
fn ping_group_range_parser_gates_by_gid() {
    let disallow_all = parse_ping_group_range("1\t0").unwrap();
    assert!(!range_allows_gid(disallow_all, 0));
    assert!(!range_allows_gid(disallow_all, 1));
    assert!(!range_allows_gid(disallow_all, 1000));

    let allow_all = parse_ping_group_range("0\t2147483647").unwrap();
    assert!(range_allows_gid(allow_all, 0));
    assert!(range_allows_gid(allow_all, 1000));
    assert!(range_allows_gid(allow_all, 2147483647));

    assert_eq!(parse_ping_group_range("garbage"), None);
}

// ---------------------------------------------------------------------------------------------
// the probe table
// ---------------------------------------------------------------------------------------------
#[test]
fn rtt_is_microseconds_saturated() {
    let now: u64 = 5_000_000;
    assert_eq!(rtt_us(now, now + 1234), 1234);
    assert_eq!(rtt_us(now, now + (1u64 << 40) * 1_000_000), u32::MAX);
    assert_eq!(rtt_us(now + 1_000_000, now), 0);
}

#[test]
fn sequences_start_at_min_port_and_wrap() {
    let mut t = ProbeTable::new();
    assert_eq!(t.next_sequence(), MIN_PORT);
    assert_eq!(t.next_sequence(), MIN_PORT + 1);
    t.next_sequence = MAX_PORT;
    assert_eq!(t.next_sequence(), MAX_PORT);
    assert_eq!(t.next_sequence(), MIN_PORT);
}

#[test]
fn negative_or_zero_timeout_expires_on_the_next_check() {
    let mut t = ProbeTable::new();
    let now: u64 = 1_000;
    t.alloc_probe(1, now, 0).unwrap();
    t.alloc_probe(2, now, -5).unwrap();
    t.alloc_probe(3, now, 10).unwrap();
    assert_eq!(t.next_timeout(now), Some(0));
    let mut out = Vec::new();
    t.expire(now + 1, &mut out);
    let mut tokens: Vec<i32> = out.iter().map(|r| r.token).collect();
    tokens.sort_unstable();
    assert_eq!(tokens, vec![1, 2]);
    assert!(out.iter().all(|r| r.kind == ResponseKind::NoReply));
    assert_eq!(t.len(), 1);
    assert_eq!(t.next_timeout(now), Some(10_000_000));
    assert_eq!(ProbeTable::new().next_timeout(now), None);
}

#[test]
fn expiry_is_strict_like_compare_timeval() {
    let mut t = ProbeTable::new();
    t.alloc_probe(1, 0, 1).unwrap();
    let mut out = Vec::new();
    t.expire(1_000_000, &mut out);
    assert!(out.is_empty());
    t.expire(1_000_001, &mut out);
    assert_eq!(out.len(), 1);
}

#[test]
fn alloc_assigns_sequence_and_timeout_and_refuses_past_max_probes() {
    let mut t = ProbeTable::new();
    let i = t.alloc_probe(42, 0, 3).unwrap();
    assert_eq!(t.probes[i].token, 42);
    assert_eq!(t.probes[i].sequence, MIN_PORT);
    assert_eq!(t.probes[i].timeout_at_us, 3_000_000);
    assert_eq!(t.find_by_sequence(MIN_PORT), Some(i));
    for k in 1..mtr_rs::probe_table::MAX_PROBES {
        assert!(t.alloc_probe(k as i32, 0, 60).is_some());
    }
    assert!(t.alloc_probe(1, 0, 60).is_none(), "probes-exhausted");
    let p = t.remove(0);
    assert_eq!(p.token, 42);
    assert_eq!(t.probes[0].token, (mtr_rs::probe_table::MAX_PROBES - 1) as i32);
    let _ = SockAddr { ip: ip("0.0.0.0"), port: 0 };
}

// ---------------------------------------------------------------------------------------------
// the command stream
// ---------------------------------------------------------------------------------------------
#[test]
fn buffer_pops_complete_lines_and_keeps_the_partial_tail() {
    let mut b = CommandBuffer::new();
    assert_eq!(b.space_remaining(), COMMAND_BUFFER_SIZE - 1);
    b.push(b"1 a\n2 b\n3 par");
    let (lines, overflow) = b.take_lines();
    assert_eq!(lines, vec!["1 a".to_string(), "2 b".to_string()]);
    assert!(!overflow);
    b.push(b"tial\n");
    assert_eq!(b.take_lines().0, vec!["3 partial".to_string()]);
}

#[test]
fn buffer_full_without_newline_reports_overflow_once_and_resets() {
    let mut b = CommandBuffer::new();
    let chunk = vec![b'x'; b.space_remaining()];
    b.push(&chunk);
    assert_eq!(b.space_remaining(), 0);
    let (lines, overflow) = b.take_lines();
    assert!(lines.is_empty());
    assert!(overflow);
    assert_eq!(b.space_remaining(), COMMAND_BUFFER_SIZE - 1);
    assert!(!b.take_lines().1);
}

/// A backend for IPv4 only, with no SCTP, that records what it is asked to send.
struct FakeBackend {
    sent: Vec<(i32, i32)>,
    fail_with: Option<i32>,
}

impl ProbeBackend for FakeBackend {
    fn ip_version_ok(&self, version: u8) -> bool {
        version == 4
    }
    fn protocol_ok(&self, protocol: Protocol) -> bool {
        protocol != Protocol::Sctp
    }
    fn mark_ok(&self) -> bool {
        true
    }
    fn ip_version_supported(&self, version: u8) -> bool {
        version == 4
    }
    fn protocol_supported(&self, protocol: Protocol) -> bool {
        protocol != Protocol::Sctp
    }
    fn mark_supported(&self) -> bool {
        true
    }
    fn send_probe(&mut self, table: &mut ProbeTable, idx: usize, params: &CProbeParams) -> Result<(), Option<i32>> {
        if let Some(errno) = self.fail_with {
            return Err(Some(errno));
        }
        let remote = params.remote_address.as_deref().and_then(IpAddr::parse_text).ok_or(Some(platform_errnos().einval))?;
        let local = table.probes[idx].local;
        table.set_addrs(idx, SockAddr { ip: remote, port: 0 }, local);
        self.sent.push((table.probes[idx].token, params.timeout));
        Ok(())
    }
}

fn helper() -> Helper<FakeBackend> {
    Helper::new(FakeBackend { sent: Vec::new(), fail_with: None })
}

fn one(h: &mut Helper<FakeBackend>, line: &str) -> Response {
    let mut out = Vec::new();
    h.dispatch_line(line, 0, &mut out);
    assert_eq!(out.len(), 1, "{line}: {out:?}");
    out.pop().unwrap()
}

#[test]
fn unknown_and_malformed_commands() {
    let mut h = helper();
    assert_eq!(one(&mut h, "13 argle-bargle").encode(), "13 unknown-command\n");
    assert_eq!(one(&mut h, "malformed").encode(), "0 command-parse-error\n");
    assert_eq!(one(&mut h, "5 send-probe ttl").encode(), "0 command-parse-error\n");
}

#[test]
fn versioning_and_feature_support() {
    let mut h = helper();
    assert_eq!(
        one(&mut h, "30 check-support feature version").encode(),
        format!("30 feature-support support {}\n", VERSION)
    );
    assert_eq!(one(&mut h, "31 check-support feature ip-4").encode(), "31 feature-support support ok\n");
    assert_eq!(one(&mut h, "31 check-support feature ip-6").encode(), "31 feature-support support no\n");
    assert_eq!(one(&mut h, "32 check-support feature send-probe").encode(), "32 feature-support support ok\n");
    assert_eq!(one(&mut h, "33 check-support feature bogus-feature").encode(), "33 feature-support support no\n");
    assert_eq!(one(&mut h, "34 check-support feature sctp").encode(), "34 feature-support support no\n");
    assert_eq!(one(&mut h, "35 check-support feature mark").encode(), "35 feature-support support ok\n");
    assert_eq!(one(&mut h, "36 check-support").kind, ResponseKind::InvalidArgument { reason: None });
}

#[test]
fn invalid_arguments_like_cmdparse_py() {
    let mut h = helper();
    assert_eq!(
        one(&mut h, "22 send-probe").kind,
        ResponseKind::InvalidArgument { reason: Some(InvalidReason::IpVersionNotSupported) }
    );
    assert_eq!(one(&mut h, "23 send-probe ip-4 str-value").kind, ResponseKind::InvalidArgument { reason: None });
    assert_eq!(
        one(&mut h, "24 send-probe ip-4 8.8.8.8 timeout str-value").kind,
        ResponseKind::InvalidArgument { reason: None }
    );
    assert_eq!(
        one(&mut h, "25 send-probe ip-4 8.8.8.8 ttl str-value").kind,
        ResponseKind::InvalidArgument { reason: None }
    );
    assert_eq!(
        one(&mut h, "26 send-probe ip-6 ::1").kind,
        ResponseKind::InvalidArgument { reason: Some(InvalidReason::IpVersionNotSupported) }
    );
    assert_eq!(
        one(&mut h, "27 send-probe ip-4 8.8.8.8 protocol sctp").kind,
        ResponseKind::InvalidArgument { reason: Some(InvalidReason::ProtocolNotSupported) }
    );
    assert!(h.table.is_empty(), "failed probes are freed");
}

#[test]
fn a_good_probe_is_handed_to_the_backend_and_stays_outstanding() {
    let mut h = helper();
    let mut out = Vec::new();
    h.dispatch_line("15 send-probe ip-4 8.8.254.254 timeout 1", 0, &mut out);
    assert!(out.is_empty());
    assert_eq!(h.table.len(), 1);
    assert_eq!(h.backend.sent[0], (15, 1));
}

#[test]
fn send_errors_map_through_report_packet_error_and_free_the_probe() {
    let mut h = helper();
    let e = platform_errnos();
    h.backend.fail_with = Some(e.eperm);
    assert_eq!(one(&mut h, "9 send-probe ip-4 8.8.8.8").kind, ResponseKind::PermissionDenied);
    assert!(h.table.is_empty());
    h.backend.fail_with = Some(e.econnrefused);
    let r = one(&mut h, "10 send-probe ip-4 127.0.0.1 protocol tcp port 164");
    match r.kind {
        ResponseKind::Probe { result: ProbeResult::Reply, .. } => {}
        other => panic!("{other:?}"),
    }
    assert!(h.table.is_empty());
}

#[test]
fn errno_maps_to_the_c_reply_names() {
    let e = platform_errnos();
    let cases = [
        (e.einval, ResponseKind::InvalidArgument { reason: None }),
        (e.enetdown, ResponseKind::NetworkDown),
        (e.ehostdown, ResponseKind::HostDown),
        (e.enetunreach, ResponseKind::NoRouteNetwork),
        (e.ehostunreach, ResponseKind::NoRouteHost),
        (e.eperm, ResponseKind::PermissionDenied),
        (e.eaddrinuse, ResponseKind::AddressInUse),
        (e.eaddrnotavail, ResponseKind::AddressNotAvailable),
        (e.etimedout, ResponseKind::WaitTcpResponseTimeout),
        (nix::libc::ENOBUFS, ResponseKind::UnexpectedError { errno: i64::from(nix::libc::ENOBUFS) }),
    ];
    for (errno, kind) in cases {
        let r = error_response(7, Some(errno), &e);
        assert_eq!(r.token, 7);
        assert_eq!(r.kind, kind, "errno {errno}");
    }
    assert_eq!(error_response(7, None, &e).kind, ResponseKind::UnexpectedError { errno: 0 });
}

// ---------------------------------------------------------------------------------------------
// sending and receiving
// ---------------------------------------------------------------------------------------------
use mtr_rs::replies::{handle_packet, respond, stream_outcome};
use mtr_rs::sending::{
    bind_address, build_datagram, decode, local_port_for, needs_bind, should_retry_send,
    stream_port_taken, tos_and_ttl,
};
use mtr_rs::stream::{connect_outcome, stream_open_allowed, Completion};
use mtr_rs::command::should_exit;

#[test]
fn addresses_decode_per_ip_version_and_source_is_found() {
    assert_eq!(decode(4, "127.0.0.1"), Some(ip("127.0.0.1")));
    assert_eq!(decode(6, "::1"), Some(ip("::1")));
    assert_eq!(decode(4, "::1"), None);
    assert_eq!(decode(6, "127.0.0.1"), None);
    assert_eq!(decode(0, "127.0.0.1"), None);
    assert_eq!(decode(4, "str-value"), None);
}

#[test]
fn socket_decisions() {
    assert_eq!(local_port_for(Protocol::Icmp, false, 77), 77);
    assert_eq!(local_port_for(Protocol::Icmp, true, 77), 0);
    assert_eq!(local_port_for(Protocol::Udp, false, 77), 0);
    let e = platform_errnos();
    assert!(should_retry_send(false, Some(e.econnrefused), &e));
    assert!(should_retry_send(false, Some(e.ehostunreach), &e));
    assert!(!should_retry_send(true, Some(e.econnrefused), &e));
    assert!(!should_retry_send(false, Some(e.eperm), &e));
    assert!(!should_retry_send(false, None, &e));
    assert!(stream_port_taken(Some(e.eaddrinuse), &e) && stream_port_taken(Some(e.eaddrnotavail), &e));
    assert!(!stream_port_taken(Some(e.econnrefused), &e));
    let mut p = CProbeParams::default();
    assert_eq!(tos_and_ttl(&p), Some((0, 255)));
    p.ttl = 256;
    assert_eq!(tos_and_ttl(&p), None);
    p.ttl = 3;
    p.type_of_service = -1;
    assert_eq!(tos_and_ttl(&p), None);
    let local = SockAddr { ip: ip("10.0.0.2"), port: 33434 };
    assert_eq!(bind_address(local, true), SockAddr { ip: ip("10.0.0.2"), port: 0 });
    assert_eq!(bind_address(local, false), local);
    assert!(needs_bind(None, local, false));
    assert!(!needs_bind(Some(SockAddr { ip: ip("0.0.0.0"), port: 9 }), local, false));
    assert!(needs_bind(Some(SockAddr { ip: ip("10.0.0.2"), port: 0 }), local, false));
    assert!(!needs_bind(Some(SockAddr { ip: ip("10.0.0.2"), port: 0 }), local, true));
    assert!(needs_bind(Some(SockAddr { ip: ip("10.0.0.3"), port: 0 }), local, true));
}

#[test]
fn an_icmp_probe_is_an_echo_request_to_the_remote_address() {
    let mut t = ProbeTable::new();
    let i = t.alloc_probe(5, 0, 10).unwrap();
    let remote = SockAddr { ip: ip("192.0.2.9"), port: 0 };
    t.set_addrs(i, remote, SockAddr { ip: ip("192.0.2.1"), port: 0 });
    let params = CProbeParams { ip_version: 4, packet_size: 32, bit_pattern: 0x1ab, ..Default::default() };
    let (buf, dst) = build_datagram(&mut t, i, &params, true, 0x4242, 5555).unwrap();
    assert_eq!(dst, remote);
    assert_eq!(buf.len(), 32);
    assert_eq!(&buf[..2], &[8, 0]);
    assert_eq!(&buf[4..8], &[0x42, 0x42, 0x82, 0x9a]);
    assert!(buf[8..].iter().all(|b| *b == 0xab), "the fill is the low byte of the pattern");
    assert_eq!(checksum(&buf), 0);
    let tcp = CProbeParams { ip_version: 4, protocol: Protocol::Tcp, ..Default::default() };
    assert!(build_datagram(&mut t, i, &tcp, true, 0x4242, 5555).is_none());
}

#[test]
fn a_udp_probe_records_its_ports_and_checks_out() {
    let mut t = ProbeTable::new();
    let i = t.alloc_probe(6, 0, 10).unwrap();
    let seq = t.probes[i].sequence;
    t.set_addrs(i, SockAddr { ip: ip("192.0.2.9"), port: 0 }, SockAddr { ip: ip("192.0.2.1"), port: 0 });
    let params = CProbeParams { ip_version: 4, protocol: Protocol::Udp, dest_port: 53, ..Default::default() };
    let (buf, dst) = build_datagram(&mut t, i, &params, false, 0x4242, 5555).unwrap();
    assert_eq!((t.probes[i].local.port, t.probes[i].remote.port), (seq, 53));
    assert_eq!(dst, SockAddr { ip: ip("192.0.2.9"), port: 53 });
    assert_eq!(buf.len(), 64);
    let mut all = pseudo_header(&ip("192.0.2.1"), &ip("192.0.2.9"), 64);
    all.extend_from_slice(&buf);
    assert_eq!(checksum(&all), 0);
    let (_, raw_dst) = build_datagram(&mut t, i, &params, true, 0x4242, 5555).unwrap();
    assert_eq!(raw_dst.port, 0, "a raw socket carries the port in the datagram");
}

#[test]
fn a_received_echo_reply_answers_its_probe_once() {
    let mut t = ProbeTable::new();
    let i = t.alloc_probe(31, 1_000, 10).unwrap();
    let seq = t.probes[i].sequence;
    let mut pkt = ip4(1, [192, 0, 2, 9], [192, 0, 2, 1], 8);
    pkt.extend(icmp(0, 0, 0x4242, seq));
    let mut out = Vec::new();
    handle_packet(&pkt, None, 4, true, &mut t, 0x4242, 2_500, &mut out);
    assert!(out.is_empty(), "no sender, no reply");
    handle_packet(&pkt, Some(ip("192.0.2.9")), 4, true, &mut t, 0x4242, 2_500, &mut out);
    assert_eq!(
        out,
        vec![Response {
            token: 31,
            kind: ResponseKind::Probe { result: ProbeResult::Reply, addr: ip("192.0.2.9"), rtt_us: 1_500, mpls: vec![] },
        }]
    );
    assert!(t.is_empty());
    handle_packet(&pkt, Some(ip("192.0.2.9")), 4, true, &mut t, 0x4242, 2_500, &mut out);
    assert_eq!(out.len(), 1, "a second copy matches nothing");
}

#[test]
fn finished_connects_answer_or_report() {
    let e = platform_errnos();
    let mut t = ProbeTable::new();
    let a = t.alloc_probe(1, 0, 10).unwrap();
    t.set_addrs(a, SockAddr { ip: ip("10.0.0.1"), port: 80 }, SockAddr { ip: ip("10.0.0.2"), port: 0 });
    let b = t.alloc_probe(2, 0, 10).unwrap();
    let mut out = Vec::new();
    stream_outcome(&mut t, b, Completion::Pending, 7, &e, &mut out);
    assert!(out.is_empty() && t.len() == 2);
    stream_outcome(&mut t, b, Completion::Failed(Some(e.enetunreach)), 7, &e, &mut out);
    assert_eq!(out, vec![Response { token: 2, kind: ResponseKind::NoRouteNetwork }]);
    stream_outcome(&mut t, a, Completion::Reached, 7, &e, &mut out);
    assert_eq!(
        out[1],
        Response {
            token: 1,
            kind: ResponseKind::Probe { result: ProbeResult::Reply, addr: ip("10.0.0.1"), rtt_us: 7, mpls: vec![] },
        }
    );
    assert!(t.is_empty());
    assert!(t.stream_indices().is_empty());
    let mut t = ProbeTable::new();
    let i = t.alloc_probe(3, 0, 10).unwrap();
    respond(&mut t, i, ProbeResult::TtlExpired, ip("10.9.9.9"), 3, vec![], &mut out);
    assert_eq!(out.len(), 3);
    assert!(t.is_empty());
}

#[test]
fn a_turn_of_the_main_loop() {
    let mut h = helper();
    let mut b = CommandBuffer::new();
    b.push(b"1 check-support feature ip-4\n2 send-probe ip-4 192.0.2.7 timeout 0\n3 bogus");
    let mut out = Vec::new();
    h.process_input(&mut b, 0, &mut out);
    assert_eq!(out.len(), 1);
    assert_eq!(out[0].encode(), "1 feature-support support ok\n");
    assert_eq!(h.table.len(), 1);
    assert!(!should_exit(false, &h.table));
    let mut out = Vec::new();
    h.process_input(&mut b, 1, &mut out);
    assert_eq!(out, vec![Response { token: 2, kind: ResponseKind::NoReply }]);
    assert!(should_exit(false, &h.table));
    assert!(!should_exit(true, &h.table));
    let chunk = vec![b'x'; b.space_remaining()];
    b.push(&chunk);
    let mut out = Vec::new();
    h.process_input(&mut b, 2, &mut out);
    assert_eq!(out, vec![Response { token: 0, kind: ResponseKind::CommandBufferOverflow }]);
}

#[test]
fn stream_probes_move_on_to_the_next_sequence() {
    let mut t = ProbeTable::new();
    let i = t.alloc_probe(1, 0, 10).unwrap();
    assert_eq!(t.probes[i].sequence, MIN_PORT);
    t.retry_sequence(i);
    assert_eq!(t.probes[i].sequence, MIN_PORT + 1);
    assert_eq!(t.next_sequence, MIN_PORT + 2);
    t.set_departure(i, 99);
    assert_eq!(t.probes[i].departure_us, 99);
}

fn ip4_opts(proto: u8, src: [u8; 4], dst: [u8; 4], payload_len: usize, options: &[u8]) -> Vec<u8> {
    let mut opts = options.to_vec();
    while opts.len() % 4 != 0 {
        opts.push(1);
    }
    let mut h = ip4(proto, src, dst, payload_len + opts.len());
    h[0] = 0x40 | ((20 + opts.len()) / 4) as u8;
    h.extend_from_slice(&opts);
    h
}

#[test]
fn ipv4_options_are_skipped_in_outer_and_inner_headers() {
    let mut pkt = ip4_opts(1, [10, 0, 0, 1], [10, 0, 0, 2], 8, &[1, 1, 1, 1]);
    pkt.extend(icmp(0, 0, 0x1234, 7));
    let p = parse_icmp4(&pkt, true).unwrap();
    assert_eq!(p.kind, IcmpKind::EchoReply);
    assert_eq!(p.echo, Some((0x1234, 7)));

    let mut max = ip4_opts(1, [10, 0, 0, 1], [10, 0, 0, 2], 8, &[1; 40]);
    max.extend(icmp(0, 0, 0x4321, 9));
    let p = parse_icmp4(&max, true).unwrap();
    assert_eq!(p.kind, IcmpKind::EchoReply);
    assert_eq!(p.echo, Some((0x4321, 9)));

    let mut quoted = ip4_opts(17, [10, 0, 0, 2], [10, 0, 0, 9], 12, &[1, 1, 1, 1]);
    quoted.extend(udp(33000, 33434, 0));
    let mut outer = ip4(1, [10, 0, 0, 5], [10, 0, 0, 2], 8 + quoted.len());
    outer.extend(icmp(11, 0, 0, 0));
    outer.extend(&quoted);
    let p = parse_icmp4(&outer, true).unwrap();
    assert_eq!(p.kind, IcmpKind::TimeExceeded);
    assert_eq!(
        p.inner,
        Some(Inner::Udp { src: ip("10.0.0.2"), dst: ip("10.0.0.9"), src_port: 33000, dst_port: 33434, checksum: 0 })
    );
}

#[test]
fn bogus_ihl_is_rejected() {
    let mut pkt = ip4(1, [10, 0, 0, 1], [10, 0, 0, 2], 8);
    pkt.extend(icmp(0, 0, 1, 1));
    pkt[0] = 0x44;
    assert!(parse_icmp4(&pkt, true).is_none());
    pkt[0] = 0x4f;
    assert!(parse_icmp4(&pkt, true).is_none());
    pkt[0] = 0x64;
    assert!(parse_icmp4(&pkt, true).is_none());
}

#[test]
fn only_stream_protocols_and_real_families_open() {
    let v4 = ip("127.0.0.1");
    let v6 = ip("::1");
    assert!(stream_open_allowed(Protocol::Tcp, 4, &v4, &v4));
    assert!(stream_open_allowed(Protocol::Sctp, 6, &v6, &v6));
    for (proto, version) in [(Protocol::Icmp, 4), (Protocol::Udp, 4), (Protocol::Tcp, 0), (Protocol::Tcp, 6)] {
        assert!(!stream_open_allowed(proto, version, &v4, &v4), "{proto:?}/{version}");
    }
    let e = platform_errnos();
    assert_eq!(connect_outcome(false, Some(Some(e.eperm)), &e), Completion::Pending);
    assert_eq!(connect_outcome(true, None, &e), Completion::Reached);
    assert_eq!(connect_outcome(true, Some(Some(e.econnrefused)), &e), Completion::Reached);
    assert_eq!(connect_outcome(true, Some(Some(e.etimedout)), &e), Completion::Failed(Some(e.etimedout)));
}

use mtr_rs::stream::{stream_open_failed, STREAM_ATTEMPTS};

#[test]
fn a_taken_source_port_moves_a_stream_probe_to_the_next_sequence_number() {
    let e = platform_errnos();
    let params = CProbeParams { protocol: Protocol::Tcp, dest_port: 443, ..Default::default() };
    let mut t = ProbeTable::new();
    let i = t.alloc_probe(5, 0, 10).unwrap();
    let first = t.probes[i].sequence;
    assert_eq!(first, MIN_PORT);
    assert!(stream_open_failed(&mut t, i, Some(e.eaddrinuse), &params, &e));
    assert_eq!(t.probes[i].sequence, MIN_PORT + 1);
    assert!(stream_open_failed(&mut t, i, Some(e.eaddrnotavail), &params, &e));
    assert_eq!(t.probes[i].sequence, MIN_PORT + 2);
    assert_eq!(t.probes[i].remote.port, 0);
    assert_eq!(t.probes[i].token, 5);
    assert!(!stream_open_failed(&mut t, i, Some(e.econnrefused), &params, &e));
    assert_eq!(t.probes[i].remote.port, 443);
    assert_eq!(t.probes[i].sequence, MIN_PORT + 2);
    assert!(!stream_open_failed(&mut t, i, None, &CProbeParams { protocol: Protocol::Tcp, ..Default::default() }, &e));
    assert_eq!(t.probes[i].remote.port, HTTP_PORT);
    assert_eq!(STREAM_ATTEMPTS, MAX_PORT - MIN_PORT);
}

#[test]
fn expiry_keeps_exactly_the_probes_not_yet_due() {
    let mut t = ProbeTable::new();
    for (token, timeout) in [(1, 3), (2, 1), (3, 2), (4, 1), (5, 5)] {
        t.alloc_probe(token, 0, timeout).unwrap();
    }
    let mut out = Vec::new();
    t.expire(2_000_001, &mut out);
    let mut left: Vec<i32> = t.probes.iter().map(|p| p.token).collect();
    left.sort();
    assert_eq!(left, vec![1, 5]);
    let mut gone: Vec<i32> = out.iter().map(|r| r.token).collect();
    gone.sort();
    assert_eq!(gone, vec![2, 3, 4]);
    assert!(out.iter().all(|r| r.kind == ResponseKind::NoReply));
}

#[test]
fn the_checksum_ignores_the_order_of_words() {
    let a = [0x12, 0x34, 0xab, 0xcd, 0x00, 0x01, 0xff, 0x00];
    let b = [0xff, 0x00, 0x12, 0x34, 0x00, 0x01, 0xab, 0xcd];
    assert_eq!(checksum(&a), checksum(&b));
    let c = [0x34, 0x12, 0xab, 0xcd, 0x00, 0x01, 0xff, 0x00];
    assert_ne!(checksum(&a), checksum(&c), "bytes within a word are not words");
}

use mtr_rs::construct::ICMP_HEADER;
use mtr_rs::deconstruct::{ICMP_ORIGINAL_DATAGRAM_MIN_SIZE, MAX_MPLS_LABELS};

#[test]
fn probes_exhausted_when_the_table_is_full() {
    let mut h = helper();
    for i in 0..mtr_rs::probe_table::MAX_PROBES {
        h.table.alloc_probe(i as i32, 0, 60).unwrap();
    }
    assert_eq!(one(&mut h, "99 send-probe ip-4 8.8.8.8").kind, ResponseKind::ProbesExhausted);
}

#[test]
fn time_exceeded_exposes_the_inner_icmp_udp_and_tcp_headers() {
    let inner_icmp = {
        let mut v = ip4(1, [10, 0, 0, 2], [8, 8, 8, 8], 8);
        v.extend(icmp(8, 0, 0x1234, 33435));
        v
    };
    let mut pkt = ip4(1, [10, 0, 0, 1], [10, 0, 0, 2], 8 + inner_icmp.len());
    pkt.extend(icmp(11, 0, 0, 0));
    pkt.extend(&inner_icmp);
    let p = parse_icmp4(&pkt, true).unwrap();
    assert_eq!(p.kind, IcmpKind::TimeExceeded);
    assert_eq!(p.inner, Some(Inner::Icmp { id: 0x1234, sequence: 33435 }));

    let mut pkt = ip4(1, [10, 0, 0, 1], [10, 0, 0, 2], 8 + 20 + 12);
    pkt.extend(icmp(3, 3, 0, 0));
    pkt.extend(ip4(17, [10, 0, 0, 2], [8, 8, 8, 8], 12));
    pkt.extend(udp(5555, 33436, 0));
    let p = parse_icmp4(&pkt, true).unwrap();
    assert_eq!(p.kind, IcmpKind::DestUnreach { code: 3 });
    assert_eq!(
        p.inner,
        Some(Inner::Udp { src: ip("10.0.0.2"), dst: ip("8.8.8.8"), src_port: 5555, dst_port: 33436, checksum: 0 })
    );

    let mut pkt = ip4(1, [10, 0, 0, 1], [10, 0, 0, 2], 8 + 20 + 8);
    pkt.extend(icmp(11, 0, 0, 0));
    pkt.extend(ip4(6, [10, 0, 0, 2], [8, 8, 8, 8], 8));
    pkt.extend(33437u16.to_be_bytes());
    pkt.extend([0, 80, 0, 0, 0, 0]);
    assert_eq!(parse_icmp4(&pkt, true).unwrap().inner, Some(Inner::Stream { src_port: 33437 }));
}

#[test]
fn truncated_and_garbage_buffers_are_rejected_without_panicking() {
    let mut mpls_icmp = icmp(11, 0, 0, 0);
    let mut inner = ip4(1, [10, 0, 0, 2], [8, 8, 8, 8], 8);
    inner.extend(icmp(8, 0, 0x1234, 33435));
    inner.resize(128, 0);
    mpls_icmp.extend(inner);
    mpls_icmp.extend_from_slice(&[0x20, 0, 0, 0]);
    mpls_icmp.extend_from_slice(&[0, 12, 1, 1]);
    mpls_icmp.extend_from_slice(&[0x00, 0x01, 0x01, 0xff]);
    mpls_icmp.extend_from_slice(&[0x03, 0xe8, 0x06, 0x01]);
    let mut v6 = icmp(3, 0, 0, 0);
    v6.extend(vec![0x60, 0, 0, 0, 0, 12, 17, 64]);
    v6.extend(vec![0u8; 32]);
    v6.extend(udp(40000, 164, 0));
    let mut raw4 = ip4(1, [10, 0, 0, 1], [10, 0, 0, 2], mpls_icmp.len());
    raw4.extend(&mpls_icmp);
    let garbage: Vec<u8> = (0u32..300).map(|i| (i.wrapping_mul(37) ^ 0x5a) as u8).collect();

    for buf in [&mpls_icmp, &v6, &raw4, &garbage] {
        for n in 0..=buf.len() {
            let b = &buf[..n];
            let _ = parse_icmp4(b, true);
            let _ = parse_icmp4(b, false);
            let _ = parse_icmp6(b);
            let _ = decode_mpls(b);
        }
    }

    let ext = |objs: &[u8]| {
        let mut v = icmp(11, 0, 0, 0);
        v.resize(ICMP_HEADER + ICMP_ORIGINAL_DATAGRAM_MIN_SIZE, 0);
        v.extend_from_slice(&[0x20, 0, 0, 0]);
        v.extend_from_slice(objs);
        v
    };
    assert!(decode_mpls(&ext(&[0, 0, 1, 1, 0, 8, 1, 1])).is_empty(), "len 0");
    assert!(decode_mpls(&ext(&[0, 99, 1, 1])).is_empty(), "len past the end");
    assert!(decode_mpls(&ext(&[0, 4, 2, 1])).is_empty(), "no MPLS object");
    assert_eq!(
        decode_mpls(&ext(&[0, 4, 2, 1, 0, 8, 1, 1, 0x00, 0x01, 0x01, 0x40])),
        vec![MplsLabel { label: 16, tc: 0, bottom_of_stack: true, ttl: 0x40 }],
        "the MPLS object after a skipped one"
    );
    let mut many = vec![0u8, 4 + 4 * 12, 1, 1];
    for i in 0..12u8 {
        many.extend_from_slice(&[0, 0, 0x01, i]);
    }
    assert_eq!(decode_mpls(&ext(&many)).len(), MAX_MPLS_LABELS);
}

use mtr_rs::deconstruct::Parsed;

const OUR_ECHO_ID: u16 = 0x2a2a;

/// A table holding token 7 as the probe with sequence 33435 from 10.0.0.2 to 8.8.8.8.
fn one_probe_table() -> ProbeTable {
    let mut t = ProbeTable::new();
    let i = t.alloc_probe(7, 0, 10).unwrap();
    t.probes[i].sequence = 33435;
    t.probes[i].remote = SockAddr { ip: ip("8.8.8.8"), port: 0 };
    t.probes[i].local = SockAddr { ip: ip("10.0.0.2"), port: 0 };
    t
}

fn labels_reach_the_reply_line() {
    let mut t = one_probe_table();
    let parsed = Parsed {
        kind: IcmpKind::TimeExceeded,
        echo: None,
        inner: Some(Inner::Icmp { id: OUR_ECHO_ID, sequence: 33435 }),
        mpls: vec![MplsLabel { label: 16, tc: 0, bottom_of_stack: true, ttl: 255 }],
    };
    let mut out = Vec::new();
    mtr_rs::replies::deliver(&mut t, &parsed, 4, OUR_ECHO_ID, ip("10.0.0.1"), 0, &mut out);
    assert_eq!(out.len(), 1);
    let line = out[0].encode();
    assert!(line.starts_with("7 ttl-expired ip-4 10.0.0.1 round-trip-time "), "{line}");
    assert!(line.trim_end().ends_with(" mpls 16,0,1,255"), "{line}");
    assert!(t.is_empty());
}

fn time_exceeded_bytes_give_a_labelled_reply_line() {
    let quoted = |id: u16| {
        let mut icmp = vec![11u8, 0, 0, 0, 0, 0, 0, 0];
        let mut inner = vec![0x45u8, 0, 0, 28, 0, 0, 0, 0, 64, 1, 0, 0];
        inner.extend_from_slice(&[10, 0, 0, 2]);
        inner.extend_from_slice(&[8, 8, 8, 8]);
        inner.extend_from_slice(&[8, 0, 0, 0]);
        inner.extend_from_slice(&id.to_be_bytes());
        inner.extend_from_slice(&33435u16.to_be_bytes());
        inner.resize(128, 0);
        icmp.extend(inner);
        icmp
    };
    let with_labels = |n: u8| {
        let mut icmp = quoted(OUR_ECHO_ID);
        icmp.extend_from_slice(&[0x20, 0, 0, 0]);
        icmp.extend_from_slice(&[0, 4 + 4 * n, 1, 1]);
        for i in 0..n {
            icmp.extend_from_slice(&[0x00, 0x01, 0x01 | (i << 4), 0xff]);
        }
        icmp
    };
    let encode = |icmp: &[u8]| {
        let mut t = one_probe_table();
        let parsed = parse_icmp4(icmp, false).unwrap();
        let mut out = Vec::new();
        mtr_rs::replies::deliver(&mut t, &parsed, 4, OUR_ECHO_ID, ip("10.0.0.1"), 0, &mut out);
        assert_eq!(out.len(), 1, "{out:?}");
        out[0].encode()
    };

    let line = encode(&with_labels(2));
    assert!(line.starts_with("7 ttl-expired ip-4 10.0.0.1 round-trip-time "), "{line}");
    assert!(line.trim_end().ends_with(" mpls 16,0,1,255,17,0,1,255"), "{line}");

    let capped = encode(&with_labels(10));
    let list = capped.split(" mpls ").nth(1).unwrap().trim_end();
    assert_eq!(list.split(',').count(), 4 * MAX_MPLS_LABELS, "{capped}");

    let bare = encode(&quoted(OUR_ECHO_ID));
    assert!(bare.starts_with("7 ttl-expired ip-4 10.0.0.1 round-trip-time "), "{bare}");
    assert!(!bare.contains(" mpls "), "{bare}");
}

#[test]
fn mod_mpls_labels_reach_the_reply_line() {
    labels_reach_the_reply_line();
}

#[test]
fn tests_mpls_labels_reach_the_reply_line() {
    labels_reach_the_reply_line();
}

#[test]
fn mod_synthetic_time_exceeded_bytes_produce_an_mpls_reply_line() {
    time_exceeded_bytes_give_a_labelled_reply_line();
}

#[test]
fn tests_synthetic_time_exceeded_bytes_produce_an_mpls_reply_line() {
    time_exceeded_bytes_give_a_labelled_reply_line();
}

fn table_with(seq: u16, protocol: Protocol, local: (&str, u16), remote: (&str, u16)) -> ProbeTable {
    let mut t = ProbeTable::new();
    let i = t.alloc_probe(1, 0, 10).unwrap();
    t.probes[i].sequence = seq;
    t.probes[i].protocol = protocol;
    t.probes[i].local = SockAddr { ip: ip(local.0), port: local.1 };
    t.probes[i].remote = SockAddr { ip: ip(remote.0), port: remote.1 };
    t
}

fn udp_inner(dst_port: u16, src_port: u16, checksum: u16, src: &str, dst: &str) -> Inner {
    Inner::Udp { src: ip(src), dst: ip(dst), src_port, dst_port, checksum }
}

#[test]
fn matching_follows_find_probe_and_handle_inner_rules() {
    let t = table_with(33434, Protocol::Icmp, ("10.0.0.2", 0), ("8.8.8.8", 0));
    let echo = Parsed { kind: IcmpKind::EchoReply, echo: Some((0x1234, 33434)), inner: None, mpls: vec![] };
    assert_eq!(match_reply(&t, &echo, 4, 0x1234), Some((0, ProbeResult::Reply)));
    assert_eq!(match_reply(&t, &echo, 4, 0x9999), None, "foreign ICMP id");
    let exp = Parsed {
        kind: IcmpKind::TimeExceeded,
        echo: None,
        inner: Some(Inner::Icmp { id: 0x1234, sequence: 33434 }),
        mpls: vec![],
    };
    assert_eq!(match_reply(&t, &exp, 4, 0x1234), Some((0, ProbeResult::TtlExpired)));

    let t = table_with(33436, Protocol::Udp, ("10.0.0.2", 5555), ("8.8.8.8", 33436));
    let ok = || Parsed {
        kind: IcmpKind::DestUnreach { code: 3 },
        echo: None,
        inner: Some(udp_inner(33436, 5555, 0, "10.0.0.2", "8.8.8.8")),
        mpls: vec![],
    };
    assert_eq!(match_reply(&t, &ok(), 4, 1), Some((0, ProbeResult::Reply)));
    let other_code = Parsed { kind: IcmpKind::DestUnreach { code: 1 }, ..ok() };
    assert_eq!(match_reply(&t, &other_code, 4, 1), Some((0, ProbeResult::NoRouteHost)));
    let wrong_src_port = Parsed { inner: Some(udp_inner(33436, 4444, 0, "10.0.0.2", "8.8.8.8")), ..ok() };
    assert_eq!(match_reply(&t, &wrong_src_port, 4, 1), None);
    let wrong_addr = Parsed { inner: Some(udp_inner(33436, 5555, 0, "10.0.0.9", "8.8.8.8")), ..ok() };
    assert_eq!(match_reply(&t, &wrong_addr, 4, 1), None);
    let t = table_with(33440, Protocol::Udp, ("10.0.0.2", 1991), ("8.8.8.8", 990));
    let by_csum = Parsed {
        kind: IcmpKind::TimeExceeded,
        echo: None,
        inner: Some(udp_inner(990, 1991, 33440, "10.0.0.2", "8.8.8.8")),
        mpls: vec![],
    };
    assert_eq!(match_reply(&t, &by_csum, 4, 1), Some((0, ProbeResult::TtlExpired)));

    let t = table_with(33437, Protocol::Tcp, ("10.0.0.2", 33437), ("8.8.8.8", 80));
    let tcp = Parsed { kind: IcmpKind::TimeExceeded, echo: None, inner: Some(Inner::Stream { src_port: 33437 }), mpls: vec![] };
    assert_eq!(match_reply(&t, &tcp, 4, 1), Some((0, ProbeResult::TtlExpired)));
}

#[test]
fn icmpv6_time_exceeded_with_inner_udp() {
    let mut pkt = icmp(3, 0, 0, 0);
    let mut ip6 = vec![0x60, 0, 0, 0, 0, 12, 17, 64];
    ip6.extend_from_slice(&[0x20, 0x01, 0x0d, 0xb8, 0, 0, 0, 0, 0, 0, 0, 0, 0, 0, 0, 2]);
    ip6.extend_from_slice(&[0x20, 0x01, 0x0d, 0xb8, 0, 0, 0, 0, 0, 0, 0, 0, 0, 0, 0, 9]);
    pkt.extend(ip6);
    pkt.extend(udp(40000, 164, 0));
    let p = parse_icmp6(&pkt).unwrap();
    assert_eq!(p.kind, IcmpKind::TimeExceeded);
    assert!(matches!(p.inner, Some(Inner::Udp { src_port: 40000, dst_port: 164, .. })));
    let mut echo = icmp(129, 0, 7, 33438);
    echo.extend_from_slice(&[0; 8]);
    assert_eq!(parse_icmp6(&echo).unwrap().echo, Some((7, 33438)));
    let mut unreach = icmp(1, 4, 0, 0);
    unreach.extend(vec![0u8; 60]);
    assert_eq!(parse_icmp6(&unreach).unwrap().kind, IcmpKind::DestUnreach { code: 4 });
}
