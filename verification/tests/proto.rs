use mtr_rs::cdecode::{check_support_feature, strtol_full};
use mtr_rs::error::ParseError;
use mtr_rs::ipaddr::{IpAddr, Ipv4Addr, Ipv6Addr};
use mtr_rs::mpls::{format_mpls_list, parse_mpls_list, MplsLabel};
use mtr_rs::request::{Feature, ProbeParams, Protocol, Request, RequestKind};
use mtr_rs::response::{InvalidReason, ProbeResult, Response, ResponseKind};
use mtr_rs::tokenize::{parse_token, tokenize};

fn ip(s: &str) -> IpAddr {
    IpAddr::parse_text(s).unwrap()
}

// ---------------------------------------------------------------------------------------------
// tokenize
// ---------------------------------------------------------------------------------------------
#[test]
fn splits_token_name_and_pairs() {
    let l = tokenize("5 send-probe ip-4 1.2.3.4 ttl 3").unwrap();
    assert_eq!(l.token, 5);
    assert_eq!(l.name, "send-probe");
    assert_eq!(l.args, vec![("ip-4", "1.2.3.4"), ("ttl", "3")]);
}

#[test]
fn accepts_any_c_isspace_separator_including_cr() {
    let l = tokenize("7\tno-reply \r\n").unwrap();
    assert_eq!((l.token, l.name, l.args.len()), (7, "no-reply", 0));
    let l = tokenize("  8 \x0b\x0creply  ip-4   10.0.0.1  ").unwrap();
    assert_eq!(l.args, vec![("ip-4", "10.0.0.1")]);
}

#[test]
fn rejects_short_odd_and_oversized_lines() {
    assert_eq!(tokenize("").unwrap_err(), ParseError::TooShort);
    assert_eq!(tokenize("   ").unwrap_err(), ParseError::TooShort);
    assert_eq!(tokenize("5").unwrap_err(), ParseError::TooShort);
    assert_eq!(tokenize("5 send-probe ttl").unwrap_err(), ParseError::DanglingKey);
    let mut big = String::from("5 send-probe");
    for i in 0..17 {
        big.push_str(&format!(" k{i} v{i}"));
    }
    assert_eq!(tokenize(&big).unwrap_err(), ParseError::TooManyArguments);
    big.truncate(big.len() - " k16 v16".len());
    assert_eq!(tokenize(&big).unwrap().args.len(), 16);
}

#[test]
fn first_and_last_lookup() {
    let l = tokenize("1 check-support feature udp feature tcp").unwrap();
    assert_eq!(l.first("feature"), Some("udp"));
    assert_eq!(l.last("feature"), Some("tcp"));
    assert_eq!(l.first("nope"), None);
}

#[test]
fn token_parses_like_strtol_base_10_narrowed_to_int() {
    assert_eq!(parse_token("42").unwrap(), 42);
    assert_eq!(parse_token("-3").unwrap(), -3);
    assert_eq!(parse_token("+9").unwrap(), 9);
    assert_eq!(parse_token("12abc").unwrap(), 12);
    assert_eq!(parse_token("abc").unwrap(), 0);
    assert_eq!(parse_token("4294967297").unwrap(), 1);
    assert_eq!(parse_token("99999999999999999999").unwrap_err(), ParseError::TokenOverflow);
}

#[test]
fn token_handles_long_min_boundary() {
    assert_eq!(parse_token("-9223372036854775808").unwrap(), 0);
    assert_eq!(parse_token("9223372036854775808").unwrap_err(), ParseError::TokenOverflow);
    assert_eq!(parse_token("-9223372036854775809").unwrap_err(), ParseError::TokenOverflow);
}

#[test]
fn token_sign_only_returns_zero() {
    assert_eq!(parse_token("-").unwrap(), 0);
    assert_eq!(parse_token("+").unwrap(), 0);
}

// ---------------------------------------------------------------------------------------------
// mpls
// ---------------------------------------------------------------------------------------------
#[test]
fn parses_flat_comma_list_in_groups_of_four() {
    let v = parse_mpls_list("16001,0,1,1,16002,2,0,255").unwrap();
    assert_eq!(
        v,
        vec![
            MplsLabel { label: 16001, tc: 0, bottom_of_stack: true, ttl: 1 },
            MplsLabel { label: 16002, tc: 2, bottom_of_stack: false, ttl: 255 },
        ]
    );
}

#[test]
fn trailing_partial_group_is_dropped_and_labels_capped_at_eight() {
    assert_eq!(parse_mpls_list("1,2,3,4,5,6").unwrap().len(), 1);
    let many = (0..40).map(|i| i.to_string()).collect::<Vec<_>>().join(",");
    assert_eq!(parse_mpls_list(&many).unwrap().len(), 8);
}

#[test]
fn non_numeric_field_is_an_error() {
    assert!(parse_mpls_list("1,x,3,4").is_err());
    assert!(parse_mpls_list("").is_err());
}

#[test]
fn formats_like_probe_c() {
    let mut s = String::new();
    format_mpls_list(
        &[
            MplsLabel { label: 16001, tc: 0, bottom_of_stack: true, ttl: 1 },
            MplsLabel { label: 7, tc: 3, bottom_of_stack: false, ttl: 9 },
        ],
        &mut s,
    );
    assert_eq!(s, "16001,0,1,1,7,3,0,9");
}

#[test]
fn stops_at_eight_labels_ignoring_garbage_after() {
    let mut s = (0..32).map(|i| i.to_string()).collect::<Vec<_>>().join(",");
    s.push_str(",x");
    assert_eq!(parse_mpls_list(&s).unwrap().len(), 8);
}

#[test]
fn drops_trailing_partial_and_stops_at_cap() {
    let many = (0..35).map(|i| i.to_string()).collect::<Vec<_>>().join(",");
    assert_eq!(parse_mpls_list(&many).unwrap().len(), 8);
}

#[test]
fn malformed_before_cap_is_error() {
    assert!(parse_mpls_list("1,x,3,4").is_err());
    assert!(parse_mpls_list("1,2,3,4,x").is_err());
}

#[test]
fn negative_fields_wrap_like_strtol_into_unsigned() {
    let v = parse_mpls_list("-1,-1,-1,-1").unwrap();
    assert_eq!(v[0], MplsLabel { label: u32::MAX, tc: 255, bottom_of_stack: true, ttl: 255 });
}

#[test]
fn mpls_text_reads_back_as_the_labels() {
    let labels = vec![
        MplsLabel { label: 1048575, tc: 7, bottom_of_stack: true, ttl: 0 },
        MplsLabel { label: 0, tc: 0, bottom_of_stack: false, ttl: 255 },
    ];
    let mut s = String::new();
    format_mpls_list(&labels, &mut s);
    assert_eq!(parse_mpls_list(&s).unwrap(), labels);
}

#[test]
fn malformed_mpls_error_names_the_list() {
    assert_eq!(parse_mpls_list("1,x"), Err(ParseError::MalformedMpls("1,x".to_string())));
}

// ---------------------------------------------------------------------------------------------
// cdecode
// ---------------------------------------------------------------------------------------------
#[test]
fn strtol_full_accepts_whole_decimal_integers_only() {
    assert_eq!(strtol_full("42"), Some(42));
    assert_eq!(strtol_full("-7"), Some(-7));
    assert_eq!(strtol_full("+9"), Some(9));
    assert_eq!(strtol_full("  12"), Some(12));
    assert_eq!(strtol_full("12abc"), None);
    assert_eq!(strtol_full("abc"), None);
    assert_eq!(strtol_full(""), None);
    assert_eq!(strtol_full("-"), None);
    assert_eq!(strtol_full("99999999999999999999"), Some(i64::MAX));
    assert_eq!(strtol_full("-99999999999999999999"), Some(i64::MIN));
}

#[test]
fn check_support_feature_is_the_first_occurrence() {
    let l = tokenize("30 check-support feature version feature ip-4").unwrap();
    assert_eq!(check_support_feature(&l), Some("version"));
    assert_eq!(check_support_feature(&tokenize("31 check-support").unwrap()), None);
}

// ---------------------------------------------------------------------------------------------
// addresses
// ---------------------------------------------------------------------------------------------
#[test]
fn address_text_follows_the_display_form() {
    let mut v = Vec::new();
    mtr_rs::ipaddr::push_ip(&mut v, &ip("2001:db8:0:0:1:0:0:1"));
    assert_eq!(v.iter().collect::<String>(), "2001:db8::1:0:0:1");
    let mut v = Vec::new();
    mtr_rs::ipaddr::push_ip(&mut v, &ip("::ffff:192.0.2.1"));
    assert_eq!(v.iter().collect::<String>(), "::ffff:192.0.2.1");
    assert_eq!(ip("10.0.0.1"), IpAddr::V4(Ipv4Addr { a: 10, b: 0, c: 0, d: 1 }));
    assert_eq!(
        ip("::1"),
        IpAddr::V6(Ipv6Addr { s0: 0, s1: 0, s2: 0, s3: 0, s4: 0, s5: 0, s6: 0, s7: 1 })
    );
    assert_eq!(IpAddr::parse_text("01.2.3.4"), None);
    assert_eq!(IpAddr::parse_text("1::2::3"), None);
    assert_eq!(IpAddr::parse_text("12345::"), None);
}

// ---------------------------------------------------------------------------------------------
// requests
// ---------------------------------------------------------------------------------------------
#[test]
fn encodes_check_support_like_cmdpipe() {
    let r = Request { token: 1, kind: RequestKind::CheckSupport { feature: Feature::SendProbe } };
    assert_eq!(r.encode(), "1 check-support feature send-probe\n");
}

#[test]
fn encodes_send_probe_in_cmdpipe_field_order() {
    let mut p = ProbeParams::new(ip("192.0.2.1"));
    p.local_ip = Some(ip("192.0.2.100"));
    p.size = Some(64);
    p.bit_pattern = Some(0);
    p.tos = Some(0);
    p.ttl = Some(1);
    p.timeout_s = Some(10);
    p.port = Some(80);
    p.local_port = Some(33001);
    p.mark = Some(7);
    p.local_device = Some("eth0".into());
    let r = Request { token: 33000, kind: RequestKind::SendProbe(p) };
    assert_eq!(
        r.encode(),
        "33000 send-probe ip-4 192.0.2.1 local-ip-4 192.0.2.100 protocol icmp size 64 bit-pattern 0 tos 0 ttl 1 timeout 10 port 80 local-port 33001 mark 7 local-device eth0\n"
    );
}

#[test]
fn encodes_ipv6_keys_and_omits_absent_fields() {
    let mut p = ProbeParams::new(ip("2001:db8::1"));
    p.local_ip = Some(ip("2001:db8::2"));
    p.protocol = Protocol::Udp;
    let r = Request { token: 5, kind: RequestKind::SendProbe(p) };
    assert_eq!(r.encode(), "5 send-probe ip-6 2001:db8::1 local-ip-6 2001:db8::2 protocol udp\n");
}

#[test]
fn parses_send_probe_with_defaults_and_ignores_unknown_args() {
    let r = Request::parse("42 send-probe ip-4 10.0.0.1 ttl 3 frobnicate yes\n").unwrap();
    assert_eq!(r.token, 42);
    let RequestKind::SendProbe(p) = r.kind else { panic!("not a probe") };
    assert_eq!(p.target, ip("10.0.0.1"));
    assert_eq!(p.ttl, Some(3));
    assert_eq!(p.protocol, Protocol::Icmp);
    assert_eq!(p.size, None);
    assert_eq!(p.local_ip, None);
}

#[test]
fn negative_bit_pattern_is_truncated_like_memset() {
    let r = Request::parse("1 send-probe ip-4 10.0.0.1 bit-pattern -257").unwrap();
    let RequestKind::SendProbe(p) = r.kind else { panic!("not a probe") };
    assert_eq!(p.bit_pattern, Some(255));
}

#[test]
fn last_duplicate_wins_for_send_probe_first_for_check_support() {
    let r = Request::parse("1 send-probe ip-4 10.0.0.1 ttl 3 ttl 9").unwrap();
    let RequestKind::SendProbe(p) = r.kind else { panic!("not a probe") };
    assert_eq!(p.ttl, Some(9));
    let r = Request::parse("1 check-support feature udp feature tcp").unwrap();
    assert_eq!(r.kind, RequestKind::CheckSupport { feature: Feature::Udp });
}

#[test]
fn local_ip_family_follows_target() {
    let r = Request::parse("1 send-probe ip-6 2001:db8::9 local-ip-6 2001:db8::1").unwrap();
    let RequestKind::SendProbe(p) = r.kind else { panic!("not a probe") };
    assert_eq!(p.local_ip, Some(ip("2001:db8::1")));
    assert!(Request::parse("1 send-probe ip-4 10.0.0.1 local-ip-4 zzz").is_err());
}

#[test]
fn rejects_bad_input() {
    assert_eq!(Request::parse("1 send-probe ttl 3"), Err(ParseError::MissingArgument("ip-4")));
    assert_eq!(
        Request::parse("1 send-probe ip-4 10.0.0.1 port 70000"),
        Err(ParseError::InvalidValue { name: "port", value: "70000".into() })
    );
    assert_eq!(
        Request::parse("1 send-probe ip-4 10.0.0.1 protocol gre"),
        Err(ParseError::InvalidValue { name: "protocol", value: "gre".into() })
    );
    assert_eq!(Request::parse("1 frobnicate a b"), Err(ParseError::UnknownCommand("frobnicate".into())));
    assert_eq!(Request::parse("1 check-support"), Err(ParseError::MissingArgument("feature")));
    assert_eq!(
        Request::parse("1 check-support feature warp"),
        Err(ParseError::UnknownFeature("warp".into()))
    );
}

#[test]
fn round_trips() {
    let line = "33000 send-probe ip-4 192.0.2.1 local-ip-4 192.0.2.100 protocol tcp size 64 bit-pattern 0 tos 0 ttl 1 timeout 10 port 443\n";
    assert_eq!(Request::parse(line).unwrap().encode(), line);
}

#[test]
fn every_field_of_a_request_reads_back() {
    let mut p = ProbeParams::new(ip("2001:db8::ffff:0:1"));
    p.local_ip = Some(ip("::"));
    p.local_device = Some("wlan0".into());
    p.protocol = Protocol::Sctp;
    p.size = Some(65535);
    p.bit_pattern = Some(255);
    p.tos = Some(255);
    p.ttl = Some(0);
    p.timeout_s = Some(u32::MAX);
    p.port = Some(0);
    p.local_port = Some(65535);
    p.mark = Some(u32::MAX);
    let r = Request { token: i32::MIN, kind: RequestKind::SendProbe(p) };
    assert_eq!(Request::parse(&r.encode()).unwrap(), r);
    let r = Request { token: -1, kind: RequestKind::CheckSupport { feature: Feature::Ip6 } };
    assert_eq!(Request::parse(&r.encode()).unwrap(), r);
}

#[test]
fn names_read_back() {
    for p in [Protocol::Icmp, Protocol::Udp, Protocol::Tcp, Protocol::Sctp] {
        assert_eq!(Protocol::parse(p.as_str()), Some(p));
        assert_eq!(Feature::for_protocol(p).as_str(), p.as_str());
    }
    assert_eq!(Protocol::default(), Protocol::Icmp);
    for f in [Feature::Version, Feature::Ip4, Feature::Ip6, Feature::SendProbe, Feature::Mark] {
        assert_eq!(Feature::parse(f.as_str()), Some(f));
    }
    assert_eq!(Feature::parse("nope"), None);
    for r in [InvalidReason::IpVersionNotSupported, InvalidReason::ProtocolNotSupported] {
        assert_eq!(InvalidReason::parse(r.as_str()), Some(r));
    }
}

// ---------------------------------------------------------------------------------------------
// responses
// ---------------------------------------------------------------------------------------------
#[test]
fn encodes_reply_with_mpls() {
    let r = Response {
        token: 33000,
        kind: ResponseKind::Probe {
            result: ProbeResult::TtlExpired,
            addr: ip("10.0.0.1"),
            rtt_us: 1234,
            mpls: vec![
                MplsLabel { label: 16001, tc: 0, bottom_of_stack: true, ttl: 1 },
                MplsLabel { label: 16002, tc: 2, bottom_of_stack: false, ttl: 255 },
            ],
        },
    };
    assert_eq!(
        r.encode(),
        "33000 ttl-expired ip-4 10.0.0.1 round-trip-time 1234 mpls 16001,0,1,1,16002,2,0,255\n"
    );
}

#[test]
fn parses_reply() {
    let r = Response::parse("33001 reply ip-4 192.0.2.1 round-trip-time 987\n").unwrap();
    assert_eq!(
        r,
        Response {
            token: 33001,
            kind: ResponseKind::Probe {
                result: ProbeResult::Reply,
                addr: ip("192.0.2.1"),
                rtt_us: 987,
                mpls: vec![]
            },
        }
    );
    let r = Response::parse("2 reply ip-6 2001:db8::1 round-trip-time 5").unwrap();
    assert!(matches!(r.kind, ResponseKind::Probe { addr: IpAddr::V6(_), .. }));
}

#[test]
fn no_route_host_has_two_forms() {
    assert_eq!(Response::parse("7 no-route-host").unwrap().kind, ResponseKind::NoRouteHost);
    assert!(matches!(
        Response::parse("7 no-route-host ip-4 10.0.0.9 round-trip-time 5").unwrap().kind,
        ResponseKind::Probe { result: ProbeResult::NoRouteHost, .. }
    ));
}

#[test]
fn feature_support_carries_ok_no_or_a_version() {
    assert_eq!(
        Response::parse("1 feature-support support ok").unwrap().kind,
        ResponseKind::FeatureSupport("ok".into())
    );
    assert_eq!(
        Response::parse("1 feature-support support 0.96").unwrap().kind,
        ResponseKind::FeatureSupport("0.96".into())
    );
    assert_eq!(
        Response { token: 1, kind: ResponseKind::FeatureSupport("no".into()) }.encode(),
        "1 feature-support support no\n"
    );
}

#[test]
fn keeps_upstream_typo_on_the_wire() {
    let r = Response { token: 3, kind: ResponseKind::WaitTcpResponseTimeout };
    assert_eq!(r.encode(), "3 wait-tcp-respone-timeout\n");
    assert_eq!(Response::parse(&r.encode()).unwrap(), r);
}

#[test]
fn parses_and_encodes_every_bare_response() {
    let cases = [
        ("0 command-parse-error", ResponseKind::CommandParseError),
        ("0 command-buffer-overflow", ResponseKind::CommandBufferOverflow),
        ("5 unknown-command", ResponseKind::UnknownCommand),
        ("5 probes-exhausted", ResponseKind::ProbesExhausted),
        ("5 permission-denied", ResponseKind::PermissionDenied),
        ("5 address-in-use", ResponseKind::AddressInUse),
        ("5 address-not-available", ResponseKind::AddressNotAvailable),
        ("5 network-down", ResponseKind::NetworkDown),
        ("5 host-down", ResponseKind::HostDown),
        ("5 no-route-network", ResponseKind::NoRouteNetwork),
        ("5 no-reply", ResponseKind::NoReply),
        ("5 unexpected-error errno 22", ResponseKind::UnexpectedError { errno: 22 }),
        ("5 invalid-argument", ResponseKind::InvalidArgument { reason: None }),
        (
            "5 invalid-argument reason protocol-not-supported",
            ResponseKind::InvalidArgument { reason: Some(InvalidReason::ProtocolNotSupported) },
        ),
        (
            "5 invalid-argument reason ip-version-not-supported",
            ResponseKind::InvalidArgument { reason: Some(InvalidReason::IpVersionNotSupported) },
        ),
    ];
    for (line, kind) in cases {
        let r = Response::parse(line).unwrap();
        assert_eq!(r.kind, kind, "{line}");
        assert_eq!(r.encode().trim_end(), line, "{line}");
    }
}

#[test]
fn malformed_mpls_means_no_labels_like_cmdpipe() {
    let r = Response::parse("1 reply ip-4 10.0.0.1 round-trip-time 5 mpls 1,x").unwrap();
    assert!(matches!(r.kind, ResponseKind::Probe { ref mpls, .. } if mpls.is_empty()));
}

#[test]
fn probe_replies_need_address_and_rtt() {
    assert!(Response::parse("1 reply round-trip-time 5").is_err());
    assert!(Response::parse("1 reply ip-4 10.0.0.1").is_err());
    assert!(Response::parse("1 reply ip-4 10.0.0.1 round-trip-time -5").is_err());
    assert!(Response::parse("1 frobnicate").is_err());
}

#[test]
fn fatal_set_matches_cmdpipe_handle_reply_errors() {
    for k in [
        ResponseKind::ProbesExhausted,
        ResponseKind::InvalidArgument { reason: None },
        ResponseKind::PermissionDenied,
        ResponseKind::AddressInUse,
        ResponseKind::AddressNotAvailable,
        ResponseKind::UnexpectedError { errno: 1 },
    ] {
        assert!(k.is_fatal_for_client(), "{k:?}");
    }
    for k in [
        ResponseKind::NoReply,
        ResponseKind::NetworkDown,
        ResponseKind::NoRouteHost,
        ResponseKind::CommandParseError,
    ] {
        assert!(!k.is_fatal_for_client(), "{k:?}");
    }
}

#[test]
fn every_kind_of_response_reads_back() {
    let kinds = vec![
        ResponseKind::Probe {
            result: ProbeResult::NoRouteHost,
            addr: ip("::ffff:10.1.2.3"),
            rtt_us: u32::MAX,
            mpls: vec![MplsLabel { label: 5, tc: 1, bottom_of_stack: true, ttl: 2 }; 8],
        },
        ResponseKind::FeatureSupport("0.3.0".into()),
        ResponseKind::UnexpectedError { errno: i64::MIN },
        ResponseKind::InvalidArgument { reason: Some(InvalidReason::IpVersionNotSupported) },
        ResponseKind::NoRouteHost,
    ];
    for kind in kinds {
        let r = Response { token: i32::MAX, kind };
        assert_eq!(Response::parse(&r.encode()).unwrap(), r);
    }
}

#[test]
fn parse_errors_name_what_was_wrong() {
    assert_eq!(Response::parse("1"), Err(ParseError::TooShort));
    assert_eq!(Response::parse("1 reply ip-4"), Err(ParseError::DanglingKey));
    assert_eq!(Response::parse("1 frob"), Err(ParseError::UnknownCommand("frob".into())));
    assert_eq!(Response::parse("1 feature-support"), Err(ParseError::MissingArgument("support")));
    assert_eq!(
        Response::parse("1 reply ip-6 1.2.3.4 round-trip-time 1"),
        Err(ParseError::InvalidValue { name: "ip-6", value: "1.2.3.4".into() })
    );
    assert_eq!(
        Response::parse("99999999999999999999 reply"),
        Err(ParseError::TokenOverflow)
    );
}

// ---------------------------------------------------------------------------------------------
// the helper's decoding
// ---------------------------------------------------------------------------------------------
use mtr_rs::cdecode::{decode_send_probe, CProbeParams, InvalidArgument};

fn decode(s: &str) -> Result<CProbeParams, InvalidArgument> {
    decode_send_probe(&tokenize(s).unwrap())
}

#[test]
fn defaults_match_send_probe_command() {
    let p = decode("1 send-probe ip-4 8.8.8.8").unwrap();
    assert_eq!(p.ip_version, 4);
    assert_eq!(p.remote_address.as_deref(), Some("8.8.8.8"));
    assert_eq!((p.protocol, p.ttl, p.packet_size, p.timeout), (Protocol::Icmp, 255, 64, 10));
    assert_eq!((p.dest_port, p.local_port, p.type_of_service, p.routing_mark), (0, 0, 0, 0));
}

#[test]
fn missing_address_leaves_ip_version_zero_and_string_addresses_pass_through() {
    assert_eq!(decode("22 send-probe").unwrap().ip_version, 0);
    let p = decode("23 send-probe ip-4 str-value").unwrap();
    assert_eq!(p.remote_address.as_deref(), Some("str-value"));
    let p = decode("2 send-probe ip-6 ::1 local-ip-6 ::1 local-device lo").unwrap();
    assert_eq!((p.ip_version, p.local_address.as_deref(), p.local_device.as_deref()), (6, Some("::1"), Some("lo")));
}

#[test]
fn numeric_arguments_use_strtol_and_reject_trailing_garbage() {
    assert_eq!(decode("24 send-probe ip-4 8.8.8.8 timeout str-value"), Err(InvalidArgument));
    assert_eq!(decode("25 send-probe ip-4 8.8.8.8 ttl str-value"), Err(InvalidArgument));
    let p = decode("3 send-probe ip-4 8.8.8.8 ttl 300 size -5 tos 62 mark 7 bit-pattern 44 timeout 0 port 164").unwrap();
    assert_eq!((p.ttl, p.packet_size, p.type_of_service, p.routing_mark), (300, -5, 62, 7));
    assert_eq!((p.bit_pattern, p.timeout, p.dest_port), (44, 0, 164));
    assert_eq!(decode("4 send-probe ip-4 8.8.8.8 ttl 4294967297").unwrap().ttl, 1);
}

#[test]
fn local_port_below_1024_is_rejected_and_unknown_names_are_ignored() {
    assert_eq!(decode("5 send-probe ip-4 8.8.8.8 local-port 80"), Err(InvalidArgument));
    assert_eq!(decode("5 send-probe ip-4 8.8.8.8 local-port 1991").unwrap().local_port, 1991);
    assert_eq!(decode("6 send-probe ip-4 8.8.8.8 frobnicate 9").unwrap().ip_version, 4);
}

#[test]
fn protocol_names_and_first_bad_occurrence() {
    assert_eq!(decode("7 send-probe protocol udp ip-4 1.1.1.1").unwrap().protocol, Protocol::Udp);
    assert_eq!(decode("7 send-probe protocol sctp ip-4 1.1.1.1").unwrap().protocol, Protocol::Sctp);
    assert_eq!(decode("7 send-probe protocol gre ip-4 1.1.1.1"), Err(InvalidArgument));
    assert_eq!(decode("8 send-probe ip-4 1.1.1.1 ttl 3 ttl 9").unwrap().ttl, 9);
    assert_eq!(decode("8 send-probe ip-4 1.1.1.1 ttl x ttl 9"), Err(InvalidArgument));
}

// ---------------------------------------------------------------------------------------------
// address text
// ---------------------------------------------------------------------------------------------
fn text_of(a: &IpAddr) -> String {
    let mut v = Vec::new();
    mtr_rs::ipaddr::push_ip(&mut v, a);
    v.iter().collect()
}

#[test]
fn address_text_is_the_display_form_and_reads_back() {
    let samples = [
        ("0.0.0.0", "0.0.0.0"),
        ("255.255.255.255", "255.255.255.255"),
        ("192.0.2.100", "192.0.2.100"),
        ("::", "::"),
        ("::1", "::1"),
        ("1::", "1::"),
        ("2001:DB8::1", "2001:db8::1"),
        ("2001:db8:0:0:1:0:0:1", "2001:db8::1:0:0:1"),
        ("2001:0:0:1:0:0:0:1", "2001:0:0:1::1"),
        ("1:2:3:4:5:6:7:8", "1:2:3:4:5:6:7:8"),
        ("::ffff:10.1.2.3", "::ffff:10.1.2.3"),
        ("::ffff:0.0.0.0", "::ffff:0.0.0.0"),
        ("::1.2.3.4", "::102:304"),
        ("fe80::1:2:3:4", "fe80::1:2:3:4"),
        ("0:0:1::", "0:0:1::"),
        ("1:0:2:0:3:0:4:0", "1:0:2:0:3:0:4:0"),
        ("::ffff:1:2", "::ffff:0.1.0.2"),
        ("64:ff9b::1.2.3.4", "64:ff9b::102:304"),
        ("1:2:3:4:5:6:7::", "1:2:3:4:5:6:7:0"),
        ("::2:3:4:5:6:7:8", "0:2:3:4:5:6:7:8"),
        ("1:2:3:4:5:6:1.2.3.4", "1:2:3:4:5:6:102:304"),
        ("0001:02:003::", "1:2:3::"),
    ];
    for (s, shown) in samples {
        let ours = IpAddr::parse_text(s).unwrap_or_else(|| panic!("{s}"));
        assert_eq!(text_of(&ours), shown, "{s}");
        assert_eq!(IpAddr::parse_text(shown), Some(ours), "{s}");
    }
    let refused = [
        "", "1", "1.2.3", "1.2.3.4.5", "256.1.1.1", "01.1.1.1", "1.2.3.04", "+1.2.3.4", ":", ":::",
        "1:2", "1:2:3:4:5:6:7:8:9", "1::2::3", "12345::", "::g", "1.2.3.4::", "::1.2.3", "::1.2.3.4.5",
        "1:2:3:4:5:6:7:1.2.3.4", " ::1", "::1 ", "::ffff:1.2.3.4:5", "fe80::1%eth0", "0x1::",
    ];
    for s in refused {
        assert_eq!(IpAddr::parse_text(s), None, "{s:?}");
    }
}

#[test]
fn a_parsed_line_reencodes_to_the_same_message() {
    let lines = [
        "  +7\tsend-probe ip-6 2001:0DB8:0::0001 ttl 0005 local-ip-6 ::ffff:1.2.3.4 local-device eth0 ip-6 ::2 protocol sctp bit-pattern -1\r\n",
        "-3 check-support feature mark feature udp",
        "4294967297 send-probe ip-4 10.0.0.1 size +64 unknown thing timeout 4294967295",
    ];
    for line in lines {
        let r = Request::parse(line).unwrap();
        assert_eq!(Request::parse(&r.encode()).unwrap(), r, "{line}");
    }
    let replies = [
        "9 reply ip-6 ::1 ip-4 1.2.3.4 round-trip-time 007 mpls 1,2,3,4,x",
        "9 feature-support support 0.96 support no",
        "9 unexpected-error errno nonsense",
        "9 invalid-argument reason warp",
        "9 no-route-host ip-6 fe80::1 round-trip-time 0 mpls 1,2,3,4,5,6,7,8",
    ];
    for line in replies {
        let r = Response::parse(line).unwrap();
        assert_eq!(Response::parse(&r.encode()).unwrap(), r, "{line}");
    }
}

#[test]
fn strtol_full_agrees_with_rust_where_both_read_the_text() {
    for field in ["42", "  +42", "-0", "\t-17", "+9223372036854775807", "-9223372036854775808"] {
        let direct: i64 = field.trim_start().trim_start_matches('+').parse().unwrap();
        assert_eq!(strtol_full(field), Some(direct), "{field:?}");
    }
}

#[test]
fn the_helper_reads_what_the_client_writes() {
    let mut p = ProbeParams::new(ip("2001:db8::7"));
    p.local_ip = Some(ip("2001:db8::1"));
    p.local_device = Some("eth1".into());
    p.protocol = Protocol::Udp;
    p.size = Some(1400);
    p.bit_pattern = Some(170);
    p.tos = Some(16);
    p.ttl = Some(7);
    p.timeout_s = Some(4294967295);
    p.port = Some(33434);
    p.local_port = Some(40000);
    p.mark = Some(4294967295);
    let line = Request { token: 12, kind: RequestKind::SendProbe(p) }.encode();
    let c = decode_send_probe(&tokenize(&line).unwrap()).unwrap();
    assert_eq!(c.ip_version, 6);
    assert_eq!(c.remote_address.as_deref(), Some("2001:db8::7"));
    assert_eq!(c.local_address.as_deref(), Some("2001:db8::1"));
    assert_eq!(c.local_device.as_deref(), Some("eth1"));
    assert_eq!(c.protocol, Protocol::Udp);
    assert_eq!((c.packet_size, c.bit_pattern, c.type_of_service, c.ttl), (1400, 170, 16, 7));
    assert_eq!((c.timeout, c.dest_port, c.local_port, c.routing_mark), (-1, 33434, 40000, u32::MAX));
    let mut q = ProbeParams::new(ip("10.0.0.1"));
    q.local_port = Some(80);
    let line = Request { token: 1, kind: RequestKind::SendProbe(q) }.encode();
    assert_eq!(decode_send_probe(&tokenize(&line).unwrap()), Err(InvalidArgument), "a privileged local port");
}
