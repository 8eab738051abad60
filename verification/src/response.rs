//! Replies of the probe helper: what each reply says, its line, and reading it back.
use vstd::prelude::*;

use crate::error::{ParseError, ParseErrorView};
use crate::ipaddr::{ip_text, lemma_ip_round_trip, lemma_ip_text_chars, parse_ipv4, parse_ipv6, parse_v4_spec, parse_v6_spec, IpAddr};
use crate::mpls::{lemma_mpls_parse_len, lemma_mpls_round_trip, lemma_mpls_text_word, mpls_parse_spec, mpls_text, parse_mpls_list, push_mpls, MplsLabel};
use crate::request::{
    bad, bad_spec, ip_key_name, lemma_first_value_in, lemma_tokenized_pairs_words, pairs_words,
    put_pair_dec, put_pair_ip, put_pair_str,
};
use crate::text::{
    c_space, dec_int, dec_nat, is_word, join_words, lemma_dec_int_chars, lemma_dec_nat,
    lemma_join_words_push, lemma_rust_int_dec, lemma_words_of_joined, parse_int, push_dec_signed, push_str,
    rust_int_in, str_chars, str_is, string_from_chars,
};
use crate::tokenize::{
    first_value, flatten, lemma_pairs_flatten, lemma_token_dec, pairs, tokenize, tokenize_spec,
    ArgsView, Line,
};
use crate::MAX_LABELS;

verus! {

broadcast use vstd::seq_lib::group_seq_properties;

/// Which ICMP outcome a probe reply reports.
#[derive(Debug, Clone, Copy, PartialEq, Eq, Hash, Structural)]
pub enum ProbeResult {
    Reply,
    TtlExpired,
    NoRouteHost,
}

/// The wire name of a probe outcome.
pub open spec fn result_name(r: ProbeResult) -> Seq<char> {
    match r {
        ProbeResult::Reply => "reply"@,
        ProbeResult::TtlExpired => "ttl-expired"@,
        ProbeResult::NoRouteHost => "no-route-host"@,
    }
}

impl ProbeResult {
    pub fn as_str(self) -> (r: &'static str)
        ensures
            r@ == result_name(self),
    {
        match self {
            ProbeResult::Reply => "reply",
            ProbeResult::TtlExpired => "ttl-expired",
            ProbeResult::NoRouteHost => "no-route-host",
        }
    }
}

/// `reason` values of `invalid-argument`.
#[derive(Debug, Clone, Copy, PartialEq, Eq, Hash, Structural)]
pub enum InvalidReason {
    IpVersionNotSupported,
    ProtocolNotSupported,
}

/// The wire name of a reason.
pub open spec fn reason_name(r: InvalidReason) -> Seq<char> {
    match r {
        InvalidReason::IpVersionNotSupported => "ip-version-not-supported"@,
        InvalidReason::ProtocolNotSupported => "protocol-not-supported"@,
    }
}

/// The reason a wire name stands for.
pub open spec fn reason_from_name(s: Seq<char>) -> Option<InvalidReason> {
    if s == "ip-version-not-supported"@ {
        Some(InvalidReason::IpVersionNotSupported)
    } else if s == "protocol-not-supported"@ {
        Some(InvalidReason::ProtocolNotSupported)
    } else {
        None
    }
}

impl InvalidReason {
    pub fn as_str(self) -> (r: &'static str)
        ensures
            r@ == reason_name(self),
    {
        match self {
            InvalidReason::IpVersionNotSupported => "ip-version-not-supported",
            InvalidReason::ProtocolNotSupported => "protocol-not-supported",
        }
    }

    pub fn parse(s: &str) -> (r: Option<Self>)
        ensures
            r == reason_from_name(s@),
    {
        if str_is(s, "ip-version-not-supported") {
            Some(InvalidReason::IpVersionNotSupported)
        } else if str_is(s, "protocol-not-supported") {
            Some(InvalidReason::ProtocolNotSupported)
        } else {
            None
        }
    }
}

/// A reason's name reads back as the reason.
pub proof fn lemma_reason_name_round_trip(r: InvalidReason)
    ensures
        reason_from_name(reason_name(r)) == Some(r),
{
    reveal_strlit("ip-version-not-supported");
    reveal_strlit("protocol-not-supported");
    assert("ip-version-not-supported"@[0] == 'i' && "protocol-not-supported"@[0] == 'p');
}

/// What a reply says.
#[derive(Debug, Clone, PartialEq, Eq)]
pub enum ResponseKind {
    /// `reply` / `ttl-expired` / `no-route-host` with an address and a round-trip time.
    Probe { result: ProbeResult, addr: IpAddr, rtt_us: u32, mpls: Vec<MplsLabel> },
    /// The probe timed out inside the helper.
    NoReply,
    /// `feature-support support <value>`; the value is `ok`, `no`, or the version string.
    FeatureSupport(String),
    InvalidArgument { reason: Option<InvalidReason> },
    UnknownCommand,
    ProbesExhausted,
    PermissionDenied,
    AddressInUse,
    AddressNotAvailable,
    NetworkDown,
    HostDown,
    NoRouteNetwork,
    /// The bare errno-mapped form, without address or round-trip time.
    NoRouteHost,
    /// The wire name keeps the historical typo: `wait-tcp-respone-timeout`.
    WaitTcpResponseTimeout,
    UnexpectedError { errno: i64 },
    /// Always carries token 0.
    CommandParseError,
    /// Always carries token 0.
    CommandBufferOverflow,
}

/// `ResponseKind` by views.
pub enum ResponseKindView {
    Probe { result: ProbeResult, addr: IpAddr, rtt_us: u32, mpls: Seq<MplsLabel> },
    NoReply,
    FeatureSupport(Seq<char>),
    InvalidArgument { reason: Option<InvalidReason> },
    UnknownCommand,
    ProbesExhausted,
    PermissionDenied,
    AddressInUse,
    AddressNotAvailable,
    NetworkDown,
    HostDown,
    NoRouteNetwork,
    NoRouteHost,
    WaitTcpResponseTimeout,
    UnexpectedError { errno: i64 },
    CommandParseError,
    CommandBufferOverflow,
}

impl View for ResponseKind {
    type V = ResponseKindView;

    open spec fn view(&self) -> ResponseKindView {
        match self {
            ResponseKind::Probe { result, addr, rtt_us, mpls } => ResponseKindView::Probe {
                result: *result,
                addr: *addr,
                rtt_us: *rtt_us,
                mpls: mpls@,
            },
            ResponseKind::NoReply => ResponseKindView::NoReply,
            ResponseKind::FeatureSupport(v) => ResponseKindView::FeatureSupport(v@),
            ResponseKind::InvalidArgument { reason } => ResponseKindView::InvalidArgument {
                reason: *reason,
            },
            ResponseKind::UnknownCommand => ResponseKindView::UnknownCommand,
            ResponseKind::ProbesExhausted => ResponseKindView::ProbesExhausted,
            ResponseKind::PermissionDenied => ResponseKindView::PermissionDenied,
            ResponseKind::AddressInUse => ResponseKindView::AddressInUse,
            ResponseKind::AddressNotAvailable => ResponseKindView::AddressNotAvailable,
            ResponseKind::NetworkDown => ResponseKindView::NetworkDown,
            ResponseKind::HostDown => ResponseKindView::HostDown,
            ResponseKind::NoRouteNetwork => ResponseKindView::NoRouteNetwork,
            ResponseKind::NoRouteHost => ResponseKindView::NoRouteHost,
            ResponseKind::WaitTcpResponseTimeout => ResponseKindView::WaitTcpResponseTimeout,
            ResponseKind::UnexpectedError { errno } => ResponseKindView::UnexpectedError {
                errno: *errno,
            },
            ResponseKind::CommandParseError => ResponseKindView::CommandParseError,
            ResponseKind::CommandBufferOverflow => ResponseKindView::CommandBufferOverflow,
        }
    }
}

/// The replies the client treats as fatal.
pub open spec fn fatal_for_client(k: ResponseKindView) -> bool {
    match k {
        ResponseKindView::ProbesExhausted => true,
        ResponseKindView::InvalidArgument { .. } => true,
        ResponseKindView::PermissionDenied => true,
        ResponseKindView::AddressInUse => true,
        ResponseKindView::AddressNotAvailable => true,
        ResponseKindView::UnexpectedError { .. } => true,
        _ => false,
    }
}

/// The wire name of a reply.
pub open spec fn kind_name(k: ResponseKindView) -> Seq<char> {
    match k {
        ResponseKindView::Probe { result, .. } => result_name(result),
        ResponseKindView::NoReply => "no-reply"@,
        ResponseKindView::FeatureSupport(_) => "feature-support"@,
        ResponseKindView::InvalidArgument { .. } => "invalid-argument"@,
        ResponseKindView::UnknownCommand => "unknown-command"@,
        ResponseKindView::ProbesExhausted => "probes-exhausted"@,
        ResponseKindView::PermissionDenied => "permission-denied"@,
        ResponseKindView::AddressInUse => "address-in-use"@,
        ResponseKindView::AddressNotAvailable => "address-not-available"@,
        ResponseKindView::NetworkDown => "network-down"@,
        ResponseKindView::HostDown => "host-down"@,
        ResponseKindView::NoRouteNetwork => "no-route-network"@,
        ResponseKindView::NoRouteHost => "no-route-host"@,
        ResponseKindView::WaitTcpResponseTimeout => "wait-tcp-respone-timeout"@,
        ResponseKindView::UnexpectedError { .. } => "unexpected-error"@,
        ResponseKindView::CommandParseError => "command-parse-error"@,
        ResponseKindView::CommandBufferOverflow => "command-buffer-overflow"@,
    }
}

impl ResponseKind {
    /// The replies the client treats as fatal.
    pub fn is_fatal_for_client(&self) -> (r: bool)
        ensures
            r == fatal_for_client(self@),
    {
        match self {
            ResponseKind::ProbesExhausted => true,
            ResponseKind::InvalidArgument { .. } => true,
            ResponseKind::PermissionDenied => true,
            ResponseKind::AddressInUse => true,
            ResponseKind::AddressNotAvailable => true,
            ResponseKind::UnexpectedError { .. } => true,
            _ => false,
        }
    }

    fn name(&self) -> (r: &'static str)
        ensures
            r@ == kind_name(self@),
    {
        match self {
            ResponseKind::Probe { result, .. } => result.as_str(),
            ResponseKind::NoReply => "no-reply",
            ResponseKind::FeatureSupport(_) => "feature-support",
            ResponseKind::InvalidArgument { .. } => "invalid-argument",
            ResponseKind::UnknownCommand => "unknown-command",
            ResponseKind::ProbesExhausted => "probes-exhausted",
            ResponseKind::PermissionDenied => "permission-denied",
            ResponseKind::AddressInUse => "address-in-use",
            ResponseKind::AddressNotAvailable => "address-not-available",
            ResponseKind::NetworkDown => "network-down",
            ResponseKind::HostDown => "host-down",
            ResponseKind::NoRouteNetwork => "no-route-network",
            ResponseKind::NoRouteHost => "no-route-host",
            ResponseKind::WaitTcpResponseTimeout => "wait-tcp-respone-timeout",
            ResponseKind::UnexpectedError { .. } => "unexpected-error",
            ResponseKind::CommandParseError => "command-parse-error",
            ResponseKind::CommandBufferOverflow => "command-buffer-overflow",
        }
    }
}

/// One reply line: the token of the request it answers and what it says.
#[derive(Debug, Clone, PartialEq, Eq)]
pub struct Response {
    pub token: i32,
    pub kind: ResponseKind,
}

/// `Response` by views.
pub struct ResponseView {
    pub token: i32,
    pub kind: ResponseKindView,
}

impl View for Response {
    type V = ResponseView;

    open spec fn view(&self) -> ResponseView {
        ResponseView { token: self.token, kind: self.kind@ }
    }
}

// ---------------------------------------------------------------------------------------------
// Encoding
// ---------------------------------------------------------------------------------------------
/// The key/value pairs of a reply.
pub open spec fn response_pairs(k: ResponseKindView) -> ArgsView {
    match k {
        ResponseKindView::Probe { addr, rtt_us, mpls, .. } => {
            let ps = seq![
                (ip_key_name(addr, "ip-4"@, "ip-6"@), ip_text(addr)),
                ("round-trip-time"@, dec_nat(rtt_us as nat)),
            ];
            if mpls.len() > 0 {
                ps.push(("mpls"@, mpls_text(mpls)))
            } else {
                ps
            }
        },
        ResponseKindView::FeatureSupport(v) => seq![("support"@, v)],
        ResponseKindView::InvalidArgument { reason: Some(r) } => seq![("reason"@, reason_name(r))],
        ResponseKindView::UnexpectedError { errno } => seq![("errno"@, dec_int(errno as int))],
        _ => seq![],
    }
}

/// The words of a reply line.
pub open spec fn response_words(r: ResponseView) -> Seq<Seq<char>> {
    seq![dec_int(r.token as int), kind_name(r.kind)] + flatten(response_pairs(r.kind))
}

/// A reply line: its words joined by single spaces, then a newline.
pub open spec fn response_encode_spec(r: ResponseView) -> Seq<char> {
    join_words(response_words(r)) + seq!['\n']
}

/// Appends ` key n`, `n` a signed decimal.
fn put_pair_signed(
    out: &mut Vec<char>,
    Ghost(head): Ghost<Seq<Seq<char>>>,
    Ghost(ps): Ghost<ArgsView>,
    key: &str,
    n: i64,
)
    requires
        head.len() > 0,
        old(out)@ == join_words(head + flatten(ps)),
    ensures
        final(out)@ == join_words(head + flatten(ps.push((key@, dec_int(n as int))))),
{
    let ghost ws = head + flatten(ps);
    out.push(' ');
    push_str(out, key);
    proof {
        lemma_join_words_push(ws, key@);
    }
    out.push(' ');
    push_dec_signed(out, n);
    proof {
        lemma_join_words_push(ws.push(key@), dec_int(n as int));
        assert(ps.push((key@, dec_int(n as int))).drop_last() =~= ps);
        assert(head + flatten(ps.push((key@, dec_int(n as int)))) =~= ws.push(key@).push(
            dec_int(n as int),
        ));
        assert(out@ =~= join_words(ws.push(key@).push(dec_int(n as int))));
    }
}

/// Appends ` mpls <labels>`.
fn put_pair_mpls(
    out: &mut Vec<char>,
    Ghost(head): Ghost<Seq<Seq<char>>>,
    Ghost(ps): Ghost<ArgsView>,
    labels: &[MplsLabel],
)
    requires
        head.len() > 0,
        old(out)@ == join_words(head + flatten(ps)),
    ensures
        final(out)@ == join_words(head + flatten(ps.push(("mpls"@, mpls_text(labels@))))),
{
    let ghost ws = head + flatten(ps);
    out.push(' ');
    push_str(out, "mpls");
    proof {
        lemma_join_words_push(ws, "mpls"@);
    }
    out.push(' ');
    push_mpls(out, labels);
    proof {
        lemma_join_words_push(ws.push("mpls"@), mpls_text(labels@));
        assert(ps.push(("mpls"@, mpls_text(labels@))).drop_last() =~= ps);
        assert(head + flatten(ps.push(("mpls"@, mpls_text(labels@)))) =~= ws.push("mpls"@).push(
            mpls_text(labels@),
        ));
        assert(out@ =~= join_words(ws.push("mpls"@).push(mpls_text(labels@))));
    }
}

impl Response {
    /// Encodes as one line including the trailing newline.
#[verifier::rlimit(50)]
    pub fn encode(&self) -> (r: String)
        ensures
            r@ == response_encode_spec(self@),
    {
        let mut out: Vec<char> = Vec::new();
        push_dec_signed(&mut out, self.token as i64);
        out.push(' ');
        let name = self.kind.name();
        push_str(&mut out, name);
        let ghost head = seq![dec_int(self.token as int), name@];
        let ghost e: ArgsView = Seq::empty();
        proof {
            lemma_join_words_push(seq![dec_int(self.token as int)], name@);
            assert(seq![dec_int(self.token as int)].push(name@) =~= head);
            assert(flatten(e) =~= Seq::<Seq<char>>::empty());
            assert(head + flatten(e) =~= head);
            assert(out@ =~= join_words(head + flatten(e)));
        }
        match &self.kind {
            ResponseKind::Probe { addr, rtt_us, mpls, .. } => {
                put_pair_ip(&mut out, Ghost(head), Ghost(e), "ip-4", "ip-6", addr);
                let ghost p1 = e.push((ip_key_name(*addr, "ip-4"@, "ip-6"@), ip_text(*addr)));
                put_pair_dec(&mut out, Ghost(head), Ghost(p1), "round-trip-time", *rtt_us as u64);
                let ghost p2 = p1.push(("round-trip-time"@, dec_nat(*rtt_us as nat)));
                assert(p2 =~= response_pairs(self.kind@).take(2));
                if mpls.len() > 0 {
                    put_pair_mpls(&mut out, Ghost(head), Ghost(p2), mpls.as_slice());
                    assert(p2.push(("mpls"@, mpls_text(mpls@))) =~= response_pairs(self.kind@));
                } else {
                    assert(p2 =~= response_pairs(self.kind@));
                }
            },
            ResponseKind::FeatureSupport(v) => {
                put_pair_str(&mut out, Ghost(head), Ghost(e), "support", v.as_str());
                assert(e.push(("support"@, v@)) =~= response_pairs(self.kind@));
            },
            ResponseKind::InvalidArgument { reason: Some(r) } => {
                put_pair_str(&mut out, Ghost(head), Ghost(e), "reason", r.as_str());
                assert(e.push(("reason"@, reason_name(*r))) =~= response_pairs(self.kind@));
            },
            ResponseKind::UnexpectedError { errno } => {
                put_pair_signed(&mut out, Ghost(head), Ghost(e), "errno", *errno);
                assert(e.push(("errno"@, dec_int(*errno as int))) =~= response_pairs(self.kind@));
            },
            _ => {
                assert(e =~= response_pairs(self.kind@));
            },
        }
        out.push('\n');
        string_from_chars(out.as_slice())
    }
}


// ---------------------------------------------------------------------------------------------
// Decoding
// ---------------------------------------------------------------------------------------------
/// The labels of an `mpls` value; none when it is absent or malformed.
pub open spec fn mpls_or_none(v: Option<Seq<char>>) -> Seq<MplsLabel> {
    match v {
        Some(m) => match mpls_parse_spec(m) {
            Some(ls) => ls,
            None => seq![],
        },
        None => seq![],
    }
}

/// The address of a probe reply: the first `ip-4`, else the first `ip-6`.
pub open spec fn reply_addr_spec(args: ArgsView) -> Result<IpAddr, ParseErrorView> {
    match first_value(args, "ip-4"@) {
        Some(v) => match parse_v4_spec(v) {
            Some(a) => Ok(IpAddr::V4(a)),
            None => Err(bad_spec("ip-4"@, v)),
        },
        None => match first_value(args, "ip-6"@) {
            Some(v) => match parse_v6_spec(v) {
                Some(a) => Ok(IpAddr::V6(a)),
                None => Err(bad_spec("ip-6"@, v)),
            },
            None => Err(ParseErrorView::MissingArgument("ip-4"@)),
        },
    }
}

/// A probe reply: an address, a round-trip time in microseconds (a `u32`) and the labels.
pub open spec fn probe_spec(args: ArgsView, result: ProbeResult) -> Result<
    ResponseKindView,
    ParseErrorView,
> {
    match reply_addr_spec(args) {
        Err(e) => Err(e),
        Ok(addr) => match first_value(args, "round-trip-time"@) {
            None => Err(ParseErrorView::MissingArgument("round-trip-time"@)),
            Some(v) => match rust_int_in(v, false, 0, u32::MAX as int) {
                None => Err(bad_spec("round-trip-time"@, v)),
                Some(n) => Ok(
                    ResponseKindView::Probe {
                        result,
                        addr,
                        rtt_us: n as u32,
                        mpls: mpls_or_none(first_value(args, "mpls"@)),
                    },
                ),
            },
        },
    }
}

/// The errno of an `unexpected-error`: 0 when absent or not an `i64`.
pub open spec fn errno_spec(v: Option<Seq<char>>) -> i64 {
    match v {
        Some(t) => match rust_int_in(t, true, i64::MIN as int, i64::MAX as int) {
            Some(n) => n as i64,
            None => 0,
        },
        None => 0,
    }
}

/// The reply kinds that carry nothing but their name.
pub open spec fn bare_kind(name: Seq<char>) -> Option<ResponseKindView> {
    if name == "no-reply"@ {
        Some(ResponseKindView::NoReply)
    } else if name == "unknown-command"@ {
        Some(ResponseKindView::UnknownCommand)
    } else if name == "probes-exhausted"@ {
        Some(ResponseKindView::ProbesExhausted)
    } else if name == "permission-denied"@ {
        Some(ResponseKindView::PermissionDenied)
    } else if name == "address-in-use"@ {
        Some(ResponseKindView::AddressInUse)
    } else if name == "address-not-available"@ {
        Some(ResponseKindView::AddressNotAvailable)
    } else if name == "network-down"@ {
        Some(ResponseKindView::NetworkDown)
    } else if name == "host-down"@ {
        Some(ResponseKindView::HostDown)
    } else if name == "no-route-network"@ {
        Some(ResponseKindView::NoRouteNetwork)
    } else if name == "wait-tcp-respone-timeout"@ {
        Some(ResponseKindView::WaitTcpResponseTimeout)
    } else if name == "command-parse-error"@ {
        Some(ResponseKindView::CommandParseError)
    } else if name == "command-buffer-overflow"@ {
        Some(ResponseKindView::CommandBufferOverflow)
    } else {
        None
    }
}

/// What a reply line with command name `name` and pairs `args` says.
#[verifier::opaque]
pub open spec fn response_kind_spec(name: Seq<char>, args: ArgsView) -> Result<
    ResponseKindView,
    ParseErrorView,
> {
    if name == "reply"@ {
        probe_spec(args, ProbeResult::Reply)
    } else if name == "ttl-expired"@ {
        probe_spec(args, ProbeResult::TtlExpired)
    } else if name == "no-route-host"@ {
        if first_value(args, "ip-4"@) is Some || first_value(args, "ip-6"@) is Some {
            probe_spec(args, ProbeResult::NoRouteHost)
        } else {
            Ok(ResponseKindView::NoRouteHost)
        }
    } else if name == "feature-support"@ {
        match first_value(args, "support"@) {
            None => Err(ParseErrorView::MissingArgument("support"@)),
            Some(v) => Ok(ResponseKindView::FeatureSupport(v)),
        }
    } else if name == "invalid-argument"@ {
        Ok(
            ResponseKindView::InvalidArgument {
                reason: match first_value(args, "reason"@) {
                    Some(v) => reason_from_name(v),
                    None => None,
                },
            },
        )
    } else if name == "unexpected-error"@ {
        Ok(ResponseKindView::UnexpectedError { errno: errno_spec(first_value(args, "errno"@)) })
    } else {
        match bare_kind(name) {
            Some(k) => Ok(k),
            None => Err(ParseErrorView::UnknownCommand(name)),
        }
    }
}

/// What `Response::parse` makes of a line.
pub open spec fn parse_response_spec(s: Seq<char>) -> Result<ResponseView, ParseErrorView> {
    match tokenize_spec(s) {
        Err(e) => Err(e@),
        Ok((token, name, args)) => match response_kind_spec(name, args) {
            Ok(kind) => Ok(ResponseView { token, kind }),
            Err(e) => Err(e),
        },
    }
}

/// A probe reply's fields. Malformed labels are dropped, as the client does.
fn probe(l: &Line<'_>, result: ProbeResult) -> (r: Result<ResponseKind, ParseError>)
    ensures
        r matches Ok(k) ==> probe_spec(l.args_view(), result) == Ok::<_, ParseErrorView>(k@),
        r matches Err(e) ==> probe_spec(l.args_view(), result) == Err::<ResponseKindView, _>(e@),
{
    let addr = if let Some(v) = l.first("ip-4") {
        match parse_ipv4(v) {
            Some(a) => IpAddr::V4(a),
            None => return Err(bad("ip-4", v)),
        }
    } else if let Some(v) = l.first("ip-6") {
        match parse_ipv6(v) {
            Some(a) => IpAddr::V6(a),
            None => return Err(bad("ip-6", v)),
        }
    } else {
        return Err(ParseError::MissingArgument("ip-4"));
    };
    let rtt = match l.first("round-trip-time") {
        Some(v) => v,
        None => return Err(ParseError::MissingArgument("round-trip-time")),
    };
    let c = str_chars(rtt);
    let rtt_us: u32 = match parse_int(c.as_slice(), false, 0, 0xffff_ffff) {
        Some(n) => n as u32,
        None => return Err(bad("round-trip-time", rtt)),
    };
    let mpls = match l.first("mpls") {
        Some(m) => match parse_mpls_list(m) {
            Ok(v) => v,
            Err(_) => Vec::new(),
        },
        None => Vec::new(),
    };
    Ok(ResponseKind::Probe { result, addr, rtt_us, mpls })
}

/// The kinds that carry nothing but their name.
fn bare(name: &str) -> (r: Option<ResponseKind>)
    ensures
        r matches Some(k) ==> bare_kind(name@) == Some(k@),
        r is None ==> bare_kind(name@) is None,
{
    if str_is(name, "no-reply") {
        Some(ResponseKind::NoReply)
    } else if str_is(name, "unknown-command") {
        Some(ResponseKind::UnknownCommand)
    } else if str_is(name, "probes-exhausted") {
        Some(ResponseKind::ProbesExhausted)
    } else if str_is(name, "permission-denied") {
        Some(ResponseKind::PermissionDenied)
    } else if str_is(name, "address-in-use") {
        Some(ResponseKind::AddressInUse)
    } else if str_is(name, "address-not-available") {
        Some(ResponseKind::AddressNotAvailable)
    } else if str_is(name, "network-down") {
        Some(ResponseKind::NetworkDown)
    } else if str_is(name, "host-down") {
        Some(ResponseKind::HostDown)
    } else if str_is(name, "no-route-network") {
        Some(ResponseKind::NoRouteNetwork)
    } else if str_is(name, "wait-tcp-respone-timeout") {
        Some(ResponseKind::WaitTcpResponseTimeout)
    } else if str_is(name, "command-parse-error") {
        Some(ResponseKind::CommandParseError)
    } else if str_is(name, "command-buffer-overflow") {
        Some(ResponseKind::CommandBufferOverflow)
    } else {
        None
    }
}

/// The errno of an `unexpected-error`.
fn errno_of(v: Option<&str>) -> (r: i64)
    ensures
        r == errno_spec(crate::request::opt_view(v)),
{
    match v {
        Some(t) => {
            let c = str_chars(t);
            match parse_int(c.as_slice(), true, -0x8000_0000_0000_0000i128, 0x7fff_ffff_ffff_ffffi128) {
                Some(n) => n as i64,
                None => 0,
            }
        },
        None => 0,
    }
}

#[verifier::rlimit(50)]
fn parse_kind(l: &Line<'_>) -> (r: Result<ResponseKind, ParseError>)
    ensures
        r matches Ok(k) ==> response_kind_spec(l.name@, l.args_view()) == Ok::<_, ParseErrorView>(k@),
        r matches Err(e) ==> response_kind_spec(l.name@, l.args_view()) == Err::<ResponseKindView, _>(e@),
{
    reveal(response_kind_spec);
    if str_is(l.name, "reply") {
        probe(l, ProbeResult::Reply)
    } else if str_is(l.name, "ttl-expired") {
        probe(l, ProbeResult::TtlExpired)
    } else if str_is(l.name, "no-route-host") {
        if l.first("ip-4").is_some() || l.first("ip-6").is_some() {
            probe(l, ProbeResult::NoRouteHost)
        } else {
            Ok(ResponseKind::NoRouteHost)
        }
    } else if str_is(l.name, "feature-support") {
        match l.first("support") {
            None => Err(ParseError::MissingArgument("support")),
            Some(v) => Ok(ResponseKind::FeatureSupport(v.to_owned())),
        }
    } else if str_is(l.name, "invalid-argument") {
        let reason = match l.first("reason") {
            Some(v) => InvalidReason::parse(v),
            None => None,
        };
        Ok(ResponseKind::InvalidArgument { reason })
    } else if str_is(l.name, "unexpected-error") {
        Ok(ResponseKind::UnexpectedError { errno: errno_of(l.first("errno")) })
    } else {
        match bare(l.name) {
            Some(k) => Ok(k),
            None => Err(ParseError::UnknownCommand(l.name.to_owned())),
        }
    }
}

impl Response {
    /// Parses one line (trailing newline optional).
    pub fn parse(line: &str) -> (r: Result<Response, ParseError>)
        ensures
            r matches Ok(q) ==> parse_response_spec(line@) == Ok::<_, ParseErrorView>(q@),
            r matches Err(e) ==> parse_response_spec(line@) == Err::<ResponseView, _>(e@),
    {
        let l = match tokenize(line) {
            Ok(l) => l,
            Err(e) => return Err(e),
        };
        match parse_kind(&l) {
            Ok(kind) => Ok(Response { token: l.token, kind }),
            Err(e) => Err(e),
        }
    }
}


// ---------------------------------------------------------------------------------------------
// Reading back what was written
// ---------------------------------------------------------------------------------------------
/// A reply the line format can carry: a feature-support value that is one word, and at most
/// `MAX_LABELS` labels.
pub open spec fn response_encodable(r: ResponseView) -> bool {
    match r.kind {
        ResponseKindView::FeatureSupport(v) => is_word(v),
        ResponseKindView::Probe { mpls, .. } => mpls.len() <= MAX_LABELS,
        _ => true,
    }
}

/// The reply names: their lengths and the characters that tell them apart.
proof fn lemma_name_facts()
    ensures
        "reply"@.len() == 5,
        "ttl-expired"@.len() == 11,
        "no-route-host"@.len() == 13,
        "feature-support"@.len() == 15 && "feature-support"@[0] == 'f',
        "invalid-argument"@.len() == 16 && "invalid-argument"@[0] == 'i',
        "unexpected-error"@.len() == 16 && "unexpected-error"@[0] == 'u',
        "no-reply"@.len() == 8,
        "unknown-command"@.len() == 15 && "unknown-command"@[0] == 'u',
        "probes-exhausted"@.len() == 16 && "probes-exhausted"@[0] == 'p',
        "permission-denied"@.len() == 17,
        "address-in-use"@.len() == 14,
        "address-not-available"@.len() == 21,
        "network-down"@.len() == 12,
        "host-down"@.len() == 9,
        "no-route-network"@.len() == 16 && "no-route-network"@[0] == 'n',
        "wait-tcp-respone-timeout"@.len() == 24,
        "command-parse-error"@.len() == 19,
        "command-buffer-overflow"@.len() == 23,
        "ip-4"@.len() == 4 && "ip-4"@[0] == 'i' && "ip-4"@[3] == '4',
        "ip-6"@.len() == 4 && "ip-6"@[0] == 'i' && "ip-6"@[3] == '6',
        "mpls"@.len() == 4 && "mpls"@[0] == 'm',
        "round-trip-time"@.len() == 15,
{
    reveal_strlit("reply");
    reveal_strlit("ttl-expired");
    reveal_strlit("no-route-host");
    reveal_strlit("feature-support");
    reveal_strlit("invalid-argument");
    reveal_strlit("unexpected-error");
    reveal_strlit("no-reply");
    reveal_strlit("unknown-command");
    reveal_strlit("probes-exhausted");
    reveal_strlit("permission-denied");
    reveal_strlit("address-in-use");
    reveal_strlit("address-not-available");
    reveal_strlit("network-down");
    reveal_strlit("host-down");
    reveal_strlit("no-route-network");
    reveal_strlit("wait-tcp-respone-timeout");
    reveal_strlit("command-parse-error");
    reveal_strlit("command-buffer-overflow");
    reveal_strlit("ip-4");
    reveal_strlit("ip-6");
    reveal_strlit("mpls");
    reveal_strlit("round-trip-time");
}

/// Reply names, keys and reasons are words.
proof fn lemma_response_names_are_words(k: ResponseKindView)
    ensures
        is_word(kind_name(k)),
        is_word("ip-4"@),
        is_word("ip-6"@),
        is_word("round-trip-time"@),
        is_word("mpls"@),
        is_word("support"@),
        is_word("reason"@),
        is_word("errno"@),
        k matches ResponseKindView::InvalidArgument { reason: Some(r) } ==> is_word(reason_name(r)),
{
    reveal_strlit("reply");
    reveal_strlit("ttl-expired");
    reveal_strlit("no-route-host");
    reveal_strlit("feature-support");
    reveal_strlit("invalid-argument");
    reveal_strlit("unexpected-error");
    reveal_strlit("no-reply");
    reveal_strlit("unknown-command");
    reveal_strlit("probes-exhausted");
    reveal_strlit("permission-denied");
    reveal_strlit("address-in-use");
    reveal_strlit("address-not-available");
    reveal_strlit("network-down");
    reveal_strlit("host-down");
    reveal_strlit("no-route-network");
    reveal_strlit("wait-tcp-respone-timeout");
    reveal_strlit("command-parse-error");
    reveal_strlit("command-buffer-overflow");
    reveal_strlit("ip-4");
    reveal_strlit("ip-6");
    reveal_strlit("mpls");
    reveal_strlit("round-trip-time");
    reveal_strlit("support");
    reveal_strlit("reason");
    reveal_strlit("errno");
    reveal_strlit("ip-version-not-supported");
    reveal_strlit("protocol-not-supported");
}

/// The pairs of an encodable reply are words.
proof fn lemma_response_pairs_words(k: ResponseKindView)
    requires
        k matches ResponseKindView::FeatureSupport(v) ==> is_word(v),
    ensures
        forall|i: int|
            0 <= i < response_pairs(k).len() ==> is_word(#[trigger] response_pairs(k)[i].0)
                && is_word(response_pairs(k)[i].1),
        response_pairs(k).len() <= 3,
{
    lemma_response_names_are_words(k);
    let ps = response_pairs(k);
    match k {
        ResponseKindView::Probe { addr, rtt_us, mpls, .. } => {
            lemma_ip_text_chars(addr);
            lemma_dec_nat(rtt_us as nat);
            let d = dec_nat(rtt_us as nat);
            assert forall|j: int| 0 <= j < d.len() implies !c_space(#[trigger] d[j]) by {
                assert(crate::text::is_digit(d[j]));
            }
            if mpls.len() > 0 {
                lemma_mpls_text_word(mpls);
            }
        },
        ResponseKindView::UnexpectedError { errno } => {
            lemma_dec_int_chars(errno as int);
            let d = dec_int(errno as int);
            assert forall|j: int| 0 <= j < d.len() implies !c_space(#[trigger] d[j]) by {
                assert(crate::text::is_digit(d[j]) || d[j] == '-');
            }
        },
        _ => {},
    }
}

/// The pairs of a probe reply.
pub open spec fn probe_pairs_of(addr: IpAddr, rtt_us: u32, mpls: Seq<MplsLabel>) -> ArgsView {
    response_pairs(ResponseKindView::Probe { result: ProbeResult::Reply, addr, rtt_us, mpls })
}

#[verifier::rlimit(50)]
proof fn lemma_probe_addr(addr: IpAddr, rtt_us: u32, mpls: Seq<MplsLabel>)
    ensures
        reply_addr_spec(probe_pairs_of(addr, rtt_us, mpls)) == Ok::<_, ParseErrorView>(addr),
        first_value(probe_pairs_of(addr, rtt_us, mpls), "ip-4"@) is Some || first_value(
            probe_pairs_of(addr, rtt_us, mpls),
            "ip-6"@,
        ) is Some,
{
    lemma_name_facts();
    lemma_ip_round_trip(addr);
    let ps = probe_pairs_of(addr, rtt_us, mpls);
    let k0 = ip_key_name(addr, "ip-4"@, "ip-6"@);
    assert(ps[0] == (k0, ip_text(addr)));
    let t = ps.drop_first();
    assert(t[0] == ("round-trip-time"@, dec_nat(rtt_us as nat)));
    let u = t.drop_first();
    if mpls.len() > 0 {
        assert(u =~= seq![("mpls"@, mpls_text(mpls))]);
        assert(u.drop_first() =~= Seq::<(Seq<char>, Seq<char>)>::empty());
        assert(first_value(u.drop_first(), "ip-4"@) is None);
    } else {
        assert(u =~= Seq::<(Seq<char>, Seq<char>)>::empty());
    }
    assert(first_value(u, "ip-4"@) is None);
    assert(first_value(t, "ip-4"@) is None);
    if addr is V6 {
        assert(first_value(ps, "ip-4"@) is None);
        assert(first_value(ps, "ip-6"@) == Some(ip_text(addr)));
    } else {
        assert(first_value(ps, "ip-4"@) == Some(ip_text(addr)));
    }
}

proof fn lemma_probe_rtt(addr: IpAddr, rtt_us: u32, mpls: Seq<MplsLabel>)
    ensures
        first_value(probe_pairs_of(addr, rtt_us, mpls), "round-trip-time"@) == Some(
            dec_nat(rtt_us as nat),
        ),
        rust_int_in(dec_nat(rtt_us as nat), false, 0, u32::MAX as int) == Some(rtt_us as int),
{
    lemma_name_facts();
    let ps = probe_pairs_of(addr, rtt_us, mpls);
    let k0 = ip_key_name(addr, "ip-4"@, "ip-6"@);
    assert(ps[0] == (k0, ip_text(addr)));
    let t = ps.drop_first();
    assert(t[0] == ("round-trip-time"@, dec_nat(rtt_us as nat)));
    assert(first_value(t, "round-trip-time"@) == Some(dec_nat(rtt_us as nat)));
    lemma_rust_int_dec(rtt_us as int, false);
    assert(dec_int(rtt_us as int) == dec_nat(rtt_us as nat));
}

proof fn lemma_probe_mpls(addr: IpAddr, rtt_us: u32, mpls: Seq<MplsLabel>)
    requires
        mpls.len() <= MAX_LABELS,
    ensures
        mpls_or_none(first_value(probe_pairs_of(addr, rtt_us, mpls), "mpls"@)) == mpls,
{
    lemma_name_facts();
    let ps = probe_pairs_of(addr, rtt_us, mpls);
    let k0 = ip_key_name(addr, "ip-4"@, "ip-6"@);
    assert(ps[0] == (k0, ip_text(addr)));
    let t = ps.drop_first();
    assert(t[0] == ("round-trip-time"@, dec_nat(rtt_us as nat)));
    let u = t.drop_first();
    if mpls.len() > 0 {
        assert(u =~= seq![("mpls"@, mpls_text(mpls))]);
        assert(first_value(u, "mpls"@) == Some(mpls_text(mpls)));
        lemma_mpls_round_trip(mpls);
    } else {
        assert(u =~= Seq::<(Seq<char>, Seq<char>)>::empty());
        assert(first_value(u, "mpls"@) is None);
        assert(mpls =~= Seq::<MplsLabel>::empty());
    }
    assert(first_value(t, "mpls"@) == first_value(u, "mpls"@));
}

/// The pairs of a probe reply read back as its fields.
proof fn lemma_probe_spec_round_trip(k: ResponseKindView)
    requires
        k matches ResponseKindView::Probe { mpls, .. } && mpls.len() <= MAX_LABELS,
    ensures
        k matches ResponseKindView::Probe { result, .. } && probe_spec(response_pairs(k), result)
            == Ok::<_, ParseErrorView>(k),
        first_value(response_pairs(k), "ip-4"@) is Some || first_value(response_pairs(k), "ip-6"@) is Some,
{
    if let ResponseKindView::Probe { result, addr, rtt_us, mpls } = k {
        assert(response_pairs(k) == probe_pairs_of(addr, rtt_us, mpls));
        lemma_probe_addr(addr, rtt_us, mpls);
        lemma_probe_rtt(addr, rtt_us, mpls);
        lemma_probe_mpls(addr, rtt_us, mpls);
    }
}

/// The pairs of a probe reply read back as the reply.
proof fn lemma_probe_kind_round_trip(k: ResponseKindView)
    requires
        k matches ResponseKindView::Probe { mpls, .. } && mpls.len() <= MAX_LABELS,
    ensures
        response_kind_spec(kind_name(k), response_pairs(k)) == Ok::<_, ParseErrorView>(k),
{
    reveal(response_kind_spec);
    lemma_name_facts();
    lemma_probe_spec_round_trip(k);
}

/// The pairs of a reply with arguments other than a probe's read back as the reply.
proof fn lemma_args_kind_round_trip(k: ResponseKindView)
    requires
        k is FeatureSupport || k is InvalidArgument || k is UnexpectedError,
    ensures
        response_kind_spec(kind_name(k), response_pairs(k)) == Ok::<_, ParseErrorView>(k),
{
    reveal(response_kind_spec);
    lemma_name_facts();
    let ps = response_pairs(k);
    match k {
        ResponseKindView::FeatureSupport(v) => {
            assert(ps.drop_first() =~= Seq::<(Seq<char>, Seq<char>)>::empty());
        },
        ResponseKindView::InvalidArgument { reason } => {
            if let Some(r) = reason {
                lemma_reason_name_round_trip(r);
                assert(ps.drop_first() =~= Seq::<(Seq<char>, Seq<char>)>::empty());
            }
        },
        ResponseKindView::UnexpectedError { errno } => {
            lemma_rust_int_dec(errno as int, true);
            assert(ps.drop_first() =~= Seq::<(Seq<char>, Seq<char>)>::empty());
        },
        _ => {},
    }
}

/// A bare reply's name reads back as the reply.
proof fn lemma_bare_kind_round_trip(k: ResponseKindView)
    requires
        !(k is Probe || k is FeatureSupport || k is InvalidArgument || k is UnexpectedError),
    ensures
        response_kind_spec(kind_name(k), response_pairs(k)) == Ok::<_, ParseErrorView>(k),
{
    reveal(response_kind_spec);
    lemma_name_facts();
    assert(response_pairs(k) =~= Seq::<(Seq<char>, Seq<char>)>::empty());
}

/// The pairs of an encodable reply read back as what it says.
proof fn lemma_response_kind_round_trip(k: ResponseKindView)
    requires
        k matches ResponseKindView::Probe { mpls, .. } ==> mpls.len() <= MAX_LABELS,
    ensures
        response_kind_spec(kind_name(k), response_pairs(k)) == Ok::<_, ParseErrorView>(k),
{
    if k is Probe {
        lemma_probe_kind_round_trip(k);
    } else if k is FeatureSupport || k is InvalidArgument || k is UnexpectedError {
        lemma_args_kind_round_trip(k);
    } else {
        lemma_bare_kind_round_trip(k);
    }
}

/// Reading a reply line back gives the reply it was written from: `Response::parse` of
/// `Response::encode` is the reply, for every reply the line format can carry.
pub proof fn lemma_response_round_trip(r: ResponseView)
    requires
        response_encodable(r),
    ensures
        parse_response_spec(response_encode_spec(r)) == Ok::<_, ParseErrorView>(r),
{
    let ws = response_words(r);
    let ps = response_pairs(r.kind);
    lemma_response_names_are_words(r.kind);
    lemma_response_pairs_words(r.kind);
    lemma_token_dec(r.token);
    lemma_dec_int_chars(r.token as int);
    let t = dec_int(r.token as int);
    assert forall|j: int| 0 <= j < t.len() implies !c_space(#[trigger] t[j]) by {
        assert(crate::text::is_digit(t[j]) || t[j] == '-');
    }
    lemma_pairs_flatten(ps);
    let f = flatten(ps);
    assert forall|i: int| 0 <= i < ws.len() implies is_word(#[trigger] ws[i]) by {
        if i >= 2 {
            let k = (i - 2) / 2;
            assert(ws[i] == f[i - 2]);
            if (i - 2) % 2 == 0 {
                assert(f[2 * k] == ps[k].0);
            } else {
                assert(f[2 * k + 1] == ps[k].1);
            }
        }
    }
    lemma_words_of_joined(ws);
    assert(ws.skip(2) =~= f);
    lemma_response_kind_round_trip(r.kind);
}


/// Labels read from a reply are at most `MAX_LABELS`.
proof fn lemma_mpls_or_none_len(v: Option<Seq<char>>)
    ensures
        mpls_or_none(v).len() <= MAX_LABELS,
{
    if let Some(m) = v {
        lemma_mpls_parse_len(m);
    }
}

/// What a reply line says is one the line format carries, when its values are words.
proof fn lemma_kind_encodable(name: Seq<char>, args: ArgsView)
    requires
        pairs_words(args),
        response_kind_spec(name, args) is Ok,
    ensures
        response_encodable(ResponseView { token: 0, kind: response_kind_spec(name, args)->Ok_0 }),
{
    lemma_mpls_or_none_len(first_value(args, "mpls"@));
    lemma_first_value_in(args, "support"@);
    if first_value(args, "support"@) is Some {
        let v = first_value(args, "support"@)->Some_0;
        let i = choose|i: int| 0 <= i < args.len() && #[trigger] args[i].1 == v;
        assert(is_word(args[i].0));
        assert(is_word(v));
    }
    reveal(response_kind_spec);
}

/// A reply that parses is one the line format carries.
pub proof fn lemma_parsed_response_encodable(s: Seq<char>)
    requires
        parse_response_spec(s) is Ok,
    ensures
        response_encodable(parse_response_spec(s)->Ok_0),
{
    lemma_tokenized_pairs_words(s);
    let (token, name, args) = tokenize_spec(s)->Ok_0;
    lemma_kind_encodable(name, args);
}

/// Encoding a reply that was read from a line, and reading it again, gives the same reply.
pub proof fn lemma_parsed_response_round_trip(s: Seq<char>)
    requires
        parse_response_spec(s) is Ok,
    ensures
        parse_response_spec(response_encode_spec(parse_response_spec(s)->Ok_0)) == parse_response_spec(s),
{
    lemma_parsed_response_encodable(s);
    lemma_response_round_trip(parse_response_spec(s)->Ok_0);
}

} // verus!
