//! `check-support` / `send-probe` requests: their fields, their line, and reading it back.
use vstd::prelude::*;

use crate::error::{ParseError, ParseErrorView};
use crate::ipaddr::{ip_text, lemma_ip_round_trip, lemma_ip_text_chars, parse_ipv4, parse_ipv6, parse_v4_spec, parse_v6_spec, push_ip, IpAddr};
use crate::text::{
    c_space, dec_int, dec_nat, is_word, join_words, lemma_dec_nat, lemma_join_words_push,
    lemma_words_are_words, words,
    lemma_rust_int_dec, lemma_words_of_joined, push_dec, push_dec_signed, push_str,
    parse_int, rust_int_in, str_chars, str_is, string_from_chars,
};
use crate::tokenize::{
    first_value, flatten, lemma_pairs_flatten, lemma_token_dec, pairs, tokenize, tokenize_spec,
    ArgsView, Line,
};

verus! {

/// Transport used for probes (`protocol` argument).
#[derive(Debug, Clone, Copy, PartialEq, Eq, Hash, Structural)]
pub enum Protocol {
    Icmp,
    Udp,
    Tcp,
    Sctp,
}

/// The wire name of a protocol.
pub open spec fn protocol_name(p: Protocol) -> Seq<char> {
    match p {
        Protocol::Icmp => "icmp"@,
        Protocol::Udp => "udp"@,
        Protocol::Tcp => "tcp"@,
        Protocol::Sctp => "sctp"@,
    }
}

/// The protocol a wire name stands for.
pub open spec fn protocol_from_name(s: Seq<char>) -> Option<Protocol> {
    if s == "icmp"@ {
        Some(Protocol::Icmp)
    } else if s == "udp"@ {
        Some(Protocol::Udp)
    } else if s == "tcp"@ {
        Some(Protocol::Tcp)
    } else if s == "sctp"@ {
        Some(Protocol::Sctp)
    } else {
        None
    }
}

impl Protocol {
    pub fn as_str(self) -> (r: &'static str)
        ensures
            r@ == protocol_name(self),
    {
        match self {
            Protocol::Icmp => "icmp",
            Protocol::Udp => "udp",
            Protocol::Tcp => "tcp",
            Protocol::Sctp => "sctp",
        }
    }

    pub fn parse(s: &str) -> (r: Option<Self>)
        ensures
            r == protocol_from_name(s@),
    {
        if str_is(s, "icmp") {
            Some(Protocol::Icmp)
        } else if str_is(s, "udp") {
            Some(Protocol::Udp)
        } else if str_is(s, "tcp") {
            Some(Protocol::Tcp)
        } else if str_is(s, "sctp") {
            Some(Protocol::Sctp)
        } else {
            None
        }
    }
}

impl Default for Protocol {
    fn default() -> (r: Self)
        ensures
            r == Protocol::Icmp,
    {
        Protocol::Icmp
    }
}

/// A protocol's name reads back as the protocol.
pub proof fn lemma_protocol_name_round_trip(p: Protocol)
    ensures
        protocol_from_name(protocol_name(p)) == Some(p),
{
    reveal_strlit("icmp");
    reveal_strlit("udp");
    reveal_strlit("tcp");
    reveal_strlit("sctp");
    assert("icmp"@[0] == 'i' && "udp"@[0] == 'u' && "tcp"@[0] == 't' && "sctp"@[0] == 's');
}

/// Feature names accepted by `check-support`.
#[derive(Debug, Clone, Copy, PartialEq, Eq, Hash, Structural)]
pub enum Feature {
    Version,
    Ip4,
    Ip6,
    SendProbe,
    Icmp,
    Udp,
    Tcp,
    Sctp,
    Mark,
}

/// The wire name of a feature.
pub open spec fn feature_name(f: Feature) -> Seq<char> {
    match f {
        Feature::Version => "version"@,
        Feature::Ip4 => "ip-4"@,
        Feature::Ip6 => "ip-6"@,
        Feature::SendProbe => "send-probe"@,
        Feature::Icmp => "icmp"@,
        Feature::Udp => "udp"@,
        Feature::Tcp => "tcp"@,
        Feature::Sctp => "sctp"@,
        Feature::Mark => "mark"@,
    }
}

/// The feature a wire name stands for.
pub open spec fn feature_from_name(s: Seq<char>) -> Option<Feature> {
    if s == "version"@ {
        Some(Feature::Version)
    } else if s == "ip-4"@ {
        Some(Feature::Ip4)
    } else if s == "ip-6"@ {
        Some(Feature::Ip6)
    } else if s == "send-probe"@ {
        Some(Feature::SendProbe)
    } else if s == "icmp"@ {
        Some(Feature::Icmp)
    } else if s == "udp"@ {
        Some(Feature::Udp)
    } else if s == "tcp"@ {
        Some(Feature::Tcp)
    } else if s == "sctp"@ {
        Some(Feature::Sctp)
    } else if s == "mark"@ {
        Some(Feature::Mark)
    } else {
        None
    }
}

impl Feature {
    pub fn as_str(self) -> (r: &'static str)
        ensures
            r@ == feature_name(self),
    {
        match self {
            Feature::Version => "version",
            Feature::Ip4 => "ip-4",
            Feature::Ip6 => "ip-6",
            Feature::SendProbe => "send-probe",
            Feature::Icmp => "icmp",
            Feature::Udp => "udp",
            Feature::Tcp => "tcp",
            Feature::Sctp => "sctp",
            Feature::Mark => "mark",
        }
    }

    pub fn parse(s: &str) -> (r: Option<Self>)
        ensures
            r == feature_from_name(s@),
    {
        if str_is(s, "version") {
            Some(Feature::Version)
        } else if str_is(s, "ip-4") {
            Some(Feature::Ip4)
        } else if str_is(s, "ip-6") {
            Some(Feature::Ip6)
        } else if str_is(s, "send-probe") {
            Some(Feature::SendProbe)
        } else if str_is(s, "icmp") {
            Some(Feature::Icmp)
        } else if str_is(s, "udp") {
            Some(Feature::Udp)
        } else if str_is(s, "tcp") {
            Some(Feature::Tcp)
        } else if str_is(s, "sctp") {
            Some(Feature::Sctp)
        } else if str_is(s, "mark") {
            Some(Feature::Mark)
        } else {
            None
        }
    }

    /// The feature that asks whether a probe protocol is supported.
    pub fn for_protocol(p: Protocol) -> (r: Feature)
        ensures
            feature_name(r) == protocol_name(p),
            r == (match p {
                Protocol::Icmp => Feature::Icmp,
                Protocol::Udp => Feature::Udp,
                Protocol::Tcp => Feature::Tcp,
                Protocol::Sctp => Feature::Sctp,
            }),
    {
        match p {
            Protocol::Icmp => Feature::Icmp,
            Protocol::Udp => Feature::Udp,
            Protocol::Tcp => Feature::Tcp,
            Protocol::Sctp => Feature::Sctp,
        }
    }
}

/// A feature's name reads back as the feature.
pub proof fn lemma_feature_name_round_trip(f: Feature)
    ensures
        feature_from_name(feature_name(f)) == Some(f),
{
    reveal_strlit("version");
    reveal_strlit("ip-4");
    reveal_strlit("ip-6");
    reveal_strlit("send-probe");
    reveal_strlit("icmp");
    reveal_strlit("udp");
    reveal_strlit("tcp");
    reveal_strlit("sctp");
    reveal_strlit("mark");
    assert("version"@[0] == 'v' && "ip-4"@[0] == 'i' && "ip-6"@[0] == 'i' && "send-probe"@[0]
        == 's' && "icmp"@[0] == 'i' && "udp"@[0] == 'u' && "tcp"@[0] == 't' && "sctp"@[0] == 's'
        && "mark"@[0] == 'm');
    assert("ip-4"@[1] == 'p' && "ip-6"@[1] == 'p' && "icmp"@[1] == 'c' && "send-probe"@[1] == 'e'
        && "sctp"@[1] == 'c');
    assert("ip-4"@[3] == '4' && "ip-6"@[3] == '6');
}


/// Arguments of `send-probe`. `None` means "omit": the helper then uses its defaults
/// (protocol icmp, ttl 255, size 64, timeout 10).
#[derive(Debug, Clone, PartialEq, Eq)]
pub struct ProbeParams {
    pub target: IpAddr,
    pub local_ip: Option<IpAddr>,
    pub local_device: Option<String>,
    pub protocol: Protocol,
    pub size: Option<u16>,
    pub bit_pattern: Option<u8>,
    pub tos: Option<u8>,
    pub ttl: Option<u8>,
    pub timeout_s: Option<u32>,
    pub port: Option<u16>,
    pub local_port: Option<u16>,
    pub mark: Option<u32>,
}

/// `ProbeParams` with the device name as a character sequence.
pub struct ProbeParamsView {
    pub target: IpAddr,
    pub local_ip: Option<IpAddr>,
    pub local_device: Option<Seq<char>>,
    pub protocol: Protocol,
    pub size: Option<u16>,
    pub bit_pattern: Option<u8>,
    pub tos: Option<u8>,
    pub ttl: Option<u8>,
    pub timeout_s: Option<u32>,
    pub port: Option<u16>,
    pub local_port: Option<u16>,
    pub mark: Option<u32>,
}

impl View for ProbeParams {
    type V = ProbeParamsView;

    open spec fn view(&self) -> ProbeParamsView {
        ProbeParamsView {
            target: self.target,
            local_ip: self.local_ip,
            local_device: match self.local_device {
                Some(d) => Some(d@),
                None => None,
            },
            protocol: self.protocol,
            size: self.size,
            bit_pattern: self.bit_pattern,
            tos: self.tos,
            ttl: self.ttl,
            timeout_s: self.timeout_s,
            port: self.port,
            local_port: self.local_port,
            mark: self.mark,
        }
    }
}

impl ProbeParams {
    /// A probe of `target` with every optional argument omitted.
    pub fn new(target: IpAddr) -> (r: Self)
        ensures
            r@ == (ProbeParamsView {
                target,
                local_ip: None,
                local_device: None,
                protocol: Protocol::Icmp,
                size: None,
                bit_pattern: None,
                tos: None,
                ttl: None,
                timeout_s: None,
                port: None,
                local_port: None,
                mark: None,
            }),
    {
        ProbeParams {
            target,
            local_ip: None,
            local_device: None,
            protocol: Protocol::Icmp,
            size: None,
            bit_pattern: None,
            tos: None,
            ttl: None,
            timeout_s: None,
            port: None,
            local_port: None,
            mark: None,
        }
    }
}

/// What a request asks for.
#[derive(Debug, Clone, PartialEq, Eq)]
pub enum RequestKind {
    CheckSupport { feature: Feature },
    SendProbe(ProbeParams),
}

/// `RequestKind` by views.
pub enum RequestKindView {
    CheckSupport { feature: Feature },
    SendProbe(ProbeParamsView),
}

impl View for RequestKind {
    type V = RequestKindView;

    open spec fn view(&self) -> RequestKindView {
        match self {
            RequestKind::CheckSupport { feature } => RequestKindView::CheckSupport {
                feature: *feature,
            },
            RequestKind::SendProbe(p) => RequestKindView::SendProbe(p@),
        }
    }
}

/// One request line: the client's token and what it asks for.
#[derive(Debug, Clone, PartialEq, Eq)]
pub struct Request {
    pub token: i32,
    pub kind: RequestKind,
}

/// `Request` by views.
pub struct RequestView {
    pub token: i32,
    pub kind: RequestKindView,
}

impl View for Request {
    type V = RequestView;

    open spec fn view(&self) -> RequestView {
        RequestView { token: self.token, kind: self.kind@ }
    }
}

// ---------------------------------------------------------------------------------------------
// Encoding
// ---------------------------------------------------------------------------------------------
/// The key that carries an address of `a`'s family.
pub open spec fn ip_key_name(a: IpAddr, v4: Seq<char>, v6: Seq<char>) -> Seq<char> {
    match a {
        IpAddr::V4(_) => v4,
        IpAddr::V6(_) => v6,
    }
}

/// `ps` with the pair `(key, v)` appended when there is a value.
pub open spec fn push_opt(ps: ArgsView, key: Seq<char>, v: Option<Seq<char>>) -> ArgsView {
    match v {
        Some(w) => ps.push((key, w)),
        None => ps,
    }
}

/// The decimal numeral of an optional number.
pub open spec fn opt_dec(v: Option<nat>) -> Option<Seq<char>> {
    match v {
        Some(n) => Some(dec_nat(n)),
        None => None,
    }
}

pub open spec fn nat_of_u8(v: Option<u8>) -> Option<nat> {
    match v {
        Some(n) => Some(n as nat),
        None => None,
    }
}

pub open spec fn nat_of_u16(v: Option<u16>) -> Option<nat> {
    match v {
        Some(n) => Some(n as nat),
        None => None,
    }
}

pub open spec fn nat_of_u32(v: Option<u32>) -> Option<nat> {
    match v {
        Some(n) => Some(n as nat),
        None => None,
    }
}

/// The key/value pairs of a `send-probe`, in the order the client writes them.
pub open spec fn probe_pairs(p: ProbeParamsView) -> ArgsView {
    let ps = seq![(ip_key_name(p.target, "ip-4"@, "ip-6"@), ip_text(p.target))];
    let ps = match p.local_ip {
        Some(l) => ps.push((ip_key_name(l, "local-ip-4"@, "local-ip-6"@), ip_text(l))),
        None => ps,
    };
    let ps = ps.push(("protocol"@, protocol_name(p.protocol)));
    push_opt(numbers_pairs(ps, p), "local-device"@, p.local_device)
}

/// The words of a request line.
pub open spec fn request_words(r: RequestView) -> Seq<Seq<char>> {
    match r.kind {
        RequestKindView::CheckSupport { feature } => seq![
            dec_int(r.token as int),
            "check-support"@,
            "feature"@,
            feature_name(feature),
        ],
        RequestKindView::SendProbe(p) => seq![dec_int(r.token as int), "send-probe"@] + flatten(
            probe_pairs(p),
        ),
    }
}

/// A request line: its words joined by single spaces, then a newline.
pub open spec fn encode_spec(r: RequestView) -> Seq<char> {
    join_words(request_words(r)) + seq!['\n']
}

/// Appends ` key value`, the value a string.
pub(crate) fn put_pair_str(
    out: &mut Vec<char>,
    Ghost(head): Ghost<Seq<Seq<char>>>,
    Ghost(ps): Ghost<ArgsView>,
    key: &str,
    value: &str,
)
    requires
        head.len() > 0,
        old(out)@ == join_words(head + flatten(ps)),
    ensures
        final(out)@ == join_words(head + flatten(ps.push((key@, value@)))),
{
    let ghost ws = head + flatten(ps);
    out.push(' ');
    push_str(out, key);
    proof {
        lemma_join_words_push(ws, key@);
    }
    out.push(' ');
    push_str(out, value);
    proof {
        lemma_join_words_push(ws.push(key@), value@);
        assert(ps.push((key@, value@)).drop_last() =~= ps);
        assert(head + flatten(ps.push((key@, value@))) =~= ws.push(key@).push(value@));
        assert(out@ =~= join_words(ws.push(key@).push(value@)));
    }
}

/// Appends ` key n`, `n` in decimal.
pub(crate) fn put_pair_dec(
    out: &mut Vec<char>,
    Ghost(head): Ghost<Seq<Seq<char>>>,
    Ghost(ps): Ghost<ArgsView>,
    key: &str,
    n: u64,
)
    requires
        head.len() > 0,
        old(out)@ == join_words(head + flatten(ps)),
    ensures
        final(out)@ == join_words(head + flatten(ps.push((key@, dec_nat(n as nat))))),
{
    let ghost ws = head + flatten(ps);
    out.push(' ');
    push_str(out, key);
    proof {
        lemma_join_words_push(ws, key@);
    }
    out.push(' ');
    push_dec(out, n);
    proof {
        lemma_join_words_push(ws.push(key@), dec_nat(n as nat));
        assert(ps.push((key@, dec_nat(n as nat))).drop_last() =~= ps);
        assert(head + flatten(ps.push((key@, dec_nat(n as nat)))) =~= ws.push(key@).push(
            dec_nat(n as nat),
        ));
        assert(out@ =~= join_words(ws.push(key@).push(dec_nat(n as nat))));
    }
}

/// Appends ` key a`, with the key for `a`'s family.
pub(crate) fn put_pair_ip(
    out: &mut Vec<char>,
    Ghost(head): Ghost<Seq<Seq<char>>>,
    Ghost(ps): Ghost<ArgsView>,
    v4: &str,
    v6: &str,
    a: &IpAddr,
)
    requires
        head.len() > 0,
        old(out)@ == join_words(head + flatten(ps)),
    ensures
        final(out)@ == join_words(head + flatten(ps.push((ip_key_name(*a, v4@, v6@), ip_text(*a))))),
{
    let ghost ws = head + flatten(ps);
    let key = if a.is_ipv4() {
        v4
    } else {
        v6
    };
    out.push(' ');
    push_str(out, key);
    proof {
        lemma_join_words_push(ws, key@);
    }
    out.push(' ');
    push_ip(out, a);
    proof {
        lemma_join_words_push(ws.push(key@), ip_text(*a));
        assert(ps.push((key@, ip_text(*a))).drop_last() =~= ps);
        assert(head + flatten(ps.push((key@, ip_text(*a)))) =~= ws.push(key@).push(ip_text(*a)));
        assert(out@ =~= join_words(ws.push(key@).push(ip_text(*a))));
    }
}

/// Appends the pairs of a `send-probe` after `head`.
fn put_probe_pairs(out: &mut Vec<char>, Ghost(head): Ghost<Seq<Seq<char>>>, p: &ProbeParams)
    requires
        head.len() > 0,
        old(out)@ == join_words(head + flatten(Seq::empty())),
    ensures
        final(out)@ == join_words(head + flatten(probe_pairs(p@))),
{
    let ghost mut ps: ArgsView = Seq::empty();
    put_pair_ip(out, Ghost(head), Ghost(ps), "ip-4", "ip-6", &p.target);
    proof {
        ps = ps.push((ip_key_name(p.target, "ip-4"@, "ip-6"@), ip_text(p.target)));
    }
    if let Some(l) = &p.local_ip {
        put_pair_ip(out, Ghost(head), Ghost(ps), "local-ip-4", "local-ip-6", l);
        proof {
            ps = ps.push((ip_key_name(*l, "local-ip-4"@, "local-ip-6"@), ip_text(*l)));
        }
    }
    put_pair_str(out, Ghost(head), Ghost(ps), "protocol", p.protocol.as_str());
    proof {
        ps = ps.push(("protocol"@, protocol_name(p.protocol)));
    }
    put_numbers(out, Ghost(head), Ghost(ps), p);
    if let Some(d) = &p.local_device {
        put_pair_str(out, Ghost(head), Ghost(numbers_pairs(ps, p@)), "local-device", d.as_str());
    }
}

/// The numeric pairs of a `send-probe`, appended to `ps`.
pub open spec fn numbers_pairs(ps: ArgsView, p: ProbeParamsView) -> ArgsView {
    let ps = push_opt(ps, "size"@, opt_dec(nat_of_u16(p.size)));
    let ps = push_opt(ps, "bit-pattern"@, opt_dec(nat_of_u8(p.bit_pattern)));
    let ps = push_opt(ps, "tos"@, opt_dec(nat_of_u8(p.tos)));
    let ps = push_opt(ps, "ttl"@, opt_dec(nat_of_u8(p.ttl)));
    let ps = push_opt(ps, "timeout"@, opt_dec(nat_of_u32(p.timeout_s)));
    let ps = push_opt(ps, "port"@, opt_dec(nat_of_u16(p.port)));
    let ps = push_opt(ps, "local-port"@, opt_dec(nat_of_u16(p.local_port)));
    push_opt(ps, "mark"@, opt_dec(nat_of_u32(p.mark)))
}

/// Appends the numeric pairs of a `send-probe`.
fn put_numbers(out: &mut Vec<char>, Ghost(head): Ghost<Seq<Seq<char>>>, Ghost(ps0): Ghost<ArgsView>, p: &ProbeParams)
    requires
        head.len() > 0,
        old(out)@ == join_words(head + flatten(ps0)),
    ensures
        final(out)@ == join_words(head + flatten(numbers_pairs(ps0, p@))),
{
    let ghost mut ps = ps0;
    if let Some(v) = p.size {
        put_pair_dec(out, Ghost(head), Ghost(ps), "size", v as u64);
        proof {
            ps = ps.push(("size"@, dec_nat(v as nat)));
        }
    }
    if let Some(v) = p.bit_pattern {
        put_pair_dec(out, Ghost(head), Ghost(ps), "bit-pattern", v as u64);
        proof {
            ps = ps.push(("bit-pattern"@, dec_nat(v as nat)));
        }
    }
    if let Some(v) = p.tos {
        put_pair_dec(out, Ghost(head), Ghost(ps), "tos", v as u64);
        proof {
            ps = ps.push(("tos"@, dec_nat(v as nat)));
        }
    }
    if let Some(v) = p.ttl {
        put_pair_dec(out, Ghost(head), Ghost(ps), "ttl", v as u64);
        proof {
            ps = ps.push(("ttl"@, dec_nat(v as nat)));
        }
    }
    if let Some(v) = p.timeout_s {
        put_pair_dec(out, Ghost(head), Ghost(ps), "timeout", v as u64);
        proof {
            ps = ps.push(("timeout"@, dec_nat(v as nat)));
        }
    }
    if let Some(v) = p.port {
        put_pair_dec(out, Ghost(head), Ghost(ps), "port", v as u64);
        proof {
            ps = ps.push(("port"@, dec_nat(v as nat)));
        }
    }
    if let Some(v) = p.local_port {
        put_pair_dec(out, Ghost(head), Ghost(ps), "local-port", v as u64);
        proof {
            ps = ps.push(("local-port"@, dec_nat(v as nat)));
        }
    }
    if let Some(v) = p.mark {
        put_pair_dec(out, Ghost(head), Ghost(ps), "mark", v as u64);
        proof {
            ps = ps.push(("mark"@, dec_nat(v as nat)));
        }
    }
}

impl Request {
    /// Encodes as one protocol line including the trailing newline, in the field order the
    /// client uses.
#[verifier::rlimit(50)]
    pub fn encode(&self) -> (r: String)
        ensures
            r@ == encode_spec(self@),
    {
        let mut out: Vec<char> = Vec::new();
        push_dec_signed(&mut out, self.token as i64);
        out.push(' ');
        match &self.kind {
            RequestKind::CheckSupport { feature } => {
                push_str(&mut out, "check-support");
                let ghost head = seq![dec_int(self.token as int), "check-support"@];
                proof {
                    lemma_join_words_push(seq![dec_int(self.token as int)], "check-support"@);
                    assert(seq![dec_int(self.token as int)].push("check-support"@) =~= head);
                    assert(flatten(Seq::empty()) =~= Seq::<Seq<char>>::empty());
                    assert(head + flatten(Seq::empty()) =~= head);
                    assert(out@ =~= join_words(head + flatten(Seq::empty())));
                }
                put_pair_str(&mut out, Ghost(head), Ghost(Seq::empty()), "feature", feature.as_str());
                proof {
                    let ps: ArgsView = Seq::empty();
                    assert(flatten(ps.push(("feature"@, feature_name(*feature)))) =~= seq![
                        "feature"@,
                        feature_name(*feature),
                    ]) by {
                        assert(ps.push(("feature"@, feature_name(*feature))).drop_last() =~= ps);
                    }
                    assert(head + flatten(ps.push(("feature"@, feature_name(*feature))))
                        =~= request_words(self@));
                }
            },
            RequestKind::SendProbe(p) => {
                push_str(&mut out, "send-probe");
                let ghost head = seq![dec_int(self.token as int), "send-probe"@];
                proof {
                    lemma_join_words_push(seq![dec_int(self.token as int)], "send-probe"@);
                    assert(seq![dec_int(self.token as int)].push("send-probe"@) =~= head);
                    assert(flatten(Seq::empty()) =~= Seq::<Seq<char>>::empty());
                    assert(head + flatten(Seq::empty()) =~= head);
                    assert(out@ =~= join_words(head + flatten(Seq::empty())));
                }
                put_probe_pairs(&mut out, Ghost(head), p);
            },
        }
        out.push('\n');
        string_from_chars(out.as_slice())
    }
}


// ---------------------------------------------------------------------------------------------
// Decoding
// ---------------------------------------------------------------------------------------------
/// The error for an argument that cannot take its value.
pub open spec fn bad_spec(name: Seq<char>, value: Seq<char>) -> ParseErrorView {
    ParseErrorView::InvalidValue { name, value }
}

/// What the arguments of a `send-probe` leave after being read in order: the target (the
/// last `ip-4`/`ip-6`, or the error of the first that does not parse) and, for every other
/// argument, its last raw value.
pub struct RawArgs {
    pub target: Result<Option<IpAddr>, ParseErrorView>,
    pub local: Option<Seq<char>>,
    pub protocol: Option<Seq<char>>,
    pub size: Option<Seq<char>>,
    pub bit_pattern: Option<Seq<char>>,
    pub tos: Option<Seq<char>>,
    pub ttl: Option<Seq<char>>,
    pub timeout: Option<Seq<char>>,
    pub port: Option<Seq<char>>,
    pub local_port: Option<Seq<char>>,
    pub mark: Option<Seq<char>>,
    pub local_device: Option<Seq<char>>,
}

/// Nothing read yet.
pub open spec fn raw_empty() -> RawArgs {
    RawArgs {
        target: Ok(None),
        local: None,
        protocol: None,
        size: None,
        bit_pattern: None,
        tos: None,
        ttl: None,
        timeout: None,
        port: None,
        local_port: None,
        mark: None,
        local_device: None,
    }
}

/// Reading one more pair `key value`. Unknown keys are ignored.
pub open spec fn raw_step(r: RawArgs, k: Seq<char>, v: Seq<char>) -> RawArgs {
    if k == "ip-4"@ {
        RawArgs {
            target: match r.target {
                Err(e) => Err(e),
                Ok(_) => match parse_v4_spec(v) {
                    Some(a) => Ok(Some(IpAddr::V4(a))),
                    None => Err(bad_spec("ip-4"@, v)),
                },
            },
            ..r
        }
    } else if k == "ip-6"@ {
        RawArgs {
            target: match r.target {
                Err(e) => Err(e),
                Ok(_) => match parse_v6_spec(v) {
                    Some(a) => Ok(Some(IpAddr::V6(a))),
                    None => Err(bad_spec("ip-6"@, v)),
                },
            },
            ..r
        }
    } else if k == "local-ip-4"@ || k == "local-ip-6"@ {
        RawArgs { local: Some(v), ..r }
    } else if k == "protocol"@ {
        RawArgs { protocol: Some(v), ..r }
    } else if k == "size"@ {
        RawArgs { size: Some(v), ..r }
    } else if k == "bit-pattern"@ {
        RawArgs { bit_pattern: Some(v), ..r }
    } else if k == "tos"@ {
        RawArgs { tos: Some(v), ..r }
    } else if k == "ttl"@ {
        RawArgs { ttl: Some(v), ..r }
    } else if k == "timeout"@ {
        RawArgs { timeout: Some(v), ..r }
    } else if k == "port"@ {
        RawArgs { port: Some(v), ..r }
    } else if k == "local-port"@ {
        RawArgs { local_port: Some(v), ..r }
    } else if k == "mark"@ {
        RawArgs { mark: Some(v), ..r }
    } else if k == "local-device"@ {
        RawArgs { local_device: Some(v), ..r }
    } else {
        r
    }
}

/// The pairs read in order.
pub open spec fn raw_args(args: ArgsView) -> RawArgs
    decreases args.len(),
{
    if args.len() == 0 {
        raw_empty()
    } else {
        raw_step(raw_args(args.drop_last()), args.last().0, args.last().1)
    }
}

/// An optional integer argument of a type whose values are `lo..=hi`.
pub open spec fn num_spec(raw: Option<Seq<char>>, name: Seq<char>, lo: int, hi: int) -> Result<
    Option<int>,
    ParseErrorView,
> {
    match raw {
        None => Ok(None),
        Some(v) => match rust_int_in(v, true, lo, hi) {
            Some(n) => Ok(Some(n)),
            None => Err(bad_spec(name, v)),
        },
    }
}

/// The local address, read in the target's family.
pub open spec fn local_spec(target: IpAddr, raw: Option<Seq<char>>) -> Result<
    Option<IpAddr>,
    ParseErrorView,
> {
    match raw {
        None => Ok(None),
        Some(v) => match target {
            IpAddr::V4(_) => match parse_v4_spec(v) {
                Some(a) => Ok(Some(IpAddr::V4(a))),
                None => Err(bad_spec("local-ip-4"@, v)),
            },
            IpAddr::V6(_) => match parse_v6_spec(v) {
                Some(a) => Ok(Some(IpAddr::V6(a))),
                None => Err(bad_spec("local-ip-6"@, v)),
            },
        },
    }
}

/// The protocol; ICMP when absent.
pub open spec fn protocol_spec(raw: Option<Seq<char>>) -> Result<Protocol, ParseErrorView> {
    match raw {
        None => Ok(Protocol::Icmp),
        Some(v) => match protocol_from_name(v) {
            Some(p) => Ok(p),
            None => Err(bad_spec("protocol"@, v)),
        },
    }
}

/// The fill byte: any 64-bit integer, of which the low byte is kept.
pub open spec fn bit_pattern_spec(raw: Option<Seq<char>>) -> Result<Option<u8>, ParseErrorView> {
    match raw {
        None => Ok(None),
        Some(v) => match rust_int_in(v, true, i64::MIN as int, i64::MAX as int) {
            Some(n) => Ok(Some((n % 256) as u8)),
            None => Err(bad_spec("bit-pattern"@, v)),
        },
    }
}

pub open spec fn opt_u8(v: Option<int>) -> Option<u8> {
    match v {
        Some(n) => Some(n as u8),
        None => None,
    }
}

pub open spec fn opt_u16(v: Option<int>) -> Option<u16> {
    match v {
        Some(n) => Some(n as u16),
        None => None,
    }
}

pub open spec fn opt_u32(v: Option<int>) -> Option<u32> {
    match v {
        Some(n) => Some(n as u32),
        None => None,
    }
}

/// The arguments of a `send-probe`, or the first error in the order the helper checks them:
/// target, local address, protocol, bit pattern, size, tos, ttl, timeout, port, local port,
/// mark.
pub open spec fn probe_params_spec(args: ArgsView) -> Result<ProbeParamsView, ParseErrorView> {
    let r = raw_args(args);
    match r.target {
        Err(e) => Err(e),
        Ok(None) => Err(ParseErrorView::MissingArgument("ip-4"@)),
        Ok(Some(target)) => {
            let local = local_spec(target, r.local);
            let protocol = protocol_spec(r.protocol);
            let bits = bit_pattern_spec(r.bit_pattern);
            let size = num_spec(r.size, "size"@, 0, 0xffff);
            let tos = num_spec(r.tos, "tos"@, 0, 0xff);
            let ttl = num_spec(r.ttl, "ttl"@, 0, 0xff);
            let timeout = num_spec(r.timeout, "timeout"@, 0, 0xffff_ffff);
            let port = num_spec(r.port, "port"@, 0, 0xffff);
            let local_port = num_spec(r.local_port, "local-port"@, 0, 0xffff);
            let mark = num_spec(r.mark, "mark"@, 0, 0xffff_ffff);
            if local is Err {
                Err(local->Err_0)
            } else if protocol is Err {
                Err(protocol->Err_0)
            } else if bits is Err {
                Err(bits->Err_0)
            } else if size is Err {
                Err(size->Err_0)
            } else if tos is Err {
                Err(tos->Err_0)
            } else if ttl is Err {
                Err(ttl->Err_0)
            } else if timeout is Err {
                Err(timeout->Err_0)
            } else if port is Err {
                Err(port->Err_0)
            } else if local_port is Err {
                Err(local_port->Err_0)
            } else if mark is Err {
                Err(mark->Err_0)
            } else {
                Ok(
                    ProbeParamsView {
                        target,
                        local_ip: local->Ok_0,
                        local_device: r.local_device,
                        protocol: protocol->Ok_0,
                        size: opt_u16(size->Ok_0),
                        bit_pattern: bits->Ok_0,
                        tos: opt_u8(tos->Ok_0),
                        ttl: opt_u8(ttl->Ok_0),
                        timeout_s: opt_u32(timeout->Ok_0),
                        port: opt_u16(port->Ok_0),
                        local_port: opt_u16(local_port->Ok_0),
                        mark: opt_u32(mark->Ok_0),
                    },
                )
            }
        },
    }
}

/// What `Request::parse` makes of a line.
pub open spec fn parse_request_spec(s: Seq<char>) -> Result<RequestView, ParseErrorView> {
    match tokenize_spec(s) {
        Err(e) => Err(e@),
        Ok((token, name, args)) => if name == "check-support"@ {
            match first_value(args, "feature"@) {
                None => Err(ParseErrorView::MissingArgument("feature"@)),
                Some(f) => match feature_from_name(f) {
                    None => Err(ParseErrorView::UnknownFeature(f)),
                    Some(feature) => Ok(
                        RequestView { token, kind: RequestKindView::CheckSupport { feature } },
                    ),
                },
            }
        } else if name == "send-probe"@ {
            match probe_params_spec(args) {
                Ok(p) => Ok(RequestView { token, kind: RequestKindView::SendProbe(p) }),
                Err(e) => Err(e),
            }
        } else {
            Err(ParseErrorView::UnknownCommand(name))
        },
    }
}

pub(crate) fn bad(name: &'static str, value: &str) -> (e: ParseError)
    ensures
        e@ == bad_spec(name@, value@),
{
    ParseError::InvalidValue { name, value: value.to_owned() }
}

/// An optional integer argument of a type whose values are `lo..=hi`.
fn num(raw: Option<&str>, name: &'static str, lo: i128, hi: i128) -> (r: Result<Option<i128>, ParseError>)
    requires
        i64::MIN <= lo,
        hi <= i64::MAX,
    ensures
        r matches Ok(v) ==> num_spec(opt_view(raw), name@, lo as int, hi as int) == Ok::<_, ParseErrorView>(opt_int(v)),
        r matches Err(e) ==> num_spec(opt_view(raw), name@, lo as int, hi as int) == Err::<Option<int>, _>(e@),
        r matches Ok(Some(n)) ==> lo <= n <= hi,
{
    match raw {
        None => Ok(None),
        Some(v) => {
            let c = str_chars(v);
            match parse_int(c.as_slice(), true, lo, hi) {
                Some(n) => Ok(Some(n)),
                None => Err(bad(name, v)),
            }
        },
    }
}

pub open spec fn opt_view(o: Option<&str>) -> Option<Seq<char>> {
    match o {
        Some(s) => Some(s@),
        None => None,
    }
}

pub open spec fn opt_int(o: Option<i128>) -> Option<int> {
    match o {
        Some(n) => Some(n as int),
        None => None,
    }
}

/// Raw arguments while reading.
struct RawArgsExec<'a> {
    target: Option<IpAddr>,
    local: Option<&'a str>,
    protocol: Option<&'a str>,
    size: Option<&'a str>,
    bit_pattern: Option<&'a str>,
    tos: Option<&'a str>,
    ttl: Option<&'a str>,
    timeout: Option<&'a str>,
    port: Option<&'a str>,
    local_port: Option<&'a str>,
    mark: Option<&'a str>,
    local_device: Option<&'a str>,
}

spec fn raw_matches(e: RawArgsExec, r: RawArgs) -> bool {
    &&& r.target == Ok::<_, ParseErrorView>(e.target)
    &&& r.local == opt_view(e.local)
    &&& r.protocol == opt_view(e.protocol)
    &&& r.size == opt_view(e.size)
    &&& r.bit_pattern == opt_view(e.bit_pattern)
    &&& r.tos == opt_view(e.tos)
    &&& r.ttl == opt_view(e.ttl)
    &&& r.timeout == opt_view(e.timeout)
    &&& r.port == opt_view(e.port)
    &&& r.local_port == opt_view(e.local_port)
    &&& r.mark == opt_view(e.mark)
    &&& r.local_device == opt_view(e.local_device)
}

/// Once reading the target failed, it stays failed.
proof fn lemma_raw_target_err_sticks(args: ArgsView, i: int)
    requires
        0 <= i <= args.len(),
        raw_args(args.take(i)).target is Err,
    ensures
        raw_args(args).target == raw_args(args.take(i)).target,
    decreases args.len(),
{
    if i == args.len() {
        assert(args.take(i) =~= args);
    } else {
        assert(args.drop_last().take(i) =~= args.take(i));
        lemma_raw_target_err_sticks(args.drop_last(), i);
    }
}

/// Reads the pairs in order.
#[verifier::rlimit(50)]
fn read_raw<'a>(l: &Line<'a>) -> (r: Result<RawArgsExec<'a>, ParseError>)
    ensures
        r matches Ok(e) ==> raw_matches(e, raw_args(l.args_view())),
        r matches Err(e) ==> raw_args(l.args_view()).target == Err::<Option<IpAddr>, _>(e@),
{
    let mut e = RawArgsExec {
        target: None,
        local: None,
        protocol: None,
        size: None,
        bit_pattern: None,
        tos: None,
        ttl: None,
        timeout: None,
        port: None,
        local_port: None,
        mark: None,
        local_device: None,
    };
    let ghost args = l.args_view();
    let mut i: usize = 0;
    assert(args.take(0) =~= Seq::<(Seq<char>, Seq<char>)>::empty());
    while i < l.args.len()
        invariant
            i <= l.args.len(),
            args == l.args_view(),
            raw_matches(e, raw_args(args.take(i as int))),
        decreases l.args.len() - i,
    {
        let (k, v) = l.args[i];
        proof {
            assert(args[i as int] == (k@, v@));
            assert(args.take(i + 1).drop_last() =~= args.take(i as int));
            assert(args.take(i + 1).last() == (k@, v@));
        }
        if str_is(k, "ip-4") {
            match parse_ipv4(v) {
                Some(a) => e.target = Some(IpAddr::V4(a)),
                None => {
                    proof {
                        lemma_raw_target_err_sticks(args, i + 1);
                    }
                    return Err(bad("ip-4", v));
                },
            }
        } else if str_is(k, "ip-6") {
            match parse_ipv6(v) {
                Some(a) => e.target = Some(IpAddr::V6(a)),
                None => {
                    proof {
                        lemma_raw_target_err_sticks(args, i + 1);
                    }
                    return Err(bad("ip-6", v));
                },
            }
        } else if str_is(k, "local-ip-4") || str_is(k, "local-ip-6") {
            e.local = Some(v);
        } else if str_is(k, "protocol") {
            e.protocol = Some(v);
        } else if str_is(k, "size") {
            e.size = Some(v);
        } else if str_is(k, "bit-pattern") {
            e.bit_pattern = Some(v);
        } else if str_is(k, "tos") {
            e.tos = Some(v);
        } else if str_is(k, "ttl") {
            e.ttl = Some(v);
        } else if str_is(k, "timeout") {
            e.timeout = Some(v);
        } else if str_is(k, "port") {
            e.port = Some(v);
        } else if str_is(k, "local-port") {
            e.local_port = Some(v);
        } else if str_is(k, "mark") {
            e.mark = Some(v);
        } else if str_is(k, "local-device") {
            e.local_device = Some(v);
        }
        i += 1;
    }
    assert(args.take(i as int) =~= args);
    Ok(e)
}

/// The arguments of a `send-probe`. Arguments are decoded in order, so the last `ip-4`/`ip-6`
/// wins and `local-ip-*` is read in the family the target selects.
#[verifier::rlimit(50)]
fn parse_probe_params(l: &Line<'_>) -> (r: Result<ProbeParams, ParseError>)
    ensures
        r matches Ok(p) ==> probe_params_spec(l.args_view()) == Ok::<_, ParseErrorView>(p@),
        r matches Err(e) ==> probe_params_spec(l.args_view()) == Err::<ProbeParamsView, _>(e@),
{
    let e = match read_raw(l) {
        Ok(e) => e,
        Err(er) => return Err(er),
    };
    let target = match e.target {
        Some(t) => t,
        None => return Err(ParseError::MissingArgument("ip-4")),
    };
    let local_ip = match e.local {
        None => None,
        Some(v) => if target.is_ipv4() {
            match parse_ipv4(v) {
                Some(a) => Some(IpAddr::V4(a)),
                None => return Err(bad("local-ip-4", v)),
            }
        } else {
            match parse_ipv6(v) {
                Some(a) => Some(IpAddr::V6(a)),
                None => return Err(bad("local-ip-6", v)),
            }
        },
    };
    let protocol = match e.protocol {
        None => Protocol::Icmp,
        Some(v) => match Protocol::parse(v) {
            Some(p) => p,
            None => return Err(bad("protocol", v)),
        },
    };
    let bit_pattern = match e.bit_pattern {
        None => None,
        Some(v) => {
            let c = str_chars(v);
            match parse_int(c.as_slice(), true, -0x8000_0000_0000_0000i128, 0x7fff_ffff_ffff_ffffi128) {
                // memset() keeps the low byte
                Some(n) => Some(low_byte(n)),
                None => return Err(bad("bit-pattern", v)),
            }
        },
    };
    let size = match num(e.size, "size", 0, 0xffff) {
        Ok(x) => x,
        Err(er) => return Err(er),
    };
    let tos = match num(e.tos, "tos", 0, 0xff) {
        Ok(x) => x,
        Err(er) => return Err(er),
    };
    let ttl = match num(e.ttl, "ttl", 0, 0xff) {
        Ok(x) => x,
        Err(er) => return Err(er),
    };
    let timeout = match num(e.timeout, "timeout", 0, 0xffff_ffff) {
        Ok(x) => x,
        Err(er) => return Err(er),
    };
    let port = match num(e.port, "port", 0, 0xffff) {
        Ok(x) => x,
        Err(er) => return Err(er),
    };
    let local_port = match num(e.local_port, "local-port", 0, 0xffff) {
        Ok(x) => x,
        Err(er) => return Err(er),
    };
    let mark = match num(e.mark, "mark", 0, 0xffff_ffff) {
        Ok(x) => x,
        Err(er) => return Err(er),
    };
    let local_device = match e.local_device {
        Some(d) => Some(d.to_owned()),
        None => None,
    };
    let p = ProbeParams {
        target,
        local_ip,
        local_device,
        protocol,
        size: narrow_u16(size),
        bit_pattern,
        tos: narrow_u8(tos),
        ttl: narrow_u8(ttl),
        timeout_s: narrow_u32(timeout),
        port: narrow_u16(port),
        local_port: narrow_u16(local_port),
        mark: narrow_u32(mark),
    };
    assert(p@ == probe_params_spec(l.args_view())->Ok_0);
    Ok(p)
}

/// A value already checked to fit in `u8`.
fn narrow_u8(v: Option<i128>) -> (r: Option<u8>)
    requires
        v matches Some(n) ==> 0 <= n <= 0xff,
    ensures
        r == opt_u8(opt_int(v)),
{
    match v {
        Some(n) => Some(n as u8),
        None => None,
    }
}

/// A value already checked to fit in `u16`.
fn narrow_u16(v: Option<i128>) -> (r: Option<u16>)
    requires
        v matches Some(n) ==> 0 <= n <= 0xffff,
    ensures
        r == opt_u16(opt_int(v)),
{
    match v {
        Some(n) => Some(n as u16),
        None => None,
    }
}

/// A value already checked to fit in `u32`.
fn narrow_u32(v: Option<i128>) -> (r: Option<u32>)
    requires
        v matches Some(n) ==> 0 <= n <= 0xffff_ffff,
    ensures
        r == opt_u32(opt_int(v)),
{
    match v {
        Some(n) => Some(n as u32),
        None => None,
    }
}

/// The low byte of a 64-bit integer, as two's complement keeps it.
pub(crate) fn low_byte(n: i128) -> (b: u8)
    requires
        i64::MIN <= n <= i64::MAX,
    ensures
        b as int == n % 256,
{
    if n >= 0 {
        (n % 256) as u8
    } else {
        let m: i128 = (-n) % 256;
        assert((-n) % 256 == m);
        if m == 0 {
            proof {
                assert(n % 256 == 0) by (nonlinear_arith)
                    requires
                        (-n) % 256 == 0,
                        n < 0,
                ;
            }
            0
        } else {
            proof {
                assert(n % 256 == 256 - m) by (nonlinear_arith)
                    requires
                        (-n) % 256 == m,
                        0 < m < 256,
                        n < 0,
                ;
            }
            (256 - m) as u8
        }
    }
}

impl Request {
    /// Parses one line (trailing newline optional).
    pub fn parse(line: &str) -> (r: Result<Request, ParseError>)
        ensures
            r matches Ok(q) ==> parse_request_spec(line@) == Ok::<_, ParseErrorView>(q@),
            r matches Err(e) ==> parse_request_spec(line@) == Err::<RequestView, _>(e@),
    {
        let l = match tokenize(line) {
            Ok(l) => l,
            Err(e) => return Err(e),
        };
        if str_is(l.name, "check-support") {
            match l.first("feature") {
                None => Err(ParseError::MissingArgument("feature")),
                Some(f) => match Feature::parse(f) {
                    None => Err(ParseError::UnknownFeature(f.to_owned())),
                    Some(feature) => Ok(
                        Request { token: l.token, kind: RequestKind::CheckSupport { feature } },
                    ),
                },
            }
        } else if str_is(l.name, "send-probe") {
            match parse_probe_params(&l) {
                Ok(p) => Ok(Request { token: l.token, kind: RequestKind::SendProbe(p) }),
                Err(e) => Err(e),
            }
        } else {
            Err(ParseError::UnknownCommand(l.name.to_owned()))
        }
    }
}


// ---------------------------------------------------------------------------------------------
// Reading back what was written
// ---------------------------------------------------------------------------------------------
/// A request the line format can carry: a local address of the target's family, and a
/// device name that is one word.
pub open spec fn request_encodable(r: RequestView) -> bool {
    match r.kind {
        RequestKindView::CheckSupport { .. } => true,
        RequestKindView::SendProbe(p) => {
            &&& (p.local_ip matches Some(l) ==> (l is V4 <==> p.target is V4))
            &&& (p.local_device matches Some(d) ==> is_word(d))
        },
    }
}

/// The key literals: their lengths and the characters that tell them apart.
pub(crate) proof fn lemma_key_facts()
    ensures
        "ip-4"@.len() == 4 && "ip-4"@[0] == 'i' && "ip-4"@[3] == '4',
        "ip-6"@.len() == 4 && "ip-6"@[0] == 'i' && "ip-6"@[3] == '6',
        "local-ip-4"@.len() == 10 && "local-ip-4"@[6] == 'i' && "local-ip-4"@[9] == '4',
        "local-ip-6"@.len() == 10 && "local-ip-6"@[6] == 'i' && "local-ip-6"@[9] == '6',
        "protocol"@.len() == 8,
        "size"@.len() == 4 && "size"@[0] == 's',
        "bit-pattern"@.len() == 11,
        "tos"@.len() == 3 && "tos"@[1] == 'o',
        "ttl"@.len() == 3 && "ttl"@[1] == 't',
        "timeout"@.len() == 7,
        "port"@.len() == 4 && "port"@[0] == 'p',
        "local-port"@.len() == 10 && "local-port"@[6] == 'p',
        "mark"@.len() == 4 && "mark"@[0] == 'm',
        "local-device"@.len() == 12,
        "send-probe"@.len() == 10,
        "check-support"@.len() == 13,
{
    reveal_strlit("ip-4");
    reveal_strlit("ip-6");
    reveal_strlit("local-ip-4");
    reveal_strlit("local-ip-6");
    reveal_strlit("protocol");
    reveal_strlit("size");
    reveal_strlit("bit-pattern");
    reveal_strlit("tos");
    reveal_strlit("ttl");
    reveal_strlit("timeout");
    reveal_strlit("port");
    reveal_strlit("local-port");
    reveal_strlit("mark");
    reveal_strlit("local-device");
    reveal_strlit("send-probe");
    reveal_strlit("check-support");
}

/// Every key and command name is a word.
proof fn lemma_keys_are_words()
    ensures
        is_word("ip-4"@),
        is_word("ip-6"@),
        is_word("local-ip-4"@),
        is_word("local-ip-6"@),
        is_word("protocol"@),
        is_word("size"@),
        is_word("bit-pattern"@),
        is_word("tos"@),
        is_word("ttl"@),
        is_word("timeout"@),
        is_word("port"@),
        is_word("local-port"@),
        is_word("mark"@),
        is_word("local-device"@),
        is_word("send-probe"@),
        is_word("check-support"@),
        is_word("feature"@),
{
    reveal_strlit("ip-4");
    reveal_strlit("ip-6");
    reveal_strlit("local-ip-4");
    reveal_strlit("local-ip-6");
    reveal_strlit("protocol");
    reveal_strlit("size");
    reveal_strlit("bit-pattern");
    reveal_strlit("tos");
    reveal_strlit("ttl");
    reveal_strlit("timeout");
    reveal_strlit("port");
    reveal_strlit("local-port");
    reveal_strlit("mark");
    reveal_strlit("local-device");
    reveal_strlit("send-probe");
    reveal_strlit("check-support");
    reveal_strlit("feature");
}

/// Protocol and feature names are words.
proof fn lemma_names_are_words(p: Protocol, f: Feature)
    ensures
        is_word(protocol_name(p)),
        is_word(feature_name(f)),
{
    reveal_strlit("icmp");
    reveal_strlit("udp");
    reveal_strlit("tcp");
    reveal_strlit("sctp");
    reveal_strlit("version");
    reveal_strlit("ip-4");
    reveal_strlit("ip-6");
    reveal_strlit("send-probe");
    reveal_strlit("mark");
}

/// A numeral is a word.
proof fn lemma_dec_word(n: nat)
    ensures
        is_word(dec_nat(n)),
{
    lemma_dec_nat(n);
    let d = dec_nat(n);
    assert forall|j: int| 0 <= j < d.len() implies !c_space(#[trigger] d[j]) by {
        assert(crate::text::is_digit(d[j]));
    }
}

/// Every key and value is a word.
pub open spec fn pairs_words(ps: ArgsView) -> bool {
    forall|i: int| 0 <= i < ps.len() ==> is_word(#[trigger] ps[i].0) && is_word(ps[i].1)
}

proof fn lemma_push_words(ps: ArgsView, k: Seq<char>, v: Option<Seq<char>>)
    requires
        pairs_words(ps),
        is_word(k),
        v matches Some(w) ==> is_word(w),
    ensures
        pairs_words(push_opt(ps, k, v)),
{
    if let Some(w) = v {
        let q = ps.push((k, w));
        assert forall|i: int| 0 <= i < q.len() implies is_word(#[trigger] q[i].0) && is_word(
            q[i].1,
        ) by {
            if i < ps.len() {
                assert(q[i] == ps[i]);
            }
        }
    }
}

proof fn lemma_opt_dec_word(v: Option<nat>)
    ensures
        opt_dec(v) matches Some(w) ==> is_word(w),
{
    if let Some(n) = v {
        lemma_dec_word(n);
    }
}

/// The pairs of an encodable `send-probe` are words, at most a dozen of them.
pub(crate) proof fn lemma_probe_pairs_words(p: ProbeParamsView)
    requires
        p.local_device matches Some(d) ==> is_word(d),
    ensures
        pairs_words(probe_pairs(p)),
        probe_pairs(p).len() <= 12,
{
    lemma_keys_are_words();
    lemma_names_are_words(p.protocol, Feature::Icmp);
    lemma_ip_text_chars(p.target);
    let k0 = ip_key_name(p.target, "ip-4"@, "ip-6"@);
    let ps0: ArgsView = seq![(k0, ip_text(p.target))];
    assert(pairs_words(ps0));
    let ps1 = match p.local_ip {
        Some(l) => ps0.push((ip_key_name(l, "local-ip-4"@, "local-ip-6"@), ip_text(l))),
        None => ps0,
    };
    if let Some(l) = p.local_ip {
        lemma_ip_text_chars(l);
        lemma_push_words(ps0, ip_key_name(l, "local-ip-4"@, "local-ip-6"@), Some(ip_text(l)));
    }
    let ps2 = ps1.push(("protocol"@, protocol_name(p.protocol)));
    lemma_push_words(ps1, "protocol"@, Some(protocol_name(p.protocol)));
    let v1 = opt_dec(nat_of_u16(p.size));
    let v2 = opt_dec(nat_of_u8(p.bit_pattern));
    let v3 = opt_dec(nat_of_u8(p.tos));
    let v4 = opt_dec(nat_of_u8(p.ttl));
    let v5 = opt_dec(nat_of_u32(p.timeout_s));
    let v6 = opt_dec(nat_of_u16(p.port));
    let v7 = opt_dec(nat_of_u16(p.local_port));
    let v8 = opt_dec(nat_of_u32(p.mark));
    lemma_opt_dec_word(nat_of_u16(p.size));
    lemma_opt_dec_word(nat_of_u8(p.bit_pattern));
    lemma_opt_dec_word(nat_of_u8(p.tos));
    lemma_opt_dec_word(nat_of_u8(p.ttl));
    lemma_opt_dec_word(nat_of_u32(p.timeout_s));
    lemma_opt_dec_word(nat_of_u16(p.port));
    lemma_opt_dec_word(nat_of_u16(p.local_port));
    lemma_opt_dec_word(nat_of_u32(p.mark));
    let q1 = push_opt(ps2, "size"@, v1);
    lemma_push_words(ps2, "size"@, v1);
    let q2 = push_opt(q1, "bit-pattern"@, v2);
    lemma_push_words(q1, "bit-pattern"@, v2);
    let q3 = push_opt(q2, "tos"@, v3);
    lemma_push_words(q2, "tos"@, v3);
    let q4 = push_opt(q3, "ttl"@, v4);
    lemma_push_words(q3, "ttl"@, v4);
    let q5 = push_opt(q4, "timeout"@, v5);
    lemma_push_words(q4, "timeout"@, v5);
    let q6 = push_opt(q5, "port"@, v6);
    lemma_push_words(q5, "port"@, v6);
    let q7 = push_opt(q6, "local-port"@, v7);
    lemma_push_words(q6, "local-port"@, v7);
    let q8 = push_opt(q7, "mark"@, v8);
    lemma_push_words(q7, "mark"@, v8);
    assert(q8 == numbers_pairs(ps2, p));
    lemma_push_words(q8, "local-device"@, p.local_device);
}


proof fn lemma_raw_push_opt(ps: ArgsView, k: Seq<char>, v: Option<Seq<char>>)
    ensures
        raw_args(push_opt(ps, k, v)) == match v {
            Some(w) => raw_step(raw_args(ps), k, w),
            None => raw_args(ps),
        },
{
    if let Some(w) = v {
        assert(ps.push((k, w)).drop_last() =~= ps);
    }
}

/// The pairs before the numbers: the target, the local address and the protocol.
pub open spec fn head_pairs(p: ProbeParamsView) -> ArgsView {
    let ps = seq![(ip_key_name(p.target, "ip-4"@, "ip-6"@), ip_text(p.target))];
    let ps = match p.local_ip {
        Some(l) => ps.push((ip_key_name(l, "local-ip-4"@, "local-ip-6"@), ip_text(l))),
        None => ps,
    };
    ps.push(("protocol"@, protocol_name(p.protocol)))
}

proof fn lemma_raw_head(p: ProbeParamsView)
    ensures
        raw_args(head_pairs(p)) == (RawArgs {
            target: Ok(Some(p.target)),
            local: match p.local_ip {
                Some(l) => Some(ip_text(l)),
                None => None,
            },
            protocol: Some(protocol_name(p.protocol)),
            ..raw_empty()
        }),
{
    lemma_key_facts();
    lemma_ip_round_trip(p.target);
    let k0 = ip_key_name(p.target, "ip-4"@, "ip-6"@);
    let ps0: ArgsView = seq![(k0, ip_text(p.target))];
    lemma_raw_push_opt(Seq::empty(), k0, Some(ip_text(p.target)));
    assert(Seq::<(Seq<char>, Seq<char>)>::empty().push((k0, ip_text(p.target))) =~= ps0);
    assert(raw_args(Seq::<(Seq<char>, Seq<char>)>::empty()) == raw_empty());
    let ps1 = match p.local_ip {
        Some(l) => ps0.push((ip_key_name(l, "local-ip-4"@, "local-ip-6"@), ip_text(l))),
        None => ps0,
    };
    if let Some(l) = p.local_ip {
        lemma_raw_push_opt(ps0, ip_key_name(l, "local-ip-4"@, "local-ip-6"@), Some(ip_text(l)));
    }
    lemma_raw_push_opt(ps1, "protocol"@, Some(protocol_name(p.protocol)));
}

/// Reading the numeric pairs sets the numeric raw values and leaves the rest.
#[verifier::rlimit(50)]
proof fn lemma_raw_numbers(ps: ArgsView, p: ProbeParamsView)
    requires
        raw_args(ps).size is None,
        raw_args(ps).bit_pattern is None,
        raw_args(ps).tos is None,
        raw_args(ps).ttl is None,
        raw_args(ps).timeout is None,
        raw_args(ps).port is None,
        raw_args(ps).local_port is None,
        raw_args(ps).mark is None,
    ensures
        raw_args(numbers_pairs(ps, p)) == (RawArgs {
            size: opt_dec(nat_of_u16(p.size)),
            bit_pattern: opt_dec(nat_of_u8(p.bit_pattern)),
            tos: opt_dec(nat_of_u8(p.tos)),
            ttl: opt_dec(nat_of_u8(p.ttl)),
            timeout: opt_dec(nat_of_u32(p.timeout_s)),
            port: opt_dec(nat_of_u16(p.port)),
            local_port: opt_dec(nat_of_u16(p.local_port)),
            mark: opt_dec(nat_of_u32(p.mark)),
            ..raw_args(ps)
        }),
{
    lemma_key_facts();
    let v1 = opt_dec(nat_of_u16(p.size));
    let v2 = opt_dec(nat_of_u8(p.bit_pattern));
    let v3 = opt_dec(nat_of_u8(p.tos));
    let v4 = opt_dec(nat_of_u8(p.ttl));
    let v5 = opt_dec(nat_of_u32(p.timeout_s));
    let v6 = opt_dec(nat_of_u16(p.port));
    let v7 = opt_dec(nat_of_u16(p.local_port));
    let v8 = opt_dec(nat_of_u32(p.mark));
    let r0 = raw_args(ps);
    let q1 = push_opt(ps, "size"@, v1);
    lemma_raw_push_opt(ps, "size"@, v1);
    let r1 = RawArgs { size: v1, ..r0 };
    assert(raw_args(q1) == r1);
    let q2 = push_opt(q1, "bit-pattern"@, v2);
    lemma_raw_push_opt(q1, "bit-pattern"@, v2);
    let r2 = RawArgs { bit_pattern: v2, ..r1 };
    assert(raw_args(q2) == r2);
    let q3 = push_opt(q2, "tos"@, v3);
    lemma_raw_push_opt(q2, "tos"@, v3);
    let r3 = RawArgs { tos: v3, ..r2 };
    assert(raw_args(q3) == r3);
    let q4 = push_opt(q3, "ttl"@, v4);
    lemma_raw_push_opt(q3, "ttl"@, v4);
    let r4 = RawArgs { ttl: v4, ..r3 };
    assert(raw_args(q4) == r4);
    let q5 = push_opt(q4, "timeout"@, v5);
    lemma_raw_push_opt(q4, "timeout"@, v5);
    let r5 = RawArgs { timeout: v5, ..r4 };
    assert(raw_args(q5) == r5);
    let q6 = push_opt(q5, "port"@, v6);
    lemma_raw_push_opt(q5, "port"@, v6);
    let r6 = RawArgs { port: v6, ..r5 };
    assert(raw_args(q6) == r6);
    let q7 = push_opt(q6, "local-port"@, v7);
    lemma_raw_push_opt(q6, "local-port"@, v7);
    let r7 = RawArgs { local_port: v7, ..r6 };
    assert(raw_args(q7) == r7);
    lemma_raw_push_opt(q7, "mark"@, v8);
    let r8 = RawArgs { mark: v8, ..r7 };
    assert(raw_args(push_opt(q7, "mark"@, v8)) == r8);
    assert(push_opt(q7, "mark"@, v8) == numbers_pairs(ps, p));
}


/// A numeral in range reads back as its number.
proof fn lemma_num_dec(v: Option<nat>, name: Seq<char>, lo: int, hi: int)
    requires
        lo <= 0,
        v matches Some(n) ==> n <= hi,
    ensures
        num_spec(opt_dec(v), name, lo, hi) == Ok::<_, ParseErrorView>(match v {
            Some(n) => Some(n as int),
            None => None,
        }),
{
    if let Some(n) = v {
        lemma_rust_int_dec(n as int, true);
        assert(dec_int(n as int) == dec_nat(n));
    }
}

/// The raw values of the pairs of a `send-probe`.
pub open spec fn raw_of(p: ProbeParamsView) -> RawArgs {
    RawArgs {
        target: Ok(Some(p.target)),
        local: match p.local_ip {
            Some(l) => Some(ip_text(l)),
            None => None,
        },
        protocol: Some(protocol_name(p.protocol)),
        size: opt_dec(nat_of_u16(p.size)),
        bit_pattern: opt_dec(nat_of_u8(p.bit_pattern)),
        tos: opt_dec(nat_of_u8(p.tos)),
        ttl: opt_dec(nat_of_u8(p.ttl)),
        timeout: opt_dec(nat_of_u32(p.timeout_s)),
        port: opt_dec(nat_of_u16(p.port)),
        local_port: opt_dec(nat_of_u16(p.local_port)),
        mark: opt_dec(nat_of_u32(p.mark)),
        local_device: p.local_device,
    }
}

proof fn lemma_raw_probe_pairs(p: ProbeParamsView)
    ensures
        raw_args(probe_pairs(p)) == raw_of(p),
{
    lemma_key_facts();
    lemma_raw_head(p);
    let h = head_pairs(p);
    lemma_raw_numbers(h, p);
    let q8 = numbers_pairs(h, p);
    lemma_raw_push_opt(q8, "local-device"@, p.local_device);
    assert(probe_pairs(p) == push_opt(q8, "local-device"@, p.local_device));
}

/// The pairs of an encodable `send-probe` read back as its arguments.
#[verifier::rlimit(50)]
proof fn lemma_probe_params_round_trip(p: ProbeParamsView)
    requires
        p.local_ip matches Some(l) ==> (l is V4 <==> p.target is V4),
    ensures
        probe_params_spec(probe_pairs(p)) == Ok::<_, ParseErrorView>(p),
{
    lemma_raw_probe_pairs(p);
    let r = raw_of(p);
    if let Some(l) = p.local_ip {
        lemma_ip_round_trip(l);
    }
    assert(local_spec(p.target, r.local) == Ok::<_, ParseErrorView>(p.local_ip));
    lemma_protocol_name_round_trip(p.protocol);
    assert(protocol_spec(r.protocol) == Ok::<_, ParseErrorView>(p.protocol));
    if let Some(b) = p.bit_pattern {
        lemma_rust_int_dec(b as int, true);
        assert(dec_int(b as int) == dec_nat(b as nat));
    }
    assert(bit_pattern_spec(r.bit_pattern) == Ok::<_, ParseErrorView>(p.bit_pattern));
    lemma_num_dec(nat_of_u16(p.size), "size"@, 0, 0xffff);
    lemma_num_dec(nat_of_u8(p.tos), "tos"@, 0, 0xff);
    lemma_num_dec(nat_of_u8(p.ttl), "ttl"@, 0, 0xff);
    lemma_num_dec(nat_of_u32(p.timeout_s), "timeout"@, 0, 0xffff_ffff);
    lemma_num_dec(nat_of_u16(p.port), "port"@, 0, 0xffff);
    lemma_num_dec(nat_of_u16(p.local_port), "local-port"@, 0, 0xffff);
    lemma_num_dec(nat_of_u32(p.mark), "mark"@, 0, 0xffff_ffff);
}

/// The words of an encodable request are words, and the line reads back as them.
pub(crate) proof fn lemma_request_line_words(r: RequestView)
    requires
        request_encodable(r),
    ensures
        words(encode_spec(r)) == request_words(r),
{
    let ws = request_words(r);
    lemma_keys_are_words();
    crate::text::lemma_dec_int_chars(r.token as int);
    let t = dec_int(r.token as int);
    assert forall|j: int| 0 <= j < t.len() implies !c_space(#[trigger] t[j]) by {
        assert(crate::text::is_digit(t[j]) || t[j] == '-');
    }
    assert(is_word(t));
    match r.kind {
        RequestKindView::CheckSupport { feature } => {
            lemma_names_are_words(Protocol::Udp, feature);
            assert forall|i: int| 0 <= i < ws.len() implies is_word(#[trigger] ws[i]) by {}
        },
        RequestKindView::SendProbe(p) => {
            let ps = probe_pairs(p);
            lemma_probe_pairs_words(p);
            lemma_pairs_flatten(ps);
            let f = flatten(ps);
            assert forall|i: int| 0 <= i < ws.len() implies is_word(#[trigger] ws[i]) by {
                if i >= 2 {
                    let k = (i - 2) / 2;
                    assert(ws[i] == f[i - 2]);
                    if (i - 2) % 2 == 0 {
                        assert(f[2 * k] == ps[k].0);
                    } else {
                        assert(f[2 * k + 1] == ps[k].1);
                    }
                }
            }
        },
    }
    lemma_words_of_joined(ws);
}

/// A `check-support` line reads back as the request.
proof fn lemma_check_support_round_trip(r: RequestView)
    requires
        r.kind is CheckSupport,
    ensures
        parse_request_spec(encode_spec(r)) == Ok::<_, ParseErrorView>(r),
{
    let ws = request_words(r);
    lemma_key_facts();
    lemma_token_dec(r.token);
    lemma_request_line_words(r);
    if let RequestKindView::CheckSupport { feature } = r.kind {
        assert(ws.skip(2) =~= seq!["feature"@, feature_name(feature)]);
        let ps = pairs(ws.skip(2));
        assert(ps =~= seq![("feature"@, feature_name(feature))]);
        assert(first_value(ps, "feature"@) == Some(feature_name(feature)));
        lemma_feature_name_round_trip(feature);
    }
}

/// A `send-probe` line reads back as the request.
#[verifier::rlimit(40)]
proof fn lemma_send_probe_round_trip(r: RequestView)
    requires
        request_encodable(r),
        r.kind is SendProbe,
    ensures
        parse_request_spec(encode_spec(r)) == Ok::<_, ParseErrorView>(r),
{
    let ws = request_words(r);
    lemma_key_facts();
    lemma_token_dec(r.token);
    lemma_request_line_words(r);
    if let RequestKindView::SendProbe(p) = r.kind {
        let ps = probe_pairs(p);
        lemma_pairs_flatten(ps);
        lemma_probe_pairs_words(p);
        assert(ws.skip(2) =~= flatten(ps));
        assert(ws.len() == 2 + 2 * ps.len());
        assert(ws[0] == dec_int(r.token as int));
        assert(ws[1] == "send-probe"@);
        assert(tokenize_spec(encode_spec(r)) == Ok::<_, ParseError>((r.token, "send-probe"@, ps)));
        lemma_probe_params_round_trip(p);
        assert(probe_params_spec(ps) == Ok::<_, ParseErrorView>(p));
    }
}

/// Reading a request line back gives the request it was written from: `Request::parse` of
/// `Request::encode` is the request, for every request the line format can carry.
pub proof fn lemma_request_round_trip(r: RequestView)
    requires
        request_encodable(r),
    ensures
        parse_request_spec(encode_spec(r)) == Ok::<_, ParseErrorView>(r),
{
    if r.kind is CheckSupport {
        lemma_check_support_round_trip(r);
    } else {
        lemma_send_probe_round_trip(r);
    }
}

/// The pairs of a line that tokenizes are words.
pub proof fn lemma_tokenized_pairs_words(s: Seq<char>)
    requires
        tokenize_spec(s) is Ok,
    ensures
        pairs_words(tokenize_spec(s)->Ok_0.2),
{
    let ws = words(s);
    lemma_words_are_words(s);
    let args = tokenize_spec(s)->Ok_0.2;
    let rest = ws.skip(2);
    assert(args == pairs(rest));
    assert forall|i: int| 0 <= i < args.len() implies is_word(#[trigger] args[i].0) && is_word(args[i].1) by {
        assert(args[i] == (rest[2 * i], rest[2 * i + 1]));
        assert(rest[2 * i] == ws[2 * i + 2]);
        assert(rest[2 * i + 1] == ws[2 * i + 3]);
    }
}

/// The value `first_value` finds is the value of one of the pairs.
pub proof fn lemma_first_value_in(args: ArgsView, key: Seq<char>)
    ensures
        first_value(args, key) matches Some(v) ==> exists|i: int| 0 <= i < args.len() && #[trigger] args[i].1 == v,
    decreases args.len(),
{
    if args.len() > 0 && args[0].0 != key {
        lemma_first_value_in(args.drop_first(), key);
        if first_value(args, key) is Some {
            let v = first_value(args, key)->Some_0;
            let i = choose|i: int| 0 <= i < args.drop_first().len() && #[trigger] args.drop_first()[i].1 == v;
            assert(args[i + 1].1 == v);
        }
    } else if args.len() > 0 {
        assert(args[0].1 == first_value(args, key)->Some_0);
    }
}

/// The device a `send-probe` names is one of its values, so a word when they all are.
proof fn lemma_raw_device_word(args: ArgsView)
    requires
        pairs_words(args),
    ensures
        raw_args(args).local_device matches Some(d) ==> is_word(d),
    decreases args.len(),
{
    if args.len() > 0 {
        let q = args.drop_last();
        assert(pairs_words(q)) by {
            assert forall|i: int| 0 <= i < q.len() implies is_word(#[trigger] q[i].0) && is_word(q[i].1) by {
                assert(q[i] == args[i]);
            }
        }
        lemma_raw_device_word(q);
        assert(is_word(args[args.len() - 1].1));
    }
}

/// A request that parses is one the line format carries.
pub proof fn lemma_parsed_request_encodable(s: Seq<char>)
    requires
        parse_request_spec(s) is Ok,
    ensures
        request_encodable(parse_request_spec(s)->Ok_0),
{
    lemma_tokenized_pairs_words(s);
    let args = tokenize_spec(s)->Ok_0.2;
    lemma_raw_device_word(args);
}

/// Encoding a request that was read from a line, and reading it again, gives the same request.
pub proof fn lemma_parsed_request_round_trip(s: Seq<char>)
    requires
        parse_request_spec(s) is Ok,
    ensures
        parse_request_spec(encode_spec(parse_request_spec(s)->Ok_0)) == parse_request_spec(s),
{
    lemma_parsed_request_encodable(s);
    lemma_request_round_trip(parse_request_spec(s)->Ok_0);
}

} // verus!
