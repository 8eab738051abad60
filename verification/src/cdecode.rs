//! Helper-side decoding: numbers read as `strtol` reads them and narrowed to a C `int`,
//! unknown argument names ignored, the first bad occurrence rejected.
//!
//! `Request::parse` is the client's strict view of the wire; this module is what the helper
//! accepts.
use vstd::prelude::*;

use crate::ipaddr::{ip_text, IpAddr};
use crate::request::{
    encode_spec, head_pairs, lemma_key_facts, lemma_protocol_name_round_trip,
    lemma_request_line_words, nat_of_u16, nat_of_u32, nat_of_u8, numbers_pairs, opt_dec,
    probe_pairs, protocol_from_name, protocol_name, push_opt, request_encodable, request_words,
    Protocol, ProbeParamsView, RequestKindView, RequestView,
};
use crate::sockets::unicode_space;
use crate::text::{dec_nat, lemma_dec_nat, rust_int, rust_int_in, all_digits, all_digits_between, c_space, digits_between, digits_val, is_c_space, str_chars, str_is};
use crate::tokenize::{first_value, tokenize_spec, ArgsView, Line};

verus! {

broadcast use vstd::seq_lib::group_seq_properties;

/// The helper answers `<token> invalid-argument`.
#[derive(Debug, Clone, Copy, PartialEq, Eq, Structural)]
pub struct InvalidArgument;

/// The probe parameters of the helper, with the defaults of a `send-probe` that names none.
#[derive(Debug, Clone, PartialEq, Eq)]
pub struct CProbeParams {
    pub ip_version: u8,
    pub remote_address: Option<String>,
    pub local_address: Option<String>,
    pub local_device: Option<String>,
    pub protocol: Protocol,
    pub dest_port: i32,
    pub local_port: i32,
    pub type_of_service: i32,
    pub routing_mark: u32,
    pub ttl: i32,
    pub packet_size: i32,
    pub bit_pattern: i32,
    pub timeout: i32,
}

/// `CProbeParams` with its texts as character sequences.
pub struct CProbeParamsView {
    pub ip_version: u8,
    pub remote_address: Option<Seq<char>>,
    pub local_address: Option<Seq<char>>,
    pub local_device: Option<Seq<char>>,
    pub protocol: Protocol,
    pub dest_port: i32,
    pub local_port: i32,
    pub type_of_service: i32,
    pub routing_mark: u32,
    pub ttl: i32,
    pub packet_size: i32,
    pub bit_pattern: i32,
    pub timeout: i32,
}

pub open spec fn opt_string_view(o: Option<String>) -> Option<Seq<char>> {
    match o {
        Some(s) => Some(s@),
        None => None,
    }
}

impl View for CProbeParams {
    type V = CProbeParamsView;

    open spec fn view(&self) -> CProbeParamsView {
        CProbeParamsView {
            ip_version: self.ip_version,
            remote_address: opt_string_view(self.remote_address),
            local_address: opt_string_view(self.local_address),
            local_device: opt_string_view(self.local_device),
            protocol: self.protocol,
            dest_port: self.dest_port,
            local_port: self.local_port,
            type_of_service: self.type_of_service,
            routing_mark: self.routing_mark,
            ttl: self.ttl,
            packet_size: self.packet_size,
            bit_pattern: self.bit_pattern,
            timeout: self.timeout,
        }
    }
}

/// What a `send-probe` without arguments means: protocol icmp, ttl 255, size 64, timeout 10.
pub open spec fn default_params() -> CProbeParamsView {
    CProbeParamsView {
        ip_version: 0,
        remote_address: None,
        local_address: None,
        local_device: None,
        protocol: Protocol::Icmp,
        dest_port: 0,
        local_port: 0,
        type_of_service: 0,
        routing_mark: 0,
        ttl: 255,
        packet_size: 64,
        bit_pattern: 0,
        timeout: 10,
    }
}

impl Default for CProbeParams {
    fn default() -> (r: Self)
        ensures
            r@ == default_params(),
    {
        CProbeParams {
            ip_version: 0,
            remote_address: None,
            local_address: None,
            local_device: None,
            protocol: Protocol::Icmp,
            dest_port: 0,
            local_port: 0,
            type_of_service: 0,
            routing_mark: 0,
            ttl: 255,
            packet_size: 64,
            bit_pattern: 0,
            timeout: 10,
        }
    }
}

/// Number of leading white-space characters.
pub open spec fn leading_spaces(s: Seq<char>) -> nat
    decreases s.len(),
{
    if s.len() == 0 || !c_space(s[0]) {
        0
    } else {
        1 + leading_spaces(s.drop_first())
    }
}

/// `strtol(value, &end, 10)` with nothing left after the number: leading white space skipped,
/// then `[+-]?[0-9]+` and nothing else; out-of-range values saturate to the C long bounds.
pub open spec fn strtol_full_spec(s: Seq<char>) -> Option<i64> {
    let t = s.skip(leading_spaces(s) as int);
    let neg = t.len() > 0 && t[0] == '-';
    let d = if t.len() > 0 && (t[0] == '-' || t[0] == '+') {
        t.drop_first()
    } else {
        t
    };
    if d.len() == 0 || !all_digits(d) {
        None
    } else {
        let v = if neg {
            -digits_val(d)
        } else {
            digits_val(d)
        };
        if v > i64::MAX {
            Some(i64::MAX)
        } else if v < i64::MIN {
            Some(i64::MIN)
        } else {
            Some(v as i64)
        }
    }
}

proof fn lemma_leading_spaces_exact(s: Seq<char>, k: int)
    requires
        0 <= k <= s.len(),
        forall|j: int| 0 <= j < k ==> c_space(#[trigger] s[j]),
        k == s.len() || !c_space(s[k]),
    ensures
        leading_spaces(s) == k,
    decreases k,
{
    if k > 0 {
        let t = s.drop_first();
        assert forall|j: int| 0 <= j < k - 1 implies c_space(#[trigger] t[j]) by {
            assert(t[j] == s[j + 1]);
        }
        if k < s.len() {
            assert(t[k - 1] == s[k]);
        }
        lemma_leading_spaces_exact(t, k - 1);
        assert(c_space(s[0]));
    }
}

/// `strtol(value, &end, 10)` with nothing left after the number. Leading white space is skipped
/// as strtol does; the rest must be `[+-]?[0-9]+`. Out-of-range values saturate to the C long
/// bounds.
pub fn strtol_full(s: &str) -> (r: Option<i64>)
    ensures
        r == strtol_full_spec(s@),
{
    let c = str_chars(s);
    let n = c.len();
    let mut i: usize = 0;
    while i < n && is_c_space(c[i])
        invariant
            i <= n == c.len(),
            forall|j: int| 0 <= j < i ==> c_space(#[trigger] c@[j]),
        decreases n - i,
    {
        i += 1;
    }
    proof {
        lemma_leading_spaces_exact(s@, i as int);
    }
    let ghost t = s@.skip(i as int);
    let neg = i < n && c[i] == '-';
    let from: usize = if i < n && (c[i] == '-' || c[i] == '+') {
        i + 1
    } else {
        i
    };
    proof {
        if i < n {
            assert(t[0] == c@[i as int]);
        }
    }
    let ghost d = if t.len() > 0 && (t[0] == '-' || t[0] == '+') {
        t.drop_first()
    } else {
        t
    };
    assert(d =~= c@.subrange(from as int, n as int));
    if from == n {
        return None;
    }
    if !all_digits_between(c.as_slice(), from, n) {
        return None;
    }
    if neg {
        match digits_between(c.as_slice(), from, n, 9223372036854775808u128) {
            Some(m) => {
                if m == 9223372036854775808u128 {
                    Some(i64::MIN)
                } else {
                    Some(-(m as i64))
                }
            },
            None => Some(i64::MIN),
        }
    } else {
        match digits_between(c.as_slice(), from, n, 9223372036854775807u128) {
            Some(m) => Some(m as i64),
            None => Some(i64::MAX),
        }
    }
}

/// A `long` assigned to a C `int`: two's-complement wrap.
pub open spec fn c_int_spec(s: Seq<char>) -> Option<i32> {
    match strtol_full_spec(s) {
        Some(n) => Some(n as i32),
        None => None,
    }
}

fn c_int(v: &str) -> (r: Result<i32, InvalidArgument>)
    ensures
        r matches Ok(n) ==> c_int_spec(v@) == Some(n),
        r is Err ==> c_int_spec(v@) is None,
{
    match strtol_full(v) {
        Some(n) => Ok(n as i32),
        None => Err(InvalidArgument),
    }
}

/// The first `feature` argument of a `check-support` line.
pub fn check_support_feature<'a>(line: &Line<'a>) -> (r: Option<&'a str>)
    ensures
        r is Some <==> first_value(line.args_view(), "feature"@) is Some,
        r matches Some(v) ==> first_value(line.args_view(), "feature"@) == Some(v@),
{
    line.first("feature")
}

/// The effect of one `send-probe` argument on the parameters decoded so far; `None` when the
/// value is bad for its name. Unknown names leave the parameters as they are.
pub open spec fn decode_arg(p: CProbeParamsView, name: Seq<char>, value: Seq<char>) -> Option<
    CProbeParamsView,
> {
    if name == "ip-4"@ {
        Some(CProbeParamsView { ip_version: 4, remote_address: Some(value), ..p })
    } else if name == "ip-6"@ {
        Some(CProbeParamsView { ip_version: 6, remote_address: Some(value), ..p })
    } else if name == "local-ip-4"@ || name == "local-ip-6"@ {
        Some(CProbeParamsView { local_address: Some(value), ..p })
    } else if name == "local-device"@ {
        Some(CProbeParamsView { local_device: Some(value), ..p })
    } else if name == "protocol"@ {
        match protocol_from_name(value) {
            Some(pr) => Some(CProbeParamsView { protocol: pr, ..p }),
            None => None,
        }
    } else if name == "port"@ {
        match c_int_spec(value) {
            Some(v) => Some(CProbeParamsView { dest_port: v, ..p }),
            None => None,
        }
    } else if name == "local-port"@ {
        match c_int_spec(value) {
            Some(v) => if v < 1024 {
                None
            } else {
                Some(CProbeParamsView { local_port: v, ..p })
            },
            None => None,
        }
    } else if name == "tos"@ {
        match c_int_spec(value) {
            Some(v) => Some(CProbeParamsView { type_of_service: v, ..p }),
            None => None,
        }
    } else if name == "mark"@ {
        match strtol_full_spec(value) {
            Some(v) => Some(CProbeParamsView { routing_mark: v as u32, ..p }),
            None => None,
        }
    } else if name == "size"@ {
        match c_int_spec(value) {
            Some(v) => Some(CProbeParamsView { packet_size: v, ..p }),
            None => None,
        }
    } else if name == "bit-pattern"@ {
        match c_int_spec(value) {
            Some(v) => Some(CProbeParamsView { bit_pattern: v, ..p }),
            None => None,
        }
    } else if name == "ttl"@ {
        match c_int_spec(value) {
            Some(v) => Some(CProbeParamsView { ttl: v, ..p }),
            None => None,
        }
    } else if name == "timeout"@ {
        match c_int_spec(value) {
            Some(v) => Some(CProbeParamsView { timeout: v, ..p }),
            None => None,
        }
    } else {
        Some(p)
    }
}

/// Every argument in order from `p`; the first bad one ends the decoding.
pub open spec fn decode_fold(args: ArgsView, p: CProbeParamsView) -> Option<CProbeParamsView>
    decreases args.len(),
{
    if args.len() == 0 {
        Some(p)
    } else {
        match decode_arg(p, args[0].0, args[0].1) {
            None => None,
            Some(q) => decode_fold(args.drop_first(), q),
        }
    }
}

/// One argument, applied.
#[verifier::rlimit(50)]
fn decode_one(p: &mut CProbeParams, name: &str, value: &str) -> (ok: bool)
    ensures
        ok ==> decode_arg(old(p)@, name@, value@) == Some(final(p)@),
        !ok ==> decode_arg(old(p)@, name@, value@) is None,
{
    if str_is(name, "ip-4") {
        p.ip_version = 4;
        p.remote_address = Some(value.to_owned());
    } else if str_is(name, "ip-6") {
        p.ip_version = 6;
        p.remote_address = Some(value.to_owned());
    } else if str_is(name, "local-ip-4") || str_is(name, "local-ip-6") {
        p.local_address = Some(value.to_owned());
    } else if str_is(name, "local-device") {
        p.local_device = Some(value.to_owned());
    } else if str_is(name, "protocol") {
        match Protocol::parse(value) {
            Some(pr) => p.protocol = pr,
            None => return false,
        }
    } else if str_is(name, "port") {
        match c_int(value) {
            Ok(v) => p.dest_port = v,
            Err(_) => return false,
        }
    } else if str_is(name, "local-port") {
        match c_int(value) {
            Ok(v) => {
                if v < 1024 {
                    return false;
                }
                p.local_port = v;
            },
            Err(_) => return false,
        }
    } else if str_is(name, "tos") {
        match c_int(value) {
            Ok(v) => p.type_of_service = v,
            Err(_) => return false,
        }
    } else if str_is(name, "mark") {
        match strtol_full(value) {
            Some(v) => p.routing_mark = v as u32,
            None => return false,
        }
    } else if str_is(name, "size") {
        match c_int(value) {
            Ok(v) => p.packet_size = v,
            Err(_) => return false,
        }
    } else if str_is(name, "bit-pattern") {
        match c_int(value) {
            Ok(v) => p.bit_pattern = v,
            Err(_) => return false,
        }
    } else if str_is(name, "ttl") {
        match c_int(value) {
            Ok(v) => p.ttl = v,
            Err(_) => return false,
        }
    } else if str_is(name, "timeout") {
        match c_int(value) {
            Ok(v) => p.timeout = v,
            Err(_) => return false,
        }
    }
    true
}

/// The parameters of a `send-probe` line: defaults, then every argument in order; the first
/// one that fails ends the command with `invalid-argument`.
pub fn decode_send_probe(line: &Line<'_>) -> (r: Result<CProbeParams, InvalidArgument>)
    ensures
        r matches Ok(p) ==> decode_fold(line.args_view(), default_params()) == Some(p@),
        r is Err ==> decode_fold(line.args_view(), default_params()) is None,
{
    let mut p = CProbeParams::default();
    let mut i: usize = 0;
    while i < line.args.len()
        invariant
            i <= line.args.len(),
            decode_fold(line.args_view(), default_params()) == decode_fold(
                line.args_view().skip(i as int),
                p@,
            ),
        decreases line.args.len() - i,
    {
        let (name, value) = line.args[i];
        let ghost rest = line.args_view().skip(i as int);
        assert(rest[0] == (name@, value@));
        assert(rest.drop_first() =~= line.args_view().skip(i + 1));
        if !decode_one(&mut p, name, value) {
            return Err(InvalidArgument);
        }
        i += 1;
    }
    assert(line.args_view().skip(i as int) =~= Seq::<(Seq<char>, Seq<char>)>::empty());
    Ok(p)
}


/// `str::trim_start`: leading Unicode white space removed.
pub open spec fn trim_start_spec(s: Seq<char>) -> Seq<char>
    decreases s.len(),
{
    if s.len() > 0 && unicode_space(s[0]) {
        trim_start_spec(s.drop_first())
    } else {
        s
    }
}

/// `str::trim_start_matches('+')`: every leading `+` removed.
pub open spec fn trim_plus(s: Seq<char>) -> Seq<char>
    decreases s.len(),
{
    if s.len() > 0 && s[0] == '+' {
        trim_plus(s.drop_first())
    } else {
        s
    }
}

proof fn lemma_leading_spaces_bound(s: Seq<char>)
    ensures
        leading_spaces(s) <= s.len(),
    decreases s.len(),
{
    if s.len() > 0 && c_space(s[0]) {
        lemma_leading_spaces_bound(s.drop_first());
    }
}

/// Skipping one leading white-space character changes neither reading.
proof fn lemma_strtol_skip_space(s: Seq<char>)
    requires
        s.len() > 0,
        c_space(s[0]),
    ensures
        strtol_full_spec(s) == strtol_full_spec(s.drop_first()),
        trim_start_spec(s) == trim_start_spec(s.drop_first()),
{
    let k = leading_spaces(s.drop_first());
    lemma_leading_spaces_bound(s.drop_first());
    assert(leading_spaces(s) == 1 + k);
    assert(s.skip(1 + k as int) =~= s.drop_first().skip(k as int));
}

/// Where both succeed, `strtol_full` agrees with Rust's own integer parser on the text with its
/// leading white space and plus signs trimmed.
pub proof fn lemma_strtol_full_agrees_with_rust(s: Seq<char>)
    requires
        strtol_full_spec(s) is Some,
        rust_int_in(trim_plus(trim_start_spec(s)), true, i64::MIN as int, i64::MAX as int) is Some,
    ensures
        strtol_full_spec(s) == Some(
            rust_int_in(trim_plus(trim_start_spec(s)), true, i64::MIN as int, i64::MAX as int)->Some_0 as i64,
        ),
    decreases s.len(),
{
    if s.len() > 0 && c_space(s[0]) {
        lemma_strtol_skip_space(s);
        lemma_strtol_full_agrees_with_rust(s.drop_first());
    } else {
        assert(leading_spaces(s) == 0);
        assert(s.skip(0) =~= s);
        let t = s;
        let d = if t.len() > 0 && (t[0] == '-' || t[0] == '+') {
            t.drop_first()
        } else {
            t
        };
        assert(d.len() > 0 && all_digits(d));
        assert(crate::text::is_digit(d[0]));
        assert(!unicode_space(t[0]));
        assert(trim_start_spec(s) == s);
        if t[0] == '+' {
            assert(trim_plus(d) == d);
            assert(trim_plus(t) == d);
        } else {
            assert(trim_plus(t) == t);
        }
    }
}


// ---------------------------------------------------------------------------------------------
// What the helper reads of what the client writes
// ---------------------------------------------------------------------------------------------
/// A numeral of a C long reads as its value.
proof fn lemma_strtol_dec(n: nat)
    requires
        n <= i64::MAX,
    ensures
        strtol_full_spec(dec_nat(n)) == Some(n as i64),
{
    lemma_dec_nat(n);
    let d = dec_nat(n);
    assert(crate::text::is_digit(d[0]));
    lemma_leading_spaces_exact(d, 0);
    assert(d.skip(0) =~= d);
}

/// Decoding one more pair continues from what the pairs before it decoded to.
proof fn lemma_decode_fold_push(a: ArgsView, x: (Seq<char>, Seq<char>), p: CProbeParamsView)
    ensures
        decode_fold(a.push(x), p) == match decode_fold(a, p) {
            Some(q) => decode_arg(q, x.0, x.1),
            None => None,
        },
    decreases a.len(),
{
    let b = a.push(x);
    if a.len() == 0 {
        assert(b[0] == x);
        assert(b.drop_first() =~= Seq::<(Seq<char>, Seq<char>)>::empty());
        assert(decode_fold(a, p) == Some(p));
        match decode_arg(p, x.0, x.1) {
            Some(q) => {
                assert(decode_fold(b.drop_first(), q) == Some(q));
            },
            None => {},
        }
    } else {
        assert(b[0] == a[0]);
        assert(b.drop_first() =~= a.drop_first().push(x));
        match decode_arg(p, a[0].0, a[0].1) {
            Some(q) => {
                lemma_decode_fold_push(a.drop_first(), x, q);
                assert(decode_fold(b, p) == decode_fold(a.drop_first().push(x), q));
                assert(decode_fold(a, p) == decode_fold(a.drop_first(), q));
            },
            None => {},
        }
    }
}

proof fn lemma_decode_fold_push_opt(a: ArgsView, k: Seq<char>, v: Option<Seq<char>>, p: CProbeParamsView)
    ensures
        decode_fold(push_opt(a, k, v), p) == match v {
            Some(w) => match decode_fold(a, p) {
                Some(q) => decode_arg(q, k, w),
                None => None,
            },
            None => decode_fold(a, p),
        },
{
    if let Some(w) = v {
        lemma_decode_fold_push(a, (k, w), p);
    }
}

/// The helper's parameters for a probe the client asks for.
pub open spec fn helper_params(p: ProbeParamsView) -> CProbeParamsView {
    CProbeParamsView {
        ip_version: if p.target is V4 {
            4
        } else {
            6
        },
        remote_address: Some(ip_text(p.target)),
        local_address: match p.local_ip {
            Some(l) => Some(ip_text(l)),
            None => None,
        },
        local_device: p.local_device,
        protocol: p.protocol,
        dest_port: match p.port {
            Some(v) => v as i32,
            None => 0,
        },
        local_port: match p.local_port {
            Some(v) => v as i32,
            None => 0,
        },
        type_of_service: match p.tos {
            Some(v) => v as i32,
            None => 0,
        },
        routing_mark: match p.mark {
            Some(v) => v,
            None => 0,
        },
        ttl: match p.ttl {
            Some(v) => v as i32,
            None => 255,
        },
        packet_size: match p.size {
            Some(v) => v as i32,
            None => 64,
        },
        bit_pattern: match p.bit_pattern {
            Some(v) => v as i32,
            None => 0,
        },
        timeout: match p.timeout_s {
            Some(v) => v as i32,
            None => 10,
        },
    }
}

/// The target, local address and protocol pairs decode to those fields.
proof fn lemma_decode_head(p: ProbeParamsView)
    ensures
        decode_fold(head_pairs(p), default_params()) == Some(CProbeParamsView {
            ip_version: helper_params(p).ip_version,
            remote_address: helper_params(p).remote_address,
            local_address: helper_params(p).local_address,
            protocol: p.protocol,
            ..default_params()
        }),
{
    lemma_key_facts();
    lemma_protocol_name_round_trip(p.protocol);
    let k0 = crate::request::ip_key_name(p.target, "ip-4"@, "ip-6"@);
    let e = Seq::<(Seq<char>, Seq<char>)>::empty();
    let ps0: ArgsView = seq![(k0, ip_text(p.target))];
    assert(e.push((k0, ip_text(p.target))) =~= ps0);
    lemma_decode_fold_push(e, (k0, ip_text(p.target)), default_params());
    let ps1 = match p.local_ip {
        Some(l) => ps0.push((crate::request::ip_key_name(l, "local-ip-4"@, "local-ip-6"@), ip_text(l))),
        None => ps0,
    };
    if let Some(l) = p.local_ip {
        lemma_decode_fold_push(ps0, (crate::request::ip_key_name(l, "local-ip-4"@, "local-ip-6"@), ip_text(l)), default_params());
    }
    lemma_decode_fold_push(ps1, ("protocol"@, protocol_name(p.protocol)), default_params());
}

/// One optional pair more: decoding goes on from where it was.
proof fn lemma_decode_step(a: ArgsView, key: Seq<char>, v: Option<Seq<char>>, q0: CProbeParamsView, q1: CProbeParamsView)
    requires
        decode_fold(a, default_params()) == Some(q0),
        v is None ==> q1 == q0,
        v matches Some(w) ==> decode_arg(q0, key, w) == Some(q1),
    ensures
        decode_fold(push_opt(a, key, v), default_params()) == Some(q1),
{
    lemma_decode_fold_push_opt(a, key, v, default_params());
}

/// A `size` numeral decodes to its field.
proof fn lemma_decode_size(p: ProbeParamsView, q: CProbeParamsView)
    requires
        q.packet_size == 64,
    ensures
        match opt_dec(nat_of_u16(p.size)) {
            Some(w) => decode_arg(q, "size"@, w) == Some(CProbeParamsView { packet_size: helper_params(p).packet_size, ..q }),
            None => CProbeParamsView { packet_size: helper_params(p).packet_size, ..q } == q,
        },
{
    lemma_key_facts();
    match nat_of_u16(p.size) {
        Some(n) => {
            lemma_strtol_dec(n);
        },
        None => {},
    }
}

/// A `bit-pattern` numeral decodes to its field.
proof fn lemma_decode_bit_pattern(p: ProbeParamsView, q: CProbeParamsView)
    requires
        q.bit_pattern == 0,
    ensures
        match opt_dec(nat_of_u8(p.bit_pattern)) {
            Some(w) => decode_arg(q, "bit-pattern"@, w) == Some(CProbeParamsView { bit_pattern: helper_params(p).bit_pattern, ..q }),
            None => CProbeParamsView { bit_pattern: helper_params(p).bit_pattern, ..q } == q,
        },
{
    lemma_key_facts();
    match nat_of_u8(p.bit_pattern) {
        Some(n) => {
            lemma_strtol_dec(n);
        },
        None => {},
    }
}

/// A `tos` numeral decodes to its field.
proof fn lemma_decode_tos(p: ProbeParamsView, q: CProbeParamsView)
    requires
        q.type_of_service == 0,
    ensures
        match opt_dec(nat_of_u8(p.tos)) {
            Some(w) => decode_arg(q, "tos"@, w) == Some(CProbeParamsView { type_of_service: helper_params(p).type_of_service, ..q }),
            None => CProbeParamsView { type_of_service: helper_params(p).type_of_service, ..q } == q,
        },
{
    lemma_key_facts();
    match nat_of_u8(p.tos) {
        Some(n) => {
            lemma_strtol_dec(n);
        },
        None => {},
    }
}

/// A `ttl` numeral decodes to its field.
proof fn lemma_decode_ttl(p: ProbeParamsView, q: CProbeParamsView)
    requires
        q.ttl == 255,
    ensures
        match opt_dec(nat_of_u8(p.ttl)) {
            Some(w) => decode_arg(q, "ttl"@, w) == Some(CProbeParamsView { ttl: helper_params(p).ttl, ..q }),
            None => CProbeParamsView { ttl: helper_params(p).ttl, ..q } == q,
        },
{
    lemma_key_facts();
    match nat_of_u8(p.ttl) {
        Some(n) => {
            lemma_strtol_dec(n);
        },
        None => {},
    }
}

/// A `timeout` numeral decodes to its field.
proof fn lemma_decode_timeout(p: ProbeParamsView, q: CProbeParamsView)
    requires
        q.timeout == 10,
    ensures
        match opt_dec(nat_of_u32(p.timeout_s)) {
            Some(w) => decode_arg(q, "timeout"@, w) == Some(CProbeParamsView { timeout: helper_params(p).timeout, ..q }),
            None => CProbeParamsView { timeout: helper_params(p).timeout, ..q } == q,
        },
{
    lemma_key_facts();
    match nat_of_u32(p.timeout_s) {
        Some(n) => {
            lemma_strtol_dec(n);
        },
        None => {},
    }
}

/// A `port` numeral decodes to its field.
proof fn lemma_decode_port(p: ProbeParamsView, q: CProbeParamsView)
    requires
        q.dest_port == 0,
    ensures
        match opt_dec(nat_of_u16(p.port)) {
            Some(w) => decode_arg(q, "port"@, w) == Some(CProbeParamsView { dest_port: helper_params(p).dest_port, ..q }),
            None => CProbeParamsView { dest_port: helper_params(p).dest_port, ..q } == q,
        },
{
    lemma_key_facts();
    match nat_of_u16(p.port) {
        Some(n) => {
            lemma_strtol_dec(n);
        },
        None => {},
    }
}

/// A `local-port` numeral decodes to its field.
proof fn lemma_decode_local_port(p: ProbeParamsView, q: CProbeParamsView)
    requires
        q.local_port == 0,
        p.local_port matches Some(v) ==> v >= 1024,
    ensures
        match opt_dec(nat_of_u16(p.local_port)) {
            Some(w) => decode_arg(q, "local-port"@, w) == Some(CProbeParamsView { local_port: helper_params(p).local_port, ..q }),
            None => CProbeParamsView { local_port: helper_params(p).local_port, ..q } == q,
        },
{
    lemma_key_facts();
    match nat_of_u16(p.local_port) {
        Some(n) => {
            lemma_strtol_dec(n);
        },
        None => {},
    }
}

/// A `mark` numeral decodes to its field.
proof fn lemma_decode_mark(p: ProbeParamsView, q: CProbeParamsView)
    requires
        q.routing_mark == 0,
    ensures
        match opt_dec(nat_of_u32(p.mark)) {
            Some(w) => decode_arg(q, "mark"@, w) == Some(CProbeParamsView { routing_mark: helper_params(p).routing_mark, ..q }),
            None => CProbeParamsView { routing_mark: helper_params(p).routing_mark, ..q } == q,
        },
{
    lemma_key_facts();
    match nat_of_u32(p.mark) {
        Some(n) => {
            lemma_strtol_dec(n);
        },
        None => {},
    }
}

/// The numeric pairs decode to the numeric fields, a local port below 1024 excepted.
proof fn lemma_decode_numbers(a: ArgsView, p: ProbeParamsView, q: CProbeParamsView)
    requires
        decode_fold(a, default_params()) == Some(q),
        p.local_port matches Some(v) ==> v >= 1024,
        q.dest_port == 0 && q.local_port == 0 && q.type_of_service == 0 && q.routing_mark == 0,
        q.ttl == 255 && q.packet_size == 64 && q.bit_pattern == 0 && q.timeout == 10,
    ensures
        decode_fold(numbers_pairs(a, p), default_params()) == Some(CProbeParamsView {
            dest_port: helper_params(p).dest_port,
            local_port: helper_params(p).local_port,
            type_of_service: helper_params(p).type_of_service,
            routing_mark: helper_params(p).routing_mark,
            ttl: helper_params(p).ttl,
            packet_size: helper_params(p).packet_size,
            bit_pattern: helper_params(p).bit_pattern,
            timeout: helper_params(p).timeout,
            ..q
        }),
{
    lemma_decode_size(p, q);
    let q1 = CProbeParamsView { packet_size: helper_params(p).packet_size, ..q };
    lemma_decode_step(a, "size"@, opt_dec(nat_of_u16(p.size)), q, q1);
    let a1 = push_opt(a, "size"@, opt_dec(nat_of_u16(p.size)));
    lemma_decode_bit_pattern(p, q1);
    let q2 = CProbeParamsView { bit_pattern: helper_params(p).bit_pattern, ..q1 };
    lemma_decode_step(a1, "bit-pattern"@, opt_dec(nat_of_u8(p.bit_pattern)), q1, q2);
    let a2 = push_opt(a1, "bit-pattern"@, opt_dec(nat_of_u8(p.bit_pattern)));
    lemma_decode_tos(p, q2);
    let q3 = CProbeParamsView { type_of_service: helper_params(p).type_of_service, ..q2 };
    lemma_decode_step(a2, "tos"@, opt_dec(nat_of_u8(p.tos)), q2, q3);
    let a3 = push_opt(a2, "tos"@, opt_dec(nat_of_u8(p.tos)));
    lemma_decode_ttl(p, q3);
    let q4 = CProbeParamsView { ttl: helper_params(p).ttl, ..q3 };
    lemma_decode_step(a3, "ttl"@, opt_dec(nat_of_u8(p.ttl)), q3, q4);
    let a4 = push_opt(a3, "ttl"@, opt_dec(nat_of_u8(p.ttl)));
    lemma_decode_timeout(p, q4);
    let q5 = CProbeParamsView { timeout: helper_params(p).timeout, ..q4 };
    lemma_decode_step(a4, "timeout"@, opt_dec(nat_of_u32(p.timeout_s)), q4, q5);
    let a5 = push_opt(a4, "timeout"@, opt_dec(nat_of_u32(p.timeout_s)));
    lemma_decode_port(p, q5);
    let q6 = CProbeParamsView { dest_port: helper_params(p).dest_port, ..q5 };
    lemma_decode_step(a5, "port"@, opt_dec(nat_of_u16(p.port)), q5, q6);
    let a6 = push_opt(a5, "port"@, opt_dec(nat_of_u16(p.port)));
    lemma_decode_local_port(p, q6);
    let q7 = CProbeParamsView { local_port: helper_params(p).local_port, ..q6 };
    lemma_decode_step(a6, "local-port"@, opt_dec(nat_of_u16(p.local_port)), q6, q7);
    let a7 = push_opt(a6, "local-port"@, opt_dec(nat_of_u16(p.local_port)));
    lemma_decode_mark(p, q7);
    let q8 = CProbeParamsView { routing_mark: helper_params(p).routing_mark, ..q7 };
    lemma_decode_step(a7, "mark"@, opt_dec(nat_of_u32(p.mark)), q7, q8);
    let a8 = push_opt(a7, "mark"@, opt_dec(nat_of_u32(p.mark)));
    assert(a8 == numbers_pairs(a, p));
}

/// The helper reads every `send-probe` the client writes with the values the client meant: the
/// request's pairs decode to `helper_params`, provided the local port, when there is one, is not
/// a privileged one (which the helper refuses).
pub proof fn lemma_helper_reads_client_probes(r: RequestView)
    requires
        request_encodable(r),
        r.kind matches RequestKindView::SendProbe(p) && (p.local_port matches Some(v) ==> v >= 1024),
    ensures
        tokenize_spec(encode_spec(r)) is Ok,
        decode_fold(tokenize_spec(encode_spec(r))->Ok_0.2, default_params()) == Some(
            helper_params(r.kind->SendProbe_0),
        ),
{
    let p = r.kind->SendProbe_0;
    lemma_key_facts();
    lemma_request_line_words(r);
    crate::tokenize::lemma_token_dec(r.token);
    let ws = request_words(r);
    let ps = probe_pairs(p);
    crate::tokenize::lemma_pairs_flatten(ps);
    crate::request::lemma_probe_pairs_words(p);
    assert(ws.skip(2) =~= crate::tokenize::flatten(ps));
    assert(tokenize_spec(encode_spec(r)) == Ok::<_, crate::error::ParseError>((r.token, "send-probe"@, ps)));
    lemma_decode_head(p);
    let h = head_pairs(p);
    let q = CProbeParamsView {
        ip_version: helper_params(p).ip_version,
        remote_address: helper_params(p).remote_address,
        local_address: helper_params(p).local_address,
        protocol: p.protocol,
        ..default_params()
    };
    lemma_decode_numbers(h, p, q);
    let n = numbers_pairs(h, p);
    lemma_decode_fold_push_opt(n, "local-device"@, p.local_device, default_params());
    assert(ps == push_opt(n, "local-device"@, p.local_device));
}

} // verus!
