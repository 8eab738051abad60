//! The helper's command stream: a bounded buffer of input lines, and the dispatch of each line
//! to a probe backend.
use vstd::prelude::*;

use crate::cdecode::{check_support_feature, decode_fold, decode_send_probe, default_params, CProbeParams};
use crate::probe_table::{expire_run, no_replies, rtt_spec, rtt_us, ProbeTable, MAX_PROBES};
use crate::request::Protocol;
use crate::response::{InvalidReason, ProbeResult, Response, ResponseKind, ResponseKindView};
use crate::text::str_is;
use crate::tokenize::{first_value, tokenize, tokenize_spec, Line};
use crate::COMMAND_BUFFER_SIZE;

verus! {

broadcast use vstd::seq_lib::group_seq_properties;

/// Position of the first newline in `b`, or its length when there is none.
pub open spec fn newline_at(b: Seq<u8>) -> nat
    decreases b.len(),
{
    if b.len() == 0 || b[0] == 10 {
        0
    } else {
        1 + newline_at(b.drop_first())
    }
}

proof fn lemma_newline_at(b: Seq<u8>)
    ensures
        newline_at(b) <= b.len(),
        newline_at(b) < b.len() ==> b[newline_at(b) as int] == 10,
        forall|j: int| 0 <= j < newline_at(b) ==> b[j] != 10,
    decreases b.len(),
{
    if b.len() > 0 && b[0] != 10 {
        lemma_newline_at(b.drop_first());
        assert forall|j: int| 0 <= j < newline_at(b) implies b[j] != 10 by {
            if j > 0 {
                assert(b[j] == b.drop_first()[j - 1]);
            }
        }
    }
}

proof fn lemma_newline_at_exact(b: Seq<u8>, k: int)
    requires
        0 <= k <= b.len(),
        forall|j: int| 0 <= j < k ==> b[j] != 10,
        k == b.len() || b[k] == 10,
    ensures
        newline_at(b) == k,
    decreases k,
{
    if k > 0 {
        assert(b[0] != 10);
        let t = b.drop_first();
        assert forall|j: int| 0 <= j < k - 1 implies t[j] != 10 by {
            assert(t[j] == b[j + 1]);
        }
        if k < b.len() {
            assert(t[k - 1] == b[k]);
        }
        lemma_newline_at_exact(t, k - 1);
    }
}

/// The complete (newline-terminated) lines of `b`, without their newlines.
pub open spec fn complete_lines(b: Seq<u8>) -> Seq<Seq<u8>>
    decreases b.len(),
{
    let k = newline_at(b);
    if k >= b.len() {
        seq![]
    } else {
        seq![b.take(k as int)] + complete_lines(b.skip(k + 1int))
    }
}

/// What follows the last newline of `b` (all of it when there is none).
pub open spec fn partial_tail(b: Seq<u8>) -> Seq<u8>
    decreases b.len(),
{
    let k = newline_at(b);
    if k >= b.len() {
        b
    } else {
        partial_tail(b.skip(k + 1int))
    }
}

/// Whether every byte is ASCII.
pub open spec fn is_ascii(b: Seq<u8>) -> bool {
    forall|i: int| 0 <= i < b.len() ==> #[trigger] b[i] < 128
}

/// The characters of ASCII bytes.
pub open spec fn ascii_chars(b: Seq<u8>) -> Seq<char> {
    b.map_values(|x: u8| x as char)
}

/// What `String::from_utf8_lossy` makes of bytes: their UTF-8 decoding, each invalid sequence
/// replaced by U+FFFD.
pub uninterp spec fn utf8_lossy(b: Seq<u8>) -> Seq<char>;

/// `String::from_utf8_lossy`, taken as an owned `String`. The contract claims that the string
/// is `utf8_lossy` of the bytes, a function of the bytes alone, and, as std documents for valid
/// UTF-8, that ASCII bytes come out as those characters.
#[verifier::external_body]
fn lossy_string(bytes: &[u8]) -> (s: String)
    ensures
        s@ == utf8_lossy(bytes@),
        is_ascii(bytes@) ==> s@ == ascii_chars(bytes@),
{
    String::from_utf8_lossy(bytes).into_owned()
}

/// A line that ends at `i`, found from `from`.
proof fn lemma_line_step(start: Seq<u8>, from: int, i: int)
    requires
        0 <= from <= i < start.len(),
        forall|j: int| from <= j < i ==> start[j] != 10,
        start[i] == 10,
    ensures
        complete_lines(start.skip(from)) == seq![start.subrange(from, i)] + complete_lines(start.skip(i + 1)),
        partial_tail(start.skip(from)) == partial_tail(start.skip(i + 1)),
{
    let t = start.skip(from);
    assert forall|j: int| 0 <= j < i - from implies t[j] != 10 by {
        assert(t[j] == start[from + j]);
    }
    assert(t[i - from] == start[i]);
    lemma_newline_at_exact(t, i - from);
    assert(t.skip(i - from + 1) =~= start.skip(i + 1));
    assert(t.take(i - from) =~= start.subrange(from, i));
}

/// An overflow is reported once: the buffer it empties holds no line, and reading it again
/// reports no overflow.
pub proof fn lemma_overflow_reported_once()
    ensures
        complete_lines(Seq::<u8>::empty()) == Seq::<Seq<u8>>::empty(),
        partial_tail(Seq::<u8>::empty()).len() < COMMAND_BUFFER_SIZE - 1,
{
    let e = Seq::<u8>::empty();
    assert(newline_at(e) == 0);
    assert(partial_tail(e) == e);
}

/// A window over the command input, one byte short of `COMMAND_BUFFER_SIZE`.
pub struct CommandBuffer {
    buf: Vec<u8>,
}

impl CommandBuffer {
    /// The bytes held.
    pub closed spec fn contents(&self) -> Seq<u8> {
        self.buf@
    }

    /// Never more than `COMMAND_BUFFER_SIZE - 1` bytes.
    pub open spec fn wf(&self) -> bool {
        self.contents().len() <= COMMAND_BUFFER_SIZE - 1
    }

    pub fn new() -> (b: Self)
        ensures
            b.wf(),
            b.contents() == Seq::<u8>::empty(),
    {
        CommandBuffer { buf: Vec::new() }
    }

    /// How many bytes the next read may bring.
    pub fn space_remaining(&self) -> (r: usize)
        requires
            self.wf(),
        ensures
            r == COMMAND_BUFFER_SIZE - 1 - self.contents().len(),
    {
        COMMAND_BUFFER_SIZE - 1 - self.buf.len()
    }

    /// Appends what was read.
    pub fn push(&mut self, data: &[u8])
        requires
            old(self).wf(),
            data.len() <= COMMAND_BUFFER_SIZE - 1 - old(self).contents().len(),
        ensures
            final(self).wf(),
            final(self).contents() == old(self).contents() + data@,
    {
        let mut i: usize = 0;
        let ghost start = self.buf@;
        while i < data.len()
            invariant
                i <= data.len(),
                self.buf@ == start + data@.take(i as int),
            decreases data.len() - i,
        {
            self.buf.push(data[i]);
            assert(data@.take(i + 1) =~= data@.take(i as int).push(data@[i as int]));
            i += 1;
        }
        assert(data@.take(i as int) =~= data@);
    }

    /// Takes every newline-terminated line, then checks for overflow: a full buffer without a
    /// newline is discarded and reported once.
#[verifier::rlimit(50)]
    pub fn take_lines(&mut self) -> (r: (Vec<String>, bool))
        requires
            old(self).wf(),
        ensures
            final(self).wf(),
            r.0@.len() == complete_lines(old(self).contents()).len(),
            forall|i: int|
                0 <= i < r.0@.len() ==> (#[trigger] r.0@[i])@ == utf8_lossy(complete_lines(old(self).contents())[i]),
            forall|i: int|
                0 <= i < r.0@.len() && is_ascii(complete_lines(old(self).contents())[i]) ==> (#[trigger] r.0@[i])@
                    == ascii_chars(complete_lines(old(self).contents())[i]),
            r.1 == (partial_tail(old(self).contents()).len() >= COMMAND_BUFFER_SIZE - 1),
            final(self).contents() == if r.1 {
                Seq::<u8>::empty()
            } else {
                partial_tail(old(self).contents())
            },
    {
        let ghost start = self.buf@;
        let mut lines: Vec<String> = Vec::new();
        let ghost mut done: Seq<Seq<u8>> = seq![];
        let mut from: usize = 0;
        let n = self.buf.len();
        let mut i: usize = 0;
        assert(start.skip(0) =~= start);
        assert(done + complete_lines(start.skip(0)) =~= complete_lines(start));
        while i < n
            invariant
                from <= i <= n == self.buf@.len(),
                self.buf@ == start,
                forall|j: int| from <= j < i ==> self.buf@[j] != 10,
                done + complete_lines(start.skip(from as int)) == complete_lines(start),
                lines@.len() == done.len(),
                forall|j: int| 0 <= j < lines@.len() ==> (#[trigger] lines@[j])@ == utf8_lossy(done[j]),
                forall|j: int|
                    0 <= j < lines@.len() && is_ascii(done[j]) ==> (#[trigger] lines@[j])@
                        == ascii_chars(done[j]),
                partial_tail(start) == partial_tail(start.skip(from as int)),
            decreases n - i,
        {
            if self.buf[i] == 10 {
                proof {
                    lemma_line_step(start, from as int, i as int);
                }
                let line = lossy_string(&self.buf[from..i]);
                lines.push(line);
                proof {
                    let w = start.subrange(from as int, i as int);
                    assert(done.push(w) + complete_lines(start.skip(i + 1)) =~= done + (seq![w]
                        + complete_lines(start.skip(i + 1))));
                    done = done.push(w);
                }
                from = i + 1;
            }
            i += 1;
        }
        proof {
            let t = start.skip(from as int);
            assert forall|j: int| 0 <= j < t.len() implies t[j] != 10 by {
                assert(t[j] == start[from + j]);
            }
            lemma_newline_at_exact(t, t.len() as int);
            assert(done + Seq::<Seq<u8>>::empty() =~= done);
        }
        // keep the partial tail
        let mut rest: Vec<u8> = Vec::new();
        let mut k: usize = from;
        while k < n
            invariant
                from <= k <= n == self.buf@.len(),
                self.buf@ == start,
                rest@ == start.subrange(from as int, k as int),
            decreases n - k,
        {
            rest.push(self.buf[k]);
            assert(start.subrange(from as int, k + 1) =~= rest@);
            k += 1;
        }
        assert(start.subrange(from as int, n as int) =~= start.skip(from as int));
        let overflow = rest.len() >= COMMAND_BUFFER_SIZE - 1;
        if overflow {
            self.buf = Vec::new();
        } else {
            self.buf = rest;
        }
        (lines, overflow)
    }
}


// ---------------------------------------------------------------------------------------------
// Dispatch
// ---------------------------------------------------------------------------------------------
/// The helper's version, answered to `check-support feature version`.
pub const VERSION: &'static str = "0.3.0";

/// The errno values the helper tells apart.
#[derive(Debug, Clone, Copy, PartialEq, Eq, Structural)]
pub struct Errnos {
    pub einval: i32,
    pub enetdown: i32,
    pub ehostdown: i32,
    pub enetunreach: i32,
    pub ehostunreach: i32,
    pub eperm: i32,
    pub eaddrinuse: i32,
    pub eaddrnotavail: i32,
    pub etimedout: i32,
    pub econnrefused: i32,
    pub eagain: i32,
    pub eintr: i32,
}

/// The errno values of this platform: the constants `EINVAL`, `ENETDOWN`, ... of `nix::libc`
/// (the `libc` crate). They differ between platforms, so the contract states none of them; the
/// functions that take an `Errnos` are exact over whatever values it holds.
#[verifier::external_body]
pub fn platform_errnos() -> (e: Errnos) {
    Errnos {
        einval: nix::libc::EINVAL,
        enetdown: nix::libc::ENETDOWN,
        ehostdown: nix::libc::EHOSTDOWN,
        enetunreach: nix::libc::ENETUNREACH,
        ehostunreach: nix::libc::EHOSTUNREACH,
        eperm: nix::libc::EPERM,
        eaddrinuse: nix::libc::EADDRINUSE,
        eaddrnotavail: nix::libc::EADDRNOTAVAIL,
        etimedout: nix::libc::ETIMEDOUT,
        econnrefused: nix::libc::ECONNREFUSED,
        eagain: nix::libc::EAGAIN,
        eintr: nix::libc::EINTR,
    }
}

/// The reply to a failed send: errno to reply name; an error without an errno, or an errno
/// not named here, is `unexpected-error` (errno 0 when there is none).
pub open spec fn error_kind_spec(errno: Option<i32>, e: Errnos) -> ResponseKindView {
    match errno {
        Some(n) => if n == e.einval {
            ResponseKindView::InvalidArgument { reason: None }
        } else if n == e.enetdown {
            ResponseKindView::NetworkDown
        } else if n == e.ehostdown {
            ResponseKindView::HostDown
        } else if n == e.enetunreach {
            ResponseKindView::NoRouteNetwork
        } else if n == e.ehostunreach {
            ResponseKindView::NoRouteHost
        } else if n == e.eperm {
            ResponseKindView::PermissionDenied
        } else if n == e.eaddrinuse {
            ResponseKindView::AddressInUse
        } else if n == e.eaddrnotavail {
            ResponseKindView::AddressNotAvailable
        } else if n == e.etimedout {
            ResponseKindView::WaitTcpResponseTimeout
        } else {
            ResponseKindView::UnexpectedError { errno: n as i64 }
        },
        None => ResponseKindView::UnexpectedError { errno: 0 },
    }
}

/// The reply to a send that failed with `errno` (see `error_kind_spec`).
pub fn error_response(token: i32, errno: Option<i32>, e: &Errnos) -> (r: Response)
    ensures
        r@.token == token,
        r@.kind == error_kind_spec(errno, *e),
{
    let kind = match errno {
        Some(n) => if n == e.einval {
            ResponseKind::InvalidArgument { reason: None }
        } else if n == e.enetdown {
            ResponseKind::NetworkDown
        } else if n == e.ehostdown {
            ResponseKind::HostDown
        } else if n == e.enetunreach {
            ResponseKind::NoRouteNetwork
        } else if n == e.ehostunreach {
            ResponseKind::NoRouteHost
        } else if n == e.eperm {
            ResponseKind::PermissionDenied
        } else if n == e.eaddrinuse {
            ResponseKind::AddressInUse
        } else if n == e.eaddrnotavail {
            ResponseKind::AddressNotAvailable
        } else if n == e.etimedout {
            ResponseKind::WaitTcpResponseTimeout
        } else {
            ResponseKind::UnexpectedError { errno: n as i64 }
        },
        None => ResponseKind::UnexpectedError { errno: 0 },
    };
    Response { token, kind }
}

/// A platform backend: what it supports, and sending a probe.
pub trait ProbeBackend {
    spec fn ip_version_ok(&self, version: u8) -> bool;

    spec fn protocol_ok(&self, protocol: Protocol) -> bool;

    spec fn mark_ok(&self) -> bool;

    fn ip_version_supported(&self, version: u8) -> (r: bool)
        ensures
            r == self.ip_version_ok(version),
    ;

    fn protocol_supported(&self, protocol: Protocol) -> (r: bool)
        ensures
            r == self.protocol_ok(protocol),
    ;

    fn mark_supported(&self) -> (r: bool)
        ensures
            r == self.mark_ok(),
    ;

    /// Sends probe `idx` of `table`, whose protocol is the one requested; the error is the
    /// errno, if there is one. Probes are neither added nor removed, the other probes are left
    /// as they are, and the probe keeps its token, deadline and protocol.
    fn send_probe(&mut self, table: &mut ProbeTable, idx: usize, params: &CProbeParams) -> (r: Result<(), Option<i32>>)
        requires
            idx < old(table).probes@.len(),
            old(table).probes@[idx as int].protocol == params.protocol,
        ensures
            final(table).probes@.len() == old(table).probes@.len(),
            forall|j: int| 0 <= j < final(table).probes@.len() && j != idx ==> final(table).probes@[j] == old(table).probes@[j],
            final(table).probes@[idx as int].token == old(table).probes@[idx as int].token,
            final(table).probes@[idx as int].timeout_at_us == old(table).probes@[idx as int].timeout_at_us,
            final(table).probes@[idx as int].protocol == params.protocol,
    ;
}

/// `"ok"` or `"no"`.
pub open spec fn ok_text(b: bool) -> Seq<char> {
    if b {
        "ok"@
    } else {
        "no"@
    }
}

fn ok_string(b: bool) -> (s: String)
    ensures
        s@ == ok_text(b),
{
    if b {
        "ok".to_owned()
    } else {
        "no".to_owned()
    }
}

/// The answer to `check-support feature <f>`.
pub open spec fn support_spec<B: ProbeBackend>(b: B, f: Seq<char>) -> Seq<char> {
    if f == "version"@ {
        VERSION@
    } else if f == "ip-4"@ {
        ok_text(b.ip_version_ok(4))
    } else if f == "ip-6"@ {
        ok_text(b.ip_version_ok(6))
    } else if f == "send-probe"@ {
        ok_text(true)
    } else if f == "icmp"@ {
        ok_text(b.protocol_ok(Protocol::Icmp))
    } else if f == "udp"@ {
        ok_text(b.protocol_ok(Protocol::Udp))
    } else if f == "tcp"@ {
        ok_text(b.protocol_ok(Protocol::Tcp))
    } else if f == "sctp"@ {
        ok_text(b.protocol_ok(Protocol::Sctp))
    } else if f == "mark"@ {
        ok_text(b.mark_ok())
    } else {
        ok_text(false)
    }
}

/// What `send_outcome` does with probe `idx` of `before` once the backend answered `result`:
/// the probes left `after`, and the responses going from `old_out` to `new_out`.
pub open spec fn outcome_spec(
    before: Seq<crate::probe_table::Probe>,
    after: Seq<crate::probe_table::Probe>,
    old_out: Seq<Response>,
    new_out: Seq<Response>,
    idx: int,
    result: Result<(), Option<i32>>,
    token: i32,
    now: u64,
    e: Errnos,
) -> bool {
    match result {
        Ok(()) => after == before && new_out == old_out,
        Err(errno) => {
            let p = before[idx];
            &&& after == crate::probe_table::swap_removed(before, idx)
            &&& pushed_one(old_out, new_out, crate::response::ResponseView {
                token,
                kind: if errno == Some(e.econnrefused) {
                    ResponseKindView::Probe {
                        result: ProbeResult::Reply,
                        addr: p.remote.ip,
                        rtt_us: rtt_spec(p.departure_us, now),
                        mpls: Seq::empty(),
                    }
                } else {
                    error_kind_spec(errno, e)
                },
            })
        },
    }
}

/// A probe handed to the backend and what became of it: the table `before` gained one probe,
/// with the line's token and the decoded deadline and protocol; the backend left it as `mid`
/// with some answer `r`; and `send_outcome` made the probes `after` and the responses from
/// `old_out` to `new_out` of it, under the line's token.
pub open spec fn handed_spec(
    before: Seq<crate::probe_table::Probe>,
    after: Seq<crate::probe_table::Probe>,
    old_out: Seq<Response>,
    new_out: Seq<Response>,
    token: i32,
    timeout: i32,
    protocol: Protocol,
    now: u64,
    e: Errnos,
) -> bool {
    exists|mid: Seq<crate::probe_table::Probe>, r: Result<(), Option<i32>>|
        {
            &&& mid.len() == before.len() + 1
            &&& mid.take(before.len() as int) == before
            &&& mid.last().token == token
            &&& mid.last().timeout_at_us == crate::probe_table::deadline(now, timeout)
            &&& mid.last().protocol == protocol
            &&& outcome_spec(mid, after, old_out, new_out, before.len() as int, r, token, now, e)
        }
}

/// What dispatching one command line does, from backend `b`, probes `ps0` and responses
/// `out0` to probes `ps1` and responses `out1`: a line that does not tokenize is a
/// `command-parse-error` with token 0; `check-support` answers the first `feature` (or
/// `invalid-argument` when there is none); `send-probe` gets its early reply or hands a probe
/// to the backend; any other command is unknown.
pub open spec fn line_effect<B: ProbeBackend>(
    b: B,
    ps0: Seq<crate::probe_table::Probe>,
    ps1: Seq<crate::probe_table::Probe>,
    out0: Seq<Response>,
    out1: Seq<Response>,
    line: Seq<char>,
    now: u64,
    e: Errnos,
) -> bool {
    match tokenize_spec(line) {
        Err(_) => pushed_one(out0, out1, crate::response::ResponseView { token: 0, kind: ResponseKindView::CommandParseError })
            && ps1 == ps0,
        Ok((t, name, args)) => if name == "check-support"@ {
            &&& pushed_one(out0, out1, crate::response::ResponseView {
                token: t,
                kind: match first_value(args, "feature"@) {
                    None => ResponseKindView::InvalidArgument { reason: None },
                    Some(f) => ResponseKindView::FeatureSupport(support_spec(b, f)),
                },
            })
            &&& ps1 == ps0
        } else if name == "send-probe"@ {
            match early_reply(b, ps0.len(), args) {
                Some(k) => pushed_one(out0, out1, crate::response::ResponseView { token: t, kind: k })
                    && ps1 == ps0,
                None => handed_spec(
                    ps0,
                    ps1,
                    out0,
                    out1,
                    t,
                    decode_fold(args, default_params())->Some_0.timeout,
                    decode_fold(args, default_params())->Some_0.protocol,
                    now,
                    e,
                ),
            }
        } else {
            &&& pushed_one(out0, out1, crate::response::ResponseView { token: t, kind: ResponseKindView::UnknownCommand })
            &&& ps1 == ps0
        },
    }
}

/// Dispatching the lines in order through the states `pss` (probes), `outs` (responses) and
/// `bs` (backend), one state more than lines: each line has its `line_effect` from the state
/// before it to the state after it.
pub open spec fn dispatch_trace<B: ProbeBackend>(
    bs: Seq<B>,
    pss: Seq<Seq<crate::probe_table::Probe>>,
    outs: Seq<Seq<Response>>,
    lines: Seq<Seq<char>>,
    now: u64,
    e: Errnos,
) -> bool {
    &&& bs.len() == lines.len() + 1
    &&& pss.len() == lines.len() + 1
    &&& outs.len() == lines.len() + 1
    &&& forall|i: int|
        0 <= i < lines.len() ==> line_effect(#[trigger] bs[i], pss[i], pss[i + 1], outs[i], outs[i + 1], lines[i], now, e)
}

/// The dispatcher: a backend and its outstanding probes.
pub struct Helper<B: ProbeBackend> {
    pub backend: B,
    pub table: ProbeTable,
    pub errnos: Errnos,
}

/// `out` grew by exactly one response, whose view is `r`.
pub open spec fn pushed_one(old_out: Seq<Response>, new_out: Seq<Response>, r: crate::response::ResponseView) -> bool {
    &&& new_out.len() == old_out.len() + 1
    &&& new_out.drop_last() == old_out
    &&& new_out.last()@ == r
}

impl<B: ProbeBackend> Helper<B> {
    pub fn new(backend: B) -> (h: Self)
        ensures
            h.backend == backend,
            h.table.wf(),
            h.table.probes@.len() == 0,
    {
        Helper { backend, table: ProbeTable::new(), errnos: platform_errnos() }
    }

    /// The answer to `check-support feature <feature>`: the version, or whether the backend
    /// supports it; unknown features are not supported.
    pub fn support_string(&self, feature: &str) -> (s: String)
        ensures
            s@ == support_spec(self.backend, feature@),
    {
        if str_is(feature, "version") {
            VERSION.to_owned()
        } else if str_is(feature, "ip-4") {
            ok_string(self.backend.ip_version_supported(4))
        } else if str_is(feature, "ip-6") {
            ok_string(self.backend.ip_version_supported(6))
        } else if str_is(feature, "send-probe") {
            ok_string(true)
        } else if str_is(feature, "icmp") {
            ok_string(self.backend.protocol_supported(Protocol::Icmp))
        } else if str_is(feature, "udp") {
            ok_string(self.backend.protocol_supported(Protocol::Udp))
        } else if str_is(feature, "tcp") {
            ok_string(self.backend.protocol_supported(Protocol::Tcp))
        } else if str_is(feature, "sctp") {
            ok_string(self.backend.protocol_supported(Protocol::Sctp))
        } else if str_is(feature, "mark") {
            ok_string(self.backend.mark_supported())
        } else {
            ok_string(false)
        }
    }

    /// What becomes of probe `idx` once the backend answered `result`: nothing when it was
    /// sent; a refused stream connect means the destination answered (an immediate `reply`);
    /// any other error is reported by its errno. Either way a failed probe is freed.
    pub fn send_outcome(&mut self, token: i32, idx: usize, result: Result<(), Option<i32>>, now: u64, out: &mut Vec<Response>)
        requires
            idx < old(self).table.probes@.len(),
        ensures
            final(self).backend == old(self).backend,
            final(self).errnos == old(self).errnos,
            final(self).table.next_sequence == old(self).table.next_sequence,
            outcome_spec(
                old(self).table.probes@,
                final(self).table.probes@,
                old(out)@,
                final(out)@,
                idx as int,
                result,
                token,
                now,
                old(self).errnos,
            ),
    {
        match result {
            Ok(()) => {},
            Err(e) => {
                let refused = match e {
                    Some(n) => n == self.errnos.econnrefused,
                    None => false,
                };
                let p = self.table.remove(idx);
                if refused {
                    let r = Response {
                        token,
                        kind: ResponseKind::Probe {
                            result: ProbeResult::Reply,
                            addr: p.remote.ip,
                            rtt_us: rtt_us(p.departure_us, now),
                            mpls: Vec::new(),
                        },
                    };
                    assert(r@.kind->Probe_mpls =~= Seq::<crate::mpls::MplsLabel>::empty());
                    out.push(r);
                } else {
                    out.push(error_response(token, e, &self.errnos));
                }
                assert(out@.drop_last() =~= old(out)@);
            },
        }
    }
}

/// The reply a `send-probe` gets before its probe reaches the backend, if any: arguments that
/// do not decode, an IP version or protocol the backend does not support, or a full table.
pub open spec fn early_reply<B: ProbeBackend>(b: B, outstanding: nat, args: crate::tokenize::ArgsView) -> Option<ResponseKindView> {
    match decode_fold(args, default_params()) {
        None => Some(ResponseKindView::InvalidArgument { reason: None }),
        Some(p) => if !b.ip_version_ok(p.ip_version) {
            Some(ResponseKindView::InvalidArgument { reason: Some(InvalidReason::IpVersionNotSupported) })
        } else if !b.protocol_ok(p.protocol) {
            Some(ResponseKindView::InvalidArgument { reason: Some(InvalidReason::ProtocolNotSupported) })
        } else if outstanding >= MAX_PROBES {
            Some(ResponseKindView::ProbesExhausted)
        } else {
            None
        },
    }
}

impl<B: ProbeBackend> Helper<B> {
    /// A `send-probe`: the early replies of `early_reply`; otherwise a new probe handed to the
    /// backend, and what `send_outcome` makes of its answer.
#[verifier::rlimit(50)]
    fn send_probe(&mut self, l: &Line<'_>, now: u64, out: &mut Vec<Response>)
        requires
            old(self).table.wf(),
        ensures
            final(self).table.wf(),
            final(self).errnos == old(self).errnos,
            final(out)@.len() >= old(out)@.len(),
            final(out)@.take(old(out)@.len() as int) == old(out)@,
            early_reply(old(self).backend, old(self).table.probes@.len(), l.args_view()) matches Some(k) ==> {
                &&& pushed_one(old(out)@, final(out)@, crate::response::ResponseView { token: l.token, kind: k })
                &&& final(self).table.probes@ == old(self).table.probes@
                &&& final(self).backend == old(self).backend
            },
            early_reply(old(self).backend, old(self).table.probes@.len(), l.args_view()) is None ==> handed_spec(
                old(self).table.probes@,
                final(self).table.probes@,
                old(out)@,
                final(out)@,
                l.token,
                decode_fold(l.args_view(), default_params())->Some_0.timeout,
                decode_fold(l.args_view(), default_params())->Some_0.protocol,
                now,
                old(self).errnos,
            ),
    {
        let token = l.token;
        let params = match decode_send_probe(l) {
            Ok(p) => p,
            Err(_) => {
                out.push(Response { token, kind: ResponseKind::InvalidArgument { reason: None } });
                assert(out@.drop_last() =~= old(out)@);
                return;
            },
        };
        if !self.backend.ip_version_supported(params.ip_version) {
            out.push(
                Response {
                    token,
                    kind: ResponseKind::InvalidArgument { reason: Some(InvalidReason::IpVersionNotSupported) },
                },
            );
            assert(out@.drop_last() =~= old(out)@);
            return;
        }
        if !self.backend.protocol_supported(params.protocol) {
            out.push(
                Response {
                    token,
                    kind: ResponseKind::InvalidArgument { reason: Some(InvalidReason::ProtocolNotSupported) },
                },
            );
            assert(out@.drop_last() =~= old(out)@);
            return;
        }
        let idx = match self.table.alloc_probe(token, now, params.timeout) {
            Some(i) => i,
            None => {
                out.push(Response { token, kind: ResponseKind::ProbesExhausted });
                assert(out@.drop_last() =~= old(out)@);
                return;
            },
        };
        self.table.set_protocol(idx, params.protocol);
        let result = self.backend.send_probe(&mut self.table, idx, &params);
        let ghost mid = out@;
        let ghost mid_probes = self.table.probes@;
        proof {
            let n = old(self).table.probes@.len();
            assert(mid_probes.take(n as int) =~= old(self).table.probes@) by {
                assert forall|j: int| 0 <= j < n implies mid_probes.take(n as int)[j] == old(self).table.probes@[j] by {}
            }
            assert(mid_probes.last() == mid_probes[n as int]);
        }
        self.send_outcome(token, idx, result, now, out);
        proof {
            assert(outcome_spec(mid_probes, self.table.probes@, mid, out@, idx as int, result, token, now, self.errnos));
        }
        proof {
            if out@.len() > mid.len() {
                assert(out@.take(old(out)@.len() as int) =~= out@.drop_last());
            } else {
                assert(out@.take(old(out)@.len() as int) =~= out@);
            }
        }
    }

    /// One complete command line: a line that does not tokenize is a `command-parse-error`
    /// with token 0; `check-support` answers the first `feature` (or `invalid-argument` when
    /// there is none); `send-probe` goes through `send_probe`; any other command is unknown.
#[verifier::rlimit(50)]
    pub fn dispatch_line(&mut self, line: &str, now: u64, out: &mut Vec<Response>)
        requires
            old(self).table.wf(),
        ensures
            final(self).table.wf(),
            final(self).errnos == old(self).errnos,
            final(out)@.len() >= old(out)@.len(),
            final(out)@.take(old(out)@.len() as int) == old(out)@,
            line_effect(
                old(self).backend,
                old(self).table.probes@,
                final(self).table.probes@,
                old(out)@,
                final(out)@,
                line@,
                now,
                old(self).errnos,
            ),
    {
        let l = match tokenize(line) {
            Ok(l) => l,
            Err(_) => {
                out.push(Response { token: 0, kind: ResponseKind::CommandParseError });
                assert(out@.drop_last() =~= old(out)@);
                return;
            },
        };
        if str_is(l.name, "check-support") {
            let kind = match check_support_feature(&l) {
                None => ResponseKind::InvalidArgument { reason: None },
                Some(f) => ResponseKind::FeatureSupport(self.support_string(f)),
            };
            out.push(Response { token: l.token, kind });
            assert(out@.drop_last() =~= old(out)@);
        } else if str_is(l.name, "send-probe") {
            self.send_probe(&l, now, out);
        } else {
            out.push(Response { token: l.token, kind: ResponseKind::UnknownCommand });
            assert(out@.drop_last() =~= old(out)@);
        }
    }
}


/// The main loop ends once the input is closed and no probe is outstanding.
pub fn should_exit(pipe_open: bool, table: &ProbeTable) -> (r: bool)
    ensures
        r == (!pipe_open && table.probes@.len() == 0),
{
    !pipe_open && table.is_empty()
}

impl<B: ProbeBackend> Helper<B> {
    /// One turn of the main loop once replies were received and input was read: expire the
    /// probes past their deadline, dispatch every complete line, and report an overflowing
    /// buffer with token 0.
#[verifier::rlimit(50)]
    pub fn process_input(&mut self, buffer: &mut CommandBuffer, now: u64, out: &mut Vec<Response>)
        requires
            old(self).table.wf(),
            old(buffer).wf(),
        ensures
            final(self).table.wf(),
            final(buffer).wf(),
            final(self).errnos == old(self).errnos,
            final(out)@.take((old(out)@.len() + expire_run(old(self).table.probes@, 0, now).1.len()) as int)
                == old(out)@ + no_replies(expire_run(old(self).table.probes@, 0, now).1),
            partial_tail(old(buffer).contents()).len() >= COMMAND_BUFFER_SIZE - 1 ==> (final(buffer).contents()
                == Seq::<u8>::empty() && final(out)@.last()@ == (crate::response::ResponseView {
                token: 0,
                kind: ResponseKindView::CommandBufferOverflow,
            })),
            partial_tail(old(buffer).contents()).len() < COMMAND_BUFFER_SIZE - 1 ==> final(buffer).contents()
                == partial_tail(old(buffer).contents()),
            exists|bs: Seq<B>, pss: Seq<Seq<crate::probe_table::Probe>>, outs: Seq<Seq<Response>>|
                {
                    &&& dispatch_trace(
                        bs,
                        pss,
                        outs,
                        complete_lines(old(buffer).contents()).map_values(|l: Seq<u8>| utf8_lossy(l)),
                        now,
                        old(self).errnos,
                    )
                    &&& bs[0] == old(self).backend
                    &&& pss[0] == expire_run(old(self).table.probes@, 0, now).0
                    &&& outs[0] == old(out)@ + no_replies(expire_run(old(self).table.probes@, 0, now).1)
                    &&& bs.last() == final(self).backend
                    &&& pss.last() == final(self).table.probes@
                    &&& final(out)@ == if partial_tail(old(buffer).contents()).len() >= COMMAND_BUFFER_SIZE - 1 {
                        outs.last().push(Response { token: 0, kind: ResponseKind::CommandBufferOverflow })
                    } else {
                        outs.last()
                    }
                },
    {
        let ghost start = out@;
        self.table.expire(now, out);
        let ghost prefix = out@;
        let ghost contents = buffer.contents();
        let (lines, overflow) = buffer.take_lines();
        let ghost texts = complete_lines(contents).map_values(|l: Seq<u8>| utf8_lossy(l));
        let ghost mut bs: Seq<B> = seq![self.backend];
        let ghost mut pss: Seq<Seq<crate::probe_table::Probe>> = seq![self.table.probes@];
        let ghost mut outs: Seq<Seq<Response>> = seq![out@];
        let mut i: usize = 0;
        while i < lines.len()
            invariant
                i <= lines@.len(),
                lines@.len() == texts.len(),
                forall|j: int| 0 <= j < lines@.len() ==> (#[trigger] lines@[j])@ == texts[j],
                self.table.wf(),
                self.errnos == old(self).errnos,
                out@.len() >= prefix.len(),
                out@.take(prefix.len() as int) == prefix,
                dispatch_trace(bs, pss, outs, texts.take(i as int), now, old(self).errnos),
                bs[0] == old(self).backend,
                pss[0] == expire_run(old(self).table.probes@, 0, now).0,
                outs[0] == prefix,
                bs.last() == self.backend,
                pss.last() == self.table.probes@,
                outs.last() == out@,
            decreases lines@.len() - i,
        {
            let ghost before = out@;
            let ghost b_before = self.backend;
            let ghost ps_before = self.table.probes@;
            self.dispatch_line(lines[i].as_str(), now, out);
            proof {
                assert(out@.take(before.len() as int) == before);
                assert(out@.take(prefix.len() as int) =~= before.take(prefix.len() as int));
                let n = texts.take(i as int).len();
                let bs2 = bs.push(self.backend);
                let pss2 = pss.push(self.table.probes@);
                let outs2 = outs.push(out@);
                let t2 = texts.take(i + 1);
                assert(t2 =~= texts.take(i as int).push(texts[i as int]));
                assert forall|k: int| 0 <= k < t2.len() implies line_effect(#[trigger] bs2[k], pss2[k], pss2[k + 1], outs2[k], outs2[k + 1], t2[k], now, old(self).errnos) by {
                    if k < n {
                        assert(bs2[k] == bs[k]);
                        assert(line_effect(bs[k], pss[k], pss[k + 1], outs[k], outs[k + 1], texts.take(i as int)[k], now, old(self).errnos));
                    } else {
                        assert(bs2[k] == b_before);
                        assert(pss2[k] == ps_before);
                    }
                }
                bs = bs2;
                pss = pss2;
                outs = outs2;
            }
            i += 1;
        }
        proof {
            assert(texts.take(i as int) =~= texts);
        }
        let ghost last = out@;
        if overflow {
            out.push(Response { token: 0, kind: ResponseKind::CommandBufferOverflow });
            assert(out@.take(prefix.len() as int) =~= out@.drop_last().take(prefix.len() as int));
        }
        assert(outs.last() == last);
        assert(prefix.len() == start.len() + expire_run(old(self).table.probes@, 0, now).1.len());
    }
}

/// `check-support` answers `ok` for a protocol exactly when the backend supports it, and `no`
/// otherwise; likewise for the two IP versions.
pub proof fn lemma_support_follows_the_backend<B: ProbeBackend>(b: B)
    ensures
        support_spec(b, "icmp"@) == (if b.protocol_ok(Protocol::Icmp) { "ok"@ } else { "no"@ }),
        support_spec(b, "udp"@) == (if b.protocol_ok(Protocol::Udp) { "ok"@ } else { "no"@ }),
        support_spec(b, "tcp"@) == (if b.protocol_ok(Protocol::Tcp) { "ok"@ } else { "no"@ }),
        support_spec(b, "sctp"@) == (if b.protocol_ok(Protocol::Sctp) { "ok"@ } else { "no"@ }),
        support_spec(b, "ip-4"@) == (if b.ip_version_ok(4) { "ok"@ } else { "no"@ }),
        support_spec(b, "ip-6"@) == (if b.ip_version_ok(6) { "ok"@ } else { "no"@ }),
{
    reveal_strlit("version");
    reveal_strlit("ip-4");
    reveal_strlit("ip-6");
    reveal_strlit("send-probe");
    reveal_strlit("icmp");
    reveal_strlit("udp");
    reveal_strlit("tcp");
    reveal_strlit("sctp");
    assert("icmp"@.len() == 4 && "version"@.len() == 7 && "send-probe"@.len() == 10);
    assert("icmp"@ != "version"@);
    assert("icmp"@ != "send-probe"@);
    assert("icmp"@[1] == 'c' && "ip-4"@[1] == 'p' && "ip-6"@[1] == 'p');
    assert("icmp"@ != "ip-4"@);
    assert("icmp"@ != "ip-6"@);
    assert("udp"@ != "version"@);
    assert("udp"@ != "ip-4"@);
    assert("udp"@ != "ip-6"@);
    assert("udp"@ != "send-probe"@);
    assert("udp"@ != "icmp"@);
    assert("tcp"@ != "version"@);
    assert("tcp"@ != "ip-4"@);
    assert("tcp"@ != "ip-6"@);
    assert("tcp"@ != "send-probe"@);
    assert("tcp"@ != "icmp"@);
    assert("tcp"@[0] == 't' && "udp"@[0] == 'u');
    assert("tcp"@ != "udp"@);
    assert("sctp"@ != "version"@);
    assert("sctp"@[0] == 's' && "ip-4"@[0] == 'i' && "icmp"@[0] == 'i');
    assert("sctp"@ != "ip-4"@);
    assert("sctp"@ != "ip-6"@);
    assert("sctp"@ != "send-probe"@);
    assert("sctp"@ != "icmp"@);
    assert("sctp"@ != "udp"@);
    assert("sctp"@ != "tcp"@);
    assert("ip-4"@ != "version"@);
    assert("ip-6"@ != "version"@);
    assert("ip-6"@[3] == '6' && "ip-4"@[3] == '4');
    assert("ip-6"@ != "ip-4"@);
}

} // verus!
