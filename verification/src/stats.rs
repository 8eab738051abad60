//! Per-hop RTT statistics: counts, extremes and the jitter estimators, all in whole
//! microseconds held in `i32` fields. The running mean, the sum of squared deviations and the
//! geometric mean are computed in floating point by the caller and handed in.
use vstd::prelude::*;

verus! {

/// Largest round-trip time, in microseconds, the statistics take (about 134 s).
pub const RTT_LIMIT: i32 = 0x7ff_ffff;

/// Per-hop statistics.
#[derive(Debug, Clone, Copy, PartialEq, Eq, Structural)]
pub struct RttStats {
    /// Probes sent.
    pub xmit: i32,
    /// Replies received.
    pub returned: i32,
    /// 0/1 flag: a probe is in flight. Cleared by a reply or when the hop's turn ends.
    pub transit: i32,
    pub last: i32,
    pub best: i32,
    pub worst: i32,
    /// Running mean, truncated to an int after every update.
    pub avg: i32,
    pub gmean: i32,
    /// Sum of squared deviations, updated with the already-truncated mean.
    pub ssd: i64,
    pub jitter: i32,
    pub javg: i32,
    pub jworst: i32,
    /// RFC 1889 A.8 interarrival jitter estimator, kept times 16.
    pub jinta: i32,
}

/// The floating-point part of a reply's update: the new running mean, sum of squared
/// deviations and geometric mean.
#[derive(Debug, Clone, Copy, PartialEq, Eq, Structural)]
pub struct MeanUpdate {
    pub avg: i32,
    pub ssd: i64,
    pub gmean: i32,
}

/// Integer division truncated toward zero, as Rust's `/` on integers.
pub open spec fn trunc_div(a: int, b: int) -> int {
    if a >= 0 {
        a / b
    } else {
        -((-a) / b)
    }
}

/// `|a|`.
pub open spec fn abs_int(a: int) -> int {
    if a < 0 {
        -a
    } else {
        a
    }
}

/// The statistics after a reply of `rtt` microseconds.
pub open spec fn after_reply(o: RttStats, rtt: i32, means: MeanUpdate) -> RttStats {
    let first = o.returned < 1;
    let jitter = if first {
        0
    } else {
        abs_int(rtt - o.last)
    };
    let jworst0 = if first {
        0
    } else {
        o.jworst as int
    };
    let javg0 = o.javg as int;
    let jinta0 = if first {
        0
    } else {
        o.jinta as int
    };
    let n = o.returned + 1;
    RttStats {
        xmit: o.xmit,
        returned: n as i32,
        transit: 0,
        last: rtt,
        best: if first || rtt < o.best {
            rtt
        } else {
            o.best
        },
        worst: if first || rtt > o.worst {
            rtt
        } else {
            o.worst
        },
        avg: means.avg,
        gmean: means.gmean,
        ssd: means.ssd,
        jitter: jitter as i32,
        javg: (javg0 + trunc_div(jitter - javg0, n)) as i32,
        jworst: (if jitter > jworst0 {
            jitter
        } else {
            jworst0
        }) as i32,
        jinta: (jinta0 + jitter - (jinta0 + 8) / 16) as i32,
    }
}

impl RttStats {
    /// Every counter non-negative, the in-flight flag 0 or 1, the last time, the jitter and its
    /// mean within `RTT_LIMIT`, the interarrival estimator within 16 times that: what keeps the
    /// arithmetic of a reply within `i32`.
    pub open spec fn wf(&self) -> bool {
        &&& 0 <= self.xmit
        &&& 0 <= self.returned
        &&& (self.transit == 0 || self.transit == 1)
        &&& 0 <= self.last <= RTT_LIMIT
        &&& 0 <= self.jitter <= RTT_LIMIT
        &&& 0 <= self.javg <= RTT_LIMIT
        &&& 0 <= self.jinta <= 16 * RTT_LIMIT
    }

    /// All zero.
    pub open spec fn new_spec() -> RttStats {
        RttStats {
            xmit: 0,
            returned: 0,
            transit: 0,
            last: 0,
            best: 0,
            worst: 0,
            avg: 0,
            gmean: 0,
            ssd: 0,
            jitter: 0,
            javg: 0,
            jworst: 0,
            jinta: 0,
        }
    }

    /// All zero.
    pub fn new() -> (s: Self)
        ensures
            s.wf(),
            s == Self::new_spec(),
            s == (RttStats {
                xmit: 0,
                returned: 0,
                transit: 0,
                last: 0,
                best: 0,
                worst: 0,
                avg: 0,
                gmean: 0,
                ssd: 0,
                jitter: 0,
                javg: 0,
                jworst: 0,
                jinta: 0,
            }),
    {
        RttStats {
            xmit: 0,
            returned: 0,
            transit: 0,
            last: 0,
            best: 0,
            worst: 0,
            avg: 0,
            gmean: 0,
            ssd: 0,
            jitter: 0,
            javg: 0,
            jworst: 0,
            jinta: 0,
        }
    }

    /// Counts a probe and flags it in flight.
    pub fn record_send(&mut self)
        requires
            old(self).wf(),
            old(self).xmit < i32::MAX,
        ensures
            final(self).wf(),
            *final(self) == (RttStats { xmit: (old(self).xmit + 1) as i32, transit: 1, ..*old(self) }),
    {
        self.xmit = self.xmit + 1;
        self.transit = 1;
    }

    /// A reply of `rtt` microseconds. The first reply sets best, worst and the geometric mean
    /// to it and restarts the jitter estimators; jitter is the change from the last reply,
    /// its mean is kept with integer division, and the interarrival estimator follows
    /// RFC 1889 A.8. The mean, squared deviations and geometric mean come in `means`.
#[verifier::rlimit(50)]
    pub fn record_reply(&mut self, rtt: i32, means: MeanUpdate)
        requires
            old(self).wf(),
            0 <= rtt <= RTT_LIMIT,
            old(self).returned < i32::MAX,
        ensures
            final(self).wf(),
            *final(self) == after_reply(*old(self), rtt, means),
    {
        let d = rtt - self.last;
        self.jitter = if d < 0 {
            -d
        } else {
            d
        };
        self.last = rtt;
        if self.returned < 1 {
            self.best = rtt;
            self.worst = rtt;
            self.jitter = 0;
            self.jworst = 0;
            self.jinta = 0;
        }
        if rtt < self.best {
            self.best = rtt;
        }
        if rtt > self.worst {
            self.worst = rtt;
        }
        if self.jitter > self.jworst {
            self.jworst = self.jitter;
        }
        self.returned = self.returned + 1;
        let dj = self.jitter - self.javg;
        let step: i32 = if dj >= 0 {
            dj / self.returned
        } else {
            -((-dj) / self.returned)
        };
        proof {
            let n = self.returned as int;
            assert(n >= 1);
            if dj >= 0 {
                assert(0 <= (dj as int) / n <= dj) by (nonlinear_arith)
                    requires
                        dj >= 0,
                        n >= 1,
                ;
            } else {
                assert(0 <= ((-dj) as int) / n <= -dj) by (nonlinear_arith)
                    requires
                        -dj > 0,
                        n >= 1,
                ;
            }
        }
        self.javg = self.javg + step;
        let q = (self.jinta + 8) / 16;
        proof {
            let j = self.jinta as int;
            assert(q * 16 <= j + 8);
            assert(j + 8 < (q + 1) * 16);
            assert(0 <= j - q) by (nonlinear_arith)
                requires
                    q * 16 <= j + 8,
                    j >= 0,
                    q >= 0,
            ;
            assert(j - q + RTT_LIMIT <= 16 * RTT_LIMIT) by (nonlinear_arith)
                requires
                    j + 8 < (q + 1) * 16,
                    j <= 16 * RTT_LIMIT,
            ;
        }
        self.jinta = self.jinta + (self.jitter - q);
        self.avg = means.avg;
        self.ssd = means.ssd;
        self.gmean = means.gmean;
        self.transit = 0;
    }

    /// Probes that went unanswered, the one in flight excluded.
    pub fn dropped(&self) -> (r: i32)
        requires
            self.wf(),
        ensures
            r == (self.xmit - self.transit) - self.returned,
    {
        (self.xmit - self.transit) - self.returned
    }
}

/// The smallest of a non-empty sequence of round-trip times.
pub open spec fn seq_min(v: Seq<i32>) -> int
    decreases v.len(),
{
    if v.len() <= 1 {
        v[0] as int
    } else if v.last() < seq_min(v.drop_last()) {
        v.last() as int
    } else {
        seq_min(v.drop_last())
    }
}

/// The largest of a non-empty sequence of round-trip times.
pub open spec fn seq_max(v: Seq<i32>) -> int
    decreases v.len(),
{
    if v.len() <= 1 {
        v[0] as int
    } else if v.last() > seq_max(v.drop_last()) {
        v.last() as int
    } else {
        seq_max(v.drop_last())
    }
}

/// The statistics after a probe is sent and answered in `rtts[0]`, then another in `rtts[1]`,
/// and so on, each reply with its means from `ms`.
pub open spec fn after_probes(s: RttStats, rtts: Seq<i32>, ms: Seq<MeanUpdate>) -> RttStats
    decreases rtts.len(),
{
    if rtts.len() == 0 || ms.len() < rtts.len() {
        s
    } else {
        let p = after_probes(s, rtts.drop_last(), ms.take(rtts.len() - 1));
        after_reply(RttStats { xmit: (p.xmit + 1) as i32, transit: 1, ..p }, rtts.last(), ms[rtts.len() - 1])
    }
}

/// One reply: the reply is counted and is the last one; best never rises and worst never
/// falls, best is at most and worst at least the new time, and each is either the new time or
/// what it was; the first reply makes both the new time.
pub proof fn lemma_reply_extremes(o: RttStats, rtt: i32, means: MeanUpdate)
    requires
        0 <= o.returned < i32::MAX,
    ensures
        after_reply(o, rtt, means).returned == o.returned + 1,
        after_reply(o, rtt, means).last == rtt,
        after_reply(o, rtt, means).best <= rtt,
        after_reply(o, rtt, means).worst >= rtt,
        o.returned == 0 ==> after_reply(o, rtt, means).best == rtt && after_reply(o, rtt, means).worst == rtt,
        o.returned >= 1 ==> after_reply(o, rtt, means).best <= o.best && after_reply(o, rtt, means).worst >= o.worst,
        o.returned >= 1 ==> (after_reply(o, rtt, means).best == rtt || after_reply(o, rtt, means).best == o.best),
        o.returned >= 1 ==> (after_reply(o, rtt, means).worst == rtt || after_reply(o, rtt, means).worst == o.worst),
{
}

/// From statistics with no reply yet, after probes sent and answered in `rtts`: every reply is
/// counted, best is the fastest of them, worst the slowest, and last the latest.
pub proof fn lemma_best_and_worst_are_the_extremes(s: RttStats, rtts: Seq<i32>, ms: Seq<MeanUpdate>)
    requires
        s.returned == 0,
        1 <= rtts.len() < i32::MAX,
        ms.len() == rtts.len(),
    ensures
        after_probes(s, rtts, ms).returned == rtts.len(),
        after_probes(s, rtts, ms).best == seq_min(rtts),
        after_probes(s, rtts, ms).worst == seq_max(rtts),
        after_probes(s, rtts, ms).last == rtts.last(),
    decreases rtts.len(),
{
    let n = rtts.len();
    let q = rtts.drop_last();
    let mq = ms.take(n - 1);
    let p = after_probes(s, q, mq);
    if n == 1 {
        assert(q.len() == 0);
        assert(p == s);
    } else {
        lemma_best_and_worst_are_the_extremes(s, q, mq);
    }
    let sent = RttStats { xmit: (p.xmit + 1) as i32, transit: 1, ..p };
    lemma_reply_extremes(sent, rtts.last(), ms[n - 1]);
}

/// One reply, for the jitter estimators: jitter is how far the time moved from the last reply
/// (zero on the first), its worst is the largest jitter seen since the first reply, and its
/// mean moves toward the new jitter without passing it. The send counter stays, nothing is in
/// flight any more, and the floating-point means are those handed in.
pub proof fn lemma_reply_jitter(o: RttStats, rtt: i32, means: MeanUpdate)
    requires
        o.wf(),
        0 <= rtt <= RTT_LIMIT,
        o.returned < i32::MAX,
    ensures
        after_reply(o, rtt, means).xmit == o.xmit,
        after_reply(o, rtt, means).transit == 0,
        after_reply(o, rtt, means).avg == means.avg,
        after_reply(o, rtt, means).ssd == means.ssd,
        after_reply(o, rtt, means).gmean == means.gmean,
        o.returned == 0 ==> after_reply(o, rtt, means).jitter == 0 && after_reply(o, rtt, means).jworst == 0,
        o.returned >= 1 ==> after_reply(o, rtt, means).jitter == if rtt >= o.last {
            rtt - o.last
        } else {
            o.last - rtt
        },
        after_reply(o, rtt, means).jworst >= after_reply(o, rtt, means).jitter,
        o.returned >= 1 ==> after_reply(o, rtt, means).jworst >= o.jworst,
        o.returned >= 1 ==> (after_reply(o, rtt, means).jworst == after_reply(o, rtt, means).jitter
            || after_reply(o, rtt, means).jworst == o.jworst),
        after_reply(o, rtt, means).jitter >= o.javg ==> o.javg <= after_reply(o, rtt, means).javg <= after_reply(o, rtt, means).jitter,
        after_reply(o, rtt, means).jitter < o.javg ==> after_reply(o, rtt, means).jitter <= after_reply(o, rtt, means).javg <= o.javg,
{
    let first = o.returned < 1;
    let jitter: int = if first { 0 } else { abs_int(rtt - o.last) };
    let n: int = o.returned + 1;
    let d: int = jitter - o.javg;
    assert(0 <= jitter <= RTT_LIMIT);
    if d >= 0 {
        assert(0 <= d / n <= d) by (nonlinear_arith)
            requires
                d >= 0,
                n >= 1,
        ;
    } else {
        assert(0 <= (-d) / n <= -d) by (nonlinear_arith)
            requires
                -d > 0,
                n >= 1,
        ;
    }
}

} // verus!
