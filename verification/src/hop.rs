//! What the client keeps about one hop.
use vstd::prelude::*;

use crate::history::{History, HistoryEntryView, Sample};
use crate::ipaddr::IpAddr;
use crate::mpls::MplsLabel;
use crate::stats::{MeanUpdate, RttStats, RTT_LIMIT};
use crate::MAX_PATH;

verus! {

broadcast use vstd::seq_lib::group_seq_properties;

/// An error a hop answered with instead of a reply.
#[derive(Debug, Clone, Copy, PartialEq, Eq, Hash, Structural)]
pub enum HopError {
    NetworkDown,
    HostDown,
    NoRouteNetwork,
    NoRouteHost,
}

/// How an error is shown.
pub open spec fn hop_error_text(e: HopError) -> Seq<char> {
    match e {
        HopError::NetworkDown => "network is down"@,
        HopError::HostDown => "host is down"@,
        HopError::NoRouteNetwork => "no route to network"@,
        HopError::NoRouteHost => "no route to host"@,
    }
}

impl HopError {
    pub fn as_str(self) -> (r: &'static str)
        ensures
            r@ == hop_error_text(self),
    {
        match self {
            HopError::NetworkDown => "network is down",
            HopError::HostDown => "host is down",
            HopError::NoRouteNetwork => "no route to network",
            HopError::NoRouteHost => "no route to host",
        }
    }
}

/// Interactive actions of the client.
#[derive(Debug, Clone, PartialEq, Eq)]
pub enum UserAction {
    Pause,
    Resume,
    Reset,
    ToggleDns,
    ToggleAsn,
    ToggleMpls,
    /// New probe interval in milliseconds.
    SetInterval(u32),
    SetPacketSize(i32),
    SetBitPattern(i32),
    SetTos(u8),
    SetFirstTtl(u8),
    SetMaxTtl(u8),
    CycleProtocol,
    SetFields(String),
}


/// One address seen at a hop, with its own counters.
#[derive(Debug, Clone, PartialEq, Eq)]
pub struct HopAddr {
    pub addr: IpAddr,
    pub mpls: Vec<MplsLabel>,
    pub first_seen: u64,
    pub last_seen: u64,
    pub count: u32,
    pub last_rtt: u32,
}

/// `HopAddr` with its labels as a sequence.
pub struct HopAddrView {
    pub addr: IpAddr,
    pub mpls: Seq<MplsLabel>,
    pub first_seen: u64,
    pub last_seen: u64,
    pub count: u32,
    pub last_rtt: u32,
}

impl View for HopAddr {
    type V = HopAddrView;

    open spec fn view(&self) -> HopAddrView {
        HopAddrView {
            addr: self.addr,
            mpls: self.mpls@,
            first_seen: self.first_seen,
            last_seen: self.last_seen,
            count: self.count,
            last_rtt: self.last_rtt,
        }
    }
}

/// Everything a reply brings to its hop.
pub struct Reply<'a> {
    /// The hop's send counter of the probe answered.
    pub saved_seq: u32,
    pub from: IpAddr,
    pub rtt_us: u32,
    pub mpls: &'a [MplsLabel],
    pub err: Option<HopError>,
    pub now: u64,
    /// False only when the target may not be shown at this hop yet.
    pub overwrite_addr: bool,
    /// Remember when the hop last answered.
    pub cache: bool,
}

/// One hop of the path.
pub struct Hop {
    /// Latest responder; `None` while unknown.
    pub addr: Option<IpAddr>,
    /// Distinct responders in discovery order, at most `MAX_PATH`.
    pub addrs: Vec<HopAddr>,
    /// Labels of `addr`.
    pub mpls: Vec<MplsLabel>,
    pub err: Option<HopError>,
    /// A probe is outstanding and unanswered.
    pub outstanding: bool,
    pub up: bool,
    /// Last reply time, kept only when caching.
    pub seen: Option<u64>,
    pub stats: RttStats,
    pub history: History,
}

/// The first position of address `a` among `addrs`.
pub open spec fn addr_index(addrs: Seq<HopAddr>, a: IpAddr, i: int) -> Option<int>
    decreases addrs.len() - i,
{
    if i < 0 || i >= addrs.len() {
        None
    } else if addrs[i].addr == a {
        Some(i)
    } else {
        addr_index(addrs, a, i + 1)
    }
}

proof fn lemma_addr_index(addrs: Seq<HopAddr>, a: IpAddr, i: int)
    requires
        0 <= i,
    ensures
        addr_index(addrs, a, i) matches Some(k) ==> i <= k < addrs.len() && addrs[k].addr == a,
    decreases addrs.len() - i,
{
    if i < addrs.len() && addrs[i].addr != a {
        lemma_addr_index(addrs, a, i + 1);
    }
}

/// A hop back to nothing known, its history length kept.
pub open spec fn hop_reset(h0: Hop, h1: Hop) -> bool {
    &&& h1.wf()
    &&& h1.addr is None
    &&& h1.addrs@.len() == 0
    &&& h1.mpls@.len() == 0
    &&& h1.err is None
    &&& !h1.outstanding
    &&& !h1.up
    &&& h1.seen is None
    &&& h1.stats == RttStats::new_spec()
    &&& h1.history.entries_view().len() == 0
    &&& h1.history.cap() == h0.history.cap()
}

/// What a helper timeout does to a hop (`h0` before, `h1` after): only the probe's sample in
/// the history changes, to lost.
pub open spec fn no_reply_recorded(h0: Hop, h1: Hop, saved_seq: u32) -> bool {
    &&& h1 == (Hop { history: h1.history, ..h0 })
    &&& h1.history.cap() == h0.history.cap()
    &&& (h0.history.index_of(saved_seq) is None ==> h1.history.entries_view() == h0.history.entries_view())
    &&& (h0.history.index_of(saved_seq) matches Some(k) ==> h1.history.entries_view() == h0.history.entries_view().update(
        k,
        HistoryEntryView { sample: Sample::Lost, result: None, mpls: Seq::empty(), ..h0.history.entries_view()[k] },
    ))
}

/// What recording a reply from `from` does to a hop's address list: a known address counted
/// with the others left as they were, a new one appended while there is room, a full list
/// unchanged.
pub open spec fn addrs_recorded(a0: Seq<HopAddr>, a1: Seq<HopAddr>, from: IpAddr, rtt_us: u32, mpls: Seq<MplsLabel>, now: u64) -> bool {
    match addr_index(a0, from, 0) {
        Some(i) => {
            &&& a1.len() == a0.len()
            &&& a1[i]@ == (HopAddrView {
                count: (a0[i].count + 1) as u32,
                last_seen: now,
                last_rtt: rtt_us,
                ..a0[i]@
            })
            &&& forall|j: int| 0 <= j < a0.len() && j != i ==> a1[j] == a0[j]
        },
        None => if a0.len() < MAX_PATH {
            a1.len() == a0.len() + 1 && a1.drop_last() == a0
                && a1.last()@ == (HopAddrView {
                addr: from,
                mpls: mpls,
                first_seen: now,
                last_seen: now,
                count: 1,
                last_rtt: rtt_us,
            })
        } else {
            a1 == a0
        },
    }
}

/// What recording a reply does to a hop (`h0` before, `h1` after): the error it carried, its
/// address counted (a new one appended while there is room, which `new_addr` says), the hop's
/// address and labels replaced unless `overwrite_addr` is false, the statistics updated, the hop
/// up, and the probe's sample recorded.
pub open spec fn reply_recorded(
    h0: Hop,
    h1: Hop,
    saved_seq: u32,
    from: IpAddr,
    rtt_us: u32,
    mpls: Seq<MplsLabel>,
    err: Option<HopError>,
    now: u64,
    overwrite_addr: bool,
    cache: bool,
    means: MeanUpdate,
    new_addr: bool,
) -> bool {
    &&& h1.err == err
    &&& new_addr == (addr_index(h0.addrs@, from, 0) is None && h0.addrs@.len() < MAX_PATH)
    &&& addrs_recorded(h0.addrs@, h1.addrs@, from, rtt_us, mpls, now)
    &&& h1.addr == if overwrite_addr {
            Some(from)
        } else {
            h0.addr
        }
    &&& (overwrite_addr && h0.addr != Some(from) ==> h1.mpls@ == mpls)
    &&& (!(overwrite_addr && h0.addr != Some(from)) ==> h1.mpls@ == h0.mpls@)
    &&& h1.stats == crate::stats::after_reply(h0.stats, rtt_us as i32, means)
    &&& !h1.outstanding
    &&& h1.up
    &&& h1.seen == if cache {
            Some(now)
        } else {
            h0.seen
        }
    &&& h1.history.cap() == h0.history.cap()
    &&& (h0.history.index_of(saved_seq) is None ==> h1.history.entries_view() == h0.history.entries_view())
    &&& (h0.history.index_of(saved_seq) matches Some(k) ==> h1.history.entries_view() == h0.history.entries_view().update(
            k,
            HistoryEntryView {
                sample: Sample::Rtt(rtt_us),
                result: None,
                mpls: Seq::empty(),
                ..h0.history.entries_view()[k]
            },
        ))
}

impl Hop {
    /// Statistics and history well formed, the history numbered up to the send counter, at
    /// most `MAX_PATH` addresses, none answered more often than the hop.
    pub open spec fn wf(&self) -> bool {
        &&& self.stats.wf()
        &&& self.history.wf()
        &&& self.addrs@.len() <= MAX_PATH
        &&& forall|i: int| 0 <= i < self.addrs@.len() ==> (#[trigger] self.addrs@[i]).count <= self.stats.returned
        &&& self.history.entries_view().len() > 0 ==> self.history.entries_view().last().seq == self.stats.xmit
    }

    /// A hop nothing is known of, keeping `history_len` probes.
    pub fn new(history_len: usize) -> (h: Self)
        ensures
            h.wf(),
            h.addr is None,
            h.addrs@.len() == 0,
            h.mpls@.len() == 0,
            h.err is None,
            !h.outstanding,
            !h.up,
            h.seen is None,
            h.stats == RttStats::new_spec(),
            h.history.entries_view().len() == 0,
            h.history.cap() == if history_len > 1 {
                history_len
            } else {
                1
            },
    {
        Hop {
            addr: None,
            addrs: Vec::new(),
            mpls: Vec::new(),
            err: None,
            outstanding: false,
            up: false,
            seen: None,
            stats: RttStats::new(),
            history: History::new(history_len),
        }
    }

    /// The position of address `a` among the hop's addresses.
    fn find_addr(&self, a: &IpAddr) -> (r: Option<usize>)
        ensures
            r matches Some(k) ==> addr_index(self.addrs@, *a, 0) == Some(k as int),
            r is None ==> addr_index(self.addrs@, *a, 0) is None,
    {
        let mut i: usize = 0;
        while i < self.addrs.len()
            invariant
                i <= self.addrs@.len(),
                addr_index(self.addrs@, *a, 0) == addr_index(self.addrs@, *a, i as int),
            decreases self.addrs@.len() - i,
        {
            if self.addrs[i].addr.same(a) {
                return Some(i);
            }
            i += 1;
        }
        None
    }

    pub fn is_unknown(&self) -> (r: bool)
        ensures
            r == (self.addr is None),
    {
        self.addr.is_none()
    }

    /// Counts a probe sent at `now` and returns the hop's send counter for it; a probe still
    /// unanswered from before marks the hop down.
    pub fn record_send(&mut self, now: u64) -> (seq: u32)
        requires
            old(self).wf(),
            old(self).stats.xmit < i32::MAX,
        ensures
            final(self).wf(),
            seq == old(self).stats.xmit + 1,
            final(self).stats == (RttStats { xmit: (old(self).stats.xmit + 1) as i32, transit: 1, ..old(self).stats }),
            final(self).outstanding,
            final(self).up == (old(self).up && !old(self).outstanding),
            final(self).history.cap() == old(self).history.cap(),
            final(self).history.entries_view().last() == (HistoryEntryView {
                seq,
                sent: now,
                sample: Sample::Pending { sent: now },
                result: None,
                mpls: Seq::empty(),
            }),
            final(self).addr == old(self).addr,
            final(self).addrs@ == old(self).addrs@,
            final(self).err == old(self).err,
            final(self).seen == old(self).seen,
            final(self).mpls@ == old(self).mpls@,
    {
        self.stats.record_send();
        if self.outstanding {
            self.up = false;
        }
        self.outstanding = true;
        let saved_seq = self.stats.xmit as u32;
        proof {
            if self.history.entries_view().len() > 0 {
                let n = self.history.entries_view().len();
                assert(self.history.entries_view()[n - 1].seq == self.history.base() + n - 1);
            }
        }
        self.history.push_sent(saved_seq, now);
        saved_seq
    }

    /// A reply: the error it carried (or none), its address counted (a new one is appended
    /// while there is room, and the return value says so), the hop's address and labels
    /// replaced unless `overwrite_addr` is false, the statistics updated, the hop up, and the
    /// probe's sample recorded.
#[verifier::rlimit(50)]
    pub fn record_reply(&mut self, r: Reply<'_>, means: MeanUpdate) -> (new_addr: bool)
        requires
            old(self).wf(),
            r.rtt_us <= RTT_LIMIT,
            old(self).stats.returned < i32::MAX,
        ensures
            final(self).wf(),
            final(self).err == r.err,
            new_addr == (addr_index(old(self).addrs@, r.from, 0) is None && old(self).addrs@.len() < MAX_PATH),
            match addr_index(old(self).addrs@, r.from, 0) {
                Some(i) => {
                    &&& final(self).addrs@.len() == old(self).addrs@.len()
                    &&& final(self).addrs@[i]@ == (HopAddrView {
                        count: (old(self).addrs@[i].count + 1) as u32,
                        last_seen: r.now,
                        last_rtt: r.rtt_us,
                        ..old(self).addrs@[i]@
                    })
                    &&& forall|j: int| 0 <= j < old(self).addrs@.len() && j != i ==> final(self).addrs@[j] == old(self).addrs@[j]
                },
                None => if old(self).addrs@.len() < MAX_PATH {
                    final(self).addrs@.len() == old(self).addrs@.len() + 1 && final(self).addrs@.drop_last() == old(self).addrs@
                        && final(self).addrs@.last()@ == (HopAddrView {
                        addr: r.from,
                        mpls: r.mpls@,
                        first_seen: r.now,
                        last_seen: r.now,
                        count: 1,
                        last_rtt: r.rtt_us,
                    })
                } else {
                    final(self).addrs@ == old(self).addrs@
                },
            },
            final(self).addr == if r.overwrite_addr {
                Some(r.from)
            } else {
                old(self).addr
            },
            r.overwrite_addr && old(self).addr != Some(r.from) ==> final(self).mpls@ == r.mpls@,
            !(r.overwrite_addr && old(self).addr != Some(r.from)) ==> final(self).mpls@ == old(self).mpls@,
            final(self).stats == crate::stats::after_reply(old(self).stats, r.rtt_us as i32, means),
            !final(self).outstanding,
            final(self).up,
            final(self).seen == if r.cache {
                Some(r.now)
            } else {
                old(self).seen
            },
            final(self).history.cap() == old(self).history.cap(),
            old(self).history.index_of(r.saved_seq) is None ==> final(self).history.entries_view() == old(self).history.entries_view(),
            old(self).history.index_of(r.saved_seq) matches Some(k) ==> final(self).history.entries_view() == old(self).history.entries_view().update(
                k,
                HistoryEntryView {
                    sample: Sample::Rtt(r.rtt_us),
                    result: None,
                    mpls: Seq::empty(),
                    ..old(self).history.entries_view()[k]
                },
            ),
            reply_recorded(
                *old(self),
                *final(self),
                r.saved_seq,
                r.from,
                r.rtt_us,
                r.mpls@,
                r.err,
                r.now,
                r.overwrite_addr,
                r.cache,
                means,
                new_addr,
            ),
    {
        self.err = r.err;
        let mut new_addr = false;
        let ghost addrs0 = self.addrs@;
        let found = self.find_addr(&r.from);
        match found {
            Some(k) => {
                proof {
                    lemma_addr_index(addrs0, r.from, 0);
                }
                self.addrs[k].count = self.addrs[k].count + 1;
                self.addrs[k].last_seen = r.now;
                self.addrs[k].last_rtt = r.rtt_us;
            },
            None => {
                if self.addrs.len() < MAX_PATH {
                    self.addrs.push(
                        HopAddr {
                            addr: r.from,
                            mpls: vstd::slice::slice_to_vec(r.mpls),
                            first_seen: r.now,
                            last_seen: r.now,
                            count: 1,
                            last_rtt: r.rtt_us,
                        },
                    );
                    new_addr = true;
                }
            },
        }
        let differs = match self.addr {
            Some(a) => !a.same(&r.from),
            None => true,
        };
        if differs && r.overwrite_addr {
            self.addr = Some(r.from);
            self.mpls = vstd::slice::slice_to_vec(r.mpls);
        }
        self.stats.record_reply(r.rtt_us as i32, means);
        self.outstanding = false;
        self.up = true;
        if r.cache {
            self.seen = Some(r.now);
        }
        self.history.record(r.saved_seq, Sample::Rtt(r.rtt_us));
        proof {
            let a0 = old(self).addrs@;
            let a1 = self.addrs@;
            match addr_index(a0, r.from, 0) {
                Some(i) => {
                    assert(a1.len() == a0.len());
                    assert(a1[i as int]@ == (HopAddrView { count: (a0[i as int].count + 1) as u32, last_seen: r.now, last_rtt: r.rtt_us, ..a0[i as int]@ }));
                    assert(forall|j: int| 0 <= j < a0.len() && j != i ==> a1[j] == a0[j]);
                },
                None => {
                    if a0.len() < MAX_PATH {
                        assert(a1.len() == a0.len() + 1);
                        assert(a1.drop_last() == a0);
                        assert(a1.last()@ == (HopAddrView { addr: r.from, mpls: r.mpls@, first_seen: r.now, last_seen: r.now, count: 1, last_rtt: r.rtt_us }));
                    } else {
                        assert(a1 == a0);
                    }
                },
            }
            assert(addrs_recorded(a0, a1, r.from, r.rtt_us, r.mpls@, r.now));
        }
        new_addr
    }

    /// A helper timeout is remembered in the history only.
    pub fn record_no_reply(&mut self, saved_seq: u32)
        requires
            old(self).wf(),
        ensures
            final(self).wf(),
            final(self).stats == old(self).stats,
            final(self).addrs@ == old(self).addrs@,
            final(self).addr == old(self).addr,
            final(self).history.cap() == old(self).history.cap(),
            old(self).history.index_of(saved_seq) is None ==> final(self).history.entries_view() == old(self).history.entries_view(),
            old(self).history.index_of(saved_seq) matches Some(k) ==> final(self).history.entries_view() == old(self).history.entries_view().update(
                k,
                HistoryEntryView { sample: Sample::Lost, result: None, mpls: Seq::empty(), ..old(self).history.entries_view()[k] },
            ),
            no_reply_recorded(*old(self), *final(self), saved_seq),
    {
        self.history.record(saved_seq, Sample::Lost);
    }

    /// Back to a hop nothing is known of, with the same history length.
    pub fn reset(&mut self)
        requires
            old(self).wf(),
        ensures
            final(self).wf(),
            final(self).addr is None,
            final(self).addrs@.len() == 0,
            final(self).mpls@.len() == 0,
            final(self).err is None,
            !final(self).outstanding,
            !final(self).up,
            final(self).seen is None,
            final(self).stats == RttStats::new_spec(),
            final(self).history.entries_view().len() == 0,
            final(self).history.cap() == old(self).history.cap(),
    {
        let cap = self.history.capacity();
        *self = Hop::new(cap);
    }

    pub fn dropped(&self) -> (r: i32)
        requires
            self.wf(),
        ensures
            r == (self.stats.xmit - self.stats.transit) - self.stats.returned,
    {
        self.stats.dropped()
    }

    pub fn received(&self) -> (r: i32)
        ensures
            r == self.stats.returned,
    {
        self.stats.returned
    }

    pub fn transmitted(&self) -> (r: i32)
        ensures
            r == self.stats.xmit,
    {
        self.stats.xmit
    }

    pub fn last(&self) -> (r: i32)
        ensures
            r == self.stats.last,
    {
        self.stats.last
    }

    pub fn best(&self) -> (r: i32)
        ensures
            r == self.stats.best,
    {
        self.stats.best
    }

    pub fn avg(&self) -> (r: i32)
        ensures
            r == self.stats.avg,
    {
        self.stats.avg
    }

    pub fn worst(&self) -> (r: i32)
        ensures
            r == self.stats.worst,
    {
        self.stats.worst
    }

    pub fn gmean(&self) -> (r: i32)
        ensures
            r == self.stats.gmean,
    {
        self.stats.gmean
    }

    pub fn jitter(&self) -> (r: i32)
        ensures
            r == self.stats.jitter,
    {
        self.stats.jitter
    }

    pub fn javg(&self) -> (r: i32)
        ensures
            r == self.stats.javg,
    {
        self.stats.javg
    }

    pub fn jworst(&self) -> (r: i32)
        ensures
            r == self.stats.jworst,
    {
        self.stats.jworst
    }

    pub fn jinta(&self) -> (r: i32)
        ensures
            r == self.stats.jinta,
    {
        self.stats.jinta
    }
}

} // verus!
