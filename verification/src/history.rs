//! Per-hop probe history: the most recent probes of one hop, by the hop's send counter, each
//! pending, answered with a round-trip time, or lost. Times are microseconds on a monotonic
//! clock the caller reads.
use vstd::prelude::*;

use std::collections::VecDeque;

use crate::mpls::MplsLabel;
use crate::response::ProbeResult;

verus! {

broadcast use vstd::seq_lib::group_seq_properties;

/// What became of one probe.
#[derive(Debug, Clone, Copy, PartialEq, Eq, Structural)]
pub enum Sample {
    /// Sent at `sent`, no answer yet.
    Pending { sent: u64 },
    /// Round-trip time in microseconds.
    Rtt(u32),
    /// The helper reported `no-reply`.
    Lost,
}

/// One probe's full detail.
#[derive(Debug, Clone, PartialEq, Eq)]
pub struct HistoryEntry {
    /// The hop's 1-based send counter.
    pub seq: u32,
    pub sent: u64,
    pub sample: Sample,
    /// What the helper answered; `None` while pending or after `no-reply`.
    pub result: Option<ProbeResult>,
    pub mpls: Vec<MplsLabel>,
}

/// `HistoryEntry` with its labels as a sequence.
pub struct HistoryEntryView {
    pub seq: u32,
    pub sent: u64,
    pub sample: Sample,
    pub result: Option<ProbeResult>,
    pub mpls: Seq<MplsLabel>,
}

impl View for HistoryEntry {
    type V = HistoryEntryView;

    open spec fn view(&self) -> HistoryEntryView {
        HistoryEntryView {
            seq: self.seq,
            sent: self.sent,
            sample: self.sample,
            result: self.result,
            mpls: self.mpls@,
        }
    }
}

/// Ring of the most recent probes of one hop, indexed by the hop's 1-based send counter.
pub struct History {
    samples: VecDeque<HistoryEntry>,
    /// Send counter of the oldest entry.
    base_seq: u32,
    capacity: usize,
}

impl History {
    /// The entries, oldest first.
    pub closed spec fn entries_view(&self) -> Seq<HistoryEntryView> {
        self.samples@.map_values(|e: HistoryEntry| e@)
    }

    /// The send counter of the oldest entry.
    pub closed spec fn base(&self) -> u32 {
        self.base_seq
    }

    /// How many entries are kept.
    pub closed spec fn cap(&self) -> usize {
        self.capacity
    }

    /// At most `cap()` (at least 1) entries, numbered consecutively from `base()`.
    pub open spec fn wf(&self) -> bool {
        &&& self.cap() >= 1
        &&& self.entries_view().len() <= self.cap()
        &&& self.base() + self.entries_view().len() <= u32::MAX + 1
        &&& forall|i: int| 0 <= i < self.entries_view().len() ==> #[trigger] self.entries_view()[i].seq == self.base() + i
    }

    /// The position of send number `saved_seq`, if it is still kept.
    pub open spec fn index_of(&self, saved_seq: u32) -> Option<int> {
        if saved_seq >= self.base() && saved_seq - self.base() < self.entries_view().len() {
            Some(saved_seq - self.base())
        } else {
            None
        }
    }

    /// A history that keeps `capacity` probes (at least one).
    pub fn new(capacity: usize) -> (h: Self)
        ensures
            h.wf(),
            h.cap() == if capacity > 1 {
                capacity
            } else {
                1
            },
            h.entries_view().len() == 0,
            h.base() == 1,
    {
        let h = History {
            samples: VecDeque::new(),
            base_seq: 1,
            capacity: if capacity > 1 {
                capacity
            } else {
                1
            },
        };
        assert(h.entries_view() =~= Seq::<HistoryEntryView>::empty());
        h
    }

    pub fn capacity(&self) -> (r: usize)
        ensures
            r == self.cap(),
    {
        self.capacity
    }

    /// Appends a pending sample for send number `saved_seq`, which follows the last one kept
    /// (any number starts an empty history); the oldest entry goes when the history is full.
    pub fn push_sent(&mut self, saved_seq: u32, now: u64)
        requires
            old(self).wf(),
            old(self).entries_view().len() > 0 ==> saved_seq == old(self).base() + old(self).entries_view().len(),
            saved_seq < u32::MAX,
        ensures
            final(self).wf(),
            final(self).cap() == old(self).cap(),
            ({
                let e = HistoryEntryView {
                    seq: saved_seq,
                    sent: now,
                    sample: Sample::Pending { sent: now },
                    result: None,
                    mpls: Seq::empty(),
                };
                if old(self).entries_view().len() == old(self).cap() {
                    final(self).entries_view() == old(self).entries_view().drop_first().push(e)
                } else {
                    final(self).entries_view() == old(self).entries_view().push(e)
                }
            }),
    {
        if self.samples.len() == 0 {
            self.base_seq = saved_seq;
        }
        let ghost before = self.samples@;
        if self.samples.len() == self.capacity {
            self.samples.pop_front();
            self.base_seq = self.base_seq + 1;
        }
        let e = HistoryEntry {
            seq: saved_seq,
            sent: now,
            sample: Sample::Pending { sent: now },
            result: None,
            mpls: Vec::new(),
        };
        let ghost mid = self.samples@;
        self.samples.push_back(e);
        proof {
            assert(e@.mpls =~= Seq::<MplsLabel>::empty());
            if before.len() == self.capacity {
                assert(mid =~= before.drop_first());
                assert(self.entries_view() =~= old(self).entries_view().drop_first().push(e@));
            } else {
                assert(self.entries_view() =~= old(self).entries_view().push(e@));
            }
        }
    }

    /// The position of send number `saved_seq`, if it is still kept.
    fn index(&self, saved_seq: u32) -> (r: Option<usize>)
        ensures
            r matches Some(i) ==> self.index_of(saved_seq) == Some(i as int),
            r is None ==> self.index_of(saved_seq) is None,
    {
        if saved_seq >= self.base_seq && ((saved_seq - self.base_seq) as usize) < self.samples.len() {
            Some((saved_seq - self.base_seq) as usize)
        } else {
            None
        }
    }

    /// Overwrites the sample for `saved_seq`; ignored when it has been evicted.
    pub fn record(&mut self, saved_seq: u32, sample: Sample)
        requires
            old(self).wf(),
        ensures
            final(self).wf(),
            final(self).cap() == old(self).cap(),
            final(self).base() == old(self).base(),
            old(self).index_of(saved_seq) is None ==> final(self).entries_view() == old(self).entries_view(),
            old(self).index_of(saved_seq) matches Some(i) ==> final(self).entries_view() == old(self).entries_view().update(
                i,
                HistoryEntryView { sample, result: None, mpls: Seq::empty(), ..old(self).entries_view()[i] },
            ),
    {
        let none: [MplsLabel; 0] = [];
        self.record_outcome(saved_seq, sample, None, &none);
        assert(none@ =~= Seq::<MplsLabel>::empty());
    }

    /// `record()` plus the helper's result and any MPLS labels.
    pub fn record_outcome(&mut self, saved_seq: u32, sample: Sample, result: Option<ProbeResult>, mpls: &[MplsLabel])
        requires
            old(self).wf(),
        ensures
            final(self).wf(),
            final(self).cap() == old(self).cap(),
            final(self).base() == old(self).base(),
            old(self).index_of(saved_seq) is None ==> final(self).entries_view() == old(self).entries_view(),
            old(self).index_of(saved_seq) matches Some(i) ==> final(self).entries_view() == old(self).entries_view().update(
                i,
                HistoryEntryView { sample, result, mpls: mpls@, ..old(self).entries_view()[i] },
            ),
    {
        match self.index(saved_seq) {
            Some(i) => {
                let ghost before = self.samples@;
                let old_e = self.samples.remove(i);
                match old_e {
                    Some(e) => {
                        let ne = HistoryEntry {
                            seq: e.seq,
                            sent: e.sent,
                            sample,
                            result,
                            mpls: vstd::slice::slice_to_vec(mpls),
                        };
                        self.samples.insert(i, ne);
                        proof {
                            assert(self.samples@ =~= before.update(i as int, ne));
                            assert(self.entries_view() =~= old(self).entries_view().update(i as int, ne@));
                        }
                    },
                    None => {},
                }
            },
            None => {},
        }
    }

    /// The samples, oldest first.
    pub fn iter(&self) -> (v: Vec<Sample>)
        ensures
            v@ == self.entries_view().map_values(|e: HistoryEntryView| e.sample),
    {
        let mut v: Vec<Sample> = Vec::new();
        let mut i: usize = 0;
        while i < self.samples.len()
            invariant
                i <= self.samples@.len(),
                v@ == self.entries_view().take(i as int).map_values(|e: HistoryEntryView| e.sample),
            decreases self.samples@.len() - i,
        {
            v.push(self.samples[i].sample);
            assert(self.entries_view().take(i + 1).map_values(|e: HistoryEntryView| e.sample) =~= v@);
            i += 1;
        }
        assert(self.entries_view().take(i as int) =~= self.entries_view());
        v
    }

    /// All entries, oldest first.
    pub fn entries(&self) -> (v: Vec<&HistoryEntry>)
        ensures
            v@.len() == self.entries_view().len(),
            forall|i: int| 0 <= i < v@.len() ==> (#[trigger] v@[i])@ == self.entries_view()[i],
    {
        let mut v: Vec<&HistoryEntry> = Vec::new();
        let mut i: usize = 0;
        while i < self.samples.len()
            invariant
                i <= self.samples@.len(),
                v@.len() == i,
                forall|j: int| 0 <= j < i ==> (#[trigger] v@[j])@ == self.entries_view()[j],
            decreases self.samples@.len() - i,
        {
            v.push(&self.samples[i]);
            i += 1;
        }
        v
    }

    pub fn len(&self) -> (r: usize)
        ensures
            r == self.entries_view().len(),
    {
        self.samples.len()
    }

    pub fn is_empty(&self) -> (r: bool)
        ensures
            r == (self.entries_view().len() == 0),
    {
        self.samples.len() == 0
    }

    /// The newest sample.
    pub fn latest(&self) -> (r: Option<Sample>)
        ensures
            self.entries_view().len() == 0 ==> r is None,
            self.entries_view().len() > 0 ==> r == Some(self.entries_view().last().sample),
    {
        let n = self.samples.len();
        if n == 0 {
            None
        } else {
            Some(self.samples[n - 1].sample)
        }
    }

    /// The newest entry.
    pub fn latest_entry(&self) -> (r: Option<&HistoryEntry>)
        ensures
            self.entries_view().len() == 0 ==> r is None,
            self.entries_view().len() > 0 ==> (r matches Some(e) && e@ == self.entries_view().last()),
    {
        let n = self.samples.len();
        if n == 0 {
            None
        } else {
            Some(&self.samples[n - 1])
        }
    }

    /// Forgets every entry; numbering starts again at 1.
    pub fn clear(&mut self)
        requires
            old(self).wf(),
        ensures
            final(self).wf(),
            final(self).cap() == old(self).cap(),
            final(self).entries_view().len() == 0,
            final(self).base() == 1,
    {
        self.samples.clear();
        self.base_seq = 1;
        assert(self.entries_view() =~= Seq::<HistoryEntryView>::empty());
    }
}

} // verus!
