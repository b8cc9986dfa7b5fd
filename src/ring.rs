//! Recent web lookups: a fixed ring of twelve slots. The n-th write (from 0)
//! goes to slot `n mod 12`, replacing what was there; readers see the
//! entries newest first by timestamp.

use vstd::prelude::*;
use crate::records::{WebEntry, WebEntryModel};
use crate::text::{chars_of, string_of};

verus! {

broadcast use vstd::string::group_string_axioms;

/// Number of slots in the ring.
pub const WEB_SLOTS: usize = 12;

/// How many characters of a page a lookup keeps.
pub const WEB_SUMMARY_CHARS: usize = 300;

/// The occupied slots' entries, in slot order.
pub open spec fn occupied(slots: Seq<Option<WebEntryModel>>) -> Seq<WebEntryModel>
    decreases slots.len(),
{
    if slots.len() == 0 {
        Seq::empty()
    } else {
        let init = occupied(slots.drop_last());
        match slots.last() {
            Some(e) => init.push(e),
            None => init,
        }
    }
}

/// `e` placed into `sorted` after every entry at least as recent.
pub open spec fn insert_by_recency(sorted: Seq<WebEntryModel>, e: WebEntryModel) -> Seq<
    WebEntryModel,
>
    decreases sorted.len(),
{
    if sorted.len() == 0 {
        seq![e]
    } else if sorted.last().timestamp < e.timestamp {
        insert_by_recency(sorted.drop_last(), e).push(sorted.last())
    } else {
        sorted.push(e)
    }
}

/// `es` ordered by timestamp, newest first; equal timestamps keep their order.
pub open spec fn by_recency(es: Seq<WebEntryModel>) -> Seq<WebEntryModel>
    decreases es.len(),
{
    if es.len() == 0 {
        Seq::empty()
    } else {
        insert_by_recency(by_recency(es.drop_last()), es.last())
    }
}

/// No entry is more recent than one listed before it.
pub open spec fn newest_first(es: Seq<WebEntryModel>) -> bool {
    forall|i: int, j: int| 0 <= i < j < es.len() ==> (#[trigger] es[i]).timestamp >= (
    #[trigger] es[j]).timestamp
}

proof fn lemma_insert_by_recency(sorted: Seq<WebEntryModel>, e: WebEntryModel)
    requires
        newest_first(sorted),
    ensures
        newest_first(insert_by_recency(sorted, e)),
        insert_by_recency(sorted, e).to_multiset() =~= sorted.to_multiset().insert(e),
        forall|i: int|
            0 <= i < insert_by_recency(sorted, e).len() ==> #[trigger] insert_by_recency(
                sorted,
                e,
            )[i] == e || sorted.contains(insert_by_recency(sorted, e)[i]),
    decreases sorted.len(),
{
    broadcast use vstd::seq_lib::group_to_multiset_ensures;

    let r = insert_by_recency(sorted, e);
    if sorted.len() == 0 {
        assert(r =~= Seq::<WebEntryModel>::empty().push(e));
    } else if sorted.last().timestamp < e.timestamp {
        let init = sorted.drop_last();
        let last = sorted.last();
        assert(newest_first(init));
        lemma_insert_by_recency(init, e);
        let ins = insert_by_recency(init, e);
        assert(r == ins.push(last));
        assert(sorted =~= init.push(last));
        assert forall|i: int, j: int| 0 <= i < j < r.len() implies (#[trigger] r[i]).timestamp
            >= (#[trigger] r[j]).timestamp by {
            if j == r.len() - 1 {
                assert(r[j] == last);
                assert(r[i] == ins[i]);
                if ins[i] != e {
                    assert(init.contains(ins[i]));
                    let k = choose|k: int| 0 <= k < init.len() && init[k] == ins[i];
                    assert(sorted[k] == init[k]);
                    assert(sorted[sorted.len() - 1] == last);
                }
            } else {
                assert(r[i] == ins[i] && r[j] == ins[j]);
            }
        }
        assert forall|i: int| 0 <= i < r.len() implies #[trigger] r[i] == e || sorted.contains(
            r[i],
        ) by {
            if i == r.len() - 1 {
                assert(sorted[sorted.len() - 1] == r[i]);
            } else {
                assert(r[i] == ins[i]);
                if ins[i] != e {
                    let k = choose|k: int| 0 <= k < init.len() && init[k] == ins[i];
                    assert(sorted[k] == init[k]);
                }
            }
        }
    } else {
        assert(r == sorted.push(e));
        assert forall|i: int, j: int| 0 <= i < j < r.len() implies (#[trigger] r[i]).timestamp
            >= (#[trigger] r[j]).timestamp by {
            if j == r.len() - 1 {
                assert(r[i] == sorted[i]);
                if i < sorted.len() - 1 {
                    assert(sorted[i].timestamp >= sorted[sorted.len() - 1].timestamp);
                }
            } else {
                assert(r[i] == sorted[i] && r[j] == sorted[j]);
            }
        }
        assert forall|i: int| 0 <= i < r.len() implies #[trigger] r[i] == e || sorted.contains(
            r[i],
        ) by {
            if i < sorted.len() {
                assert(r[i] == sorted[i]);
            }
        }
    }
}

/// Listing by recency orders the entries newest first and keeps exactly
/// the entries it was given.
pub proof fn lemma_by_recency(es: Seq<WebEntryModel>)
    ensures
        newest_first(by_recency(es)),
        by_recency(es).to_multiset() =~= es.to_multiset(),
    decreases es.len(),
{
    broadcast use vstd::seq_lib::group_to_multiset_ensures;

    if es.len() == 0 {
        assert(by_recency(es) =~= es);
    } else {
        lemma_by_recency(es.drop_last());
        lemma_insert_by_recency(by_recency(es.drop_last()), es.last());
        assert(es =~= es.drop_last().push(es.last()));
    }
}

/// The ring's contents after one more write of `e`.
pub open spec fn ring_write(
    slots: Seq<Option<WebEntryModel>>,
    counter: u64,
    e: WebEntryModel,
) -> Seq<Option<WebEntryModel>> {
    slots.update((counter % WEB_SLOTS as u64) as int, Some(e))
}

/// The ring of web lookups and its write counter.
pub struct WebMemory {
    slots: Vec<Option<WebEntry>>,
    counter: u64,
}

pub struct WebMemoryModel {
    pub slots: Seq<Option<WebEntryModel>>,
    pub counter: u64,
}

pub open spec fn opt_entry_view(o: Option<WebEntry>) -> Option<WebEntryModel> {
    match o {
        Some(e) => Some(e@),
        None => None,
    }
}

impl View for WebMemory {
    type V = WebMemoryModel;

    closed spec fn view(&self) -> WebMemoryModel {
        WebMemoryModel {
            slots: self.slots@.map_values(|o: Option<WebEntry>| opt_entry_view(o)),
            counter: self.counter,
        }
    }
}

fn dup_entry(e: &WebEntry) -> (r: WebEntry)
    ensures
        r@ == e@,
{
    WebEntry { url: e.url.clone(), summary: e.summary.clone(), timestamp: e.timestamp }
}

impl WebMemory {
    /// The ring has its twelve slots.
    pub open spec fn inv(&self) -> bool {
        self@.slots.len() == WEB_SLOTS
    }

    /// An empty ring whose counter is 0.
    pub fn new() -> (r: WebMemory)
        ensures
            r.inv(),
            r@.slots == Seq::new(WEB_SLOTS as nat, |i: int| None::<WebEntryModel>),
            r@.counter == 0,
    {
        let mut slots: Vec<Option<WebEntry>> = Vec::new();
        let mut i: usize = 0;
        while i < WEB_SLOTS
            invariant
                i <= WEB_SLOTS,
                slots@.len() == i,
                forall|j: int| 0 <= j < i ==> slots@[j] is None,
            decreases WEB_SLOTS - i,
        {
            slots.push(None);
            i = i + 1;
        }
        let r = WebMemory { slots, counter: 0 };
        assert(r@.slots =~= Seq::new(WEB_SLOTS as nat, |i: int| None::<WebEntryModel>));
        r
    }

    /// A ring rebuilt from stored slots and counter; `None` unless there
    /// are exactly twelve slots.
    pub fn from_parts(slots: Vec<Option<WebEntry>>, counter: u64) -> (r: Option<WebMemory>)
        ensures
            r is Some <==> slots@.len() == WEB_SLOTS,
            r matches Some(w) ==> w.inv() && w@.counter == counter && w@.slots == slots@.map_values(
                |o: Option<WebEntry>| opt_entry_view(o),
            ),
    {
        if slots.len() != WEB_SLOTS {
            return None;
        }
        Some(WebMemory { slots, counter })
    }

    pub fn counter(&self) -> (r: u64)
        ensures
            r == self@.counter,
    {
        self.counter
    }

    /// The entry in slot `i`, if any.
    pub fn slot(&self, i: usize) -> (r: Option<WebEntry>)
        requires
            self.inv(),
            i < WEB_SLOTS,
        ensures
            opt_entry_view(r) == self@.slots[i as int],
    {
        match &self.slots[i] {
            Some(e) => Some(dup_entry(e)),
            None => None,
        }
    }

    /// Records a lookup of `url` at time `now`, keeping the first 300
    /// characters of `content`, in the slot the counter names; returns
    /// that slot.
    pub fn store(&mut self, url: &str, content: &str, now: u64) -> (r: usize)
        requires
            old(self).inv(),
            old(self)@.counter < u64::MAX,
        ensures
            final(self).inv(),
            r == old(self)@.counter % WEB_SLOTS as u64,
            final(self)@.counter == old(self)@.counter + 1,
            final(self)@.slots == ring_write(
                old(self)@.slots,
                old(self)@.counter,
                WebEntryModel {
                    url: url@,
                    summary: content@.subrange(
                        0,
                        if content@.len() < WEB_SUMMARY_CHARS {
                            content@.len() as int
                        } else {
                            WEB_SUMMARY_CHARS as int
                        },
                    ),
                    timestamp: now,
                },
            ),
    {
        let idx = (self.counter % WEB_SLOTS as u64) as usize;
        self.counter = self.counter + 1;
        let cs = chars_of(content);
        let keep = if cs.len() < WEB_SUMMARY_CHARS {
            cs.len()
        } else {
            WEB_SUMMARY_CHARS
        };
        let summary = string_of(&cs, 0, keep);
        let entry = WebEntry { url: url.to_string(), summary, timestamp: now };
        let ghost e = entry@;
        self.slots.set(idx, Some(entry));
        assert(self@.slots =~= ring_write(old(self)@.slots, old(self)@.counter, e));
        idx
    }

    /// Empties every slot; the counter stays.
    pub fn clear(&mut self)
        requires
            old(self).inv(),
        ensures
            final(self).inv(),
            final(self)@.counter == old(self)@.counter,
            final(self)@.slots == Seq::new(WEB_SLOTS as nat, |i: int| None::<WebEntryModel>),
    {
        let mut i: usize = 0;
        while i < WEB_SLOTS
            invariant
                self.inv(),
                self.counter == old(self)@.counter,
                i <= WEB_SLOTS,
                forall|j: int| 0 <= j < i ==> self.slots@[j] is None,
            decreases WEB_SLOTS - i,
        {
            self.slots.set(i, None);
            i = i + 1;
        }
        assert(self@.slots =~= Seq::new(WEB_SLOTS as nat, |i: int| None::<WebEntryModel>));
    }

    /// The stored entries, newest first.
    pub fn entries(&self) -> (r: Vec<WebEntry>)
        requires
            self.inv(),
        ensures
            r@.map_values(|e: WebEntry| e@) == by_recency(occupied(self@.slots)),
            newest_first(r@.map_values(|e: WebEntry| e@)),
            r@.map_values(|e: WebEntry| e@).to_multiset() == occupied(self@.slots).to_multiset(),
    {
        proof {
            lemma_by_recency(occupied(self@.slots));
        }
        let mut out: Vec<WebEntry> = Vec::new();
        let mut i: usize = 0;
        while i < self.slots.len()
            invariant
                self.inv(),
                i <= WEB_SLOTS,
                out@.map_values(|e: WebEntry| e@) == by_recency(
                    occupied(self@.slots.subrange(0, i as int)),
                ),
            decreases WEB_SLOTS - i,
        {
            proof {
                assert(self@.slots.subrange(0, i + 1).drop_last() =~= self@.slots.subrange(
                    0,
                    i as int,
                ));
                assert(self@.slots.subrange(0, i + 1).last() == opt_entry_view(
                    self.slots@[i as int],
                ));
            }
            match &self.slots[i] {
                Some(e) => {
                    proof {
                        let occ = occupied(self@.slots.subrange(0, i as int));
                        assert(occupied(self@.slots.subrange(0, i + 1)).drop_last() =~= occ);
                    }
                    insert_by_recency_exec(&mut out, dup_entry(e));
                },
                None => {},
            }
            i = i + 1;
        }
        assert(self@.slots.subrange(0, i as int) =~= self@.slots);
        out
    }
}

/// Inserts `e` into `out`, which is ordered newest first, after every
/// entry at least as recent.
fn insert_by_recency_exec(out: &mut Vec<WebEntry>, e: WebEntry)
    ensures
        final(out)@.map_values(|x: WebEntry| x@) == insert_by_recency(
            old(out)@.map_values(|x: WebEntry| x@),
            e@,
        ),
{
    let ghost s = old(out)@.map_values(|x: WebEntry| x@);
    let mut k = out.len();
    assert(s.subrange(0, s.len() as int) =~= s);
    assert(insert_by_recency(s, e@) + s.subrange(s.len() as int, s.len() as int) =~= insert_by_recency(s, e@));
    while k > 0 && out[k - 1].timestamp < e.timestamp
        invariant
            k <= out@.len(),
            out@ == old(out)@,
            s == out@.map_values(|x: WebEntry| x@),
            insert_by_recency(s, e@) == insert_by_recency(s.subrange(0, k as int), e@) + s.subrange(
                k as int,
                s.len() as int,
            ),
        decreases k,
    {
        proof {
            let t = s.subrange(0, k as int);
            assert(t.last() == out@[k - 1]@);
            assert(t.drop_last() =~= s.subrange(0, k - 1));
            assert(s.subrange(k - 1, s.len() as int) =~= seq![t.last()] + s.subrange(
                k as int,
                s.len() as int,
            ));
            assert(insert_by_recency(t, e@) == insert_by_recency(t.drop_last(), e@).push(t.last()));
            assert(insert_by_recency(t.drop_last(), e@).push(t.last()) + s.subrange(
                k as int,
                s.len() as int,
            ) =~= insert_by_recency(t.drop_last(), e@) + s.subrange(k - 1, s.len() as int));
        }
        k = k - 1;
    }
    proof {
        let t = s.subrange(0, k as int);
        if k > 0 {
            assert(t.last() == out@[k - 1]@);
        }
        assert(insert_by_recency(t, e@) =~= t.push(e@)) by {
            if t.len() == 0 {
                assert(insert_by_recency(t, e@) == seq![e@]);
            }
        }
    }
    let ghost ev = e@;
    out.insert(k, e);
    assert(out@.map_values(|x: WebEntry| x@) =~= s.subrange(0, k as int).push(ev) + s.subrange(
        k as int,
        s.len() as int,
    ));
}

/// The ring's slots after writing `es` in order into a fresh ring.
pub open spec fn writes_from_empty(es: Seq<WebEntryModel>) -> Seq<Option<WebEntryModel>>
    decreases es.len(),
{
    if es.len() == 0 {
        Seq::new(WEB_SLOTS as nat, |i: int| None::<WebEntryModel>)
    } else {
        ring_write(writes_from_empty(es.drop_last()), (es.len() - 1) as u64, es.last())
    }
}

proof fn lemma_writes_from_empty(es: Seq<WebEntryModel>)
    requires
        es.len() <= 2 * WEB_SLOTS,
    ensures
        writes_from_empty(es).len() == WEB_SLOTS,
        forall|i: int|
            0 <= i < WEB_SLOTS ==> #[trigger] writes_from_empty(es)[i] == if i + WEB_SLOTS
                < es.len() {
                Some(es[i + WEB_SLOTS])
            } else if i < es.len() {
                Some(es[i])
            } else {
                None
            },
    decreases es.len(),
{
    if es.len() > 0 {
        let init = es.drop_last();
        lemma_writes_from_empty(init);
        let n = (es.len() - 1) as int;
        assert(n % 12 == if n < 12 {
            n
        } else {
            n - 12
        }) by (nonlinear_arith)
            requires
                0 <= n < 24,
        ;
    }
}

pub proof fn lemma_occupied_full(slots: Seq<Option<WebEntryModel>>)
    requires
        forall|i: int| 0 <= i < slots.len() ==> (#[trigger] slots[i]) is Some,
    ensures
        occupied(slots).len() == slots.len(),
    decreases slots.len(),
{
    if slots.len() > 0 {
        lemma_occupied_full(slots.drop_last());
    }
}

/// Thirteen writes into a fresh ring leave twelve entries: the thirteenth
/// has replaced the first, in slot 0, and every other write is still there.
pub proof fn lemma_ring_thirteen_writes(es: Seq<WebEntryModel>)
    requires
        es.len() == WEB_SLOTS + 1,
    ensures
        occupied(writes_from_empty(es)).len() == WEB_SLOTS,
        writes_from_empty(es)[0] == Some(es[WEB_SLOTS as int]),
        forall|i: int| 1 <= i < WEB_SLOTS ==> #[trigger] writes_from_empty(es)[i] == Some(es[i]),
{
    lemma_writes_from_empty(es);
    let s = writes_from_empty(es);
    assert(s[0] == Some(es[12]));
    lemma_occupied_full(s);
}

} // verus!
