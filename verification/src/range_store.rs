use vstd::prelude::*;
use crate::error::{Error, ErrorKind};
use crate::range::{Range, RangeData, range_valid, range_intersects, range_views};

verus! {

/// Well-formedness of the stored sequence: every range is non-empty, and
/// consecutive ranges never overlap (touching is allowed), which with
/// validity makes the whole sequence sorted and pairwise disjoint.
pub open spec fn store_wf(s: Seq<RangeData>) -> bool {
    &&& forall|i: int| 0 <= i < s.len() ==> range_valid(#[trigger] s[i])
    &&& forall|i: int| 0 <= i < s.len() - 1 ==> (#[trigger] s[i]).end <= s[i + 1].start
}

/// Some stored range covers the key `k`.
pub open spec fn covered(s: Seq<RangeData>, k: u64) -> bool {
    exists|i: int| 0 <= i < s.len() && (#[trigger] s[i]).start <= k < s[i].end
}

/// A range lying entirely at or before the window's start.
pub open spec fn p_left(r: RangeData, start: u64) -> bool {
    r.end <= start
}

/// A range reaching into the window `[start, end)`.
pub open spec fn p_mid(r: RangeData, start: u64, end: u64) -> bool {
    r.end > start && r.start < end
}

/// A range lying entirely at or after the window's end.
pub open spec fn p_right(r: RangeData, start: u64, end: u64) -> bool {
    r.end > start && r.start >= end
}

/// The store's contents after a coalescing put of `[start, end) -> value`:
/// ranges left of the window stay, the first and last overlapped ranges
/// keep their parts outside the window, one new range covers the window,
/// and ranges right of the window stay.
pub open spec fn spec_store_put(
    s: Seq<RangeData>,
    start: u64,
    end: u64,
    value: Seq<u8>,
) -> Seq<RangeData> {
    let left = s.filter(|r: RangeData| p_left(r, start));
    let mid = s.filter(|r: RangeData| p_mid(r, start, end));
    let right = s.filter(|r: RangeData| p_right(r, start, end));
    let left_rem = if mid.len() > 0 && mid[0].start < start {
        seq![RangeData { start: mid[0].start, end: start, value: mid[0].value }]
    } else {
        Seq::empty()
    };
    let right_rem = if mid.len() > 0 && mid.last().end > end {
        seq![RangeData { start: end, end: mid.last().end, value: mid.last().value }]
    } else {
        Seq::empty()
    };
    left + left_rem + seq![RangeData { start, end, value }] + right_rem + right
}

/// In a well-formed store every earlier range ends at or before a later
/// range starts.
pub proof fn lemma_wf_pair(s: Seq<RangeData>, i: int, j: int)
    requires
        store_wf(s),
        0 <= i < j < s.len(),
    ensures
        s[i].end <= s[j].start,
    decreases j - i,
{
    if i + 1 == j {
    } else {
        lemma_wf_pair(s, i + 1, j);
    }
}

/// Filtering a one-longer prefix extends the filtered prefix by the new
/// element exactly when the predicate accepts it.
pub proof fn lemma_filter_extend<A>(s: Seq<A>, p: spec_fn(A) -> bool, i: int)
    requires
        0 <= i < s.len(),
    ensures
        s.subrange(0, i + 1).filter(p) == if p(s[i]) {
            s.subrange(0, i).filter(p).push(s[i])
        } else {
            s.subrange(0, i).filter(p)
        },
{
    reveal(Seq::filter);
    assert(s.subrange(0, i + 1).drop_last() =~= s.subrange(0, i));
    assert(s.subrange(0, i + 1).last() == s[i]);
}

/// A filter whose predicate accepts every element returns the sequence.
pub proof fn lemma_filter_true_id<A>(s: Seq<A>, p: spec_fn(A) -> bool)
    requires
        forall|i: int| 0 <= i < s.len() ==> p(#[trigger] s[i]),
    ensures
        s.filter(p) == s,
    decreases s.len(),
{
    reveal(Seq::filter);
    if s.len() > 0 {
        lemma_filter_true_id(s.drop_last(), p);
        assert(s.filter(p) =~= s);
    }
}

/// A filter whose predicate rejects every element returns the empty sequence.
pub proof fn lemma_filter_false_empty<A>(s: Seq<A>, p: spec_fn(A) -> bool)
    requires
        forall|i: int| 0 <= i < s.len() ==> !p(#[trigger] s[i]),
    ensures
        s.filter(p) == Seq::<A>::empty(),
    decreases s.len(),
{
    reveal(Seq::filter);
    if s.len() > 0 {
        lemma_filter_false_empty(s.drop_last(), p);
        assert(s.filter(p) =~= Seq::<A>::empty());
    }
}

/// In a well-formed store, for a valid window the ranges split into a
/// prefix at or before the window, a middle block reaching into it, and a
/// suffix at or after it; the three filters are exactly those blocks.
pub proof fn lemma_store_partition(s: Seq<RangeData>, start: u64, end: u64) -> (r: (int, int))
    requires
        store_wf(s),
        start < end,
    ensures
        0 <= r.0 <= r.1 <= s.len(),
        s.filter(|rg: RangeData| p_left(rg, start)) == s.subrange(0, r.0),
        s.filter(|rg: RangeData| p_mid(rg, start, end)) == s.subrange(r.0, r.1),
        s.filter(|rg: RangeData| p_right(rg, start, end)) == s.subrange(r.1, s.len() as int),
        forall|k: int| 0 <= k < r.0 ==> p_left(#[trigger] s[k], start),
        forall|k: int| r.0 <= k < r.1 ==> p_mid(#[trigger] s[k], start, end),
        forall|k: int| r.1 <= k < s.len() ==> p_right(#[trigger] s[k], start, end),
    decreases s.len(),
{
    let pl = |rg: RangeData| p_left(rg, start);
    let pm = |rg: RangeData| p_mid(rg, start, end);
    let pr = |rg: RangeData| p_right(rg, start, end);
    reveal(Seq::filter);
    if s.len() == 0 {
        assert(s.filter(pl) =~= s.subrange(0, 0));
        assert(s.filter(pm) =~= s.subrange(0, 0));
        assert(s.filter(pr) =~= s.subrange(0, 0));
        (0, 0)
    } else {
        let s0 = s.drop_last();
        assert(store_wf(s0));
        let (i0, j0) = lemma_store_partition(s0, start, end);
        let last = s.last();
        assert(range_valid(last));
        assert(forall|k: int| 0 <= k < s.len() - 1 ==> #[trigger] s[k] == s0[k]);
        assert(s[s.len() - 1] == last);
        if pr(last) {
            assert(s.filter(pl) =~= s.subrange(0, i0));
            assert(s.filter(pm) =~= s.subrange(i0, j0));
            assert(s.filter(pr) =~= s0.filter(pr).push(last));
            assert(s.filter(pr) =~= s.subrange(j0, s.len() as int));
            (i0, j0)
        } else if pm(last) {
            // nothing before the last element can lie right of the window
            assert forall|k: int| 0 <= k < s.len() - 1 implies !pr(#[trigger] s0[k]) by {
                if k < s.len() - 1 {
                    lemma_wf_pair(s, k, s.len() - 1);
                }
            }
            assert(s0.filter(pr) == Seq::<RangeData>::empty()) by {
                lemma_filter_false_empty(s0, pr);
            }
            assert(j0 == s.len() - 1);
            assert(s.filter(pl) =~= s.subrange(0, i0));
            assert(s.filter(pm) =~= s0.filter(pm).push(last));
            assert(s.filter(pm) =~= s.subrange(i0, s.len() as int));
            assert(s.filter(pr) =~= s.subrange(s.len() as int, s.len() as int));
            (i0, s.len() as int)
        } else {
            assert(pl(last));
            // nothing before the last element can reach into or past the window
            assert forall|k: int| 0 <= k < s.len() - 1 implies !pm(#[trigger] s0[k]) && !pr(s0[k]) by {
                if k < s.len() - 1 {
                    lemma_wf_pair(s, k, s.len() - 1);
                    assert(s[k].end <= last.start);
                    assert(last.start < last.end <= start);
                }
            }
            assert(s0.filter(pm) == Seq::<RangeData>::empty()) by {
                lemma_filter_false_empty(s0, pm);
            }
            assert(s0.filter(pr) == Seq::<RangeData>::empty()) by {
                lemma_filter_false_empty(s0, pr);
            }
            assert(i0 == s.len() - 1 && j0 == s.len() - 1);
            assert(s.filter(pl) =~= s0.filter(pl).push(last));
            assert(s.filter(pl) =~= s.subrange(0, s.len() as int));
            assert(s.filter(pm) =~= s.subrange(s.len() as int, s.len() as int));
            assert(s.filter(pr) =~= s.subrange(s.len() as int, s.len() as int));
            (s.len() as int, s.len() as int)
        }
    }
}

/// Every element of a filtered sequence is an element of the sequence.
pub proof fn lemma_filter_subset<A>(s: Seq<A>, p: spec_fn(A) -> bool)
    ensures
        forall|t: int| 0 <= t < s.filter(p).len() ==> s.contains(#[trigger] s.filter(p)[t]),
    decreases s.len(),
{
    reveal(Seq::filter);
    if s.len() > 0 {
        let s0 = s.drop_last();
        lemma_filter_subset(s0, p);
        assert forall|t: int| 0 <= t < s.filter(p).len() implies s.contains(
            #[trigger] s.filter(p)[t],
        ) by {
            if t < s0.filter(p).len() {
                assert(s0.contains(s0.filter(p)[t]));
                let w = choose|w: int| 0 <= w < s0.len() && s0[w] == s0.filter(p)[t];
                assert(s[w] == s.filter(p)[t]);
            } else {
                assert(s.filter(p)[t] == s.last());
                assert(s[s.len() - 1] == s.last());
            }
        }
    }
}

/// Filtering a well-formed store leaves a well-formed store, and the last
/// kept range is one of the stored ranges.
pub proof fn lemma_filter_wf(s: Seq<RangeData>, q: spec_fn(RangeData) -> bool)
    requires
        store_wf(s),
    ensures
        store_wf(s.filter(q)),
        s.filter(q).len() > 0 ==> exists|k: int|
            0 <= k < s.len() && s.filter(q).last() == #[trigger] s[k],
    decreases s.len(),
{
    reveal(Seq::filter);
    if s.len() > 0 {
        let s0 = s.drop_last();
        let last = s.last();
        assert(forall|k: int| 0 <= k < s.len() - 1 ==> #[trigger] s0[k] == s[k]);
        assert(store_wf(s0));
        lemma_filter_wf(s0, q);
        if q(last) {
            let f = s.filter(q);
            assert(f == s0.filter(q).push(last));
            if s0.filter(q).len() > 0 {
                let k = choose|k: int| 0 <= k < s0.len() && s0.filter(q).last() == #[trigger] s0[k];
                lemma_wf_pair(s, k, s.len() - 1);
                assert(forall|t: int| 0 <= t < f.len() - 1 ==> #[trigger] f[t] == s0.filter(q)[t]);
                assert(store_wf(f));
            } else {
                assert(store_wf(f));
            }
            assert(f.last() == s[s.len() - 1]);
        }
    }
}

/// After a coalescing put over a valid window, the store is still well
/// formed and covers exactly what it covered before plus the window.
#[verifier::rlimit(60)]
pub proof fn lemma_store_put_props(s: Seq<RangeData>, a: u64, b: u64, v: Seq<u8>)
    requires
        store_wf(s),
        a < b,
    ensures
        store_wf(spec_store_put(s, a, b, v)),
        forall|k: u64| covered(spec_store_put(s, a, b, v), k) <==> covered(s, k) || (a <= k < b),
{
    let (i0, j0) = lemma_store_partition(s, a, b);
    let left = s.filter(|rg: RangeData| p_left(rg, a));
    let mid = s.filter(|rg: RangeData| p_mid(rg, a, b));
    let right = s.filter(|rg: RangeData| p_right(rg, a, b));
    let e1: int = if mid.len() > 0 && mid[0].start < a { 1 } else { 0 };
    let e2: int = if mid.len() > 0 && mid.last().end > b { 1 } else { 0 };
    let res = spec_store_put(s, a, b, v);
    let n = s.len() as int;
    let newr = RangeData { start: a, end: b, value: v };
    assert(mid.len() == j0 - i0);
    assert(mid.len() > 0 ==> mid[0] == s[i0] && mid.last() == s[j0 - 1]);
    assert(res.len() == i0 + e1 + 1 + e2 + (n - j0));
    // where each element of the result comes from
    assert(forall|t: int| 0 <= t < i0 ==> res[t] == #[trigger] s[t]);
    assert(e1 == 1 ==> res[i0] == (RangeData { start: s[i0].start, end: a, value: s[i0].value }));
    assert(res[i0 + e1] == newr);
    assert(e2 == 1 ==> res[i0 + e1 + 1] == (RangeData {
        start: b,
        end: s[j0 - 1].end,
        value: s[j0 - 1].value,
    }));
    assert(forall|t: int| i0 + e1 + 1 + e2 <= t < res.len() ==> #[trigger] res[t] == s[
        j0 + (t - (i0 + e1 + 1 + e2))
    ]);
    // well-formedness: validity of every element
    assert forall|t: int| 0 <= t < res.len() implies range_valid(#[trigger] res[t]) by {
        if t < i0 {
        } else if e1 == 1 && t == i0 {
        } else if t == i0 + e1 {
        } else if e2 == 1 && t == i0 + e1 + 1 {
        } else {
        }
    }
    // well-formedness: consecutive ranges do not overlap
    assert forall|t: int| 0 <= t < res.len() - 1 implies (#[trigger] res[t]).end <= res[t + 1].start by {
        if t + 1 < i0 {
        } else if t + 1 == i0 {
        } else if t == i0 - 1 && e1 == 1 {
        } else if t == i0 - 1 && e1 == 0 {
            // the prefix range ends at or before the window
        } else if e1 == 1 && t == i0 {
            // left remainder ends exactly where the window starts
        } else if t == i0 + e1 {
            // the new range ends at the window end; what follows starts at or after it
            if e2 == 0 && t + 1 < res.len() {
                assert(res[t + 1] == s[j0]);
            }
        } else if e2 == 1 && t == i0 + e1 + 1 {
            // right remainder ends where the old last overlapped range ended
            if t + 1 < res.len() {
                assert(res[t + 1] == s[j0]);
                assert(s[j0 - 1].end <= s[j0].start);
            }
        } else {
            let u = t - (i0 + e1 + 1 + e2);
            assert(res[t] == s[j0 + u]);
            assert(res[t + 1] == s[j0 + u + 1]);
        }
    }
    // coverage: the new store covers the old keys plus the window
    assert forall|k: u64| covered(res, k) <==> covered(s, k) || (a <= k < b) by {
        if covered(res, k) {
            let t = choose|t: int| 0 <= t < res.len() && (#[trigger] res[t]).start <= k < res[t].end;
            if t < i0 {
                assert(covered(s, k));
            } else if e1 == 1 && t == i0 {
                assert(s[i0].start <= k < s[i0].end);
                assert(covered(s, k));
            } else if t == i0 + e1 {
                assert(a <= k < b);
            } else if e2 == 1 && t == i0 + e1 + 1 {
                assert(s[j0 - 1].start < b <= k < s[j0 - 1].end);
                assert(covered(s, k));
            } else {
                assert(res[t] == s[j0 + (t - (i0 + e1 + 1 + e2))]);
                assert(covered(s, k));
            }
        }
        if a <= k < b {
            assert(res[i0 + e1] == newr);
            assert(covered(res, k));
        } else if covered(s, k) {
            let idx = choose|idx: int| 0 <= idx < s.len() && (#[trigger] s[idx]).start <= k < s[idx].end;
            if idx < i0 {
                assert(res[idx] == s[idx]);
                assert(covered(res, k));
            } else if idx >= j0 {
                let t = idx - j0 + (i0 + e1 + 1 + e2);
                assert(res[t] == s[idx]);
                assert(covered(res, k));
            } else {
                // a range overlapped by the window: the key lies outside the
                // window, so a remainder covers it
                if k < a {
                    if idx > i0 {
                        lemma_wf_pair(s, i0, idx);
                        assert(false);
                    }
                    assert(s[i0].start <= k < a);
                    assert(e1 == 1);
                    assert(covered(res, k));
                } else {
                    assert(k >= b);
                    if idx < j0 - 1 {
                        assert(s[idx].end <= s[idx + 1].start);
                        assert(p_mid(s[idx + 1], a, b));
                        assert(false);
                    }
                    assert(s[j0 - 1].end > k);
                    assert(e2 == 1);
                    assert(res[i0 + e1 + 1].start <= k < res[i0 + e1 + 1].end);
                    assert(covered(res, k));
                }
            }
        }
    }
}

/// A value property held by every stored range and by the new value is
/// held by every range after a coalescing put: the remainders keep the
/// overlapped ranges' original values.
#[verifier::rlimit(60)]
pub proof fn lemma_store_put_values(
    s: Seq<RangeData>,
    a: u64,
    b: u64,
    v: Seq<u8>,
    q: spec_fn(Seq<u8>) -> bool,
)
    requires
        store_wf(s),
        a < b,
        q(v),
        forall|i: int| 0 <= i < s.len() ==> q((#[trigger] s[i]).value),
    ensures
        forall|i: int|
            0 <= i < spec_store_put(s, a, b, v).len() ==> q(
                (#[trigger] spec_store_put(s, a, b, v)[i]).value,
            ),
{
    let (i0, j0) = lemma_store_partition(s, a, b);
    let mid = s.filter(|rg: RangeData| p_mid(rg, a, b));
    let e1: int = if mid.len() > 0 && mid[0].start < a {
        1
    } else {
        0
    };
    let e2: int = if mid.len() > 0 && mid.last().end > b {
        1
    } else {
        0
    };
    let res = spec_store_put(s, a, b, v);
    assert(mid.len() == j0 - i0);
    assert(mid.len() > 0 ==> mid[0] == s[i0] && mid.last() == s[j0 - 1]);
    assert forall|i: int| 0 <= i < res.len() implies q((#[trigger] res[i]).value) by {
        if i < i0 {
            assert(res[i] == s[i]);
        } else if e1 == 1 && i == i0 {
            assert(res[i].value == s[i0].value);
        } else if i == i0 + e1 {
            assert(res[i].value == v);
        } else if e2 == 1 && i == i0 + e1 + 1 {
            assert(res[i].value == s[j0 - 1].value);
        } else {
            assert(res[i] == s[j0 + (i - (i0 + e1 + 1 + e2))]);
        }
    }
}

/// An in-memory range store: an ordered collection of non-overlapping
/// ranges keyed by `end`, with coalescing put/get/del over the whole
/// `[0, 2^64)` keyspace.
pub struct RangeDbMemoryImpl {
    ranges: Vec<Range>,
}

impl View for RangeDbMemoryImpl {
    type V = Seq<RangeData>;

    closed spec fn view(&self) -> Seq<RangeData> {
        range_views(self.ranges@)
    }
}

impl RangeDbMemoryImpl {
    /// The store's invariant: its ranges are non-empty, sorted and disjoint.
    pub open spec fn wf(&self) -> bool {
        store_wf(self@)
    }

    /// Opens a fresh, empty in-memory store; the name is ignored.
    pub fn open(_dbname: &str) -> (r: Self)
        ensures
            r@ == Seq::<RangeData>::empty(),
            r.wf(),
    {
        let r = RangeDbMemoryImpl { ranges: Vec::new() };
        proof {
            assert(r@ =~= Seq::<RangeData>::empty());
        }
        r
    }

    pub fn close(&self) {
    }

    /// Returns, in ascending `end` order, every stored range that
    /// intersects `[start, end)`; never fails.
    pub fn get(&self, start: u64, end: u64) -> (r: Result<Vec<Range>, Error>)
        ensures
            r matches Ok(v) && range_views(v@) == self@.filter(
                |rg: RangeData| range_intersects(rg, start, end),
            ),
    {
        let pred = Ghost(|rg: RangeData| range_intersects(rg, start, end));
        let mut result: Vec<Range> = Vec::new();
        let n = self.ranges.len();
        let mut i: usize = 0;
        proof {
            assert(range_views(result@) =~= self@.subrange(0, 0).filter(pred@));
        }
        while i < n
            invariant
                n == self.ranges.len(),
                i <= n,
                pred@ == (|rg: RangeData| range_intersects(rg, start, end)),
                range_views(result@) == self@.subrange(0, i as int).filter(pred@),
            decreases n - i,
        {
            let rg = &self.ranges[i];
            proof {
                lemma_filter_extend(self@, pred@, i as int);
            }
            if rg.intersect(start, end) {
                let ghost pre = result@;
                result.push(rg.clone());
                proof {
                    assert(range_views(result@) =~= range_views(pre).push(self@[i as int]));
                }
            }
            i += 1;
        }
        proof {
            assert(self@.subrange(0, n as int) =~= self@);
        }
        Ok(result)
    }

    /// Removes and returns every stored range that intersects `[start, end)`.
    pub fn del_batch(&mut self, start: u64, end: u64) -> (r: Result<Vec<Range>, Error>)
        requires
            old(self).wf(),
        ensures
            final(self).wf(),
            final(self)@ == old(self)@.filter(
                |rg: RangeData| !range_intersects(rg, start, end),
            ),
            r matches Ok(v) && range_views(v@) == old(self)@.filter(
                |rg: RangeData| range_intersects(rg, start, end),
            ),
    {
        let pred = Ghost(|rg: RangeData| range_intersects(rg, start, end));
        let npred = Ghost(|rg: RangeData| !range_intersects(rg, start, end));
        let mut kept: Vec<Range> = Vec::new();
        let mut removed: Vec<Range> = Vec::new();
        let n = self.ranges.len();
        let mut i: usize = 0;
        proof {
            assert(range_views(kept@) =~= self@.subrange(0, 0).filter(npred@));
            assert(range_views(removed@) =~= self@.subrange(0, 0).filter(pred@));
        }
        while i < n
            invariant
                n == self.ranges.len(),
                i <= n,
                pred@ == (|rg: RangeData| range_intersects(rg, start, end)),
                npred@ == (|rg: RangeData| !range_intersects(rg, start, end)),
                range_views(kept@) == self@.subrange(0, i as int).filter(npred@),
                range_views(removed@) == self@.subrange(0, i as int).filter(pred@),
            decreases n - i,
        {
            let rg = &self.ranges[i];
            proof {
                lemma_filter_extend(self@, pred@, i as int);
                lemma_filter_extend(self@, npred@, i as int);
            }
            if rg.intersect(start, end) {
                let ghost pre = removed@;
                removed.push(rg.clone());
                proof {
                    assert(range_views(removed@) =~= range_views(pre).push(self@[i as int]));
                }
            } else {
                let ghost pre = kept@;
                kept.push(rg.clone());
                proof {
                    assert(range_views(kept@) =~= range_views(pre).push(self@[i as int]));
                }
            }
            i += 1;
        }
        proof {
            assert(self@.subrange(0, n as int) =~= self@);
            lemma_filter_wf(self@, npred@);
        }
        self.ranges = kept;
        Ok(removed)
    }

    /// Removes and returns every stored range that intersects `[start, end)`.
    pub fn del(&mut self, start: u64, end: u64) -> (r: Result<Vec<Range>, Error>)
        requires
            old(self).wf(),
        ensures
            final(self).wf(),
            final(self)@ == old(self)@.filter(
                |rg: RangeData| !range_intersects(rg, start, end),
            ),
            r matches Ok(v) && range_views(v@) == old(self)@.filter(
                |rg: RangeData| range_intersects(rg, start, end),
            ),
    {
        self.del_batch(start, end)
    }

    /// Coalescing put: fails with `InvalidRange` when `start >= end` and
    /// leaves the store unchanged; otherwise replaces the window
    /// `[start, end)` with the new value, truncating partially overlapped
    /// ranges to their parts outside the window. Afterwards the store is
    /// still well formed and covers exactly the keys it covered before
    /// plus the window.
    pub fn put(&mut self, start: u64, end: u64, value: &[u8]) -> (r: Result<(), Error>)
        requires
            old(self).wf(),
        ensures
            final(self).wf(),
            start >= end ==> (r matches Err(e) && e.spec_kind() == ErrorKind::InvalidRange
                && final(self)@ == old(self)@),
            start < end ==> (r is Ok && final(self)@ == spec_store_put(
                old(self)@, start, end, value@,
            )),
            start < end ==> forall|k: u64|
                covered(final(self)@, k) <==> covered(old(self)@, k) || (start <= k < end),
    {
        if start >= end {
            return Err(Error::from_kind(ErrorKind::InvalidRange));
        }
        let pl = Ghost(|rg: RangeData| p_left(rg, start));
        let pm = Ghost(|rg: RangeData| p_mid(rg, start, end));
        let pr = Ghost(|rg: RangeData| p_right(rg, start, end));
        let mut left_v: Vec<Range> = Vec::new();
        let mut mid_v: Vec<Range> = Vec::new();
        let mut right_v: Vec<Range> = Vec::new();
        let n = self.ranges.len();
        let mut i: usize = 0;
        proof {
            assert(range_views(left_v@) =~= self@.subrange(0, 0).filter(pl@));
            assert(range_views(mid_v@) =~= self@.subrange(0, 0).filter(pm@));
            assert(range_views(right_v@) =~= self@.subrange(0, 0).filter(pr@));
        }
        while i < n
            invariant
                n == self.ranges.len(),
                i <= n,
                pl@ == (|rg: RangeData| p_left(rg, start)),
                pm@ == (|rg: RangeData| p_mid(rg, start, end)),
                pr@ == (|rg: RangeData| p_right(rg, start, end)),
                range_views(left_v@) == self@.subrange(0, i as int).filter(pl@),
                range_views(mid_v@) == self@.subrange(0, i as int).filter(pm@),
                range_views(right_v@) == self@.subrange(0, i as int).filter(pr@),
            decreases n - i,
        {
            let rg = &self.ranges[i];
            proof {
                lemma_filter_extend(self@, pl@, i as int);
                lemma_filter_extend(self@, pm@, i as int);
                lemma_filter_extend(self@, pr@, i as int);
            }
            if rg.get_end() <= start {
                let ghost pre = left_v@;
                left_v.push(rg.clone());
                proof {
                    assert(range_views(left_v@) =~= range_views(pre).push(self@[i as int]));
                }
            } else if rg.get_start() < end {
                let ghost pre = mid_v@;
                mid_v.push(rg.clone());
                proof {
                    assert(range_views(mid_v@) =~= range_views(pre).push(self@[i as int]));
                }
            } else {
                let ghost pre = right_v@;
                right_v.push(rg.clone());
                proof {
                    assert(range_views(right_v@) =~= range_views(pre).push(self@[i as int]));
                }
            }
            i += 1;
        }
        let ghost s0 = self@;
        proof {
            assert(s0.subrange(0, n as int) =~= s0);
        }
        let mut out = left_v;
        if mid_v.len() > 0 {
            let first = &mid_v[0];
            if first.get_start() < start {
                let lr = Range::new(first.get_start(), start, first.get_value());
                out.push(lr);
            }
        }
        out.push(Range::new(start, end, value));
        if mid_v.len() > 0 {
            let last = &mid_v[mid_v.len() - 1];
            if last.get_end() > end {
                let rr = Range::new(end, last.get_end(), last.get_value());
                out.push(rr);
            }
        }
        out.append(&mut right_v);
        self.ranges = out;
        proof {
            assert(self@ =~= spec_store_put(s0, start, end, value@));
            lemma_store_put_props(s0, start, end, value@);
        }
        Ok(())
    }
}

} // verus!
