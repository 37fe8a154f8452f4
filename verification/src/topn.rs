//! Bounded top-N selection: a fixed-capacity retention structure that keeps
//! only the N largest candidates seen so far, and the descending sort used
//! when the selection is drained into a report.
//!
//! A candidate is admitted unconditionally while fewer than N entries are
//! held; once full, a candidate is admitted only if its metric strictly
//! exceeds the current minimum, which is evicted.

use vstd::prelude::*;

verus! {

/// One retained candidate: a tracked name (a path or an owner), the metric
/// it is ranked by, and the timestamp range that travels with it.
#[derive(Debug)]
pub struct TopEntry {
    pub size: u64,
    pub track: String,
    pub oldest: u64,
    pub newest: u64,
}

impl TopEntry {
    /// An equal copy of this entry.
    pub fn duplicate(&self) -> (r: TopEntry)
        ensures
            r == *self,
    {
        TopEntry { size: self.size, track: self.track.clone(), oldest: self.oldest, newest: self.newest }
    }
}

/// Index of the first entry with minimal metric.
pub open spec fn min_idx(s: Seq<TopEntry>) -> int
    decreases s.len(),
{
    if s.len() <= 1 {
        0
    } else {
        let m = min_idx(s.drop_last());
        if s.last().size < s[m].size {
            s.len() - 1
        } else {
            m
        }
    }
}

pub proof fn lemma_min_idx(s: Seq<TopEntry>)
    requires
        s.len() > 0,
    ensures
        0 <= min_idx(s) < s.len(),
        forall|i: int| 0 <= i < s.len() ==> s[min_idx(s)].size <= #[trigger] s[i].size,
    decreases s.len(),
{
    if s.len() > 1 {
        lemma_min_idx(s.drop_last());
        assert(forall|i: int| 0 <= i < s.len() - 1 ==> s[i] == s.drop_last()[i]);
    }
}

/// The whole effect of offering one candidate to a selection bounded by
/// `limit`.
pub open spec fn spec_offer(s: Seq<TopEntry>, e: TopEntry, limit: int) -> Seq<TopEntry> {
    if limit <= 0 {
        s
    } else if s.len() < limit {
        s.push(e)
    } else if s[min_idx(s)].size < e.size {
        s.update(min_idx(s), e)
    } else {
        s
    }
}

/// The selection left after offering every candidate in turn.
pub open spec fn fold_offers(cands: Seq<TopEntry>, limit: int) -> Seq<TopEntry>
    decreases cands.len(),
{
    if cands.len() == 0 {
        Seq::empty()
    } else {
        spec_offer(fold_offers(cands.drop_last(), limit), cands.last(), limit)
    }
}

/// Offer one candidate to the bounded selection held in `heap`.
pub fn track_top_n(heap: &mut Vec<TopEntry>, track: &String, size: u64, limit: usize, oldest: u64, newest: u64)
    ensures
        final(heap)@ == spec_offer(
            old(heap)@,
            TopEntry { size: size, track: *track, oldest: oldest, newest: newest },
            limit as int,
        ),
{
    if limit == 0 {
        return ;
    }
    if heap.len() < limit {
        heap.push(TopEntry { size: size, track: track.clone(), oldest: oldest, newest: newest });
        return ;
    }
    let mut best: usize = 0;
    let mut i: usize = 1;
    while i < heap.len()
        invariant
            1 <= i <= heap@.len(),
            0 <= best < i,
            heap@.len() > 0,
            best as int == min_idx(heap@.take(i as int)),
        decreases heap@.len() - i,
    {
        assert(heap@.take(i as int + 1).drop_last() =~= heap@.take(i as int));
        assert(heap@.take(i as int + 1).last() == heap@[i as int]);
        if heap[i].size < heap[best].size {
            best = i;
        }
        i = i + 1;
    }
    assert(heap@.take(heap@.len() as int) =~= heap@);
    proof {
        lemma_min_idx(heap@);
    }
    if heap[best].size < size {
        heap[best] = TopEntry { size: size, track: track.clone(), oldest: oldest, newest: newest };
    }
}

/// The selection never holds more than `limit` entries, and once every
/// candidate has been offered it holds exactly `min(limit, candidates)`.
pub proof fn lemma_top_n_len(cands: Seq<TopEntry>, limit: int)
    requires
        limit >= 0,
    ensures
        fold_offers(cands, limit).len() == if cands.len() < limit {
            cands.len() as int
        } else {
            limit
        },
    decreases cands.len(),
{
    if cands.len() > 0 {
        lemma_top_n_len(cands.drop_last(), limit);
        let r = fold_offers(cands.drop_last(), limit);
        if limit > 0 && r.len() >= limit {
            lemma_min_idx(r);
        }
    }
}

/// A bounded selection never holds more than `limit` entries, at any point
/// while the candidates are offered one by one.
pub proof fn lemma_top_n_bounded(cands: Seq<TopEntry>, limit: int, k: int)
    requires
        limit >= 0,
        0 <= k <= cands.len(),
    ensures
        fold_offers(cands.take(k), limit).len() <= limit,
{
    lemma_top_n_len(cands.take(k), limit);
}

/// A selection bounded by `limit` that saw few enough candidates keeps them
/// all, in order.
pub proof fn lemma_fold_small(cands: Seq<TopEntry>, limit: int)
    requires
        cands.len() <= limit,
    ensures
        fold_offers(cands, limit) == cands,
    decreases cands.len(),
{
    if cands.len() > 0 {
        lemma_fold_small(cands.drop_last(), limit);
        lemma_top_n_len(cands.drop_last(), limit);
        assert(fold_offers(cands, limit) =~= cands);
    }
}

/// What the drained selection holds: only offered candidates, and every
/// candidate it dropped is no larger than anything it kept.
pub proof fn lemma_top_n_contents(cands: Seq<TopEntry>, limit: int)
    requires
        limit >= 0,
    ensures
        forall|j: int|
            0 <= j < fold_offers(cands, limit).len() ==> cands.contains(
                #[trigger] fold_offers(cands, limit)[j],
            ),
        forall|i: int|
            0 <= i < cands.len() && !fold_offers(cands, limit).contains(#[trigger] cands[i])
                ==> forall|j: int|
                0 <= j < fold_offers(cands, limit).len() ==> cands[i].size <= #[trigger] fold_offers(
                    cands,
                    limit,
                )[j].size,
    decreases cands.len(),
{
    if cands.len() > 0 {
        let prev = cands.drop_last();
        let e = cands.last();
        let r = fold_offers(prev, limit);
        let r2 = fold_offers(cands, limit);
        lemma_top_n_contents(prev, limit);
        lemma_top_n_len(prev, limit);
        assert(forall|i: int| 0 <= i < prev.len() ==> prev[i] == cands[i]);
        assert(forall|x: TopEntry| prev.contains(x) ==> cands.contains(x));
        assert(cands[cands.len() - 1] == e);
        assert(cands.contains(e));
        if limit <= 0 {
            assert(r2 == r);
        } else if r.len() < limit {
            // every earlier candidate was kept, so nothing has been dropped yet
            lemma_fold_small(prev, limit);
            assert(r2 == prev.push(e));
            assert forall|i: int| 0 <= i < cands.len() implies r2.contains(#[trigger] cands[i]) by {
                assert(r2[i] == cands[i]);
            }
        } else {
            lemma_min_idx(r);
            let m = min_idx(r);
            if r[m].size < e.size {
                assert(r2 == r.update(m, e));
                assert(r2[m] == e);
                assert(forall|j: int| 0 <= j < r2.len() && j != m ==> r2[j] == r[j]);
                assert forall|i: int|
                    0 <= i < cands.len() && !r2.contains(#[trigger] cands[i]) implies forall|j: int|
                    0 <= j < r2.len() ==> cands[i].size <= #[trigger] r2[j].size by {
                    let c = cands[i];
                    if i == cands.len() - 1 {
                        assert(r2.contains(e));
                        assert(false);
                    } else {
                        if r.contains(c) {
                            // it can only have sat in the evicted slot
                            let jc = choose|jc: int| 0 <= jc < r.len() && r[jc] == c;
                            if jc != m {
                                assert(r2[jc] == c);
                                assert(false);
                            } else {
                                // the evicted entry was a minimum of the old selection
                                assert(c == r[m]);
                                assert(forall|j: int|
                                    0 <= j < r2.len() && j != m ==> c.size <= #[trigger] r2[j].size);
                                assert(c.size <= r2[m].size);
                            }
                        } else {
                            assert(forall|j: int| 0 <= j < r.len() ==> c.size <= #[trigger] r[j].size);
                            assert(c.size <= r[m].size);
                            assert(forall|j: int|
                                0 <= j < r2.len() && j != m ==> c.size <= #[trigger] r2[j].size);
                        }
                    }
                }
            } else {
                assert(r2 == r);
                assert(forall|j: int| 0 <= j < r.len() ==> e.size <= r[m].size <= #[trigger] r[j].size);
            }
        }
    }
}

/// Descending order by the ranking metric.
pub open spec fn sorted_desc(s: Seq<TopEntry>) -> bool {
    forall|i: int, j: int| 0 <= i < j < s.len() ==> s[i].size >= s[j].size
}

/// Drain a selection into a vector sorted descending by metric. Ties keep
/// no specified order.
pub fn to_sort_vec(heap: &Vec<TopEntry>) -> (r: Vec<TopEntry>)
    ensures
        r@.to_multiset() == heap@.to_multiset(),
        sorted_desc(r@),
        r@.len() == heap@.len(),
{
    broadcast use vstd::seq_lib::group_to_multiset_ensures;

    let mut rest: Vec<TopEntry> = Vec::new();
    let mut i: usize = 0;
    while i < heap.len()
        invariant
            0 <= i <= heap@.len(),
            rest@ =~= heap@.take(i as int),
        decreases heap@.len() - i,
    {
        rest.push(heap[i].duplicate());
        assert(rest@ =~= heap@.take(i as int + 1));
        i = i + 1;
    }
    assert(rest@ =~= heap@);
    let mut out: Vec<TopEntry> = Vec::new();
    while rest.len() > 0
        invariant
            out@.to_multiset().add(rest@.to_multiset()) == heap@.to_multiset(),
            sorted_desc(out@),
            forall|a: int, b: int|
                0 <= a < out@.len() && 0 <= b < rest@.len() ==> out@[a].size >= rest@[b].size,
            out@.len() + rest@.len() == heap@.len(),
        decreases rest@.len(),
    {
        let mut best: usize = 0;
        let mut k: usize = 1;
        while k < rest.len()
            invariant
                1 <= k <= rest@.len(),
                0 <= best < k,
                forall|t: int| 0 <= t < k ==> rest@[t].size <= rest@[best as int].size,
            decreases rest@.len() - k,
        {
            if rest[k].size > rest[best].size {
                best = k;
            }
            k = k + 1;
        }
        let ghost old_out = out@;
        let ghost old_rest = rest@;
        let e = rest.remove(best);
        out.push(e);
        proof {
            broadcast use vstd::seq_lib::group_to_multiset_ensures;
            broadcast use vstd::multiset::group_multiset_axioms;

            assert(e == old_rest[best as int]);
            assert(old_rest.contains(e));
            assert(rest@ == old_rest.remove(best as int));
            assert(out@ == old_out.push(e));
            vstd::seq_lib::to_multiset_remove(old_rest, best as int);
            vstd::seq_lib::to_multiset_build(old_out, e);
            assert(old_rest.to_multiset().count(e) > 0);
            assert(out@.to_multiset().add(rest@.to_multiset()) =~= old_out.to_multiset().add(
                old_rest.to_multiset(),
            ));
            assert forall|b: int| 0 <= b < rest@.len() implies e.size >= rest@[b].size by {
                if b < best {
                    assert(rest@[b] == old_rest[b]);
                } else {
                    assert(rest@[b] == old_rest[b + 1]);
                }
            }
        }
    }
    out
}

} // verus!
