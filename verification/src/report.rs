//! The drained report: ranked lists prepared from the final aggregation
//! state, ready to be printed. Building the lists is a read-only pass over
//! the state.

use vstd::prelude::*;

use crate::topn::TopEntry;

verus! {

/// Everything the final report contains: the run totals and diagnostics,
/// the per-user rankings, the four directory rankings, the largest files,
/// and the time histogram.
pub struct Report {
    pub num_entries: u64,
    pub total_file_space: u64,
    pub parent_not_found: u64,
    pub parent_filled_in_later: u64,
    /// Every owner with accumulated size, sorted descending by size.
    pub user_by_size: Vec<(String, u64)>,
    /// Every owner with entry count, sorted descending by count.
    pub user_by_count: Vec<(String, u64)>,
    /// Top directories by direct size.
    pub top_size: Vec<TopEntry>,
    /// Top directories by direct entry count.
    pub top_cnt: Vec<TopEntry>,
    /// Top directories by recursive size.
    pub top_size_recur: Vec<TopEntry>,
    /// Top directories by recursive entry count.
    pub top_cnt_recur: Vec<TopEntry>,
    /// The largest individual files, sorted descending by size.
    pub largest_file: Vec<TopEntry>,
    /// Bucket start and accumulated size, sorted descending by bucket start.
    pub time_by_start: Vec<(u64, u64)>,
}

/// Descending order by the numeric half of each pair.
pub open spec fn pairs_sorted_desc(s: Seq<(String, u64)>) -> bool {
    forall|i: int, j: int| 0 <= i < j < s.len() ==> s[i].1 >= s[j].1
}

/// Descending order by the first (key) half of each pair.
pub open spec fn tpairs_sorted_desc(s: Seq<(u64, u64)>) -> bool {
    forall|i: int, j: int| 0 <= i < j < s.len() ==> s[i].0 >= s[j].0
}

/// Sort owner pairs descending by their metric. Ties keep no specified
/// order.
pub fn sort_pairs_desc(input: Vec<(String, u64)>) -> (r: Vec<(String, u64)>)
    ensures
        r@.to_multiset() == input@.to_multiset(),
        pairs_sorted_desc(r@),
        r@.len() == input@.len(),
{
    broadcast use vstd::seq_lib::group_to_multiset_ensures;

    let ghost full = input@;
    let mut rest = input;
    let mut out: Vec<(String, u64)> = Vec::new();
    while rest.len() > 0
        invariant
            out@.to_multiset().add(rest@.to_multiset()) == full.to_multiset(),
            pairs_sorted_desc(out@),
            forall|a: int, b: int|
                0 <= a < out@.len() && 0 <= b < rest@.len() ==> out@[a].1 >= rest@[b].1,
            out@.len() + rest@.len() == full.len(),
        decreases rest@.len(),
    {
        let mut best: usize = 0;
        let mut k: usize = 1;
        while k < rest.len()
            invariant
                1 <= k <= rest@.len(),
                0 <= best < k,
                forall|t: int| 0 <= t < k ==> rest@[t].1 <= rest@[best as int].1,
            decreases rest@.len() - k,
        {
            if rest[k].1 > rest[best].1 {
                best = k;
            }
            k = k + 1;
        }
        let ghost old_out = out@;
        let ghost old_rest = rest@;
        let e = rest.remove(best);
        out.push(e);
        proof {
            broadcast use vstd::seq_lib::group_to_multiset_ensures;
            broadcast use vstd::multiset::group_multiset_axioms;

            assert(e == old_rest[best as int]);
            assert(old_rest.contains(e));
            assert(rest@ == old_rest.remove(best as int));
            assert(out@ == old_out.push(e));
            vstd::seq_lib::to_multiset_remove(old_rest, best as int);
            vstd::seq_lib::to_multiset_build(old_out, e);
            assert(old_rest.to_multiset().count(e) > 0);
            assert(out@.to_multiset().add(rest@.to_multiset()) =~= old_out.to_multiset().add(
                old_rest.to_multiset(),
            ));
            assert forall|b: int| 0 <= b < rest@.len() implies e.1 >= rest@[b].1 by {
                if b < best {
                    assert(rest@[b] == old_rest[b]);
                } else {
                    assert(rest@[b] == old_rest[b + 1]);
                }
            }
        }
    }
    out
}

/// Sort time buckets descending by bucket start. Bucket starts are unique,
/// so the order is total.
pub fn sort_time_desc(input: Vec<(u64, u64)>) -> (r: Vec<(u64, u64)>)
    ensures
        r@.to_multiset() == input@.to_multiset(),
        tpairs_sorted_desc(r@),
        r@.len() == input@.len(),
{
    broadcast use vstd::seq_lib::group_to_multiset_ensures;

    let ghost full = input@;
    let mut rest = input;
    let mut out: Vec<(u64, u64)> = Vec::new();
    while rest.len() > 0
        invariant
            out@.to_multiset().add(rest@.to_multiset()) == full.to_multiset(),
            tpairs_sorted_desc(out@),
            forall|a: int, b: int|
                0 <= a < out@.len() && 0 <= b < rest@.len() ==> out@[a].0 >= rest@[b].0,
            out@.len() + rest@.len() == full.len(),
        decreases rest@.len(),
    {
        let mut best: usize = 0;
        let mut k: usize = 1;
        while k < rest.len()
            invariant
                1 <= k <= rest@.len(),
                0 <= best < k,
                forall|t: int| 0 <= t < k ==> rest@[t].0 <= rest@[best as int].0,
            decreases rest@.len() - k,
        {
            if rest[k].0 > rest[best].0 {
                best = k;
            }
            k = k + 1;
        }
        let ghost old_out = out@;
        let ghost old_rest = rest@;
        let e = rest.remove(best);
        out.push(e);
        proof {
            broadcast use vstd::seq_lib::group_to_multiset_ensures;
            broadcast use vstd::multiset::group_multiset_axioms;

            assert(e == old_rest[best as int]);
            assert(old_rest.contains(e));
            assert(rest@ == old_rest.remove(best as int));
            assert(out@ == old_out.push(e));
            vstd::seq_lib::to_multiset_remove(old_rest, best as int);
            vstd::seq_lib::to_multiset_build(old_out, e);
            assert(old_rest.to_multiset().count(e) > 0);
            assert(out@.to_multiset().add(rest@.to_multiset()) =~= old_out.to_multiset().add(
                old_rest.to_multiset(),
            ));
            assert forall|b: int| 0 <= b < rest@.len() implies e.0 >= rest@[b].0 by {
                if b < best {
                    assert(rest@[b] == old_rest[b]);
                } else {
                    assert(rest@[b] == old_rest[b + 1]);
                }
            }
        }
    }
    out
}

} // verus!
