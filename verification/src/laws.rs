//! What the directory tree amounts to over a whole run: every directory's
//! recursive counters equal the sum over its own records and everything
//! transitively beneath it, and permuting the record sequence changes no
//! directory's totals.

use vstd::prelude::*;

use crate::parse::EntityKind;
use crate::paths::{ancestors_of, lemma_ancestors_shorter, lemma_parent_shorter, parent_of};
use crate::stats::DirStat;
use crate::tracking::{dtree_after, observe_anc, run_dtree, EntityS};

verus! {

/// Whether one entity contributes to the recursive counters at `d`: a
/// directory record at `d` itself, or a file or symbolic link somewhere
/// beneath `d`.
pub open spec fn mentions(e: EntityS, d: Seq<char>) -> bool {
    if e.kind == EntityKind::Directory {
        e.path == d
    } else {
        ancestors_of(e.path).contains(d)
    }
}

/// The bytes `e` adds to the recursive size at `d`.
pub open spec fn size_contrib(e: EntityS, d: Seq<char>) -> nat {
    if mentions(e, d) {
        e.size as nat
    } else {
        0
    }
}

/// The entries `e` adds to the recursive count at `d`.
pub open spec fn count_contrib(e: EntityS, d: Seq<char>) -> nat {
    if mentions(e, d) {
        1
    } else {
        0
    }
}

/// Bytes accumulated at `d` over a whole record sequence.
pub open spec fn subtree_size(es: Seq<EntityS>, d: Seq<char>) -> nat
    decreases es.len(),
{
    if es.len() == 0 {
        0
    } else {
        subtree_size(es.drop_last(), d) + size_contrib(es.last(), d)
    }
}

/// Entries accumulated at `d` over a whole record sequence.
pub open spec fn subtree_count(es: Seq<EntityS>, d: Seq<char>) -> nat
    decreases es.len(),
{
    if es.len() == 0 {
        0
    } else {
        subtree_count(es.drop_last(), d) + count_contrib(es.last(), d)
    }
}

/// Sum of every record's size.
pub open spec fn total_size(es: Seq<EntityS>) -> nat
    decreases es.len(),
{
    if es.len() == 0 {
        0
    } else {
        total_size(es.drop_last()) + es.last().size as nat
    }
}

/// No directory accumulates more than the whole run holds.
proof fn lemma_subtree_le_total(es: Seq<EntityS>, d: Seq<char>)
    ensures
        subtree_size(es, d) <= total_size(es),
        subtree_count(es, d) <= es.len(),
    decreases es.len(),
{
    if es.len() > 0 {
        lemma_subtree_le_total(es.drop_last(), d);
    }
}

/// A directory nothing mentions accumulates nothing.
proof fn lemma_no_mention_zero(es: Seq<EntityS>, d: Seq<char>)
    requires
        forall|i: int| 0 <= i < es.len() ==> !mentions(#[trigger] es[i], d),
    ensures
        subtree_size(es, d) == 0,
        subtree_count(es, d) == 0,
    decreases es.len(),
{
    if es.len() > 0 {
        assert(forall|i: int| 0 <= i < es.len() - 1 ==> es.drop_last()[i] == es[i]);
        lemma_no_mention_zero(es.drop_last(), d);
        assert(!mentions(es[es.len() - 1], d));
    }
}

/// What the ancestor merge does at one fixed path `d`: if `d` is an
/// ancestor of `p` its recursive counters take the entry (a placeholder
/// counts from zero), otherwise its node is untouched.
proof fn lemma_observe_anc_at(
    m: Map<Seq<char>, DirStat>,
    p: Seq<char>,
    size: u64,
    mtime: u64,
    direct: bool,
    d: Seq<char>,
)
    ensures
        ancestors_of(p).contains(d) ==> {
            &&& observe_anc(m, p, size, mtime, direct).0.dom().contains(d)
            &&& observe_anc(m, p, size, mtime, direct).0[d].recurse.entry_cnt == (((if m.dom().contains(d) {
                m[d].recurse.entry_cnt
            } else {
                0u64
            }) + 1) as u64)
            &&& observe_anc(m, p, size, mtime, direct).0[d].recurse.size == (((if m.dom().contains(d) {
                m[d].recurse.size
            } else {
                0u64
            }) + size) as u64)
        },
        !ancestors_of(p).contains(d) ==> {
            &&& (observe_anc(m, p, size, mtime, direct).0.dom().contains(d) <==> m.dom().contains(d))
            &&& (m.dom().contains(d) ==> observe_anc(m, p, size, mtime, direct).0[d] == m[d])
        },
    decreases p.len(),
{
    lemma_parent_shorter(p);
    match parent_of(p) {
        None => {
            assert(ancestors_of(p) =~= Seq::<Seq<char>>::empty());
        },
        Some(q) => {
            let d0 = if m.dom().contains(q) {
                m[q]
            } else {
                DirStat::zero()
            };
            let m1 = m.insert(q, d0.spec_merged(size, mtime, direct));
            lemma_observe_anc_at(m1, q, size, mtime, false, d);
            assert(ancestors_of(p) == seq![q] + ancestors_of(q));
            lemma_ancestors_shorter(q);
            assert forall|x: Seq<char>| ancestors_of(p).contains(x) implies (x == q
                || ancestors_of(q).contains(x)) by {
                let k = choose|k: int| 0 <= k < ancestors_of(p).len() && ancestors_of(p)[k] == x;
                if k > 0 {
                    assert(ancestors_of(q)[k - 1] == x);
                }
            }
            assert forall|x: Seq<char>| (x == q || ancestors_of(q).contains(x)) implies ancestors_of(
                p,
            ).contains(x) by {
                if x == q {
                    assert(ancestors_of(p)[0] == x);
                } else {
                    let k = choose|k: int| 0 <= k < ancestors_of(q).len() && ancestors_of(q)[k] == x;
                    assert(ancestors_of(p)[k + 1] == x);
                }
            }
            if d == q {
                assert forall|k: int| 0 <= k < ancestors_of(q).len() implies ancestors_of(q)[k]
                    != d by {
                    assert(ancestors_of(q)[k].len() < q.len());
                }
                assert(!ancestors_of(q).contains(d));
            }
        },
    }
}

/// The core law of the tree: after any run, every node's recursive size
/// and entry count are exactly the sums of what its own directory records
/// and every file or symbolic link beneath it contributed — and a node
/// exists exactly for the paths some record mentions.
pub proof fn lemma_run_dtree_at(es: Seq<EntityS>, d: Seq<char>)
    requires
        total_size(es) <= u64::MAX,
        es.len() <= u64::MAX,
    ensures
        run_dtree(es).dom().contains(d) <==> exists|i: int|
            0 <= i < es.len() && mentions(#[trigger] es[i], d),
        run_dtree(es).dom().contains(d) ==> run_dtree(es)[d].recurse.size == subtree_size(es, d),
        run_dtree(es).dom().contains(d) ==> run_dtree(es)[d].recurse.entry_cnt == subtree_count(
            es,
            d,
        ),
    decreases es.len(),
{
    if es.len() > 0 {
        let es0 = es.drop_last();
        let e = es.last();
        let m0 = run_dtree(es0);
        let m1 = run_dtree(es);
        lemma_run_dtree_at(es0, d);
        lemma_subtree_le_total(es0, d);
        lemma_subtree_le_total(es, d);
        assert(forall|i: int| 0 <= i < es.len() - 1 ==> es0[i] == es[i]);
        if !m0.dom().contains(d) {
            assert(forall|i: int| 0 <= i < es0.len() ==> !mentions(#[trigger] es0[i], d));
            lemma_no_mention_zero(es0, d);
        }
        if e.kind == EntityKind::Directory {
            if e.path == d {
                assert(mentions(es[es.len() - 1], d));
            } else {
                assert(!mentions(e, d));
                assert(m1.dom().contains(d) <==> m0.dom().contains(d));
                assert(m0.dom().contains(d) ==> m1[d] == m0[d]);
                assert forall|i: int|
                    0 <= i < es.len() && mentions(#[trigger] es[i], d) implies (0 <= i < es0.len()
                    && mentions(es0[i], d)) by {}
            }
        } else {
            lemma_observe_anc_at(m0, e.path, e.size, e.mtime, true, d);
            if ancestors_of(e.path).contains(d) {
                assert(mentions(es[es.len() - 1], d));
            } else {
                assert(!mentions(e, d));
                assert forall|i: int|
                    0 <= i < es.len() && mentions(#[trigger] es[i], d) implies (0 <= i < es0.len()
                    && mentions(es0[i], d)) by {}
            }
        }
    }
}

/// Removing one record takes exactly its contribution out of every sum.
proof fn lemma_contrib_remove(es: Seq<EntityS>, i: int, d: Seq<char>)
    requires
        0 <= i < es.len(),
    ensures
        subtree_size(es, d) == subtree_size(es.remove(i), d) + size_contrib(es[i], d),
        subtree_count(es, d) == subtree_count(es.remove(i), d) + count_contrib(es[i], d),
        total_size(es) == total_size(es.remove(i)) + es[i].size,
    decreases es.len(),
{
    if i == es.len() - 1 {
        assert(es.remove(i) =~= es.drop_last());
    } else {
        lemma_contrib_remove(es.drop_last(), i, d);
        assert(es.remove(i).drop_last() =~= es.drop_last().remove(i));
        assert(es.remove(i).last() == es.last());
    }
}

/// The sums only see the multiset of records, not their order.
proof fn lemma_sums_perm(es1: Seq<EntityS>, es2: Seq<EntityS>, d: Seq<char>)
    requires
        es1.to_multiset() == es2.to_multiset(),
    ensures
        subtree_size(es1, d) == subtree_size(es2, d),
        subtree_count(es1, d) == subtree_count(es2, d),
        total_size(es1) == total_size(es2),
        es1.len() == es2.len(),
    decreases es2.len(),
{
    broadcast use vstd::seq_lib::group_to_multiset_ensures;
    broadcast use vstd::multiset::group_multiset_axioms;

    assert(es1.len() == es1.to_multiset().len());
    assert(es2.len() == es2.to_multiset().len());
    if es2.len() > 0 {
        let e = es2.last();
        assert(es2.contains(e));
        assert(es1.to_multiset().count(e) > 0);
        assert(es1.contains(e));
        let i = choose|i: int| 0 <= i < es1.len() && es1[i] == e;
        lemma_contrib_remove(es1, i, d);
        vstd::seq_lib::to_multiset_remove(es1, i);
        assert(es2 == es2.drop_last().push(e));
        vstd::seq_lib::to_multiset_build(es2.drop_last(), e);
        assert(es1.remove(i).to_multiset() =~= es2.drop_last().to_multiset());
        lemma_sums_perm(es1.remove(i), es2.drop_last(), d);
    }
}

/// Order independence: permuting the record sequence changes no
/// directory's recursive size or entry count, nor which nodes exist.
pub proof fn lemma_order_independence(es1: Seq<EntityS>, es2: Seq<EntityS>, d: Seq<char>)
    requires
        es1.to_multiset() == es2.to_multiset(),
        total_size(es1) <= u64::MAX,
        es1.len() <= u64::MAX,
    ensures
        run_dtree(es1).dom().contains(d) <==> run_dtree(es2).dom().contains(d),
        run_dtree(es1).dom().contains(d) ==> run_dtree(es1)[d].recurse.size == run_dtree(
            es2,
        )[d].recurse.size,
        run_dtree(es1).dom().contains(d) ==> run_dtree(es1)[d].recurse.entry_cnt == run_dtree(
            es2,
        )[d].recurse.entry_cnt,
{
    broadcast use vstd::seq_lib::group_to_multiset_ensures;

    lemma_sums_perm(es1, es2, d);
    lemma_run_dtree_at(es1, d);
    lemma_run_dtree_at(es2, d);
    assert forall|i: int| 0 <= i < es1.len() && mentions(#[trigger] es1[i], d) implies exists|j: int|
        0 <= j < es2.len() && mentions(#[trigger] es2[j], d) by {
        assert(es1.contains(es1[i]));
        assert(es2.to_multiset().count(es1[i]) > 0);
        assert(es2.contains(es1[i]));
        let j = choose|j: int| 0 <= j < es2.len() && es2[j] == es1[i];
        assert(mentions(es2[j], d));
    }
    assert forall|j: int| 0 <= j < es2.len() && mentions(#[trigger] es2[j], d) implies exists|i: int|
        0 <= i < es1.len() && mentions(#[trigger] es1[i], d) by {
        assert(es2.contains(es2[j]));
        assert(es1.to_multiset().count(es2[j]) > 0);
        assert(es1.contains(es2[j]));
        let i = choose|i: int| 0 <= i < es1.len() && es1[i] == es2[j];
        assert(mentions(es1[i], d));
    }
}

} // verus!
