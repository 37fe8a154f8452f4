//! Path handling: the parent of a path string and the chain of ancestors,
//! used when a file's statistics are folded into every directory above it.
//!
//! A path is kept as a plain string. Its parent is everything before the
//! last `/`, with three special cases: a path with no `/` at all has the
//! empty string as parent, a path whose only `/` is its first character has
//! the root `/` as parent, and the root itself (and the empty string) has
//! none.

use vstd::prelude::*;

verus! {

/// Index of the last `/` in `p`, if any.
pub open spec fn last_slash(p: Seq<char>) -> Option<int>
    decreases p.len(),
{
    if p.len() == 0 {
        None
    } else if p.last() == '/' {
        Some(p.len() - 1)
    } else {
        last_slash(p.drop_last())
    }
}

/// The parent of path `p`, or `None` for the root `/` and the empty string.
pub open spec fn parent_of(p: Seq<char>) -> Option<Seq<char>> {
    match last_slash(p) {
        None => if p.len() == 0 {
            None
        } else {
            Some(Seq::empty())
        },
        Some(i) => if i == 0 {
            if p.len() == 1 {
                None
            } else {
                Some(p.subrange(0, 1))
            }
        } else {
            Some(p.subrange(0, i))
        },
    }
}

/// What `last_slash` finds: the index of a `/` with no `/` after it, or
/// nothing when the path has no `/` at all.
pub proof fn lemma_last_slash(p: Seq<char>)
    ensures
        match last_slash(p) {
            Some(i) => 0 <= i < p.len() && p[i] == '/' && (forall|j: int|
                i < j < p.len() ==> p[j] != '/'),
            None => forall|j: int| 0 <= j < p.len() ==> p[j] != '/',
        },
    decreases p.len(),
{
    if p.len() > 0 && p.last() != '/' {
        lemma_last_slash(p.drop_last());
        assert(forall|j: int| 0 <= j < p.len() - 1 ==> p[j] == p.drop_last()[j]);
    }
}

/// A parent is strictly shorter than its child, which bounds the ancestor
/// walk.
pub proof fn lemma_parent_shorter(p: Seq<char>)
    ensures
        parent_of(p) matches Some(q) ==> q.len() < p.len(),
{
    lemma_last_slash(p);
}

/// The chain of ancestors of `p`, nearest first: parent, grandparent, and so
/// on up to the root.
pub open spec fn ancestors_of(p: Seq<char>) -> Seq<Seq<char>>
    decreases p.len() via ancestors_of_decreases
{
    match parent_of(p) {
        None => Seq::empty(),
        Some(q) => seq![q] + ancestors_of(q),
    }
}

#[via_fn]
proof fn ancestors_of_decreases(p: Seq<char>) {
    lemma_parent_shorter(p);
}

/// Every ancestor is strictly shorter than the path itself, so no path is
/// its own ancestor and the chain holds no duplicates.
pub proof fn lemma_ancestors_shorter(p: Seq<char>)
    ensures
        forall|k: int| 0 <= k < ancestors_of(p).len() ==> #[trigger] ancestors_of(p)[k].len() < p.len(),
    decreases p.len(),
{
    lemma_parent_shorter(p);
    match parent_of(p) {
        None => {},
        Some(q) => {
            lemma_ancestors_shorter(q);
            assert(forall|k: int|
                1 <= k < ancestors_of(p).len() ==> ancestors_of(p)[k] == ancestors_of(q)[k - 1]);
        },
    }
}

/// A path has no more ancestors than characters, since each ancestor is
/// strictly shorter than the one below it.
pub proof fn lemma_ancestors_count(p: Seq<char>)
    ensures
        ancestors_of(p).len() <= p.len(),
    decreases p.len(),
{
    lemma_parent_shorter(p);
    match parent_of(p) {
        None => {},
        Some(q) => {
            lemma_ancestors_count(q);
        },
    }
}

/// Exec counterpart of `last_slash`: scan the characters from the end.
fn find_last_slash(p: &str) -> (r: Option<usize>)
    ensures
        match r {
            Some(i) => last_slash(p@) == Some(i as int),
            None => last_slash(p@) is None,
        },
{
    proof {
        lemma_last_slash(p@);
    }
    let n: usize = p.unicode_len();
    let mut j: usize = n;
    while j > 0
        invariant
            j <= n,
            n == p@.len(),
            forall|k: int| j <= k < n ==> p@[k] != '/',
        decreases j,
    {
        let c = p.get_char(j - 1);
        if c == '/' {
            proof {
                lemma_last_slash(p@);
            }
            return Some(j - 1);
        }
        j = j - 1;
    }
    None
}

/// Exec counterpart of `parent_of`.
pub fn parent(p: &str) -> (r: Option<String>)
    ensures
        r is Some <==> parent_of(p@) is Some,
        r matches Some(q) ==> parent_of(p@) == Some(q@),
{
    proof {
        lemma_last_slash(p@);
    }
    let n: usize = p.unicode_len();
    match find_last_slash(p) {
        None => {
            if n == 0 {
                None
            } else {
                Some(String::new())
            }
        },
        Some(i) => {
            if i == 0 {
                if n == 1 {
                    None
                } else {
                    Some(p.substring_char(0, 1).to_owned())
                }
            } else {
                Some(p.substring_char(0, i).to_owned())
            }
        },
    }
}

} // verus!
