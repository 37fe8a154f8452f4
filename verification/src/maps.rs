//! Small association maps kept in parallel vectors, with a `Map` view.
//!
//! The aggregation state needs three maps (directory path to statistics,
//! owner to totals, time bucket to size). They are kept as parallel vectors
//! of keys and values whose keys are pairwise distinct; `kv_map` gives the
//! mathematical map that such a pair of vectors denotes.

use vstd::prelude::*;

use crate::stats::DirStat;

verus! {

/// The map denoted by the first `n` entries of the parallel vectors.
pub open spec fn kv_map<K, V>(keys: Seq<K>, vals: Seq<V>, n: int) -> Map<K, V>
    decreases n,
{
    if n <= 0 {
        Map::empty()
    } else {
        kv_map(keys, vals, n - 1).insert(keys[n - 1], vals[n - 1])
    }
}

/// No key occurs twice among the first `n`.
pub open spec fn distinct_upto<K>(keys: Seq<K>, n: int) -> bool {
    forall|i: int, j: int| 0 <= i < j < n ==> keys[i] != keys[j]
}

/// A key is in the map's domain exactly when it stands among the first `n`
/// keys.
pub proof fn lemma_kv_dom<K, V>(keys: Seq<K>, vals: Seq<V>, n: int)
    requires
        n <= keys.len(),
        n <= vals.len(),
    ensures
        forall|i: int| 0 <= i < n ==> kv_map(keys, vals, n).dom().contains(#[trigger] keys[i]),
        forall|k: K|
            #[trigger] kv_map(keys, vals, n).dom().contains(k) ==> exists|i: int|
                0 <= i < n && keys[i] == k,
    decreases n,
{
    if n > 0 {
        lemma_kv_dom(keys, vals, n - 1);
        assert forall|k: K| #[trigger] kv_map(keys, vals, n).dom().contains(k) implies exists|i: int|
            0 <= i < n && keys[i] == k by {
            if k == keys[n - 1] {
                assert(0 <= n - 1 < n && keys[n - 1] == k);
            } else {
                assert(kv_map(keys, vals, n - 1).dom().contains(k));
            }
        }
    }
}

/// With distinct keys, the map sends the `i`-th key to the `i`-th value.
pub proof fn lemma_kv_get<K, V>(keys: Seq<K>, vals: Seq<V>, n: int, i: int)
    requires
        n <= keys.len(),
        n <= vals.len(),
        distinct_upto(keys, n),
        0 <= i < n,
    ensures
        kv_map(keys, vals, n).dom().contains(keys[i]),
        kv_map(keys, vals, n)[keys[i]] == vals[i],
    decreases n,
{
    if i < n - 1 {
        lemma_kv_get(keys, vals, n - 1, i);
    }
}

/// The map only reads the first `n` entries of either vector.
pub proof fn lemma_kv_prefix<K, V>(keys1: Seq<K>, vals1: Seq<V>, keys2: Seq<K>, vals2: Seq<V>, n: int)
    requires
        n <= keys1.len(),
        n <= vals1.len(),
        forall|i: int| 0 <= i < n ==> keys1[i] == keys2[i] && vals1[i] == vals2[i],
    ensures
        kv_map(keys1, vals1, n) == kv_map(keys2, vals2, n),
    decreases n,
{
    if n > 0 {
        lemma_kv_prefix(keys1, vals1, keys2, vals2, n - 1);
    }
}

/// Overwriting the `i`-th value is an insert at the `i`-th key.
pub proof fn lemma_kv_update<K, V>(keys: Seq<K>, vals: Seq<V>, n: int, i: int, v: V)
    requires
        n <= keys.len(),
        n <= vals.len(),
        distinct_upto(keys, n),
        0 <= i < n,
    ensures
        kv_map(keys, vals.update(i, v), n) == kv_map(keys, vals, n).insert(keys[i], v),
    decreases n,
{
    let vals2 = vals.update(i, v);
    if i == n - 1 {
        assert(forall|j: int| 0 <= j < n - 1 ==> keys[j] == keys[j] && vals2[j] == vals[j]);
        lemma_kv_prefix(keys, vals2, keys, vals, n - 1);
        assert(kv_map(keys, vals2, n) =~= kv_map(keys, vals, n).insert(keys[i], v));
    } else {
        lemma_kv_update(keys, vals, n - 1, i, v);
        assert(kv_map(keys, vals2, n) =~= kv_map(keys, vals, n).insert(keys[i], v));
    }
}

/// Appending a fresh key/value pair is an insert.
pub proof fn lemma_kv_push<K, V>(keys: Seq<K>, vals: Seq<V>, k: K, v: V)
    requires
        keys.len() == vals.len(),
    ensures
        kv_map(keys.push(k), vals.push(v), keys.len() as int + 1) == kv_map(keys, vals, keys.len() as int).insert(k, v),
{
    let n = keys.len() as int;
    assert(keys.push(k)[n] == k);
    assert(vals.push(v)[n] == v);
    assert(forall|i: int| 0 <= i < n ==> keys.push(k)[i] == keys[i] && vals.push(v)[i] == vals[i]);
    lemma_kv_prefix(keys.push(k), vals.push(v), keys, vals, n);
}

/// With distinct keys the domain has exactly `n` elements.
pub proof fn lemma_kv_card<K, V>(keys: Seq<K>, vals: Seq<V>, n: int)
    requires
        n <= keys.len(),
        n <= vals.len(),
        distinct_upto(keys, n),
        0 <= n,
    ensures
        kv_map(keys, vals, n).dom().finite(),
        kv_map(keys, vals, n).dom().len() == n,
    decreases n,
{
    if n > 0 {
        lemma_kv_card(keys, vals, n - 1);
        lemma_kv_dom(keys, vals, n - 1);
        assert(!kv_map(keys, vals, n - 1).dom().contains(keys[n - 1]));
    }
}

/// The directory tree: one statistics node per distinct path ever observed,
/// placeholders included.
pub struct DirTree {
    pub keys: Vec<String>,
    pub stats: Vec<DirStat>,
}

impl DirTree {
    pub open spec fn key_views(self) -> Seq<Seq<char>> {
        self.keys@.map_values(|k: String| k@)
    }

    pub open spec fn num(self) -> int {
        self.keys@.len() as int
    }

    pub open spec fn wf(self) -> bool {
        &&& self.keys@.len() == self.stats@.len()
        &&& distinct_upto(self.key_views(), self.num())
    }

    /// The mapping from path to statistics that the tree denotes.
    pub open spec fn as_map(self) -> Map<Seq<char>, DirStat> {
        kv_map(self.key_views(), self.stats@, self.num())
    }

    pub fn new() -> (r: DirTree)
        ensures
            r.wf(),
            r.as_map() == Map::<Seq<char>, DirStat>::empty(),
            r.keys@.len() == 0,
    {
        DirTree { keys: Vec::new(), stats: Vec::new() }
    }

    pub fn len(&self) -> (r: usize)
        ensures
            r == self.keys@.len(),
    {
        self.keys.len()
    }

    /// Index of the node at `key`, if the tree has one.
    pub fn find(&self, key: &String) -> (r: Option<usize>)
        requires
            self.wf(),
        ensures
            match r {
                Some(i) => {
                    &&& 0 <= i < self.keys@.len()
                    &&& self.key_views()[i as int] == key@
                    &&& self.as_map().dom().contains(key@)
                    &&& self.as_map()[key@] == self.stats@[i as int]
                },
                None => !self.as_map().dom().contains(key@),
            },
    {
        let n = self.keys.len();
        let mut i: usize = 0;
        while i < n
            invariant
                0 <= i <= n,
                n == self.keys@.len(),
                self.wf(),
                forall|j: int| 0 <= j < i ==> self.key_views()[j] != key@,
            decreases n - i,
        {
            if self.keys[i] == *key {
                proof {
                    assert(self.key_views()[i as int] == key@);
                    lemma_kv_get(self.key_views(), self.stats@, self.num(), i as int);
                }
                return Some(i);
            }
            proof {
                assert(self.key_views()[i as int] == self.keys@[i as int]@);
            }
            i = i + 1;
        }
        proof {
            lemma_kv_dom(self.key_views(), self.stats@, self.num());
        }
        None
    }

    pub fn stat_at(&self, i: usize) -> (r: DirStat)
        requires
            i < self.stats@.len(),
        ensures
            r == self.stats@[i as int],
    {
        self.stats[i]
    }

    /// Overwrite the node at index `i`.
    pub fn set_at(&mut self, i: usize, d: DirStat)
        requires
            old(self).wf(),
            i < old(self).stats@.len(),
        ensures
            final(self).wf(),
            final(self).keys == old(self).keys,
            final(self).stats@ == old(self).stats@.update(i as int, d),
            final(self).as_map() == old(self).as_map().insert(old(self).key_views()[i as int], d),
    {
        proof {
            lemma_kv_update(self.key_views(), self.stats@, self.num(), i as int, d);
        }
        self.stats[i] = d;
    }

    /// Add a node for a path the tree does not hold yet.
    pub fn push_new(&mut self, key: String, d: DirStat)
        requires
            old(self).wf(),
            !old(self).as_map().dom().contains(key@),
        ensures
            final(self).wf(),
            final(self).as_map() == old(self).as_map().insert(key@, d),
            final(self).keys@.len() == old(self).keys@.len() + 1,
            final(self).key_views() == old(self).key_views().push(key@),
            final(self).stats@ == old(self).stats@.push(d),
    {
        proof {
            lemma_kv_dom(old(self).key_views(), old(self).stats@, old(self).num());
            assert(forall|j: int| 0 <= j < old(self).keys@.len() ==> old(self).key_views()[j] != key@);
            lemma_kv_push(old(self).key_views(), old(self).stats@, key@, d);
        }
        let ghost old_kv = self.key_views();
        self.keys.push(key);
        self.stats.push(d);
        proof {
            assert(self.key_views() =~= old_kv.push(self.keys@.last()@));
        }
    }
}

/// Per-owner totals: accumulated size in bytes and entry count.
pub struct UserMap {
    pub keys: Vec<String>,
    pub vals: Vec<(u64, u64)>,
}

/// The pair an owner's totals become when one more entry of `size` bytes is
/// folded in.
pub open spec fn user_bumped(m: Map<Seq<char>, (u64, u64)>, u: Seq<char>, size: u64) -> (u64, u64) {
    if m.dom().contains(u) {
        (((m[u].0 + size) as u64), ((m[u].1 + 1) as u64))
    } else {
        (size, 1)
    }
}

impl UserMap {
    pub open spec fn key_views(self) -> Seq<Seq<char>> {
        self.keys@.map_values(|k: String| k@)
    }

    pub open spec fn num(self) -> int {
        self.keys@.len() as int
    }

    pub open spec fn wf(self) -> bool {
        &&& self.keys@.len() == self.vals@.len()
        &&& distinct_upto(self.key_views(), self.num())
    }

    pub open spec fn as_map(self) -> Map<Seq<char>, (u64, u64)> {
        kv_map(self.key_views(), self.vals@, self.num())
    }

    pub fn new() -> (r: UserMap)
        ensures
            r.wf(),
            r.as_map() == Map::<Seq<char>, (u64, u64)>::empty(),
            r.keys@.len() == 0,
    {
        UserMap { keys: Vec::new(), vals: Vec::new() }
    }

    /// Fold one entry owned by `user` into the totals.
    pub fn bump(&mut self, user: &String, size: u64)
        requires
            old(self).wf(),
            old(self).as_map().dom().contains(user@) ==> {
                &&& old(self).as_map()[user@].0 + size <= u64::MAX
                &&& old(self).as_map()[user@].1 < u64::MAX
            },
        ensures
            final(self).wf(),
            final(self).as_map() == old(self).as_map().insert(
                user@,
                user_bumped(old(self).as_map(), user@, size),
            ),
            final(self).vals@.len() == if old(self).as_map().dom().contains(user@) {
                old(self).vals@.len() as int
            } else {
                old(self).vals@.len() as int + 1
            },
            forall|i: int|
                0 <= i < final(self).vals@.len() ==> {
                    ||| final(self).vals@[i] == user_bumped(old(self).as_map(), user@, size)
                    ||| (i < old(self).vals@.len() && final(self).vals@[i] == old(self).vals@[i])
                },
    {
        let n = self.keys.len();
        let mut i: usize = 0;
        while i < n
            invariant
                0 <= i <= n,
                n == self.keys@.len(),
                self == old(self),
                self.wf(),
                old(self).as_map().dom().contains(user@) ==> {
                    &&& old(self).as_map()[user@].0 + size <= u64::MAX
                    &&& old(self).as_map()[user@].1 < u64::MAX
                },
                forall|j: int| 0 <= j < i ==> self.key_views()[j] != user@,
            decreases n - i,
        {
            if self.keys[i] == *user {
                proof {
                    assert(self.key_views()[i as int] == user@);
                    lemma_kv_get(self.key_views(), self.vals@, self.num(), i as int);
                    lemma_kv_update(
                        self.key_views(),
                        self.vals@,
                        self.num(),
                        i as int,
                        user_bumped(self.as_map(), user@, size),
                    );
                }
                let (s, c) = self.vals[i];
                self.vals[i] = (s + size, c + 1);
                return ;
            }
            proof {
                assert(self.key_views()[i as int] == self.keys@[i as int]@);
            }
            i = i + 1;
        }
        proof {
            lemma_kv_dom(self.key_views(), self.vals@, self.num());
            lemma_kv_push(self.key_views(), self.vals@, user@, (size, 1u64));
        }
        let ghost old_kv = self.key_views();
        self.keys.push(user.clone());
        self.vals.push((size, 1));
        proof {
            assert(self.key_views() =~= old_kv.push(self.keys@.last()@));
        }
    }
}

impl UserMap {
    /// The totals recorded for one owner, if any.
    pub fn get(&self, user: &String) -> (r: Option<(u64, u64)>)
        requires
            self.wf(),
        ensures
            match r {
                Some(v) => self.as_map().dom().contains(user@) && self.as_map()[user@] == v,
                None => !self.as_map().dom().contains(user@),
            },
    {
        let n = self.keys.len();
        let mut i: usize = 0;
        while i < n
            invariant
                0 <= i <= n,
                n == self.keys@.len(),
                self.wf(),
                forall|j: int| 0 <= j < i ==> self.key_views()[j] != user@,
            decreases n - i,
        {
            if self.keys[i] == *user {
                proof {
                    assert(self.key_views()[i as int] == user@);
                    lemma_kv_get(self.key_views(), self.vals@, self.num(), i as int);
                }
                return Some(self.vals[i]);
            }
            proof {
                assert(self.key_views()[i as int] == self.keys@[i as int]@);
            }
            i = i + 1;
        }
        proof {
            lemma_kv_dom(self.key_views(), self.vals@, self.num());
        }
        None
    }
}

/// Space accumulated per fixed-width time bucket, keyed by the bucket's
/// start (epoch milliseconds).
pub struct TimeMap {
    pub keys: Vec<u64>,
    pub vals: Vec<u64>,
}

/// The size a bucket grows to when one more entry is folded in.
pub open spec fn time_bumped(m: Map<u64, u64>, k: u64, size: u64) -> u64 {
    if m.dom().contains(k) {
        (m[k] + size) as u64
    } else {
        size
    }
}

impl TimeMap {
    pub open spec fn num(self) -> int {
        self.keys@.len() as int
    }

    pub open spec fn wf(self) -> bool {
        &&& self.keys@.len() == self.vals@.len()
        &&& distinct_upto(self.keys@, self.num())
    }

    pub open spec fn as_map(self) -> Map<u64, u64> {
        kv_map(self.keys@, self.vals@, self.num())
    }

    pub fn new() -> (r: TimeMap)
        ensures
            r.wf(),
            r.as_map() == Map::<u64, u64>::empty(),
            r.keys@.len() == 0,
    {
        TimeMap { keys: Vec::new(), vals: Vec::new() }
    }

    /// Fold `size` bytes into the bucket starting at `key`.
    pub fn bump(&mut self, key: u64, size: u64)
        requires
            old(self).wf(),
            old(self).as_map().dom().contains(key) ==> old(self).as_map()[key] + size <= u64::MAX,
        ensures
            final(self).wf(),
            final(self).as_map() == old(self).as_map().insert(
                key,
                time_bumped(old(self).as_map(), key, size),
            ),
            forall|i: int|
                0 <= i < final(self).vals@.len() ==> {
                    ||| final(self).vals@[i] == time_bumped(old(self).as_map(), key, size)
                    ||| (i < old(self).vals@.len() && final(self).vals@[i] == old(self).vals@[i])
                },
    {
        let n = self.keys.len();
        let mut i: usize = 0;
        while i < n
            invariant
                0 <= i <= n,
                n == self.keys@.len(),
                self == old(self),
                self.wf(),
                old(self).as_map().dom().contains(key) ==> old(self).as_map()[key] + size
                    <= u64::MAX,
                forall|j: int| 0 <= j < i ==> self.keys@[j] != key,
            decreases n - i,
        {
            if self.keys[i] == key {
                proof {
                    lemma_kv_get(self.keys@, self.vals@, self.num(), i as int);
                    lemma_kv_update(
                        self.keys@,
                        self.vals@,
                        self.num(),
                        i as int,
                        time_bumped(self.as_map(), key, size),
                    );
                }
                let v = self.vals[i];
                self.vals[i] = v + size;
                return ;
            }
            i = i + 1;
        }
        proof {
            lemma_kv_dom(self.keys@, self.vals@, self.num());
            lemma_kv_push(self.keys@, self.vals@, key, size);
        }
        self.keys.push(key);
        self.vals.push(size);
    }

    /// The size accumulated in one bucket, if any.
    pub fn get(&self, key: u64) -> (r: Option<u64>)
        requires
            self.wf(),
        ensures
            match r {
                Some(v) => self.as_map().dom().contains(key) && self.as_map()[key] == v,
                None => !self.as_map().dom().contains(key),
            },
    {
        let n = self.keys.len();
        let mut i: usize = 0;
        while i < n
            invariant
                0 <= i <= n,
                n == self.keys@.len(),
                self.wf(),
                forall|j: int| 0 <= j < i ==> self.keys@[j] != key,
            decreases n - i,
        {
            if self.keys[i] == key {
                proof {
                    lemma_kv_get(self.keys@, self.vals@, self.num(), i as int);
                }
                return Some(self.vals[i]);
            }
            i = i + 1;
        }
        proof {
            lemma_kv_dom(self.keys@, self.vals@, self.num());
        }
        None
    }
}

} // verus!
