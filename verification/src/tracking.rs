//! The aggregation engine: a single consumer owning all accumulated state.
//!
//! `process_entry` folds one validated entity into the state. Directory
//! records create or merge into their own tree node; file and symbolic-link
//! records feed the time histogram and the largest-file selection, and are
//! merged into every ancestor directory, creating zero-valued placeholder
//! nodes for ancestors that have not been seen yet. The merge is tolerant
//! of arbitrary arrival order.

use vstd::prelude::*;

use crate::maps::{
    lemma_kv_card, lemma_kv_dom, lemma_kv_get, time_bumped, user_bumped, DirTree, TimeMap, UserMap,
};
use crate::parse::{EntityKind, FileInfo};
use crate::paths::{
    ancestors_of, lemma_ancestors_count, lemma_ancestors_shorter, lemma_parent_shorter, parent,
    parent_of,
};
use crate::report::{pairs_sorted_desc, tpairs_sorted_desc, sort_pairs_desc, sort_time_desc, Report};
use crate::stats::DirStat;
use crate::topn::{
    fold_offers, lemma_top_n_contents, lemma_top_n_len, sorted_desc, spec_offer, to_sort_vec,
    track_top_n, TopEntry,
};

verus! {

/// The four metrics the directory rankings are drawn by.
#[derive(Clone, Copy, Debug, PartialEq, Eq, Structural)]
pub enum DirMetric {
    DirectSize,
    DirectCnt,
    RecurseSize,
    RecurseCnt,
}

/// The ranking metric a directory node scores under.
pub open spec fn metric_of(sel: DirMetric, d: DirStat) -> u64 {
    match sel {
        DirMetric::DirectSize => d.direct.size,
        DirMetric::DirectCnt => d.direct.entry_cnt,
        DirMetric::RecurseSize => d.recurse.size,
        DirMetric::RecurseCnt => d.recurse.entry_cnt,
    }
}

/// The oldest timestamp that travels with a node under the chosen metric.
pub open spec fn range_oldest(sel: DirMetric, d: DirStat) -> u64 {
    match sel {
        DirMetric::DirectSize => d.direct.oldest,
        DirMetric::DirectCnt => d.direct.oldest,
        DirMetric::RecurseSize => d.recurse.oldest,
        DirMetric::RecurseCnt => d.recurse.oldest,
    }
}

/// The newest timestamp that travels with a node under the chosen metric.
pub open spec fn range_newest(sel: DirMetric, d: DirStat) -> u64 {
    match sel {
        DirMetric::DirectSize => d.direct.newest,
        DirMetric::DirectCnt => d.direct.newest,
        DirMetric::RecurseSize => d.recurse.newest,
        DirMetric::RecurseCnt => d.recurse.newest,
    }
}

/// A ranked entry truly describes a node of the tree: its path is in the
/// tree and its metric and timestamps are that node's.
pub open spec fn dir_entry_ok(t: Tracking, sel: DirMetric, e: TopEntry) -> bool {
    &&& t.dir_map().dom().contains(e.track@)
    &&& e.size == metric_of(sel, t.dir_map()[e.track@])
    &&& e.oldest == range_oldest(sel, t.dir_map()[e.track@])
    &&& e.newest == range_newest(sel, t.dir_map()[e.track@])
}

/// If no entry of `list` names `k`, then `m` (the metric of `k`'s node) is
/// no larger than any listed metric: nothing left out beats anything kept.
pub open spec fn excluded_le(list: Seq<TopEntry>, k: Seq<char>, m: u64) -> bool {
    (forall|j: int| 0 <= j < list.len() ==> (#[trigger] list[j]).track@ != k) ==> (forall|j: int|
        0 <= j < list.len() ==> m <= (#[trigger] list[j]).size)
}

/// Width of one time bucket: seven days in milliseconds.
pub const WEEK_MS: u64 = 1000 * 3600 * 24 * 7;

/// Start of the bucket a modification time falls in.
pub open spec fn bucket_of(t: u64) -> u64 {
    ((t / WEEK_MS) * WEEK_MS) as u64
}

/// The node a directory record leaves at its own path: merged into the
/// existing node as one direct entry, or a fresh self-counted node.
pub open spec fn dir_node_after(m: Map<Seq<char>, DirStat>, p: Seq<char>, size: u64, mtime: u64) -> DirStat {
    if m.dom().contains(p) {
        m[p].spec_merged(size, mtime, true)
    } else {
        DirStat::seeded(size, mtime)
    }
}

/// Effect of merging one file or symbolic-link record into every ancestor
/// of its path: the updated tree, and how many ancestors were missing and
/// were created as placeholders. The nearest ancestor takes the entry as a
/// direct one, every further ancestor recursively only.
pub open spec fn observe_anc(
    m: Map<Seq<char>, DirStat>,
    p: Seq<char>,
    size: u64,
    mtime: u64,
    direct: bool,
) -> (Map<Seq<char>, DirStat>, nat)
    decreases p.len() via observe_anc_decreases
{
    match parent_of(p) {
        None => (m, 0),
        Some(q) => {
            let d0 = if m.dom().contains(q) {
                m[q]
            } else {
                DirStat::zero()
            };
            let missed: nat = if m.dom().contains(q) {
                0
            } else {
                1
            };
            let rec = observe_anc(m.insert(q, d0.spec_merged(size, mtime, direct)), q, size, mtime, false);
            (rec.0, missed + rec.1)
        },
    }
}

#[via_fn]
proof fn observe_anc_decreases(m: Map<Seq<char>, DirStat>, p: Seq<char>, size: u64, mtime: u64, direct: bool) {
    lemma_parent_shorter(p);
}

/// What the directory tree sees of one entity: its kind, path, size and
/// modification time.
pub struct EntityS {
    pub kind: EntityKind,
    pub path: Seq<char>,
    pub size: u64,
    pub mtime: u64,
}

/// The tree-relevant part of a parsed entity.
pub open spec fn entity_of(fi: FileInfo) -> EntityS {
    EntityS { kind: fi.stat.kind, path: fi.path@, size: fi.stat.size, mtime: fi.stat.mod_time }
}

/// The directory tree after one entity: a directory record settles at its
/// own node, anything else is merged into every ancestor.
pub open spec fn dtree_after(m: Map<Seq<char>, DirStat>, e: EntityS) -> Map<Seq<char>, DirStat> {
    if e.kind == EntityKind::Directory {
        m.insert(e.path, dir_node_after(m, e.path, e.size, e.mtime))
    } else {
        observe_anc(m, e.path, e.size, e.mtime, true).0
    }
}

/// The directory tree grown from nothing by a whole sequence of entities.
pub open spec fn run_dtree(es: Seq<EntityS>) -> Map<Seq<char>, DirStat>
    decreases es.len(),
{
    if es.len() == 0 {
        Map::empty()
    } else {
        dtree_after(run_dtree(es.drop_last()), es.last())
    }
}

/// The per-owner totals after one entity: unchanged for an ownerless
/// record, else the owner's pair grows by the entity's size and one entry.
pub open spec fn user_map_after(
    m: Map<Seq<char>, (u64, u64)>,
    user: Option<String>,
    size: u64,
) -> Map<Seq<char>, (u64, u64)> {
    match user {
        Some(u) => m.insert(u@, user_bumped(m, u@, size)),
        None => m,
    }
}

/// All accumulated state, exclusively owned by one consumer: the directory
/// tree, the bounded largest-file selection, per-user totals, the weekly
/// time histogram, and the run's scalar counters.
pub struct Tracking {
    dtree: DirTree,
    largest_file: Vec<TopEntry>,
    largest_user: UserMap,
    largest_time: TimeMap,
    num_entries: u64,
    total_file_space: u64,
    parent_not_found: u64,
    parent_filled_in_later: u64,
}

impl Tracking {
    /// The directory tree as a mapping from path to statistics.
    pub closed spec fn dir_map(self) -> Map<Seq<char>, DirStat> {
        self.dtree.as_map()
    }

    /// Per-owner totals as a mapping from owner to (size, entry count).
    pub closed spec fn user_map(self) -> Map<Seq<char>, (u64, u64)> {
        self.largest_user.as_map()
    }

    /// The histogram as a mapping from bucket start to accumulated size.
    pub closed spec fn time_map(self) -> Map<u64, u64> {
        self.largest_time.as_map()
    }

    /// The current largest-file selection.
    pub closed spec fn top_files(self) -> Seq<TopEntry> {
        self.largest_file@
    }

    pub closed spec fn spec_num_entries(self) -> u64 {
        self.num_entries
    }

    pub closed spec fn spec_total_file_space(self) -> u64 {
        self.total_file_space
    }

    pub closed spec fn spec_parent_not_found(self) -> u64 {
        self.parent_not_found
    }

    pub closed spec fn spec_parent_filled_in_later(self) -> u64 {
        self.parent_filled_in_later
    }

    /// Number of nodes in the directory tree.
    pub closed spec fn num_dirs(self) -> int {
        self.dtree.keys@.len() as int
    }

    /// The state's invariant: the maps are well formed, every directory
    /// node is well formed (direct counters never above recursive ones,
    /// oldest never above newest), and no accumulated quantity exceeds the
    /// run totals, which bounds every addition.
    pub closed spec fn wf(self) -> bool {
        &&& self.dtree.wf()
        &&& self.largest_user.wf()
        &&& self.largest_time.wf()
        &&& forall|i: int|
            0 <= i < self.dtree.stats@.len() ==> {
                &&& (#[trigger] self.dtree.stats@[i]).wf()
                &&& self.dtree.stats@[i].recurse.entry_cnt <= self.num_entries
                &&& self.dtree.stats@[i].recurse.size <= self.total_file_space
            }
        &&& forall|i: int|
            0 <= i < self.largest_user.vals@.len() ==> {
                &&& (#[trigger] self.largest_user.vals@[i]).0 <= self.total_file_space
                &&& self.largest_user.vals@[i].1 <= self.num_entries
            }
        &&& forall|i: int|
            0 <= i < self.largest_time.vals@.len() ==> (#[trigger] self.largest_time.vals@[i])
                <= self.total_file_space
        &&& self.parent_not_found <= self.dtree.keys@.len()
        &&& self.parent_filled_in_later <= self.num_entries
    }

    /// Fresh state: empty maps, empty selection, all counters zero.
    pub fn new() -> (r: Tracking)
        ensures
            r.wf(),
            r.dir_map() == Map::<Seq<char>, DirStat>::empty(),
            r.user_map() == Map::<Seq<char>, (u64, u64)>::empty(),
            r.time_map() == Map::<u64, u64>::empty(),
            r.top_files() == Seq::<TopEntry>::empty(),
            r.spec_num_entries() == 0,
            r.spec_total_file_space() == 0,
            r.spec_parent_not_found() == 0,
            r.spec_parent_filled_in_later() == 0,
            r.num_dirs() == 0,
    {
        let r = Tracking {
            dtree: DirTree::new(),
            largest_file: Vec::new(),
            largest_user: UserMap::new(),
            largest_time: TimeMap::new(),
            num_entries: 0,
            total_file_space: 0,
            parent_not_found: 0,
            parent_filled_in_later: 0,
        };
        assert(r.top_files() =~= Seq::<TopEntry>::empty());
        r
    }

    /// Fold one validated entity into the state.
    ///
    /// The entity count and total space always grow by one entry; the
    /// owner's totals grow when the record names one. A directory record
    /// touches only its own node; a file or symbolic-link record is bucketed
    /// by time, offered to the largest-file selection, and merged into every
    /// ancestor, counting ancestors that had to be created as placeholders.
    pub fn process_entry(&mut self, fi: FileInfo, top_n: usize)
        requires
            old(self).wf(),
            old(self).spec_num_entries() < u64::MAX,
            old(self).spec_total_file_space() + fi.stat.size <= u64::MAX,
            old(self).num_dirs() + fi.path@.len() < u64::MAX,
        ensures
            final(self).wf(),
            final(self).spec_num_entries() == old(self).spec_num_entries() + 1,
            final(self).spec_total_file_space() == old(self).spec_total_file_space() + fi.stat.size,
            final(self).user_map() == user_map_after(old(self).user_map(), fi.user, fi.stat.size),
            final(self).dir_map() == dtree_after(old(self).dir_map(), entity_of(fi)),
            fi.stat.kind == EntityKind::Directory ==> {
                &&& final(self).dir_map() == old(self).dir_map().insert(
                    fi.path@,
                    dir_node_after(old(self).dir_map(), fi.path@, fi.stat.size, fi.stat.mod_time),
                )
                &&& final(self).time_map() == old(self).time_map()
                &&& final(self).top_files() == old(self).top_files()
                &&& final(self).spec_parent_not_found() == old(self).spec_parent_not_found()
                &&& final(self).spec_parent_filled_in_later() == old(
                    self,
                ).spec_parent_filled_in_later() + (if old(self).dir_map().dom().contains(fi.path@) {
                    1int
                } else {
                    0int
                })
            },
            fi.stat.kind != EntityKind::Directory ==> {
                &&& final(self).dir_map() == observe_anc(
                    old(self).dir_map(),
                    fi.path@,
                    fi.stat.size,
                    fi.stat.mod_time,
                    true,
                ).0
                &&& final(self).spec_parent_not_found() == old(self).spec_parent_not_found()
                    + observe_anc(old(self).dir_map(), fi.path@, fi.stat.size, fi.stat.mod_time, true).1
                &&& final(self).time_map() == old(self).time_map().insert(
                    bucket_of(fi.stat.mod_time),
                    time_bumped(old(self).time_map(), bucket_of(fi.stat.mod_time), fi.stat.size),
                )
                &&& final(self).top_files() == spec_offer(
                    old(self).top_files(),
                    TopEntry {
                        size: fi.stat.size,
                        track: fi.path,
                        oldest: fi.stat.mod_time,
                        newest: 0,
                    },
                    top_n as int,
                )
                &&& final(self).spec_parent_filled_in_later() == old(
                    self,
                ).spec_parent_filled_in_later()
            },
    {
        let FileInfo { path, stat, user } = fi;
        self.total_file_space = self.total_file_space + stat.size;
        self.num_entries = self.num_entries + 1;
        match &user {
            Some(u) => {
                proof {
                    let um = self.largest_user;
                    if um.as_map().dom().contains(u@) {
                        lemma_kv_dom(um.key_views(), um.vals@, um.num());
                        let j = choose|j: int| 0 <= j < um.num() && um.key_views()[j] == u@;
                        lemma_kv_get(um.key_views(), um.vals@, um.num(), j);
                    }
                }
                self.largest_user.bump(u, stat.size);
            },
            None => {},
        }
        if stat.kind == EntityKind::Directory {
            match self.dtree.find(&path) {
                Some(i) => {
                    let mut d = self.dtree.stat_at(i);
                    d.merge(stat.size, stat.mod_time, true);
                    self.dtree.set_at(i, d);
                    self.parent_filled_in_later = self.parent_filled_in_later + 1;
                },
                None => {
                    self.dtree.push_new(path, DirStat::new(stat.size, stat.mod_time));
                },
            }
        } else {
            proof {
                assert(stat.mod_time / WEEK_MS * WEEK_MS <= stat.mod_time) by (nonlinear_arith);
                let tm = self.largest_time;
                let b = bucket_of(stat.mod_time);
                if tm.as_map().dom().contains(b) {
                    lemma_kv_dom(tm.keys@, tm.vals@, tm.num());
                    let j = choose|j: int| 0 <= j < tm.num() && tm.keys@[j] == b;
                    lemma_kv_get(tm.keys@, tm.vals@, tm.num(), j);
                }
            }
            let bucket = (stat.mod_time / WEEK_MS) * WEEK_MS;
            self.largest_time.bump(bucket, stat.size);
            track_top_n(&mut self.largest_file, &path, stat.size, top_n, stat.mod_time, 0);

            let ghost m0 = self.dtree.as_map();
            let ghost target = observe_anc(m0, fi.path@, fi.stat.size, fi.stat.mod_time, true);
            let ghost pnf0 = self.parent_not_found;
            let ghost len0 = self.dtree.keys@.len();
            let ghost um1 = self.largest_user;
            let ghost tm1 = self.largest_time;
            let ghost lf1 = self.largest_file@;
            proof {
                lemma_ancestors_count(fi.path@);
                let dt = self.dtree;
                assert forall|k: int|
                    0 <= k < ancestors_of(fi.path@).len() && dt.as_map().dom().contains(
                        #[trigger] ancestors_of(fi.path@)[k],
                    ) implies {
                    &&& dt.as_map()[ancestors_of(fi.path@)[k]].recurse.entry_cnt <= old(
                        self,
                    ).num_entries
                    &&& dt.as_map()[ancestors_of(fi.path@)[k]].recurse.size <= old(
                        self,
                    ).total_file_space
                } by {
                    let a = ancestors_of(fi.path@)[k];
                    lemma_kv_dom(dt.key_views(), dt.stats@, dt.num());
                    let j = choose|j: int| 0 <= j < dt.num() && dt.key_views()[j] == a;
                    lemma_kv_get(dt.key_views(), dt.stats@, dt.num(), j);
                }
            }
            let mut cur = path;
            let mut direct = true;
            loop
                invariant
                    stat == fi.stat,
                    self.dtree.wf(),
                    observe_anc(self.dtree.as_map(), cur@, fi.stat.size, fi.stat.mod_time, direct).0
                        == target.0,
                    pnf0 + target.1 == self.parent_not_found + observe_anc(
                        self.dtree.as_map(),
                        cur@,
                        fi.stat.size,
                        fi.stat.mod_time,
                        direct,
                    ).1,
                    forall|i: int|
                        0 <= i < self.dtree.stats@.len() ==> {
                            &&& (#[trigger] self.dtree.stats@[i]).wf()
                            &&& self.dtree.stats@[i].recurse.entry_cnt <= self.num_entries
                            &&& self.dtree.stats@[i].recurse.size <= self.total_file_space
                        },
                    forall|k: int|
                        0 <= k < ancestors_of(cur@).len() ==> {
                            self.dtree.as_map().dom().contains(#[trigger] ancestors_of(cur@)[k])
                                ==> {
                                &&& self.dtree.as_map()[ancestors_of(cur@)[k]].recurse.entry_cnt
                                    <= old(self).num_entries
                                &&& self.dtree.as_map()[ancestors_of(cur@)[k]].recurse.size <= old(
                                    self,
                                ).total_file_space
                            }
                        },
                    self.parent_not_found <= self.dtree.keys@.len(),
                    self.dtree.keys@.len() + ancestors_of(cur@).len() <= len0 + ancestors_of(
                        fi.path@,
                    ).len(),
                    ancestors_of(fi.path@).len() <= fi.path@.len(),
                    len0 + fi.path@.len() < u64::MAX,
                    old(self).num_entries < u64::MAX,
                    old(self).total_file_space + fi.stat.size <= u64::MAX,
                    self.num_entries == old(self).num_entries + 1,
                    self.total_file_space == old(self).total_file_space + fi.stat.size,
                    self.largest_user == um1,
                    self.largest_time == tm1,
                    self.largest_file@ == lf1,
                    self.parent_filled_in_later == old(self).parent_filled_in_later,
                ensures
                    parent_of(cur@) is None,
                    self.dtree.wf(),
                    self.dtree.as_map() == target.0,
                    pnf0 + target.1 == self.parent_not_found,
                    forall|i: int|
                        0 <= i < self.dtree.stats@.len() ==> {
                            &&& (#[trigger] self.dtree.stats@[i]).wf()
                            &&& self.dtree.stats@[i].recurse.entry_cnt <= self.num_entries
                            &&& self.dtree.stats@[i].recurse.size <= self.total_file_space
                        },
                    self.parent_not_found <= self.dtree.keys@.len(),
                    self.num_entries == old(self).num_entries + 1,
                    self.total_file_space == old(self).total_file_space + fi.stat.size,
                    self.largest_user == um1,
                    self.largest_time == tm1,
                    self.largest_file@ == lf1,
                    self.parent_filled_in_later == old(self).parent_filled_in_later,
                decreases cur@.len(),
            {
                proof {
                    lemma_parent_shorter(cur@);
                }
                match parent(cur.as_str()) {
                    Some(par) => {
                        let ghost q = par@;
                        let ghost m_before = self.dtree.as_map();
                        proof {
                            assert(parent_of(cur@) == Some(q));
                            assert(ancestors_of(cur@) == seq![q] + ancestors_of(q));
                            assert(ancestors_of(cur@)[0] == q);
                            lemma_ancestors_shorter(q);
                            assert(forall|k: int|
                                0 <= k < ancestors_of(q).len() ==> ancestors_of(cur@)[k + 1]
                                    == #[trigger] ancestors_of(q)[k]);
                        }
                        match self.dtree.find(&par) {
                            Some(i) => {
                                let mut d = self.dtree.stat_at(i);
                                proof {
                                    assert(m_before[q] == d);
                                    assert(m_before.dom().contains(q));
                                    assert(self.dtree.as_map().dom().contains(
                                        ancestors_of(cur@)[0],
                                    ));
                                    assert(d.recurse.entry_cnt <= old(self).num_entries);
                                    assert(d.recurse.size <= old(self).total_file_space);
                                }
                                d.merge(stat.size, stat.mod_time, direct);
                                self.dtree.set_at(i, d);
                                proof {
                                    assert(self.dtree.as_map() == m_before.insert(
                                        q,
                                        m_before[q].spec_merged(
                                            fi.stat.size,
                                            fi.stat.mod_time,
                                            direct,
                                        ),
                                    ));
                                }
                            },
                            None => {
                                self.parent_not_found = self.parent_not_found + 1;
                                let mut d = DirStat::empty();
                                d.merge(stat.size, stat.mod_time, direct);
                                let key = par.clone();
                                proof {
                                    assert(key == par);
                                    assert(key@ == q);
                                    assert(d == DirStat::zero().spec_merged(
                                        fi.stat.size,
                                        fi.stat.mod_time,
                                        direct,
                                    ));
                                }
                                self.dtree.push_new(key, d);
                                proof {
                                    assert(self.dtree.as_map() == m_before.insert(
                                        q,
                                        DirStat::zero().spec_merged(
                                            fi.stat.size,
                                            fi.stat.mod_time,
                                            direct,
                                        ),
                                    ));
                                }
                            },
                        }
                        cur = par;
                        direct = false;
                    },
                    None => {
                        break ;
                    },
                }
            }
        }
    }

    /// Count of entities processed so far.
    pub fn num_entries(&self) -> (r: u64)
        ensures
            r == self.spec_num_entries(),
    {
        self.num_entries
    }

    /// Total bytes over all entities processed so far.
    pub fn total_file_space(&self) -> (r: u64)
        ensures
            r == self.spec_total_file_space(),
    {
        self.total_file_space
    }

    /// How many ancestors were missing when first referenced and were
    /// created as placeholders.
    pub fn parent_not_found(&self) -> (r: u64)
        ensures
            r == self.spec_parent_not_found(),
    {
        self.parent_not_found
    }

    /// How many directory records arrived after their node already existed.
    pub fn parent_filled_in_later(&self) -> (r: u64)
        ensures
            r == self.spec_parent_filled_in_later(),
    {
        self.parent_filled_in_later
    }

    /// Number of directory nodes, placeholders included.
    pub fn dirs_len(&self) -> (r: usize)
        ensures
            r as int == self.num_dirs(),
    {
        self.dtree.len()
    }

    /// How many entries the largest-file selection currently holds.
    pub fn top_files_len(&self) -> (r: usize)
        ensures
            r as int == self.top_files().len(),
    {
        self.largest_file.len()
    }

    /// The statistics node at `path`, if the tree holds one.
    pub fn dir_stat(&self, path: &String) -> (r: Option<DirStat>)
        requires
            self.wf(),
        ensures
            match r {
                Some(d) => self.dir_map().dom().contains(path@) && self.dir_map()[path@] == d,
                None => !self.dir_map().dom().contains(path@),
            },
    {
        match self.dtree.find(path) {
            Some(i) => Some(self.dtree.stat_at(i)),
            None => None,
        }
    }

    /// The totals recorded for one owner, if any.
    pub fn user_total(&self, user: &String) -> (r: Option<(u64, u64)>)
        requires
            self.wf(),
        ensures
            match r {
                Some(v) => self.user_map().dom().contains(user@) && self.user_map()[user@] == v,
                None => !self.user_map().dom().contains(user@),
            },
    {
        self.largest_user.get(user)
    }

    /// The size accumulated in the bucket starting at `bucket`, if any.
    pub fn time_total(&self, bucket: u64) -> (r: Option<u64>)
        requires
            self.wf(),
        ensures
            match r {
                Some(v) => self.time_map().dom().contains(bucket) && self.time_map()[bucket] == v,
                None => !self.time_map().dom().contains(bucket),
            },
    {
        self.largest_time.get(bucket)
    }

    /// Every directory path with its statistics, in insertion order: one
    /// pair per node of the tree, paths pairwise distinct.
    pub fn dir_entries(&self) -> (r: Vec<(String, DirStat)>)
        requires
            self.wf(),
        ensures
            r@.len() == self.dir_map().dom().len(),
            forall|j: int|
                0 <= j < r@.len() ==> {
                    &&& self.dir_map().dom().contains((#[trigger] r@[j]).0@)
                    &&& self.dir_map()[r@[j].0@] == r@[j].1
                },
            forall|i: int, j: int| 0 <= i < j < r@.len() ==> r@[i].0@ != r@[j].0@,
    {
        let n = self.dtree.len();
        let mut r: Vec<(String, DirStat)> = Vec::new();
        let mut i: usize = 0;
        while i < n
            invariant
                0 <= i <= n,
                n == self.dtree.keys@.len(),
                self.wf(),
                r@.len() == i,
                forall|j: int|
                    0 <= j < i ==> (#[trigger] r@[j]).0 == self.dtree.keys@[j] && r@[j].1
                        == self.dtree.stats@[j],
            decreases n - i,
        {
            r.push((self.dtree.keys[i].clone(), self.dtree.stats[i]));
            i = i + 1;
        }
        proof {
            lemma_kv_card(self.dtree.key_views(), self.dtree.stats@, self.dtree.num());
            assert forall|j: int| 0 <= j < r@.len() implies {
                &&& self.dir_map().dom().contains((#[trigger] r@[j]).0@)
                &&& self.dir_map()[r@[j].0@] == r@[j].1
            } by {
                assert(self.dtree.key_views()[j] == r@[j].0@);
                lemma_kv_get(self.dtree.key_views(), self.dtree.stats@, self.dtree.num(), j);
            }
            assert forall|i2: int, j: int| 0 <= i2 < j < r@.len() implies r@[i2].0@ != r@[j].0@ by {
                assert(self.dtree.key_views()[i2] == r@[i2].0@);
                assert(self.dtree.key_views()[j] == r@[j].0@);
            }
        }
        r
    }

    /// Every tree node as a ranking candidate under the chosen metric.
    pub closed spec fn dir_cands(self, sel: DirMetric) -> Seq<TopEntry> {
        Seq::new(
            self.dtree.keys@.len(),
            |i: int|
                TopEntry {
                    size: metric_of(sel, self.dtree.stats@[i]),
                    track: self.dtree.keys@[i],
                    oldest: range_oldest(sel, self.dtree.stats@[i]),
                    newest: range_newest(sel, self.dtree.stats@[i]),
                },
        )
    }

    /// Every owner with accumulated size, in tree order.
    pub closed spec fn user_size_pairs(self) -> Seq<(String, u64)> {
        user_size_pairs(self.largest_user)
    }

    /// Every owner with entry count, in tree order.
    pub closed spec fn user_count_pairs(self) -> Seq<(String, u64)> {
        user_count_pairs(self.largest_user)
    }

    /// Every time bucket with its size, in insertion order.
    pub closed spec fn time_pairs(self) -> Seq<(u64, u64)> {
        time_pairs(self.largest_time)
    }

    /// Offer every tree node to a bounded selection under one metric.
    fn collect_top_dirs(&self, sel: DirMetric, top_n: usize) -> (r: Vec<TopEntry>)
        requires
            self.wf(),
        ensures
            r@ == fold_offers(self.dir_cands(sel), top_n as int),
    {
        let mut heap: Vec<TopEntry> = Vec::new();
        let n = self.dtree.len();
        let mut i: usize = 0;
        while i < n
            invariant
                0 <= i <= n,
                n == self.dtree.keys@.len(),
                self.dtree.stats@.len() == n,
                heap@ == fold_offers(self.dir_cands(sel).take(i as int), top_n as int),
            decreases n - i,
        {
            let st = self.dtree.stat_at(i);
            let (metric, oldest, newest) = match sel {
                DirMetric::DirectSize => (st.direct.size, st.direct.oldest, st.direct.newest),
                DirMetric::DirectCnt => (st.direct.entry_cnt, st.direct.oldest, st.direct.newest),
                DirMetric::RecurseSize => (st.recurse.size, st.recurse.oldest, st.recurse.newest),
                DirMetric::RecurseCnt => (st.recurse.entry_cnt, st.recurse.oldest, st.recurse.newest),
            };
            track_top_n(&mut heap, &self.dtree.keys[i], metric, top_n, oldest, newest);
            proof {
                let cands = self.dir_cands(sel);
                assert(cands.take(i as int + 1).drop_last() =~= cands.take(i as int));
                assert(cands.take(i as int + 1).last() == cands[i as int]);
                assert(cands[i as int] == TopEntry {
                    size: metric,
                    track: self.dtree.keys@[i as int],
                    oldest: oldest,
                    newest: newest,
                });
            }
            i = i + 1;
        }
        proof {
            assert(self.dir_cands(sel).take(n as int) =~= self.dir_cands(sel));
        }
        heap
    }

    /// Drain the final state into the ranked report: run totals and
    /// diagnostics, every owner ranked by size and by count, the top
    /// directories under all four metrics, the largest files, and the time
    /// histogram newest bucket first.
    pub fn walk_and_heap(&self, top_n: usize) -> (r: Report)
        requires
            self.wf(),
        ensures
            r.num_entries == self.spec_num_entries(),
            r.total_file_space == self.spec_total_file_space(),
            r.parent_not_found == self.spec_parent_not_found(),
            r.parent_filled_in_later == self.spec_parent_filled_in_later(),
            sorted_desc(r.top_size@),
            sorted_desc(r.top_cnt@),
            sorted_desc(r.top_size_recur@),
            sorted_desc(r.top_cnt_recur@),
            r.top_size@.len() == if self.num_dirs() < top_n {
                self.num_dirs()
            } else {
                top_n as int
            },
            r.top_cnt@.len() == r.top_size@.len(),
            r.top_size_recur@.len() == r.top_size@.len(),
            r.top_cnt_recur@.len() == r.top_size@.len(),
            forall|j: int|
                0 <= j < r.top_size@.len() ==> dir_entry_ok(
                    *self,
                    DirMetric::DirectSize,
                    #[trigger] r.top_size@[j],
                ),
            forall|j: int|
                0 <= j < r.top_cnt@.len() ==> dir_entry_ok(
                    *self,
                    DirMetric::DirectCnt,
                    #[trigger] r.top_cnt@[j],
                ),
            forall|j: int|
                0 <= j < r.top_size_recur@.len() ==> dir_entry_ok(
                    *self,
                    DirMetric::RecurseSize,
                    #[trigger] r.top_size_recur@[j],
                ),
            forall|j: int|
                0 <= j < r.top_cnt_recur@.len() ==> dir_entry_ok(
                    *self,
                    DirMetric::RecurseCnt,
                    #[trigger] r.top_cnt_recur@[j],
                ),
            forall|k: Seq<char>|
                #[trigger] self.dir_map().dom().contains(k) ==> {
                    &&& excluded_le(r.top_size@, k, metric_of(DirMetric::DirectSize, self.dir_map()[k]))
                    &&& excluded_le(r.top_cnt@, k, metric_of(DirMetric::DirectCnt, self.dir_map()[k]))
                    &&& excluded_le(
                        r.top_size_recur@,
                        k,
                        metric_of(DirMetric::RecurseSize, self.dir_map()[k]),
                    )
                    &&& excluded_le(
                        r.top_cnt_recur@,
                        k,
                        metric_of(DirMetric::RecurseCnt, self.dir_map()[k]),
                    )
                },
            sorted_desc(r.largest_file@),
            r.largest_file@.to_multiset() == self.top_files().to_multiset(),
            r.largest_file@.len() == self.top_files().len(),
            pairs_sorted_desc(r.user_by_size@),
            pairs_sorted_desc(r.user_by_count@),
            r.user_by_size@.len() == self.user_map().dom().len(),
            r.user_by_count@.len() == self.user_map().dom().len(),
            forall|j: int|
                0 <= j < r.user_by_size@.len() ==> {
                    &&& self.user_map().dom().contains((#[trigger] r.user_by_size@[j]).0@)
                    &&& self.user_map()[r.user_by_size@[j].0@].0 == r.user_by_size@[j].1
                },
            forall|j: int|
                0 <= j < r.user_by_count@.len() ==> {
                    &&& self.user_map().dom().contains((#[trigger] r.user_by_count@[j]).0@)
                    &&& self.user_map()[r.user_by_count@[j].0@].1 == r.user_by_count@[j].1
                },
            tpairs_sorted_desc(r.time_by_start@),
            r.time_by_start@.len() == self.time_map().dom().len(),
            forall|j: int|
                0 <= j < r.time_by_start@.len() ==> {
                    &&& self.time_map().dom().contains((#[trigger] r.time_by_start@[j]).0)
                    &&& self.time_map()[r.time_by_start@[j].0] == r.time_by_start@[j].1
                },
    {
        broadcast use vstd::seq_lib::group_to_multiset_ensures;

        let top_size_heap = self.collect_top_dirs(DirMetric::DirectSize, top_n);
        let top_cnt_heap = self.collect_top_dirs(DirMetric::DirectCnt, top_n);
        let top_size_recur_heap = self.collect_top_dirs(DirMetric::RecurseSize, top_n);
        let top_cnt_recur_heap = self.collect_top_dirs(DirMetric::RecurseCnt, top_n);
        let top_size = to_sort_vec(&top_size_heap);
        let top_cnt = to_sort_vec(&top_cnt_heap);
        let top_size_recur = to_sort_vec(&top_size_recur_heap);
        let top_cnt_recur = to_sort_vec(&top_cnt_recur_heap);
        proof {
            lemma_sorted_dir_list(*self, DirMetric::DirectSize, top_n as int, top_size@);
            lemma_sorted_dir_list(*self, DirMetric::DirectCnt, top_n as int, top_cnt@);
            lemma_sorted_dir_list(*self, DirMetric::RecurseSize, top_n as int, top_size_recur@);
            lemma_sorted_dir_list(*self, DirMetric::RecurseCnt, top_n as int, top_cnt_recur@);
        }
        let largest_file = to_sort_vec(&self.largest_file);
        let user_by_size = to_sort_vec_name_size(&self.largest_user);
        let user_by_count = to_sort_vec_name_cnt(&self.largest_user);
        let time_by_start = largest_time_to_sort_vec(&self.largest_time);
        proof {
            lemma_sorted_user_list(*self, self.user_size_pairs(), user_by_size@, true);
            lemma_sorted_user_list(*self, self.user_count_pairs(), user_by_count@, false);
            lemma_sorted_time_list(*self, time_by_start@);
        }
        Report {
            num_entries: self.num_entries,
            total_file_space: self.total_file_space,
            parent_not_found: self.parent_not_found,
            parent_filled_in_later: self.parent_filled_in_later,
            user_by_size,
            user_by_count,
            top_size,
            top_cnt,
            top_size_recur,
            top_cnt_recur,
            largest_file,
            time_by_start,
        }
    }
}

/// Transfer the drained-selection facts from the unsorted fold to the
/// sorted list: its length, that every entry describes a real node, and
/// that nothing left out beats anything kept.
proof fn lemma_sorted_dir_list(t: Tracking, sel: DirMetric, limit: int, sorted: Seq<TopEntry>)
    requires
        t.wf(),
        limit >= 0,
        sorted.to_multiset() == fold_offers(t.dir_cands(sel), limit).to_multiset(),
    ensures
        sorted.len() == if t.num_dirs() < limit {
            t.num_dirs()
        } else {
            limit
        },
        forall|j: int| 0 <= j < sorted.len() ==> dir_entry_ok(t, sel, #[trigger] sorted[j]),
        forall|k: Seq<char>|
            #[trigger] t.dir_map().dom().contains(k) ==> excluded_le(
                sorted,
                k,
                metric_of(sel, t.dir_map()[k]),
            ),
{
    broadcast use vstd::seq_lib::group_to_multiset_ensures;

    let cands = t.dir_cands(sel);
    let fold = fold_offers(cands, limit);
    lemma_top_n_len(cands, limit);
    lemma_top_n_contents(cands, limit);
    assert(sorted.len() == sorted.to_multiset().len());
    assert(fold.len() == fold.to_multiset().len());
    assert forall|j: int| 0 <= j < sorted.len() implies dir_entry_ok(t, sel, #[trigger] sorted[j]) by {
        let e = sorted[j];
        assert(sorted.contains(e));
        assert(sorted.to_multiset().count(e) > 0);
        assert(fold.contains(e));
        let jj = choose|jj: int| 0 <= jj < fold.len() && fold[jj] == e;
        assert(cands.contains(fold[jj]));
        let i = choose|i: int| 0 <= i < cands.len() && cands[i] == e;
        assert(e.track == t.dtree.keys@[i]);
        assert(t.dtree.key_views()[i] == e.track@);
        lemma_kv_get(t.dtree.key_views(), t.dtree.stats@, t.dtree.num(), i);
    }
    assert forall|k: Seq<char>| #[trigger] t.dir_map().dom().contains(k) implies excluded_le(
        sorted,
        k,
        metric_of(sel, t.dir_map()[k]),
    ) by {
        if forall|j: int| 0 <= j < sorted.len() ==> (#[trigger] sorted[j]).track@ != k {
            lemma_kv_dom(t.dtree.key_views(), t.dtree.stats@, t.dtree.num());
            let i = choose|i: int| 0 <= i < t.dtree.num() && t.dtree.key_views()[i] == k;
            lemma_kv_get(t.dtree.key_views(), t.dtree.stats@, t.dtree.num(), i);
            let c = cands[i];
            assert(c.track@ == k);
            assert(c.size == metric_of(sel, t.dir_map()[k]));
            if fold.contains(c) {
                assert(fold.to_multiset().count(c) > 0);
                assert(sorted.contains(c));
                let j = choose|j: int| 0 <= j < sorted.len() && sorted[j] == c;
                assert(sorted[j].track@ == k);
                assert(false);
            }
            assert(!fold.contains(cands[i]));
            assert forall|j: int| 0 <= j < sorted.len() implies metric_of(sel, t.dir_map()[k])
                <= (#[trigger] sorted[j]).size by {
                let e = sorted[j];
                assert(sorted.contains(e));
                assert(sorted.to_multiset().count(e) > 0);
                assert(fold.contains(e));
                let jj = choose|jj: int| 0 <= jj < fold.len() && fold[jj] == e;
                assert(cands[i].size <= fold[jj].size);
            }
        }
    }
}

/// Transfer map membership and length from the collected owner pairs to
/// the sorted list. `by_size` picks which half of the totals the pairs
/// carry.
proof fn lemma_sorted_user_list(t: Tracking, pairs: Seq<(String, u64)>, sorted: Seq<(String, u64)>, by_size: bool)
    requires
        t.wf(),
        pairs == if by_size {
            t.user_size_pairs()
        } else {
            t.user_count_pairs()
        },
        sorted.to_multiset() == pairs.to_multiset(),
    ensures
        sorted.len() == t.user_map().dom().len(),
        forall|j: int|
            0 <= j < sorted.len() ==> {
                &&& t.user_map().dom().contains((#[trigger] sorted[j]).0@)
                &&& (if by_size {
                    t.user_map()[sorted[j].0@].0
                } else {
                    t.user_map()[sorted[j].0@].1
                }) == sorted[j].1
            },
{
    broadcast use vstd::seq_lib::group_to_multiset_ensures;

    let um = t.largest_user;
    lemma_kv_card(um.key_views(), um.vals@, um.num());
    assert(sorted.len() == sorted.to_multiset().len());
    assert(pairs.len() == pairs.to_multiset().len());
    assert forall|j: int| 0 <= j < sorted.len() implies {
        &&& t.user_map().dom().contains((#[trigger] sorted[j]).0@)
        &&& (if by_size {
            t.user_map()[sorted[j].0@].0
        } else {
            t.user_map()[sorted[j].0@].1
        }) == sorted[j].1
    } by {
        let e = sorted[j];
        assert(sorted.contains(e));
        assert(sorted.to_multiset().count(e) > 0);
        assert(pairs.contains(e));
        let i = choose|i: int| 0 <= i < pairs.len() && pairs[i] == e;
        assert(e.0 == um.keys@[i]);
        assert(um.key_views()[i] == e.0@);
        lemma_kv_get(um.key_views(), um.vals@, um.num(), i);
    }
}

/// Every owner with accumulated size, in tree order.
pub open spec fn user_size_pairs(m: UserMap) -> Seq<(String, u64)> {
    Seq::new(m.keys@.len(), |i: int| (m.keys@[i], m.vals@[i].0))
}

/// Every owner with entry count, in tree order.
pub open spec fn user_count_pairs(m: UserMap) -> Seq<(String, u64)> {
    Seq::new(m.keys@.len(), |i: int| (m.keys@[i], m.vals@[i].1))
}

/// Every time bucket with its size, in insertion order.
pub open spec fn time_pairs(m: TimeMap) -> Seq<(u64, u64)> {
    Seq::new(m.keys@.len(), |i: int| (m.keys@[i], m.vals@[i]))
}

/// Every owner with accumulated size, sorted descending by size.
pub fn to_sort_vec_name_size(m: &UserMap) -> (r: Vec<(String, u64)>)
    requires
        m.wf(),
    ensures
        r@.to_multiset() == user_size_pairs(*m).to_multiset(),
        pairs_sorted_desc(r@),
        r@.len() == m.keys@.len(),
{
    let n = m.keys.len();
    let mut v: Vec<(String, u64)> = Vec::new();
    let mut i: usize = 0;
    while i < n
        invariant
            0 <= i <= n,
            n == m.keys@.len(),
            m.vals@.len() == n,
            v@ == user_size_pairs(*m).take(i as int),
        decreases n - i,
    {
        let val = m.vals[i];
        v.push((m.keys[i].clone(), val.0));
        proof {
            assert(v@ =~= user_size_pairs(*m).take(i as int + 1));
        }
        i = i + 1;
    }
    proof {
        assert(user_size_pairs(*m).take(n as int) =~= user_size_pairs(*m));
    }
    sort_pairs_desc(v)
}

/// Every owner with entry count, sorted descending by count.
pub fn to_sort_vec_name_cnt(m: &UserMap) -> (r: Vec<(String, u64)>)
    requires
        m.wf(),
    ensures
        r@.to_multiset() == user_count_pairs(*m).to_multiset(),
        pairs_sorted_desc(r@),
        r@.len() == m.keys@.len(),
{
    let n = m.keys.len();
    let mut v: Vec<(String, u64)> = Vec::new();
    let mut i: usize = 0;
    while i < n
        invariant
            0 <= i <= n,
            n == m.keys@.len(),
            m.vals@.len() == n,
            v@ == user_count_pairs(*m).take(i as int),
        decreases n - i,
    {
        let val = m.vals[i];
        v.push((m.keys[i].clone(), val.1));
        proof {
            assert(v@ =~= user_count_pairs(*m).take(i as int + 1));
        }
        i = i + 1;
    }
    proof {
        assert(user_count_pairs(*m).take(n as int) =~= user_count_pairs(*m));
    }
    sort_pairs_desc(v)
}

/// Every time bucket with its size, sorted descending by bucket start.
pub fn largest_time_to_sort_vec(m: &TimeMap) -> (r: Vec<(u64, u64)>)
    requires
        m.wf(),
    ensures
        r@.to_multiset() == time_pairs(*m).to_multiset(),
        tpairs_sorted_desc(r@),
        r@.len() == m.keys@.len(),
{
    let n = m.keys.len();
    let mut v: Vec<(u64, u64)> = Vec::new();
    let mut i: usize = 0;
    while i < n
        invariant
            0 <= i <= n,
            n == m.keys@.len(),
            m.vals@.len() == n,
            v@ == time_pairs(*m).take(i as int),
        decreases n - i,
    {
        v.push((m.keys[i], m.vals[i]));
        proof {
            assert(v@ =~= time_pairs(*m).take(i as int + 1));
        }
        i = i + 1;
    }
    proof {
        assert(time_pairs(*m).take(n as int) =~= time_pairs(*m));
    }
    sort_time_desc(v)
}

/// The direct counters of every directory never exceed the recursive
/// ones, always: the direct entries are a subset of the recursive ones.
pub proof fn lemma_direct_within_recurse(t: Tracking, k: Seq<char>)
    requires
        t.wf(),
        t.dir_map().dom().contains(k),
    ensures
        t.dir_map()[k].direct.entry_cnt <= t.dir_map()[k].recurse.entry_cnt,
        t.dir_map()[k].direct.size <= t.dir_map()[k].recurse.size,
{
    lemma_kv_dom(t.dtree.key_views(), t.dtree.stats@, t.dtree.num());
    let i = choose|i: int| 0 <= i < t.dtree.num() && t.dtree.key_views()[i] == k;
    lemma_kv_get(t.dtree.key_views(), t.dtree.stats@, t.dtree.num(), i);
}

/// The oldest timestamp of every directory never exceeds the newest, in
/// either counter pair, after every merge.
pub proof fn lemma_timestamps_ordered(t: Tracking, k: Seq<char>)
    requires
        t.wf(),
        t.dir_map().dom().contains(k),
    ensures
        t.dir_map()[k].direct.oldest <= t.dir_map()[k].direct.newest,
        t.dir_map()[k].recurse.oldest <= t.dir_map()[k].recurse.newest,
{
    lemma_kv_dom(t.dtree.key_views(), t.dtree.stats@, t.dtree.num());
    let i = choose|i: int| 0 <= i < t.dtree.num() && t.dtree.key_views()[i] == k;
    lemma_kv_get(t.dtree.key_views(), t.dtree.stats@, t.dtree.num(), i);
}

/// Transfer map membership and length from the collected bucket pairs to
/// the sorted list.
proof fn lemma_sorted_time_list(t: Tracking, sorted: Seq<(u64, u64)>)
    requires
        t.wf(),
        sorted.to_multiset() == t.time_pairs().to_multiset(),
    ensures
        sorted.len() == t.time_map().dom().len(),
        forall|j: int|
            0 <= j < sorted.len() ==> {
                &&& t.time_map().dom().contains((#[trigger] sorted[j]).0)
                &&& t.time_map()[sorted[j].0] == sorted[j].1
            },
{
    broadcast use vstd::seq_lib::group_to_multiset_ensures;

    let tm = t.largest_time;
    let pairs = t.time_pairs();
    lemma_kv_card(tm.keys@, tm.vals@, tm.num());
    assert(sorted.len() == sorted.to_multiset().len());
    assert(pairs.len() == pairs.to_multiset().len());
    assert forall|j: int| 0 <= j < sorted.len() implies {
        &&& t.time_map().dom().contains((#[trigger] sorted[j]).0)
        &&& t.time_map()[sorted[j].0] == sorted[j].1
    } by {
        let e = sorted[j];
        assert(sorted.contains(e));
        assert(sorted.to_multiset().count(e) > 0);
        assert(pairs.contains(e));
        let i = choose|i: int| 0 <= i < pairs.len() && pairs[i] == e;
        assert(e.0 == tm.keys@[i]);
        lemma_kv_get(tm.keys@, tm.vals@, tm.num(), i);
    }
}

} // verus!
