//! Per-directory statistics: direct and recursive counters and their merge
//! operation.

use vstd::prelude::*;

verus! {

/// Aggregated counters for one directory: how many entries were merged into
/// it, their total size in bytes, and the oldest and newest modification
/// times seen (epoch milliseconds).
#[derive(Clone, Copy, Debug, PartialEq, Eq, Structural)]
pub struct DirCounters {
    pub entry_cnt: u64,
    pub size: u64,
    pub oldest: u64,
    pub newest: u64,
}

/// Statistics of one directory node. `direct` covers only entities whose
/// immediate parent is this directory; `recurse` covers the directory and
/// everything transitively beneath it.
#[derive(Clone, Copy, Debug, PartialEq, Eq, Structural)]
pub struct DirStat {
    pub direct: DirCounters,
    pub recurse: DirCounters,
}

pub open spec fn min64(a: u64, b: u64) -> u64 {
    if a <= b {
        a
    } else {
        b
    }
}

pub open spec fn max64(a: u64, b: u64) -> u64 {
    if a <= b {
        b
    } else {
        a
    }
}

impl DirCounters {
    /// The one well-formedness condition on a counter pair: the oldest
    /// modification time never exceeds the newest.
    pub open spec fn wf(self) -> bool {
        self.oldest <= self.newest
    }

    pub open spec fn zero() -> DirCounters {
        DirCounters { entry_cnt: 0, size: 0, oldest: 0, newest: 0 }
    }

    /// One more entry of `size` bytes and modification time `mtime` folded in.
    /// The additions truncate to 64 bits; callers rule truncation out.
    pub open spec fn merged(self, size: u64, mtime: u64) -> DirCounters {
        DirCounters {
            entry_cnt: (self.entry_cnt + 1) as u64,
            size: (self.size + size) as u64,
            oldest: min64(self.oldest, mtime),
            newest: max64(self.newest, mtime),
        }
    }
}

impl DirStat {
    /// Well-formedness of a directory node: each counter pair is ordered, and
    /// the direct counters never exceed the recursive ones, since the direct
    /// entries are a subset of the recursive ones.
    pub open spec fn wf(self) -> bool {
        &&& self.direct.wf()
        &&& self.recurse.wf()
        &&& self.direct.entry_cnt <= self.recurse.entry_cnt
        &&& self.direct.size <= self.recurse.size
        &&& self.recurse.oldest <= self.direct.oldest
        &&& self.direct.newest <= self.recurse.newest
    }

    pub open spec fn zero() -> DirStat {
        DirStat { direct: DirCounters::zero(), recurse: DirCounters::zero() }
    }

    /// The whole effect of one `merge` call: the recursive counters always
    /// take the entry, the direct ones only when `direct` is set.
    pub open spec fn spec_merged(self, size: u64, mtime: u64, direct: bool) -> DirStat {
        DirStat {
            direct: if direct {
                self.direct.merged(size, mtime)
            } else {
                self.direct
            },
            recurse: self.recurse.merged(size, mtime),
        }
    }

    /// An all-zero placeholder node, inserted when a descendant is seen
    /// before the directory's own record.
    pub fn empty() -> (r: DirStat)
        ensures
            r == DirStat::zero(),
            r.wf(),
    {
        DirStat {
            direct: DirCounters { entry_cnt: 0, size: 0, oldest: 0, newest: 0 },
            recurse: DirCounters { entry_cnt: 0, size: 0, oldest: 0, newest: 0 },
        }
    }

    /// The node a directory's own record seeds: one self-counted entry with
    /// the record's size and timestamps, in both counter pairs.
    pub open spec fn seeded(size: u64, mtime: u64) -> DirStat {
        DirStat {
            direct: DirCounters { entry_cnt: 1, size: size, oldest: mtime, newest: mtime },
            recurse: DirCounters { entry_cnt: 1, size: size, oldest: mtime, newest: mtime },
        }
    }

    /// A node seeded from the directory's own record: the directory counts
    /// itself as one entry and contributes its own size and timestamps.
    pub fn new(size: u64, mod_time: u64) -> (r: DirStat)
        ensures
            r == DirStat::seeded(size, mod_time),
            r.direct == (DirCounters { entry_cnt: 1, size: size, oldest: mod_time, newest: mod_time }),
            r.recurse == r.direct,
            r.wf(),
    {
        DirStat {
            direct: DirCounters { entry_cnt: 1, size: size, oldest: mod_time, newest: mod_time },
            recurse: DirCounters { entry_cnt: 1, size: size, oldest: mod_time, newest: mod_time },
        }
    }

    /// Fold one entry into this node. The oldest timestamp can only move
    /// down and the newest only up, so `oldest <= newest` is kept by every
    /// merge.
    pub fn merge(&mut self, size: u64, mod_time: u64, direct: bool)
        requires
            old(self).wf(),
            old(self).recurse.entry_cnt < u64::MAX,
            old(self).recurse.size + size <= u64::MAX,
        ensures
            *final(self) == old(self).spec_merged(size, mod_time, direct),
            final(self).wf(),
            final(self).recurse.entry_cnt == old(self).recurse.entry_cnt + 1,
            final(self).recurse.size == old(self).recurse.size + size,
    {
        self.recurse.entry_cnt = self.recurse.entry_cnt + 1;
        self.recurse.size = self.recurse.size + size;
        if mod_time < self.recurse.oldest {
            self.recurse.oldest = mod_time;
        }
        if mod_time > self.recurse.newest {
            self.recurse.newest = mod_time;
        }
        if direct {
            self.direct.entry_cnt = self.direct.entry_cnt + 1;
            self.direct.size = self.direct.size + size;
            if mod_time < self.direct.oldest {
                self.direct.oldest = mod_time;
            }
            if mod_time > self.direct.newest {
                self.direct.newest = mod_time;
            }
        }
    }

    /// Fold one file or symbolic-link entry into this node; the operation is
    /// the same fold as `merge`, kept as its own entry point for callers that
    /// merge file records while walking ancestors.
    pub fn merge_file_stat(&mut self, size: u64, mod_time: u64, direct: bool)
        requires
            old(self).wf(),
            old(self).recurse.entry_cnt < u64::MAX,
            old(self).recurse.size + size <= u64::MAX,
        ensures
            *final(self) == old(self).spec_merged(size, mod_time, direct),
            final(self).wf(),
    {
        self.merge(size, mod_time, direct);
    }
}

} // verus!
