//! The traversal engine: an iterative, cycle-safe, depth-bounded walk over a
//! directory tree, with deferred pruning of matching directories.
//!
//! The engine owns the work queue (last in, first out) and the visited set of
//! (path, depth) records. Callers drive it: pop a record, enumerate that
//! directory if the engine says to, hand the entries back, and report or
//! delete the paths the engine returns. Every decision — what to visit, what
//! to match, what to enqueue — is made here and is specified exactly.

use crate::names::eq_ignore_ascii_case;
use crate::names::names_match;
use vstd::prelude::*;

verus! {

/// Mathematical image of a [`VisitRecord`]: a path and the depth at which the
/// record was enqueued.
pub ghost struct RecordModel {
    pub path: Seq<char>,
    pub depth: int,
}

/// A queued unit of work: a directory path together with the depth at which
/// it was discovered. The root sits at depth 0, a child one deeper than its
/// parent. Two records are equal only when both path and depth agree.
pub struct VisitRecord {
    pub path: String,
    pub depth: i32,
}

impl View for VisitRecord {
    type V = RecordModel;

    open spec fn view(&self) -> RecordModel {
        RecordModel { path: self.path@, depth: self.depth as int }
    }
}

impl DeepView for VisitRecord {
    type V = RecordModel;

    open spec fn deep_view(&self) -> RecordModel {
        self@
    }
}

/// Mathematical image of an [`Entry`].
pub ghost struct EntryModel {
    pub path: Seq<char>,
    pub name: Seq<char>,
    pub is_dir: bool,
    pub is_symlink: bool,
}

/// One immediate entry of a directory, as the caller's enumeration reports
/// it: full path, base name, and whether it is a directory and whether it is
/// reached through a symbolic link.
pub struct Entry {
    pub path: String,
    pub name: String,
    pub is_dir: bool,
    pub is_symlink: bool,
}

impl View for Entry {
    type V = EntryModel;

    open spec fn view(&self) -> EntryModel {
        EntryModel {
            path: self.path@,
            name: self.name@,
            is_dir: self.is_dir,
            is_symlink: self.is_symlink,
        }
    }
}

impl DeepView for Entry {
    type V = EntryModel;

    open spec fn deep_view(&self) -> EntryModel {
        self@
    }
}

/// Mathematical image of a [`Config`].
pub ghost struct ConfigModel {
    pub max_depth: Option<int>,
    pub dry: bool,
    pub dirname: Seq<char>,
}

/// One run's immutable settings: the optional inclusive depth bound, the
/// dry-run flag, and the target directory name.
pub struct Config {
    pub max_depth: Option<i32>,
    pub dry: bool,
    pub dirname: String,
}

impl View for Config {
    type V = ConfigModel;

    open spec fn view(&self) -> ConfigModel {
        ConfigModel {
            max_depth: match self.max_depth {
                Some(m) => Some(m as int),
                None => None,
            },
            dry: self.dry,
            dirname: self.dirname@,
        }
    }
}

/// Mathematical image of an [`Engine`]. The visited collection is kept as a
/// sequence in insertion order; membership is what matters.
pub ghost struct EngineModel {
    pub config: ConfigModel,
    pub queue: Seq<RecordModel>,
    pub visited: Seq<RecordModel>,
}

/// A record with this exact path and depth has already been popped from the
/// queue. This is the cycle guard: such a record is never processed again.
pub open spec fn visited_contains(vis: Seq<RecordModel>, r: RecordModel) -> bool {
    exists|i: int| 0 <= i < vis.len() && vis[i] == r
}

/// An entry the walk considers at all: a real directory, not reached through
/// a symbolic link, whose record at the child depth is not yet visited.
/// Files and symbolic links are never enqueued, never matched, never deleted.
pub open spec fn considered(vis: Seq<RecordModel>, depth: int, e: EntryModel) -> bool {
    &&& e.is_dir
    &&& !e.is_symlink
    &&& !visited_contains(vis, RecordModel { path: e.path, depth: depth + 1 })
}

/// The paths reported for removal when a directory at `depth` with entries
/// `es` is expanded: the considered entries whose name matches `dirname` up
/// to ASCII case, in enumeration order.
pub open spec fn matched_paths(
    vis: Seq<RecordModel>,
    dirname: Seq<char>,
    depth: int,
    es: Seq<EntryModel>,
) -> Seq<Seq<char>>
    decreases es.len(),
{
    if es.len() == 0 {
        Seq::empty()
    } else {
        let rest = matched_paths(vis, dirname, depth, es.drop_last());
        let e = es.last();
        if considered(vis, depth, e) && eq_ignore_ascii_case(e.name, dirname) {
            rest.push(e.path)
        } else {
            rest
        }
    }
}

/// The records enqueued for later expansion: the considered entries whose
/// name does not match, at one more than the parent's depth, in enumeration
/// order. Matched directories are never among them.
pub open spec fn enqueued_records(
    vis: Seq<RecordModel>,
    dirname: Seq<char>,
    depth: int,
    es: Seq<EntryModel>,
) -> Seq<RecordModel>
    decreases es.len(),
{
    if es.len() == 0 {
        Seq::empty()
    } else {
        let rest = enqueued_records(vis, dirname, depth, es.drop_last());
        let e = es.last();
        if considered(vis, depth, e) && !eq_ignore_ascii_case(e.name, dirname) {
            rest.push(RecordModel { path: e.path, depth: depth + 1 })
        } else {
            rest
        }
    }
}

/// A record popped at `depth` has its children enumerated exactly when no
/// depth bound is set or the depth does not exceed the (inclusive) bound.
pub open spec fn within_depth(c: ConfigModel, depth: int) -> bool {
    match c.max_depth {
        Some(m) => depth <= m,
        None => true,
    }
}

/// The traversal engine. Owns the configuration, the work queue and the
/// visited set; never touches the filesystem itself.
pub struct Engine {
    pub config: Config,
    pub queue: Vec<VisitRecord>,
    pub visited: Vec<VisitRecord>,
}

impl View for Engine {
    type V = EngineModel;

    open spec fn view(&self) -> EngineModel {
        EngineModel {
            config: self.config@,
            queue: self.queue.deep_view(),
            visited: self.visited.deep_view(),
        }
    }
}

impl Engine {
    /// Every queued or visited record sits at a non-negative depth.
    pub open spec fn wf(&self) -> bool {
        &&& forall|i: int| 0 <= i < self@.queue.len() ==> self@.queue[i].depth >= 0
        &&& forall|i: int| 0 <= i < self@.visited.len() ==> self@.visited[i].depth >= 0
    }

    /// A fresh engine: the root at depth 0 is the only queued record and
    /// nothing is visited yet.
    pub fn new(root: String, config: Config) -> (e: Engine)
        ensures
            e@.config == config@,
            e@.queue =~= seq![RecordModel { path: root@, depth: 0 }],
            e@.visited =~= Seq::<RecordModel>::empty(),
            e.wf(),
    {
        let mut queue: Vec<VisitRecord> = Vec::new();
        queue.push(VisitRecord { path: root, depth: 0 });
        Engine { config, queue, visited: Vec::new() }
    }

    /// Pops the most recently queued record and inserts it into the visited
    /// set before its children can be examined; `None` when the queue is
    /// empty, leaving the engine unchanged.
    pub fn pop_next(&mut self) -> (r: Option<VisitRecord>)
        requires
            old(self).wf(),
        ensures
            final(self).wf(),
            final(self)@.config == old(self)@.config,
            old(self)@.queue.len() == 0 ==> r is None && final(self)@ == old(self)@,
            old(self)@.queue.len() > 0 ==> {
                &&& r matches Some(rec) && rec@ == old(self)@.queue.last()
                &&& final(self)@.queue =~= old(self)@.queue.drop_last()
                &&& final(self)@.visited =~= old(self)@.visited.push(old(self)@.queue.last())
            },
    {
        let ghost pre = *self;
        match self.queue.pop() {
            None => None,
            Some(rec) => {
                self.visited.push(VisitRecord { path: rec.path.clone(), depth: rec.depth });
                proof {
                    assert(rec@ == pre@.queue.last());
                    assert(self@.queue =~= pre@.queue.drop_last());
                    assert(self@.visited =~= pre@.visited.push(pre@.queue.last()));
                    assert forall|i: int| 0 <= i < self@.visited.len() implies self@.visited[i].depth
                        >= 0 by {
                        if i < pre@.visited.len() {
                            assert(pre@.visited[i].depth >= 0);
                        } else {
                            assert(pre@.queue[pre@.queue.len() - 1].depth >= 0);
                        }
                    }
                }
                Some(rec)
            },
        }
    }

    /// True when a record popped at this depth should have its children
    /// enumerated. A record beyond the bound stays visited but is skipped.
    pub fn should_expand(&self, rec: &VisitRecord) -> (r: bool)
        ensures
            r == within_depth(self@.config, rec@.depth),
    {
        match self.config.max_depth {
            None => true,
            Some(m) => rec.depth <= m,
        }
    }

    /// True when the run is dry: matches are reported exactly as in a real
    /// run, but nothing may be deleted.
    pub fn is_dry(&self) -> (r: bool)
        ensures
            r == self@.config.dry,
    {
        self.config.dry
    }

    /// The cycle guard's executable face: is this (path, depth) pair already
    /// in the visited set?
    fn is_visited(&self, path: &String, depth: i32) -> (r: bool)
        ensures
            r == visited_contains(
                self@.visited,
                RecordModel { path: path@, depth: depth as int },
            ),
    {
        let ghost target = RecordModel { path: path@, depth: depth as int };
        let mut i: usize = 0;
        while i < self.visited.len()
            invariant
                i <= self@.visited.len(),
                self@.visited.len() == self.visited@.len(),
                target == (RecordModel { path: path@, depth: depth as int }),
                forall|j: int| 0 <= j < i ==> self@.visited[j] != target,
            decreases self@.visited.len() - i,
        {
            if self.visited[i].depth == depth && self.visited[i].path == *path {
                assert(self@.visited[i as int] == target);
                return true;
            }
            i = i + 1;
        }
        false
    }

    /// Processes the enumerated entries of the directory a record `rec` was
    /// popped for. Returns, in enumeration order, the paths to report for
    /// removal, and appends to the queue — also in enumeration order — a
    /// record at depth one deeper for every considered entry whose name does
    /// not match. Matched directories are never enqueued, so they are never
    /// expanded; files and symbolic links are ignored entirely. The visited
    /// set and the configuration are untouched.
    pub fn expand(&mut self, rec: &VisitRecord, entries: &Vec<Entry>) -> (matched: Vec<String>)
        requires
            old(self).wf(),
            0 <= rec@.depth < i32::MAX,
        ensures
            final(self).wf(),
            final(self)@.config == old(self)@.config,
            final(self)@.visited =~= old(self)@.visited,
            final(self)@.queue =~= old(self)@.queue + enqueued_records(
                old(self)@.visited,
                old(self)@.config.dirname,
                rec@.depth,
                entries.deep_view(),
            ),
            matched.deep_view() =~= matched_paths(
                old(self)@.visited,
                old(self)@.config.dirname,
                rec@.depth,
                entries.deep_view(),
            ),
    {
        let ghost pre = *self;
        let mut matched: Vec<String> = Vec::new();
        let child_depth: i32 = rec.depth + 1;
        let mut i: usize = 0;
        while i < entries.len()
            invariant
                i <= entries@.len(),
                0 <= rec@.depth,
                child_depth as int == rec@.depth + 1,
                self.wf(),
                self@.config == pre@.config,
                self@.visited =~= pre@.visited,
                self@.queue =~= pre@.queue + enqueued_records(
                    pre@.visited,
                    pre@.config.dirname,
                    rec@.depth,
                    entries.deep_view().take(i as int),
                ),
                matched.deep_view() =~= matched_paths(
                    pre@.visited,
                    pre@.config.dirname,
                    rec@.depth,
                    entries.deep_view().take(i as int),
                ),
            decreases entries@.len() - i,
        {
            proof {
                assert(entries.deep_view().take(i + 1).drop_last() =~= entries.deep_view().take(
                    i as int,
                ));
                assert(entries.deep_view().take(i + 1).last() == entries.deep_view()[i as int]);
            }
            let ghost queue_before = self@.queue;
            let ghost matched_before = matched.deep_view();
            let e = &entries[i];
            if e.is_dir && !e.is_symlink && !self.is_visited(&e.path, child_depth) {
                if names_match(e.name.as_str(), self.config.dirname.as_str()) {
                    matched.push(e.path.clone());
                    proof {
                        assert(matched.deep_view() =~= matched_before.push(e.path@));
                    }
                } else {
                    self.queue.push(VisitRecord { path: e.path.clone(), depth: child_depth });
                    proof {
                        assert(self@.queue =~= queue_before.push(
                            RecordModel { path: e.path@, depth: rec@.depth + 1 },
                        ));
                        assert forall|k: int|
                            0 <= k < self@.queue.len() implies self@.queue[k].depth >= 0 by {
                            if k < queue_before.len() {
                                assert(queue_before[k].depth >= 0);
                            }
                        }
                    }
                }
            }
            i = i + 1;
        }
        proof {
            assert(entries.deep_view().take(entries@.len() as int) =~= entries.deep_view());
        }
        matched
    }
}

} // verus!
