//! The engine's guarantees, stated and proved over the same spec functions
//! that the executable methods' contracts use: what one expansion reports,
//! what it enqueues, and how the depth bound is read.

use crate::engine::considered;
use crate::engine::enqueued_records;
use crate::engine::matched_paths;
use crate::engine::within_depth;
use crate::engine::ConfigModel;
use crate::engine::EntryModel;
use crate::engine::RecordModel;
use crate::names::eq_ignore_ascii_case;
use vstd::prelude::*;

verus! {

/// Some entry carries this path, is considered, and matches the target name
/// up to ASCII case.
pub open spec fn some_entry_matches(
    vis: Seq<RecordModel>,
    dirname: Seq<char>,
    depth: int,
    es: Seq<EntryModel>,
    p: Seq<char>,
) -> bool {
    exists|i: int|
        0 <= i < es.len() && (#[trigger] es[i]).path == p && considered(vis, depth, es[i])
            && eq_ignore_ascii_case(es[i].name, dirname)
}

/// Some entry carries this path, is considered, and does not match the
/// target name.
pub open spec fn some_entry_feeds_queue(
    vis: Seq<RecordModel>,
    dirname: Seq<char>,
    depth: int,
    es: Seq<EntryModel>,
    p: Seq<char>,
) -> bool {
    exists|i: int|
        0 <= i < es.len() && (#[trigger] es[i]).path == p && considered(vis, depth, es[i])
            && !eq_ignore_ascii_case(es[i].name, dirname)
}

/// When no entry's name matches the target, an expansion reports nothing:
/// a tree without matching directories is left untouched.
pub proof fn lemma_no_match_reports_nothing(
    vis: Seq<RecordModel>,
    dirname: Seq<char>,
    depth: int,
    es: Seq<EntryModel>,
)
    requires
        forall|i: int| 0 <= i < es.len() ==> !eq_ignore_ascii_case((#[trigger] es[i]).name, dirname),
    ensures
        matched_paths(vis, dirname, depth, es) =~= Seq::<Seq<char>>::empty(),
    decreases es.len(),
{
    if es.len() > 0 {
        lemma_no_match_reports_nothing(vis, dirname, depth, es.drop_last());
        assert(es[es.len() - 1] == es.last());
    }
}

/// A considered entry whose name matches the target is among the reported
/// paths: a matching directory within the depth bound is always reported.
pub proof fn lemma_match_is_reported(
    vis: Seq<RecordModel>,
    dirname: Seq<char>,
    depth: int,
    es: Seq<EntryModel>,
    i: int,
)
    requires
        0 <= i < es.len(),
        considered(vis, depth, es[i]),
        eq_ignore_ascii_case(es[i].name, dirname),
    ensures
        matched_paths(vis, dirname, depth, es).contains(es[i].path),
    decreases es.len(),
{
    let m = matched_paths(vis, dirname, depth, es);
    let mrest = matched_paths(vis, dirname, depth, es.drop_last());
    if i == es.len() - 1 {
        assert(es.last() == es[i]);
        assert(m[m.len() - 1] == es[i].path);
    } else {
        assert(es.drop_last()[i] == es[i]);
        lemma_match_is_reported(vis, dirname, depth, es.drop_last(), i);
        let k = choose|k: int| 0 <= k < mrest.len() && mrest[k] == es.drop_last()[i].path;
        assert(m[k] == es[i].path);
    }
}

/// Every reported path is some considered, matching entry's path.
pub proof fn lemma_matched_source(
    vis: Seq<RecordModel>,
    dirname: Seq<char>,
    depth: int,
    es: Seq<EntryModel>,
)
    ensures
        forall|a: int|
            0 <= a < matched_paths(vis, dirname, depth, es).len() ==> some_entry_matches(
                vis,
                dirname,
                depth,
                es,
                matched_paths(vis, dirname, depth, es)[a],
            ),
    decreases es.len(),
{
    let m = matched_paths(vis, dirname, depth, es);
    if es.len() > 0 {
        let mrest = matched_paths(vis, dirname, depth, es.drop_last());
        lemma_matched_source(vis, dirname, depth, es.drop_last());
        assert(es[es.len() - 1] == es.last());
        assert forall|a: int| 0 <= a < m.len() implies some_entry_matches(
            vis,
            dirname,
            depth,
            es,
            m[a],
        ) by {
            if a < mrest.len() {
                assert(m[a] == mrest[a]);
                let i = choose|i: int|
                    0 <= i < es.drop_last().len() && (#[trigger] es.drop_last()[i]).path == mrest[a]
                        && considered(vis, depth, es.drop_last()[i]) && eq_ignore_ascii_case(
                        es.drop_last()[i].name,
                        dirname,
                    );
                assert(es.drop_last()[i] == es[i]);
                assert((es[i]).path == m[a] && considered(vis, depth, es[i])
                    && eq_ignore_ascii_case(es[i].name, dirname));
            } else {
                assert((es[es.len() - 1]).path == m[a] && considered(vis, depth, es[es.len() - 1])
                    && eq_ignore_ascii_case(es[es.len() - 1].name, dirname));
            }
        }
    }
}

/// Every enqueued record carries some considered, non-matching entry's path,
/// at depth one deeper than the directory being expanded.
pub proof fn lemma_enqueued_source(
    vis: Seq<RecordModel>,
    dirname: Seq<char>,
    depth: int,
    es: Seq<EntryModel>,
)
    ensures
        forall|b: int|
            0 <= b < enqueued_records(vis, dirname, depth, es).len() ==> {
                &&& some_entry_feeds_queue(
                    vis,
                    dirname,
                    depth,
                    es,
                    (#[trigger] enqueued_records(vis, dirname, depth, es)[b]).path,
                )
                &&& enqueued_records(vis, dirname, depth, es)[b].depth == depth + 1
            },
    decreases es.len(),
{
    let q = enqueued_records(vis, dirname, depth, es);
    if es.len() > 0 {
        let qrest = enqueued_records(vis, dirname, depth, es.drop_last());
        lemma_enqueued_source(vis, dirname, depth, es.drop_last());
        assert(es[es.len() - 1] == es.last());
        assert forall|b: int| 0 <= b < q.len() implies some_entry_feeds_queue(
            vis,
            dirname,
            depth,
            es,
            q[b].path,
        ) && q[b].depth == depth + 1 by {
            if b < qrest.len() {
                assert(q[b] == qrest[b]);
                let i = choose|i: int|
                    0 <= i < es.drop_last().len() && (#[trigger] es.drop_last()[i]).path
                        == qrest[b].path && considered(vis, depth, es.drop_last()[i])
                        && !eq_ignore_ascii_case(es.drop_last()[i].name, dirname);
                assert(es.drop_last()[i] == es[i]);
                assert((es[i]).path == q[b].path && considered(vis, depth, es[i])
                    && !eq_ignore_ascii_case(es[i].name, dirname));
            } else {
                assert((es[es.len() - 1]).path == q[b].path && considered(
                    vis,
                    depth,
                    es[es.len() - 1],
                ) && !eq_ignore_ascii_case(es[es.len() - 1].name, dirname));
            }
        }
    }
}

/// A reported path is never enqueued: a matched directory is pruned whole,
/// never expanded, so nothing beneath it is independently revisited. Holds
/// whenever the entries carry pairwise distinct paths, as one directory's
/// entries always do.
pub proof fn lemma_matched_never_enqueued(
    vis: Seq<RecordModel>,
    dirname: Seq<char>,
    depth: int,
    es: Seq<EntryModel>,
)
    requires
        forall|i: int, j: int|
            0 <= i < j < es.len() ==> (#[trigger] es[i]).path != (#[trigger] es[j]).path,
    ensures
        forall|a: int, b: int|
            0 <= a < matched_paths(vis, dirname, depth, es).len() && 0 <= b < enqueued_records(
                vis,
                dirname,
                depth,
                es,
            ).len() ==> #[trigger] matched_paths(vis, dirname, depth, es)[a]
                != (#[trigger] enqueued_records(vis, dirname, depth, es)[b]).path,
{
    let m = matched_paths(vis, dirname, depth, es);
    let q = enqueued_records(vis, dirname, depth, es);
    lemma_matched_source(vis, dirname, depth, es);
    lemma_enqueued_source(vis, dirname, depth, es);
    assert forall|a: int, b: int| 0 <= a < m.len() && 0 <= b < q.len() implies m[a]
        != q[b].path by {
        if m[a] == q[b].path {
            let i1 = choose|i: int|
                0 <= i < es.len() && (#[trigger] es[i]).path == m[a] && considered(vis, depth, es[i])
                    && eq_ignore_ascii_case(es[i].name, dirname);
            let i2 = choose|i: int|
                0 <= i < es.len() && (#[trigger] es[i]).path == q[b].path && considered(
                    vis,
                    depth,
                    es[i],
                ) && !eq_ignore_ascii_case(es[i].name, dirname);
            if i1 == i2 {
                assert(false);
            } else if i1 < i2 {
                assert(es[i1].path != es[i2].path);
            } else {
                assert(es[i2].path != es[i1].path);
            }
        }
    }
}

/// No path is reported twice in one expansion, when the entries carry
/// pairwise distinct paths.
pub proof fn lemma_no_double_report(
    vis: Seq<RecordModel>,
    dirname: Seq<char>,
    depth: int,
    es: Seq<EntryModel>,
)
    requires
        forall|i: int, j: int|
            0 <= i < j < es.len() ==> (#[trigger] es[i]).path != (#[trigger] es[j]).path,
    ensures
        forall|a: int, b: int|
            0 <= a < b < matched_paths(vis, dirname, depth, es).len()
                ==> #[trigger] matched_paths(vis, dirname, depth, es)[a]
                != #[trigger] matched_paths(vis, dirname, depth, es)[b],
    decreases es.len(),
{
    let m = matched_paths(vis, dirname, depth, es);
    if es.len() > 0 {
        let mrest = matched_paths(vis, dirname, depth, es.drop_last());
        assert(forall|i: int, j: int|
            0 <= i < j < es.drop_last().len() ==> (#[trigger] es.drop_last()[i]).path
                != (#[trigger] es.drop_last()[j]).path);
        lemma_no_double_report(vis, dirname, depth, es.drop_last());
        lemma_matched_source(vis, dirname, depth, es.drop_last());
        assert(es[es.len() - 1] == es.last());
        assert forall|a: int, b: int| 0 <= a < b < m.len() implies m[a] != m[b] by {
            if b < mrest.len() {
                assert(m[a] == mrest[a] && m[b] == mrest[b]);
            } else if b == mrest.len() && m.len() > mrest.len() {
                // The last report is the last entry's path; every earlier
                // report is some earlier entry's path, and paths differ.
                assert(m[b] == es[es.len() - 1].path);
                assert(m[a] == mrest[a]);
                let i = choose|i: int|
                    0 <= i < es.drop_last().len() && (#[trigger] es.drop_last()[i]).path == mrest[a]
                        && considered(vis, depth, es.drop_last()[i]) && eq_ignore_ascii_case(
                        es.drop_last()[i].name,
                        dirname,
                    );
                assert(es[i].path != es[es.len() - 1].path);
            }
        }
    }
}

/// An entry reachable only through a symbolic link is never reported and
/// never enqueued, whatever its name: nothing behind a symbolic link is
/// deleted or descended into.
pub proof fn lemma_symlink_untouched(
    vis: Seq<RecordModel>,
    dirname: Seq<char>,
    depth: int,
    es: Seq<EntryModel>,
    p: Seq<char>,
)
    requires
        forall|i: int| 0 <= i < es.len() && (#[trigger] es[i]).path == p ==> es[i].is_symlink,
    ensures
        forall|a: int|
            0 <= a < matched_paths(vis, dirname, depth, es).len()
                ==> #[trigger] matched_paths(vis, dirname, depth, es)[a] != p,
        forall|b: int|
            0 <= b < enqueued_records(vis, dirname, depth, es).len()
                ==> (#[trigger] enqueued_records(vis, dirname, depth, es)[b]).path != p,
    decreases es.len(),
{
    if es.len() > 0 {
        let m = matched_paths(vis, dirname, depth, es);
        let mrest = matched_paths(vis, dirname, depth, es.drop_last());
        let q = enqueued_records(vis, dirname, depth, es);
        let qrest = enqueued_records(vis, dirname, depth, es.drop_last());
        assert(forall|i: int|
            0 <= i < es.drop_last().len() && (#[trigger] es.drop_last()[i]).path == p
                ==> es.drop_last()[i].is_symlink);
        lemma_symlink_untouched(vis, dirname, depth, es.drop_last(), p);
        assert(es[es.len() - 1] == es.last());
        assert forall|a: int| 0 <= a < m.len() implies m[a] != p by {
            if a < mrest.len() {
                assert(m[a] == mrest[a]);
            } else {
                assert(considered(vis, depth, es[es.len() - 1]));
                if m[a] == p {
                    assert(es[es.len() - 1].is_symlink);
                }
            }
        }
        assert forall|b: int| 0 <= b < q.len() implies q[b].path != p by {
            if b < qrest.len() {
                assert(q[b] == qrest[b]);
            } else {
                assert(considered(vis, depth, es[es.len() - 1]));
                if q[b].path == p {
                    assert(es[es.len() - 1].is_symlink);
                }
            }
        }
    }
}

/// The report of one expansion and the follow-up work it enqueues depend on
/// the visited set, the target name, the depth and the entries alone — never
/// on the dry-run flag. Dry and real runs therefore report identically; only
/// the caller's deletion side effect differs.
pub proof fn lemma_report_independent_of_dry(
    c1: ConfigModel,
    c2: ConfigModel,
    vis: Seq<RecordModel>,
    depth: int,
    es: Seq<EntryModel>,
)
    requires
        c1.dirname == c2.dirname,
        c1.max_depth == c2.max_depth,
    ensures
        matched_paths(vis, c1.dirname, depth, es) == matched_paths(vis, c2.dirname, depth, es),
        enqueued_records(vis, c1.dirname, depth, es) == enqueued_records(
            vis,
            c2.dirname,
            depth,
            es,
        ),
        within_depth(c1, depth) == within_depth(c2, depth),
{
}

/// How the depth bound is read: a bound of zero expands the root alone, so
/// only the root's immediate children are examined for a match; a negative
/// bound expands nothing (records never sit at negative depth); no bound
/// expands everything; a record within a set bound is expanded.
pub proof fn lemma_depth_bound_semantics(c: ConfigModel, depth: int)
    requires
        depth >= 0,
    ensures
        c.max_depth == Some(0int) ==> (within_depth(c, depth) <==> depth == 0),
        (c.max_depth matches Some(m) && m < 0) ==> !within_depth(c, depth),
        c.max_depth is None ==> within_depth(c, depth),
        (c.max_depth matches Some(m) && depth <= m) ==> within_depth(c, depth),
{
}

} // verus!
