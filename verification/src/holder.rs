//! The directory that holds the file itself is watched for the file's name:
//! a file renamed over the file is noticed there.

use crate::builder::{
    after_dir_link_watch, after_dir_watch, climb, initial, next, settle, with_watch, BuilderView,
    PendingView, PlanReply, Stage, LINK_EVENTS,
};
use crate::path::{name_of, parent_of, resolved};
use crate::plan::PlanView;
use crate::tracking::lemma_settle_keeps_plan;
use vstd::prelude::*;

verus! {

/// Whether the plan holds a watch on `dir` that names `child` as the entry to
/// look out for.
pub open spec fn watched_for(plan: PlanView, dir: Seq<Seq<u8>>, child: Seq<u8>) -> bool {
    exists|i: int|
        0 <= i < plan.watches.len() && (#[trigger] plan.watches[i]).path == dir
            && plan.watches[i].child == Some(child)
}

/// Whether the directory that holds the last path of the chain, which is the
/// file itself, is watched for the name of the file. The root, which no
/// directory holds, asks for nothing.
pub open spec fn holder_watched(plan: PlanView) -> bool {
    let file = plan.hops.last();
    file.len() > 0 ==> watched_for(plan, file.drop_last(), file.last())
}

/// What holds of the builder at every moment, as far as the directory that
/// holds the file goes.
pub open spec fn holder_kept(s: BuilderView) -> bool {
    let file = s.plan.hops.last();
    match s.stage {
        Stage::Failed => true,
        Stage::WatchingLink | Stage::ReadingLink => {
            &&& s.plan.hops.len() >= 1
            &&& file == s.cursor
            &&& s.seen.len() == 0
            &&& s.round.len() == 0
        },
        Stage::InspectingLink { watch } => {
            &&& s.plan.hops.len() >= 1
            &&& file == s.cursor
            &&& s.seen.len() == 0
            &&& s.round.len() == 0
            &&& (file.len() > 0 ==> s.next_round.len() > 0 && s.next_round.last() == (PendingView {
                dir: file.drop_last(),
                child: file.last(),
            }))
        },
        Stage::InspectingDir | Stage::ReadingDirLink | Stage::WatchingDir | Stage::WatchingDirLink => {
            &&& s.plan.hops.len() >= 1
            &&& (holder_watched(s.plan) || (s.cursor == file.drop_last() && s.child
                == file.last()))
        },
        Stage::Ready => s.plan.hops.len() >= 1 && holder_watched(s.plan),
    }
}

proof fn lemma_holder_grows(old_plan: PlanView, plan: PlanView)
    requires
        holder_watched(old_plan),
        plan.hops == old_plan.hops,
        plan.watches.len() >= old_plan.watches.len(),
        forall|i: int|
            0 <= i < old_plan.watches.len() ==> #[trigger] plan.watches[i]
                == old_plan.watches[i],
    ensures
        holder_watched(plan),
{
    let file = plan.hops.last();
    if file.len() > 0 {
        let i = choose|i: int|
            0 <= i < old_plan.watches.len() && (#[trigger] old_plan.watches[i]).path
                == file.drop_last() && old_plan.watches[i].child == Some(file.last());
        assert(plan.watches[i].path == file.drop_last());
    }
}

/// The builder starts with the target as the file.
pub proof fn lemma_initial_holder(target: Seq<Seq<u8>>)
    ensures
        holder_kept(initial(target).0),
{
    let s = initial(target).0;
    assert(s.plan.hops.len() == 1);
    assert(s.plan.hops.last() == target);
}

/// Picking the next directory takes nothing from a holder that is watched.
proof fn lemma_settle_holder(s: BuilderView)
    requires
        s.plan.hops.len() >= 1,
        holder_watched(s.plan),
    ensures
        holder_kept(settle(s).0),
    decreases s.next_round.len(), s.round.len(),
{
    lemma_settle_keeps_plan(s);
    if s.round.len() > 0 {
        if s.seen.contains(s.round.last().dir) {
            lemma_settle_holder(BuilderView { round: s.round.drop_last(), ..s });
        }
    } else if s.next_round.len() == 0 {
    } else if s.rounds >= crate::builder::MAX_ITER {
    } else {
        lemma_settle_holder(
            BuilderView {
                round: s.next_round,
                next_round: Seq::empty(),
                rounds: s.rounds + 1,
                ..s
            },
        );
    }
}

/// When the chain has ended, the first directory to be examined is the one
/// that holds the file, for the name of the file.
proof fn lemma_settle_first(s: BuilderView)
    requires
        s.plan.hops.len() >= 1,
        s.round.len() == 0,
        s.seen.len() == 0,
        s.plan.hops.last().len() > 0 ==> s.next_round.len() > 0 && s.next_round.last()
            == (PendingView {
            dir: s.plan.hops.last().drop_last(),
            child: s.plan.hops.last().last(),
        }),
    ensures
        holder_kept(settle(s).0),
{
    let file = s.plan.hops.last();
    if file.len() == 0 {
        lemma_settle_holder(s);
    } else if s.rounds >= crate::builder::MAX_ITER {
    } else {
        let begun = BuilderView {
            round: s.next_round,
            next_round: Seq::empty(),
            rounds: s.rounds + 1,
            ..s
        };
        assert(settle(s) == settle(begun));
        let item = begun.round.last();
        assert(!begun.seen.contains(item.dir));
        let rest = BuilderView { round: begun.round.drop_last(), ..begun };
        let t = BuilderView {
            stage: Stage::InspectingDir,
            cursor: item.dir,
            child: item.child,
            ..rest
        };
        assert(settle(begun).0 == t);
    }
}

/// Going on to the directory above takes nothing from the holder, once the
/// directory under the cursor is watched for its entry.
proof fn lemma_climb_holder(s: BuilderView)
    requires
        s.plan.hops.len() >= 1,
        holder_watched(s.plan),
    ensures
        holder_kept(climb(s).0),
{
    let done = BuilderView { seen: s.seen.push(s.cursor), ..s };
    lemma_settle_holder(done);
}

/// Whatever the reply, the holder of the file is not lost.
pub proof fn lemma_next_holder(s: BuilderView, reply: PlanReply)
    requires
        holder_kept(s),
    ensures
        holder_kept(next(s, reply).0),
{
    let file = s.plan.hops.last();
    match (s.stage, reply) {
        (Stage::Ready, _) | (Stage::Failed, _) => {},
        (_, PlanReply::Failed(error)) => {},
        (Stage::WatchingLink, PlanReply::Watched(watch)) => {
            if let Some(dir) = parent_of(s.cursor) {
                if let Some(child) = name_of(s.cursor) {
                    let item = PendingView { dir, child };
                    assert(s.next_round.push(item).last() == item);
                }
            }
        },
        (Stage::InspectingLink { watch }, PlanReply::Inspected { is_symlink }) => {
            if !is_symlink {
                lemma_settle_first(s);
            }
        },
        (Stage::ReadingLink, PlanReply::Link(link)) => {
            if let Some(target) = resolved(s.cursor, link@) {
                assert(s.plan.hops.push(target).last() == target);
            }
        },
        (Stage::InspectingDir, PlanReply::Inspected { is_symlink }) => {},
        (Stage::ReadingDirLink, PlanReply::Link(link)) => {},
        (Stage::WatchingDirLink, PlanReply::Watched(watch)) => {
            let after = after_dir_link_watch(s, watch);
            let n = s.plan.watches.len() as int;
            if holder_watched(s.plan) {
                lemma_holder_grows(s.plan, after.plan);
            } else {
                assert(after.plan.watches[n].path == file.drop_last());
                assert(after.plan.watches[n].child == Some(file.last()));
                assert(file.len() > 0 ==> watched_for(after.plan, file.drop_last(), file.last()));
            }
            lemma_climb_holder(after);
        },
        (Stage::WatchingDir, PlanReply::Watched(watch)) => {
            let after = after_dir_watch(s, watch);
            let n = s.plan.watches.len() as int;
            if holder_watched(s.plan) {
                lemma_holder_grows(s.plan, after.plan);
            } else {
                assert(after.plan.watches[n].path == file.drop_last());
                assert(after.plan.watches[n].child == Some(file.last()));
                assert(file.len() > 0 ==> watched_for(after.plan, file.drop_last(), file.last()));
            }
            lemma_climb_holder(after);
        },
        _ => {},
    }
}

} // verus!
