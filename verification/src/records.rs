//! What the plan records of each watch: which watches stand on symlinks,
//! which entry is looked out for in each directory, and why.

use crate::builder::{
    after_dir_link_watch, after_dir_watch, climb, initial, next, settle, with_watch, BuilderView,
    PendingView, PlanReply, Stage, DIR_EVENTS, LINK_EVENTS,
};
use crate::event::WatchHandle;
use crate::path::{name_of, parent_of, resolved};
use crate::plan::PlanView;
use crate::tracking::watched;
use vstd::prelude::*;

verus! {

/// Whether every watch for the events of a link has its handle among the
/// symlinks on the way. With `but_last`, the watches on the last path of the
/// chain, which is the file itself, are left out.
pub open spec fn links_marked(plan: PlanView, but_last: bool) -> bool {
    forall|i: int|
        0 <= i < plan.watches.len() && (#[trigger] plan.watches[i]).mask.bits == LINK_EVENTS
            ==> plan.symlinks.contains(plan.watches[i].handle) || (but_last
            && plan.watches[i].path == plan.hops.last())
}

/// Whether a later watch on a directory came back under the handle of the
/// watch at `i`, so that its entry replaced the one recorded for `i`.
pub open spec fn replaced(plan: PlanView, i: int) -> bool {
    exists|j: int|
        i < j < plan.watches.len() && (#[trigger] plan.watches[j]).handle
            == plan.watches[i].handle && plan.watches[j].mask.bits == DIR_EVENTS
}

/// Whether every watch for the events of a directory names an entry, and the
/// plan looks out for that entry under the watch's handle, unless it was
/// replaced.
pub open spec fn children_recorded(plan: PlanView) -> bool {
    forall|i: int|
        0 <= i < plan.watches.len() && (#[trigger] plan.watches[i]).mask.bits == DIR_EVENTS ==> {
            &&& plan.watches[i].child is Some
            &&& plan.children.contains_key(plan.watches[i].handle)
            &&& (plan.children[plan.watches[i].handle] == plan.watches[i].child->0 || replaced(
                plan,
                i,
            ))
        }
}

/// Whether a symlink was watched in the place of a directory, with the same
/// entry to look out for, and led to `dir`.
pub open spec fn led(plan: PlanView, dir: Seq<Seq<u8>>, child: Seq<u8>) -> bool {
    exists|j: int|
        0 <= j < plan.watches.len() && (#[trigger] plan.watches[j]).target == Some(dir)
            && plan.watches[j].child == Some(child)
}

/// Why `child` is looked out for in `dir`: the entry of that name in `dir` is
/// a path of the chain, or a watched directory on the way, or `dir` is where
/// a symlink led that was watched for the same entry.
pub open spec fn justified(plan: PlanView, dir: Seq<Seq<u8>>, child: Seq<u8>) -> bool {
    plan.hops.contains(dir.push(child)) || watched(plan, dir.push(child)) || led(plan, dir, child)
}

/// Whether the entry of every watch that names one is justified.
pub open spec fn entries_justified(plan: PlanView) -> bool {
    forall|i: int|
        0 <= i < plan.watches.len() && (#[trigger] plan.watches[i]).child is Some ==> justified(
            plan,
            plan.watches[i].path,
            plan.watches[i].child->0,
        )
}

/// Whether the entry of every directory of the list is justified.
pub open spec fn dirs_justified(plan: PlanView, dirs: Seq<PendingView>) -> bool {
    forall|i: int|
        0 <= i < dirs.len() ==> justified(plan, (#[trigger] dirs[i]).dir, dirs[i].child)
}

/// What is kept of the records whatever the stage.
pub open spec fn kept(s: BuilderView) -> bool {
    &&& s.plan.hops.len() >= 1
    &&& children_recorded(s.plan)
    &&& entries_justified(s.plan)
    &&& dirs_justified(s.plan, s.round)
    &&& dirs_justified(s.plan, s.next_round)
    &&& links_marked(s.plan, true)
}

/// What holds of the builder at every moment, as far as the records go.
pub open spec fn recorded(s: BuilderView) -> bool {
    match s.stage {
        Stage::Failed => true,
        Stage::WatchingLink | Stage::ReadingLink => kept(s) && links_marked(s.plan, false)
            && s.plan.hops.last() == s.cursor,
        Stage::InspectingLink { watch } => {
            &&& kept(s)
            &&& s.plan.hops.last() == s.cursor
            &&& forall|i: int|
                0 <= i < s.plan.watches.len() && (#[trigger] s.plan.watches[i]).mask.bits
                    == LINK_EVENTS ==> s.plan.symlinks.contains(s.plan.watches[i].handle) || (
                s.plan.watches[i].handle == watch && s.plan.watches[i].path
                    == s.plan.hops.last())
        },
        Stage::InspectingDir | Stage::ReadingDirLink | Stage::WatchingDir | Stage::WatchingDirLink => kept(
            s,
        ) && justified(s.plan, s.cursor, s.child),
        Stage::Ready => kept(s),
    }
}

/// What a finished plan records.
pub open spec fn records(plan: PlanView) -> bool {
    &&& links_marked(plan, true)
    &&& children_recorded(plan)
    &&& entries_justified(plan)
}

/// Whether the plan grew out of `old_plan`: more watches behind the old
/// ones, more paths of the chain behind the old ones, more symlinks.
pub open spec fn grew(old_plan: PlanView, plan: PlanView) -> bool {
    &&& plan.watches.len() >= old_plan.watches.len()
    &&& forall|i: int|
        0 <= i < old_plan.watches.len() ==> #[trigger] plan.watches[i] == old_plan.watches[i]
    &&& plan.hops.len() >= old_plan.hops.len()
    &&& forall|k: int| 0 <= k < old_plan.hops.len() ==> #[trigger] plan.hops[k] == old_plan.hops[k]
    &&& forall|h: WatchHandle| old_plan.symlinks.contains(h) ==> plan.symlinks.contains(h)
}

proof fn lemma_justified_grows(
    old_plan: PlanView,
    plan: PlanView,
    dir: Seq<Seq<u8>>,
    child: Seq<u8>,
)
    requires
        grew(old_plan, plan),
        justified(old_plan, dir, child),
    ensures
        justified(plan, dir, child),
{
    let entry = dir.push(child);
    if old_plan.hops.contains(entry) {
        let k = choose|k: int| 0 <= k < old_plan.hops.len() && old_plan.hops[k] == entry;
        assert(plan.hops[k] == entry);
    } else if watched(old_plan, entry) {
        let i = choose|i: int|
            0 <= i < old_plan.watches.len() && (#[trigger] old_plan.watches[i]).path == entry;
        assert(plan.watches[i].path == entry);
    } else {
        let j = choose|j: int|
            0 <= j < old_plan.watches.len() && (#[trigger] old_plan.watches[j]).target == Some(dir)
                && old_plan.watches[j].child == Some(child);
        assert(plan.watches[j].target == Some(dir));
    }
}

proof fn lemma_dirs_grow(old_plan: PlanView, plan: PlanView, dirs: Seq<PendingView>)
    requires
        grew(old_plan, plan),
        dirs_justified(old_plan, dirs),
    ensures
        dirs_justified(plan, dirs),
{
    assert forall|i: int| 0 <= i < dirs.len() implies justified(
        plan,
        (#[trigger] dirs[i]).dir,
        dirs[i].child,
    ) by {
        lemma_justified_grows(old_plan, plan, dirs[i].dir, dirs[i].child);
    }
}

proof fn lemma_dirs_push(plan: PlanView, dirs: Seq<PendingView>, item: PendingView)
    requires
        dirs_justified(plan, dirs),
        justified(plan, item.dir, item.child),
    ensures
        dirs_justified(plan, dirs.push(item)),
{
    let grown = dirs.push(item);
    assert forall|i: int| 0 <= i < grown.len() implies justified(
        plan,
        (#[trigger] grown[i]).dir,
        grown[i].child,
    ) by {
        if i < dirs.len() {
            assert(grown[i] == dirs[i]);
        }
    }
}

/// One more watch keeps the records, if the new watch is itself in order:
/// a watch for the events of a directory puts its entry under its handle, and
/// a watch that names an entry has a reason for it.
proof fn lemma_records_grow(old_plan: PlanView, plan: PlanView)
    requires
        children_recorded(old_plan),
        entries_justified(old_plan),
        grew(old_plan, plan),
        plan.watches.len() == old_plan.watches.len() + 1,
        ({
            let fresh = plan.watches.last();
            &&& fresh.child matches Some(child) ==> justified(old_plan, fresh.path, child)
                || justified(plan, fresh.path, child)
            &&& if fresh.mask.bits == DIR_EVENTS {
                fresh.child is Some && plan.children == old_plan.children.insert(
                    fresh.handle,
                    fresh.child->0,
                )
            } else {
                plan.children == old_plan.children
            }
        }),
    ensures
        children_recorded(plan),
        entries_justified(plan),
{
    let n = old_plan.watches.len() as int;
    let fresh = plan.watches.last();
    assert(plan.watches[n] == fresh);
    assert forall|i: int|
        0 <= i < plan.watches.len() && (#[trigger] plan.watches[i]).child is Some implies justified(
        plan,
        plan.watches[i].path,
        plan.watches[i].child->0,
    ) by {
        if i < n {
            assert(plan.watches[i] == old_plan.watches[i]);
            lemma_justified_grows(
                old_plan,
                plan,
                old_plan.watches[i].path,
                old_plan.watches[i].child->0,
            );
        } else if justified(old_plan, fresh.path, fresh.child->0) {
            lemma_justified_grows(old_plan, plan, fresh.path, fresh.child->0);
        }
    }
    assert forall|i: int|
        0 <= i < plan.watches.len() && (#[trigger] plan.watches[i]).mask.bits
            == DIR_EVENTS implies {
        &&& plan.watches[i].child is Some
        &&& plan.children.contains_key(plan.watches[i].handle)
        &&& (plan.children[plan.watches[i].handle] == plan.watches[i].child->0 || replaced(
            plan,
            i,
        ))
    } by {
        if i < n {
            let w = old_plan.watches[i];
            assert(plan.watches[i] == w);
            if fresh.mask.bits == DIR_EVENTS && fresh.handle == w.handle {
                assert(plan.watches[n].handle == w.handle);
                assert(replaced(plan, i));
            } else if replaced(old_plan, i) {
                let j = choose|j: int|
                    i < j < old_plan.watches.len() && (#[trigger] old_plan.watches[j]).handle
                        == w.handle && old_plan.watches[j].mask.bits == DIR_EVENTS;
                assert(plan.watches[j] == old_plan.watches[j]);
                assert(replaced(plan, i));
            }
        }
    }
}

/// The builder starts with nothing recorded and nothing amiss.
pub proof fn lemma_initial_recorded(target: Seq<Seq<u8>>)
    ensures
        recorded(initial(target).0),
{
    let s = initial(target).0;
    assert(s.plan.hops.len() == 1);
    assert(s.plan.hops.last() == target);
}

/// Picking the next directory keeps the records.
pub proof fn lemma_settle_recorded(s: BuilderView)
    requires
        kept(s),
    ensures
        recorded(settle(s).0),
    decreases s.next_round.len(), s.round.len(),
{
    if s.round.len() > 0 {
        let item = s.round.last();
        let rest = BuilderView { round: s.round.drop_last(), ..s };
        assert(dirs_justified(s.plan, rest.round)) by {
            assert forall|i: int| 0 <= i < rest.round.len() implies justified(
                s.plan,
                (#[trigger] rest.round[i]).dir,
                rest.round[i].child,
            ) by {
                assert(rest.round[i] == s.round[i]);
            }
        }
        if s.seen.contains(item.dir) {
            lemma_settle_recorded(rest);
        }
    } else if s.next_round.len() == 0 {
    } else if s.rounds >= crate::builder::MAX_ITER {
    } else {
        lemma_settle_recorded(
            BuilderView {
                round: s.next_round,
                next_round: Seq::empty(),
                rounds: s.rounds + 1,
                ..s
            },
        );
    }
}

/// Going on to the directory above keeps the records, once the directory
/// under the cursor is watched.
pub proof fn lemma_climb_recorded(s: BuilderView)
    requires
        kept(s),
        watched(s.plan, s.cursor),
    ensures
        recorded(climb(s).0),
{
    let done = BuilderView { seen: s.seen.push(s.cursor), ..s };
    lemma_settle_recorded(done);
    if let Some(up) = parent_of(s.cursor) {
        if let Some(name) = name_of(s.cursor) {
            assert(up.push(name) =~= s.cursor);
        }
    }
}

/// Whatever the reply, the records stay in order.
pub proof fn lemma_next_recorded(s: BuilderView, reply: PlanReply)
    requires
        recorded(s),
    ensures
        recorded(next(s, reply).0),
{
    crate::builder::lemma_watch_masks();
    match (s.stage, reply) {
        (Stage::Ready, _) | (Stage::Failed, _) => {},
        (_, PlanReply::Failed(error)) => {},
        (Stage::WatchingLink, PlanReply::Watched(watch)) => {
            let plan = with_watch(s.plan, watch, s.cursor, LINK_EVENTS);
            assert(plan.watches.last() == plan.watches[s.plan.watches.len() as int]);
            lemma_records_grow(s.plan, plan);
            lemma_dirs_grow(s.plan, plan, s.round);
            lemma_dirs_grow(s.plan, plan, s.next_round);
            assert forall|i: int|
                0 <= i < plan.watches.len() && (#[trigger] plan.watches[i]).mask.bits
                    == LINK_EVENTS implies plan.symlinks.contains(plan.watches[i].handle) || (
            plan.watches[i].handle == watch && plan.watches[i].path == plan.hops.last()) by {
                if i < s.plan.watches.len() {
                    assert(plan.watches[i] == s.plan.watches[i]);
                }
            }
            if let Some(dir) = parent_of(s.cursor) {
                if let Some(child) = name_of(s.cursor) {
                    assert(dir.push(child) =~= s.cursor);
                    assert(plan.hops[plan.hops.len() - 1] == s.cursor);
                    assert(plan.hops.contains(dir.push(child)));
                    lemma_dirs_push(plan, s.next_round, PendingView { dir, child });
                }
            }
        },
        (Stage::InspectingLink { watch }, PlanReply::Inspected { is_symlink }) => {
            if is_symlink {
                let plan = PlanView { symlinks: s.plan.symlinks.insert(watch), ..s.plan };
                lemma_dirs_grow(s.plan, plan, s.round);
                lemma_dirs_grow(s.plan, plan, s.next_round);
                assert(children_recorded(plan)) by {
                    assert forall|i: int|
                        0 <= i < plan.watches.len() && (#[trigger] plan.watches[i]).mask.bits
                            == DIR_EVENTS implies replaced(s.plan, i) ==> replaced(plan, i) by {
                        if replaced(s.plan, i) {
                            let j = choose|j: int|
                                i < j < s.plan.watches.len() && (#[trigger] s.plan.watches[j]).handle
                                    == s.plan.watches[i].handle && s.plan.watches[j].mask.bits
                                    == DIR_EVENTS;
                            assert(plan.watches[j].handle == plan.watches[i].handle);
                        }
                    }
                }
                assert(entries_justified(plan)) by {
                    assert forall|i: int|
                        0 <= i < plan.watches.len() && (#[trigger] plan.watches[i]).child
                            is Some implies justified(
                        plan,
                        plan.watches[i].path,
                        plan.watches[i].child->0,
                    ) by {
                        lemma_justified_grows(
                            s.plan,
                            plan,
                            s.plan.watches[i].path,
                            s.plan.watches[i].child->0,
                        );
                    }
                }
            } else {
                lemma_settle_recorded(s);
            }
        },
        (Stage::ReadingLink, PlanReply::Link(link)) => {
            if let Some(target) = resolved(s.cursor, link@) {
                let plan = PlanView { hops: s.plan.hops.push(target), ..s.plan };
                lemma_dirs_grow(s.plan, plan, s.round);
                lemma_dirs_grow(s.plan, plan, s.next_round);
                assert(children_recorded(plan)) by {
                    assert forall|i: int|
                        0 <= i < plan.watches.len() && (#[trigger] plan.watches[i]).mask.bits
                            == DIR_EVENTS implies replaced(s.plan, i) ==> replaced(plan, i) by {
                        if replaced(s.plan, i) {
                            let j = choose|j: int|
                                i < j < s.plan.watches.len() && (#[trigger] s.plan.watches[j]).handle
                                    == s.plan.watches[i].handle && s.plan.watches[j].mask.bits
                                    == DIR_EVENTS;
                            assert(plan.watches[j].handle == plan.watches[i].handle);
                        }
                    }
                }
                assert(entries_justified(plan)) by {
                    assert forall|i: int|
                        0 <= i < plan.watches.len() && (#[trigger] plan.watches[i]).child
                            is Some implies justified(
                        plan,
                        plan.watches[i].path,
                        plan.watches[i].child->0,
                    ) by {
                        lemma_justified_grows(
                            s.plan,
                            plan,
                            s.plan.watches[i].path,
                            s.plan.watches[i].child->0,
                        );
                    }
                }
                assert(plan.hops.last() == target);
            }
        },
        (Stage::InspectingDir, PlanReply::Inspected { is_symlink }) => {},
        (Stage::ReadingDirLink, PlanReply::Link(link)) => {},
        (Stage::WatchingDirLink, PlanReply::Watched(watch)) => {
            let after = after_dir_link_watch(s, watch);
            let n = s.plan.watches.len() as int;
            assert(after.plan.watches.last() == after.plan.watches[n]);
            lemma_records_grow(s.plan, after.plan);
            lemma_dirs_grow(s.plan, after.plan, s.round);
            lemma_dirs_grow(s.plan, after.plan, s.next_round);
            assert(led(after.plan, s.link, s.child)) by {
                assert(after.plan.watches[n].target == Some(s.link));
            }
            lemma_dirs_push(after.plan, s.next_round, PendingView { dir: s.link, child: s.child });
            assert(links_marked(after.plan, true)) by {
                assert forall|i: int|
                    0 <= i < after.plan.watches.len() && (#[trigger] after.plan.watches[i]).mask.bits
                        == LINK_EVENTS implies after.plan.symlinks.contains(
                    after.plan.watches[i].handle,
                ) || after.plan.watches[i].path == after.plan.hops.last() by {
                    if i < n {
                        assert(after.plan.watches[i] == s.plan.watches[i]);
                    }
                }
            }
            assert(watched(after.plan, s.cursor)) by {
                assert(after.plan.watches[n].path == s.cursor);
            }
            lemma_climb_recorded(after);
        },
        (Stage::WatchingDir, PlanReply::Watched(watch)) => {
            let after = after_dir_watch(s, watch);
            let n = s.plan.watches.len() as int;
            assert(after.plan.watches.last() == after.plan.watches[n]);
            lemma_records_grow(s.plan, after.plan);
            lemma_dirs_grow(s.plan, after.plan, s.round);
            lemma_dirs_grow(s.plan, after.plan, s.next_round);
            assert(links_marked(after.plan, true)) by {
                assert forall|i: int|
                    0 <= i < after.plan.watches.len() && (#[trigger] after.plan.watches[i]).mask.bits
                        == LINK_EVENTS implies after.plan.symlinks.contains(
                    after.plan.watches[i].handle,
                ) || after.plan.watches[i].path == after.plan.hops.last() by {
                    if i < n {
                        assert(after.plan.watches[i] == s.plan.watches[i]);
                    }
                }
            }
            assert(watched(after.plan, s.cursor)) by {
                assert(after.plan.watches[n].path == s.cursor);
            }
            lemma_climb_recorded(after);
        },
        _ => {},
    }
}

} // verus!
