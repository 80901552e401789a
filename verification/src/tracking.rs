//! The builder loses no path on the way: every path of the symlink chain is
//! watched as a link, every link of the chain is known as one, and every
//! directory above a path of the chain is watched.

use crate::builder::{
    after_dir_link_watch, after_dir_watch, climb, initial, next, settle, with_watch, BuilderView,
    PendingView, PlanReply, Stage, LINK_EVENTS,
};
use crate::event::WatchHandle;
use crate::path::{leads_to, name_of, parent_of, resolved};
use crate::plan::PlanView;
use vstd::prelude::*;

verus! {

/// Whether the plan holds a watch on `path`.
pub open spec fn watched(plan: PlanView, path: Seq<Seq<u8>>) -> bool {
    exists|i: int| 0 <= i < plan.watches.len() && (#[trigger] plan.watches[i]).path == path
}

/// Whether the plan holds a watch on `path` for the events of a link.
pub open spec fn watched_as_link(plan: PlanView, path: Seq<Seq<u8>>) -> bool {
    exists|i: int|
        0 <= i < plan.watches.len() && (#[trigger] plan.watches[i]).path == path
            && plan.watches[i].mask.bits == LINK_EVENTS
}

/// Whether the plan holds a watch on `path` whose handle is known as that of
/// a symlink of the chain.
pub open spec fn marked(plan: PlanView, path: Seq<Seq<u8>>) -> bool {
    exists|i: int|
        0 <= i < plan.watches.len() && (#[trigger] plan.watches[i]).path == path
            && plan.symlinks.contains(plan.watches[i].handle)
}

/// Whether `dir` is a directory above `path`.
pub open spec fn above(dir: Seq<Seq<u8>>, path: Seq<Seq<u8>>) -> bool {
    dir.len() < path.len() && path.take(dir.len() as int) == dir
}

/// Whether `dir` is among the directories of the list.
pub open spec fn queued(dirs: Seq<PendingView>, dir: Seq<Seq<u8>>) -> bool {
    exists|i: int| 0 <= i < dirs.len() && (#[trigger] dirs[i]).dir == dir
}

/// Whether `dir` was dealt with, or is still to be: in this round, in the
/// next, or right now.
pub open spec fn reachable(s: BuilderView, flight: bool, dir: Seq<Seq<u8>>) -> bool {
    s.seen.contains(dir) || queued(s.round, dir) || queued(s.next_round, dir) || (flight
        && s.cursor == dir)
}

/// Whether a path of the chain is watched as a link and the directory that
/// holds it is taken care of.
pub open spec fn hop_covered(s: BuilderView, flight: bool, hop: Seq<Seq<u8>>) -> bool {
    watched_as_link(s.plan, hop) && (hop.len() > 0 ==> reachable(s, flight, hop.drop_last()))
}

/// What the builder has achieved so far. `flight` says whether the cursor
/// stands on a directory that is being dealt with, `last_pending` whether the
/// last path of the chain is still to be watched.
pub open spec fn achieved(s: BuilderView, flight: bool, last_pending: bool) -> bool {
    let n = s.plan.hops.len();
    &&& n >= 1
    &&& forall|i: int| 0 <= i < s.seen.len() ==> watched(s.plan, #[trigger] s.seen[i])
    &&& forall|i: int, a: Seq<Seq<u8>>|
        0 <= i < s.seen.len() && #[trigger] above(a, s.seen[i]) ==> s.seen.contains(a) || (flight
            && leads_to(a, s.cursor) && above(s.cursor, s.seen[i]))
    &&& forall|k: int|
        0 <= k < n - (if last_pending {
            1int
        } else {
            0int
        }) ==> hop_covered(s, flight, #[trigger] s.plan.hops[k])
    &&& forall|k: int| 0 <= k < n - 1 ==> marked(s.plan, #[trigger] s.plan.hops[k])
}

/// What holds of the builder at every moment, as far as the watches go.
pub open spec fn tracking(s: BuilderView) -> bool {
    match s.stage {
        Stage::Failed => true,
        Stage::WatchingLink => achieved(s, false, true) && s.plan.hops.last() == s.cursor,
        Stage::InspectingLink { watch } => {
            &&& achieved(s, false, false)
            &&& s.plan.hops.last() == s.cursor
            &&& exists|i: int|
                0 <= i < s.plan.watches.len() && (#[trigger] s.plan.watches[i]).path == s.cursor
                    && s.plan.watches[i].handle == watch
        },
        Stage::ReadingLink => achieved(s, false, false) && s.plan.hops.last() == s.cursor
            && marked(s.plan, s.cursor),
        Stage::InspectingDir | Stage::ReadingDirLink | Stage::WatchingDir | Stage::WatchingDirLink => achieved(
            s,
            true,
            false,
        ),
        Stage::Ready => achieved(s, false, false) && s.round.len() == 0 && s.next_round.len()
            == 0,
    }
}

/// What a finished plan covers.
pub open spec fn reaches(plan: PlanView) -> bool {
    &&& plan.hops.len() >= 1
    &&& forall|k: int| 0 <= k < plan.hops.len() ==> watched_as_link(plan, #[trigger] plan.hops[k])
    &&& forall|k: int| 0 <= k < plan.hops.len() - 1 ==> marked(plan, #[trigger] plan.hops[k])
    &&& forall|k: int, dir: Seq<Seq<u8>>|
        0 <= k < plan.hops.len() && #[trigger] above(dir, plan.hops[k]) ==> watched(plan, dir)
}

proof fn lemma_above(a: Seq<Seq<u8>>, c: Seq<Seq<u8>>, d: Seq<Seq<u8>>)
    ensures
        leads_to(a, c) && above(c, d) ==> above(a, d),
        leads_to(a, c) && a != c ==> above(a, c),
        above(a, c) ==> leads_to(a, c.drop_last()),
        c.len() > 0 ==> above(c.drop_last(), c),
        above(a, c) && above(c, d) ==> above(a, d),
{
    if leads_to(a, c) && above(c, d) {
        assert(d.take(a.len() as int) =~= d.take(c.len() as int).take(a.len() as int));
    }
    if leads_to(a, c) && a != c {
        if a.len() == c.len() {
            assert(c.take(c.len() as int) =~= c);
        }
    }
    if above(a, c) {
        assert(c.drop_last().take(a.len() as int) =~= c.take(a.len() as int));
    }
    if c.len() > 0 {
        assert(c.take(c.len() - 1) =~= c.drop_last());
    }
    if above(a, c) && above(c, d) {
        assert(d.take(a.len() as int) =~= d.take(c.len() as int).take(a.len() as int));
    }
}

pub proof fn lemma_plan_grows(old_plan: PlanView, new_plan: PlanView, path: Seq<Seq<u8>>)
    requires
        new_plan.watches.len() >= old_plan.watches.len(),
        forall|i: int|
            0 <= i < old_plan.watches.len() ==> #[trigger] new_plan.watches[i]
                == old_plan.watches[i],
        forall|h: WatchHandle| old_plan.symlinks.contains(h) ==> new_plan.symlinks.contains(h),
    ensures
        watched(old_plan, path) ==> watched(new_plan, path),
        watched_as_link(old_plan, path) ==> watched_as_link(new_plan, path),
        marked(old_plan, path) ==> marked(new_plan, path),
{
    if watched(old_plan, path) {
        let i = choose|i: int|
            0 <= i < old_plan.watches.len() && (#[trigger] old_plan.watches[i]).path == path;
        assert(new_plan.watches[i].path == path);
    }
    if watched_as_link(old_plan, path) {
        let i = choose|i: int|
            0 <= i < old_plan.watches.len() && (#[trigger] old_plan.watches[i]).path == path
                && old_plan.watches[i].mask.bits == LINK_EVENTS;
        assert(new_plan.watches[i].path == path);
    }
    if marked(old_plan, path) {
        let i = choose|i: int|
            0 <= i < old_plan.watches.len() && (#[trigger] old_plan.watches[i]).path == path
                && old_plan.symlinks.contains(old_plan.watches[i].handle);
        assert(new_plan.watches[i].path == path);
    }
}

/// What was achieved stays achieved when the plan grows and nothing else
/// changes.
proof fn lemma_achieved_grows(s: BuilderView, plan: PlanView, flight: bool, last_pending: bool)
    requires
        achieved(s, flight, last_pending),
        plan.hops == s.plan.hops,
        plan.watches.len() >= s.plan.watches.len(),
        forall|i: int|
            0 <= i < s.plan.watches.len() ==> #[trigger] plan.watches[i] == s.plan.watches[i],
        forall|h: WatchHandle| s.plan.symlinks.contains(h) ==> plan.symlinks.contains(h),
    ensures
        achieved(BuilderView { plan, ..s }, flight, last_pending),
{
    let t = BuilderView { plan, ..s };
    assert forall|i: int| 0 <= i < t.seen.len() implies watched(t.plan, #[trigger] t.seen[i]) by {
        lemma_plan_grows(s.plan, plan, s.seen[i]);
    }
    let n = s.plan.hops.len();
    assert forall|k: int|
        0 <= k < n - (if last_pending {
            1int
        } else {
            0int
        }) implies hop_covered(t, flight, #[trigger] t.plan.hops[k]) by {
        assert(hop_covered(s, flight, s.plan.hops[k]));
        lemma_plan_grows(s.plan, plan, s.plan.hops[k]);
    }
    assert forall|k: int| 0 <= k < n - 1 implies marked(t.plan, #[trigger] t.plan.hops[k]) by {
        assert(marked(s.plan, s.plan.hops[k]));
        lemma_plan_grows(s.plan, plan, s.plan.hops[k]);
    }
}

pub proof fn lemma_queued_push(dirs: Seq<PendingView>, item: PendingView, dir: Seq<Seq<u8>>)
    ensures
        queued(dirs, dir) ==> queued(dirs.push(item), dir),
        queued(dirs.push(item), item.dir),
{
    if queued(dirs, dir) {
        let i = choose|i: int| 0 <= i < dirs.len() && (#[trigger] dirs[i]).dir == dir;
        assert(dirs.push(item)[i].dir == dir);
    }
    assert(dirs.push(item)[dirs.len() as int].dir == item.dir);
}

/// The builder starts with nothing achieved and nothing amiss.
pub proof fn lemma_initial_tracking(target: Seq<Seq<u8>>)
    ensures
        tracking(initial(target).0),
{
    let s = initial(target).0;
    assert(s.plan.hops.len() == 1);
    assert(s.plan.hops.last() == target);
}

/// Picking the next directory loses nothing.
pub proof fn lemma_settle_tracking(s: BuilderView)
    requires
        achieved(s, false, false),
    ensures
        tracking(settle(s).0),
    decreases s.next_round.len(), s.round.len(),
{
    let n = s.plan.hops.len();
    if s.round.len() > 0 {
        let item = s.round.last();
        let rest = BuilderView { round: s.round.drop_last(), ..s };
        assert forall|dir: Seq<Seq<u8>>| queued(s.round, dir) implies dir == item.dir || queued(
            rest.round,
            dir,
        ) by {
            let i = choose|i: int| 0 <= i < s.round.len() && (#[trigger] s.round[i]).dir == dir;
            if i < rest.round.len() {
                assert(rest.round[i].dir == dir);
            }
        }
        if s.seen.contains(item.dir) {
            assert forall|k: int| 0 <= k < n implies hop_covered(
                rest,
                false,
                #[trigger] rest.plan.hops[k],
            ) by {
                assert(hop_covered(s, false, s.plan.hops[k]));
            }
            assert(achieved(rest, false, false));
            lemma_settle_tracking(rest);
        } else {
            let t = BuilderView {
                stage: Stage::InspectingDir,
                cursor: item.dir,
                child: item.child,
                ..rest
            };
            assert forall|k: int| 0 <= k < n implies hop_covered(
                t,
                true,
                #[trigger] t.plan.hops[k],
            ) by {
                assert(hop_covered(s, false, s.plan.hops[k]));
            }
            assert(achieved(t, true, false));
        }
    } else if s.next_round.len() == 0 {
        let t = BuilderView { stage: Stage::Ready, ..s };
        assert forall|k: int| 0 <= k < n implies hop_covered(
            t,
            false,
            #[trigger] t.plan.hops[k],
        ) by {
            assert(hop_covered(s, false, s.plan.hops[k]));
        }
        assert(achieved(t, false, false));
    } else if s.rounds >= crate::builder::MAX_ITER {
    } else {
        let begun = BuilderView {
            round: s.next_round,
            next_round: Seq::empty(),
            rounds: s.rounds + 1,
            ..s
        };
        assert forall|k: int| 0 <= k < n implies hop_covered(
            begun,
            false,
            #[trigger] begun.plan.hops[k],
        ) by {
            assert(hop_covered(s, false, s.plan.hops[k]));
        }
        assert(achieved(begun, false, false));
        lemma_settle_tracking(begun);
    }
}

/// Going on to the directory above loses nothing, once the directory under
/// the cursor is watched.
pub proof fn lemma_climb_tracking(s: BuilderView)
    requires
        achieved(s, true, false),
        watched(s.plan, s.cursor),
    ensures
        tracking(climb(s).0),
{
    let n = s.plan.hops.len();
    let done = BuilderView { seen: s.seen.push(s.cursor), ..s };
    assert(done.seen.last() == s.cursor);
    assert forall|i: int| 0 <= i < done.seen.len() implies watched(
        done.plan,
        #[trigger] done.seen[i],
    ) by {
        if i < s.seen.len() {
            assert(done.seen[i] == s.seen[i]);
        }
    }
    assert forall|dir: Seq<Seq<u8>>| s.seen.contains(dir) implies done.seen.contains(dir) by {
        let i = choose|i: int| 0 <= i < s.seen.len() && s.seen[i] == dir;
        assert(done.seen[i] == dir);
    }
    assert(done.seen.contains(s.cursor)) by {
        assert(done.seen[s.seen.len() as int] == s.cursor);
    }
    assert forall|k: int| 0 <= k < n implies hop_covered(
        done,
        false,
        #[trigger] done.plan.hops[k],
    ) by {
        assert(hop_covered(s, true, s.plan.hops[k]));
    }
    let finished = match parent_of(s.cursor) {
        None => true,
        Some(up) => done.seen.contains(up),
    };
    if finished {
        // Every directory above the cursor was dealt with before.
        assert forall|a: Seq<Seq<u8>>| above(a, s.cursor) implies done.seen.contains(a) by {
            let up = s.cursor.drop_last();
            lemma_above(a, s.cursor, s.cursor);
            lemma_above(a, up, s.cursor);
            assert(done.seen.contains(up));
            assert(up != s.cursor);
            assert(s.seen.contains(up)) by {
                let j = choose|j: int| 0 <= j < done.seen.len() && done.seen[j] == up;
                assert(j < s.seen.len());
                assert(s.seen[j] == up);
            }
            if a != up {
                let j = choose|j: int| 0 <= j < s.seen.len() && s.seen[j] == up;
                assert(above(a, s.seen[j]));
                lemma_above(s.cursor, up, up);
                assert(!above(s.cursor, up));
            }
        }
        assert forall|i: int, a: Seq<Seq<u8>>|
            0 <= i < done.seen.len() && #[trigger] above(a, done.seen[i]) implies done.seen.contains(
            a,
        ) by {
            if i < s.seen.len() {
                assert(done.seen[i] == s.seen[i]);
                assert(above(a, s.seen[i]));
                if !s.seen.contains(a) {
                    lemma_above(a, s.cursor, s.seen[i]);
                }
            }
        }
        assert(achieved(done, false, false));
        lemma_settle_tracking(done);
    } else {
        let up = s.cursor.drop_last();
        if let Some(name) = name_of(s.cursor) {
            let t = BuilderView { stage: Stage::InspectingDir, cursor: up, child: name, ..done };
            lemma_above(up, s.cursor, s.cursor);
            assert forall|i: int, a: Seq<Seq<u8>>|
                0 <= i < t.seen.len() && #[trigger] above(a, t.seen[i]) implies t.seen.contains(a)
                || (leads_to(a, t.cursor) && above(t.cursor, t.seen[i])) by {
                if i < s.seen.len() {
                    assert(t.seen[i] == s.seen[i]);
                    assert(above(a, s.seen[i]));
                    if !s.seen.contains(a) {
                        lemma_above(up, s.cursor, s.seen[i]);
                        lemma_above(a, s.cursor, s.seen[i]);
                        if a != s.cursor {
                            lemma_above(a, s.cursor, s.cursor);
                        }
                    }
                } else {
                    lemma_above(a, s.cursor, s.cursor);
                }
            }
            assert forall|k: int| 0 <= k < n implies hop_covered(
                t,
                true,
                #[trigger] t.plan.hops[k],
            ) by {
                assert(hop_covered(done, false, done.plan.hops[k]));
            }
            assert(achieved(t, true, false));
        }
    }
}

/// Whatever the reply, nothing that was achieved is lost.
pub proof fn lemma_next_tracking(s: BuilderView, reply: PlanReply)
    requires
        tracking(s),
    ensures
        tracking(next(s, reply).0),
{
    let n = s.plan.hops.len();
    match (s.stage, reply) {
        (Stage::Ready, _) | (Stage::Failed, _) => {},
        (_, PlanReply::Failed(error)) => {},
        (Stage::WatchingLink, PlanReply::Watched(watch)) => {
            let plan = with_watch(s.plan, watch, s.cursor, LINK_EVENTS);
            let watched_state = BuilderView { plan, ..s };
            lemma_achieved_grows(s, plan, false, true);
            assert(plan.watches[s.plan.watches.len() as int].path == s.cursor);
            assert(watched_as_link(plan, s.cursor));
            match parent_of(s.cursor) {
                None => {
                    let t = BuilderView { stage: Stage::InspectingLink { watch }, ..watched_state };
                    assert forall|k: int| 0 <= k < n implies hop_covered(
                        t,
                        false,
                        #[trigger] t.plan.hops[k],
                    ) by {
                        if k < n - 1 {
                            assert(hop_covered(watched_state, false, watched_state.plan.hops[k]));
                        }
                    }
                    assert(achieved(t, false, false));
                },
                Some(dir) => {
                    if let Some(child) = name_of(s.cursor) {
                        let item = PendingView { dir, child };
                        let t = BuilderView {
                            stage: Stage::InspectingLink { watch },
                            next_round: s.next_round.push(item),
                            ..watched_state
                        };
                        assert forall|k: int| 0 <= k < n implies hop_covered(
                            t,
                            false,
                            #[trigger] t.plan.hops[k],
                        ) by {
                            let hop = t.plan.hops[k];
                            if k < n - 1 {
                                assert(hop_covered(
                                    watched_state,
                                    false,
                                    watched_state.plan.hops[k],
                                ));
                                if hop.len() > 0 {
                                    lemma_queued_push(s.next_round, item, hop.drop_last());
                                }
                            } else {
                                lemma_queued_push(s.next_round, item, dir);
                            }
                        }
                        assert(achieved(t, false, false));
                    }
                },
            }
        },
        (Stage::InspectingLink { watch }, PlanReply::Inspected { is_symlink }) => {
            if is_symlink {
                let plan = PlanView { symlinks: s.plan.symlinks.insert(watch), ..s.plan };
                lemma_achieved_grows(s, plan, false, false);
                let i = choose|i: int|
                    0 <= i < s.plan.watches.len() && (#[trigger] s.plan.watches[i]).path
                        == s.cursor && s.plan.watches[i].handle == watch;
                assert(plan.watches[i].path == s.cursor);
                assert(marked(plan, s.cursor));
            } else {
                lemma_settle_tracking(s);
            }
        },
        (Stage::ReadingLink, PlanReply::Link(link)) => {
            if let Some(target) = resolved(s.cursor, link@) {
                let plan = PlanView { hops: s.plan.hops.push(target), ..s.plan };
                let t = BuilderView { stage: Stage::WatchingLink, cursor: target, plan, ..s };
                assert forall|k: int| 0 <= k < n implies hop_covered(
                    t,
                    false,
                    #[trigger] t.plan.hops[k],
                ) by {
                    assert(t.plan.hops[k] == s.plan.hops[k]);
                    assert(hop_covered(s, false, s.plan.hops[k]));
                    lemma_plan_grows(s.plan, plan, s.plan.hops[k]);
                }
                assert forall|k: int| 0 <= k < n implies marked(
                    t.plan,
                    #[trigger] t.plan.hops[k],
                ) by {
                    assert(t.plan.hops[k] == s.plan.hops[k]);
                    if k < n - 1 {
                        assert(marked(s.plan, s.plan.hops[k]));
                    }
                    lemma_plan_grows(s.plan, plan, s.plan.hops[k]);
                }
                assert forall|i: int| 0 <= i < t.seen.len() implies watched(
                    t.plan,
                    #[trigger] t.seen[i],
                ) by {
                    lemma_plan_grows(s.plan, plan, s.seen[i]);
                }
                assert(achieved(t, false, true));
            }
        },
        (Stage::InspectingDir, PlanReply::Inspected { is_symlink }) => {
            let stage = if is_symlink {
                Stage::ReadingDirLink
            } else {
                Stage::WatchingDir
            };
            let t = BuilderView { stage, ..s };
            assert forall|k: int| 0 <= k < n implies hop_covered(
                t,
                true,
                #[trigger] t.plan.hops[k],
            ) by {
                assert(hop_covered(s, true, s.plan.hops[k]));
            }
            assert(achieved(t, true, false));
        },
        (Stage::ReadingDirLink, PlanReply::Link(link)) => {
            if let Some(target) = resolved(s.cursor, link@) {
                let t = BuilderView { stage: Stage::WatchingDirLink, link: target, ..s };
                assert forall|k: int| 0 <= k < n implies hop_covered(
                    t,
                    true,
                    #[trigger] t.plan.hops[k],
                ) by {
                    assert(hop_covered(s, true, s.plan.hops[k]));
                }
                assert(achieved(t, true, false));
            }
        },
        (Stage::WatchingDirLink, PlanReply::Watched(watch)) => {
            let after = after_dir_link_watch(s, watch);
            let item = PendingView { dir: s.link, child: s.child };
            lemma_achieved_grows(s, after.plan, true, false);
            let grown = BuilderView { plan: after.plan, ..s };
            assert forall|k: int| 0 <= k < n implies hop_covered(
                after,
                true,
                #[trigger] after.plan.hops[k],
            ) by {
                let hop = grown.plan.hops[k];
                assert(hop_covered(grown, true, hop));
                if hop.len() > 0 {
                    lemma_queued_push(s.next_round, item, hop.drop_last());
                }
            }
            assert(achieved(grown, true, false));
            assert forall|i: int| 0 <= i < after.seen.len() implies watched(
                after.plan,
                #[trigger] after.seen[i],
            ) by {
                assert(watched(grown.plan, grown.seen[i]));
            }
            assert forall|i: int, a: Seq<Seq<u8>>|
                0 <= i < after.seen.len() && #[trigger] above(
                    a,
                    after.seen[i],
                ) implies after.seen.contains(a) || (leads_to(a, after.cursor) && above(
                after.cursor,
                after.seen[i],
            )) by {
                assert(above(a, grown.seen[i]));
            }
            assert forall|k: int| 0 <= k < n - 1 implies marked(
                after.plan,
                #[trigger] after.plan.hops[k],
            ) by {
                assert(marked(grown.plan, grown.plan.hops[k]));
            }
            assert(achieved(after, true, false));
            assert(after.plan.watches[s.plan.watches.len() as int].path == s.cursor);
            lemma_climb_tracking(after);
        },
        (Stage::WatchingDir, PlanReply::Watched(watch)) => {
            let after = after_dir_watch(s, watch);
            lemma_achieved_grows(s, after.plan, true, false);
            assert(after.plan.watches[s.plan.watches.len() as int].path == s.cursor);
            lemma_climb_tracking(after);
        },
        _ => {},
    }
}

/// Once every watch is installed, the plan covers the way to the file.
pub proof fn lemma_ready_reaches(s: BuilderView)
    requires
        tracking(s),
        s.stage is Ready,
    ensures
        reaches(s.plan),
{
    let plan = s.plan;
    assert forall|k: int| 0 <= k < plan.hops.len() implies watched_as_link(
        plan,
        #[trigger] plan.hops[k],
    ) by {
        assert(hop_covered(s, false, s.plan.hops[k]));
    }
    assert forall|k: int, dir: Seq<Seq<u8>>|
        0 <= k < plan.hops.len() && #[trigger] above(dir, plan.hops[k]) implies watched(
        plan,
        dir,
    ) by {
        let hop = plan.hops[k];
        let up = hop.drop_last();
        assert(hop_covered(s, false, s.plan.hops[k]));
        assert(reachable(s, false, up));
        assert(s.seen.contains(up));
        lemma_above(dir, hop, hop);
        lemma_above(dir, up, hop);
        let j = choose|j: int| 0 <= j < s.seen.len() && s.seen[j] == up;
        if dir == up {
            assert(watched(plan, s.seen[j]));
        } else {
            assert(above(dir, s.seen[j]));
            assert(s.seen.contains(dir));
            let i = choose|i: int| 0 <= i < s.seen.len() && s.seen[i] == dir;
            assert(watched(plan, s.seen[i]));
        }
    }
}

pub proof fn lemma_settle_keeps_plan(s: BuilderView)
    ensures
        settle(s).0.plan == s.plan,
    decreases s.next_round.len(), s.round.len(),
{
    if s.round.len() > 0 {
        let rest = BuilderView { round: s.round.drop_last(), ..s };
        if s.seen.contains(s.round.last().dir) {
            lemma_settle_keeps_plan(rest);
        }
    } else if s.next_round.len() == 0 {
    } else if s.rounds >= crate::builder::MAX_ITER {
    } else {
        lemma_settle_keeps_plan(
            BuilderView {
                round: s.next_round,
                next_round: Seq::empty(),
                rounds: s.rounds + 1,
                ..s
            },
        );
    }
}

pub proof fn lemma_hops_grow(s: BuilderView, reply: PlanReply)
    requires
        s.plan.hops.len() >= 1,
    ensures
        next(s, reply).0.plan.hops.len() >= s.plan.hops.len(),
        next(s, reply).0.plan.hops[0] == s.plan.hops[0],
{
    lemma_settle_keeps_plan(s);
    match (s.stage, reply) {
        (Stage::WatchingDirLink, PlanReply::Watched(watch)) => {
            let t = after_dir_link_watch(s, watch);
            lemma_settle_keeps_plan(BuilderView { seen: t.seen.push(t.cursor), ..t });
        },
        (Stage::WatchingDir, PlanReply::Watched(watch)) => {
            let t = after_dir_watch(s, watch);
            lemma_settle_keeps_plan(BuilderView { seen: t.seen.push(t.cursor), ..t });
        },
        _ => {},
    }
}

} // verus!
