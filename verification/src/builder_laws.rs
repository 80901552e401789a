//! What holds of the builder whatever the file system answers.

use crate::builder::{
    after_dir_link_watch, after_dir_watch, climb, initial, next, settle, with_watch,
    BuilderView, PendingView, PlanReply, RequestView,
    Stage, StepView, DIR_EVENTS, LINK_EVENTS, MAX_ITER,
};
use crate::error::WatchError;
use crate::event::WatchHandle;
use crate::mask::IN_DONT_FOLLOW;
use crate::path::{
    is_absolute, lemma_components_render, lemma_components_valid, lemma_spelling_absolute,
    name_of, normalized, parent_of, resolved, spelling, valid_parts,
};
use crate::plan::{PlanView, WatchView};
use vstd::prelude::*;

verus! {

/// Whether `handle` is the handle of a watch of the plan.
pub open spec fn installed(plan: PlanView, handle: WatchHandle) -> bool {
    exists|i: int| 0 <= i < plan.watches.len() && (#[trigger] plan.watches[i]).handle == handle
}

/// A watch as the builder installs it: on a path in normal form, for the
/// events of a link or of a directory, and never through a symlink.
pub open spec fn proper_watch(watch: WatchView) -> bool {
    &&& valid_parts(watch.path)
    &&& (watch.mask.bits == LINK_EVENTS || watch.mask.bits == DIR_EVENTS)
    &&& watch.mask.bits & IN_DONT_FOLLOW == IN_DONT_FOLLOW
}

/// A plan as the builder makes it: proper watches only, and every recorded
/// role belongs to a watch of the plan.
pub open spec fn proper_plan(plan: PlanView) -> bool {
    &&& forall|i: int| 0 <= i < plan.watches.len() ==> proper_watch(#[trigger] plan.watches[i])
    &&& forall|h: WatchHandle| #[trigger] plan.symlinks.contains(h) ==> installed(plan, h)
    &&& forall|h: WatchHandle| #[trigger] plan.children.contains_key(h) ==> installed(plan, h)
    &&& forall|i: int| 0 <= i < plan.hops.len() ==> valid_parts(#[trigger] plan.hops[i])
}

/// Whether every directory of the list is a path in normal form.
pub open spec fn proper_dirs(dirs: Seq<PendingView>) -> bool {
    forall|i: int| 0 <= i < dirs.len() ==> valid_parts((#[trigger] dirs[i]).dir)
}

/// What holds of the builder at every moment.
pub open spec fn sound(s: BuilderView) -> bool {
    &&& valid_parts(s.cursor)
    &&& valid_parts(s.link)
    &&& proper_dirs(s.round)
    &&& proper_dirs(s.next_round)
    &&& s.rounds <= MAX_ITER
    &&& proper_plan(s.plan)
    &&& (s.stage matches Stage::InspectingLink { watch } ==> installed(s.plan, watch))
}

/// A path as the builder hands it to the kernel: absolute and in normal
/// form.
pub open spec fn normal_spelling(path: Seq<u8>) -> bool {
    is_absolute(path) && normalized(path) == path
}

/// A step as the builder takes it: it asks about paths in normal form only,
/// and for watches that do not follow symlinks.
pub open spec fn proper_step(step: StepView) -> bool {
    match step {
        StepView::Request(RequestView::AddWatch { path, mask }) => {
            &&& normal_spelling(path)
            &&& (mask.bits == LINK_EVENTS || mask.bits == DIR_EVENTS)
            &&& mask.bits & IN_DONT_FOLLOW == IN_DONT_FOLLOW
        },
        StepView::Request(RequestView::Inspect { path }) => normal_spelling(path),
        StepView::Request(RequestView::ReadLink { path }) => normal_spelling(path),
        StepView::Ready => true,
        StepView::Failed(_) => true,
    }
}

proof fn lemma_normal_spelling(parts: Seq<Seq<u8>>)
    requires
        valid_parts(parts),
    ensures
        normal_spelling(spelling(parts)),
{
    lemma_components_render(parts);
    lemma_spelling_absolute(parts);
}

proof fn lemma_resolved_valid(at: Seq<Seq<u8>>, link: Seq<u8>)
    requires
        valid_parts(at),
    ensures
        resolved(at, link) matches Some(target) ==> valid_parts(target),
{
    lemma_components_valid(link);
}

proof fn lemma_installed_grows(plan: PlanView, watch: WatchView, h: WatchHandle)
    ensures
        installed(plan, h) ==> installed(
            PlanView { watches: plan.watches.push(watch), ..plan },
            h,
        ),
        installed(PlanView { watches: plan.watches.push(watch), ..plan }, watch.handle),
{
    let grown = PlanView { watches: plan.watches.push(watch), ..plan };
    if installed(plan, h) {
        let i = choose|i: int| 0 <= i < plan.watches.len() && (#[trigger] plan.watches[i]).handle
            == h;
        assert(grown.watches[i].handle == h);
    }
    assert(grown.watches[plan.watches.len() as int].handle == watch.handle);
}

proof fn lemma_grown_plan(plan: PlanView, grown: PlanView, watch: WatchView)
    requires
        proper_plan(plan),
        proper_watch(watch),
        grown.watches == plan.watches.push(watch),
        grown.hops == plan.hops,
        forall|h: WatchHandle|
            grown.symlinks.contains(h) ==> plan.symlinks.contains(h) || h == watch.handle,
        forall|h: WatchHandle|
            grown.children.contains_key(h) ==> plan.children.contains_key(h) || h
                == watch.handle,
    ensures
        proper_plan(grown),
        installed(grown, watch.handle),
{
    let pushed = PlanView { watches: plan.watches.push(watch), ..plan };
    lemma_installed_grows(plan, watch, watch.handle);
    assert(installed(grown, watch.handle)) by {
        assert(grown.watches[plan.watches.len() as int].handle == watch.handle);
    }
    assert forall|i: int| 0 <= i < grown.watches.len() implies proper_watch(
        #[trigger] grown.watches[i],
    ) by {
        if i < plan.watches.len() {
            assert(grown.watches[i] == plan.watches[i]);
        }
    }
    assert forall|h: WatchHandle| #[trigger] grown.symlinks.contains(h) implies installed(
        grown,
        h,
    ) by {
        if h != watch.handle {
            lemma_installed_grows(plan, watch, h);
            assert(pushed.watches == grown.watches);
        }
    }
    assert forall|h: WatchHandle| #[trigger] grown.children.contains_key(h) implies installed(
        grown,
        h,
    ) by {
        if h != watch.handle {
            lemma_installed_grows(plan, watch, h);
            assert(pushed.watches == grown.watches);
        }
    }
}

proof fn lemma_pushed_dirs(dirs: Seq<PendingView>, item: PendingView)
    requires
        proper_dirs(dirs),
        valid_parts(item.dir),
    ensures
        proper_dirs(dirs.push(item)),
{
    let grown = dirs.push(item);
    assert forall|i: int| 0 <= i < grown.len() implies valid_parts((#[trigger] grown[i]).dir) by {
        if i < dirs.len() {
            assert(grown[i] == dirs[i]);
        }
    }
}

/// The watches on the cursor keep the builder sound.
proof fn lemma_watch_sound(s: BuilderView, watch: WatchHandle)
    requires
        sound(s),
    ensures
        sound(BuilderView { plan: with_watch(s.plan, watch, s.cursor, LINK_EVENTS), ..s }),
        installed(with_watch(s.plan, watch, s.cursor, LINK_EVENTS), watch),
        sound(after_dir_link_watch(s, watch)),
        sound(after_dir_watch(s, watch)),
{
    crate::builder::lemma_watch_masks();
    let plain = with_watch(s.plan, watch, s.cursor, LINK_EVENTS);
    lemma_grown_plan(s.plan, plain, plain.watches.last());
    let linked = after_dir_link_watch(s, watch);
    lemma_grown_plan(s.plan, linked.plan, linked.plan.watches.last());
    lemma_pushed_dirs(s.next_round, PendingView { dir: s.link, child: s.child });
    let watched = after_dir_watch(s, watch);
    lemma_grown_plan(s.plan, watched.plan, watched.plan.watches.last());
    let t = BuilderView { plan: plain, ..s };
    assert(s.stage matches Stage::InspectingLink { watch: w } ==> installed(t.plan, w)) by {
        if let Stage::InspectingLink { watch: w } = s.stage {
            lemma_installed_grows(s.plan, plain.watches.last(), w);
        }
    }
    assert(s.stage matches Stage::InspectingLink { watch: w } ==> installed(linked.plan, w)) by {
        if let Stage::InspectingLink { watch: w } = s.stage {
            lemma_installed_grows(s.plan, linked.plan.watches.last(), w);
            assert(linked.plan.watches == (PlanView {
                watches: s.plan.watches.push(linked.plan.watches.last()),
                ..s.plan
            }).watches);
        }
    }
    assert(s.stage matches Stage::InspectingLink { watch: w } ==> installed(watched.plan, w)) by {
        if let Stage::InspectingLink { watch: w } = s.stage {
            lemma_installed_grows(s.plan, watched.plan.watches.last(), w);
            assert(watched.plan.watches == (PlanView {
                watches: s.plan.watches.push(watched.plan.watches.last()),
                ..s.plan
            }).watches);
        }
    }
}

/// The builder starts sound, with a proper request.
pub proof fn lemma_initial_sound(target: Seq<Seq<u8>>)
    requires
        valid_parts(target),
    ensures
        sound(initial(target).0),
        proper_step(initial(target).1),
{
    crate::builder::lemma_watch_masks();
    lemma_normal_spelling(target);
}

/// Picking the next directory keeps the builder sound. It gives up only when
/// `MAX_ITER` rounds were begun and directories are still left over.
pub proof fn lemma_settle_sound(s: BuilderView)
    requires
        sound(s),
    ensures
        sound(settle(s).0),
        proper_step(settle(s).1),
        settle(s).1 matches StepView::Failed(error) ==> error == WatchError::MaxIterationExceeded
            && settle(s).0.rounds == MAX_ITER && settle(s).0.next_round.len() > 0,
        settle(s).1 is Ready ==> settle(s).0.round.len() == 0 && settle(s).0.next_round.len()
            == 0,
    decreases s.next_round.len(), s.round.len(),
{
    if s.round.len() > 0 {
        let item = s.round.last();
        let rest = BuilderView { round: s.round.drop_last(), ..s };
        assert(valid_parts(item.dir));
        assert(proper_dirs(rest.round)) by {
            assert forall|i: int| 0 <= i < rest.round.len() implies valid_parts(
                (#[trigger] rest.round[i]).dir,
            ) by {
                assert(rest.round[i] == s.round[i]);
            }
        }
        if s.seen.contains(item.dir) {
            lemma_settle_sound(rest);
        } else {
            lemma_normal_spelling(item.dir);
        }
    } else if s.next_round.len() == 0 {
    } else if s.rounds >= MAX_ITER {
    } else {
        let begun = BuilderView {
            round: s.next_round,
            next_round: Seq::empty(),
            rounds: s.rounds + 1,
            ..s
        };
        lemma_settle_sound(begun);
    }
}

/// Going on to the directory above keeps the builder sound.
pub proof fn lemma_climb_sound(s: BuilderView)
    requires
        sound(s),
    ensures
        sound(climb(s).0),
        proper_step(climb(s).1),
{
    let done = BuilderView { seen: s.seen.push(s.cursor), ..s };
    lemma_settle_sound(done);
    if let Some(up) = parent_of(s.cursor) {
        assert(valid_parts(up)) by {
            assert forall|i: int| 0 <= i < up.len() implies crate::path::valid_component(
                #[trigger] up[i],
            ) by {
                assert(up[i] == s.cursor[i]);
            }
        }
        lemma_normal_spelling(up);
    }
}

/// Whatever the reply, the builder stays sound and takes a proper step: it
/// watches and asks about paths in normal form only, every watch is for the
/// events of a link or of a directory and does not follow symlinks, no more
/// than `MAX_ITER` rounds are begun, and every role recorded in the plan
/// belongs to a watch of the plan.
pub proof fn lemma_next_sound(s: BuilderView, reply: PlanReply)
    requires
        sound(s),
    ensures
        sound(next(s, reply).0),
        proper_step(next(s, reply).1),
{
    crate::builder::lemma_watch_masks();
    lemma_normal_spelling(s.cursor);
    match (s.stage, reply) {
        (Stage::Ready, _) | (Stage::Failed, _) => {},
        (_, PlanReply::Failed(error)) => {},
        (Stage::WatchingLink, PlanReply::Watched(watch)) => {
            lemma_watch_sound(s, watch);
            if let Some(dir) = parent_of(s.cursor) {
                assert(valid_parts(dir)) by {
                    assert forall|i: int| 0 <= i < dir.len() implies crate::path::valid_component(
                        #[trigger] dir[i],
                    ) by {
                        assert(dir[i] == s.cursor[i]);
                    }
                }
                if let Some(child) = name_of(s.cursor) {
                    let grown = s.next_round.push(PendingView { dir, child });
                    assert(proper_dirs(grown)) by {
                        assert forall|i: int| 0 <= i < grown.len() implies valid_parts(
                            (#[trigger] grown[i]).dir,
                        ) by {
                            if i < s.next_round.len() {
                                assert(grown[i] == s.next_round[i]);
                            }
                        }
                    }
                }
            }
        },
        (Stage::InspectingLink { watch }, PlanReply::Inspected { is_symlink }) => {
            if is_symlink {
                let marked = PlanView { symlinks: s.plan.symlinks.insert(watch), ..s.plan };
                assert(proper_plan(marked)) by {
                    assert forall|h: WatchHandle| #[trigger]
                        marked.symlinks.contains(h) implies installed(marked, h) by {
                        if h == watch {
                            let i = choose|i: int|
                                0 <= i < s.plan.watches.len() && (#[trigger] s.plan.watches[i]).handle
                                    == watch;
                            assert(marked.watches[i].handle == watch);
                        } else {
                            assert(s.plan.symlinks.contains(h));
                            let i = choose|i: int|
                                0 <= i < s.plan.watches.len() && (#[trigger] s.plan.watches[i]).handle
                                    == h;
                            assert(marked.watches[i].handle == h);
                        }
                    }
                    assert forall|h: WatchHandle| #[trigger]
                        marked.children.contains_key(h) implies installed(marked, h) by {
                        assert(s.plan.children.contains_key(h));
                        let i = choose|i: int|
                            0 <= i < s.plan.watches.len() && (#[trigger] s.plan.watches[i]).handle
                                == h;
                        assert(marked.watches[i].handle == h);
                    }
                }
            } else {
                lemma_settle_sound(s);
            }
        },
        (Stage::ReadingLink, PlanReply::Link(link)) => {
            lemma_resolved_valid(s.cursor, link@);
            if let Some(target) = resolved(s.cursor, link@) {
                lemma_normal_spelling(target);
                let hopped = PlanView { hops: s.plan.hops.push(target), ..s.plan };
                assert(proper_plan(hopped)) by {
                    assert forall|i: int| 0 <= i < hopped.hops.len() implies valid_parts(
                        #[trigger] hopped.hops[i],
                    ) by {
                        if i < s.plan.hops.len() {
                            assert(hopped.hops[i] == s.plan.hops[i]);
                        }
                    }
                    assert forall|h: WatchHandle| #[trigger]
                        hopped.symlinks.contains(h) implies installed(hopped, h) by {
                        assert(s.plan.symlinks.contains(h));
                        let i = choose|i: int|
                            0 <= i < s.plan.watches.len() && (#[trigger] s.plan.watches[i]).handle
                                == h;
                        assert(hopped.watches[i].handle == h);
                    }
                    assert forall|h: WatchHandle| #[trigger]
                        hopped.children.contains_key(h) implies installed(hopped, h) by {
                        assert(s.plan.children.contains_key(h));
                        let i = choose|i: int|
                            0 <= i < s.plan.watches.len() && (#[trigger] s.plan.watches[i]).handle
                                == h;
                        assert(hopped.watches[i].handle == h);
                    }
                }
            }
        },
        (Stage::InspectingDir, PlanReply::Inspected { is_symlink }) => {},
        (Stage::ReadingDirLink, PlanReply::Link(link)) => {
            lemma_resolved_valid(s.cursor, link@);
        },
        (Stage::WatchingDirLink, PlanReply::Watched(watch)) => {
            lemma_watch_sound(s, watch);
            lemma_climb_sound(after_dir_link_watch(s, watch));
        },
        (Stage::WatchingDir, PlanReply::Watched(watch)) => {
            lemma_watch_sound(s, watch);
            lemma_climb_sound(after_dir_watch(s, watch));
        },
        _ => {},
    }
}

proof fn lemma_settle_ready(s: BuilderView)
    ensures
        settle(s).1 is Ready <==> settle(s).0.stage is Ready,
        settle(s).1 is Failed <==> settle(s).0.stage is Failed,
    decreases s.next_round.len(), s.round.len(),
{
    if s.round.len() > 0 {
        if s.seen.contains(s.round.last().dir) {
            lemma_settle_ready(BuilderView { round: s.round.drop_last(), ..s });
        }
    } else if s.next_round.len() == 0 {
    } else if s.rounds >= MAX_ITER {
    } else {
        lemma_settle_ready(
            BuilderView {
                round: s.next_round,
                next_round: Seq::empty(),
                rounds: s.rounds + 1,
                ..s
            },
        );
    }
}

/// The builder says that every watch is installed exactly when it comes to
/// rest in the stage `Ready`, and that it gives up exactly when it comes to
/// rest in the stage `Failed`.
pub proof fn lemma_step_and_stage(s: BuilderView, reply: PlanReply)
    ensures
        next(s, reply).1 is Ready <==> next(s, reply).0.stage is Ready,
        next(s, reply).1 is Failed <==> next(s, reply).0.stage is Failed,
{
    lemma_settle_ready(s);
    match (s.stage, reply) {
        (Stage::WatchingDirLink, PlanReply::Watched(watch)) => {
            let t = after_dir_link_watch(s, watch);
            lemma_settle_ready(BuilderView { seen: t.seen.push(t.cursor), ..t });
        },
        (Stage::WatchingDir, PlanReply::Watched(watch)) => {
            let t = after_dir_watch(s, watch);
            lemma_settle_ready(BuilderView { seen: t.seen.push(t.cursor), ..t });
        },
        _ => {},
    }
}

} // verus!
