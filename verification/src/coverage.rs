//! The watches of a finished plan cover the way to the file and have their
//! roles: every path of the symlink chain is watched as a link, every symlink
//! on the way is known as one, every directory above a path of the chain is
//! watched, every watched directory records the entry to look out for, and
//! the directory that holds the file is watched for the name of the file.

use crate::builder::{initial, next, BuilderView, PlanReply, DIR_EVENTS, LINK_EVENTS};
use crate::builder_laws::{lemma_initial_sound, lemma_next_sound, proper_plan, sound};
use crate::holder::{
    holder_kept, holder_watched, lemma_initial_holder, lemma_next_holder,
};
use crate::mask::INotifyMask;
use crate::path::valid_parts;
use crate::plan::{classification, EventClass, PlanView};
use crate::records::{
    lemma_initial_recorded, lemma_next_recorded, recorded, records, replaced,
};
use crate::tracking::{
    lemma_hops_grow, lemma_initial_tracking, lemma_next_tracking, lemma_ready_reaches, reaches,
    tracking,
};
use vstd::prelude::*;

verus! {

/// What holds of the builder at every moment, as far as the watches go: no
/// path on the way is lost, and the records of the watches are in order.
pub open spec fn covering(s: BuilderView) -> bool {
    tracking(s) && recorded(s) && holder_kept(s)
}

/// What a finished plan covers.
///
/// Every path of the chain is watched as a link, and every one but the last
/// is known as a symlink; every directory above a path of the chain is
/// watched. Every watch for the events of a link, but those on the file
/// itself, has its handle among the symlinks on the way. Every watch for the
/// events of a directory names the entry to look out for and has it recorded
/// under its handle, unless a later watch on a directory came back under the
/// same handle; and the entry is one on the way. The directory that holds
/// the file itself, or the symlink that stands in its place, is watched for
/// the name of the file.
pub open spec fn covers(plan: PlanView) -> bool {
    reaches(plan) && records(plan) && holder_watched(plan)
}

/// Whether every watch has a role: its handle stands for a directory or for
/// a symlink on the way, or the watch is on the file itself.
pub open spec fn roles_assigned(plan: PlanView) -> bool {
    forall|i: int|
        0 <= i < plan.watches.len() ==> plan.children.contains_key(
            (#[trigger] plan.watches[i]).handle,
        ) || plan.symlinks.contains(plan.watches[i].handle) || (plan.watches[i].mask.bits
            == LINK_EVENTS && plan.watches[i].path == plan.hops.last())
}

/// In a plan of proper watches that records what it should, every watch has
/// a role: only watches on the file itself stand for neither a directory nor
/// a symlink.
pub proof fn lemma_roles_assigned(plan: PlanView)
    requires
        proper_plan(plan),
        records(plan),
    ensures
        roles_assigned(plan),
{
    assert forall|i: int| 0 <= i < plan.watches.len() implies plan.children.contains_key(
        (#[trigger] plan.watches[i]).handle,
    ) || plan.symlinks.contains(plan.watches[i].handle) || (plan.watches[i].mask.bits
        == LINK_EVENTS && plan.watches[i].path == plan.hops.last()) by {
        let w = plan.watches[i];
        assert(w.mask.bits == LINK_EVENTS || w.mask.bits == DIR_EVENTS);
    }
}

/// The builder starts with nothing achieved and nothing amiss.
pub proof fn lemma_initial_covering(target: Seq<Seq<u8>>)
    ensures
        covering(initial(target).0),
{
    lemma_initial_tracking(target);
    lemma_initial_recorded(target);
    lemma_initial_holder(target);
}

/// Whatever the reply, nothing that was achieved is lost.
pub proof fn lemma_next_covering(s: BuilderView, reply: PlanReply)
    requires
        covering(s),
    ensures
        covering(next(s, reply).0),
{
    lemma_next_tracking(s, reply);
    lemma_next_recorded(s, reply);
    lemma_next_holder(s, reply);
}

/// Once every watch is installed, the plan covers the way to the file.
pub proof fn lemma_ready_covers(s: BuilderView)
    requires
        covering(s),
        s.stage is Ready,
    ensures
        covers(s.plan),
{
    lemma_ready_reaches(s);
}

/// An event that names the file, on the watch of the directory that holds
/// it, asks for a new reading and for new watches, as long as no later watch
/// on a directory came back under the same handle. So a file that is renamed
/// over the file, or the file being deleted or renamed away, is noticed and
/// makes the watcher start over.
pub proof fn lemma_change_of_the_file_is_noticed(plan: PlanView, i: int, mask: INotifyMask)
    requires
        covers(plan),
        0 <= i < plan.watches.len(),
        plan.hops.last().len() > 0,
        plan.watches[i].path == plan.hops.last().drop_last(),
        plan.watches[i].child == Some(plan.hops.last().last()),
        plan.watches[i].mask.bits == DIR_EVENTS,
        !replaced(plan, i),
    ensures
        classification(plan, plan.watches[i].handle, mask, plan.hops.last().last())
            == EventClass::NotifyAndRefresh,
{
}

/// An event on the watch of a symlink on the way, other than a watch on the
/// file itself, asks for a new reading and for new watches whatever it is,
/// unless the same handle also stands for a directory; then the name decides.
pub proof fn lemma_change_of_a_link_is_noticed(
    plan: PlanView,
    i: int,
    mask: INotifyMask,
    name: Seq<u8>,
)
    requires
        covers(plan),
        0 <= i < plan.watches.len(),
        plan.watches[i].mask.bits == LINK_EVENTS,
        plan.watches[i].path != plan.hops.last(),
        !plan.children.contains_key(plan.watches[i].handle),
    ensures
        classification(plan, plan.watches[i].handle, mask, name) == EventClass::NotifyAndRefresh,
{
}

/// The builder after a row of replies.
pub open spec fn state_after(target: Seq<Seq<u8>>, replies: Seq<PlanReply>) -> BuilderView
    decreases replies.len(),
{
    if replies.len() == 0 {
        initial(target).0
    } else {
        next(state_after(target, replies.drop_last()), replies.last()).0
    }
}

/// Whatever the file system answered, the builder is sound and has lost
/// nothing.
pub proof fn lemma_always(target: Seq<Seq<u8>>, replies: Seq<PlanReply>)
    requires
        valid_parts(target),
    ensures
        sound(state_after(target, replies)),
        covering(state_after(target, replies)),
    decreases replies.len(),
{
    if replies.len() == 0 {
        lemma_initial_sound(target);
        lemma_initial_covering(target);
    } else {
        lemma_always(target, replies.drop_last());
        lemma_next_sound(state_after(target, replies.drop_last()), replies.last());
        lemma_next_covering(state_after(target, replies.drop_last()), replies.last());
    }
}

/// When the builder says that every watch is installed, then whatever the
/// file system answered on the way: every path from the target through each
/// symlink to the file is watched as a link, every symlink on the way is
/// known as one, every directory above a path of the chain is watched and
/// records a justified entry, and only the watches on the file itself have
/// neither the role of a directory nor that of a symlink.
pub proof fn lemma_ready_plan_covers(target: Seq<Seq<u8>>, replies: Seq<PlanReply>)
    requires
        valid_parts(target),
        state_after(target, replies).stage is Ready,
    ensures
        covers(state_after(target, replies).plan),
        roles_assigned(state_after(target, replies).plan),
        state_after(target, replies).plan.hops[0] == target,
{
    lemma_always(target, replies);
    lemma_ready_covers(state_after(target, replies));
    lemma_roles_assigned(state_after(target, replies).plan);
    lemma_first_hop(target, replies);
}

proof fn lemma_first_hop(target: Seq<Seq<u8>>, replies: Seq<PlanReply>)
    ensures
        state_after(target, replies).plan.hops.len() >= 1,
        state_after(target, replies).plan.hops[0] == target,
    decreases replies.len(),
{
    if replies.len() > 0 {
        let before = state_after(target, replies.drop_last());
        lemma_first_hop(target, replies.drop_last());
        lemma_hops_grow(before, replies.last());
    }
}

} // verus!
