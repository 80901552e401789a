//! Installing the watches for a target, one system call at a time.
//!
//! The builder never touches the file system. It says which call it needs
//! next, is told how the call ended, and goes on from there. First it follows
//! the target through every symlink to the file, watching each link. Then it
//! watches the directories that lead to each of those paths, round by round:
//! a directory that turns out to be a symlink is watched as a link, and what
//! it points to is left for the next round.

use crate::builder_laws::{lemma_initial_sound, lemma_next_sound, proper_step, sound};
use crate::coverage::{
    covering, covers, lemma_initial_covering, lemma_next_covering, lemma_ready_covers,
};
use crate::error::WatchError;
use crate::event::WatchHandle;
use crate::mask::{
    INotifyMask, IN_CLOSE_WRITE, IN_DELETE, IN_DELETE_SELF, IN_DONT_FOLLOW, IN_MODIFY,
    IN_MOVED_FROM, IN_MOVED_TO, IN_MOVE_SELF,
};
use crate::path::{name_of, parent_of, resolved, spelling, views, NormalPath};
use crate::plan::{InstalledWatch, PlanView, WatchPlan, WatchView};
use vstd::prelude::*;

verus! {

/// The number of rounds after which the builder gives up on symlinks among
/// the directories.
pub const MAX_ITER: usize = 16;

/// The events watched on a file or a symlink: written, closed after writing,
/// deleted, moved; the link itself, not what it points to.
pub const LINK_EVENTS: u32 = 0x0200_0c0a;

/// The events watched on a directory: an entry deleted or renamed in or out,
/// the directory written, deleted or moved; the directory itself.
pub const DIR_EVENTS: u32 = 0x0200_0ec2;

/// The two masks are made of these flags, and both hold `IN_DONT_FOLLOW`.
pub proof fn lemma_watch_masks()
    ensures
        LINK_EVENTS == IN_CLOSE_WRITE | IN_DELETE_SELF | IN_MODIFY | IN_MOVE_SELF | IN_DONT_FOLLOW,
        DIR_EVENTS == IN_DELETE | IN_DELETE_SELF | IN_MODIFY | IN_MOVE_SELF | IN_MOVED_FROM
            | IN_MOVED_TO | IN_DONT_FOLLOW,
        LINK_EVENTS & IN_DONT_FOLLOW == IN_DONT_FOLLOW,
        DIR_EVENTS & IN_DONT_FOLLOW == IN_DONT_FOLLOW,
{
    assert(0x0200_0c0au32 == 0x8u32 | 0x400u32 | 0x2u32 | 0x800u32 | 0x0200_0000u32)
        by (bit_vector);
    assert(0x0200_0ec2u32 == 0x200u32 | 0x400u32 | 0x2u32 | 0x800u32 | 0x40u32 | 0x80u32
        | 0x0200_0000u32) by (bit_vector);
    assert(0x0200_0c0au32 & 0x0200_0000u32 == 0x0200_0000u32) by (bit_vector);
    assert(0x0200_0ec2u32 & 0x0200_0000u32 == 0x0200_0000u32) by (bit_vector);
}

/// The mask for a file or a symlink.
pub fn link_mask() -> (m: INotifyMask)
    ensures
        m.bits == LINK_EVENTS,
{
    proof {
        lemma_watch_masks();
    }
    INotifyMask::close_write() | INotifyMask::delete_self() | INotifyMask::modify()
        | INotifyMask::move_self() | INotifyMask::dont_follow()
}

/// The mask for a directory.
pub fn dir_mask() -> (m: INotifyMask)
    ensures
        m.bits == DIR_EVENTS,
{
    proof {
        lemma_watch_masks();
    }
    INotifyMask::delete() | INotifyMask::delete_self() | INotifyMask::modify()
        | INotifyMask::move_self() | INotifyMask::moved_from() | INotifyMask::moved_to()
        | INotifyMask::dont_follow()
}

/// The call that the builder is waiting for.
#[derive(Debug, Clone, Copy, PartialEq, Eq, Structural)]
pub enum Stage {
    /// A watch on the path that is being followed to the file.
    WatchingLink,
    /// Whether that path is a symlink; `watch` is the watch on it.
    InspectingLink { watch: WatchHandle },
    /// What that symlink holds.
    ReadingLink,
    /// Whether the directory under the cursor is a symlink.
    InspectingDir,
    /// What the symlink under the cursor holds.
    ReadingDirLink,
    /// A watch on the directory under the cursor.
    WatchingDir,
    /// A watch on the symlink under the cursor.
    WatchingDirLink,
    /// Nothing: every watch is installed.
    Ready,
    /// Nothing: the builder gave up.
    Failed,
}

/// A system call that the builder asks for.
#[derive(Debug)]
pub enum PlanRequest {
    /// Watch `path` for the events of `mask`.
    AddWatch { path: Vec<u8>, mask: INotifyMask },
    /// Look at `path` without following it, and say whether it is a symlink.
    Inspect { path: Vec<u8> },
    /// Read what the symlink at `path` holds.
    ReadLink { path: Vec<u8> },
}

/// A request as a mathematical value.
pub enum RequestView {
    AddWatch { path: Seq<u8>, mask: INotifyMask },
    Inspect { path: Seq<u8> },
    ReadLink { path: Seq<u8> },
}

impl View for PlanRequest {
    type V = RequestView;

    open spec fn view(&self) -> RequestView {
        match *self {
            PlanRequest::AddWatch { path, mask } => RequestView::AddWatch { path: path@, mask },
            PlanRequest::Inspect { path } => RequestView::Inspect { path: path@ },
            PlanRequest::ReadLink { path } => RequestView::ReadLink { path: path@ },
        }
    }
}

/// How a system call ended.
#[derive(Debug)]
pub enum PlanReply {
    /// The watch was installed under this handle.
    Watched(WatchHandle),
    /// The path was looked at.
    Inspected { is_symlink: bool },
    /// The symlink holds these bytes.
    Link(Vec<u8>),
    /// The call failed.
    Failed(std::io::Error),
}

/// What the builder says after a reply.
#[derive(Debug)]
pub enum PlanStep {
    /// Make this call and come back with its outcome.
    Request(PlanRequest),
    /// Every watch is installed.
    Ready,
    /// The watches cannot be installed; those that were are to be dropped.
    Failed(WatchError),
}

/// A step as a mathematical value.
pub enum StepView {
    Request(RequestView),
    Ready,
    Failed(WatchError),
}

impl View for PlanStep {
    type V = StepView;

    open spec fn view(&self) -> StepView {
        match *self {
            PlanStep::Request(request) => StepView::Request(request@),
            PlanStep::Ready => StepView::Ready,
            PlanStep::Failed(error) => StepView::Failed(error),
        }
    }
}

/// A directory that is still to be examined, with the entry of it that
/// matters.
#[derive(Debug)]
pub struct PendingDir {
    pub dir: NormalPath,
    pub child: Vec<u8>,
}

/// A pending directory as a mathematical value.
pub struct PendingView {
    pub dir: Seq<Seq<u8>>,
    pub child: Seq<u8>,
}

impl View for PendingDir {
    type V = PendingView;

    open spec fn view(&self) -> PendingView {
        PendingView { dir: self.dir@, child: self.child@ }
    }
}

/// The builder as a mathematical value.
pub struct BuilderView {
    /// The call that is awaited.
    pub stage: Stage,
    /// The path that the awaited call is about.
    pub cursor: Seq<Seq<u8>>,
    /// Where the cursor is a directory: the entry of it that matters.
    pub child: Seq<u8>,
    /// Where the cursor is a symlink in the place of a directory and was
    /// read: the directory that it leads to.
    pub link: Seq<Seq<u8>>,
    /// The directories of this round that are still to be examined; the last
    /// one is next.
    pub round: Seq<PendingView>,
    /// The directories left for the next round.
    pub next_round: Seq<PendingView>,
    /// The number of rounds begun.
    pub rounds: nat,
    /// The directories dealt with.
    pub seen: Seq<Seq<Seq<u8>>>,
    /// The watches installed so far.
    pub plan: PlanView,
}

/// The plan with one more watch: on `path`, for the events of `events`, under
/// `handle`.
pub open spec fn with_watch(
    plan: PlanView,
    handle: WatchHandle,
    path: Seq<Seq<u8>>,
    events: u32,
) -> PlanView {
    PlanView {
        watches: plan.watches.push(
            WatchView { handle, path, mask: INotifyMask { bits: events }, child: None, target: None },
        ),
        ..plan
    }
}

/// The plan with one more watch on a directory on the way, or on the symlink
/// that stands in its place and leads to `target`: below it, `child` is the
/// entry that is looked out for.
pub open spec fn with_entry_watch(
    plan: PlanView,
    handle: WatchHandle,
    path: Seq<Seq<u8>>,
    events: u32,
    child: Seq<u8>,
    target: Option<Seq<Seq<u8>>>,
) -> PlanView {
    PlanView {
        watches: plan.watches.push(
            WatchView {
                handle,
                path,
                mask: INotifyMask { bits: events },
                child: Some(child),
                target,
            },
        ),
        ..plan
    }
}

/// The builder once the symlink under the cursor, which stands in the place
/// of a directory, is watched: the watch is that of a symlink on the way, and
/// the directory that the link leads to is left for the next round, with the
/// same entry to look out for.
pub open spec fn after_dir_link_watch(s: BuilderView, watch: WatchHandle) -> BuilderView {
    BuilderView {
        plan: PlanView {
            symlinks: s.plan.symlinks.insert(watch),
            ..with_entry_watch(s.plan, watch, s.cursor, LINK_EVENTS, s.child, Some(s.link))
        },
        next_round: s.next_round.push(PendingView { dir: s.link, child: s.child }),
        ..s
    }
}

/// The builder once the directory under the cursor is watched: the watch
/// records the entry to look out for.
pub open spec fn after_dir_watch(s: BuilderView, watch: WatchHandle) -> BuilderView {
    BuilderView {
        plan: PlanView {
            children: s.plan.children.insert(watch, s.child),
            ..with_entry_watch(s.plan, watch, s.cursor, DIR_EVENTS, s.child, None)
        },
        ..s
    }
}

/// The builder gives up.
pub open spec fn fail(s: BuilderView, error: WatchError) -> (BuilderView, StepView) {
    (BuilderView { stage: Stage::Failed, ..s }, StepView::Failed(error))
}

/// The builder asks for a call.
pub open spec fn ask(s: BuilderView, stage: Stage, request: RequestView) -> (
    BuilderView,
    StepView,
) {
    (BuilderView { stage, ..s }, StepView::Request(request))
}

/// The builder at the start: it asks for a watch on the target.
pub open spec fn initial(target: Seq<Seq<u8>>) -> (BuilderView, StepView) {
    (
        BuilderView {
            stage: Stage::WatchingLink,
            cursor: target,
            child: Seq::empty(),
            link: Seq::empty(),
            round: Seq::empty(),
            next_round: Seq::empty(),
            rounds: 0,
            seen: Seq::empty(),
            plan: PlanView { hops: seq![target], ..crate::plan::empty_plan() },
        },
        StepView::Request(RequestView::AddWatch {
            path: spelling(target),
            mask: INotifyMask { bits: LINK_EVENTS },
        }),
    )
}

/// Picks the directory to examine next.
///
/// Directories of the round that were dealt with before are passed over. When
/// the round is used up, what was left for the next round becomes the round;
/// when that is empty too every watch is installed, and when `MAX_ITER`
/// rounds were begun already the builder gives up.
pub open spec fn settle(s: BuilderView) -> (BuilderView, StepView)
    decreases s.next_round.len(), s.round.len(),
{
    if s.round.len() > 0 {
        let item = s.round.last();
        let rest = BuilderView { round: s.round.drop_last(), ..s };
        if s.seen.contains(item.dir) {
            settle(rest)
        } else {
            ask(
                BuilderView { cursor: item.dir, child: item.child, ..rest },
                Stage::InspectingDir,
                RequestView::Inspect { path: spelling(item.dir) },
            )
        }
    } else if s.next_round.len() == 0 {
        (BuilderView { stage: Stage::Ready, ..s }, StepView::Ready)
    } else if s.rounds >= MAX_ITER {
        fail(s, WatchError::MaxIterationExceeded)
    } else {
        settle(
            BuilderView {
                round: s.next_round,
                next_round: Seq::empty(),
                rounds: s.rounds + 1,
                ..s
            },
        )
    }
}

/// Goes on from a directory that was dealt with to the one above it, as long
/// as there is one that was not dealt with before; the entry that matters
/// there is the directory just left.
pub open spec fn climb(s: BuilderView) -> (BuilderView, StepView) {
    let done = BuilderView { seen: s.seen.push(s.cursor), ..s };
    match parent_of(s.cursor) {
        None => settle(done),
        Some(up) => if done.seen.contains(up) {
            settle(done)
        } else {
            match name_of(s.cursor) {
                None => fail(done, WatchError::NoFileName),
                Some(name) => ask(
                    BuilderView { cursor: up, child: name, ..done },
                    Stage::InspectingDir,
                    RequestView::Inspect { path: spelling(up) },
                ),
            }
        },
    }
}

/// The builder after a reply, and what it says.
pub open spec fn next(s: BuilderView, reply: PlanReply) -> (BuilderView, StepView) {
    match (s.stage, reply) {
        (Stage::Ready, _) | (Stage::Failed, _) => fail(s, WatchError::UnexpectedReply),
        (_, PlanReply::Failed(error)) => fail(s, WatchError::Io(error)),
        (Stage::WatchingLink, PlanReply::Watched(watch)) => {
            let watched = BuilderView {
                plan: with_watch(s.plan, watch, s.cursor, LINK_EVENTS),
                ..s
            };
            let inspect = RequestView::Inspect { path: spelling(s.cursor) };
            match parent_of(s.cursor) {
                None => ask(watched, Stage::InspectingLink { watch }, inspect),
                Some(dir) => match name_of(s.cursor) {
                    None => fail(watched, WatchError::NoFileName),
                    Some(child) => ask(
                        BuilderView {
                            next_round: s.next_round.push(PendingView { dir, child }),
                            ..watched
                        },
                        Stage::InspectingLink { watch },
                        inspect,
                    ),
                },
            }
        },
        (Stage::InspectingLink { watch }, PlanReply::Inspected { is_symlink }) => {
            if is_symlink {
                ask(
                    BuilderView {
                        plan: PlanView { symlinks: s.plan.symlinks.insert(watch), ..s.plan },
                        ..s
                    },
                    Stage::ReadingLink,
                    RequestView::ReadLink { path: spelling(s.cursor) },
                )
            } else {
                settle(s)
            }
        },
        (Stage::ReadingLink, PlanReply::Link(link)) => {
            match resolved(s.cursor, link@) {
                None => fail(s, WatchError::NoParent),
                Some(target) => ask(
                    BuilderView {
                        cursor: target,
                        plan: PlanView { hops: s.plan.hops.push(target), ..s.plan },
                        ..s
                    },
                    Stage::WatchingLink,
                    RequestView::AddWatch {
                        path: spelling(target),
                        mask: INotifyMask { bits: LINK_EVENTS },
                    },
                ),
            }
        },
        (Stage::InspectingDir, PlanReply::Inspected { is_symlink }) => {
            if is_symlink {
                ask(s, Stage::ReadingDirLink, RequestView::ReadLink { path: spelling(s.cursor) })
            } else {
                ask(
                    s,
                    Stage::WatchingDir,
                    RequestView::AddWatch {
                        path: spelling(s.cursor),
                        mask: INotifyMask { bits: DIR_EVENTS },
                    },
                )
            }
        },
        (Stage::ReadingDirLink, PlanReply::Link(link)) => {
            match resolved(s.cursor, link@) {
                None => fail(s, WatchError::NoParent),
                Some(target) => ask(
                    BuilderView { link: target, ..s },
                    Stage::WatchingDirLink,
                    RequestView::AddWatch {
                        path: spelling(s.cursor),
                        mask: INotifyMask { bits: LINK_EVENTS },
                    },
                ),
            }
        },
        (Stage::WatchingDirLink, PlanReply::Watched(watch)) => climb(
            after_dir_link_watch(s, watch),
        ),
        (Stage::WatchingDir, PlanReply::Watched(watch)) => climb(after_dir_watch(s, watch)),
        _ => fail(s, WatchError::UnexpectedReply),
    }
}

/// The state of one attempt to install the watches for a target.
#[derive(Debug)]
pub struct PlanBuilder {
    stage: Stage,
    cursor: NormalPath,
    child: Vec<u8>,
    link: NormalPath,
    round: Vec<PendingDir>,
    next_round: Vec<PendingDir>,
    rounds: usize,
    seen: Vec<NormalPath>,
    plan: WatchPlan,
}

impl View for PlanBuilder {
    type V = BuilderView;

    closed spec fn view(&self) -> BuilderView {
        BuilderView {
            stage: self.stage,
            cursor: self.cursor@,
            child: self.child@,
            link: self.link@,
            round: views(self.round@),
            next_round: views(self.next_round@),
            rounds: self.rounds as nat,
            seen: views(self.seen@),
            plan: self.plan@,
        }
    }
}

impl PlanBuilder {
    /// Begins with the target: the first call asked for is a watch on it.
    pub fn start(target: NormalPath) -> (r: (PlanBuilder, PlanRequest))
        ensures
            (r.0@, StepView::Request(r.1@)) == initial(target@),
            sound(r.0@),
            covering(r.0@),
            proper_step(StepView::Request(r.1@)),
    {
        let path = target.to_bytes();
        proof {
            lemma_initial_sound(target@);
            lemma_initial_covering(target@);
        }
        let mut plan = WatchPlan::new();
        plan.record_hop(target.clone());
        let builder = PlanBuilder {
            stage: Stage::WatchingLink,
            cursor: target,
            child: Vec::new(),
            link: NormalPath::root(),
            round: Vec::new(),
            next_round: Vec::new(),
            rounds: 0,
            seen: Vec::new(),
            plan,
        };
        proof {
            assert(builder@.round =~= Seq::empty());
            assert(builder@.next_round =~= Seq::empty());
            assert(builder@.seen =~= Seq::empty());
            assert(builder@.child =~= Seq::empty());
            assert(builder@.plan.hops =~= seq![target@]);
        }
        (builder, PlanRequest::AddWatch { path, mask: link_mask() })
    }

    /// The call that is awaited.
    pub fn stage(&self) -> (r: Stage)
        ensures
            r == self@.stage,
    {
        self.stage
    }

    /// The watches installed so far.
    pub fn plan(&self) -> (r: &WatchPlan)
        ensures
            r@ == self@.plan,
    {
        &self.plan
    }

    /// Hands over the watches installed so far. Once the builder has said
    /// that every watch is installed, they cover the way to the file.
    pub fn into_plan(self) -> (r: WatchPlan)
        ensures
            r@ == self@.plan,
            self@.stage is Ready && covering(self@) ==> covers(r@),
    {
        proof {
            if self@.stage is Ready && covering(self@) {
                lemma_ready_covers(self@);
            }
        }
        self.plan
    }

    fn seen_contains(&self, dir: &NormalPath) -> (r: bool)
        ensures
            r == self@.seen.contains(dir@),
    {
        let mut i: usize = 0;
        while i < self.seen.len()
            invariant
                i <= self.seen.len(),
                forall|k: int| 0 <= k < i ==> views(self.seen@)[k] != dir@,
            decreases self.seen.len() - i,
        {
            if self.seen[i].same(dir) {
                assert(views(self.seen@)[i as int] == dir@);
                return true;
            }
            i += 1;
        }
        false
    }

    fn give_up(&mut self, error: WatchError) -> (step: PlanStep)
        ensures
            (final(self)@, step@) == fail(old(self)@, error),
    {
        self.stage = Stage::Failed;
        PlanStep::Failed(error)
    }

    fn settle(&mut self) -> (step: PlanStep)
        ensures
            (final(self)@, step@) == settle(old(self)@),
    {
        let ghost start = self@;
        loop
            invariant
                start == old(self)@,
                settle(self@) == settle(start),
            decreases self@.next_round.len(), self@.round.len(),
        {
            let ghost before = self@;
            assert(before.round.len() == self.round.len());
            assert(before.next_round.len() == self.next_round.len());
            if self.round.len() > 0 {
                let item = self.round.pop().unwrap();
                proof {
                    assert(item@ == before.round.last());
                    assert(self@.round =~= before.round.drop_last());
                    assert(self@ == (BuilderView { round: before.round.drop_last(), ..before }));
                }
                let ghost rest = self@;
                if !self.seen_contains(&item.dir) {
                    let path = item.dir.to_bytes();
                    self.cursor = item.dir;
                    self.child = item.child;
                    self.stage = Stage::InspectingDir;
                    proof {
                        assert(self@ == (BuilderView {
                            stage: Stage::InspectingDir,
                            cursor: item@.dir,
                            child: item@.child,
                            ..rest
                        }));
                    }
                    return PlanStep::Request(PlanRequest::Inspect { path });
                }
            } else if self.next_round.len() == 0 {
                self.stage = Stage::Ready;
                proof {
                    assert(self@ == (BuilderView { stage: Stage::Ready, ..before }));
                }
                return PlanStep::Ready;
            } else if self.rounds >= MAX_ITER {
                return self.give_up(WatchError::MaxIterationExceeded);
            } else {
                core::mem::swap(&mut self.round, &mut self.next_round);
                self.rounds += 1;
                proof {
                    assert(self@.next_round =~= Seq::empty());
                    assert(self@ == (BuilderView {
                        round: before.next_round,
                        next_round: Seq::empty(),
                        rounds: before.rounds + 1,
                        ..before
                    }));
                }
            }
        }
    }

    fn climb(&mut self) -> (step: PlanStep)
        ensures
            (final(self)@, step@) == climb(old(self)@),
    {
        let up = self.cursor.parent();
        let name = self.cursor.file_name();
        let ghost before = self@;
        self.seen.push(self.cursor.clone());
        proof {
            assert(self@.seen =~= before.seen.push(before.cursor));
            assert(self@ == (BuilderView { seen: before.seen.push(before.cursor), ..before }));
        }
        match up {
            None => self.settle(),
            Some(up) => {
                if self.seen_contains(&up) {
                    self.settle()
                } else {
                    match name {
                        None => self.give_up(WatchError::NoFileName),
                        Some(name) => {
                            let path = up.to_bytes();
                            self.cursor = up;
                            self.child = name;
                            self.stage = Stage::InspectingDir;
                            PlanStep::Request(PlanRequest::Inspect { path })
                        },
                    }
                }
            },
        }
    }

    /// Takes the outcome of the call that was asked for and says what comes
    /// next. A failed call ends the attempt, and so does a reply that does
    /// not answer the request.
    pub fn advance(&mut self, reply: PlanReply) -> (step: PlanStep)
        ensures
            (final(self)@, step@) == next(old(self)@, reply),
            sound(old(self)@) ==> sound(final(self)@) && proper_step(step@),
            covering(old(self)@) ==> covering(final(self)@),
    {
        let ghost before = self@;
        proof {
            if sound(before) {
                lemma_next_sound(before, reply);
            }
            if covering(before) {
                lemma_next_covering(before, reply);
            }
        }
        match self.stage {
            Stage::Ready | Stage::Failed => self.give_up(WatchError::UnexpectedReply),
            Stage::WatchingLink => match reply {
                PlanReply::Failed(error) => self.give_up(WatchError::Io(error)),
                PlanReply::Watched(watch) => {
                    self.plan.record_watch(
                        InstalledWatch {
                            handle: watch,
                            path: self.cursor.clone(),
                            mask: link_mask(),
                            child: None,
                            target: None,
                        },
                    );
                    let path = self.cursor.to_bytes();
                    match self.cursor.parent() {
                        None => {
                            self.stage = Stage::InspectingLink { watch };
                            PlanStep::Request(PlanRequest::Inspect { path })
                        },
                        Some(dir) => match self.cursor.file_name() {
                            None => self.give_up(WatchError::NoFileName),
                            Some(child) => {
                                let ghost pending = PendingView { dir: dir@, child: child@ };
                                self.next_round.push(PendingDir { dir, child });
                                assert(self@.next_round =~= before.next_round.push(pending));
                                self.stage = Stage::InspectingLink { watch };
                                PlanStep::Request(PlanRequest::Inspect { path })
                            },
                        },
                    }
                },
                _ => self.give_up(WatchError::UnexpectedReply),
            },
            Stage::InspectingLink { watch } => match reply {
                PlanReply::Failed(error) => self.give_up(WatchError::Io(error)),
                PlanReply::Inspected { is_symlink } => {
                    if is_symlink {
                        self.plan.record_symlink(watch);
                        self.stage = Stage::ReadingLink;
                        PlanStep::Request(PlanRequest::ReadLink { path: self.cursor.to_bytes() })
                    } else {
                        self.settle()
                    }
                },
                _ => self.give_up(WatchError::UnexpectedReply),
            },
            Stage::ReadingLink => match reply {
                PlanReply::Failed(error) => self.give_up(WatchError::Io(error)),
                PlanReply::Link(link) => match self.cursor.resolve(&link) {
                    None => self.give_up(WatchError::NoParent),
                    Some(target) => {
                        let path = target.to_bytes();
                        self.plan.record_hop(target.clone());
                        self.cursor = target;
                        self.stage = Stage::WatchingLink;
                        PlanStep::Request(PlanRequest::AddWatch { path, mask: link_mask() })
                    },
                },
                _ => self.give_up(WatchError::UnexpectedReply),
            },
            Stage::InspectingDir => match reply {
                PlanReply::Failed(error) => self.give_up(WatchError::Io(error)),
                PlanReply::Inspected { is_symlink } => {
                    let path = self.cursor.to_bytes();
                    if is_symlink {
                        self.stage = Stage::ReadingDirLink;
                        PlanStep::Request(PlanRequest::ReadLink { path })
                    } else {
                        self.stage = Stage::WatchingDir;
                        PlanStep::Request(PlanRequest::AddWatch { path, mask: dir_mask() })
                    }
                },
                _ => self.give_up(WatchError::UnexpectedReply),
            },
            Stage::ReadingDirLink => match reply {
                PlanReply::Failed(error) => self.give_up(WatchError::Io(error)),
                PlanReply::Link(link) => match self.cursor.resolve(&link) {
                    None => self.give_up(WatchError::NoParent),
                    Some(target) => {
                        self.link = target;
                        self.stage = Stage::WatchingDirLink;
                        PlanStep::Request(
                            PlanRequest::AddWatch {
                                path: self.cursor.to_bytes(),
                                mask: link_mask(),
                            },
                        )
                    },
                },
                _ => self.give_up(WatchError::UnexpectedReply),
            },
            Stage::WatchingDirLink => match reply {
                PlanReply::Failed(error) => self.give_up(WatchError::Io(error)),
                PlanReply::Watched(watch) => {
                    self.plan.record_watch(
                        InstalledWatch {
                            handle: watch,
                            path: self.cursor.clone(),
                            mask: link_mask(),
                            child: Some(crate::path::copy_bytes(&self.child)),
                            target: Some(self.link.clone()),
                        },
                    );
                    self.plan.record_symlink(watch);
                    let child = crate::path::copy_bytes(&self.child);
                    let ghost pending = PendingView { dir: self.link@, child: child@ };
                    self.next_round.push(PendingDir { dir: self.link.clone(), child });
                    assert(self@.next_round =~= before.next_round.push(pending));
                    self.climb()
                },
                _ => self.give_up(WatchError::UnexpectedReply),
            },
            Stage::WatchingDir => match reply {
                PlanReply::Failed(error) => self.give_up(WatchError::Io(error)),
                PlanReply::Watched(watch) => {
                    self.plan.record_watch(
                        InstalledWatch {
                            handle: watch,
                            path: self.cursor.clone(),
                            mask: dir_mask(),
                            child: Some(crate::path::copy_bytes(&self.child)),
                            target: None,
                        },
                    );
                    self.plan.record_child(watch, crate::path::copy_bytes(&self.child));
                    self.climb()
                },
                _ => self.give_up(WatchError::UnexpectedReply),
            },
        }
    }
}

} // verus!
