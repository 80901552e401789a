//! Keeping the watches of one target alive.
//!
//! The backend opens an inotify instance, has the builder install the
//! watches, and then judges what each read from the instance means. When a
//! link or a directory entry on the way to the file changed it starts over
//! with a new instance; when anything fails it pauses first. It never ends by
//! itself: it ends when it is told that the supervisor has ended, and then it
//! gives the instance up.

use crate::builder::{initial, next, BuilderView, PlanBuilder, PlanReply, PlanRequest, PlanStep,
    RequestView, StepView};
use crate::builder_laws::{
    lemma_initial_sound, lemma_next_sound, lemma_step_and_stage, proper_plan, proper_step, sound,
};
use crate::coverage::{
    covering, covers, lemma_initial_covering, lemma_next_covering, lemma_ready_covers,
};
use crate::error::WatchError;
use crate::event::{consumed, decode_events, decoded, EventView, INotifyEvent};
use crate::path::{valid_parts, views, NormalPath};
use crate::plan::{classification, EventClass, PlanView, WatchPlan};
use vstd::prelude::*;

verus! {

/// What one read means for the watcher.
#[derive(Debug, Clone, Copy, PartialEq, Eq, Structural)]
pub struct Verdict {
    /// The file is to be read again.
    pub notify: bool,
    /// The watches are to be installed anew.
    pub refresh: bool,
}

/// What the events of one read mean under `plan`, taken in order: events
/// behind the first one that asks for new watches do not count any more.
pub open spec fn verdict(plan: PlanView, events: Seq<EventView>) -> Verdict
    decreases events.len(),
{
    if events.len() == 0 {
        Verdict { notify: false, refresh: false }
    } else {
        let first = events.first();
        match classification(plan, first.watch_descriptor, first.mask, first.name) {
            EventClass::NotifyAndRefresh => Verdict { notify: true, refresh: true },
            EventClass::NotifyAndContinue => Verdict {
                notify: true,
                refresh: verdict(plan, events.drop_first()).refresh,
            },
            EventClass::Ignore => verdict(plan, events.drop_first()),
        }
    }
}

/// Judges the events of one read.
pub fn judge(plan: &WatchPlan, events: &Vec<INotifyEvent>) -> (v: Verdict)
    ensures
        v == verdict(plan@, views(events@)),
{
    let ghost all = views(events@);
    let mut notify = false;
    let mut i: usize = 0;
    assert(all.skip(0) =~= all);
    while i < events.len()
        invariant
            i <= events.len(),
            all == views(events@),
            verdict(plan@, all) == (Verdict {
                notify: notify || verdict(plan@, all.skip(i as int)).notify,
                refresh: verdict(plan@, all.skip(i as int)).refresh,
            }),
        decreases events.len() - i,
    {
        proof {
            let rest = all.skip(i as int);
            assert(rest.first() == events@[i as int]@);
            assert(rest.drop_first() =~= all.skip(i + 1));
        }
        match plan.classify(&events[i]) {
            EventClass::NotifyAndRefresh => {
                return Verdict { notify: true, refresh: true };
            },
            EventClass::NotifyAndContinue => {
                notify = true;
            },
            EventClass::Ignore => {},
        }
        i += 1;
    }
    Verdict { notify, refresh: false }
}

/// What the backend is waiting for, as a mathematical value.
pub enum StateView {
    /// A new inotify instance.
    Opening,
    /// The outcome of the builder's request.
    Building(BuilderView),
    /// A read from the instance.
    Watching(PlanView),
    /// The end of the pause.
    Pausing,
    /// Nothing: the backend has ended.
    Ended,
}

/// The backend as a mathematical value.
pub struct BackendView {
    pub target: Seq<Seq<u8>>,
    pub big_endian: bool,
    pub state: StateView,
}

/// What happened.
#[derive(Debug)]
pub enum BackendEvent {
    /// The inotify instance is there.
    Opened,
    /// It could not be made.
    OpenFailed(std::io::Error),
    /// The call that the builder asked for ended.
    Reply(PlanReply),
    /// The instance handed over these bytes.
    Read(Vec<u8>),
    /// Reading from the instance failed.
    ReadFailed(std::io::Error),
    /// The pause is over.
    Woke,
    /// The supervisor has ended.
    Stopped,
}

/// What to do next. Where `notify` is set the supervisor is to be woken
/// first.
#[derive(Debug)]
pub enum BackendAction {
    /// Drop the inotify instance, if there is one, and make a new one.
    Open { notify: bool },
    /// Make this call on the instance.
    Request(PlanRequest),
    /// Wait for the instance to hand over bytes.
    Read { notify: bool },
    /// Drop the instance, report the error and pause for the retry interval.
    Pause { error: WatchError, notify: bool },
    /// Drop the instance, if there is one, and end.
    Close,
}

/// An action as a mathematical value.
pub enum ActionView {
    Open { notify: bool },
    Request(RequestView),
    Read { notify: bool },
    Pause { error: WatchError, notify: bool },
    Close,
}

impl View for BackendAction {
    type V = ActionView;

    open spec fn view(&self) -> ActionView {
        match *self {
            BackendAction::Open { notify } => ActionView::Open { notify },
            BackendAction::Request(request) => ActionView::Request(request@),
            BackendAction::Read { notify } => ActionView::Read { notify },
            BackendAction::Pause { error, notify } => ActionView::Pause { error, notify },
            BackendAction::Close => ActionView::Close,
        }
    }
}

/// The backend goes on with what the builder said.
pub open spec fn follow(s: BackendView, built: (BuilderView, StepView)) -> (
    BackendView,
    ActionView,
) {
    match built.1 {
        StepView::Request(request) => (
            BackendView { state: StateView::Building(built.0), ..s },
            ActionView::Request(request),
        ),
        StepView::Ready => (
            BackendView { state: StateView::Watching(built.0.plan), ..s },
            ActionView::Read { notify: false },
        ),
        StepView::Failed(error) => (
            BackendView { state: StateView::Pausing, ..s },
            ActionView::Pause { error, notify: false },
        ),
    }
}

/// The backend pauses.
pub open spec fn pause(s: BackendView, error: WatchError, notify: bool) -> (
    BackendView,
    ActionView,
) {
    (BackendView { state: StateView::Pausing, ..s }, ActionView::Pause { error, notify })
}

/// The backend after `event`, and what to do.
///
/// A read is judged event by event. If the watches are to be installed anew
/// the backend starts over at once; otherwise bytes that are no whole record
/// make it give the instance up, and without them it goes on reading. An
/// event that cannot happen in the state makes it pause and start over. The
/// end of the supervisor ends the backend for good.
pub open spec fn react(s: BackendView, event: BackendEvent) -> (BackendView, ActionView) {
    match (s.state, event) {
        (_, BackendEvent::Stopped) | (StateView::Ended, _) => (
            BackendView { state: StateView::Ended, ..s },
            ActionView::Close,
        ),
        (StateView::Opening, BackendEvent::Opened) => follow(s, initial(s.target)),
        (StateView::Opening, BackendEvent::OpenFailed(error)) => pause(
            s,
            WatchError::Io(error),
            false,
        ),
        (StateView::Building(builder), BackendEvent::Reply(reply)) => follow(
            s,
            next(builder, reply),
        ),
        (StateView::Watching(plan), BackendEvent::Read(bytes)) => {
            let v = verdict(plan, decoded(bytes@, s.big_endian));
            if v.refresh {
                (BackendView { state: StateView::Opening, ..s }, ActionView::Open { notify: true })
            } else if consumed(bytes@, s.big_endian) < bytes@.len() {
                pause(s, WatchError::Truncated, v.notify)
            } else {
                (s, ActionView::Read { notify: v.notify })
            }
        },
        (StateView::Watching(_), BackendEvent::ReadFailed(error)) => pause(
            s,
            WatchError::Io(error),
            false,
        ),
        (StateView::Pausing, BackendEvent::Woke) => (
            BackendView { state: StateView::Opening, ..s },
            ActionView::Open { notify: false },
        ),
        _ => pause(s, WatchError::UnexpectedReply, false),
    }
}

/// What holds of the backend at every moment: while it builds, the builder
/// is sound and has lost nothing; while it watches, the watches are proper
/// and cover the way to the file.
pub open spec fn upheld(s: BackendView) -> bool {
    &&& valid_parts(s.target)
    &&& match s.state {
        StateView::Building(builder) => sound(builder) && covering(builder) && !(builder.stage
            is Ready) && !(builder.stage is Failed),
        StateView::Watching(plan) => proper_plan(plan) && covers(plan),
        _ => true,
    }
}

/// An action as the backend takes it: what it asks of the kernel is about
/// paths in normal form, and no watch follows a symlink.
pub open spec fn proper_action(action: ActionView) -> bool {
    action matches ActionView::Request(request) ==> proper_step(StepView::Request(request))
}

/// Whatever happens, what holds of the backend goes on holding, and its
/// action is a proper one. So the backend never waits for events on watches
/// that leave a part of the way to the file uncovered.
pub proof fn lemma_react_upheld(s: BackendView, event: BackendEvent)
    requires
        upheld(s),
    ensures
        upheld(react(s, event).0),
        proper_action(react(s, event).1),
{
    match (s.state, event) {
        (StateView::Opening, BackendEvent::Opened) => {
            lemma_initial_sound(s.target);
            lemma_initial_covering(s.target);
        },
        (StateView::Building(builder), BackendEvent::Reply(reply)) => {
            lemma_next_sound(builder, reply);
            lemma_next_covering(builder, reply);
            lemma_step_and_stage(builder, reply);
            if next(builder, reply).1 is Ready {
                lemma_ready_covers(next(builder, reply).0);
            }
        },
        _ => {},
    }
}

/// What the backend is waiting for.
#[derive(Debug)]
pub enum BackendState {
    Opening,
    Building(PlanBuilder),
    Watching(WatchPlan),
    Pausing,
    Ended,
}

impl View for BackendState {
    type V = StateView;

    open spec fn view(&self) -> StateView {
        match *self {
            BackendState::Opening => StateView::Opening,
            BackendState::Building(builder) => StateView::Building(builder@),
            BackendState::Watching(plan) => StateView::Watching(plan@),
            BackendState::Pausing => StateView::Pausing,
            BackendState::Ended => StateView::Ended,
        }
    }
}

/// The backend of one watcher.
#[derive(Debug)]
pub struct Backend {
    target: NormalPath,
    big_endian: bool,
    state: BackendState,
}

impl View for Backend {
    type V = BackendView;

    closed spec fn view(&self) -> BackendView {
        BackendView { target: self.target@, big_endian: self.big_endian, state: self.state@ }
    }
}

impl Backend {
    /// A backend for `target` on a machine with the byte order given. The
    /// first thing to do is to open an inotify instance.
    pub fn start(target: NormalPath, big_endian: bool) -> (r: (Backend, BackendAction))
        ensures
            r.0@ == (BackendView { target: target@, big_endian, state: StateView::Opening }),
            r.1@ == (ActionView::Open { notify: false }),
            upheld(r.0@),
    {
        proof {
            use_type_invariant(&target);
            target.lemma_well_formed();
        }
        (
            Backend { target, big_endian, state: BackendState::Opening },
            BackendAction::Open { notify: false },
        )
    }

    /// The path that is watched.
    pub fn target(&self) -> (r: &NormalPath)
        ensures
            r@ == self@.target,
    {
        &self.target
    }

    /// What the backend is waiting for.
    pub fn state(&self) -> (r: &BackendState)
        ensures
            r@ == self@.state,
    {
        &self.state
    }

    fn follow(target: NormalPath, big_endian: bool, builder: PlanBuilder, step: PlanStep) -> (r: (
        Backend,
        BackendAction,
    ))
        ensures
            (r.0@, r.1@) == follow(
                BackendView { target: target@, big_endian, state: StateView::Opening },
                (builder@, step@),
            ),
    {
        match step {
            PlanStep::Request(request) => (
                Backend { target, big_endian, state: BackendState::Building(builder) },
                BackendAction::Request(request),
            ),
            PlanStep::Ready => (
                Backend { target, big_endian, state: BackendState::Watching(builder.into_plan()) },
                BackendAction::Read { notify: false },
            ),
            PlanStep::Failed(error) => (
                Backend { target, big_endian, state: BackendState::Pausing },
                BackendAction::Pause { error, notify: false },
            ),
        }
    }

    /// Takes what happened and says what to do next.
    pub fn step(self, event: BackendEvent) -> (r: (Backend, BackendAction))
        ensures
            (r.0@, r.1@) == react(self@, event),
            upheld(self@) ==> upheld(r.0@) && proper_action(r.1@),
    {
        proof {
            if upheld(self@) {
                lemma_react_upheld(self@, event);
            }
        }
        let target = self.target;
        let big_endian = self.big_endian;
        match event {
            BackendEvent::Stopped => {
                return (
                    Backend { target, big_endian, state: BackendState::Ended },
                    BackendAction::Close,
                );
            },
            _ => {},
        }
        match self.state {
            BackendState::Ended => (
                Backend { target, big_endian, state: BackendState::Ended },
                BackendAction::Close,
            ),
            BackendState::Opening => match event {
                BackendEvent::Opened => {
                    let (builder, request) = PlanBuilder::start(target.clone());
                    Self::follow(target, big_endian, builder, PlanStep::Request(request))
                },
                BackendEvent::OpenFailed(error) => (
                    Backend { target, big_endian, state: BackendState::Pausing },
                    BackendAction::Pause { error: WatchError::Io(error), notify: false },
                ),
                _ => (
                    Backend { target, big_endian, state: BackendState::Pausing },
                    BackendAction::Pause { error: WatchError::UnexpectedReply, notify: false },
                ),
            },
            BackendState::Building(builder) => match event {
                BackendEvent::Reply(reply) => {
                    let mut builder = builder;
                    let step = builder.advance(reply);
                    Self::follow(target, big_endian, builder, step)
                },
                _ => (
                    Backend { target, big_endian, state: BackendState::Pausing },
                    BackendAction::Pause { error: WatchError::UnexpectedReply, notify: false },
                ),
            },
            BackendState::Watching(plan) => match event {
                BackendEvent::Read(bytes) => {
                    let read = decode_events(&bytes, big_endian);
                    let v = judge(&plan, &read.events);
                    if v.refresh {
                        (
                            Backend { target, big_endian, state: BackendState::Opening },
                            BackendAction::Open { notify: true },
                        )
                    } else if read.consumed < bytes.len() {
                        (
                            Backend { target, big_endian, state: BackendState::Pausing },
                            BackendAction::Pause {
                                error: WatchError::Truncated,
                                notify: v.notify,
                            },
                        )
                    } else {
                        (
                            Backend { target, big_endian, state: BackendState::Watching(plan) },
                            BackendAction::Read { notify: v.notify },
                        )
                    }
                },
                BackendEvent::ReadFailed(error) => (
                    Backend { target, big_endian, state: BackendState::Pausing },
                    BackendAction::Pause { error: WatchError::Io(error), notify: false },
                ),
                _ => (
                    Backend { target, big_endian, state: BackendState::Pausing },
                    BackendAction::Pause { error: WatchError::UnexpectedReply, notify: false },
                ),
            },
            BackendState::Pausing => match event {
                BackendEvent::Woke => (
                    Backend { target, big_endian, state: BackendState::Opening },
                    BackendAction::Open { notify: false },
                ),
                _ => (
                    Backend { target, big_endian, state: BackendState::Pausing },
                    BackendAction::Pause { error: WatchError::UnexpectedReply, notify: false },
                ),
            },
        }
    }
}

/// A read asks for new watches if and only if one of its events does, and for
/// a new reading if and only if one of its events, up to the first that asks
/// for new watches, is not passed over.
pub proof fn lemma_verdict(plan: PlanView, events: Seq<EventView>)
    ensures
        verdict(plan, events).refresh <==> exists|i: int|
            0 <= i < events.len() && classification(
                plan,
                (#[trigger] events[i]).watch_descriptor,
                events[i].mask,
                events[i].name,
            ) == EventClass::NotifyAndRefresh,
        verdict(plan, events).notify <==> exists|i: int|
            0 <= i < events.len() && classification(
                plan,
                (#[trigger] events[i]).watch_descriptor,
                events[i].mask,
                events[i].name,
            ) != EventClass::Ignore,
        verdict(plan, events).refresh ==> verdict(plan, events).notify,
    decreases events.len(),
{
    if events.len() > 0 {
        let rest = events.drop_first();
        lemma_verdict(plan, rest);
        let class = |e: EventView| classification(plan, e.watch_descriptor, e.mask, e.name);
        assert forall|i: int| 0 <= i < rest.len() implies #[trigger] rest[i] == events[i + 1] by {}
        if verdict(plan, rest).refresh {
            let i = choose|i: int|
                0 <= i < rest.len() && classification(
                    plan,
                    (#[trigger] rest[i]).watch_descriptor,
                    rest[i].mask,
                    rest[i].name,
                ) == EventClass::NotifyAndRefresh;
            assert(events[i + 1] == rest[i]);
        }
        if verdict(plan, rest).notify {
            let i = choose|i: int|
                0 <= i < rest.len() && classification(
                    plan,
                    (#[trigger] rest[i]).watch_descriptor,
                    rest[i].mask,
                    rest[i].name,
                ) != EventClass::Ignore;
            assert(events[i + 1] == rest[i]);
        }
        if exists|i: int|
            0 <= i < events.len() && class(#[trigger] events[i]) == EventClass::NotifyAndRefresh {
            let i = choose|i: int|
                0 <= i < events.len() && class(#[trigger] events[i])
                    == EventClass::NotifyAndRefresh;
            if i > 0 {
                assert(rest[i - 1] == events[i]);
            }
        }
        if exists|i: int|
            0 <= i < events.len() && class(#[trigger] events[i]) != EventClass::Ignore {
            let i = choose|i: int|
                0 <= i < events.len() && class(#[trigger] events[i]) != EventClass::Ignore;
            if i > 0 {
                assert(rest[i - 1] == events[i]);
            }
        }
    }
}

/// While it watches, the backend answers a read that holds an event asking
/// for new watches by waking the supervisor and starting over, whatever else
/// the read holds.
pub proof fn lemma_refresh_starts_over(s: BackendView, bytes: Vec<u8>, i: int)
    requires
        s.state is Watching,
        0 <= i < decoded(bytes@, s.big_endian).len(),
        ({
            let e = decoded(bytes@, s.big_endian)[i];
            classification(s.state->Watching_0, e.watch_descriptor, e.mask, e.name)
                == EventClass::NotifyAndRefresh
        }),
    ensures
        react(s, BackendEvent::Read(bytes)) == (
            BackendView { state: StateView::Opening, ..s },
            ActionView::Open { notify: true },
        ),
{
    lemma_verdict(s.state->Watching_0, decoded(bytes@, s.big_endian));
}

/// The backend never ends: whatever happens, it says what to do next, and
/// after a pause it opens a new instance.
pub proof fn lemma_pause_then_open(s: BackendView)
    requires
        s.state is Pausing,
    ensures
        react(s, BackendEvent::Woke).1 == (ActionView::Open { notify: false }),
        react(s, BackendEvent::Woke).0.state is Opening,
{
}

/// Whether the backend holds an inotify instance in this state.
pub open spec fn holds_instance(state: StateView) -> bool {
    state is Building || state is Watching
}

/// The backend holds an instance exactly while it asks for a call on it or
/// for a read from it. Every other action begins with dropping the instance,
/// and a new one is made only by `Open`, after the old one was dropped: no
/// two instances are alive at once, and none outlives a plan that was given
/// up.
pub proof fn lemma_one_instance(s: BackendView, event: BackendEvent)
    ensures
        holds_instance(react(s, event).0.state) <==> react(s, event).1 is Request || react(
            s,
            event,
        ).1 is Read,
        react(s, event).1 is Request || react(s, event).1 is Read ==> holds_instance(s.state)
            || (s.state is Opening && event is Opened),
{
}

/// When the supervisor has ended the backend ends too, whatever it was
/// doing: it drops the instance, and with it every watch, and never asks for
/// anything again.
pub proof fn lemma_stop_releases(s: BackendView, later: BackendEvent)
    ensures
        react(s, BackendEvent::Stopped) == (
            BackendView { state: StateView::Ended, ..s },
            ActionView::Close,
        ),
        !holds_instance(react(s, BackendEvent::Stopped).0.state),
        react(react(s, BackendEvent::Stopped).0, later) == react(s, BackendEvent::Stopped),
{
}

} // verus!
