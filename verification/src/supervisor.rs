//! When the file is read and when a value goes to the consumer.
//!
//! The supervisor owns nothing but its phase. It is told what happened and
//! says what to do next; reading, sleeping, sending and waiting are the
//! caller's part. A value reaches the consumer only as the outcome of a read
//! that succeeded, and a read that failed is tried again after a pause.

use crate::error::FileWatcherError;
use vstd::prelude::*;

verus! {

/// What the supervisor is waiting for.
#[derive(Debug, Clone, Copy, PartialEq, Eq, Structural)]
pub enum Phase {
    /// The outcome of the first read.
    InitialRead,
    /// The end of the pause after a first read that failed.
    InitialRetry,
    /// The first value to be taken by the channel.
    InitialSend,
    /// A notification that the file changed, or the consumer going away.
    Idle,
    /// The outcome of a read after a notification.
    Reading,
    /// The end of the pause after such a read failed.
    Retry,
    /// A later value to be taken by the channel.
    Sending,
    /// Nothing: the consumer is gone.
    Stopped,
}

/// What happened.
#[derive(Debug)]
pub enum Event<T, E> {
    /// The file was read and parsed, or one of the two failed.
    ReadDone(Result<T, FileWatcherError<E>>),
    /// The pause is over.
    Woke,
    /// The channel took the value.
    Sent,
    /// The file may have changed.
    Notified,
    /// The consumer dropped its end of the channel.
    Closed,
}

/// What to do next.
#[derive(Debug)]
pub enum Action<T, E> {
    /// Read the file and parse it.
    Read,
    /// Drop a notification that came in meanwhile, then read the file and
    /// parse it.
    DiscardAndRead,
    /// Report the error and pause for the retry interval. `initial` says
    /// whether no value was delivered yet.
    Pause { error: FileWatcherError<E>, initial: bool },
    /// Hand the value to the channel.
    Send(T),
    /// Start watching the file, then wait for a notification.
    Watch,
    /// Wait for a notification.
    Wait,
    /// End the task and release the watches.
    Stop,
}

/// Whether `event` can happen in `phase`.
pub open spec fn expected<T, E>(phase: Phase, event: Event<T, E>) -> bool {
    match phase {
        Phase::InitialRead | Phase::Reading => event is ReadDone,
        Phase::InitialRetry | Phase::Retry => event is Woke,
        Phase::InitialSend | Phase::Sending => event is Sent || event is Closed,
        Phase::Idle => event is Notified || event is Closed,
        Phase::Stopped => false,
    }
}

/// The phase after `event`, and what to do.
///
/// The consumer going away ends everything, and so does an event that cannot
/// happen in the phase.
pub open spec fn next<T, E>(phase: Phase, event: Event<T, E>) -> (Phase, Action<T, E>) {
    match (phase, event) {
        (Phase::InitialRead, Event::ReadDone(Ok(value))) => (
            Phase::InitialSend,
            Action::Send(value),
        ),
        (Phase::InitialRead, Event::ReadDone(Err(error))) => (
            Phase::InitialRetry,
            Action::Pause { error, initial: true },
        ),
        (Phase::InitialRetry, Event::Woke) => (Phase::InitialRead, Action::Read),
        (Phase::InitialSend, Event::Sent) => (Phase::Idle, Action::Watch),
        (Phase::Idle, Event::Notified) => (Phase::Reading, Action::Read),
        (Phase::Reading, Event::ReadDone(Ok(value))) => (Phase::Sending, Action::Send(value)),
        (Phase::Reading, Event::ReadDone(Err(error))) => (
            Phase::Retry,
            Action::Pause { error, initial: false },
        ),
        (Phase::Retry, Event::Woke) => (Phase::Reading, Action::DiscardAndRead),
        (Phase::Sending, Event::Sent) => (Phase::Idle, Action::Wait),
        _ => (Phase::Stopped, Action::Stop),
    }
}

/// The phase after a row of events.
pub open spec fn phase_after<T, E>(phase: Phase, events: Seq<Event<T, E>>) -> Phase
    decreases events.len(),
{
    if events.len() == 0 {
        phase
    } else {
        next(phase_after(phase, events.drop_last()), events.last()).0
    }
}

/// What the supervisor said after each of a row of events.
pub open spec fn actions<T, E>(phase: Phase, events: Seq<Event<T, E>>) -> Seq<Action<T, E>>
    decreases events.len(),
{
    if events.len() == 0 {
        Seq::empty()
    } else {
        actions(phase, events.drop_last()).push(
            next(phase_after(phase, events.drop_last()), events.last()).1,
        )
    }
}

/// Whether each event of the row can happen in the phase it meets.
pub open spec fn orderly<T, E>(phase: Phase, events: Seq<Event<T, E>>) -> bool {
    forall|i: int|
        0 <= i < events.len() ==> expected(
            #[trigger] phase_after(phase, events.take(i)),
            events[i],
        )
}

/// The events of `n` reads that fail, each followed by the end of its pause.
pub open spec fn failed_reads<T, E>(errors: Seq<FileWatcherError<E>>) -> Seq<Event<T, E>>
    decreases errors.len(),
{
    if errors.len() == 0 {
        Seq::empty()
    } else {
        failed_reads::<T, E>(errors.drop_last()).push(Event::ReadDone(Err(errors.last()))).push(
            Event::Woke,
        )
    }
}

/// The number of values handed to the channel.
pub open spec fn sends<T, E>(acts: Seq<Action<T, E>>) -> nat
    decreases acts.len(),
{
    if acts.len() == 0 {
        0
    } else {
        sends(acts.drop_last()) + if acts.last() is Send {
            1nat
        } else {
            0nat
        }
    }
}

/// The supervisor of one watcher.
#[derive(Debug)]
pub struct Supervisor {
    phase: Phase,
}

impl View for Supervisor {
    type V = Phase;

    closed spec fn view(&self) -> Phase {
        self.phase
    }
}

impl Supervisor {
    /// A supervisor at the start: the first thing to do is to read the file.
    pub fn start<T, E>() -> (r: (Supervisor, Action<T, E>))
        ensures
            r.0@ == Phase::InitialRead,
            r.1 == Action::<T, E>::Read,
    {
        (Supervisor { phase: Phase::InitialRead }, Action::Read)
    }

    /// What the supervisor is waiting for.
    pub fn phase(&self) -> (r: Phase)
        ensures
            r == self@,
    {
        self.phase
    }

    /// Takes what happened and says what to do next.
    pub fn step<T, E>(&mut self, event: Event<T, E>) -> (action: Action<T, E>)
        ensures
            (final(self)@, action) == next(old(self)@, event),
    {
        let (phase, action) = match self.phase {
            Phase::InitialRead => match event {
                Event::ReadDone(Ok(value)) => (Phase::InitialSend, Action::Send(value)),
                Event::ReadDone(Err(error)) => (
                    Phase::InitialRetry,
                    Action::Pause { error, initial: true },
                ),
                _ => (Phase::Stopped, Action::Stop),
            },
            Phase::InitialRetry => match event {
                Event::Woke => (Phase::InitialRead, Action::Read),
                _ => (Phase::Stopped, Action::Stop),
            },
            Phase::InitialSend => match event {
                Event::Sent => (Phase::Idle, Action::Watch),
                _ => (Phase::Stopped, Action::Stop),
            },
            Phase::Idle => match event {
                Event::Notified => (Phase::Reading, Action::Read),
                _ => (Phase::Stopped, Action::Stop),
            },
            Phase::Reading => match event {
                Event::ReadDone(Ok(value)) => (Phase::Sending, Action::Send(value)),
                Event::ReadDone(Err(error)) => (
                    Phase::Retry,
                    Action::Pause { error, initial: false },
                ),
                _ => (Phase::Stopped, Action::Stop),
            },
            Phase::Retry => match event {
                Event::Woke => (Phase::Reading, Action::DiscardAndRead),
                _ => (Phase::Stopped, Action::Stop),
            },
            Phase::Sending => match event {
                Event::Sent => (Phase::Idle, Action::Wait),
                _ => (Phase::Stopped, Action::Stop),
            },
            Phase::Stopped => (Phase::Stopped, Action::Stop),
        };
        self.phase = phase;
        action
    }
}

/// The supervisor stops when the consumer goes away and for no other event
/// that can happen.
pub proof fn lemma_stops_only_when_closed<T, E>(phase: Phase, event: Event<T, E>)
    requires
        expected(phase, event),
    ensures
        next(phase, event).0 == Phase::Stopped <==> event is Closed,
        next(phase, event).1 is Stop <==> event is Closed,
{
}

/// A value goes to the channel only as the outcome of a read that succeeded,
/// and it is that outcome.
pub proof fn lemma_send_only_what_was_read<T, E>(phase: Phase, event: Event<T, E>)
    ensures
        next(phase, event).1 is Send <==> (phase == Phase::InitialRead || phase == Phase::Reading)
            && event is ReadDone && event->ReadDone_0 is Ok,
        next(phase, event).1 is Send ==> next(phase, event).1->Send_0
            == event->ReadDone_0->Ok_0,
{
}

/// As long as no read has succeeded nothing is sent, and the first read that
/// succeeds is answered by sending its value: the consumer's first item is
/// what the file held when it could first be read and parsed.
pub proof fn lemma_first_read<T, E>(events: Seq<Event<T, E>>, i: int)
    requires
        orderly(Phase::InitialRead, events),
        0 <= i < events.len(),
        events[i] is ReadDone,
        events[i]->ReadDone_0 is Ok,
        forall|j: int| 0 <= j < i ==> !(events[j] is ReadDone && events[j]->ReadDone_0 is Ok),
    ensures
        actions(Phase::InitialRead, events.take(i + 1)).last() == Action::<T, E>::Send(
            events[i]->ReadDone_0->Ok_0,
        ),
        sends(actions(Phase::InitialRead, events.take(i))) == 0,
{
    lemma_before_first_read(events, i);
    assert(events.take(i + 1).drop_last() =~= events.take(i));
    assert(events.take(i + 1).last() == events[i]);
    assert(expected(phase_after(Phase::InitialRead, events.take(i)), events[i]));
}

proof fn lemma_before_first_read<T, E>(events: Seq<Event<T, E>>, i: int)
    requires
        orderly(Phase::InitialRead, events),
        0 <= i <= events.len(),
        forall|j: int| 0 <= j < i ==> !(events[j] is ReadDone && events[j]->ReadDone_0 is Ok),
    ensures
        phase_after(Phase::InitialRead, events.take(i)) == Phase::InitialRead || phase_after(
            Phase::InitialRead,
            events.take(i),
        ) == Phase::InitialRetry,
        sends(actions(Phase::InitialRead, events.take(i))) == 0,
    decreases i,
{
    if i > 0 {
        lemma_before_first_read(events, i - 1);
        assert(events.take(i).drop_last() =~= events.take(i - 1));
        assert(events.take(i).last() == events[i - 1]);
        assert(expected(phase_after(Phase::InitialRead, events.take(i - 1)), events[i - 1]));
        let acts = actions(Phase::InitialRead, events.take(i));
        assert(acts.drop_last() =~= actions(Phase::InitialRead, events.take(i - 1)));
    } else {
        assert(events.take(0) =~= Seq::empty());
    }
}

/// While reads fail the supervisor pauses and reads again, hands nothing to
/// the channel, and is ready for the next outcome.
pub proof fn lemma_failed_reads<T, E>(phase: Phase, errors: Seq<FileWatcherError<E>>)
    requires
        phase == Phase::InitialRead || phase == Phase::Reading,
    ensures
        phase_after(phase, failed_reads::<T, E>(errors)) == phase,
        sends(actions(phase, failed_reads::<T, E>(errors))) == 0,
        actions(phase, failed_reads::<T, E>(errors)).len() == 2 * errors.len(),
        orderly(phase, failed_reads::<T, E>(errors)),
    decreases errors.len(),
{
    let events = failed_reads::<T, E>(errors);
    if errors.len() == 0 {
        assert(orderly(phase, events));
    } else {
        let shorter = failed_reads::<T, E>(errors.drop_last());
        lemma_failed_reads::<T, E>(phase, errors.drop_last());
        let failure = Event::<T, E>::ReadDone(Err(errors.last()));
        let middle = shorter.push(failure);
        assert(events == middle.push(Event::Woke));
        assert(events.drop_last() =~= middle);
        assert(middle.drop_last() =~= shorter);
        assert(actions(phase, events).drop_last() =~= actions(phase, middle));
        assert(actions(phase, middle).drop_last() =~= actions(phase, shorter));
        assert(actions(phase, middle).last() is Pause);
        assert(sends(actions(phase, middle)) == 0);
        assert(!(actions(phase, events).last() is Send));
        assert(sends(actions(phase, events)) == 0);
        assert forall|i: int| 0 <= i < events.len() implies expected(
            #[trigger] phase_after(phase, events.take(i)),
            events[i],
        ) by {
            if i < shorter.len() {
                assert(events.take(i) =~= shorter.take(i));
                assert(expected(phase_after(phase, shorter.take(i)), shorter[i]));
            } else if i == shorter.len() {
                assert(events.take(i) =~= shorter);
            } else {
                assert(events.take(i) =~= middle);
            }
        }
    }
}

/// When the parser, or the read before it, fails any number of times in a
/// row and then succeeds, exactly one value goes to the channel, after the
/// last failure, and it is the value of the read that succeeded. No error is
/// ever handed on.
pub proof fn lemma_parser_isolation<T, E>(
    phase: Phase,
    errors: Seq<FileWatcherError<E>>,
    value: T,
)
    requires
        phase == Phase::InitialRead || phase == Phase::Reading,
    ensures
        ({
            let events = failed_reads::<T, E>(errors).push(Event::ReadDone(Ok(value)));
            let acts = actions(phase, events);
            &&& sends(acts) == 1
            &&& acts.last() == Action::<T, E>::Send(value)
            &&& sends(acts.drop_last()) == 0
            &&& acts.len() == 2 * errors.len() + 1
        }),
{
    lemma_failed_reads::<T, E>(phase, errors);
    let failures = failed_reads::<T, E>(errors);
    let events = failures.push(Event::ReadDone(Ok(value)));
    assert(events.drop_last() =~= failures);
    assert(actions(phase, events).drop_last() =~= actions(phase, failures));
}

proof fn lemma_action_at<T, E>(phase: Phase, events: Seq<Event<T, E>>, i: int)
    requires
        0 <= i < events.len(),
    ensures
        actions(phase, events).len() == events.len(),
        actions(phase, events)[i] == next(phase_after(phase, events.take(i)), events[i]).1,
    decreases events.len(),
{
    let shorter = events.drop_last();
    lemma_actions_len(phase, shorter);
    if i < events.len() - 1 {
        lemma_action_at(phase, shorter, i);
        assert(shorter.take(i) =~= events.take(i));
    } else {
        assert(events.take(i) =~= shorter);
    }
}

proof fn lemma_actions_len<T, E>(phase: Phase, events: Seq<Event<T, E>>)
    ensures
        actions(phase, events).len() == events.len(),
    decreases events.len(),
{
    if events.len() > 0 {
        lemma_actions_len(phase, events.drop_last());
    }
}

/// In an orderly run every read that succeeds is answered by sending its
/// value, nothing else is ever sent, and every notification is answered by
/// reading the file. So what the consumer got last is what the last
/// successful read found, and no change that was notified goes unread.
pub proof fn lemma_reads_and_sends<T, E>(phase: Phase, events: Seq<Event<T, E>>, i: int)
    requires
        orderly(phase, events),
        0 <= i < events.len(),
    ensures
        actions(phase, events).len() == events.len(),
        events[i] matches Event::ReadDone(Ok(value)) ==> actions(phase, events)[i]
            == Action::<T, E>::Send(value),
        actions(phase, events)[i] matches Action::Send(value) ==> events[i]
            == Event::<T, E>::ReadDone(Ok(value)),
        events[i] is Notified ==> actions(phase, events)[i] is Read,
        events[i] is Closed ==> actions(phase, events)[i] is Stop,
{
    lemma_action_at(phase, events, i);
    assert(expected(phase_after(phase, events.take(i)), events[i]));
}

/// Once stopped, the supervisor stays stopped and asks for nothing but the
/// end.
pub proof fn lemma_stopped_stays<T, E>(event: Event<T, E>)
    ensures
        next(Phase::Stopped, event) == (Phase::Stopped, Action::<T, E>::Stop),
{
}

} // verus!
