//! The steps of a runner, and how whoever drives it puts them together.
//!
//! A [`Step`] is what one call tells a runner. A [`Turn`] is one pass of the loop that drives it: an
//! attempt to connect, one read with all that follows from it, or one request of a client.
use vstd::prelude::*;

use crate::collections::StrBuf;
use crate::error::RunnerError;
use crate::runner::{is_fatal, target, RunnerState, State, Subscription};
use crate::stream::{after_read, granted, Event, FramerState};

verus! {

/// What a state calls for.
#[derive(Debug, Clone, Copy, PartialEq, Eq, Structural)]
pub enum Task {
    /// Try to connect.
    Connect,
    /// Read once.
    Read,
    /// Read once, or execute one request of a client.
    ReadOrExecute,
}

/// What a state calls for: requests of clients wait until there is a connection.
pub open spec fn task_of(state: State) -> Task {
    match state {
        State::Disconnected => Task::Connect,
        State::Authenticating => Task::Read,
        State::Connected => Task::ReadOrExecute,
    }
}

/// What came of a read or of a request.
pub enum Outcome {
    /// What had to be done was done.
    Done,
    /// A frame could not be understood.
    Misread,
    /// The connection is of no more use.
    Fatal,
}

/// What a result says.
pub open spec fn outcome_of<E>(result: Result<(), RunnerError<E>>) -> Outcome {
    match result {
        Ok(()) => Outcome::Done,
        Err(e) => if is_fatal(e) {
            Outcome::Fatal
        } else {
            Outcome::Misread
        },
    }
}

/// What one call tells a runner.
pub enum Step<S> {
    /// The connection is gone.
    Disconnect,
    /// An attempt to connect came to its end.
    TryConnect { connected: bool },
    /// Room was made for a read, which left `added` in it, or there was none.
    Space { added: Option<Seq<u8>> },
    /// A read brought a number of bytes, or failed.
    Frame { read: Option<nat> },
    /// Something is to be done about a frame, or about none.
    Read { server_err: bool },
    /// The answer to an INFO message was written, or could not be.
    Connected { written: bool },
    /// A client wants to subscribe.
    Register { topic: Seq<char>, channel: S },
    /// A client wants to publish.
    Publish,
    /// A turn of a connection that stands came to its end.
    RunConnected { outcome: Outcome },
    /// A turn of a connection that is being established came to its end.
    RunAuthStep { outcome: Outcome },
}

/// What a step does to a runner that holds topics in a `T` and handles `max` subscriptions.
pub open spec fn after_step<T: StrBuf, S>(
    before: RunnerState<S>,
    step: Step<S>,
    max: nat,
) -> RunnerState<S> {
    match step {
        Step::Disconnect => RunnerState { state: State::Disconnected, ..before },
        Step::TryConnect { connected: true } => RunnerState {
            state: State::Authenticating,
            framer: FramerState::start(),
            ..before
        },
        Step::Space { added: Some(added) } => RunnerState {
            framer: granted(before.framer, added),
            ..before
        },
        Step::Frame { read: Some(n) } => RunnerState {
            framer: after_read::<T>(before.framer, n).0,
            ..before
        },
        Step::Read { server_err: true } => RunnerState { state: State::Disconnected, ..before },
        Step::Connected { written: true } => RunnerState { state: State::Connected, ..before },
        Step::Register { topic, channel } => if before.subs.len() < max {
            RunnerState {
                subs: before.subs.push((before.subs.len() as usize, topic, channel)),
                ..before
            }
        } else {
            before
        },
        Step::RunConnected { outcome: Outcome::Misread } => RunnerState {
            framer: FramerState::start(),
            ..before
        },
        Step::RunConnected { outcome: Outcome::Fatal } => RunnerState {
            state: State::Disconnected,
            ..before
        },
        Step::RunAuthStep { outcome: Outcome::Misread } => RunnerState {
            state: State::Disconnected,
            ..before
        },
        Step::RunAuthStep { outcome: Outcome::Fatal } => RunnerState {
            state: State::Disconnected,
            ..before
        },
        _ => before,
    }
}

/// What steps, one after the other, do to a runner.
pub open spec fn after_steps<T: StrBuf, S>(
    before: RunnerState<S>,
    steps: Seq<Step<S>>,
    max: nat,
) -> RunnerState<S>
    decreases steps.len(),
{
    if steps.len() == 0 {
        before
    } else {
        after_step::<T, S>(
            after_steps::<T, S>(before, steps.drop_last(), max),
            steps.last(),
            max,
        )
    }
}

/// All that the world outside decides in a read and what follows from it.
pub struct Reading {
    /// What the room for the read held after it, where there was room.
    pub added: Option<Seq<u8>>,
    /// The number of bytes that were read, where the reader did not fail.
    pub read: Option<nat>,
    /// Whether the body of an INFO message could be read.
    pub decoded: bool,
    /// Whether the body of a CONNECT message could be made.
    pub made: bool,
    /// Whether all that had to be written was written.
    pub written: bool,
}

/// One pass of the loop that drives a runner.
pub enum Turn<S> {
    /// An attempt to connect.
    Connect { connected: bool },
    /// One read, and what is done about it.
    Read { reading: Reading },
    /// A subscription that a client asked for; `written` says whether its line was written.
    Subscribe { topic: Seq<char>, channel: S, written: bool },
    /// A payload that a client published; `written` says whether it was written.
    Publish { written: bool },
}

/// Whether a turn is one that a task allows.
pub open spec fn is_turn_of<S>(turn: Turn<S>, task: Task) -> bool {
    match turn {
        Turn::Connect { .. } => task is Connect,
        Turn::Read { .. } => task is Read || task is ReadOrExecute,
        Turn::Subscribe { .. } => task is ReadOrExecute,
        Turn::Publish { .. } => task is ReadOrExecute,
    }
}

/// What came of writing.
pub open spec fn written_outcome(written: bool) -> Outcome {
    if written {
        Outcome::Done
    } else {
        Outcome::Fatal
    }
}

/// What a read brings to light in a runner, where there was room for it and the reader did not fail.
pub open spec fn event_of<T: StrBuf, S>(before: RunnerState<S>, reading: Reading) -> Option<Event> {
    match (reading.added, reading.read) {
        (Some(added), Some(n)) => Some(after_read::<T>(granted(before.framer, added), n).1),
        _ => None,
    }
}

/// The steps of one read, with all that is done about the frame that it completes, and what came of
/// it: an INFO message is answered, a ping too, and so is a message without a subscription.
pub open spec fn reading_steps<T: StrBuf, S>(before: RunnerState<S>, reading: Reading) -> (
    Seq<Step<S>>,
    Outcome,
) {
    let space = Step::Space { added: reading.added };
    let frame = Step::Frame { read: reading.read };
    let act = Step::Read { server_err: false };
    if reading.added is None {
        (seq![space], Outcome::Misread)
    } else {
        match event_of::<T, S>(before, reading) {
            None => (seq![space, frame], Outcome::Fatal),
            Some(Event::Closed) => (seq![space, frame], Outcome::Fatal),
            Some(Event::NotUtf8) => (seq![space, frame], Outcome::Misread),
            Some(Event::TopicTooLong) => (seq![space, frame], Outcome::Misread),
            Some(Event::Invalid) => (seq![space, frame], Outcome::Misread),
            Some(Event::Pending) => (seq![space, frame, act], Outcome::Done),
            Some(Event::ServerOk) => (seq![space, frame, act], Outcome::Done),
            Some(Event::ServerErr) => (
                seq![space, frame, Step::Read { server_err: true }],
                Outcome::Done,
            ),
            Some(Event::Ping) => (seq![space, frame, act], written_outcome(reading.written)),
            Some(Event::Msg { sid, .. }) => (
                seq![space, frame, act],
                if target(before.subs, sid) is Some {
                    Outcome::Done
                } else {
                    written_outcome(reading.written)
                },
            ),
            Some(Event::Info(_)) => if !reading.decoded {
                (seq![space, frame], Outcome::Misread)
            } else if !reading.made {
                (seq![space, frame, act], Outcome::Fatal)
            } else {
                (
                    seq![space, frame, act, Step::Connected { written: reading.written }],
                    written_outcome(reading.written),
                )
            },
        }
    }
}

/// The step that ends a turn in a state.
pub open spec fn last_step<S>(state: State, outcome: Outcome) -> Step<S> {
    if state is Authenticating {
        Step::RunAuthStep { outcome }
    } else {
        Step::RunConnected { outcome }
    }
}

/// What came of a subscription that a client asked for.
pub open spec fn subscribe_outcome<S>(
    subs: Seq<Subscription<S>>,
    max: nat,
    written: bool,
) -> Outcome {
    if subs.len() < max {
        written_outcome(written)
    } else {
        Outcome::Fatal
    }
}

/// The steps of a turn.
pub open spec fn turn_steps<T: StrBuf, S>(
    before: RunnerState<S>,
    turn: Turn<S>,
    max: nat,
) -> Seq<Step<S>> {
    match turn {
        Turn::Connect { connected } => seq![Step::TryConnect { connected }],
        Turn::Read { reading } => {
            let (steps, outcome) = reading_steps::<T, S>(before, reading);
            steps.push(last_step(before.state, outcome))
        },
        Turn::Subscribe { topic, channel, written } => seq![
            Step::Register { topic, channel },
            last_step(before.state, subscribe_outcome(before.subs, max, written)),
        ],
        Turn::Publish { written } => seq![
            Step::Publish,
            last_step(before.state, written_outcome(written)),
        ],
    }
}

/// What turns, one after the other, make of a runner without a connection and without subscriptions.
pub open spec fn after_turns<T: StrBuf, S>(turns: Seq<Turn<S>>, max: nat) -> RunnerState<S>
    decreases turns.len(),
{
    if turns.len() == 0 {
        RunnerState::fresh()
    } else {
        let before = after_turns::<T, S>(turns.drop_last(), max);
        after_steps::<T, S>(before, turn_steps::<T, S>(before, turns.last(), max), max)
    }
}

/// Whether each turn is one that the state before it calls for.
pub open spec fn is_run<T: StrBuf, S>(turns: Seq<Turn<S>>, max: nat) -> bool
    decreases turns.len(),
{
    turns.len() == 0 || {
        &&& is_run::<T, S>(turns.drop_last(), max)
        &&& is_turn_of(
            turns.last(),
            task_of(after_turns::<T, S>(turns.drop_last(), max).state),
        )
    }
}

/// Whether a turn read an INFO message and wrote the whole answer to it.
pub open spec fn answers_info<T: StrBuf, S>(before: RunnerState<S>, turn: Turn<S>) -> bool {
    match turn {
        Turn::Read { reading } => {
            &&& event_of::<T, S>(before, reading) matches Some(Event::Info(_))
            &&& reading.decoded
            &&& reading.made
            &&& reading.written
        },
        _ => false,
    }
}

} // verus!
