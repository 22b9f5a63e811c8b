//! How a connection comes to stand.
use vstd::prelude::*;

use crate::collections::StrBuf;
use crate::error::{CapacityError, FramerError, RunnerError};
use crate::laws::{
    is_idle, lemma_stays_idle, may_bring_all, new_subscription_moves_no_other,
    only_what_was_read_counts, read_all, reading_goes_on,
};
use crate::runner::{is_numbered, target, RunnerState, State};
use crate::steps::{
    after_step, after_steps, after_turns, answers_info, event_of, is_run, outcome_of,
    reading_steps, turn_steps, Outcome, Reading, Step, Turn,
};
use crate::stream::{after_read, granted, room, FramerState};
use crate::text::is_short;

verus! {

/// The step that leads to a state.
pub open spec fn leads_to<S>(step: Step<S>, state: State) -> bool {
    match state {
        State::Disconnected => match step {
            Step::Disconnect => true,
            Step::Read { server_err } => server_err,
            Step::RunConnected { outcome } => outcome is Fatal,
            Step::RunAuthStep { outcome } => !(outcome is Done),
            _ => false,
        },
        State::Authenticating => step == (Step::<S>::TryConnect { connected: true }),
        State::Connected => step == (Step::<S>::Connected { written: true }),
    }
}

/// A state is entered by the steps that lead to it and by no other: a runner authenticates only once
/// an attempt to connect succeeded, and then with a new frame; it is connected only once the whole
/// answer to an INFO message was written; and it is disconnected only where that was said, where the
/// server reported an error or where a turn failed.
pub proof fn states_are_entered_by_their_steps<T: StrBuf, S>(
    before: RunnerState<S>,
    step: Step<S>,
    max: nat,
)
    ensures
        ({
            let after = after_step::<T, S>(before, step, max);
            &&& leads_to(step, State::Disconnected) ==> after.state == State::Disconnected
            &&& leads_to(step, State::Authenticating) ==> after.state == State::Authenticating
                && after.framer == FramerState::start()
            &&& leads_to(step, State::Connected) ==> after.state == State::Connected
            &&& after.state != before.state ==> leads_to(step, after.state)
        }),
{
}

/// A runner is in a state because one step led to it, and it has been in it ever since; or because it
/// was in it from the first and has been ever since.
pub proof fn states_last<T: StrBuf, S>(before: RunnerState<S>, steps: Seq<Step<S>>, max: nat)
    ensures
        ({
            let state = after_steps::<T, S>(before, steps, max).state;
            ||| state == before.state && forall|j: int|
                0 <= j <= steps.len() ==> (#[trigger] after_steps::<T, S>(
                    before,
                    steps.take(j),
                    max,
                )).state == state
            ||| exists|i: int|
                {
                    &&& 0 <= i < steps.len()
                    &&& leads_to(#[trigger] steps[i], state)
                    &&& forall|j: int|
                        i < j <= steps.len() ==> (#[trigger] after_steps::<T, S>(
                            before,
                            steps.take(j),
                            max,
                        )).state == state
                }
        }),
    decreases steps.len(),
{
    let state = after_steps::<T, S>(before, steps, max).state;
    assert(steps.take(steps.len() as int) =~= steps);
    if steps.len() > 0 {
        let head = steps.drop_last();
        let mid = after_steps::<T, S>(before, head, max);
        states_last::<T, S>(before, head, max);
        states_are_entered_by_their_steps::<T, S>(mid, steps.last(), max);
        assert forall|j: int| 0 <= j < steps.len() implies steps.take(j) == #[trigger] head.take(
            j,
        ) by {
            assert(steps.take(j) =~= head.take(j));
        }
        if mid.state != state {
            assert(steps.last() == steps[steps.len() - 1]);
            assert(leads_to(steps[steps.len() - 1], state));
        } else if !(mid.state == before.state && forall|j: int|
            0 <= j <= head.len() ==> (#[trigger] after_steps::<T, S>(
                before,
                head.take(j),
                max,
            )).state == state) {
            let i = choose|i: int|
                {
                    &&& 0 <= i < head.len()
                    &&& leads_to(#[trigger] head[i], state)
                    &&& forall|j: int|
                        i < j <= head.len() ==> (#[trigger] after_steps::<T, S>(
                            before,
                            head.take(j),
                            max,
                        )).state == state
                };
            assert(steps[i] == head[i]);
            assert forall|j: int| i < j <= steps.len() implies (#[trigger] after_steps::<T, S>(
                before,
                steps.take(j),
                max,
            )).state == state by {
                if j < steps.len() {
                    assert(steps.take(j) == head.take(j));
                }
            }
        } else {
            assert forall|j: int| 0 <= j <= steps.len() implies (#[trigger] after_steps::<T, S>(
                before,
                steps.take(j),
                max,
            )).state == state by {
                if j < steps.len() {
                    assert(steps.take(j) == head.take(j));
                }
            }
        }
    }
}

/// No step forgets, changes or moves a subscription.
pub proof fn no_step_forgets_a_subscription<T: StrBuf, S>(
    before: RunnerState<S>,
    step: Step<S>,
    max: nat,
)
    ensures
        before.subs.is_prefix_of(after_step::<T, S>(before, step, max).subs),
{
}

proof fn lemma_entered_within<T: StrBuf, S>(
    before: RunnerState<S>,
    steps: Seq<Step<S>>,
    max: nat,
)
    ensures
        ({
            let state = after_steps::<T, S>(before, steps, max).state;
            state != before.state ==> exists|i: int|
                0 <= i < steps.len() && leads_to(#[trigger] steps[i], state)
        }),
{
    states_last::<T, S>(before, steps, max);
}

/// The loop that drives a runner takes a runner without a connection to a connection that stands in
/// two turns, and in no other way: it authenticates only out of being disconnected, by an attempt to
/// connect that succeeded; it is connected only out of authenticating, by a turn that read an INFO
/// message and wrote the whole answer to it. A request of a client is executed only while connected.
pub proof fn connection_stands_after_an_answered_info<T: StrBuf, S>(
    turns: Seq<Turn<S>>,
    max: nat,
)
    requires
        is_run::<T, S>(turns, max),
        turns.len() > 0,
    ensures
        ({
            let before = after_turns::<T, S>(turns.drop_last(), max);
            let after = after_turns::<T, S>(turns, max);
            let turn = turns.last();
            &&& after.state == State::Authenticating && before.state != State::Authenticating <==> {
                &&& before.state == State::Disconnected
                &&& turn == (Turn::<S>::Connect { connected: true })
            }
            &&& after.state == State::Connected && before.state != State::Connected <==> {
                &&& before.state == State::Authenticating
                &&& answers_info::<T, S>(before, turn)
            }
            &&& turn is Subscribe || turn is Publish ==> before.state == State::Connected
        }),
{
    let before = after_turns::<T, S>(turns.drop_last(), max);
    let turn = turns.last();
    let steps = turn_steps::<T, S>(before, turn, max);
    let after = after_steps::<T, S>(before, steps, max);
    lemma_entered_within::<T, S>(before, steps, max);
    if after.state != before.state {
        let i = choose|i: int| 0 <= i < steps.len() && leads_to(#[trigger] steps[i], after.state);
        assert(leads_to(steps[i], after.state));
    }
    if turn == (Turn::<S>::Connect { connected: true }) {
        reveal_with_fuel(after_steps, 2);
        assert(steps.drop_last() =~= Seq::empty());
    }
    if answers_info::<T, S>(before, turn) {
        lemma_answer_connects::<T, S>(before, steps, max);
    }
}

proof fn lemma_answer_connects<T: StrBuf, S>(
    before: RunnerState<S>,
    steps: Seq<Step<S>>,
    max: nat,
)
    requires
        steps.len() >= 2,
        steps[steps.len() - 2] == (Step::<S>::Connected { written: true }),
        !leads_to(steps.last(), State::Disconnected),
        !leads_to(steps.last(), State::Authenticating),
    ensures
        after_steps::<T, S>(before, steps, max).state == State::Connected,
{
    let head = steps.drop_last();
    assert(head.last() == steps[steps.len() - 2]);
    assert(after_steps::<T, S>(before, head, max) == after_step::<T, S>(
        after_steps::<T, S>(before, head.drop_last(), max),
        head.last(),
        max,
    ));
    states_are_entered_by_their_steps::<T, S>(
        after_steps::<T, S>(before, head, max),
        steps.last(),
        max,
    );
}

/// A subscription that there is room for is remembered in every state of the connection, under the
/// next number, and its messages go to its channel from then on. Nothing else changes, and nothing at
/// all where there is no room.
pub proof fn registering_remembers<T: StrBuf, S>(
    before: RunnerState<S>,
    topic: Seq<char>,
    channel: S,
    max: nat,
)
    ensures
        ({
            let n = before.subs.len();
            let after = after_step::<T, S>(before, Step::Register { topic, channel }, max);
            &&& after.state == before.state
            &&& after.framer == before.framer
            &&& n >= max ==> after.subs == before.subs
            &&& n < max ==> {
                &&& after.subs.len() == n + 1
                &&& forall|i: int| 0 <= i < n ==> after.subs[i] == #[trigger] before.subs[i]
                &&& after.subs[n as int] == (n as usize, topic, channel)
            }
            &&& n < max && n <= usize::MAX && is_numbered(before.subs) && is_short(n) ==> {
                &&& is_numbered(after.subs)
                &&& target(after.subs, n as usize) == Some(n as int)
            }
        }),
{
    let n = before.subs.len();
    if n < max && n <= usize::MAX && is_numbered(before.subs) && is_short(n) {
        new_subscription_moves_no_other(before.subs, topic, channel, n as usize);
    }
}

/// No step touches what it is not about. Only a new subscription changes the subscriptions. To act on
/// a frame or on none, to answer, to register, to publish or to lose the connection leaves the bytes
/// of the frame that is being read as they are; making room adds to their end; and only a new
/// connection and a frame that was not understood begin a new frame.
pub proof fn steps_touch_nothing_else<T: StrBuf, S>(
    before: RunnerState<S>,
    step: Step<S>,
    max: nat,
)
    ensures
        ({
            let after = after_step::<T, S>(before, step, max);
            &&& !(step is Register) ==> after.subs == before.subs
            &&& match step {
                Step::Disconnect => after.framer == before.framer,
                Step::TryConnect { connected } => if connected {
                    after.framer == (FramerState::Sync { bytes: Seq::empty(), magic: 0 })
                } else {
                    after == before
                },
                Step::Space { added } => {
                    &&& after.state == before.state
                    &&& added is None ==> after == before
                    &&& added matches Some(added) ==> after.framer.bytes()
                        == before.framer.bytes() + added
                },
                Step::Frame { read } => {
                    &&& after.state == before.state
                    &&& read is None ==> after == before
                },
                Step::Read { .. } => after.framer == before.framer,
                Step::Connected { .. } => after.framer == before.framer,
                Step::Register { .. } => after.framer == before.framer,
                Step::Publish => after == before,
                Step::RunConnected { outcome } => match outcome {
                    Outcome::Done => after == before,
                    Outcome::Misread => after.state == before.state && after.framer == (
                    FramerState::Sync { bytes: Seq::empty(), magic: 0 }),
                    Outcome::Fatal => after.framer == before.framer,
                },
                Step::RunAuthStep { outcome } => {
                    &&& after.framer == before.framer
                    &&& outcome is Done ==> after == before
                },
            }
        }),
{
}

/// What a turn with a read does to the framer is what the read does: whatever is done about the frame
/// that it completes, or about none, no byte that came is lost and none is added.
pub proof fn turn_reads_on<T: StrBuf, S>(
    before: RunnerState<S>,
    reading: Reading,
    added: Seq<u8>,
    n: nat,
    max: nat,
)
    requires
        reading.added == Some(added),
        reading.read == Some(n),
    ensures
        ({
            let turn = Turn::<S>::Read { reading };
            let after = after_steps::<T, S>(before, turn_steps::<T, S>(before, turn, max), max);
            &&& after.framer == after_read::<T>(granted(before.framer, added), n).0
            &&& after.subs == before.subs
        }),
{
    let turn = Turn::<S>::Read { reading };
    let steps = turn_steps::<T, S>(before, turn, max);
    let (act, outcome) = reading_steps::<T, S>(before, reading);
    let event = event_of::<T, S>(before, reading)->0;
    let (framer, _) = after_read::<T>(granted(before.framer, added), n);
    assert(outcome is Misread ==> framer == FramerState::start()) by {
        if outcome is Misread {
            assert(event is NotUtf8 || event is TopicTooLong || event is Invalid || event is Info);
            lemma_done_header_starts_anew::<T>(granted(before.framer, added), n);
        }
    }
    lemma_reading_shape::<T, S>(before, reading);
    lemma_two_steps_read::<T, S>(before, act, added, n, max);
    lemma_acting_keeps::<T, S>(before, act, act.len() as int, max);
    assert(steps.drop_last() =~= act);
    assert(act.take(act.len() as int) =~= act);
    let mid = after_steps::<T, S>(before, act, max);
    assert(after_steps::<T, S>(before, steps, max) == after_step::<T, S>(mid, steps.last(), max));
    steps_touch_nothing_else::<T, S>(mid, steps.last(), max);
}

proof fn lemma_done_header_starts_anew<T: StrBuf>(state: FramerState, n: nat)
    requires
        ({
            let event = after_read::<T>(state, n).1;
            event is NotUtf8 || event is TopicTooLong || event is Invalid || event is Info
        }),
    ensures
        after_read::<T>(state, n).0 == FramerState::start(),
{
}

/// Whether a step is one of those that act on a frame.
spec fn is_acting<S>(step: Step<S>) -> bool {
    step is Read || step is Connected
}

proof fn lemma_reading_shape<T: StrBuf, S>(before: RunnerState<S>, reading: Reading)
    requires
        reading.added is Some,
    ensures
        ({
            let act = reading_steps::<T, S>(before, reading).0;
            &&& act.len() >= 2
            &&& act[0] == (Step::<S>::Space { added: reading.added })
            &&& act[1] == (Step::<S>::Frame { read: reading.read })
            &&& forall|i: int| 2 <= i < act.len() ==> is_acting(#[trigger] act[i])
        }),
{
}

proof fn lemma_two_steps_read<T: StrBuf, S>(
    before: RunnerState<S>,
    act: Seq<Step<S>>,
    added: Seq<u8>,
    n: nat,
    max: nat,
)
    requires
        act.len() >= 2,
        act[0] == (Step::<S>::Space { added: Some(added) }),
        act[1] == (Step::<S>::Frame { read: Some(n) }),
    ensures
        ({
            let after = after_steps::<T, S>(before, act.take(2), max);
            &&& after.framer == after_read::<T>(granted(before.framer, added), n).0
            &&& after.subs == before.subs
        }),
{
    let two = act.take(2);
    let one = two.drop_last();
    assert(one.drop_last() =~= Seq::empty());
    assert(after_steps::<T, S>(before, one.drop_last(), max) == before);
    assert(after_steps::<T, S>(before, one, max) == after_step::<T, S>(before, one.last(), max));
}

proof fn lemma_acting_keeps<T: StrBuf, S>(
    before: RunnerState<S>,
    act: Seq<Step<S>>,
    k: int,
    max: nat,
)
    requires
        2 <= k <= act.len(),
        forall|i: int| 2 <= i < act.len() ==> is_acting(#[trigger] act[i]),
    ensures
        ({
            let two = after_steps::<T, S>(before, act.take(2), max);
            let all = after_steps::<T, S>(before, act.take(k), max);
            all.framer == two.framer && all.subs == two.subs
        }),
    decreases k,
{
    if k > 2 {
        lemma_acting_keeps::<T, S>(before, act, k - 1, max);
        assert(act.take(k).drop_last() =~= act.take(k - 1));
        let mid = after_steps::<T, S>(before, act.take(k - 1), max);
        assert(is_acting(act[k - 1]));
        steps_touch_nothing_else::<T, S>(mid, act[k - 1], max);
    }
}

/// What turns with a read each, one after the other, do to a runner.
pub open spec fn after_readings<T: StrBuf, S>(
    before: RunnerState<S>,
    readings: Seq<Reading>,
    max: nat,
) -> RunnerState<S>
    decreases readings.len(),
{
    if readings.len() == 0 {
        before
    } else {
        let mid = after_readings::<T, S>(before, readings.drop_last(), max);
        let turn = Turn::<S>::Read { reading: readings.last() };
        after_steps::<T, S>(mid, turn_steps::<T, S>(mid, turn, max), max)
    }
}

/// Over any number of turns a runner reads the stream as it comes: the bytes of one turn after those
/// of the other, whatever was done in between. So what the last read brings to light is what all of
/// them together bring.
pub proof fn turns_read_the_stream<T: StrBuf, S>(
    before: RunnerState<S>,
    readings: Seq<Reading>,
    chunks: Seq<Seq<u8>>,
    max: nat,
)
    requires
        is_idle(before.framer),
        readings.len() == chunks.len(),
        may_bring_all::<T>(before.framer, chunks),
        forall|i: int|
            0 <= i < chunks.len() ==> {
                let room = room(read_all::<T>(before.framer, chunks.take(i)).0);
                &&& (#[trigger] readings[i]).read == Some(chunks[i].len())
                &&& readings[i].added matches Some(added)
                &&& added.len() == room
                &&& added.take(chunks[i].len() as int) == chunks[i]
            },
    ensures
        after_readings::<T, S>(before, readings, max).framer == read_all::<T>(
            before.framer,
            chunks,
        ).0,
        chunks.len() > 0 ==> event_of::<T, S>(
            after_readings::<T, S>(before, readings.drop_last(), max),
            readings.last(),
        ) == Some(read_all::<T>(before.framer, chunks).1.last()),
    decreases chunks.len(),
{
    if chunks.len() > 0 {
        let head = chunks.drop_last();
        let first = readings.drop_last();
        let last = chunks.len() - 1;
        assert forall|i: int| 0 <= i < head.len() implies {
            let room = room(read_all::<T>(before.framer, head.take(i)).0);
            &&& (#[trigger] first[i]).read == Some(head[i].len())
            &&& first[i].added matches Some(added)
            &&& added.len() == room
            &&& added.take(head[i].len() as int) == head[i]
        } by {
            assert(first[i] == readings[i]);
            assert(head.take(i) =~= chunks.take(i));
        }
        turns_read_the_stream::<T, S>(before, first, head, max);
        let mid = after_readings::<T, S>(before, first, max);
        assert(chunks.take(last) =~= head);
        assert(readings.last() == readings[last]);
        let added = readings.last().added->0;
        let n = chunks.last().len();
        lemma_stays_idle::<T>(before.framer, head);
        reading_goes_on::<T>(mid.framer, added, n);
        only_what_was_read_counts::<T>(mid.framer, added, n);
        turn_reads_on::<T, S>(mid, readings.last(), added, n, max);
    }
}

/// A connection is of no more use where the reader is at its end or failed, where nothing can be
/// written and where a collection is full; a frame that is not understood leaves it as it is.
pub proof fn errors_of_frames_are_not_fatal<E>(
    framer: FramerError<E>,
    capacity: CapacityError,
    write: E,
    ser: serde_json_core::ser::Error,
)
    ensures
        outcome_of::<E>(Ok(())) is Done,
        outcome_of::<E>(Err(RunnerError::Framer(framer))) is Fatal <==> framer is Disconnected
            || framer is Read,
        outcome_of::<E>(Err(RunnerError::Framer(framer))) is Misread <==> framer is Capacity
            || framer is Deser || framer is Utf8 || framer is Header,
        outcome_of::<E>(Err(RunnerError::Write(write))) is Fatal,
        outcome_of::<E>(Err(RunnerError::Capacity(capacity))) is Fatal,
        outcome_of::<E>(Err(RunnerError::Ser(ser))) is Fatal,
{
}

} // verus!
