//! Keeps the connection to a server, step by step.
//!
//! A [`Runner`] decides and remembers; the connection itself is driven elsewhere. Whoever drives it
//! asks for [`Runner::task`], does what it says, and tells the runner what came of it:
//!
//! - [`Task::Connect`]: connect, then call [`Runner::try_connect`].
//! - [`Task::Read`]: read once, then call [`Runner::run_auth_step`].
//! - [`Task::ReadOrExecute`]: read once or execute one command, then call [`Runner::run_connected`].
//!
//! To read once is to get [`Runner::space`], to read into it, and to call [`Runner::frame`] and
//! [`Runner::read`] on what came.
use vstd::prelude::*;
use vstd::utf8::encode_utf8;

use crate::auth::NatsAuthenticator;
use crate::bounded::{zeros, BoundedVec};
use crate::collections::{can_extend, fits, shortened, BytesBuf, NatsCollections, StrBuf};
use crate::error::{CapacityError, FramerError, RunnerError};
use crate::framer::{is_frame_result, Frame, Framer};
use crate::header::header_of;
use crate::laws::number_finds_its_subscription;
use crate::limits::AUTH_MAX_STR_LEN;
use crate::message::{InternalCmd, NatsInfoMsg, NatsMsg};
use crate::steps::{after_step, outcome_of, task_of, Step, Task};
use crate::stream::{
    after_header, after_read, can_grow, has_room, is_sound, may_take, room, FramerState,
};
use crate::text::{decimal, is_short, number_is_short};
use crate::wire::{
    connect_line, pong_line, pub_message, put_connect, put_pong, put_pub, put_sub, put_unsub,
    sub_line, unsub_line,
};

verus! {

/// How far the connection to the server has come.
#[derive(Debug, Clone, Copy, PartialEq, Eq, Structural)]
pub enum State {
    Disconnected,
    Authenticating,
    Connected,
}

/// What is to be done about a frame.
pub enum Action<C: NatsCollections> {
    /// Nothing.
    Nothing,
    /// Write these bytes to the connection.
    Write(Vec<u8>),
    /// Make this message known, and write what [`Runner::connect`] returns.
    Connect(NatsInfoMsg),
    /// Abort the connection.
    Abort,
    /// Send the message to the channel of this subscription.
    Deliver { slot: usize, msg: NatsMsg<C> },
}

/// A subscription: its number, its topic and where its messages go.
pub type Subscription<S> = (usize, Seq<char>, S);

/// What a runner knows.
#[verifier::ext_equal]
#[verifier::reject_recursive_types(S)]
pub struct RunnerState<S> {
    pub state: State,
    pub subs: Seq<Subscription<S>>,
    pub framer: FramerState,
}

impl<S> RunnerState<S> {
    /// Without a connection and without subscriptions.
    pub open spec fn fresh() -> Self {
        RunnerState {
            state: State::Disconnected,
            subs: Seq::empty(),
            framer: FramerState::start(),
        }
    }
}

/// Whether subscriptions are numbered in the order in which they came, by numbers that are short
/// enough for the wire.
pub open spec fn is_numbered<S>(subs: Seq<Subscription<S>>) -> bool {
    forall|i: int| 0 <= i < subs.len() ==> (#[trigger] subs[i]).0 == i && is_short(i as nat)
}

/// The place of the first subscription with a number.
pub open spec fn target<S>(subs: Seq<Subscription<S>>, sid: usize) -> Option<int> {
    subs.map_values(|sub: Subscription<S>| sub.0).index_of_first(sid)
}

/// The lines that subscribe to all of `subs` in their order.
pub open spec fn sub_lines<S>(subs: Seq<Subscription<S>>) -> Seq<u8>
    decreases subs.len(),
{
    if subs.len() == 0 {
        Seq::empty()
    } else {
        sub_lines(subs.drop_last()) + sub_line(subs.last().1, subs.last().0 as nat)
    }
}

/// Whether an error leaves the connection of no use. A frame that could not be understood does not:
/// the next one may be.
pub open spec fn is_fatal<E>(error: RunnerError<E>) -> bool {
    match error {
        RunnerError::Framer(FramerError::Disconnected) => true,
        RunnerError::Framer(FramerError::Read(_)) => true,
        RunnerError::Framer(_) => false,
        _ => true,
    }
}

/// Keeps the connection to a server. `S` is where the messages of a subscription go; there are at
/// most `N` subscriptions.
#[verifier::reject_recursive_types(S)]
pub struct Runner<C: NatsCollections, A: NatsAuthenticator, S, const N: usize> {
    auth: A,
    state: State,
    subs: BoundedVec<(usize, C::Topic, S), N>,
    framer: Framer<C>,
}

impl<C: NatsCollections, A: NatsAuthenticator, S, const N: usize> View for Runner<C, A, S, N> {
    type V = RunnerState<S>;

    closed spec fn view(&self) -> RunnerState<S> {
        RunnerState {
            state: self.state,
            subs: self.subs@.map_values(
                |sub: (usize, C::Topic, S)| -> Subscription<S> { (sub.0, sub.1.text(), sub.2) },
            ),
            framer: self.framer@,
        }
    }
}

impl<C: NatsCollections, A: NatsAuthenticator, S, const N: usize> Runner<C, A, S, N> {
    /// How the client presents itself.
    pub closed spec fn auth(self) -> A {
        self.auth
    }

    /// What holds between any two calls.
    pub open spec fn wf(self) -> bool {
        &&& is_sound(self@.framer)
        &&& self@.subs.len() <= N
        &&& is_numbered(self@.subs)
    }

    /// Whether [`Runner::space`] can be called.
    pub open spec fn can_grow(self) -> bool {
        can_grow::<C>(self@.framer)
    }

    /// What a step does to a runner of this type.
    pub open spec fn after(before: RunnerState<S>, step: Step<S>) -> RunnerState<S> {
        after_step::<C::Topic, S>(before, step, N as nat)
    }

    /// A runner without a connection and without subscriptions.
    pub fn new(auth: A) -> (runner: Self)
        ensures
            runner.wf(),
            runner.auth() == auth,
            runner@ == RunnerState::<S>::fresh(),
            runner@.state == State::Disconnected,
            runner@.subs.len() == 0,
            runner@.framer == (FramerState::Sync { bytes: Seq::empty(), magic: 0 }),
    {
        let runner = Runner {
            auth,
            state: State::Disconnected,
            subs: BoundedVec::new(),
            framer: Framer::new(),
        };
        assert(runner@.subs =~= Seq::empty());
        runner
    }

    /// How the client presents itself.
    pub fn authenticator(&self) -> (auth: &A)
        ensures
            *auth == self.auth(),
    {
        &self.auth
    }

    /// How far the connection has come.
    pub fn state(&self) -> (state: State)
        ensures
            state == self@.state,
    {
        self.state
    }

    /// Where the messages of a subscription go.
    pub fn channel(&self, slot: usize) -> (channel: &S)
        requires
            slot < self@.subs.len(),
        ensures
            *channel == self@.subs[slot as int].2,
    {
        &self.subs.as_slice()[slot].2
    }

    /// What the state calls for.
    pub fn task(&self) -> (task: Task)
        ensures
            task == task_of(self@.state),
            task == Task::Connect <==> self@.state == State::Disconnected,
            task == Task::Read <==> self@.state == State::Authenticating,
            task == Task::ReadOrExecute <==> self@.state == State::Connected,
    {
        match self.state {
            State::Connected => Task::ReadOrExecute,
            State::Authenticating => Task::Read,
            State::Disconnected => Task::Connect,
        }
    }

    /// Takes note that the connection is gone.
    pub fn disconnect(&mut self)
        requires
            old(self).wf(),
        ensures
            final(self).wf(),
            final(self).auth() == old(self).auth(),
            final(self)@ == Self::after(old(self)@, Step::Disconnect),
            final(self)@.state == State::Disconnected,
            final(self)@.subs == old(self)@.subs,
            final(self)@.framer == old(self)@.framer,
    {
        self.state = State::Disconnected;
    }

    /// Takes note of the outcome of an attempt to connect.
    pub fn try_connect(&mut self, connected: bool)
        requires
            old(self).wf(),
        ensures
            final(self).wf(),
            final(self).auth() == old(self).auth(),
            final(self)@ == Self::after(old(self)@, Step::TryConnect { connected }),
            final(self)@.subs == old(self)@.subs,
            connected ==> final(self)@.state == State::Authenticating && final(self)@.framer == (
            FramerState::Sync { bytes: Seq::empty(), magic: 0 }),
            !connected ==> final(self)@ == old(self)@,
    {
        if connected {
            self.framer = Framer::new();
            self.state = State::Authenticating;
        }
    }

    /// Whether [`Runner::space`] can be called.
    pub fn may_grow(&self) -> (r: bool)
        requires
            self.wf(),
        ensures
            r == self.can_grow(),
    {
        self.framer.may_grow()
    }

    /// Whether [`Runner::frame`] can be told that `n` bytes were read.
    pub fn may_frame(&self, n: usize) -> (r: bool)
        requires
            self.wf(),
        ensures
            r == may_take(self@.framer, n as nat),
    {
        self.framer.may_frame(n)
    }

    /// Makes room for what the next read may bring and returns where it goes.
    pub fn space<E>(&mut self) -> (r: Result<&mut [u8], RunnerError<E>>)
        requires
            old(self).wf(),
            old(self).can_grow(),
        ensures
            final(self).wf(),
            final(self).auth() == old(self).auth(),
            final(self)@.state == old(self)@.state,
            final(self)@.subs == old(self)@.subs,
            match r {
                Ok(added) => match (old(self)@.framer, final(self)@.framer) {
                    (
                        FramerState::Sync { bytes, magic },
                        FramerState::Sync { bytes: now, magic: seen },
                    ) => added@.len() == 1 && now == bytes + final(added)@ && seen == magic,
                    (
                        FramerState::Msg { topic, sid, len, pos, bytes },
                        FramerState::Msg { topic: t, sid: s, len: l, pos: p, bytes: now },
                    ) => {
                        &&& added@.len() == len - pos
                        &&& now == bytes + final(added)@
                        &&& t == topic && s == sid && l == len && p == pos
                    },
                    _ => false,
                },
                Err(_) => final(self)@.framer == old(self)@.framer,
            },
            match r {
                Ok(added) => {
                    &&& has_room::<C>(old(self)@.framer)
                    &&& added@ == zeros(room(old(self)@.framer))
                    &&& final(self)@ == Self::after(
                        old(self)@,
                        Step::Space { added: Some(final(added)@) },
                    )
                },
                Err(e) => {
                    &&& !has_room::<C>(old(self)@.framer)
                    &&& e matches RunnerError::Framer(FramerError::Capacity(CapacityError::Bytes))
                    &&& final(self)@ == Self::after(old(self)@, Step::Space { added: None })
                },
            },
    {
        match self.framer.space() {
            Ok(added) => Ok(added),
            Err(e) => Err(RunnerError::Framer(e)),
        }
    }

    /// Takes note of the outcome of one read into the space that was made for it, and returns the
    /// frame that it completed, if any. An INFO message is read by `decode`.
    pub fn frame<E, D>(&mut self, read: Result<usize, E>, decode: &D) -> (r: Result<
        Option<Frame<C>>,
        RunnerError<E>,
    >) where D: Fn(&str) -> Result<NatsInfoMsg, serde_json_core::de::Error>
        requires
            old(self).wf(),
            read matches Ok(n) ==> may_take(old(self)@.framer, n as nat),
            forall|text: &str| call_requires(*decode, (text,)),
        ensures
            final(self).wf(),
            final(self).auth() == old(self).auth(),
            final(self)@.state == old(self)@.state,
            final(self)@.subs == old(self)@.subs,
            match read {
                Err(_) => final(self)@.framer == old(self)@.framer,
                Ok(n) => match old(self)@.framer {
                    FramerState::Msg { topic, sid, len, pos, bytes } => if n == 0 && len > 0 {
                        &&& r matches Err(RunnerError::Framer(FramerError::Disconnected))
                        &&& final(self)@.framer == old(self)@.framer
                    } else if pos + n == len {
                        &&& r matches Ok(Some(Frame::Msg(msg))) && msg.sid == sid
                            && msg.topic.text() == topic && (bytes.len() >= len
                            ==> msg.data.bytes() == bytes.take(len as int))
                        &&& final(self)@.framer == (FramerState::Sync {
                            bytes: Seq::empty(),
                            magic: 0,
                        })
                    } else {
                        &&& r matches Ok(None)
                        &&& bytes.len() >= pos + n ==> final(self)@.framer == (FramerState::Msg {
                            topic,
                            sid,
                            len,
                            pos: pos + n as nat,
                            bytes: bytes.take(pos + n),
                        })
                    },
                    FramerState::Sync { bytes, magic } => if n == 0 {
                        &&& r matches Err(RunnerError::Framer(FramerError::Disconnected))
                        &&& final(self)@.framer == old(self)@.framer
                    } else if magic == 1 && bytes.last() == 10 {
                        final(self)@.framer == after_header::<C::Topic>(header_of(bytes)).0
                    } else {
                        &&& r matches Ok(None)
                        &&& final(self)@.framer == (FramerState::Sync {
                            bytes,
                            magic: if magic == 0 && bytes.last() == 13 {
                                1
                            } else {
                                0
                            },
                        })
                    },
                },
            },
            match read {
                Err(e) => {
                    &&& r == Err::<Option<Frame<C>>, _>(RunnerError::Framer(FramerError::Read(e)))
                    &&& final(self)@ == Self::after(old(self)@, Step::Frame { read: None })
                },
                Ok(n) => {
                    let event = after_read::<C::Topic>(old(self)@.framer, n as nat).1;
                    &&& final(self)@ == Self::after(old(self)@, Step::Frame { read: Some(n as nat) })
                    &&& match r {
                        Ok(frame) => is_frame_result::<C, E, D>(event, *decode, Ok(frame)),
                        Err(RunnerError::Framer(e)) => is_frame_result::<C, E, D>(
                            event,
                            *decode,
                            Err(e),
                        ),
                        _ => false,
                    }
                },
            },
    {
        match self.framer.frame(read, decode) {
            Ok(frame) => Ok(frame),
            Err(e) => Err(RunnerError::Framer(e)),
        }
    }

    /// The place of the first subscription with a number.
    fn find(&self, sid: usize) -> (slot: Option<usize>)
        ensures
            match slot {
                Some(slot) => {
                    &&& target(self@.subs, sid) == Some(slot as int)
                    &&& slot < self@.subs.len()
                    &&& self@.subs[slot as int].0 == sid
                },
                None => {
                    &&& target(self@.subs, sid) is None
                    &&& forall|i: int| 0 <= i < self@.subs.len() ==> (#[trigger] self@.subs[i]).0 != sid
                },
            },
    {
        let subs = self.subs.as_slice();
        let ghost sids = self@.subs.map_values(|sub: Subscription<S>| sub.0);
        proof {
            sids.index_of_first_ensures(sid);
        }
        let n: usize = subs.len();
        let mut i: usize = 0;
        while i < n
            invariant
                i <= n,
                n == subs@.len(),
                subs@ == self.subs@,
                sids == self@.subs.map_values(|sub: Subscription<S>| sub.0),
                sids.len() == n,
                forall|j: int| 0 <= j < i ==> sids[j] != sid,
                match sids.index_of_first(sid) {
                    Some(k) => 0 <= k < n && sids[k] == sid && !sids.subrange(0, k).contains(sid),
                    None => !sids.contains(sid),
                },
            decreases n - i,
        {
            assert(sids[i as int] == subs@[i as int].0);
            if subs[i].0 == sid {
                assert(sids.contains(sid));
                assert(sids.index_of_first(sid) == Some(i as int)) by {
                    let k = sids.index_of_first(sid)->0;
                    if i < k {
                        assert(sids.subrange(0, k)[i as int] == sid);
                    }
                }
                return Some(i);
            }
            i += 1;
        }
        assert forall|j: int| 0 <= j < self@.subs.len() implies (#[trigger] self@.subs[j]).0
            != sid by {
            assert(sids[j] == self@.subs[j].0);
        }
        None
    }

    /// Whether [`Runner::read`] can be called: the number of a subscription that is to be ended must
    /// be short enough for the wire.
    pub open spec fn can_read(self, frame: Option<Frame<C>>) -> bool {
        frame matches Some(Frame::Msg(msg)) ==> target(self@.subs, msg.sid) is Some || is_short(
            msg.sid as nat,
        )
    }

    /// Whether [`Runner::read`] can be called.
    pub fn may_read(&self, frame: &Option<Frame<C>>) -> (r: bool)
        ensures
            r == self.can_read(*frame),
            r == (frame matches Some(Frame::Msg(msg)) ==> msg.sid < 10_000_000_000 || exists|i: int|
                0 <= i < self@.subs.len() && (#[trigger] self@.subs[i]).0 == msg.sid),
    {
        match frame {
            Some(Frame::Msg(msg)) => self.find(msg.sid).is_some() || number_is_short(msg.sid),
            _ => true,
        }
    }

    /// What is to be done about a frame, if there is one.
    pub fn read(&mut self, frame: Option<Frame<C>>) -> (action: Action<C>)
        requires
            old(self).wf(),
            old(self).can_read(frame),
        ensures
            final(self).wf(),
            final(self).auth() == old(self).auth(),
            final(self)@ == Self::after(
                old(self)@,
                Step::Read { server_err: frame matches Some(Frame::ServerErr) },
            ),
            final(self)@.framer == old(self)@.framer,
            final(self)@.subs == old(self)@.subs,
            final(self)@.state == (if frame matches Some(Frame::ServerErr) {
                State::Disconnected
            } else {
                old(self)@.state
            }),
            frame matches Some(Frame::Msg(msg)) ==> if msg.sid < old(self)@.subs.len() {
                action matches Action::Deliver { slot, msg: m } && slot == msg.sid && m == msg
            } else {
                action matches Action::Write(bytes) && bytes@ == encode_utf8("UNSUB "@)
                    + encode_utf8(decimal(msg.sid as nat)) + seq![13u8, 10u8]
            },
            frame matches Some(Frame::Ping) ==> action matches Action::Write(bytes) && bytes@
                == encode_utf8("PONG"@) + seq![13u8, 10u8],
            match frame {
                None => action is Nothing,
                Some(Frame::Ping) => action matches Action::Write(bytes) && bytes@ == pong_line(),
                Some(Frame::Info(info)) => action == Action::<C>::Connect(info),
                Some(Frame::ServerErr) => action is Abort,
                Some(Frame::ServerOk) => action is Nothing,
                Some(Frame::Msg(msg)) => match target(old(self)@.subs, msg.sid) {
                    Some(i) => action matches Action::Deliver { slot, msg: m } && slot == i && m
                        == msg,
                    None => action matches Action::Write(bytes) && bytes@ == unsub_line(
                        msg.sid as nat,
                    ),
                },
            },
    {
        match frame {
            None => Action::Nothing,
            Some(Frame::Ping) => {
                let mut out: Vec<u8> = Vec::new();
                put_pong(&mut out);
                assert(out@ =~= pong_line());
                Action::Write(out)
            },
            Some(Frame::Info(info)) => Action::Connect(info),
            Some(Frame::ServerErr) => {
                self.disconnect();
                Action::Abort
            },
            Some(Frame::ServerOk) => Action::Nothing,
            Some(Frame::Msg(msg)) => {
                proof {
                    number_finds_its_subscription(self@.subs, msg.sid);
                }
                match self.find(msg.sid) {
                    Some(slot) => Action::Deliver { slot, msg },
                    None => Action::Write(Self::unsubscribe(msg.sid)),
                }
            },
        }
    }

    /// Makes room for the body of a CONNECT message and returns where it goes.
    pub fn connect_space<E>(body: &mut C::AuthBuf) -> (r: Result<&mut [u8], RunnerError<E>>)
        requires
            can_extend(C::AuthBuf::limit(), old(body).bytes().len(), AUTH_MAX_STR_LEN as nat),
        ensures
            match r {
                Ok(added) => {
                    &&& fits(C::AuthBuf::limit(), old(body).bytes().len(), AUTH_MAX_STR_LEN as nat)
                    &&& added@ == zeros(AUTH_MAX_STR_LEN as nat)
                    &&& final(body).bytes() == old(body).bytes() + final(added)@
                },
                Err(e) => {
                    &&& !fits(C::AuthBuf::limit(), old(body).bytes().len(), AUTH_MAX_STR_LEN as nat)
                    &&& e matches RunnerError::Capacity(CapacityError::Bytes)
                    &&& *final(body) == *old(body)
                },
            },
    {
        match body.extend_by(AUTH_MAX_STR_LEN) {
            Ok(added) => Ok(added),
            Err(e) => Err(RunnerError::Capacity(e)),
        }
    }

    /// The answer to an INFO message: a CONNECT message with the first bytes of `body`, as many as
    /// were written to it, and then every subscription there is.
    pub fn connect<E>(
        &self,
        mut body: C::AuthBuf,
        written: Result<usize, serde_json_core::ser::Error>,
    ) -> (r: Result<Vec<u8>, RunnerError<E>>)
        requires
            self.wf(),
        ensures
            written matches Ok(len) ==> {
                let text = if len <= body.bytes().len() {
                    body.bytes().take(len as int)
                } else {
                    body.bytes()
                };
                r matches Ok(out) && out@ == encode_utf8("CONNECT "@) + text + seq![13u8, 10u8]
                    + sub_lines(self@.subs)
            },
            match written {
                Ok(len) => r matches Ok(out) && out@ == connect_line(
                    shortened(body.bytes(), len as nat),
                ) + sub_lines(self@.subs),
                Err(e) => r matches Err(RunnerError::Ser(error)) && error == e,
            },
    {
        let len: usize = match written {
            Ok(len) => len,
            Err(e) => {
                return Err(RunnerError::Ser(e));
            },
        };
        let ghost text = shortened(body.bytes(), len as nat);
        body.truncate(len);
        let mut out: Vec<u8> = Vec::new();
        put_connect(&mut out, body.as_bytes());
        let subs = self.subs.as_slice();
        let n: usize = subs.len();
        let mut i: usize = 0;
        assert(out@ =~= connect_line(text) + sub_lines(self@.subs.take(0)));
        while i < n
            invariant
                i <= n,
                n == subs@.len(),
                subs@ == self.subs@,
                n == self@.subs.len(),
                self.wf(),
                out@ == connect_line(text) + sub_lines(self@.subs.take(i as int)),
            decreases n - i,
        {
            let ghost sub = self@.subs[i as int];
            put_sub(&mut out, subs[i].1.as_str(), subs[i].0);
            proof {
                let next = self@.subs.take(i + 1);
                assert(next.drop_last() =~= self@.subs.take(i as int));
                assert(next.last() == sub);
                assert(out@ =~= connect_line(text) + sub_lines(next));
            }
            i += 1;
        }
        assert(self@.subs.take(n as int) =~= self@.subs);
        Ok(out)
    }

    /// Takes note of the outcome of writing what [`Runner::connect`] returned.
    pub fn connected<E>(&mut self, written: Result<(), E>) -> (r: Result<(), RunnerError<E>>)
        requires
            old(self).wf(),
        ensures
            final(self).wf(),
            final(self).auth() == old(self).auth(),
            final(self)@ == Self::after(old(self)@, Step::Connected { written: written is Ok }),
            final(self)@.subs == old(self)@.subs,
            final(self)@.framer == old(self)@.framer,
            final(self)@.state == (if written is Ok {
                State::Connected
            } else {
                old(self)@.state
            }),
            match written {
                Ok(()) => r is Ok,
                Err(e) => r == Err::<(), _>(RunnerError::Write(e)),
            },
    {
        match written {
            Ok(()) => {
                self.state = State::Connected;
                Ok(())
            },
            Err(e) => Err(RunnerError::Write(e)),
        }
    }

    /// The bytes that subscribe to a topic under a number.
    pub fn subscribe(sid: usize, topic: &C::Topic) -> (out: Vec<u8>)
        requires
            is_short(sid as nat),
        ensures
            out@ == sub_line(topic.text(), sid as nat),
            out@ == encode_utf8("SUB "@) + encode_utf8(topic.text()) + encode_utf8(" "@)
                + encode_utf8(decimal(sid as nat)) + seq![13u8, 10u8],
    {
        let mut out: Vec<u8> = Vec::new();
        put_sub(&mut out, topic.as_str(), sid);
        assert(out@ =~= sub_line(topic.text(), sid as nat));
        out
    }

    /// The bytes that end the subscription under a number.
    pub fn unsubscribe(sid: usize) -> (out: Vec<u8>)
        requires
            is_short(sid as nat),
        ensures
            out@ == unsub_line(sid as nat),
            out@ == encode_utf8("UNSUB "@) + encode_utf8(decimal(sid as nat)) + seq![13u8, 10u8],
    {
        let mut out: Vec<u8> = Vec::new();
        put_unsub(&mut out, sid);
        assert(out@ =~= unsub_line(sid as nat));
        out
    }

    /// The bytes that publish a payload under a topic.
    pub fn publish(topic: &C::Topic, data: &C::MsgBuf) -> (out: Vec<u8>)
        requires
            is_short(data.bytes().len()),
        ensures
            out@ == pub_message(topic.text(), data.bytes()),
            out@ == encode_utf8("PUB "@) + encode_utf8(topic.text()) + encode_utf8(" "@)
                + encode_utf8(decimal(data.bytes().len())) + seq![13u8, 10u8] + data.bytes()
                + seq![13u8, 10u8],
    {
        let mut out: Vec<u8> = Vec::new();
        put_pub(&mut out, topic.as_str(), data.as_bytes());
        assert(out@ =~= pub_message(topic.text(), data.bytes()));
        out
    }

    /// Remembers a subscription under the next number, if there is room, and returns the bytes that
    /// subscribe to its topic.
    pub fn register_sub<E>(&mut self, topic: C::Topic, channel: S) -> (r: Result<
        Vec<u8>,
        RunnerError<E>,
    >)
        requires
            old(self).wf(),
            old(self)@.subs.len() < N ==> is_short(old(self)@.subs.len()),
        ensures
            final(self).wf(),
            final(self).auth() == old(self).auth(),
            final(self)@ == Self::after(
                old(self)@,
                Step::Register { topic: topic.text(), channel },
            ),
            final(self)@.state == old(self)@.state,
            final(self)@.framer == old(self)@.framer,
            final(self)@.subs == (if old(self)@.subs.len() < N {
                old(self)@.subs.push((old(self)@.subs.len() as usize, topic.text(), channel))
            } else {
                old(self)@.subs
            }),
            if old(self)@.subs.len() < N {
                r matches Ok(out) && out@ == sub_line(topic.text(), old(self)@.subs.len())
            } else {
                r matches Err(RunnerError::Capacity(CapacityError::Subscriptions))
            },
    {
        let sid: usize = self.subs.as_slice().len();
        match self.subs.push((sid, topic, channel)) {
            Ok(()) => {
                assert(self@.subs =~= old(self)@.subs.push((sid, topic.text(), channel)));
                Ok(Self::subscribe(sid, &self.subs.as_slice()[sid].1))
            },
            Err(_) => Err(RunnerError::Capacity(CapacityError::Subscriptions)),
        }
    }

    /// Whether [`Runner::execute`] can be called: every number that goes onto the wire must be short
    /// enough for it.
    pub open spec fn can_execute(self, cmd: InternalCmd<C, S>) -> bool {
        match cmd {
            InternalCmd::Sub(_, _) => self@.subs.len() < N ==> is_short(self@.subs.len()),
            InternalCmd::Pub(_, data) => is_short(data.bytes().len()),
        }
    }

    /// Whether [`Runner::execute`] can be called.
    pub fn may_execute(&self, cmd: &InternalCmd<C, S>) -> (r: bool)
        ensures
            r == self.can_execute(*cmd),
            r == match *cmd {
                InternalCmd::Sub(_, _) => self@.subs.len() < N ==> self@.subs.len()
                    < 10_000_000_000,
                InternalCmd::Pub(_, data) => data.bytes().len() < 10_000_000_000,
            },
    {
        match cmd {
            InternalCmd::Sub(_, _) => {
                let n: usize = self.subs.as_slice().len();
                n >= self.subs.capacity() || number_is_short(n)
            },
            InternalCmd::Pub(_, data) => number_is_short(data.len()),
        }
    }

    /// Does what a client asks for, and returns the bytes that are to be written for it.
    pub fn execute<E>(&mut self, cmd: InternalCmd<C, S>) -> (r: Result<Vec<u8>, RunnerError<E>>)
        requires
            old(self).wf(),
            old(self).can_execute(cmd),
        ensures
            final(self).wf(),
            final(self).auth() == old(self).auth(),
            final(self)@.state == old(self)@.state,
            final(self)@.framer == old(self)@.framer,
            final(self)@.subs == match cmd {
                InternalCmd::Sub(topic, channel) => if old(self)@.subs.len() < N {
                    old(self)@.subs.push((old(self)@.subs.len() as usize, topic.text(), channel))
                } else {
                    old(self)@.subs
                },
                InternalCmd::Pub(_, _) => old(self)@.subs,
            },
            match cmd {
                InternalCmd::Sub(topic, channel) => {
                    &&& final(self)@ == Self::after(
                        old(self)@,
                        Step::Register { topic: topic.text(), channel },
                    )
                    &&& if old(self)@.subs.len() < N {
                        r matches Ok(out) && out@ == sub_line(topic.text(), old(self)@.subs.len())
                    } else {
                        r matches Err(RunnerError::Capacity(CapacityError::Subscriptions))
                    }
                },
                InternalCmd::Pub(topic, data) => {
                    &&& final(self)@ == Self::after(old(self)@, Step::Publish)
                    &&& r matches Ok(out) && out@ == pub_message(topic.text(), data.bytes())
                },
            },
    {
        match cmd {
            InternalCmd::Sub(topic, channel) => self.register_sub(topic, channel),
            InternalCmd::Pub(topic, data) => Ok(Self::publish(&topic, &data)),
        }
    }

    /// Takes note of the outcome of a step of a connection that stands, and returns whether the
    /// connection is to be aborted.
    pub fn run_connected<E>(&mut self, outcome: Result<(), RunnerError<E>>) -> (abort: bool)
        requires
            old(self).wf(),
        ensures
            final(self).wf(),
            final(self).auth() == old(self).auth(),
            abort == (outcome_of(outcome) is Fatal),
            final(self)@.subs == old(self)@.subs,
            match outcome {
                Ok(()) => !abort && final(self)@ == old(self)@,
                Err(RunnerError::Framer(FramerError::Disconnected)) => abort,
                Err(RunnerError::Framer(FramerError::Read(_))) => abort,
                Err(RunnerError::Framer(_)) => {
                    &&& !abort
                    &&& final(self)@.state == old(self)@.state
                    &&& final(self)@.framer == (FramerState::Sync { bytes: Seq::empty(), magic: 0 })
                },
                Err(_) => abort,
            },
            abort ==> final(self)@.state == State::Disconnected && final(self)@.framer == old(
                self,
            )@.framer,
            final(self)@ == Self::after(
                old(self)@,
                Step::RunConnected { outcome: outcome_of(outcome) },
            ),
    {
        match outcome {
            Ok(()) => false,
            Err(RunnerError::Framer(FramerError::Disconnected)) => {
                self.disconnect();
                true
            },
            Err(RunnerError::Framer(FramerError::Read(_))) => {
                self.disconnect();
                true
            },
            Err(RunnerError::Framer(_)) => {
                self.framer = Framer::new();
                false
            },
            Err(_) => {
                self.disconnect();
                true
            },
        }
    }

    /// Takes note of the outcome of a step of a connection that is being established, and returns
    /// whether the connection is to be aborted.
    pub fn run_auth_step<E>(&mut self, outcome: Result<(), RunnerError<E>>) -> (abort: bool)
        requires
            old(self).wf(),
        ensures
            final(self).wf(),
            final(self).auth() == old(self).auth(),
            abort == (outcome is Err),
            final(self)@.subs == old(self)@.subs,
            final(self)@.framer == old(self)@.framer,
            final(self)@.state == (if outcome is Err {
                State::Disconnected
            } else {
                old(self)@.state
            }),
            final(self)@ == Self::after(
                old(self)@,
                Step::RunAuthStep { outcome: outcome_of(outcome) },
            ),
    {
        match outcome {
            Ok(()) => false,
            Err(_) => {
                self.disconnect();
                true
            },
        }
    }
}

} // verus!
