//! What reading a stream does to a framer, as a step from one state to the next.
use vstd::prelude::*;

use crate::collections::{can_extend, fits, shortened, BytesBuf, NatsCollections, StrBuf};
use crate::header::{header_of, is_readable, Header};
use crate::limits::delimiter;

verus! {

/// Where a framer stands.
#[verifier::ext_equal]
pub enum FramerState {
    /// In a header, of which `bytes` came so far; they end with the first `magic` bytes of the
    /// delimiter.
    Sync { bytes: Seq<u8>, magic: nat },
    /// In the payload of a message, of which `pos` bytes came so far.
    Msg { topic: Seq<char>, sid: usize, len: usize, pos: nat, bytes: Seq<u8> },
}

/// What one read brought to light.
pub enum Event {
    /// No frame yet.
    Pending,
    /// The stream is at its end.
    Closed,
    Ping,
    /// An INFO message, in JSON.
    Info(Seq<char>),
    ServerErr,
    ServerOk,
    Msg { topic: Seq<char>, sid: usize, data: Seq<u8> },
    /// A header that is not UTF-8.
    NotUtf8,
    /// The header of a message whose topic does not fit its buffer.
    TopicTooLong,
    /// A header that is none of the above.
    Invalid,
}

impl FramerState {
    /// At the beginning of a header.
    pub open spec fn start() -> Self {
        FramerState::Sync { bytes: Seq::empty(), magic: 0 }
    }

    /// The bytes in the buffer.
    pub open spec fn bytes(self) -> Seq<u8> {
        match self {
            FramerState::Sync { bytes, .. } => bytes,
            FramerState::Msg { bytes, .. } => bytes,
        }
    }
}

/// What holds of a framer between any two calls: a delimiter is not complete, and no more of a
/// payload came than there is.
pub open spec fn is_sound(state: FramerState) -> bool {
    match state {
        FramerState::Sync { magic, .. } => magic <= 1,
        FramerState::Msg { len, pos, .. } => pos <= len,
    }
}

/// The most bytes that the next read may bring: a header is read byte by byte, a payload to its end.
pub open spec fn room(state: FramerState) -> nat {
    match state {
        FramerState::Sync { .. } => 1,
        FramerState::Msg { len, pos, .. } => (len - pos) as nat,
    }
}

/// The most bytes that the buffer in use can hold; none for a buffer on the heap.
pub open spec fn buffer_limit<C: NatsCollections>(state: FramerState) -> Option<nat> {
    match state {
        FramerState::Sync { .. } => C::SyncBuf::limit(),
        FramerState::Msg { .. } => C::MsgBuf::limit(),
    }
}

/// Whether room for the next read can be asked for.
pub open spec fn can_grow<C: NatsCollections>(state: FramerState) -> bool {
    can_extend(buffer_limit::<C>(state), state.bytes().len(), room(state))
}

/// Whether there is room for the next read.
pub open spec fn has_room<C: NatsCollections>(state: FramerState) -> bool {
    fits(buffer_limit::<C>(state), state.bytes().len(), room(state))
}

/// The state with `added` behind the bytes in the buffer.
pub open spec fn granted(state: FramerState, added: Seq<u8>) -> FramerState {
    match state {
        FramerState::Sync { bytes, magic } => FramerState::Sync { bytes: bytes + added, magic },
        FramerState::Msg { topic, sid, len, pos, bytes } => FramerState::Msg {
            topic,
            sid,
            len,
            pos,
            bytes: bytes + added,
        },
    }
}

/// Whether the last of `bytes` completes the delimiter.
pub open spec fn completes(bytes: Seq<u8>, magic: nat) -> bool {
    magic == 1 && bytes.last() == delimiter()[1]
}

/// Whether a header can take note of the last of `bytes`: there is one, and where it completes the
/// header that header can be taken apart.
pub open spec fn may_take_byte(bytes: Seq<u8>, magic: nat) -> bool {
    bytes.len() > 0 && (completes(bytes, magic) ==> is_readable(bytes))
}

/// Whether a framer can take note of a read of `n` bytes.
pub open spec fn may_take(state: FramerState, n: nat) -> bool {
    match state {
        FramerState::Sync { bytes, magic } => n <= 1 && (n == 1 ==> may_take_byte(bytes, magic)),
        FramerState::Msg { len, pos, .. } => n <= len - pos,
    }
}

/// The bytes of a header, the number of bytes of the delimiter that they end with, and the header
/// if it is complete, once the last of `bytes` was looked at.
///
/// A byte that breaks the delimiter off is not looked at again as its beginning: of a row of
/// carriage returns every other one begins a delimiter.
pub open spec fn after_byte(bytes: Seq<u8>, magic: nat) -> (Seq<u8>, nat, Option<Header>) {
    if completes(bytes, magic) {
        (Seq::empty(), 0, Some(header_of(bytes)))
    } else if magic == 0 && bytes.last() == delimiter()[0] {
        (bytes, 1, None)
    } else {
        (bytes, 0, None)
    }
}

/// The bytes of a payload and how many of them came, once `n` more did.
pub open spec fn after_payload(bytes: Seq<u8>, pos: nat, n: nat) -> (Seq<u8>, nat) {
    (shortened(bytes, pos + n), pos + n)
}

/// What a header does: a message goes on with its payload, if its topic fits into a `T`; every
/// other header is done with.
pub open spec fn after_header<T: StrBuf>(header: Header) -> (FramerState, Event) {
    let start = FramerState::start();
    match header {
        Header::NotUtf8 => (start, Event::NotUtf8),
        Header::Blank => (start, Event::Pending),
        Header::Ping => (start, Event::Ping),
        Header::Info(json) => (start, Event::Info(json)),
        Header::ServerErr => (start, Event::ServerErr),
        Header::ServerOk => (start, Event::ServerOk),
        Header::Msg { topic, sid, len } => if T::holds(topic) {
            (FramerState::Msg { topic, sid, len, pos: 0, bytes: Seq::empty() }, Event::Pending)
        } else {
            (start, Event::TopicTooLong)
        },
        Header::Invalid => (start, Event::Invalid),
    }
}

/// What a read of `n` bytes does to a framer that holds topics in a `T`.
pub open spec fn after_read<T: StrBuf>(state: FramerState, n: nat) -> (FramerState, Event) {
    match state {
        FramerState::Sync { bytes, magic } => if n == 0 {
            (state, Event::Closed)
        } else {
            match after_byte(bytes, magic) {
                (bytes, magic, None) => (FramerState::Sync { bytes, magic }, Event::Pending),
                (_, _, Some(header)) => after_header::<T>(header),
            }
        },
        FramerState::Msg { topic, sid, len, pos, bytes } => if n == 0 && len > 0 {
            (state, Event::Closed)
        } else {
            let (bytes, pos) = after_payload(bytes, pos, n);
            if pos >= len {
                (FramerState::start(), Event::Msg { topic, sid, data: bytes })
            } else {
                (FramerState::Msg { topic, sid, len, pos, bytes }, Event::Pending)
            }
        },
    }
}

} // verus!
