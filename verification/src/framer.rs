//! Cuts the stream of bytes that a server sends into frames.
use vstd::prelude::*;
use vstd::utf8::{encode_utf8, encode_utf8_decode_utf8, valid_utf8};

use crate::bounded::zeros;
use crate::collections::{can_extend, fits, BytesBuf, NatsCollections, StrBuf};
use crate::error::{CapacityError, FramerError};
use crate::header::{header_of, is_readable, msg_header_of, Header};
use crate::limits::DELIM;
use crate::message::{NatsInfoMsg, NatsMsg};
use crate::stream::{
    after_byte, after_payload, after_read, can_grow, granted, has_room, is_sound, may_take,
    may_take_byte, room, Event, FramerState,
};
use crate::text::{parse_usize, same_text, split_once, trim};

verus! {

/// A frame that a server sent.
pub enum Frame<C: NatsCollections> {
    Ping,
    Info(NatsInfoMsg),
    ServerErr,
    ServerOk,
    Msg(NatsMsg<C>),
}

/// What became of one read.
pub enum InternalFrame<C: NatsCollections> {
    MsgHeader { topic: C::Topic, len: usize, sid: usize },
    MsgDone,
    Ping,
    Info(NatsInfoMsg),
    ServerErr,
    ServerOk,
    Pending,
}

/// Collects a header, byte by byte, until its delimiter.
pub struct SyncFramer<C: NatsCollections> {
    buffer: C::SyncBuf,
    magic_pos: usize,
}

/// Collects a payload.
pub struct MsgFramer<C: NatsCollections> {
    buffer: C::MsgBuf,
    topic: C::Topic,
    pos: usize,
    len: usize,
    sid: usize,
}

/// Reads frames off a stream of bytes.
///
/// The stream is read elsewhere: [`Framer::space`] says where the next bytes go, and
/// [`Framer::frame`] is told how many came. It gives back a frame where these bytes complete one;
/// one read never completes two.
pub enum Framer<C: NatsCollections> {
    /// In a header.
    Sync(SyncFramer<C>),
    /// In a payload.
    Msg(MsgFramer<C>),
}

/// `core::str::from_utf8`: the text with these bytes where they are UTF-8, the error otherwise.
pub assume_specification[ core::str::from_utf8 ](v: &[u8]) -> (r: Result<
    &str,
    core::str::Utf8Error,
>)
    ensures
        match r {
            Ok(s) => valid_utf8(v@) && encode_utf8(s@) == v@,
            Err(_) => !valid_utf8(v@),
        },
;

/// Whether `decode` may turn the text `json` into `decoded`.
pub open spec fn decodes<D: Fn(&str) -> Result<NatsInfoMsg, serde_json_core::de::Error>>(
    decode: D,
    json: Seq<char>,
    decoded: Result<NatsInfoMsg, serde_json_core::de::Error>,
) -> bool {
    exists|text: &str| text@ == json && #[trigger] call_ensures(decode, (text,), decoded)
}

/// Whether `r` is what a header gives, an INFO message being read by `decode`.
pub open spec fn is_header_result<C, E, D>(
    header: Header,
    decode: D,
    r: Result<InternalFrame<C>, FramerError<E>>,
) -> bool where
    C: NatsCollections,
    D: Fn(&str) -> Result<NatsInfoMsg, serde_json_core::de::Error>,
 {
    match header {
        Header::NotUtf8 => r matches Err(FramerError::Utf8),
        Header::Blank => r matches Ok(InternalFrame::Pending),
        Header::Ping => r matches Ok(InternalFrame::Ping),
        Header::Info(json) => match r {
            Ok(InternalFrame::Info(info)) => decodes(decode, json, Ok(info)),
            Err(FramerError::Deser(e)) => decodes(decode, json, Err(e)),
            _ => false,
        },
        Header::ServerErr => r matches Ok(InternalFrame::ServerErr),
        Header::ServerOk => r matches Ok(InternalFrame::ServerOk),
        Header::Msg { topic, sid, len } => if C::Topic::holds(topic) {
            r matches Ok(InternalFrame::MsgHeader { topic: t, len: l, sid: s }) && t.text() == topic
                && l == len && s == sid
        } else {
            r matches Err(FramerError::Capacity(CapacityError::Str))
        },
        Header::Invalid => r matches Err(FramerError::Header),
    }
}

impl<C: NatsCollections> SyncFramer<C> {
    /// The bytes since the last header.
    pub closed spec fn bytes(self) -> Seq<u8> {
        self.buffer.bytes()
    }

    /// The number of bytes of the delimiter that were just seen.
    pub closed spec fn magic(self) -> nat {
        self.magic_pos as nat
    }

    /// A framer that has seen nothing.
    pub fn new() -> (f: Self)
        ensures
            f.bytes() == Seq::<u8>::empty(),
            f.magic() == 0,
            f.wf(),
    {
        let mut buffer = C::SyncBuf::default();
        // The default value promises nothing.
        buffer.clear();
        SyncFramer { buffer, magic_pos: 0 }
    }

    /// What holds between any two calls.
    pub open spec fn wf(self) -> bool {
        self.magic() <= 1
    }

    /// Whether [`SyncFramer::space`] can be called.
    pub open spec fn can_grow(self) -> bool {
        can_extend(C::SyncBuf::limit(), self.bytes().len(), 1)
    }

    /// Whether [`SyncFramer::space`] can be called.
    pub fn may_grow(&self) -> (r: bool)
        ensures
            r == self.can_grow(),
    {
        self.buffer.may_extend_by(1)
    }

    /// Whether [`SyncFramer::frame`] can be told that a byte was read.
    pub fn may_frame(&self) -> (r: bool)
        requires
            self.wf(),
        ensures
            r == may_take_byte(self.bytes(), self.magic()),
    {
        let bytes = self.buffer.as_bytes();
        let n: usize = bytes.len();
        if n == 0 {
            return false;
        }
        if self.magic_pos == 0 || bytes[n - 1] != DELIM[1] {
            return true;
        }
        match core::str::from_utf8(bytes) {
            Ok(packet) => n >= 2 && packet.is_char_boundary(n - 2),
            Err(_) => true,
        }
    }

    /// Makes room for one byte and returns where it goes.
    pub fn space(&mut self) -> (r: Result<&mut [u8], CapacityError>)
        requires
            old(self).wf(),
            old(self).can_grow(),
        ensures
            match r {
                Ok(added) => {
                    &&& fits(C::SyncBuf::limit(), old(self).bytes().len(), 1)
                    &&& added@ == zeros(1)
                    &&& final(self).bytes() == old(self).bytes() + final(added)@
                    &&& final(self).magic() == old(self).magic()
                    &&& final(self).wf()
                },
                Err(e) => {
                    &&& !fits(C::SyncBuf::limit(), old(self).bytes().len(), 1)
                    &&& e == CapacityError::Bytes
                    &&& *final(self) == *old(self)
                },
            },
    {
        self.buffer.extend_by(1)
    }

    /// Takes note of the outcome of a read into the space that was made for it.
    pub fn frame<E, D>(&mut self, read: Result<usize, E>, decode: &D) -> (r: Result<
        InternalFrame<C>,
        FramerError<E>,
    >) where D: Fn(&str) -> Result<NatsInfoMsg, serde_json_core::de::Error>
        requires
            old(self).wf(),
            read matches Ok(n) ==> n <= 1 && (n == 1 ==> may_take_byte(
                old(self).bytes(),
                old(self).magic(),
            )),
            forall|text: &str| call_requires(*decode, (text,)),
        ensures
            final(self).wf(),
            read matches Ok(n) && n > 0 ==> if old(self).magic() == 1 && old(self).bytes().last()
                == 10 {
                final(self).bytes().len() == 0 && final(self).magic() == 0
            } else {
                &&& r matches Ok(InternalFrame::Pending)
                &&& final(self).bytes() == old(self).bytes()
                &&& final(self).magic() == (if old(self).magic() == 0 && old(self).bytes().last()
                    == 13 {
                    1nat
                } else {
                    0nat
                })
            },
            match read {
                Err(e) => r == Err::<InternalFrame<C>, _>(FramerError::Read(e)) && *final(self)
                    == *old(self),
                Ok(0) => r matches Err(FramerError::Disconnected) && *final(self) == *old(self),
                Ok(_) => {
                    let (bytes, magic, header) = after_byte(old(self).bytes(), old(self).magic());
                    &&& final(self).bytes() == bytes
                    &&& final(self).magic() == magic
                    &&& match header {
                        Some(header) => is_header_result(header, *decode, r),
                        None => r matches Ok(InternalFrame::Pending),
                    }
                },
            },
    {
        let n: usize = match read {
            Ok(n) => n,
            Err(e) => {
                return Err(FramerError::Read(e));
            },
        };
        if n == 0 {
            return Err(FramerError::Disconnected);
        }
        let bytes = self.buffer.as_bytes();
        if bytes[bytes.len() - 1] == DELIM[self.magic_pos] {
            self.magic_pos += 1;
            if self.magic_pos == 2 {
                self.magic_pos = 0;
                let header = self.parse_header(decode);
                self.buffer.clear();
                header
            } else {
                Ok(InternalFrame::Pending)
            }
        } else {
            self.magic_pos = 0;
            Ok(InternalFrame::Pending)
        }
    }

    fn parse_msg_header<E>(msg: &str) -> (r: Result<InternalFrame<C>, FramerError<E>>)
        ensures
            match msg_header_of(msg@) {
                Header::Msg { topic, sid, len } => if C::Topic::holds(topic) {
                    r matches Ok(InternalFrame::MsgHeader { topic: t, len: l, sid: s }) && t.text()
                        == topic && l == len && s == sid
                } else {
                    r matches Err(FramerError::Capacity(CapacityError::Str))
                },
                _ => r matches Err(FramerError::Header),
            },
    {
        let (topic, msg) = match split_once(msg) {
            Some(parts) => parts,
            None => {
                return Err(FramerError::Header);
            },
        };
        let (sid, msg) = match split_once(msg) {
            Some(parts) => parts,
            None => {
                return Err(FramerError::Header);
            },
        };
        let len = match split_once(msg) {
            Some((_reply_to, len)) => len,
            None => msg,
        };
        let sid: usize = match parse_usize(sid) {
            Some(sid) => sid,
            None => {
                return Err(FramerError::Header);
            },
        };
        let len: usize = match parse_usize(len) {
            Some(len) => len,
            None => {
                return Err(FramerError::Header);
            },
        };
        match C::Topic::try_from_str(topic) {
            Ok(topic) => Ok(InternalFrame::MsgHeader { topic, len, sid }),
            Err(e) => Err(FramerError::Capacity(e)),
        }
    }

    /// Reads the header that the buffer ends with, an INFO message by `decode`.
    pub fn parse_header<E, D>(&self, decode: &D) -> (r: Result<InternalFrame<C>, FramerError<E>>)
        where D: Fn(&str) -> Result<NatsInfoMsg, serde_json_core::de::Error>
        requires
            is_readable(self.bytes()),
            forall|text: &str| call_requires(*decode, (text,)),
        ensures
            is_header_result(header_of(self.bytes()), *decode, r),
            r matches Ok(InternalFrame::MsgHeader { topic, len, sid }) ==> header_of(self.bytes())
                == (Header::Msg { topic: topic.text(), sid, len }),
            r matches Ok(InternalFrame::Info(info)) ==> exists|text: &str|
                header_of(self.bytes()) == Header::Info(text@) && #[trigger] call_ensures(
                    *decode,
                    (text,),
                    Ok(info),
                ),
            r matches Err(FramerError::Deser(e)) ==> exists|text: &str|
                header_of(self.bytes()) == Header::Info(text@) && #[trigger] call_ensures(
                    *decode,
                    (text,),
                    Err(e),
                ),
            (r matches Ok(InternalFrame::Ping)) <==> header_of(self.bytes()) is Ping,
            (r matches Ok(InternalFrame::ServerOk)) <==> header_of(self.bytes()) is ServerOk,
            (r matches Ok(InternalFrame::ServerErr)) <==> header_of(self.bytes()) is ServerErr,
            (r matches Ok(InternalFrame::Pending)) <==> header_of(self.bytes()) is Blank,
            (r matches Err(FramerError::Utf8)) <==> header_of(self.bytes()) is NotUtf8,
            (r matches Err(FramerError::Header)) <==> header_of(self.bytes()) is Invalid,
    {
        let bytes = self.buffer.as_bytes();
        let packet = match core::str::from_utf8(bytes) {
            Ok(packet) => packet,
            Err(e) => {
                return Err(FramerError::from(e));
            },
        };
        let n: usize = bytes.len();
        let (line, _) = packet.split_at(n - 2);
        proof {
            encode_utf8_decode_utf8(line@);
            assert(encode_utf8(line@) =~= self.bytes().take(n - 2));
        }
        if line.is_empty() {
            return Ok(InternalFrame::Pending);
        }
        let line = trim(line);
        let (cmd, msg) = match split_once(line) {
            Some(parts) => parts,
            None => (line, ""),
        };
        proof {
            reveal_strlit("");
            assert(""@ =~= Seq::<char>::empty());
            reveal_strlit("PING");
            reveal_strlit("INFO");
            reveal_strlit("-ERR");
            reveal_strlit("+OK");
            reveal_strlit("MSG");
        }
        if same_text(cmd, "PING") {
            Ok(InternalFrame::Ping)
        } else if same_text(cmd, "INFO") {
            let decoded = decode(msg);
            assert(call_ensures(*decode, (msg,), decoded));
            match decoded {
                Ok(info) => Ok(InternalFrame::Info(info)),
                Err(e) => Err(FramerError::Deser(e)),
            }
        } else if same_text(cmd, "-ERR") {
            Ok(InternalFrame::ServerErr)
        } else if same_text(cmd, "+OK") {
            Ok(InternalFrame::ServerOk)
        } else if same_text(cmd, "MSG") {
            Self::parse_msg_header(msg)
        } else {
            Err(FramerError::Header)
        }
    }
}

impl<C: NatsCollections> MsgFramer<C> {
    /// The bytes of the payload so far.
    pub closed spec fn bytes(self) -> Seq<u8> {
        self.buffer.bytes()
    }

    /// The topic of the message.
    pub closed spec fn topic(self) -> Seq<char> {
        self.topic.text()
    }

    /// The number of bytes of the payload that were read.
    pub closed spec fn pos(self) -> nat {
        self.pos as nat
    }

    /// The length of the payload.
    pub closed spec fn len(self) -> usize {
        self.len
    }

    /// The number of the subscription.
    pub closed spec fn sid(self) -> usize {
        self.sid
    }

    /// What holds between any two calls.
    pub open spec fn wf(self) -> bool {
        self.pos() <= self.len()
    }

    /// Whether [`MsgFramer::space`] can be called.
    pub open spec fn can_grow(self) -> bool {
        can_extend(C::MsgBuf::limit(), self.bytes().len(), (self.len() - self.pos()) as nat)
    }

    /// A framer for a payload of which nothing was read.
    pub fn new(topic: C::Topic, len: usize, sid: usize) -> (f: Self)
        ensures
            f.bytes() == Seq::<u8>::empty(),
            f.topic() == topic.text(),
            f.pos() == 0,
            f.len() == len,
            f.sid() == sid,
            f.wf(),
    {
        let mut buffer = C::MsgBuf::default();
        // The default value promises nothing.
        buffer.clear();
        MsgFramer { buffer, pos: 0, topic, len, sid }
    }

    /// Whether [`MsgFramer::space`] can be called.
    pub fn may_grow(&self) -> (r: bool)
        requires
            self.wf(),
        ensures
            r == self.can_grow(),
    {
        self.buffer.may_extend_by(self.len - self.pos)
    }

    /// The number of bytes that the payload still lacks.
    pub fn missing(&self) -> (n: usize)
        requires
            self.wf(),
        ensures
            n == self.len() - self.pos(),
    {
        self.len - self.pos
    }

    /// Makes room for the rest of the payload and returns where it goes.
    pub fn space(&mut self) -> (r: Result<&mut [u8], CapacityError>)
        requires
            old(self).wf(),
            old(self).can_grow(),
        ensures
            match r {
                Ok(added) => {
                    &&& fits(
                        C::MsgBuf::limit(),
                        old(self).bytes().len(),
                        (old(self).len() - old(self).pos()) as nat,
                    )
                    &&& added@ == zeros((old(self).len() - old(self).pos()) as nat)
                    &&& final(self).bytes() == old(self).bytes() + final(added)@
                    &&& final(self).topic() == old(self).topic()
                    &&& final(self).pos() == old(self).pos()
                    &&& final(self).len() == old(self).len()
                    &&& final(self).sid() == old(self).sid()
                    &&& final(self).wf()
                },
                Err(e) => {
                    &&& !fits(
                        C::MsgBuf::limit(),
                        old(self).bytes().len(),
                        (old(self).len() - old(self).pos()) as nat,
                    )
                    &&& e == CapacityError::Bytes
                    &&& *final(self) == *old(self)
                },
            },
    {
        self.buffer.extend_by(self.len - self.pos)
    }

    /// Takes note of the outcome of a read into the space that was made for it.
    pub fn frame<E>(&mut self, read: Result<usize, E>) -> (r: Result<
        InternalFrame<C>,
        FramerError<E>,
    >)
        requires
            old(self).wf(),
            read matches Ok(n) ==> n <= old(self).len() - old(self).pos(),
        ensures
            final(self).wf(),
            read matches Ok(n) ==> {
                let pos = old(self).pos() + n;
                (n > 0 || old(self).len() == 0) && old(self).bytes().len() >= pos ==> {
                    &&& final(self).bytes() == old(self).bytes().take(pos)
                    &&& final(self).pos() == pos
                    &&& (r matches Ok(InternalFrame::MsgDone)) <==> pos == old(self).len()
                    &&& (r matches Ok(InternalFrame::Pending)) <==> pos < old(self).len()
                }
            },
            match read {
                Err(e) => r == Err::<InternalFrame<C>, _>(FramerError::Read(e)) && *final(self)
                    == *old(self),
                Ok(n) => if n == 0 && old(self).len() > 0 {
                    r matches Err(FramerError::Disconnected) && *final(self) == *old(self)
                } else {
                    let (bytes, pos) = after_payload(old(self).bytes(), old(self).pos(), n as nat);
                    &&& final(self).bytes() == bytes
                    &&& final(self).pos() == pos
                    &&& final(self).topic() == old(self).topic()
                    &&& final(self).len() == old(self).len()
                    &&& final(self).sid() == old(self).sid()
                    &&& if pos >= old(self).len() {
                        r matches Ok(InternalFrame::MsgDone)
                    } else {
                        r matches Ok(InternalFrame::Pending)
                    }
                },
            },
    {
        let n: usize = match read {
            Ok(n) => n,
            Err(e) => {
                return Err(FramerError::Read(e));
            },
        };
        if n == 0 && self.len > 0 {
            return Err(FramerError::Disconnected);
        }
        self.pos += n;
        self.buffer.truncate(self.pos);
        if self.pos >= self.len {
            Ok(InternalFrame::MsgDone)
        } else {
            Ok(InternalFrame::Pending)
        }
    }

    /// The message with the payload that was read.
    pub fn finalize(self) -> (frame: Frame<C>)
        ensures
            frame matches Frame::Msg(msg) && msg.sid == self.sid() && msg.topic.text()
                == self.topic() && msg.data.bytes() == self.bytes(),
    {
        Frame::Msg(NatsMsg { sid: self.sid, topic: self.topic, data: self.buffer })
    }
}

/// Whether `r` is what an event is reported as, an INFO message being read by `decode`.
pub open spec fn is_frame_result<C, E, D>(
    event: Event,
    decode: D,
    r: Result<Option<Frame<C>>, FramerError<E>>,
) -> bool where
    C: NatsCollections,
    D: Fn(&str) -> Result<NatsInfoMsg, serde_json_core::de::Error>,
 {
    match event {
        Event::Pending => r matches Ok(None),
        Event::Closed => r matches Err(FramerError::Disconnected),
        Event::Ping => r matches Ok(Some(Frame::Ping)),
        Event::Info(json) => match r {
            Ok(Some(Frame::Info(info))) => decodes(decode, json, Ok(info)),
            Err(FramerError::Deser(e)) => decodes(decode, json, Err(e)),
            _ => false,
        },
        Event::ServerErr => r matches Ok(Some(Frame::ServerErr)),
        Event::ServerOk => r matches Ok(Some(Frame::ServerOk)),
        Event::Msg { topic, sid, data } => r matches Ok(Some(Frame::Msg(msg))) && msg.sid == sid
            && msg.topic.text() == topic && msg.data.bytes() == data,
        Event::NotUtf8 => r matches Err(FramerError::Utf8),
        Event::TopicTooLong => r matches Err(FramerError::Capacity(CapacityError::Str)),
        Event::Invalid => r matches Err(FramerError::Header),
    }
}

impl<C: NatsCollections> View for Framer<C> {
    type V = FramerState;

    open spec fn view(&self) -> FramerState {
        match self {
            Framer::Sync(f) => FramerState::Sync { bytes: f.bytes(), magic: f.magic() },
            Framer::Msg(f) => FramerState::Msg {
                topic: f.topic(),
                sid: f.sid(),
                len: f.len(),
                pos: f.pos(),
                bytes: f.bytes(),
            },
        }
    }
}

impl<C: NatsCollections> Framer<C> {
    /// What holds between any two calls.
    pub open spec fn wf(self) -> bool {
        is_sound(self@)
    }

    /// Whether [`Framer::space`] can be called.
    pub open spec fn can_grow(self) -> bool {
        can_grow::<C>(self@)
    }

    /// A framer at the beginning of a header.
    pub fn new() -> (f: Self)
        ensures
            f@ == FramerState::start(),
            f@ == (FramerState::Sync { bytes: Seq::empty(), magic: 0 }),
            f.wf(),
    {
        Framer::Sync(SyncFramer::new())
    }

    /// Whether [`Framer::space`] can be called.
    pub fn may_grow(&self) -> (r: bool)
        requires
            self.wf(),
        ensures
            r == self.can_grow(),
    {
        match self {
            Framer::Sync(f) => f.may_grow(),
            Framer::Msg(f) => f.may_grow(),
        }
    }

    /// Whether [`Framer::frame`] can be told that `n` bytes were read.
    pub fn may_frame(&self, n: usize) -> (r: bool)
        requires
            self.wf(),
        ensures
            r == may_take(self@, n as nat),
    {
        match self {
            Framer::Sync(f) => n == 0 || (n == 1 && f.may_frame()),
            Framer::Msg(f) => n <= f.missing(),
        }
    }

    /// Makes room for what the next read may bring and returns where it goes.
    pub fn space<E>(&mut self) -> (r: Result<&mut [u8], FramerError<E>>)
        requires
            old(self).wf(),
            old(self).can_grow(),
        ensures
            match r {
                Ok(added) => {
                    &&& has_room::<C>(old(self)@)
                    &&& added@ == zeros(room(old(self)@))
                    &&& final(self)@ == granted(old(self)@, final(added)@)
                    &&& match old(self)@ {
                        FramerState::Sync { bytes, magic } => {
                            &&& added@.len() == 1
                            &&& final(self)@ == (FramerState::Sync {
                                bytes: bytes + final(added)@,
                                magic,
                            })
                        },
                        FramerState::Msg { topic, sid, len, pos, bytes } => {
                            &&& added@.len() == len - pos
                            &&& final(self)@ == (FramerState::Msg {
                                topic,
                                sid,
                                len,
                                pos,
                                bytes: bytes + final(added)@,
                            })
                        },
                    }
                    &&& final(self).wf()
                },
                Err(e) => {
                    &&& !has_room::<C>(old(self)@)
                    &&& e matches FramerError::Capacity(CapacityError::Bytes)
                    &&& *final(self) == *old(self)
                },
            },
    {
        let added = match self {
            Framer::Sync(f) => f.space(),
            Framer::Msg(f) => f.space(),
        };
        match added {
            Ok(added) => Ok(added),
            Err(e) => Err(FramerError::Capacity(e)),
        }
    }

    /// Takes note of the outcome of one read into the space that was made for it, and returns the
    /// frame that it completed, if any. An INFO message is read by `decode`.
    pub fn frame<E, D>(&mut self, read: Result<usize, E>, decode: &D) -> (r: Result<
        Option<Frame<C>>,
        FramerError<E>,
    >) where D: Fn(&str) -> Result<NatsInfoMsg, serde_json_core::de::Error>
        requires
            old(self).wf(),
            read matches Ok(n) ==> may_take(old(self)@, n as nat),
            forall|text: &str| call_requires(*decode, (text,)),
        ensures
            final(self).wf(),
            read matches Ok(n) ==> old(self)@ matches FramerState::Msg {
                topic,
                sid,
                len,
                pos,
                bytes,
            } ==> if n == 0 && len > 0 {
                r matches Err(FramerError::Disconnected) && final(self)@ == old(self)@
            } else if pos + n == len {
                &&& r matches Ok(Some(Frame::Msg(msg))) && msg.sid == sid && msg.topic.text()
                    == topic && (bytes.len() >= len ==> msg.data.bytes() == bytes.take(len as int))
                &&& final(self)@ == (FramerState::Sync { bytes: Seq::empty(), magic: 0 })
            } else {
                &&& r matches Ok(None)
                &&& bytes.len() >= pos + n ==> final(self)@ == (FramerState::Msg {
                    topic,
                    sid,
                    len,
                    pos: pos + n as nat,
                    bytes: bytes.take(pos + n),
                })
            },
            read matches Ok(n) ==> old(self)@ matches FramerState::Sync { bytes, magic } ==> {
                &&& n == 0 ==> (r matches Err(FramerError::Disconnected))
                &&& n == 0 ==> final(self)@ == old(self)@
                &&& n > 0 && !(magic == 1 && bytes.last() == 10) ==> (r matches Ok(None))
                &&& n > 0 && !(magic == 1 && bytes.last() == 10) ==> final(self)@ == (
                FramerState::Sync {
                    bytes,
                    magic: if magic == 0 && bytes.last() == 13 {
                        1
                    } else {
                        0
                    },
                })
            },
            read matches Ok(n) ==> old(self)@ matches FramerState::Sync { bytes, magic } ==> (n > 0
                && magic == 1 && bytes.last() == 10 ==> match header_of(bytes) {
                Header::NotUtf8 => r matches Err(FramerError::Utf8),
                Header::Blank => r matches Ok(None),
                Header::Ping => r matches Ok(Some(Frame::Ping)),
                Header::Info(json) => match r {
                    Ok(Some(Frame::Info(info))) => decodes(*decode, json, Ok(info)),
                    Err(FramerError::Deser(e)) => decodes(*decode, json, Err(e)),
                    _ => false,
                },
                Header::ServerErr => r matches Ok(Some(Frame::ServerErr)),
                Header::ServerOk => r matches Ok(Some(Frame::ServerOk)),
                Header::Msg { topic, .. } => if C::Topic::holds(topic) {
                    r matches Ok(None)
                } else {
                    r matches Err(FramerError::Capacity(CapacityError::Str))
                },
                Header::Invalid => r matches Err(FramerError::Header),
            }),
            read matches Ok(n) ==> old(self)@ matches FramerState::Sync { bytes, magic } ==> (n > 0
                && magic == 1 && bytes.last() == 10 ==> match header_of(bytes) {
                Header::Msg { topic, sid, len } => C::Topic::holds(topic) ==> final(self)@ == (
                FramerState::Msg { topic, sid, len, pos: 0, bytes: Seq::empty() }),
                _ => final(self)@ == (FramerState::Sync { bytes: Seq::empty(), magic: 0 }),
            }),
            match read {
                Err(e) => r == Err::<Option<Frame<C>>, _>(FramerError::Read(e)) && *final(self)
                    == *old(self),
                Ok(n) => {
                    let (state, event) = after_read::<C::Topic>(old(self)@, n as nat);
                    final(self)@ == state && is_frame_result(event, *decode, r)
                },
            },
    {
        let internal = match self {
            Framer::Sync(f) => f.frame(read, decode),
            Framer::Msg(f) => f.frame(read),
        };
        let internal_frame = match internal {
            Ok(internal_frame) => internal_frame,
            Err(e) => {
                return Err(e);
            },
        };
        match internal_frame {
            InternalFrame::MsgHeader { topic, len, sid } => {
                *self = Framer::Msg(MsgFramer::new(topic, len, sid));
                Ok(None)
            },
            InternalFrame::MsgDone => {
                let mut done = Framer::new();
                core::mem::swap(self, &mut done);
                match done {
                    Framer::Msg(f) => Ok(Some(f.finalize())),
                    Framer::Sync(_) => {
                        assert(false);
                        Ok(None)
                    },
                }
            },
            InternalFrame::ServerOk => Ok(Some(Frame::ServerOk)),
            InternalFrame::ServerErr => Ok(Some(Frame::ServerErr)),
            InternalFrame::Ping => Ok(Some(Frame::Ping)),
            InternalFrame::Info(info) => Ok(Some(Frame::Info(info))),
            InternalFrame::Pending => Ok(None),
        }
    }
}

} // verus!
