//! What a caller gets of a stream: the frames and the errors themselves.
use vstd::prelude::*;
use vstd::utf8::encode_utf8;

use crate::collections::{BytesBuf, NatsCollections, StrBuf};
use crate::error::{CapacityError, FramerError};
use crate::framer::{decodes, is_frame_result, is_header_result, Frame, InternalFrame};
use crate::header::{header_of, header_of_line, Header};
use crate::laws::{
    brings, header_arrives, is_undelimited, magic_after, message_arrives, msg_line, msg_reads,
    packet_says_what_its_line_says, payload_arrives, payload_start, pending, read_all, singles,
};
use crate::limits::delimiter;
use crate::message::NatsInfoMsg;
use crate::stream::{after_header, Event, FramerState};

verus! {

/// The body of an INFO message is what was made of exactly its text.
pub proof fn info_is_decoded_from_its_text<D>(
    decode: D,
    json: Seq<char>,
    decoded: Result<NatsInfoMsg, serde_json_core::de::Error>,
) where D: Fn(&str) -> Result<NatsInfoMsg, serde_json_core::de::Error>
    requires
        decodes(decode, json, decoded),
    ensures
        exists|text: &str| text@ == json && #[trigger] call_ensures(decode, (text,), decoded),
{
}

/// What a caller gets for the last line that was read: a header that is done with is a frame or an
/// error of its own kind, one that announces a message gives nothing yet, and the framer goes on
/// with the payload or with the next header.
pub proof fn header_is_handed_over<C, E, D>(
    header: Header,
    decode: D,
    r: Result<Option<Frame<C>>, FramerError<E>>,
) where
    C: NatsCollections,
    D: Fn(&str) -> Result<NatsInfoMsg, serde_json_core::de::Error>,

    requires
        is_frame_result(after_header::<C::Topic>(header).1, decode, r),
    ensures
        header is NotUtf8 ==> (r matches Err(FramerError::Utf8)),
        header is Blank ==> (r matches Ok(None)),
        header is Ping ==> (r matches Ok(Some(Frame::Ping))),
        header is ServerErr ==> (r matches Ok(Some(Frame::ServerErr))),
        header is ServerOk ==> (r matches Ok(Some(Frame::ServerOk))),
        header is Invalid ==> (r matches Err(FramerError::Header)),
        header matches Header::Info(json) ==> match r {
            Ok(Some(Frame::Info(info))) => exists|text: &str|
                text@ == json && #[trigger] call_ensures(decode, (text,), Ok(info)),
            Err(FramerError::Deser(e)) => exists|text: &str|
                text@ == json && #[trigger] call_ensures(decode, (text,), Err(e)),
            _ => false,
        },
        header matches Header::Msg { topic, sid, len } ==> if C::Topic::holds(topic) {
            &&& r matches Ok(None)
            &&& after_header::<C::Topic>(header).0 == (FramerState::Msg {
                topic,
                sid,
                len,
                pos: 0,
                bytes: Seq::empty(),
            })
        } else {
            r matches Err(FramerError::Capacity(CapacityError::Str))
        },
        !(after_header::<C::Topic>(header).0 is Msg) ==> after_header::<C::Topic>(header).0 == (
        FramerState::Sync { bytes: Seq::empty(), magic: 0 }),
{
}

/// What the reader of headers makes of a header: the one kind of result that the header calls for,
/// with the topic, the number and the length that it gives.
pub proof fn header_is_passed_on<C, E, D>(
    header: Header,
    decode: D,
    r: Result<InternalFrame<C>, FramerError<E>>,
) where
    C: NatsCollections,
    D: Fn(&str) -> Result<NatsInfoMsg, serde_json_core::de::Error>,

    requires
        is_header_result(header, decode, r),
    ensures
        header is NotUtf8 <==> (r matches Err(FramerError::Utf8)),
        header is Blank <==> (r matches Ok(InternalFrame::Pending)),
        header is Ping <==> (r matches Ok(InternalFrame::Ping)),
        header is ServerErr <==> (r matches Ok(InternalFrame::ServerErr)),
        header is ServerOk <==> (r matches Ok(InternalFrame::ServerOk)),
        header is Invalid <==> (r matches Err(FramerError::Header)),
        r matches Ok(InternalFrame::MsgHeader { topic, len, sid }) ==> header == (Header::Msg {
            topic: topic.text(),
            sid,
            len,
        }),
        header matches Header::Msg { topic, .. } ==> (C::Topic::holds(topic) <==> (
        r matches Ok(InternalFrame::MsgHeader { .. }))),
        r matches Err(FramerError::Capacity(e)) ==> e == CapacityError::Str && (
        header matches Header::Msg { topic, .. } && !C::Topic::holds(topic)),
{
}

/// A line that comes byte by byte is handed over once, with its last byte: until then the caller gets
/// nothing, and then what the line says.
pub proof fn line_is_handed_over<C, E, D>(
    line: Seq<char>,
    decode: D,
    i: int,
    r: Result<Option<Frame<C>>, FramerError<E>>,
) where
    C: NatsCollections,
    D: Fn(&str) -> Result<NatsInfoMsg, serde_json_core::de::Error>,

    requires
        is_undelimited(encode_utf8(line)),
        magic_after(encode_utf8(line)) == 0,
        0 <= i < encode_utf8(line).len() + 2,
        ({
            let packet = encode_utf8(line) + seq![13u8, 10u8];
            let events = read_all::<C::Topic>(FramerState::start(), singles(packet)).1;
            is_frame_result(events[i], decode, r)
        }),
    ensures
        i < encode_utf8(line).len() + 1 ==> (r matches Ok(None)),
        i == encode_utf8(line).len() + 1 ==> {
            let header = header_of_line(line);
            &&& header is Ping ==> (r matches Ok(Some(Frame::Ping)))
            &&& header is ServerErr ==> (r matches Ok(Some(Frame::ServerErr)))
            &&& header is ServerOk ==> (r matches Ok(Some(Frame::ServerOk)))
            &&& header is Invalid ==> (r matches Err(FramerError::Header))
            &&& header is Blank ==> (r matches Ok(None))
            &&& header matches Header::Info(json) ==> match r {
                Ok(Some(Frame::Info(info))) => decodes(decode, json, Ok(info)),
                Err(FramerError::Deser(e)) => decodes(decode, json, Err(e)),
                _ => false,
            }
        },
{
    let bytes = encode_utf8(line);
    let packet = bytes + seq![13u8, 10u8];
    assert(packet =~= bytes + delimiter());
    header_arrives::<C>(bytes);
    packet_says_what_its_line_says(line);
    let event = after_header::<C::Topic>(header_of(packet)).1;
    let events = pending((packet.len() - 1) as nat).push(event);
    if i < packet.len() - 1 {
        assert(events[i] == Event::Pending);
    } else {
        assert(events[i] == event);
    }
}

/// The message that a caller gets has every byte of the payload, and the topic and the number that
/// were announced, however the payload is cut: each read but the last gives nothing.
pub proof fn payload_is_handed_over_whole<C, E, D>(
    topic: Seq<char>,
    sid: usize,
    payload: Seq<u8>,
    chunks: Seq<Seq<u8>>,
    decode: D,
    i: int,
    r: Result<Option<Frame<C>>, FramerError<E>>,
) where
    C: NatsCollections,
    D: Fn(&str) -> Result<NatsInfoMsg, serde_json_core::de::Error>,

    requires
        payload.len() <= usize::MAX,
        brings(chunks, payload),
        0 <= i < chunks.len(),
        ({
            let begin = payload_start(topic, sid, payload.len() as usize);
            is_frame_result(read_all::<C::Topic>(begin, chunks).1[i], decode, r)
        }),
    ensures
        i < chunks.len() - 1 ==> (r matches Ok(None)),
        i == chunks.len() - 1 ==> {
            &&& r matches Ok(Some(Frame::Msg(msg)))
            &&& msg.data.bytes() == payload
            &&& msg.topic.text() == topic
            &&& msg.sid == sid
        },
{
    payload_arrives::<C>(topic, sid, payload, chunks);
}

/// A message that comes over any number of reads is handed over once and whole.
pub proof fn message_is_handed_over_whole<C, E, D>(
    topic: Seq<char>,
    sid: usize,
    reply_to: Option<Seq<char>>,
    payload: Seq<u8>,
    chunks: Seq<Seq<u8>>,
    decode: D,
    i: int,
    r: Result<Option<Frame<C>>, FramerError<E>>,
) where
    C: NatsCollections,
    D: Fn(&str) -> Result<NatsInfoMsg, serde_json_core::de::Error>,

    requires
        C::Topic::holds(topic),
        !topic.contains(' '),
        reply_to matches Some(reply_to) ==> !reply_to.contains(' '),
        payload.len() <= usize::MAX,
        is_undelimited(encode_utf8(msg_line(topic, sid, reply_to, payload.len() as usize))),
        brings(chunks, payload),
        ({
            let reads = msg_reads(topic, sid, reply_to, payload.len() as usize, chunks);
            &&& 0 <= i < reads.len()
            &&& is_frame_result(
                read_all::<C::Topic>(FramerState::start(), reads).1[i],
                decode,
                r,
            )
        }),
    ensures
        ({
            let line = encode_utf8(msg_line(topic, sid, reply_to, payload.len() as usize));
            if i == line.len() + 2 + chunks.len() - 1 {
                &&& r matches Ok(Some(Frame::Msg(msg)))
                &&& msg.data.bytes() == payload
                &&& msg.topic.text() == topic
                &&& msg.sid == sid
            } else {
                r matches Ok(None)
            }
        }),
{
    message_arrives::<C>(topic, sid, reply_to, payload, chunks);
}

} // verus!
