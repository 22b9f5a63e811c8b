//! What holds of frames over any number of reads, and of subscriptions over any number of requests.
pub mod connection;
pub mod credentials;
pub mod cutting;
pub mod frames;
pub mod grammar;
pub mod sizes;

use vstd::prelude::*;
use vstd::utf8::{
    encode_scalar, encode_utf8, encode_utf8_decode_utf8, encode_utf8_valid_utf8, is_ascii_chars,
    is_ascii_chars_encode_utf8, is_char_boundary_iff_not_is_continuation_byte,
    is_continuation_byte, valid_utf8, valid_utf8_concat,
};

use crate::bounded::{zeros, BoundedString};
use crate::client::{counted, is_accepted};
use crate::collections::{
    can_extend, fits, shortened, BytesBuf, Heapless, NatsCollections, StrBuf,
};
use crate::header::{command_of, header_of, header_of_line, is_readable, msg_header_of, Header};
use crate::limits::{delimiter, INFO_MAX_STR_LEN};
use crate::runner::{is_numbered, sub_lines, target, Subscription};
use crate::stream::{
    after_byte, after_header, after_read, can_grow, completes, granted, has_room, may_take, room,
    Event, FramerState,
};
use crate::text::{
    all_digits, decimal, decimal_is_read_back, is_digit, is_short, is_white_space, parse_decimal,
    split_space, trimmed,
};
use crate::wire::{connect_line, pub_message, sub_line, unsub_line};

verus! {

// ---------------------------------------------------------------------------------------------
// Reading a stream
// ---------------------------------------------------------------------------------------------
/// The room that was made for a read, with `chunk` at its front: the rest is as it was.
pub open spec fn filled(state: FramerState, chunk: Seq<u8>) -> Seq<u8> {
    chunk + zeros((room(state) - chunk.len()) as nat)
}

/// What a read that brings `chunk` does.
pub open spec fn fed<T: StrBuf>(state: FramerState, chunk: Seq<u8>) -> (FramerState, Event) {
    after_read::<T>(granted(state, filled(state, chunk)), chunk.len())
}

/// What reads that bring `chunks`, one after the other, do, and what each brought to light.
pub open spec fn read_all<T: StrBuf>(state: FramerState, chunks: Seq<Seq<u8>>) -> (
    FramerState,
    Seq<Event>,
)
    decreases chunks.len(),
{
    if chunks.len() == 0 {
        (state, Seq::empty())
    } else {
        let (state, events) = read_all::<T>(state, chunks.drop_last());
        let (state, event) = fed::<T>(state, chunks.last());
        (state, events.push(event))
    }
}

/// Whether a buffer can hold `len` bytes.
pub open spec fn can_hold<B: BytesBuf>(len: nat) -> bool {
    can_extend(B::limit(), 0, len) && fits(B::limit(), 0, len)
}

/// Whether each of these reads can be made and taken note of: there is room for it in the
/// collections of `C`, it brings no more than that, and it cuts no character in two.
pub open spec fn can_read_all<C: NatsCollections>(
    state: FramerState,
    chunks: Seq<Seq<u8>>,
) -> bool
    decreases chunks.len(),
{
    chunks.len() == 0 || {
        let before = read_all::<C::Topic>(state, chunks.drop_last()).0;
        &&& can_read_all::<C>(state, chunks.drop_last())
        &&& can_grow::<C>(before)
        &&& has_room::<C>(before)
        &&& chunks.last().len() <= room(before)
        &&& may_take(granted(before, filled(before, chunks.last())), chunks.last().len())
    }
}

/// Whether a read may bring `n` bytes: at least one and no more than there is room for, and nothing
/// where there is room for nothing.
pub open spec fn may_bring(state: FramerState, n: nat) -> bool {
    n <= room(state) && (n == 0 ==> room(state) == 0)
}

/// Whether each of these reads brings what a read may bring.
pub open spec fn may_bring_all<T: StrBuf>(state: FramerState, chunks: Seq<Seq<u8>>) -> bool
    decreases chunks.len(),
{
    chunks.len() == 0 || {
        &&& may_bring_all::<T>(state, chunks.drop_last())
        &&& may_bring(read_all::<T>(state, chunks.drop_last()).0, chunks.last().len())
    }
}

/// Bytes that come one by one.
pub open spec fn singles(bytes: Seq<u8>) -> Seq<Seq<u8>> {
    Seq::new(bytes.len(), |i: int| seq![bytes[i]])
}

/// `n` reads without a frame.
pub open spec fn pending(n: nat) -> Seq<Event> {
    Seq::new(n, |i: int| Event::Pending)
}

/// The bytes that come in `chunks`.
pub open spec fn joined(chunks: Seq<Seq<u8>>) -> Seq<u8>
    decreases chunks.len(),
{
    if chunks.len() == 0 {
        Seq::empty()
    } else {
        joined(chunks.drop_last()) + chunks.last()
    }
}

/// Whether `chunks` bring a payload: all of it, and none of them nothing, but for the one that brings
/// an empty payload.
pub open spec fn brings(chunks: Seq<Seq<u8>>, payload: Seq<u8>) -> bool {
    &&& joined(chunks) == payload
    &&& chunks.len() > 0
    &&& payload.len() == 0 ==> chunks.len() == 1
    &&& payload.len() > 0 ==> forall|i: int|
        0 <= i < chunks.len() ==> (#[trigger] chunks[i]).len() > 0
}

/// The number of bytes of the delimiter that a header ends with which is not complete.
pub open spec fn magic_after(bytes: Seq<u8>) -> nat
    decreases bytes.len(),
{
    if bytes.len() == 0 {
        0
    } else {
        after_byte(bytes, magic_after(bytes.drop_last())).1
    }
}

/// Whether no header ends within `bytes`.
pub open spec fn is_undelimited(bytes: Seq<u8>) -> bool {
    forall|i: int|
        0 <= i < bytes.len() ==> !completes(#[trigger] bytes.take(i + 1), magic_after(bytes.take(i)))
}

/// Whether a framer stands where reads that did not fail leave it.
pub open spec fn is_idle(state: FramerState) -> bool {
    match state {
        FramerState::Sync { bytes, magic } => {
            &&& magic <= 1
            &&& magic == 1 ==> bytes.len() > 0 && bytes.last() == delimiter()[0]
        },
        FramerState::Msg { len, pos, bytes, .. } => {
            &&& pos < len || pos == 0
            &&& pos <= len
            &&& bytes.len() == pos
        },
    }
}

pub(crate) proof fn lemma_packet_is_readable(packet: Seq<u8>)
    requires
        packet.len() >= 2,
        packet[packet.len() - 2] == delimiter()[0],
    ensures
        is_readable(packet),
{
    if valid_utf8(packet) {
        is_char_boundary_iff_not_is_continuation_byte(packet, packet.len() - 2);
        let b = packet[packet.len() - 2];
        assert(b == 13u8);
        assert(!is_continuation_byte(b));
    }
}

/// A framer starts out idle, and one that is idle can take note of every read, whatever the read
/// brings. It is idle again unless the read was one at the end of the stream.
pub proof fn reading_goes_on<T: StrBuf>(state: FramerState, added: Seq<u8>, n: nat)
    requires
        is_idle(state),
        added.len() == room(state),
        n <= room(state),
    ensures
        is_idle(FramerState::start()),
        may_take(granted(state, added), n),
        after_read::<T>(granted(state, added), n).1 is Closed <==> !may_bring(state, n),
        may_bring(state, n) ==> is_idle(after_read::<T>(granted(state, added), n).0),
{
    match state {
        FramerState::Sync { bytes, magic } => {
            let all = bytes + added;
            if n == 1 && completes(all, magic) {
                assert(all[all.len() - 2] == bytes.last());
                lemma_packet_is_readable(all);
            }
        },
        FramerState::Msg { topic, sid, len, pos, bytes } => {},
    }
}

/// Room for the next read can always be asked for where the buffers have a limit, as those of
/// [`Heapless`] do: the answer is room, or an error.
pub proof fn room_can_be_asked_for<C: NatsCollections>(state: FramerState)
    requires
        C::SyncBuf::limit() is Some,
        C::MsgBuf::limit() is Some,
    ensures
        can_grow::<C>(state),
{
}

/// Whatever a stream holds, and however it is cut, a framer in place never gets stuck: at every
/// point room for the next read can be asked for, and there is some as long as the header or the
/// payload fits its buffer; whatever the next read brings can be taken note of.
pub proof fn framer_in_place_never_gets_stuck<const TOPIC: usize, const PAYLOAD: usize>(
    chunks: Seq<Seq<u8>>,
    added: Seq<u8>,
    n: nat,
)
    requires
        may_bring_all::<BoundedString<TOPIC>>(FramerState::start(), chunks),
        ({
            let state = read_all::<BoundedString<TOPIC>>(FramerState::start(), chunks).0;
            added.len() == room(state) && n <= room(state)
        }),
    ensures
        ({
            let state = read_all::<BoundedString<TOPIC>>(FramerState::start(), chunks).0;
            &&& can_grow::<Heapless<TOPIC, PAYLOAD>>(state)
            &&& has_room::<Heapless<TOPIC, PAYLOAD>>(state) <==> match state {
                FramerState::Sync { bytes, .. } => bytes.len() < INFO_MAX_STR_LEN,
                FramerState::Msg { len, .. } => len <= PAYLOAD,
            }
            &&& may_take(granted(state, added), n)
        }),
{
    let state = read_all::<BoundedString<TOPIC>>(FramerState::start(), chunks).0;
    lemma_stays_idle::<BoundedString<TOPIC>>(FramerState::start(), chunks);
    reading_goes_on::<BoundedString<TOPIC>>(state, added, n);
}

/// Reads leave an idle framer idle.
pub(crate) proof fn lemma_stays_idle<T: StrBuf>(state: FramerState, chunks: Seq<Seq<u8>>)
    requires
        is_idle(state),
        may_bring_all::<T>(state, chunks),
    ensures
        is_idle(read_all::<T>(state, chunks).0),
    decreases chunks.len(),
{
    if chunks.len() > 0 {
        lemma_stays_idle::<T>(state, chunks.drop_last());
        let before = read_all::<T>(state, chunks.drop_last()).0;
        reading_goes_on::<T>(before, filled(before, chunks.last()), chunks.last().len());
    }
}

/// What is in the room for a read beyond the bytes that were read does not matter.
pub proof fn only_what_was_read_counts<T: StrBuf>(state: FramerState, added: Seq<u8>, n: nat)
    requires
        is_idle(state),
        added.len() == room(state),
        n <= room(state),
        !(after_read::<T>(granted(state, added), n).1 is Closed),
    ensures
        after_read::<T>(granted(state, added), n) == fed::<T>(state, added.take(n as int)),
{
    let chunk = added.take(n as int);
    match state {
        FramerState::Sync { bytes, magic } => {
            assert(filled(state, chunk) =~= added);
        },
        FramerState::Msg { topic, sid, len, pos, bytes } => {
            assert((bytes + added).take((pos + n) as int) =~= (bytes + filled(state, chunk)).take(
                (pos + n) as int,
            ));
        },
    }
}

/// A header that cannot be understood is dropped: the framer goes on with the next one.
pub proof fn bad_header_is_dropped<T: StrBuf>(header: Header)
    ensures
        match after_header::<T>(header).1 {
            Event::NotUtf8 | Event::TopicTooLong | Event::Invalid => after_header::<T>(header).0
                == FramerState::start(),
            _ => true,
        },
{
}

/// Reads that come after other reads go on from where those led.
pub proof fn reading_is_stepwise<T: StrBuf>(
    state: FramerState,
    a: Seq<Seq<u8>>,
    b: Seq<Seq<u8>>,
)
    ensures
        ({
            let (mid, first) = read_all::<T>(state, a);
            let (end, second) = read_all::<T>(mid, b);
            read_all::<T>(state, a + b) == (end, first + second)
        }),
    decreases b.len(),
{
    if b.len() == 0 {
        assert(a + b =~= a);
        assert(read_all::<T>(state, a).1 + Seq::<Event>::empty() =~= read_all::<T>(state, a).1);
    } else {
        reading_is_stepwise::<T>(state, a, b.drop_last());
        assert((a + b).drop_last() =~= a + b.drop_last());
        let (mid, first) = read_all::<T>(state, a);
        let (before, second) = read_all::<T>(mid, b.drop_last());
        let (end, event) = fed::<T>(before, b.last());
        assert((first + second).push(event) =~= first + second.push(event));
    }
}

proof fn lemma_can_read_all_add<C: NatsCollections>(
    state: FramerState,
    a: Seq<Seq<u8>>,
    b: Seq<Seq<u8>>,
)
    requires
        can_read_all::<C>(state, a),
        can_read_all::<C>(read_all::<C::Topic>(state, a).0, b),
    ensures
        can_read_all::<C>(state, a + b),
    decreases b.len(),
{
    if b.len() == 0 {
        assert(a + b =~= a);
    } else {
        lemma_can_read_all_add::<C>(state, a, b.drop_last());
        reading_is_stepwise::<C::Topic>(state, a, b.drop_last());
        assert((a + b).drop_last() =~= a + b.drop_last());
    }
}

proof fn lemma_within_header<C: NatsCollections>(bytes: Seq<u8>)
    requires
        is_undelimited(bytes),
    ensures
        read_all::<C::Topic>(FramerState::start(), singles(bytes)) == (
            FramerState::Sync { bytes, magic: magic_after(bytes) },
            pending(bytes.len()),
        ),
        can_hold::<C::SyncBuf>(bytes.len()) ==> can_read_all::<C>(
            FramerState::start(),
            singles(bytes),
        ),
        magic_after(bytes) <= 1,
    decreases bytes.len(),
{
    if bytes.len() == 0 {
        assert(bytes =~= Seq::<u8>::empty());
        assert(pending(0) =~= Seq::<Event>::empty());
    } else {
        let head = bytes.drop_last();
        assert forall|i: int| 0 <= i < head.len() implies !completes(
            #[trigger] head.take(i + 1),
            magic_after(head.take(i)),
        ) by {
            assert(head.take(i + 1) =~= bytes.take(i + 1));
            assert(head.take(i) =~= bytes.take(i));
        }
        lemma_within_header::<C>(head);
        assert(singles(bytes).drop_last() =~= singles(head));
        let before = FramerState::Sync { bytes: head, magic: magic_after(head) };
        let chunk = singles(bytes).last();
        assert(filled(before, chunk) =~= seq![bytes.last()]);
        assert(head + filled(before, chunk) =~= bytes);
        assert(bytes.take(bytes.len() - 1 + 1) =~= bytes);
        assert(bytes.take(bytes.len() - 1) =~= head);
        assert(!completes(bytes, magic_after(head)));
        assert(pending(head.len()).push(Event::Pending) =~= pending(bytes.len()));
    }
}

/// A line that comes byte by byte is nothing until its delimiter is complete; then it is the header
/// that it says it is. Room for the line and its delimiter is enough.
///
/// The line must not hold a delimiter itself, nor end with the beginning of one.
pub proof fn header_arrives<C: NatsCollections>(line: Seq<u8>)
    requires
        is_undelimited(line),
        magic_after(line) == 0,
    ensures
        ({
            let packet = line + delimiter();
            let (state, event) = after_header::<C::Topic>(header_of(packet));
            &&& read_all::<C::Topic>(FramerState::start(), singles(packet)) == (
                state,
                pending((packet.len() - 1) as nat).push(event),
            )
            &&& can_hold::<C::SyncBuf>(packet.len()) ==> can_read_all::<C>(
                FramerState::start(),
                singles(packet),
            )
        }),
{
    let packet = line + delimiter();
    let head = packet.drop_last();
    assert(head.drop_last() =~= line);
    assert(head.last() == delimiter()[0]);
    assert(magic_after(head) == 1);
    assert forall|i: int| 0 <= i < head.len() implies !completes(
        #[trigger] head.take(i + 1),
        magic_after(head.take(i)),
    ) by {
        if i < line.len() {
            assert(head.take(i + 1) =~= line.take(i + 1));
            assert(head.take(i) =~= line.take(i));
        } else {
            assert(head.take(i) =~= line);
        }
    }
    lemma_within_header::<C>(head);
    assert(singles(packet).drop_last() =~= singles(head));
    let before = FramerState::Sync { bytes: head, magic: 1 };
    let chunk = singles(packet).last();
    assert(filled(before, chunk) =~= seq![packet.last()]);
    assert(head + filled(before, chunk) =~= packet);
    assert(packet.last() == delimiter()[1]);
    lemma_packet_is_readable(packet);
}

// ---------------------------------------------------------------------------------------------
// Lines and their bytes
// ---------------------------------------------------------------------------------------------
pub(crate) proof fn lemma_encode_add(a: Seq<char>, b: Seq<char>)
    ensures
        encode_utf8(a + b) == encode_utf8(a) + encode_utf8(b),
    decreases a.len(),
{
    if a.len() == 0 {
        assert(a + b =~= b);
        assert(encode_utf8(a) + encode_utf8(b) =~= encode_utf8(b));
    } else {
        lemma_encode_add(a.drop_first(), b);
        assert((a + b).drop_first() =~= a.drop_first() + b);
        let first = encode_scalar(a[0] as u32);
        assert(first + (encode_utf8(a.drop_first()) + encode_utf8(b)) =~= (first + encode_utf8(
            a.drop_first(),
        )) + encode_utf8(b));
    }
}

proof fn lemma_scalar_bytes(c: char, b: u8)
    requires
        encode_scalar(c as u32).contains(b),
    ensures
        b < 0x80 ==> c == b as char,
{
    let n: u32 = c as u32;
    assert(n <= 0x7f ==> (n & 0x7f) as u8 == n) by (bit_vector);
    assert(forall|x: u8| 0xC0 | x >= 0x80u8) by (bit_vector);
    assert(forall|x: u8| 0xE0 | x >= 0x80u8) by (bit_vector);
    assert(forall|x: u8| 0xF0 | x >= 0x80u8) by (bit_vector);
    assert(forall|x: u8| 0x80 | x >= 0x80u8) by (bit_vector);
}

/// The bytes of a line with its delimiter are a packet that can be taken apart, and what the packet
/// says is what the line says.
pub proof fn packet_says_what_its_line_says(line: Seq<char>)
    ensures
        is_readable(encode_utf8(line) + delimiter()),
        header_of(encode_utf8(line) + delimiter()) == header_of_line(line),
{
    let bytes = encode_utf8(line);
    let packet = bytes + delimiter();
    encode_utf8_valid_utf8(line);
    encode_utf8_decode_utf8(line);
    assert(valid_utf8(delimiter())) by {
        let end = seq!['\r', '\n'];
        assert(is_ascii_chars(end));
        is_ascii_chars_encode_utf8(end);
        assert(encode_utf8(end) =~= delimiter());
        encode_utf8_valid_utf8(end);
    }
    valid_utf8_concat(bytes, delimiter());
    assert(packet.take(packet.len() - 2) =~= bytes);
    lemma_packet_is_readable(packet);
}

proof fn lemma_ascii_byte_is_char(line: Seq<char>, b: u8)
    requires
        encode_utf8(line).contains(b),
        b < 0x80,
    ensures
        line.contains(b as char),
    decreases line.len(),
{
    if line.len() > 0 {
        let first = encode_scalar(line[0] as u32);
        let rest = encode_utf8(line.drop_first());
        let i = choose|i: int| 0 <= i < encode_utf8(line).len() && encode_utf8(line)[i] == b;
        if i < first.len() {
            assert(first[i] == b);
            lemma_scalar_bytes(line[0], b);
        } else {
            assert(rest[i - first.len()] == b);
            lemma_ascii_byte_is_char(line.drop_first(), b);
            let j = choose|j: int|
                0 <= j < line.drop_first().len() && line.drop_first()[j] == b as char;
            assert(line[j + 1] == b as char);
        }
    }
}

proof fn lemma_no_return_no_magic(bytes: Seq<u8>)
    requires
        bytes.len() > 0 ==> bytes.last() != delimiter()[0],
    ensures
        magic_after(bytes) == 0,
{
}

/// No header ends within a line that has no carriage return in it, nor does one begin to end.
pub proof fn line_without_return_is_undelimited(line: Seq<char>)
    requires
        !line.contains('\r'),
    ensures
        is_undelimited(encode_utf8(line)),
        magic_after(encode_utf8(line)) == 0,
{
    let bytes = encode_utf8(line);
    assert forall|i: int| 0 <= i < bytes.len() implies bytes[i] != delimiter()[0] by {
        if bytes[i] == 13u8 {
            lemma_ascii_byte_is_char(line, 13u8);
            assert(13u8 as char == '\r');
        }
    }
    assert forall|i: int| 0 <= i < bytes.len() implies !completes(
        #[trigger] bytes.take(i + 1),
        magic_after(bytes.take(i)),
    ) by {
        lemma_no_return_no_magic(bytes.take(i));
    }
    lemma_no_return_no_magic(bytes);
}

/// Two texts with a space between them.
pub open spec fn spaced(a: Seq<char>, b: Seq<char>) -> Seq<char> {
    a.push(' ') + b
}

/// The line that announces a message.
pub open spec fn msg_line(
    topic: Seq<char>,
    sid: usize,
    reply_to: Option<Seq<char>>,
    len: usize,
) -> Seq<char> {
    let end = match reply_to {
        Some(reply_to) => spaced(reply_to, decimal(len as nat)),
        None => decimal(len as nat),
    };
    spaced("MSG"@, spaced(topic, spaced(decimal(sid as nat), end)))
}

pub(crate) proof fn lemma_split_spaced(a: Seq<char>, b: Seq<char>)
    requires
        !a.contains(' '),
    ensures
        split_space(spaced(a, b)) == Some((a, b)),
{
    let s = spaced(a, b);
    s.index_of_first_ensures(' ');
    assert(s[a.len() as int] == ' ');
    assert(s.contains(' '));
    let i = s.index_of_first(' ')->0;
    if i < a.len() {
        assert(a[i] == ' ');
    }
    assert(i == a.len());
    assert(s.take(i) =~= a);
    assert(s.skip(i + 1) =~= b);
}

proof fn lemma_digits_have_no_space(s: Seq<char>)
    requires
        all_digits(s),
    ensures
        !s.contains(' '),
        split_space(s) is None,
{
    if s.contains(' ') {
        let i = choose|i: int| 0 <= i < s.len() && s[i] == ' ';
        assert(is_digit(s[i]));
    }
    s.index_of_first_ensures(' ');
}

/// The line that announces a message says what it was made of, with a topic to reply to or without.
/// A space within a topic would end the topic.
pub proof fn msg_line_is_read_back(
    topic: Seq<char>,
    sid: usize,
    reply_to: Option<Seq<char>>,
    len: usize,
)
    requires
        !topic.contains(' '),
        reply_to matches Some(reply_to) ==> !reply_to.contains(' '),
    ensures
        header_of_line(msg_line(topic, sid, reply_to, len)) == (Header::Msg { topic, sid, len }),
{
    let digits = decimal(len as nat);
    let end = match reply_to {
        Some(reply_to) => spaced(reply_to, digits),
        None => digits,
    };
    let rest = spaced(decimal(sid as nat), end);
    let args = spaced(topic, rest);
    let line = msg_line(topic, sid, reply_to, len);
    decimal_is_read_back(len as nat);
    decimal_is_read_back(sid as nat);
    lemma_digits_have_no_space(digits);
    lemma_digits_have_no_space(decimal(sid as nat));
    reveal_strlit("MSG");
    reveal_strlit("PING");
    reveal_strlit("INFO");
    reveal_strlit("-ERR");
    reveal_strlit("+OK");
    assert(line[0] == 'M');
    assert(line.last() == digits.last());
    assert(is_digit(line.last()));
    assert(trimmed(line) == line);
    lemma_split_spaced("MSG"@, args);
    assert(command_of(line) == ("MSG"@, args));
    assert("MSG"@.len() == 3);
    assert("+OK"@[0] == '+');
    lemma_split_spaced(topic, rest);
    lemma_split_spaced(decimal(sid as nat), end);
    if let Some(reply_to) = reply_to {
        lemma_split_spaced(reply_to, digits);
    }
    assert(header_of_line(line) == msg_header_of(args));
}

proof fn lemma_trimmed_again(s: Seq<char>)
    ensures
        trimmed(trimmed(s)) == trimmed(s),
    decreases s.len(),
{
    if s.len() > 0 {
        if is_white_space(s[0]) {
            lemma_trimmed_again(s.skip(1));
        } else if is_white_space(s.last()) {
            lemma_trimmed_again(s.drop_last());
        }
    }
}

/// White space at the two ends of a line does not change what the line says, unless there is nothing
/// else in it.
pub proof fn white_space_around_a_line_does_not_matter(line: Seq<char>)
    requires
        trimmed(line).len() > 0,
    ensures
        header_of_line(line) == header_of_line(trimmed(line)),
{
    lemma_trimmed_again(line);
    assert(trimmed(Seq::<char>::empty()).len() == 0);
    assert(line.len() == 0 ==> line =~= Seq::empty());
}

proof fn lemma_trimmed_end(s: Seq<char>, n: int)
    requires
        0 < n <= s.len(),
        !is_white_space(s[0]),
        !is_white_space(s[n - 1]),
    ensures
        n <= trimmed(s).len() <= s.len(),
        trimmed(s) == s.take(trimmed(s).len() as int),
    decreases s.len(),
{
    if is_white_space(s.last()) {
        lemma_trimmed_end(s.drop_last(), n);
        assert(s.drop_last().take(trimmed(s).len() as int) =~= s.take(trimmed(s).len() as int));
    } else {
        assert(s.take(s.len() as int) =~= s);
    }
}

pub(crate) proof fn lemma_command(command: Seq<char>, text: Seq<char>)
    requires
        command.len() > 0,
        !command.contains(' '),
        !is_white_space(command[0]),
        !is_white_space(command.last()),
    ensures
        command_of(command) == (command, Seq::<char>::empty()),
        command_of(spaced(command, text)).0 == command,
        text.len() > 0 && !is_white_space(text.last()) ==> command_of(spaced(command, text)) == (
            command,
            text,
        ),
{
    command.index_of_first_ensures(' ');
    assert(trimmed(command) == command);
    let line = spaced(command, text);
    lemma_trimmed_end(line, command.len() as int);
    let inner = trimmed(line);
    if inner.len() == command.len() {
        assert(inner =~= command);
    } else {
        let rest = text.take(inner.len() - command.len() - 1);
        assert(inner =~= spaced(command, rest));
        lemma_split_spaced(command, rest);
        if text.len() > 0 && !is_white_space(text.last()) {
            assert(inner == line);
            assert(rest =~= text);
        }
    }
}

/// The lines of a server that announce no message say what their command is, whatever follows it,
/// and an INFO line hands on what follows. White space at the very end would be lost.
pub proof fn plain_lines_are_read_back(text: Seq<char>)
    ensures
        header_of_line("PING"@) == Header::Ping,
        header_of_line("+OK"@) == Header::ServerOk,
        header_of_line("-ERR"@) == Header::ServerErr,
        header_of_line("INFO"@) == Header::Info(Seq::empty()),
        header_of_line(spaced("PING"@, text)) == Header::Ping,
        header_of_line(spaced("+OK"@, text)) == Header::ServerOk,
        header_of_line(spaced("-ERR"@, text)) == Header::ServerErr,
        text.len() > 0 && !is_white_space(text.last()) ==> header_of_line(spaced("INFO"@, text))
            == Header::Info(text),
{
    reveal_strlit("PING");
    reveal_strlit("INFO");
    reveal_strlit("-ERR");
    reveal_strlit("+OK");
    lemma_command("PING"@, text);
    lemma_command("INFO"@, text);
    lemma_command("-ERR"@, text);
    lemma_command("+OK"@, text);
    assert("PING"@[0] == 'P' && "INFO"@[0] == 'I' && "-ERR"@[0] == '-' && "+OK"@[0] == '+');
}

// ---------------------------------------------------------------------------------------------
// Messages
// ---------------------------------------------------------------------------------------------
/// A framer at the beginning of a payload.
pub open spec fn payload_start(topic: Seq<char>, sid: usize, len: usize) -> FramerState {
    FramerState::Msg { topic, sid, len, pos: 0, bytes: Seq::empty() }
}

proof fn lemma_within_payload<C: NatsCollections>(
    topic: Seq<char>,
    sid: usize,
    len: usize,
    chunks: Seq<Seq<u8>>,
)
    requires
        forall|i: int| 0 <= i < chunks.len() ==> (#[trigger] chunks[i]).len() > 0,
        joined(chunks).len() < len || chunks.len() == 0,
    ensures
        read_all::<C::Topic>(payload_start(topic, sid, len), chunks) == (
            FramerState::Msg {
                topic,
                sid,
                len,
                pos: joined(chunks).len(),
                bytes: joined(chunks),
            },
            pending(chunks.len()),
        ),
        can_hold::<C::MsgBuf>(len as nat) ==> can_read_all::<C>(
            payload_start(topic, sid, len),
            chunks,
        ),
    decreases chunks.len(),
{
    if chunks.len() == 0 {
        assert(pending(0) =~= Seq::<Event>::empty());
    } else {
        let head = chunks.drop_last();
        let chunk = chunks.last();
        lemma_within_payload::<C>(topic, sid, len, head);
        let bytes = joined(head);
        let before = FramerState::Msg { topic, sid, len, pos: bytes.len(), bytes };
        assert(chunk == chunks[chunks.len() - 1]);
        assert(shortened(bytes + filled(before, chunk), bytes.len() + chunk.len())
            =~= joined(chunks));
        assert(pending(head.len()).push(Event::Pending) =~= pending(chunks.len()));
    }
}

/// A payload arrives whole, however it is cut: each read but the last brings nothing to light, and
/// the last brings the message. Room for the payload is enough.
pub proof fn payload_arrives<C: NatsCollections>(
    topic: Seq<char>,
    sid: usize,
    payload: Seq<u8>,
    chunks: Seq<Seq<u8>>,
)
    requires
        payload.len() <= usize::MAX,
        brings(chunks, payload),
    ensures
        ({
            let begin = payload_start(topic, sid, payload.len() as usize);
            &&& read_all::<C::Topic>(begin, chunks) == (
                FramerState::start(),
                pending((chunks.len() - 1) as nat).push(Event::Msg { topic, sid, data: payload }),
            )
            &&& can_hold::<C::MsgBuf>(payload.len()) ==> can_read_all::<C>(begin, chunks)
        }),
{
    let len = payload.len() as usize;
    let head = chunks.drop_last();
    let chunk = chunks.last();
    if payload.len() > 0 {
        assert(chunk == chunks[chunks.len() - 1]);
        assert forall|i: int| 0 <= i < head.len() implies (#[trigger] head[i]).len() > 0 by {
            assert(head[i] == chunks[i]);
        }
    }
    lemma_within_payload::<C>(topic, sid, len, head);
    let bytes = joined(head);
    let before = FramerState::Msg { topic, sid, len, pos: bytes.len(), bytes };
    assert(shortened(bytes + filled(before, chunk), bytes.len() + chunk.len()) =~= payload);
}

/// The reads in which a message comes: its header byte by byte, its payload in `chunks`, and then
/// the delimiter behind the payload byte by byte.
pub open spec fn msg_reads(
    topic: Seq<char>,
    sid: usize,
    reply_to: Option<Seq<char>>,
    len: usize,
    chunks: Seq<Seq<u8>>,
) -> Seq<Seq<u8>> {
    singles(encode_utf8(msg_line(topic, sid, reply_to, len)) + delimiter()) + chunks + singles(
        delimiter(),
    )
}

proof fn lemma_msg_line_ends(topic: Seq<char>, sid: usize, reply_to: Option<Seq<char>>, len: usize)
    ensures
        magic_after(encode_utf8(msg_line(topic, sid, reply_to, len))) == 0,
{
    let line = msg_line(topic, sid, reply_to, len);
    let digits = decimal(len as nat);
    decimal_is_read_back(len as nat);
    let before = line.drop_last();
    let last = seq![line.last()];
    assert(line =~= before + last);
    lemma_encode_add(before, last);
    assert(line.last() == digits.last());
    assert(is_digit(digits[digits.len() - 1]));
    assert(is_ascii_chars(last));
    is_ascii_chars_encode_utf8(last);
    let bytes = encode_utf8(line);
    assert(bytes.last() == encode_utf8(last)[0]);
    lemma_no_return_no_magic(bytes);
}

/// A message arrives: from all the reads in which it comes exactly one message comes to light, with
/// its topic, the number of its subscription and its payload, and the framer is ready for the next
/// header. Room for the header and room for the payload are enough.
///
/// No topic may hold a space, and there must be no delimiter in the header before its end.
#[verifier::rlimit(50)]
pub proof fn message_arrives<C: NatsCollections>(
    topic: Seq<char>,
    sid: usize,
    reply_to: Option<Seq<char>>,
    payload: Seq<u8>,
    chunks: Seq<Seq<u8>>,
)
    requires
        C::Topic::holds(topic),
        !topic.contains(' '),
        reply_to matches Some(reply_to) ==> !reply_to.contains(' '),
        payload.len() <= usize::MAX,
        is_undelimited(encode_utf8(msg_line(topic, sid, reply_to, payload.len() as usize))),
        brings(chunks, payload),
    ensures
        ({
            let line = encode_utf8(msg_line(topic, sid, reply_to, payload.len() as usize));
            let reads = msg_reads(topic, sid, reply_to, payload.len() as usize, chunks);
            &&& read_all::<C::Topic>(FramerState::start(), reads) == (
                FramerState::start(),
                pending((line.len() + 2 + chunks.len() - 1) as nat).push(
                    Event::Msg { topic, sid, data: payload },
                ) + pending(2),
            )
            &&& can_hold::<C::SyncBuf>(line.len() + 2) && can_hold::<C::MsgBuf>(payload.len())
                ==> can_read_all::<C>(FramerState::start(), reads)
        }),
{
    let len = payload.len() as usize;
    let start = FramerState::start();
    let line = msg_line(topic, sid, reply_to, len);
    let bytes = encode_utf8(line);
    let packet = bytes + delimiter();
    lemma_msg_line_ends(topic, sid, reply_to, len);
    header_arrives::<C>(bytes);
    packet_says_what_its_line_says(line);
    msg_line_is_read_back(topic, sid, reply_to, len);
    let first = singles(packet);
    assert(pending((packet.len() - 1) as nat).push(Event::Pending) =~= pending(packet.len()));
    payload_arrives::<C>(topic, sid, payload, chunks);
    let message = Event::Msg { topic, sid, data: payload };
    let none = Seq::<char>::empty();
    let last = singles(delimiter());
    assert(encode_utf8(none) + delimiter() =~= delimiter());
    packet_says_what_its_line_says(none);
    header_arrives::<C>(encode_utf8(none));
    assert(pending(1).push(Event::Pending) =~= pending(2));
    reading_is_stepwise::<C::Topic>(start, first, chunks);
    reading_is_stepwise::<C::Topic>(start, first + chunks, last);
    if can_hold::<C::SyncBuf>(packet.len()) && can_hold::<C::MsgBuf>(payload.len()) {
        lemma_can_read_all_add::<C>(start, first, chunks);
        lemma_can_read_all_add::<C>(start, first + chunks, last);
    }
    assert(pending(packet.len()) + pending((chunks.len() - 1) as nat).push(message) =~= pending(
        (packet.len() + chunks.len() - 1) as nat,
    ).push(message));
}

// ---------------------------------------------------------------------------------------------
// Commands
// ---------------------------------------------------------------------------------------------
/// Every command of a client is one line of words with one space between any two, and the payload of
/// a published message stands between that line's delimiter and another one.
pub proof fn commands_are_lines(topic: Seq<char>, sid: nat, data: Seq<u8>)
    ensures
        sub_line(topic, sid) == encode_utf8(spaced("SUB"@, spaced(topic, decimal(sid))))
            + delimiter(),
        unsub_line(sid) == encode_utf8(spaced("UNSUB"@, decimal(sid))) + delimiter(),
        pub_message(topic, data) == encode_utf8(
            spaced("PUB"@, spaced(topic, decimal(data.len()))),
        ) + delimiter() + data + delimiter(),
{
    reveal_strlit("SUB");
    reveal_strlit("SUB ");
    reveal_strlit("UNSUB");
    reveal_strlit("UNSUB ");
    reveal_strlit("PUB");
    reveal_strlit("PUB ");
    reveal_strlit(" ");
    lemma_encode_words("SUB "@, topic, decimal(sid));
    lemma_encode_words("PUB "@, topic, decimal(data.len()));
    lemma_encode_add("UNSUB "@, decimal(sid));
    assert(spaced("SUB"@, spaced(topic, decimal(sid))) =~= "SUB "@ + topic + " "@ + decimal(sid));
    assert(spaced("PUB"@, spaced(topic, decimal(data.len()))) =~= "PUB "@ + topic + " "@ + decimal(
        data.len(),
    ));
    assert(spaced("UNSUB"@, decimal(sid)) =~= "UNSUB "@ + decimal(sid));
}

proof fn lemma_encode_words(command: Seq<char>, topic: Seq<char>, number: Seq<char>)
    ensures
        encode_utf8(command + topic + " "@ + number) == encode_utf8(command) + encode_utf8(topic)
            + encode_utf8(" "@) + encode_utf8(number),
{
    lemma_encode_add(command, topic);
    lemma_encode_add(command + topic, " "@);
    lemma_encode_add(command + topic + " "@, number);
}

/// The topic and the number of a command can be read back from its line, by the grammar in which a
/// server announces messages: the topic up to the next space, then the number.
pub proof fn command_is_read_back(command: Seq<char>, topic: Seq<char>, number: usize)
    requires
        !command.contains(' '),
        !topic.contains(' '),
    ensures
        ({
            let args = spaced(topic, decimal(number as nat));
            &&& split_space(spaced(command, args)) == Some((command, args))
            &&& split_space(args) == Some((topic, decimal(number as nat)))
            &&& parse_decimal(decimal(number as nat)) == Some(number)
        }),
{
    lemma_split_spaced(command, spaced(topic, decimal(number as nat)));
    lemma_split_spaced(topic, decimal(number as nat));
    decimal_is_read_back(number as nat);
}

/// The answer to an INFO message is one line: its command, one space, the whole of the JSON text, and
/// the delimiter.
pub proof fn connect_is_a_line(text: Seq<char>)
    ensures
        connect_line(encode_utf8(text)) == encode_utf8(spaced("CONNECT"@, text)) + delimiter(),
{
    reveal_strlit("CONNECT");
    reveal_strlit("CONNECT ");
    assert("CONNECT"@.push(' ') =~= "CONNECT "@);
    lemma_encode_add("CONNECT "@, text);
}

/// No byte of what is handed on to a server is lost: the body of a CONNECT message stands whole
/// between its command and its delimiter, and a payload between the line that announces it and the
/// delimiter behind it.
pub proof fn what_is_sent_is_sent_whole(body: Seq<u8>, topic: Seq<char>, data: Seq<u8>)
    ensures
        ({
            let line = connect_line(body);
            &&& line.len() == 8 + body.len() + 2
            &&& line.subrange(8, 8int + body.len()) == body
            &&& line.skip(8int + body.len()) == seq![13u8, 10u8]
        }),
        ({
            let message = pub_message(topic, data);
            let n = message.len() - 2 - data.len();
            &&& 4 <= n
            &&& message.subrange(n, n + data.len()) == data
            &&& message.subrange(n - 2, n) == seq![13u8, 10u8]
            &&& message.skip(n + data.len()) == seq![13u8, 10u8]
        }),
{
    reveal_strlit("CONNECT ");
    reveal_strlit("PUB ");
    assert(is_ascii_chars("CONNECT "@));
    is_ascii_chars_encode_utf8("CONNECT "@);
    assert(is_ascii_chars("PUB "@));
    is_ascii_chars_encode_utf8("PUB "@);
    let line = connect_line(body);
    assert(line.subrange(8, 8int + body.len()) =~= body);
    assert(line.skip(8int + body.len()) =~= seq![13u8, 10u8]);
    let message = pub_message(topic, data);
    let n = message.len() - 2 - data.len();
    assert(message.subrange(n, n + data.len()) =~= data);
    assert(message.subrange(n - 2, n) =~= seq![13u8, 10u8]);
    assert(message.skip(n + data.len()) =~= seq![13u8, 10u8]);
}

// ---------------------------------------------------------------------------------------------
// Buffers
// ---------------------------------------------------------------------------------------------
/// A buffer with a limit has room for bytes as long as it holds no more than that with them, and one
/// on the heap always; only one on the heap can grow beyond what can be asked for.
pub proof fn buffers_are_filled_to_their_limit(max: nat, len: nat, more: nat)
    ensures
        fits(Some(max), len, more) <==> len + more <= max,
        fits(None, len, more),
        can_extend(Some(max), len, more),
        can_extend(None, len, more) <==> len + more <= isize::MAX,
{
}

/// A header asks for room for one byte, a payload for as many as it lacks; there is room where the
/// buffer for headers or that for payloads has it; and what was read goes behind what is there.
pub proof fn room_is_asked_for_what_is_missing<C: NatsCollections>(
    state: FramerState,
    added: Seq<u8>,
)
    ensures
        match state {
            FramerState::Sync { bytes, magic } => {
                &&& room(state) == 1
                &&& has_room::<C>(state) <==> fits(C::SyncBuf::limit(), bytes.len(), 1)
                &&& can_grow::<C>(state) <==> can_extend(C::SyncBuf::limit(), bytes.len(), 1)
                &&& granted(state, added) == (FramerState::Sync { bytes: bytes + added, magic })
            },
            FramerState::Msg { topic, sid, len, pos, bytes } => pos <= len ==> {
                let rest = (len - pos) as nat;
                &&& room(state) == rest
                &&& has_room::<C>(state) <==> fits(C::MsgBuf::limit(), bytes.len(), rest)
                &&& can_grow::<C>(state) <==> can_extend(C::MsgBuf::limit(), bytes.len(), rest)
                &&& granted(state, added) == (FramerState::Msg {
                    topic,
                    sid,
                    len,
                    pos,
                    bytes: bytes + added,
                })
            },
        },
{
}

/// A buffer that is shortened keeps its first bytes, as many as it is told to or all that there are.
pub proof fn shortening_keeps_the_first_bytes(bytes: Seq<u8>, len: nat)
    ensures
        shortened(bytes, len).is_prefix_of(bytes),
        len <= bytes.len() ==> shortened(bytes, len).len() == len,
        len >= bytes.len() ==> shortened(bytes, len).len() == bytes.len(),
{
}

// ---------------------------------------------------------------------------------------------
// Subscriptions
// ---------------------------------------------------------------------------------------------
/// The number in a message is the place of its subscription: a message whose number was given out
/// goes to the subscription that has it, and every other message to none.
pub proof fn number_finds_its_subscription<S>(subs: Seq<Subscription<S>>, sid: usize)
    requires
        is_numbered(subs),
    ensures
        target(subs, sid) == (if sid < subs.len() {
            Some(sid as int)
        } else {
            None::<int>
        }),
{
    let sids = subs.map_values(|sub: Subscription<S>| sub.0);
    sids.index_of_first_ensures(sid);
    assert(forall|i: int| 0 <= i < subs.len() ==> sids[i] == #[trigger] subs[i].0);
    if sid < subs.len() {
        assert(sids[sid as int] == subs[sid as int].0);
        assert(sids.contains(sid));
    }
}

/// A new subscription gets the next number. Its messages go to it, and those of every other
/// subscription go where they went before.
pub proof fn new_subscription_moves_no_other<S>(
    subs: Seq<Subscription<S>>,
    topic: Seq<char>,
    channel: S,
    sid: usize,
)
    requires
        is_numbered(subs),
        subs.len() <= usize::MAX,
        is_short(subs.len()),
    ensures
        ({
            let more = subs.push((subs.len() as usize, topic, channel));
            &&& is_numbered(more)
            &&& target(more, sid) == (if sid == subs.len() {
                Some(sid as int)
            } else {
                target(subs, sid)
            })
        }),
{
    let more = subs.push((subs.len() as usize, topic, channel));
    assert forall|i: int| 0 <= i < more.len() implies (#[trigger] more[i]).0 == i && is_short(
        i as nat,
    ) by {
        if i < subs.len() {
            assert(more[i] == subs[i]);
        }
    }
    number_finds_its_subscription(subs, sid);
    number_finds_its_subscription(more, sid);
}

/// A new connection subscribes to all that there was: what is written for the subscriptions then is
/// what was written for each of them when it was made, under the same numbers and in the same order.
pub proof fn subscriptions_are_repeated<S>(
    subs: Seq<Subscription<S>>,
    topic: Seq<char>,
    channel: S,
)
    requires
        subs.len() <= usize::MAX,
    ensures
        sub_lines(Seq::<Subscription<S>>::empty()) == Seq::<u8>::empty(),
        sub_lines(subs.push((subs.len() as usize, topic, channel))) == sub_lines(subs) + sub_line(
            topic,
            subs.len(),
        ),
{
    let more = subs.push((subs.len() as usize, topic, channel));
    assert(more.drop_last() =~= subs);
}

/// As long as the count covers the subscriptions of a client and those that the runner has or is
/// about to get, a client gets one more exactly where the runner can handle one more, and the count
/// goes on to cover them all.
pub proof fn accepted_subscription_has_room(own: nat, taken: nat, count: nat, max: nat)
    requires
        own <= count,
        taken <= count,
        count <= max,
    ensures
        is_accepted(own, count, max) == (count < max),
        counted(count, max) <= max,
        is_accepted(own, count, max) ==> {
            &&& taken < max
            &&& counted(count, max) == count + 1
            &&& own + 1 <= counted(count, max)
            &&& taken + 1 <= counted(count, max)
        },
        !is_accepted(own, count, max) ==> counted(count, max) == count,
{
}

/// To shorten a buffer to the length that it had undoes every extension.
pub proof fn shortening_undoes_extending(bytes: Seq<u8>, added: Seq<u8>)
    ensures
        shortened(bytes + added, bytes.len()) == bytes,
{
    assert((bytes + added).take(bytes.len() as int) =~= bytes);
}

} // verus!
