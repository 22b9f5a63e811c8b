//! What holds of a whole stream, however it is cut into reads.
use vstd::prelude::*;

use crate::collections::{shortened, StrBuf};
use crate::header::{header_of, Header};
use crate::laws::{
    fed, filled, is_idle, is_undelimited, joined, lemma_stays_idle, magic_after, may_bring,
    may_bring_all, read_all, reading_goes_on,
};
use crate::limits::delimiter;
use crate::stream::{after_byte, after_header, completes, room, Event, FramerState};

verus! {

/// The events that a caller sees as a frame or as an error.
pub open spec fn shown(events: Seq<Event>) -> Seq<Event>
    decreases events.len(),
{
    if events.len() == 0 {
        Seq::empty()
    } else {
        let rest = shown(events.drop_last());
        if events.last() is Pending {
            rest
        } else {
            rest.push(events.last())
        }
    }
}

/// Where a framer stands that does not wait for a read of nothing, and what that read brings to
/// light: after the header of a message without a payload there is room for nothing, and only a
/// read of nothing leads on.
pub open spec fn settled<T: StrBuf>(state: FramerState) -> (FramerState, Seq<Event>) {
    if room(state) == 0 {
        let (state, event) = fed::<T>(state, Seq::empty());
        (state, shown(seq![event]))
    } else {
        (state, Seq::empty())
    }
}

/// What reading `bytes` one by one leads to, whether or not there is room for more of them at once.
pub open spec fn read_singly<T: StrBuf>(state: FramerState, bytes: Seq<u8>) -> (
    FramerState,
    Seq<Event>,
)
    decreases bytes.len(),
{
    if bytes.len() == 0 {
        settled::<T>(state)
    } else {
        let (state, events) = read_singly::<T>(state, bytes.drop_last());
        let (state, event) = fed::<T>(state, seq![bytes.last()]);
        let (state, more) = settled::<T>(state);
        (state, events + shown(seq![event]) + more)
    }
}

proof fn lemma_shown_add(a: Seq<Event>, b: Seq<Event>)
    ensures
        shown(a + b) == shown(a) + shown(b),
    decreases b.len(),
{
    if b.len() == 0 {
        assert(a + b =~= a);
        assert(shown(a) + shown(b) =~= shown(a));
    } else {
        lemma_shown_add(a, b.drop_last());
        assert((a + b).drop_last() =~= a + b.drop_last());
        assert(shown(a + b) =~= shown(a) + shown(b));
    }
}

proof fn lemma_shown_one(event: Event)
    ensures
        shown(seq![event]) == (if event is Pending {
            Seq::empty()
        } else {
            seq![event]
        }),
{
    reveal_with_fuel(shown, 2);
    assert(seq![event].drop_last() =~= Seq::<Event>::empty());
    assert(shown(seq![event]) =~= (if event is Pending {
        Seq::empty()
    } else {
        seq![event]
    }));
}

proof fn lemma_settled<T: StrBuf>(state: FramerState)
    requires
        is_idle(state),
    ensures
        is_idle(settled::<T>(state).0),
        room(settled::<T>(state).0) > 0,
        room(state) == 0 ==> {
            let (next, event) = fed::<T>(state, Seq::empty());
            &&& next == FramerState::start()
            &&& event is Msg
            &&& settled::<T>(state) == (next, seq![event])
        },
{
    if room(state) == 0 {
        reading_goes_on::<T>(state, filled(state, Seq::empty()), 0);
        lemma_shown_one(fed::<T>(state, Seq::empty()).1);
    }
}

proof fn lemma_read_singly_idle<T: StrBuf>(state: FramerState, bytes: Seq<u8>)
    requires
        is_idle(state),
    ensures
        is_idle(read_singly::<T>(state, bytes).0),
        room(read_singly::<T>(state, bytes).0) > 0,
    decreases bytes.len(),
{
    if bytes.len() == 0 {
        lemma_settled::<T>(state);
    } else {
        lemma_read_singly_idle::<T>(state, bytes.drop_last());
        let before = read_singly::<T>(state, bytes.drop_last()).0;
        let chunk = seq![bytes.last()];
        reading_goes_on::<T>(before, filled(before, chunk), 1);
        lemma_settled::<T>(fed::<T>(before, chunk).0);
    }
}

proof fn lemma_read_singly_add<T: StrBuf>(state: FramerState, a: Seq<u8>, b: Seq<u8>)
    requires
        is_idle(state),
    ensures
        ({
            let (mid, first) = read_singly::<T>(state, a);
            let (end, second) = read_singly::<T>(mid, b);
            read_singly::<T>(state, a + b) == (end, first + second)
        }),
    decreases b.len(),
{
    let (mid, first) = read_singly::<T>(state, a);
    lemma_read_singly_idle::<T>(state, a);
    if b.len() == 0 {
        assert(a + b =~= a);
        assert(first + Seq::<Event>::empty() =~= first);
    } else {
        lemma_read_singly_add::<T>(state, a, b.drop_last());
        assert((a + b).drop_last() =~= a + b.drop_last());
        let (before, events) = read_singly::<T>(mid, b.drop_last());
        let (after, event) = fed::<T>(before, seq![b.last()]);
        let more = settled::<T>(after).1;
        assert(first + events + shown(seq![event]) + more =~= first + (events + shown(seq![event])
            + more));
    }
}

proof fn lemma_part_singly<T: StrBuf>(state: FramerState, chunk: Seq<u8>)
    requires
        is_idle(state),
        state is Msg,
        0 < room(state),
        chunk.len() < room(state),
    ensures
        state matches FramerState::Msg { topic, sid, len, pos, bytes } && read_singly::<T>(
            state,
            chunk,
        ) == (
            FramerState::Msg { topic, sid, len, pos: pos + chunk.len(), bytes: bytes + chunk },
            Seq::<Event>::empty(),
        ),
    decreases chunk.len(),
{
    if let FramerState::Msg { topic, sid, len, pos, bytes } = state {
        if chunk.len() == 0 {
            assert(bytes + chunk =~= bytes);
        } else {
            let head = chunk.drop_last();
            let last = seq![chunk.last()];
            lemma_part_singly::<T>(state, head);
            let before = FramerState::Msg {
                topic,
                sid,
                len,
                pos: pos + head.len(),
                bytes: bytes + head,
            };
            assert(shortened(bytes + head + filled(before, last), pos + head.len() + 1)
                =~= bytes + chunk);
            lemma_shown_one(Event::Pending);
            assert(Seq::<Event>::empty() + Seq::empty() + Seq::empty() =~= Seq::<Event>::empty());
        }
    }
}

proof fn lemma_chunk_singly<T: StrBuf>(state: FramerState, chunk: Seq<u8>)
    requires
        is_idle(state),
        0 < chunk.len() <= room(state),
    ensures
        ({
            let (next, event) = fed::<T>(state, chunk);
            let (end, more) = settled::<T>(next);
            read_singly::<T>(state, chunk) == (end, shown(seq![event]) + more)
        }),
{
    let head = chunk.drop_last();
    let last = seq![chunk.last()];
    let (next, event) = fed::<T>(state, chunk);
    let (end, more) = settled::<T>(next);
    assert(Seq::<Event>::empty() + shown(seq![event]) + more =~= shown(seq![event]) + more);
    match state {
        FramerState::Sync { bytes, magic } => {
            assert(chunk =~= last);
            assert(read_singly::<T>(state, head) == (state, Seq::<Event>::empty()));
        },
        FramerState::Msg { topic, sid, len, pos, bytes } => {
            lemma_part_singly::<T>(state, head);
            let before = FramerState::Msg {
                topic,
                sid,
                len,
                pos: pos + head.len(),
                bytes: bytes + head,
            };
            assert(shortened(bytes + head + filled(before, last), pos + head.len() + 1)
                =~= shortened(bytes + filled(state, chunk), pos + chunk.len()));
        },
    }
}

proof fn lemma_read_all_singly<T: StrBuf>(state: FramerState, chunks: Seq<Seq<u8>>)
    requires
        is_idle(state),
        may_bring_all::<T>(state, chunks),
    ensures
        ({
            let (end, events) = read_all::<T>(state, chunks);
            let (rest, more) = settled::<T>(end);
            read_singly::<T>(state, joined(chunks)) == (rest, shown(events) + more)
        }),
    decreases chunks.len(),
{
    let (end, events) = read_all::<T>(state, chunks);
    let (rest, more) = settled::<T>(end);
    if chunks.len() == 0 {
        assert(Seq::<Event>::empty() + more =~= more);
    } else {
        let head = chunks.drop_last();
        let chunk = chunks.last();
        let (mid, before) = read_all::<T>(state, head);
        let event = fed::<T>(mid, chunk).1;
        lemma_read_all_singly::<T>(state, head);
        lemma_stays_idle::<T>(state, head);
        lemma_settled::<T>(mid);
        assert(before.push(event) =~= before + seq![event]);
        lemma_shown_add(before, seq![event]);
        if chunk.len() == 0 {
            assert(chunk =~= Seq::empty());
            assert(joined(chunks) =~= joined(head));
            lemma_shown_one(event);
            assert(shown(events) + more =~= shown(before) + seq![event]);
        } else {
            lemma_read_singly_add::<T>(state, joined(head), chunk);
            lemma_chunk_singly::<T>(mid, chunk);
            assert(shown(before) + Seq::<Event>::empty() =~= shown(before));
            assert(shown(before) + (shown(seq![event]) + more) =~= shown(events) + more);
        }
    }
}

/// How a stream is cut does not matter: two ways of cutting the same bytes bring the same frames and
/// the same errors to light, in the same order, and leave the framer in the same state. Only the
/// number of reads that bring nothing to light may differ.
///
/// A message without a payload comes to light with a read of nothing. Where one of the two has made
/// that read at the very end and the other has not yet, it is one message ahead: they agree once
/// the other has made it too.
pub proof fn cut_does_not_matter<T: StrBuf>(
    state: FramerState,
    a: Seq<Seq<u8>>,
    b: Seq<Seq<u8>>,
)
    requires
        is_idle(state),
        may_bring_all::<T>(state, a),
        may_bring_all::<T>(state, b),
        joined(a) == joined(b),
    ensures
        ({
            let (end_a, events_a) = read_all::<T>(state, a);
            let (end_b, events_b) = read_all::<T>(state, b);
            let (rest_a, more_a) = settled::<T>(end_a);
            let (rest_b, more_b) = settled::<T>(end_b);
            &&& rest_a == rest_b
            &&& shown(events_a) + more_a == shown(events_b) + more_b
            &&& (room(end_a) == 0 <==> room(end_b) == 0) ==> shown(events_a) == shown(events_b)
                && end_a == end_b
        }),
{
    lemma_read_all_singly::<T>(state, a);
    lemma_read_all_singly::<T>(state, b);
    lemma_stays_idle::<T>(state, a);
    lemma_stays_idle::<T>(state, b);
    let (end_a, events_a) = read_all::<T>(state, a);
    let (end_b, events_b) = read_all::<T>(state, b);
    let more_a = settled::<T>(end_a).1;
    let more_b = settled::<T>(end_b).1;
    lemma_settled::<T>(end_a);
    lemma_settled::<T>(end_b);
    let all = shown(events_a) + more_a;
    if room(end_a) == 0 && room(end_b) == 0 {
        assert(all.drop_last() =~= shown(events_a));
        assert(all.drop_last() =~= shown(events_b));
        assert(all.last() == more_a[0]);
        assert(all.last() == more_b[0]);
        lemma_waits_for_nothing::<T>(end_a, end_b);
    } else if room(end_a) > 0 && room(end_b) > 0 {
        assert(all =~= shown(events_a));
        assert(all =~= shown(events_b));
    }
}

proof fn lemma_waits_for_nothing<T: StrBuf>(a: FramerState, b: FramerState)
    requires
        is_idle(a),
        is_idle(b),
        room(a) == 0,
        room(b) == 0,
        fed::<T>(a, Seq::empty()).1 == fed::<T>(b, Seq::empty()).1,
    ensures
        a == b,
{
    assert(a.bytes() =~= b.bytes());
}

/// The number of reads that came before those of the header or the frame that a framer is in.
pub open spec fn begun<T: StrBuf>(chunks: Seq<Seq<u8>>) -> int
    decreases chunks.len(),
{
    if chunks.len() == 0 || read_all::<T>(FramerState::start(), chunks).0 == FramerState::start() {
        chunks.len() as int
    } else {
        begun::<T>(chunks.drop_last())
    }
}

/// Whether bytes are one line and its delimiter, which ends the line and nothing before it.
pub open spec fn is_packet(bytes: Seq<u8>) -> bool {
    let line = bytes.take(bytes.len() - 2);
    &&& bytes.len() >= 2
    &&& bytes == line + delimiter()
    &&& is_undelimited(line)
    &&& magic_after(line) == 0
}

/// Whether bytes are one line that announces a message, and then what came of its payload.
pub open spec fn is_announced(
    topic: Seq<char>,
    sid: usize,
    len: usize,
    payload: Seq<u8>,
    bytes: Seq<u8>,
) -> bool {
    let n = bytes.len() - payload.len();
    &&& 0 <= n
    &&& is_packet(bytes.take(n))
    &&& header_of(bytes.take(n)) == (Header::Msg { topic, sid, len })
    &&& bytes.skip(n) == payload
}

/// Whether bytes are what an event is about, and nothing else: a line up to its line feed, or for a
/// message the line that announces it and the payload up to its last byte.
pub open spec fn is_all_of<T: StrBuf>(event: Event, bytes: Seq<u8>) -> bool {
    match event {
        Event::Msg { topic, sid, data } => data.len() <= usize::MAX && is_announced(
            topic,
            sid,
            data.len() as usize,
            data,
            bytes,
        ),
        _ => is_packet(bytes) && after_header::<T>(header_of(bytes)) == (
            FramerState::start(),
            event,
        ),
    }
}

/// Whether a framer that stood at its start has since taken `bytes` in, and nothing else.
spec fn has_taken(state: FramerState, bytes: Seq<u8>) -> bool {
    match state {
        FramerState::Sync { bytes: held, magic } => {
            &&& held == bytes
            &&& is_undelimited(bytes)
            &&& magic == magic_after(bytes)
        },
        FramerState::Msg { topic, sid, len, bytes: held, .. } => is_announced(
            topic,
            sid,
            len,
            held,
            bytes,
        ),
    }
}

proof fn lemma_header_step<T: StrBuf>(bytes: Seq<u8>, byte: u8)
    requires
        is_undelimited(bytes),
        is_idle(FramerState::Sync { bytes, magic: magic_after(bytes) }),
    ensures
        ({
            let all = bytes.push(byte);
            let (next, event) = fed::<T>(
                FramerState::Sync { bytes, magic: magic_after(bytes) },
                seq![byte],
            );
            if completes(all, magic_after(bytes)) {
                &&& is_packet(all)
                &&& (next, event) == after_header::<T>(header_of(all))
            } else {
                &&& event is Pending
                &&& has_taken(next, all)
            }
        }),
{
    let magic = magic_after(bytes);
    let state = FramerState::Sync { bytes, magic };
    let all = bytes.push(byte);
    assert(bytes + filled(state, seq![byte]) =~= all);
    assert(all.drop_last() =~= bytes);
    if completes(all, magic) {
        let line = bytes.drop_last();
        assert(all.take(all.len() - 2) =~= line);
        assert(all =~= line + delimiter());
        assert forall|i: int| 0 <= i < line.len() implies !completes(
            #[trigger] line.take(i + 1),
            magic_after(line.take(i)),
        ) by {
            assert(line.take(i + 1) =~= bytes.take(i + 1));
            assert(line.take(i) =~= bytes.take(i));
        }
        assert(after_byte(bytes, magic_after(line)).1 == 1);
    } else {
        assert forall|i: int| 0 <= i < all.len() implies !completes(
            #[trigger] all.take(i + 1),
            magic_after(all.take(i)),
        ) by {
            if i < bytes.len() {
                assert(all.take(i + 1) =~= bytes.take(i + 1));
                assert(all.take(i) =~= bytes.take(i));
            } else {
                assert(all.take(i + 1) =~= all);
                assert(all.take(i) =~= bytes);
            }
        }
    }
}

proof fn lemma_step<T: StrBuf>(state: FramerState, bytes: Seq<u8>, chunk: Seq<u8>)
    requires
        is_idle(state),
        has_taken(state, bytes),
        may_bring(state, chunk.len()),
    ensures
        ({
            let (next, event) = fed::<T>(state, chunk);
            if event is Pending {
                next == FramerState::start() || has_taken(next, bytes + chunk)
            } else {
                next == FramerState::start() && is_all_of::<T>(event, bytes + chunk)
            }
        }),
{
    let all = bytes + chunk;
    match state {
        FramerState::Sync { bytes: held, magic } => {
            lemma_header_step::<T>(bytes, chunk[0]);
            assert(chunk =~= seq![chunk[0]]);
            assert(all =~= bytes.push(chunk[0]));
            if completes(all, magic) {
                if let Header::Msg { topic, sid, len } = header_of(all) {
                    assert(all.take(all.len() as int) =~= all);
                    assert(all.skip(all.len() as int) =~= Seq::<u8>::empty());
                }
            }
        },
        FramerState::Msg { topic, sid, len, pos, bytes: held } => {
            let now = held + chunk;
            let n = bytes.len() - held.len();
            assert(shortened(held + filled(state, chunk), pos + chunk.len()) =~= now);
            assert(all.len() - now.len() == n);
            assert(all.take(n) =~= bytes.take(n));
            assert(all.skip(n) =~= bytes.skip(n) + chunk);
        },
    }
}

proof fn lemma_joined_add(a: Seq<Seq<u8>>, b: Seq<Seq<u8>>)
    ensures
        joined(a + b) == joined(a) + joined(b),
    decreases b.len(),
{
    if b.len() == 0 {
        assert(a + b =~= a);
        assert(joined(a) + joined(b) =~= joined(a));
    } else {
        lemma_joined_add(a, b.drop_last());
        assert((a + b).drop_last() =~= a + b.drop_last());
        assert(joined(a + b) =~= joined(a) + joined(b));
    }
}

proof fn lemma_begun<T: StrBuf>(chunks: Seq<Seq<u8>>)
    requires
        may_bring_all::<T>(FramerState::start(), chunks),
    ensures
        ({
            let k = begun::<T>(chunks);
            let (state, events) = read_all::<T>(FramerState::start(), chunks);
            &&& 0 <= k <= chunks.len()
            &&& events.len() == chunks.len()
            &&& read_all::<T>(FramerState::start(), chunks.take(k)).0 == FramerState::start()
            &&& has_taken(state, joined(chunks.skip(k)))
            &&& forall|i: int| k <= i < chunks.len() ==> (#[trigger] events[i]) is Pending
        }),
    decreases chunks.len(),
{
    let start = FramerState::start();
    let (state, events) = read_all::<T>(start, chunks);
    if chunks.len() > 0 {
        lemma_begun::<T>(chunks.drop_last());
    }
    if chunks.len() == 0 || state == start {
        assert(chunks.take(chunks.len() as int) =~= chunks);
        assert(chunks.skip(chunks.len() as int) =~= Seq::<Seq<u8>>::empty());
    } else {
        let head = chunks.drop_last();
        let k = begun::<T>(head);
        let before = read_all::<T>(start, head).0;
        lemma_stays_idle::<T>(start, head);
        lemma_step::<T>(before, joined(head.skip(k)), chunks.last());
        assert(chunks.take(k) =~= head.take(k));
        assert(chunks.skip(k).drop_last() =~= head.skip(k));
        assert(chunks.skip(k).last() == chunks.last());
    }
}

/// A frame ends where the bytes that were read end: when a read brings a frame or an error to light,
/// what was read since the framer last stood at its start is that frame or that header and no byte
/// more, no read in between brought anything else to light, and the framer stands at its start
/// again.
pub proof fn frame_ends_where_reading_ends<T: StrBuf>(chunks: Seq<Seq<u8>>)
    requires
        may_bring_all::<T>(FramerState::start(), chunks),
        chunks.len() > 0,
        !(read_all::<T>(FramerState::start(), chunks).1.last() is Pending),
    ensures
        ({
            let start = FramerState::start();
            let (state, events) = read_all::<T>(start, chunks);
            let k = begun::<T>(chunks.drop_last());
            &&& state == start
            &&& 0 <= k < chunks.len()
            &&& read_all::<T>(start, chunks.take(k)).0 == start
            &&& joined(chunks) == joined(chunks.take(k)) + joined(chunks.skip(k))
            &&& is_all_of::<T>(events.last(), joined(chunks.skip(k)))
            &&& forall|i: int| k <= i < chunks.len() - 1 ==> (#[trigger] events[i]) is Pending
        }),
{
    let start = FramerState::start();
    let head = chunks.drop_last();
    let k = begun::<T>(head);
    let before = read_all::<T>(start, head).0;
    lemma_begun::<T>(head);
    lemma_stays_idle::<T>(start, head);
    lemma_step::<T>(before, joined(head.skip(k)), chunks.last());
    assert(chunks.take(k) =~= head.take(k));
    assert(chunks.skip(k).drop_last() =~= head.skip(k));
    assert(chunks.skip(k).last() == chunks.last());
    assert(chunks =~= chunks.take(k) + chunks.skip(k));
    lemma_joined_add(chunks.take(k), chunks.skip(k));
}

} // verus!
