//! Frames, read off a stream in pieces.
use embassy_nats::error::FramerError;
use embassy_nats::framer::{Frame, Framer};
use embassy_nats::{
    Alloc, BytesBuf, CapacityError, Heapless, NatsCollections, NatsInfoMsg, StrBuf,
};
use serde_json_core::de::Error as DeError;

type Outcome<C> = Result<Option<Frame<C>>, FramerError<&'static str>>;

type Small = Heapless<8, 16>;

fn decode(text: &str) -> Result<NatsInfoMsg, DeError> {
    if text.is_empty() {
        return Err(DeError::EofWhileParsingValue);
    }
    Ok(NatsInfoMsg {
        server_id: StrBuf::try_from_str(text).map_err(|_| DeError::EscapedStringIsTooLong)?,
        server_name: StrBuf::try_from_str("name").unwrap(),
        version: StrBuf::try_from_str("2.10").unwrap(),
        go: StrBuf::try_from_str("go1.21").unwrap(),
        host: StrBuf::try_from_str("0.0.0.0").unwrap(),
        port: 4222,
        headers: true,
        max_payload: 1048576,
        proto: 1,
    })
}

/// One read of at most `most` bytes.
fn read_once<C: NatsCollections>(
    framer: &mut Framer<C>,
    source: &mut &[u8],
    most: usize,
) -> Outcome<C> {
    assert!(framer.may_grow());
    let space = framer.space()?;
    assert!(space.iter().all(|b| *b == 0));
    let n = space.len().min(source.len()).min(most);
    space[..n].copy_from_slice(&source[..n]);
    *source = &source[n..];
    assert!(framer.may_frame(n));
    framer.frame(Ok(n), &decode)
}

/// Reads until the source is empty: all frames, and the number of reads that were made.
fn read_all<C: NatsCollections>(
    framer: &mut Framer<C>,
    bytes: &[u8],
    most: usize,
) -> (Vec<Result<Frame<C>, FramerError<&'static str>>>, usize) {
    let mut source = bytes;
    let mut frames = Vec::new();
    let mut reads = 0;
    while !source.is_empty() {
        reads += 1;
        match read_once(framer, &mut source, most) {
            Ok(None) => (),
            Ok(Some(frame)) => frames.push(Ok(frame)),
            Err(e) => frames.push(Err(e)),
        }
    }
    (frames, reads)
}

/// The one frame in `bytes`.
fn read_one<C: NatsCollections>(bytes: &[u8]) -> Result<Frame<C>, FramerError<&'static str>> {
    let mut framer = Framer::new();
    let (mut frames, _) = read_all(&mut framer, bytes, usize::MAX);
    assert_eq!(frames.len(), 1);
    frames.pop().unwrap()
}

fn check_msg<C: NatsCollections>(
    frame: Result<Frame<C>, FramerError<&'static str>>,
    topic: &str,
    sid: usize,
    data: &[u8],
) {
    match frame {
        Ok(Frame::Msg(msg)) => {
            assert_eq!(msg.topic.as_str(), topic);
            assert_eq!(msg.sid, sid);
            assert_eq!(msg.data.as_bytes(), data);
            assert_eq!(msg.data.len(), data.len());
        }
        _ => panic!("not a message"),
    }
}

#[test]
fn ping_is_a_frame() {
    assert!(matches!(read_one::<Alloc>(b"PING\r\n"), Ok(Frame::Ping)));
    assert!(matches!(read_one::<Small>(b"PING\r\n"), Ok(Frame::Ping)));
    assert!(matches!(read_one::<Alloc>(b"PING and more\r\n"), Ok(Frame::Ping)));
}

#[test]
fn ok_and_err_are_frames() {
    assert!(matches!(read_one::<Alloc>(b"+OK\r\n"), Ok(Frame::ServerOk)));
    assert!(matches!(
        read_one::<Alloc>(b"-ERR 'Authorization Violation'\r\n"),
        Ok(Frame::ServerErr)
    ));
}

#[test]
fn white_space_around_a_line_does_not_matter() {
    assert!(matches!(read_one::<Alloc>(b" \t PING \t\r\n"), Ok(Frame::Ping)));
    assert!(matches!(
        read_one::<Alloc>("\u{2003}\u{00A0}PING\u{3000}\r\n".as_bytes()),
        Ok(Frame::Ping)
    ));
    assert!(matches!(
        read_one::<Alloc>("\u{200B}PING\r\n".as_bytes()),
        Err(FramerError::Header)
    ));
}

#[test]
fn blank_lines_are_nothing() {
    let mut framer = Framer::<Alloc>::new();
    let (frames, reads) = read_all(&mut framer, b"\r\n\r\nPING\r\n", usize::MAX);
    assert_eq!(reads, 10);
    assert_eq!(frames.len(), 1);
    assert!(matches!(frames[0], Ok(Frame::Ping)));
    assert!(matches!(read_one::<Alloc>(b"  \r\n"), Err(FramerError::Header)));
}

#[test]
fn info_is_decoded_from_what_follows_the_command() {
    match read_one::<Alloc>(b"INFO {\"server_id\": 1}\r\n") {
        Ok(Frame::Info(info)) => {
            assert_eq!(info.server_id.as_str(), "{\"server_id\": 1}");
            let copy = info.clone();
            assert_eq!(copy.server_id.as_str(), "{\"server_id\": 1}");
            assert_eq!(copy.server_name.as_str(), "name");
            assert_eq!(copy.version.as_str(), "2.10");
            assert_eq!(copy.go.as_str(), "go1.21");
            assert_eq!(copy.host.as_str(), "0.0.0.0");
            assert_eq!(copy.port, 4222);
            assert!(copy.headers);
            assert_eq!(copy.max_payload, 1048576);
            assert_eq!(copy.proto, 1);
        }
        _ => panic!("not INFO"),
    }
}

#[test]
fn info_that_cannot_be_decoded_is_an_error() {
    assert!(matches!(
        read_one::<Alloc>(b"INFO\r\n"),
        Err(FramerError::Deser(DeError::EofWhileParsingValue))
    ));
    let long = format!("INFO {}\r\n", "x".repeat(65));
    assert!(matches!(
        read_one::<Alloc>(long.as_bytes()),
        Err(FramerError::Deser(DeError::EscapedStringIsTooLong))
    ));
}

#[test]
fn message_comes_with_its_topic_number_and_payload() {
    let bytes = b"MSG foo.bar 9 11\r\nHello World\r\n";
    check_msg(read_one::<Alloc>(bytes), "foo.bar", 9, b"Hello World");
    check_msg(read_one::<Small>(bytes), "foo.bar", 9, b"Hello World");
}

#[test]
fn topic_to_reply_to_is_passed_over() {
    check_msg(read_one::<Alloc>(b"MSG foo 1 GREETING.34 5\r\nHello\r\n"), "foo", 1, b"Hello");
}

#[test]
fn numbers_may_have_a_sign_and_leading_zeros() {
    check_msg(read_one::<Alloc>(b"MSG foo +07 +005\r\nHello\r\n"), "foo", 7, b"Hello");
}

#[test]
fn message_arrives_however_its_payload_is_cut() {
    let bytes = b"MSG a 3 10\r\n0123456789\r\n";
    for most in 1..12 {
        let mut framer = Framer::<Small>::new();
        let (mut frames, reads) = read_all(&mut framer, bytes, most);
        assert_eq!(frames.len(), 1);
        let chunks = (10 + most - 1) / most;
        assert_eq!(reads, 12 + chunks + 2);
        check_msg(frames.pop().unwrap(), "a", 3, b"0123456789");
    }
}

#[test]
fn payload_may_hold_delimiters() {
    check_msg(read_one::<Alloc>(b"MSG a 0 6\r\n\r\n\xff\r\n\n\r\n"), "a", 0, b"\r\n\xff\r\n\n");
}

#[test]
fn empty_payload_is_complete_after_a_read_of_nothing() {
    let mut framer = Framer::<Small>::new();
    let mut source: &[u8] = b"MSG a 1 0\r\n\r\n";
    for _ in 0..11 {
        assert!(matches!(read_once(&mut framer, &mut source, 1), Ok(None)));
    }
    let before = source.len();
    match read_once(&mut framer, &mut source, 1) {
        Ok(Some(frame)) => check_msg(Ok(frame), "a", 1, b""),
        _ => panic!("no message"),
    }
    assert_eq!(source.len(), before);
    assert!(matches!(read_once(&mut framer, &mut source, 1), Ok(None)));
    assert!(matches!(read_once(&mut framer, &mut source, 1), Ok(None)));
    assert!(source.is_empty());
}

#[test]
fn messages_come_one_after_the_other() {
    let mut framer = Framer::<Alloc>::new();
    let bytes = b"MSG a 0 2\r\nhi\r\nPING\r\nMSG b 1 r 3\r\nyou\r\n+OK\r\n";
    let (mut frames, _) = read_all(&mut framer, bytes, 2);
    assert_eq!(frames.len(), 4);
    assert!(matches!(frames.pop().unwrap(), Ok(Frame::ServerOk)));
    check_msg(frames.pop().unwrap(), "b", 1, b"you");
    assert!(matches!(frames.pop().unwrap(), Ok(Frame::Ping)));
    check_msg(frames.pop().unwrap(), "a", 0, b"hi");
}

#[test]
fn header_is_read_byte_by_byte() {
    let mut framer = Framer::<Alloc>::new();
    assert_eq!(framer.space::<()>().ok().unwrap().len(), 1);
}

#[test]
fn payload_is_read_to_its_end() {
    let mut framer = Framer::<Alloc>::new();
    let (frames, _) = read_all(&mut framer, b"MSG a 0 5\r\nab", 2);
    assert!(frames.is_empty());
    assert_eq!(framer.space::<()>().ok().unwrap().len(), 3);
}

#[test]
fn bad_headers_are_errors() {
    for line in [
        &b"PONG\r\n"[..],
        b"ping\r\n",
        b"PINGS\r\n",
        b"MSG\r\n",
        b"MSG a\r\n",
        b"MSG a 1\r\n",
        b"MSG a b 1\r\n",
        b"MSG a 1 b\r\n",
        b"MSG a 1 r s 2\r\n",
        b"MSG a -1 2\r\n",
        b"MSG a 1 \r\n",
        b"MSG a  2\r\n",
        b"MSG a + 2\r\n",
        b"MSG a 1 99999999999999999999999\r\n",
    ] {
        assert!(matches!(read_one::<Alloc>(line), Err(FramerError::Header)));
    }
}

#[test]
fn header_that_is_not_utf8_is_an_error() {
    assert!(matches!(read_one::<Alloc>(b"\xc3(\r\n"), Err(FramerError::Utf8)));
    assert!(matches!(read_one::<Alloc>(b"MSG \xff 1 2\r\n"), Err(FramerError::Utf8)));
}

#[test]
fn bad_header_is_dropped_and_the_next_one_read() {
    let mut framer = Framer::<Small>::new();
    let bytes = b"what?\r\n\xff\r\nMSG too.long.a.topic 1 2\r\nPING\r\n";
    let (frames, _) = read_all(&mut framer, bytes, 1);
    assert_eq!(frames.len(), 4);
    assert!(matches!(frames[0], Err(FramerError::Header)));
    assert!(matches!(frames[1], Err(FramerError::Utf8)));
    assert!(matches!(frames[2], Err(FramerError::Capacity(CapacityError::Str))));
    assert!(matches!(frames[3], Ok(Frame::Ping)));
}

#[test]
fn topic_is_measured_in_bytes() {
    let topic = "\u{e4}".repeat(4);
    let bytes = format!("MSG {} 1 1\r\nx\r\n", topic);
    check_msg(read_one::<Small>(bytes.as_bytes()), &topic, 1, b"x");
    let bytes = format!("MSG {}x 1 1\r\n", topic);
    assert!(matches!(
        read_one::<Small>(bytes.as_bytes()),
        Err(FramerError::Capacity(CapacityError::Str))
    ));
}

#[test]
fn payload_that_does_not_fit_is_an_error() {
    let bytes = b"MSG a 1 16\r\n0123456789abcdef\r\n";
    check_msg(read_one::<Small>(bytes), "a", 1, b"0123456789abcdef");
    let mut framer = Framer::<Small>::new();
    let mut source: &[u8] = b"MSG a 1 17\r\n";
    while !source.is_empty() {
        assert!(matches!(read_once(&mut framer, &mut source, 1), Ok(None)));
    }
    assert!(matches!(
        framer.space::<()>(),
        Err(FramerError::Capacity(CapacityError::Bytes))
    ));
}

#[test]
fn header_that_does_not_fit_is_an_error() {
    let mut framer = Framer::<Small>::new();
    let line = "x".repeat(472);
    let (frames, _) = read_all(&mut framer, line.as_bytes(), 1);
    assert!(frames.is_empty());
    assert!(matches!(
        framer.space::<()>(),
        Err(FramerError::Capacity(CapacityError::Bytes))
    ));
    let mut framer = Framer::<Alloc>::new();
    let (frames, _) = read_all(&mut framer, format!("{}\r\n", line).as_bytes(), 1);
    assert!(matches!(frames[0], Err(FramerError::Header)));
}

#[test]
fn payload_beyond_what_can_be_allocated_is_told_before() {
    let mut framer = Framer::<Alloc>::new();
    let line = format!("MSG a 1 {}\r\n", usize::MAX);
    let (frames, _) = read_all(&mut framer, line.as_bytes(), 1);
    assert!(frames.is_empty());
    assert!(!framer.may_grow());
    let mut framer = Framer::<Small>::new();
    let (frames, _) = read_all(&mut framer, line.as_bytes(), 1);
    assert!(frames.is_empty());
    assert!(framer.may_grow());
    assert!(framer.space::<()>().is_err());
}

#[test]
fn reader_at_its_end_is_an_error() {
    let mut framer = Framer::<Alloc>::new();
    assert!(framer.space::<()>().is_ok());
    assert!(framer.may_frame(0));
    assert!(matches!(
        framer.frame::<&'static str, _>(Ok(0), &decode),
        Err(FramerError::Disconnected)
    ));
    let mut framer = Framer::<Alloc>::new();
    let mut source: &[u8] = b"MSG a 1 4\r\nab";
    while !source.is_empty() {
        assert!(matches!(read_once(&mut framer, &mut source, 2), Ok(None)));
    }
    assert!(matches!(
        read_once(&mut framer, &mut source, 2),
        Err(FramerError::Disconnected)
    ));
}

#[test]
fn reader_that_fails_is_an_error() {
    let mut framer = Framer::<Alloc>::new();
    assert!(framer.space::<()>().is_ok());
    assert!(matches!(
        framer.frame(Err("broken"), &decode),
        Err(FramerError::Read("broken"))
    ));
    let mut framer = Framer::<Alloc>::new();
    let (frames, _) = read_all(&mut framer, b"MSG a 1 4\r\n", 2);
    assert!(frames.is_empty());
    assert!(framer.space::<()>().is_ok());
    assert!(matches!(
        framer.frame(Err("broken"), &decode),
        Err(FramerError::Read("broken"))
    ));
}

#[test]
fn no_more_can_be_read_than_there_was_room_for() {
    let mut framer = Framer::<Alloc>::new();
    assert!(!framer.may_frame(1));
    assert!(framer.space::<()>().is_ok());
    assert!(framer.may_frame(1));
    assert!(!framer.may_frame(2));
    let (frames, _) = read_all(&mut Framer::<Alloc>::new(), b"MSG a 1 4\r\n", 2);
    assert!(frames.is_empty());
    let mut framer = Framer::<Alloc>::new();
    let _ = read_all(&mut framer, b"MSG a 1 4\r\nab", 2);
    assert!(framer.may_frame(2));
    assert!(!framer.may_frame(3));
}

#[test]
fn of_a_row_of_returns_every_other_one_begins_a_delimiter() {
    let mut framer = Framer::<Alloc>::new();
    let (frames, _) = read_all(&mut framer, b"PING\r\r\n", 1);
    assert!(frames.is_empty());
    let (frames, _) = read_all(&mut framer, b"\r\n", 1);
    assert_eq!(frames.len(), 1);
    assert!(matches!(frames[0], Ok(Frame::Ping)));
    let mut framer = Framer::<Alloc>::new();
    let (frames, _) = read_all(&mut framer, b"PING\r\r\r\nPING\r\r\nPING\r\n", 1);
    assert_eq!(frames.len(), 2);
    assert!(matches!(frames[0], Ok(Frame::Ping)));
    assert!(matches!(frames[1], Err(FramerError::Header)));
}

#[test]
fn single_return_or_feed_is_part_of_a_line() {
    assert!(matches!(read_one::<Alloc>(b"PING\n\r\n"), Ok(Frame::Ping)));
    assert!(matches!(read_one::<Alloc>(b"\rPING\r\n"), Ok(Frame::Ping)));
    assert!(matches!(read_one::<Alloc>(b"PI\rNG\r\n"), Err(FramerError::Header)));
}
