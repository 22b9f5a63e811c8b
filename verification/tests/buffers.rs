//! Buffers, numbers and the lines that are written.
use embassy_nats::bounded::{BoundedString, BoundedVec};
use embassy_nats::limits::{max, AUTH_MAX_STR_LEN, DELIM, INFO_MAX_STR_LEN, PKG_NAME, PKG_VERSION};
use embassy_nats::text::{number_is_short, parse_usize, same_text, split_once, trim};
use embassy_nats::wire::{put_connect, put_pong, put_pub, put_sub, put_unsub};
use embassy_nats::{BytesBuf, CapacityError, StrBuf};

fn fill<B: BytesBuf>(buf: &mut B, bytes: &[u8]) {
    assert!(buf.may_extend_by(bytes.len()));
    let added = buf.extend_by(bytes.len()).unwrap();
    assert_eq!(added, vec![0; bytes.len()]);
    added.copy_from_slice(bytes);
}

fn check_bytes<B: BytesBuf>() {
    let mut buf = B::default();
    assert_eq!(buf.len(), 0);
    fill(&mut buf, b"abc");
    fill(&mut buf, b"");
    fill(&mut buf, b"de");
    assert_eq!(buf.as_bytes(), b"abcde");
    assert_eq!(buf.len(), 5);
    buf.truncate(9);
    assert_eq!(buf.as_bytes(), b"abcde");
    buf.truncate(3);
    assert_eq!(buf.as_bytes(), b"abc");
    fill(&mut buf, b"f");
    assert_eq!(buf.as_bytes(), b"abcf");
    buf.clear();
    assert_eq!(buf.as_bytes(), b"");
    assert_eq!(buf.len(), 0);
}

#[test]
fn bytes_on_the_heap() {
    check_bytes::<Vec<u8>>();
    let buf: Vec<u8> = vec![1];
    assert!(buf.may_extend_by(isize::MAX as usize - 1));
    assert!(!buf.may_extend_by(isize::MAX as usize));
    assert!(!buf.may_extend_by(usize::MAX));
}

#[test]
fn bytes_in_place() {
    check_bytes::<BoundedVec<u8, 5>>();
    let mut buf = BoundedVec::<u8, 5>::default();
    fill(&mut buf, b"abc");
    assert!(buf.may_extend_by(usize::MAX));
    assert_eq!(buf.extend_by(3).err(), Some(CapacityError::Bytes));
    assert_eq!(buf.extend_by(usize::MAX).err(), Some(CapacityError::Bytes));
    assert_eq!(buf.as_bytes(), b"abc");
    fill(&mut buf, b"de");
    assert_eq!(buf.as_bytes(), b"abcde");
}

#[test]
fn shortening_undoes_extending() {
    let mut buf = BoundedVec::<u8, 8>::default();
    fill(&mut buf, b"abc");
    fill(&mut buf, b"defgh");
    buf.truncate(3);
    assert_eq!(buf.as_bytes(), b"abc");
}

#[test]
fn text_on_the_heap_and_in_place() {
    let text = <String as StrBuf>::try_from_str("gr\u{fc}n").unwrap();
    assert_eq!(StrBuf::as_str(&text), "gr\u{fc}n");
    let text = BoundedString::<5>::try_from_str("gr\u{fc}n").unwrap();
    assert_eq!(text.as_str(), "gr\u{fc}n");
    assert_eq!(text.clone().as_str(), "gr\u{fc}n");
    assert_eq!(BoundedString::<4>::try_from_str("gr\u{fc}n").err(), Some(CapacityError::Str));
    assert_eq!(BoundedString::<0>::try_from_str("").unwrap().as_str(), "");
}

#[test]
fn numbers_are_read() {
    assert_eq!(parse_usize("0"), Some(0));
    assert_eq!(parse_usize("+12"), Some(12));
    assert_eq!(parse_usize("0012"), Some(12));
    assert_eq!(parse_usize(&usize::MAX.to_string()), Some(usize::MAX));
    assert_eq!(parse_usize("18446744073709551616"), None);
    assert_eq!(parse_usize("99999999999999999999"), None);
    assert_eq!(parse_usize(""), None);
    assert_eq!(parse_usize("+"), None);
    assert_eq!(parse_usize("++1"), None);
    assert_eq!(parse_usize("-1"), None);
    assert_eq!(parse_usize("1 "), None);
    assert_eq!(parse_usize("1a"), None);
    assert_eq!(parse_usize("\u{0661}"), None);
}

#[test]
fn numbers_that_are_written_are_read_back() {
    for n in [0, 7, 10, 4294967295, 9_999_999_999usize] {
        assert!(number_is_short(n));
        let mut out = Vec::new();
        put_unsub(&mut out, n);
        let line = String::from_utf8(out).unwrap();
        let (command, number) = split_once(trim(&line)).unwrap();
        assert_eq!(command, "UNSUB");
        assert_eq!(parse_usize(number), Some(n));
    }
    assert!(!number_is_short(10_000_000_000));
    assert!(!number_is_short(usize::MAX));
}

#[test]
fn text_is_trimmed_and_split() {
    assert_eq!(trim("  a b \t\u{85}"), "a b");
    assert_eq!(trim("\u{2028}\u{1680}"), "");
    assert_eq!(trim(""), "");
    assert_eq!(split_once("a b c"), Some(("a", "b c")));
    assert_eq!(split_once(" b"), Some(("", "b")));
    assert_eq!(split_once("\u{e4} "), Some(("\u{e4}", "")));
    assert_eq!(split_once("a\tb"), None);
    assert!(same_text("MSG", "MSG"));
    assert!(!same_text("MSG", "MSX"));
    assert!(!same_text("MSG", "MSGS"));
}

#[test]
fn lines_are_put_behind_what_is_there() {
    let mut out = b"|".to_vec();
    put_pong(&mut out);
    put_sub(&mut out, "a.b", 12);
    put_unsub(&mut out, 3);
    put_pub(&mut out, "c", b"\r\n");
    put_connect(&mut out, b"{}");
    assert_eq!(
        out,
        b"|PONG\r\nSUB a.b 12\r\nUNSUB 3\r\nPUB c 2\r\n\r\n\r\nCONNECT {}\r\n"
    );
}

#[test]
fn room_for_the_two_long_messages() {
    assert_eq!(AUTH_MAX_STR_LEN, 112 + max(40, 32) + PKG_NAME.len() + PKG_VERSION.len());
    assert_eq!(INFO_MAX_STR_LEN, "INFO ".len() + 145 + 5 * 64 + DELIM.len());
    assert_eq!(DELIM, *b"\r\n");
    assert_eq!(max(1, 2), 2);
    assert_eq!(max(2, 1), 2);
    assert_eq!(max(2, 2), 2);
    let empty = "{\"verbose\":false,\"pedantic\":false,\"tls_required\":false,\"user\":\"\",\
                 \"pass\":\"\",\"lang\":\"rust\",\"name\":\"\",\"version\":\"\"}";
    assert!(empty.len() <= 112);
}
