//! Whole streams, cut in many ways, and messages as long as they get.
use embassy_nats::auth::{NoopAuthenticator, TokenAuthenticator, UserPwdAuthenticator};
use embassy_nats::error::FramerError;
use embassy_nats::framer::{Frame, Framer};
use embassy_nats::limits::{AUTH_MAX_STR_LEN, INFO_MAX_STR_LEN};
use embassy_nats::{Alloc, BytesBuf, Heapless, NatsCollections, NatsInfoMsg, StrBuf};
use serde::ser::SerializeStruct;
use serde::{Serialize, Serializer};
use serde_json_core::de::Error as DeError;

type Small = Heapless<8, 16>;

struct Info<'a> {
    text: &'a str,
    number: i32,
}

impl Serialize for Info<'_> {
    fn serialize<S: Serializer>(&self, serializer: S) -> Result<S::Ok, S::Error> {
        let mut s = serializer.serialize_struct("Info", 9)?;
        s.serialize_field("server_id", self.text)?;
        s.serialize_field("server_name", self.text)?;
        s.serialize_field("version", self.text)?;
        s.serialize_field("go", self.text)?;
        s.serialize_field("host", self.text)?;
        s.serialize_field("port", &self.number)?;
        s.serialize_field("headers", &false)?;
        s.serialize_field("max_payload", &self.number)?;
        s.serialize_field("proto", &self.number)?;
        s.end()
    }
}

/// The body of a CONNECT message with these credentials.
struct Connect<'a> {
    verbose: bool,
    pedantic: bool,
    tls_required: bool,
    credentials: Vec<(&'static str, &'a str)>,
    lang: &'a str,
    name: &'a str,
    version: &'a str,
}

impl Serialize for Connect<'_> {
    fn serialize<S: Serializer>(&self, serializer: S) -> Result<S::Ok, S::Error> {
        let mut s = serializer.serialize_struct("Connect", 6 + self.credentials.len())?;
        s.serialize_field("verbose", &self.verbose)?;
        s.serialize_field("pedantic", &self.pedantic)?;
        s.serialize_field("tls_required", &self.tls_required)?;
        for (key, value) in &self.credentials {
            s.serialize_field(key, value)?;
        }
        s.serialize_field("lang", self.lang)?;
        s.serialize_field("name", self.name)?;
        s.serialize_field("version", self.version)?;
        s.end()
    }
}

fn json<T: Serialize>(value: &T, room: usize) -> Option<String> {
    let mut buf = vec![0; room];
    let n = serde_json_core::to_slice(value, &mut buf).ok()?;
    buf.truncate(n);
    Some(String::from_utf8(buf).unwrap())
}

fn decode(text: &str) -> Result<NatsInfoMsg, DeError> {
    let length = text.len().to_string();
    let empty = || StrBuf::try_from_str("").unwrap();
    Ok(NatsInfoMsg {
        server_id: StrBuf::try_from_str(&length).unwrap(),
        server_name: empty(),
        version: empty(),
        go: empty(),
        host: empty(),
        port: 0,
        headers: false,
        max_payload: 0,
        proto: 0,
    })
}

fn described<C: NatsCollections>(outcome: Result<Frame<C>, FramerError<()>>) -> String {
    match outcome {
        Ok(Frame::Ping) => "ping".to_string(),
        Ok(Frame::Info(info)) => format!("info {}", info.server_id.as_str()),
        Ok(Frame::ServerErr) => "err".to_string(),
        Ok(Frame::ServerOk) => "ok".to_string(),
        Ok(Frame::Msg(msg)) => {
            format!("msg {} {} {:?}", msg.topic.as_str(), msg.sid, msg.data.as_bytes())
        }
        Err(e) => format!("{:?}", e),
    }
}

/// What comes to light of a stream, each with the number of bytes that were read by then. The cuts
/// are used in turn.
fn seen<C: NatsCollections>(bytes: &[u8], cuts: &[usize]) -> Vec<(String, usize)> {
    let mut framer = Framer::<C>::new();
    let mut pos = 0;
    let mut turn = 0;
    let mut seen = Vec::new();
    while pos < bytes.len() {
        assert!(framer.may_grow());
        let outcome = match framer.space() {
            Ok(space) => {
                let n = space.len().min(bytes.len() - pos).min(cuts[turn % cuts.len()]);
                turn += 1;
                space[..n].copy_from_slice(&bytes[pos..pos + n]);
                pos += n;
                assert!(framer.may_frame(n));
                framer.frame(Ok(n), &decode)
            }
            Err(e) => {
                framer = Framer::new();
                Err(e)
            }
        };
        match outcome {
            Ok(None) => (),
            Ok(Some(frame)) => seen.push((described(Ok(frame)), pos)),
            Err(e) => seen.push((described::<C>(Err(e)), pos)),
        }
    }
    seen
}

const STREAM: &[u8] = b"INFO {}\r\nPING\r\nMSG a 1 0\r\n\r\nMSG b.c 2 r 7\r\n\r\n12\r\n3\r\n+OK\r\n\
    what?\r\n\xff\r\nMSG far.too.long 3 0\r\nMSG d 4 16\r\n0123456789abcdef\r\n-ERR 'x'\r\n";

#[test]
fn cut_of_a_stream_does_not_matter() {
    let expected = seen::<Small>(STREAM, &[1]);
    assert_eq!(expected.len(), 10);
    for cuts in [
        &[2][..],
        &[3],
        &[100],
        &[1, 2, 3],
        &[5, 1, 4, 2],
        &[7, 7, 1],
        &[16, 1],
    ] {
        assert_eq!(seen::<Small>(STREAM, cuts), expected);
    }
    let expected = seen::<Alloc>(STREAM, &[1]);
    assert_eq!(seen::<Alloc>(STREAM, &[4, 3, 2, 1]), expected);
}

#[test]
fn frame_ends_where_reading_ends() {
    let ends: Vec<usize> = seen::<Small>(STREAM, &[100]).iter().map(|(_, end)| *end).collect();
    let end_of = |part: &[u8]| {
        let at = STREAM.windows(part.len()).position(|w| w == part).unwrap();
        at + part.len()
    };
    assert_eq!(
        ends,
        [
            end_of(b"INFO {}\r\n"),
            end_of(b"PING\r\n"),
            end_of(b"MSG a 1 0\r\n"),
            end_of(b"\r\n12\r\n3"),
            end_of(b"+OK\r\n"),
            end_of(b"what?\r\n"),
            end_of(b"\xff\r\n"),
            end_of(b"long 3 0\r\n"),
            end_of(b"0123456789abcdef"),
            end_of(b"-ERR 'x'\r\n"),
        ]
    );
}

#[test]
fn framer_in_place_never_gets_stuck() {
    let mut noise: u32 = 1;
    let alphabet = b"MSGPIN 019\r\r\n\n\xc3\xa4\xff";
    let mut bytes = Vec::new();
    for _ in 0..20000 {
        noise = noise.wrapping_mul(1664525).wrapping_add(1013904223);
        bytes.push(alphabet[(noise >> 16) as usize % alphabet.len()]);
    }
    assert!(!seen::<Small>(&bytes, &[1, 5, 2]).is_empty());
    assert!(!seen::<Small>(&[b'x'; 2000], &[1]).is_empty());
}

#[test]
fn longest_info_line_fits_its_buffer() {
    let text = "\u{e4}".repeat(32);
    let body = json(&Info { text: &text, number: i32::MIN }, 1000).unwrap();
    let line = format!("INFO {}\r\n", body);
    assert_eq!(line.len(), INFO_MAX_STR_LEN);
    let expected = vec![("info 465".to_string(), INFO_MAX_STR_LEN)];
    assert_eq!(seen::<Small>(line.as_bytes(), &[1]), expected);
    assert_eq!(json(&Info { text: "", number: i32::MIN }, 1000).unwrap().len(), 145);
}

#[test]
fn longest_connect_body_fits_its_buffer() {
    let long = "x".repeat(20);
    let auth = UserPwdAuthenticator::new(&long, &long).unwrap();
    let body = Connect {
        verbose: auth.verbose,
        pedantic: auth.pedantic,
        tls_required: auth.tls_required,
        credentials: vec![("user", auth.user.as_str()), ("pass", auth.pass.as_str())],
        lang: auth.lang,
        name: auth.name,
        version: auth.version,
    };
    let text = json(&body, AUTH_MAX_STR_LEN).unwrap();
    assert_eq!(text.len(), AUTH_MAX_STR_LEN);
    assert_eq!(
        text,
        format!(
            "{{\"verbose\":false,\"pedantic\":false,\"tls_required\":false,\"user\":\"{0}\",\
             \"pass\":\"{0}\",\"lang\":\"rust\",\"name\":\"embassy-nats\",\"version\":\"0.1.0\"}}",
            long
        )
    );
}

#[test]
fn shorter_connect_bodies_fit_their_buffer() {
    let auth = NoopAuthenticator::new();
    let body = Connect {
        verbose: auth.verbose,
        pedantic: auth.pedantic,
        tls_required: auth.tls_required,
        credentials: vec![],
        lang: auth.lang,
        name: auth.name,
        version: auth.version,
    };
    assert_eq!(json(&body, AUTH_MAX_STR_LEN).unwrap().len(), 92 + 12 + 5);
    let auth = TokenAuthenticator::new(&"x".repeat(32)).unwrap();
    let body = Connect {
        verbose: auth.verbose,
        pedantic: auth.pedantic,
        tls_required: auth.tls_required,
        credentials: vec![("token", auth.token.as_str())],
        lang: auth.lang,
        name: auth.name,
        version: auth.version,
    };
    assert_eq!(json(&body, AUTH_MAX_STR_LEN).unwrap().len(), 103 + 32 + 12 + 5);
}

#[test]
fn credentials_to_escape_may_not_fit() {
    let long = "\"".repeat(20);
    let auth = UserPwdAuthenticator::new(&long, &long).unwrap();
    let body = Connect {
        verbose: false,
        pedantic: false,
        tls_required: false,
        credentials: vec![("user", auth.user.as_str()), ("pass", auth.pass.as_str())],
        lang: auth.lang,
        name: auth.name,
        version: auth.version,
    };
    assert!(json(&body, AUTH_MAX_STR_LEN).is_none());
    assert!(json(&body, AUTH_MAX_STR_LEN + 40).is_some());
}
