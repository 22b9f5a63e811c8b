//! A runner, driven by hand.
use embassy_nats::auth::{NoopAuthenticator, TokenAuthenticator, UserPwdAuthenticator};
use embassy_nats::error::{FramerError, RunnerError};
use embassy_nats::framer::Frame;
use embassy_nats::limits::AUTH_MAX_STR_LEN;
use embassy_nats::message::InternalCmd;
use embassy_nats::runner::{Action, State};
use embassy_nats::steps::Task;
use embassy_nats::{
    new_no_auth, new_with_auth_token, new_with_user_pwd, Alloc, BytesBuf, CapacityError, Client,
    Heapless, NatsCollections, NatsInfoMsg, NatsMsg, Runner, StrBuf,
};
use serde_json_core::de::Error as DeError;
use serde_json_core::ser::Error as SerError;

type Small = Heapless<8, 16>;

type Plain<C> = Runner<C, NoopAuthenticator, char, 2>;

fn decode(_: &str) -> Result<NatsInfoMsg, DeError> {
    let empty = || StrBuf::try_from_str("").unwrap();
    Ok(NatsInfoMsg {
        server_id: StrBuf::try_from_str("server").unwrap(),
        server_name: empty(),
        version: empty(),
        go: empty(),
        host: empty(),
        port: 0,
        headers: false,
        max_payload: 0,
        proto: 0,
    })
}

fn read_frame<C: NatsCollections>(
    runner: &mut Plain<C>,
    bytes: &[u8],
) -> Result<Option<Frame<C>>, RunnerError<()>> {
    let mut rest = bytes;
    loop {
        assert!(runner.may_grow());
        let space = runner.space()?;
        let n = space.len().min(rest.len());
        space[..n].copy_from_slice(&rest[..n]);
        rest = &rest[n..];
        assert!(runner.may_frame(n));
        match runner.frame(Ok(n), &decode)? {
            Some(frame) => return Ok(Some(frame)),
            None => {
                if rest.is_empty() {
                    return Ok(None);
                }
            }
        }
    }
}

fn topic<C: NatsCollections>(text: &str) -> C::Topic {
    C::Topic::try_from_str(text).unwrap()
}

fn subscribe<C: NatsCollections>(runner: &mut Plain<C>, text: &str, channel: char) -> Vec<u8> {
    let cmd = InternalCmd::Sub(topic::<C>(text), channel);
    assert!(runner.may_execute(&cmd));
    runner.execute::<()>(cmd).ok().unwrap()
}

fn data<B: BytesBuf>(bytes: &[u8]) -> B {
    let mut buf = B::default();
    buf.clear();
    buf.extend_by(bytes.len()).unwrap().copy_from_slice(bytes);
    buf
}

fn fresh<C: NatsCollections>() -> Plain<C> {
    let (_, runner): (Client<char, 2>, Plain<C>) = new_no_auth();
    runner
}

fn connect<C: NatsCollections>(runner: &mut Plain<C>, json: &[u8]) -> Vec<u8> {
    let mut body = C::AuthBuf::default();
    let space = Plain::<C>::connect_space::<()>(&mut body).ok().unwrap();
    assert_eq!(space.len(), AUTH_MAX_STR_LEN);
    space[..json.len()].copy_from_slice(json);
    let out = runner.connect::<()>(body, Ok(json.len())).ok().unwrap();
    assert!(runner.connected::<()>(Ok(())).is_ok());
    out
}

#[test]
fn runner_starts_without_a_connection() {
    let runner = fresh::<Alloc>();
    assert_eq!(runner.state(), State::Disconnected);
}

#[test]
fn attempt_to_connect_that_fails_changes_nothing() {
    let mut runner = fresh::<Alloc>();
    runner.try_connect(false);
    assert_eq!(runner.state(), State::Disconnected);
    runner.try_connect(true);
    assert_eq!(runner.state(), State::Authenticating);
}

#[test]
fn new_connection_begins_with_a_new_frame() {
    let mut runner = fresh::<Alloc>();
    runner.try_connect(true);
    assert!(matches!(read_frame(&mut runner, b"INF"), Ok(None)));
    runner.disconnect();
    assert_eq!(runner.state(), State::Disconnected);
    runner.try_connect(true);
    assert!(matches!(read_frame(&mut runner, b"PING\r\n"), Ok(Some(Frame::Ping))));
}

#[test]
fn state_tells_what_is_to_be_done() {
    let mut runner = fresh::<Small>();
    assert_eq!(runner.task(), Task::Connect);
    runner.try_connect(true);
    assert_eq!(runner.task(), Task::Read);
    connect(&mut runner, b"{}");
    assert_eq!(runner.task(), Task::ReadOrExecute);
    runner.disconnect();
    assert_eq!(runner.task(), Task::Connect);
}

#[test]
fn connection_stands_only_after_an_answered_info() {
    let mut runner = fresh::<Small>();
    for frame in ["PING\r\n", "+OK\r\n", "MSG a 0 1\r\nx", "\r\n", "INFO {}\r\n"] {
        runner.try_connect(true);
        let frame = read_frame(&mut runner, frame.as_bytes()).ok().unwrap();
        let _ = runner.read(frame);
        assert!(!runner.run_auth_step::<()>(Ok(())));
        assert_eq!(runner.state(), State::Authenticating);
    }
    subscribe(&mut runner, "a", 'x');
    assert!(runner.run_auth_step(runner_error()));
    assert_eq!(runner.state(), State::Disconnected);
    assert!(!runner.run_connected::<()>(Ok(())));
    assert_eq!(runner.state(), State::Disconnected);
    runner.try_connect(true);
    assert!(runner.connected(Err(())).is_err());
    assert_eq!(runner.state(), State::Authenticating);
    connect(&mut runner, b"{}");
    assert_eq!(runner.state(), State::Connected);
    assert_eq!(*runner.channel(0), 'x');
}

fn runner_error() -> Result<(), RunnerError<()>> {
    Err(RunnerError::Write(()))
}

#[test]
fn ping_is_answered() {
    let mut runner = fresh::<Alloc>();
    let frame = read_frame(&mut runner, b"PING\r\n").ok().unwrap();
    assert!(runner.may_read(&frame));
    match runner.read(frame) {
        Action::Write(bytes) => assert_eq!(bytes, b"PONG\r\n"),
        _ => panic!("no answer"),
    }
}

#[test]
fn acknowledgement_and_no_frame_need_nothing() {
    let mut runner = fresh::<Alloc>();
    assert!(runner.may_read(&None));
    assert!(matches!(runner.read(None), Action::Nothing));
    assert!(matches!(runner.read(Some(Frame::ServerOk)), Action::Nothing));
}

#[test]
fn error_of_the_server_ends_the_connection() {
    let mut runner = fresh::<Alloc>();
    runner.try_connect(true);
    assert!(matches!(runner.read(Some(Frame::ServerErr)), Action::Abort));
    assert_eq!(runner.state(), State::Disconnected);
}

#[test]
fn info_is_answered_with_connect() {
    let mut runner = fresh::<Small>();
    runner.try_connect(true);
    let frame = read_frame(&mut runner, b"INFO {}\r\n").ok().unwrap();
    match runner.read(frame) {
        Action::Connect(info) => assert_eq!(info.server_id.as_str(), "server"),
        _ => panic!("no CONNECT"),
    }
    assert_eq!(runner.state(), State::Authenticating);
    assert_eq!(connect(&mut runner, b"{\"lang\":\"rust\"}"), b"CONNECT {\"lang\":\"rust\"}\r\n");
    assert_eq!(runner.state(), State::Connected);
}

#[test]
fn body_that_is_longer_than_its_buffer_is_taken_whole() {
    let runner = fresh::<Alloc>();
    let body = data::<Vec<u8>>(b"{}");
    let out = runner.connect::<()>(body, Ok(99)).ok().unwrap();
    assert_eq!(out, b"CONNECT {}\r\n");
}

#[test]
fn connect_that_cannot_be_made_or_written_is_an_error() {
    let mut runner = fresh::<Small>();
    runner.try_connect(true);
    let body = Default::default();
    assert!(matches!(
        runner.connect::<()>(body, Err(SerError::BufferFull)),
        Err(RunnerError::Ser(SerError::BufferFull))
    ));
    assert!(matches!(runner.connected(Err("broken")), Err(RunnerError::Write("broken"))));
    assert_eq!(runner.state(), State::Authenticating);
    let mut body: <Small as NatsCollections>::AuthBuf = data(b"x");
    assert!(matches!(
        Plain::<Small>::connect_space::<()>(&mut body),
        Err(RunnerError::Capacity(CapacityError::Bytes))
    ));
    assert_eq!(body.as_bytes(), b"x");
}

#[test]
fn subscriptions_are_numbered_in_their_order() {
    let mut runner = fresh::<Small>();
    assert_eq!(subscribe(&mut runner, "a.b", 'x'), b"SUB a.b 0\r\n");
    assert_eq!(subscribe(&mut runner, "c", 'y'), b"SUB c 1\r\n");
    assert_eq!(*runner.channel(0), 'x');
    assert_eq!(*runner.channel(1), 'y');
    let cmd = InternalCmd::Sub(topic::<Small>("d"), 'z');
    assert!(runner.may_execute(&cmd));
    assert!(matches!(
        runner.execute::<()>(cmd),
        Err(RunnerError::Capacity(CapacityError::Subscriptions))
    ));
}

#[test]
fn message_goes_to_its_subscription() {
    let mut runner = fresh::<Small>();
    subscribe(&mut runner, "a", 'x');
    subscribe(&mut runner, "b", 'y');
    let frame = read_frame(&mut runner, b"MSG b 1 2\r\nhi").ok().unwrap();
    assert!(runner.may_read(&frame));
    match runner.read(frame) {
        Action::Deliver { slot, msg } => {
            assert_eq!(slot, 1);
            assert_eq!(*runner.channel(slot), 'y');
            assert_eq!(msg.topic.as_str(), "b");
            assert_eq!(msg.data.as_bytes(), b"hi");
        }
        _ => panic!("not delivered"),
    }
}

#[test]
fn message_without_a_subscription_is_unsubscribed() {
    let mut runner = fresh::<Small>();
    subscribe(&mut runner, "a", 'x');
    let frame = read_frame(&mut runner, b"MSG b 17 2\r\nhi").ok().unwrap();
    assert!(runner.may_read(&frame));
    match runner.read(frame) {
        Action::Write(bytes) => assert_eq!(bytes, b"UNSUB 17\r\n"),
        _ => panic!("not unsubscribed"),
    }
}

#[test]
fn number_too_long_for_the_wire_is_told_before() {
    let runner = fresh::<Alloc>();
    let msg = |sid| Some(Frame::Msg(NatsMsg { sid, topic: String::new(), data: Vec::new() }));
    assert!(runner.may_read(&msg(9_999_999_999)));
    assert!(!runner.may_read(&msg(10_000_000_000)));
}

#[test]
fn subscriptions_are_repeated_on_a_new_connection() {
    let mut runner = fresh::<Small>();
    let first = subscribe(&mut runner, "a", 'x');
    let second = subscribe(&mut runner, "b", 'y');
    runner.try_connect(true);
    let mut expected = b"CONNECT {}\r\n".to_vec();
    expected.extend(first);
    expected.extend(second);
    assert_eq!(connect(&mut runner, b"{}"), expected);
    runner.disconnect();
    runner.try_connect(true);
    assert_eq!(connect(&mut runner, b"{}"), b"CONNECT {}\r\nSUB a 0\r\nSUB b 1\r\n");
}

#[test]
fn payload_is_published() {
    let mut runner = fresh::<Small>();
    let cmd = InternalCmd::Pub(topic::<Small>("a.b"), data(b"0123456789"));
    assert!(runner.may_execute(&cmd));
    let out = runner.execute::<()>(cmd).ok().unwrap();
    assert_eq!(out, b"PUB a.b 10\r\n0123456789\r\n");
    let cmd = InternalCmd::Pub(topic::<Alloc>("\u{e4}"), Vec::new());
    let out = fresh::<Alloc>().execute::<()>(cmd).ok().unwrap();
    assert_eq!(out, "PUB \u{e4} 0\r\n\r\n".as_bytes());
}

#[test]
fn lines_can_be_made_without_a_runner() {
    assert_eq!(
        Plain::<Small>::subscribe(4294967295, &topic::<Small>("a")),
        b"SUB a 4294967295\r\n"
    );
    assert_eq!(Plain::<Alloc>::unsubscribe(0), b"UNSUB 0\r\n");
    assert_eq!(
        Plain::<Alloc>::publish(&topic::<Alloc>("a"), &b"x".to_vec()),
        b"PUB a 1\r\nx\r\n"
    );
}

fn after(outcome: Result<(), RunnerError<()>>) -> (bool, State, bool) {
    let mut runner = fresh::<Small>();
    subscribe(&mut runner, "a", 'x');
    runner.try_connect(true);
    connect(&mut runner, b"{}");
    assert!(matches!(read_frame(&mut runner, b"PI"), Ok(None)));
    let abort = runner.run_connected(outcome);
    let kept = matches!(read_frame(&mut runner, b"NG\r\n"), Ok(Some(Frame::Ping)));
    assert_eq!(*runner.channel(0), 'x');
    (abort, runner.state(), kept)
}

#[test]
fn step_that_succeeds_changes_nothing() {
    assert_eq!(after(Ok(())), (false, State::Connected, true));
}

#[test]
fn frame_that_is_not_understood_leaves_the_connection() {
    let begun_anew = (false, State::Connected, false);
    assert_eq!(after(Err(RunnerError::Framer(FramerError::Header))), begun_anew);
    assert_eq!(after(Err(RunnerError::Framer(FramerError::Utf8))), begun_anew);
    assert_eq!(
        after(Err(RunnerError::Framer(FramerError::Capacity(CapacityError::Bytes)))),
        begun_anew
    );
    assert_eq!(
        after(Err(RunnerError::Framer(FramerError::Deser(DeError::InvalidType)))),
        begun_anew
    );
}

#[test]
fn every_other_error_ends_the_connection() {
    let ended = (true, State::Disconnected, true);
    assert_eq!(after(Err(RunnerError::Framer(FramerError::Disconnected))), ended);
    assert_eq!(after(Err(RunnerError::Framer(FramerError::Read(())))), ended);
    assert_eq!(after(Err(RunnerError::Write(()))), ended);
    assert_eq!(after(Err(RunnerError::Ser(SerError::BufferFull))), ended);
    assert_eq!(after(Err(RunnerError::Capacity(CapacityError::Subscriptions))), ended);
}

#[test]
fn every_error_ends_a_connection_that_is_being_established() {
    let mut runner = fresh::<Alloc>();
    runner.try_connect(true);
    assert!(!runner.run_auth_step::<()>(Ok(())));
    assert_eq!(runner.state(), State::Authenticating);
    assert!(runner.run_auth_step::<()>(Err(RunnerError::Framer(FramerError::Header))));
    assert_eq!(runner.state(), State::Disconnected);
}

#[test]
fn errors_of_reading_are_passed_on() {
    let mut runner = fresh::<Alloc>();
    assert!(matches!(
        read_frame(&mut runner, b"what?\r\n"),
        Err(RunnerError::Framer(FramerError::Header))
    ));
    assert!(runner.space::<()>().is_ok());
    assert!(matches!(
        runner.frame(Err("broken"), &decode),
        Err(RunnerError::Framer(FramerError::Read("broken")))
    ));
    let mut runner = fresh::<Small>();
    assert!(matches!(read_frame(&mut runner, b"MSG a 0 17\r\n"), Ok(None)));
    assert!(matches!(
        runner.space::<()>(),
        Err(RunnerError::Framer(FramerError::Capacity(CapacityError::Bytes)))
    ));
}

#[test]
fn client_without_credentials_says_the_usual() {
    let runner = fresh::<Alloc>();
    let auth = runner.authenticator();
    assert!(!auth.verbose && !auth.pedantic && !auth.tls_required);
    assert_eq!(auth.lang, "rust");
    assert_eq!(auth.name, "embassy-nats");
    assert_eq!(auth.version, "0.1.0");
}

#[test]
fn client_with_a_password_says_it() {
    let long = "x".repeat(20);
    let made: Result<(Client<char, 2>, Runner<Alloc, UserPwdAuthenticator, char, 2>), _> =
        new_with_user_pwd("user", &long);
    let (client, runner) = made.ok().unwrap();
    assert!(client.receivers().is_empty());
    assert_eq!(runner.state(), State::Disconnected);
    let auth = runner.authenticator();
    assert_eq!(auth.user.as_str(), "user");
    assert_eq!(auth.pass.as_str(), long);
    assert!(!auth.verbose && !auth.pedantic && !auth.tls_required);
    assert_eq!((auth.lang, auth.name, auth.version), ("rust", "embassy-nats", "0.1.0"));
}

#[test]
fn client_with_a_token_says_it() {
    let long = "x".repeat(32);
    let made: Result<(Client<char, 2>, Runner<Alloc, TokenAuthenticator, char, 2>), _> =
        new_with_auth_token(&long);
    let (client, runner) = made.ok().unwrap();
    assert!(client.receivers().is_empty());
    assert_eq!(runner.state(), State::Disconnected);
    let auth = runner.authenticator();
    assert_eq!(auth.token.as_str(), long);
    assert!(!auth.verbose && !auth.pedantic && !auth.tls_required);
    assert_eq!((auth.lang, auth.name, auth.version), ("rust", "embassy-nats", "0.1.0"));
}

#[test]
fn credentials_that_are_too_long_are_refused() {
    let long = "x".repeat(21);
    assert_eq!(UserPwdAuthenticator::new(&long, "pwd").err(), Some(CapacityError::Str));
    assert_eq!(UserPwdAuthenticator::new("user", &long).err(), Some(CapacityError::Str));
    assert_eq!(TokenAuthenticator::new(&"x".repeat(33)).err(), Some(CapacityError::Str));
    assert_eq!(TokenAuthenticator::new(&"\u{e4}".repeat(17)).err(), Some(CapacityError::Str));
    let made: Result<(Client<char, 2>, Runner<Alloc, UserPwdAuthenticator, char, 2>), _> =
        new_with_user_pwd("user", &long);
    assert_eq!(made.err(), Some(CapacityError::Str));
    let made: Result<(Client<char, 2>, Runner<Alloc, TokenAuthenticator, char, 2>), _> =
        new_with_auth_token(&"x".repeat(33));
    assert_eq!(made.err(), Some(CapacityError::Str));
}
