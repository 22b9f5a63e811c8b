//! A client of the NATS protocol.
//!
//! This crate holds what a client decides, remembers, reads and writes. The connection, the
//! channels between tasks and the JSON of two messages are those of whoever uses it: see
//! [`runner`] for how they fit together.
pub mod auth;
pub mod bounded;
pub mod client;
pub mod collections;
pub mod error;
pub mod framer;
pub mod header;
pub mod json;
pub mod laws;
pub mod limits;
pub mod message;
pub mod runner;
mod sealed;
pub mod steps;
pub mod stream;
pub mod text;
pub mod wire;

pub use auth::{NatsAuthenticator, NoopAuthenticator, TokenAuthenticator, UserPwdAuthenticator};
pub use client::Client;
pub use collections::{Alloc, BytesBuf, Heapless, NatsCollections, StrBuf};
pub use error::CapacityError;
pub use message::{NatsInfoMsg, NatsMsg};
pub use runner::Runner;

use limits::{PKG_NAME, PKG_VERSION, TOKEN_STR_SIZE, USR_PASS_STR_SIZE};
use runner::{RunnerState, State};
use vstd::prelude::*;
use vstd::utf8::encode_utf8;

verus! {

/// A client, and the runner of a connection without credentials.
pub fn new_no_auth<C: NatsCollections, S, R, const N: usize>() -> (r: (
    Client<R, N>,
    Runner<C, NoopAuthenticator, S, N>,
))
    ensures
        r.0@ == Seq::<R>::empty(),
        r.1@ == RunnerState::<S>::fresh(),
        r.1.wf(),
        r.1.auth().presents(),
        r.1@.state == State::Disconnected && r.1@.subs.len() == 0,
        ({
            let auth = r.1.auth();
            &&& !auth.verbose && !auth.pedantic && !auth.tls_required
            &&& auth.lang@ == "rust"@ && auth.name@ == PKG_NAME@ && auth.version@ == PKG_VERSION@
        }),
{
    let auth = NoopAuthenticator::new();
    let runner = Runner::new(auth);
    let client = Client::new();
    (client, runner)
}

/// A client, and the runner of a connection with a user name and a password.
pub fn new_with_user_pwd<C: NatsCollections, S, R, const N: usize>(user: &str, pwd: &str) -> (r:
    Result<(Client<R, N>, Runner<C, UserPwdAuthenticator, S, N>), CapacityError>)
    ensures
        match r {
            Ok((client, runner)) => {
                &&& UserPwdAuthenticator::holds(user@, pwd@)
                &&& client@ == Seq::<R>::empty()
                &&& runner@ == RunnerState::<S>::fresh()
                &&& runner.wf()
                &&& runner.auth().presents(user@, pwd@)
            },
            Err(e) => !UserPwdAuthenticator::holds(user@, pwd@) && e == CapacityError::Str,
        },
        r is Ok <==> encode_utf8(user@).len() <= USR_PASS_STR_SIZE && encode_utf8(pwd@).len()
            <= USR_PASS_STR_SIZE,
        r matches Ok((client, runner)) ==> {
            let auth = runner.auth();
            &&& runner@.state == State::Disconnected && runner@.subs.len() == 0
            &&& auth.user@ == user@
            &&& auth.pass@ == pwd@
            &&& !auth.verbose && !auth.pedantic && !auth.tls_required
            &&& auth.lang@ == "rust"@ && auth.name@ == PKG_NAME@ && auth.version@ == PKG_VERSION@
        },
{
    let auth = match UserPwdAuthenticator::new(user, pwd) {
        Ok(auth) => auth,
        Err(e) => {
            return Err(e);
        },
    };
    let runner = Runner::new(auth);
    let client = Client::new();
    Ok((client, runner))
}

/// A client, and the runner of a connection with a token.
pub fn new_with_auth_token<C: NatsCollections, S, R, const N: usize>(auth_token: &str) -> (r:
    Result<(Client<R, N>, Runner<C, TokenAuthenticator, S, N>), CapacityError>)
    ensures
        match r {
            Ok((client, runner)) => {
                &&& TokenAuthenticator::holds(auth_token@)
                &&& client@ == Seq::<R>::empty()
                &&& runner@ == RunnerState::<S>::fresh()
                &&& runner.wf()
                &&& runner.auth().presents(auth_token@)
            },
            Err(e) => !TokenAuthenticator::holds(auth_token@) && e == CapacityError::Str,
        },
        r is Ok <==> encode_utf8(auth_token@).len() <= TOKEN_STR_SIZE,
        r matches Ok((client, runner)) ==> {
            let auth = runner.auth();
            &&& runner@.state == State::Disconnected && runner@.subs.len() == 0
            &&& auth.token@ == auth_token@
            &&& !auth.verbose && !auth.pedantic && !auth.tls_required
            &&& auth.lang@ == "rust"@ && auth.name@ == PKG_NAME@ && auth.version@ == PKG_VERSION@
        },
{
    let auth = match TokenAuthenticator::new(auth_token) {
        Ok(auth) => auth,
        Err(e) => {
            return Err(e);
        },
    };
    let runner = Runner::new(auth);
    let client = Client::new();
    Ok((client, runner))
}

} // verus!
