//! Names and sizes that the rest of the crate is built on.
//!
//! The sizes are upper bounds for the strings in CONNECT and INFO messages, sane but arbitrary.
use vstd::prelude::*;
use vstd::utf8::{encode_utf8, is_ascii_chars, is_ascii_chars_encode_utf8};

verus! {

/// The name under which this client presents itself to a server.
pub const PKG_NAME: &'static str = "embassy-nats";

/// The version that this client presents to a server.
pub const PKG_VERSION: &'static str = "0.1.0";

/// The most bytes that a user name or a password may have.
pub const USR_PASS_STR_SIZE: usize = 20;

/// The most bytes that an authentication token may have.
pub const TOKEN_STR_SIZE: usize = 32;

/// The most bytes that a string in an INFO message may have. A server's id and name have up to 56.
pub const INFO_METADATA_STR_SIZE: usize = 64;

/// The bytes that end every line of the protocol.
pub const DELIM: [u8; 2] = [13, 10];

/// The bytes that end every line of the protocol: a carriage return and a line feed.
pub open spec fn delimiter() -> Seq<u8> {
    seq![13u8, 10u8]
}

/// The room for the body of a CONNECT message: 112 bytes for a user name and a password with every
/// string empty, and then the strings. Two of `USR_PASS_STR_SIZE` bytes are longer than a token;
/// the last two numbers are the lengths of `PKG_NAME` and of `PKG_VERSION`.
pub const AUTH_MAX_STR_LEN: usize = 112 + USR_PASS_STR_SIZE * 2 + 12 + 5;

/// The room for an INFO message: the command and a space, 145 bytes for a body with every string
/// empty, five strings, and the delimiter. The buffer for every other header has this size too.
pub const INFO_MAX_STR_LEN: usize = 5 + 145 + 5 * INFO_METADATA_STR_SIZE + 2;

/// The larger of two numbers.
pub open spec fn larger(a: int, b: int) -> int {
    if a > b {
        a
    } else {
        b
    }
}

/// The larger of two numbers.
pub fn max(a: usize, b: usize) -> (m: usize)
    ensures
        m == larger(a as int, b as int),
        m >= a && m >= b && (m == a || m == b),
{
    if a > b {
        a
    } else {
        b
    }
}

/// The room for a CONNECT message is the base, the longer of the two sets of credentials, and the
/// name and the version of this client.
pub proof fn auth_room_adds_up()
    ensures
        AUTH_MAX_STR_LEN == 112 + larger(USR_PASS_STR_SIZE * 2, TOKEN_STR_SIZE as int)
            + encode_utf8(PKG_NAME@).len() + encode_utf8(PKG_VERSION@).len(),
{
    reveal_strlit("embassy-nats");
    reveal_strlit("0.1.0");
    assert(is_ascii_chars(PKG_NAME@));
    assert(is_ascii_chars(PKG_VERSION@));
    is_ascii_chars_encode_utf8(PKG_NAME@);
    is_ascii_chars_encode_utf8(PKG_VERSION@);
}

} // verus!
