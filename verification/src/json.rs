//! The JSON of INFO and CONNECT messages: one object without white space.
//!
//! The JSON itself is read and written elsewhere. What is said here serves to tell how long it gets.
use vstd::prelude::*;

use crate::auth::{NoopAuthenticator, TokenAuthenticator, UserPwdAuthenticator};
use crate::bounded::BoundedString;
use crate::collections::StrBuf;
use crate::limits::INFO_METADATA_STR_SIZE;
use crate::message::NatsInfoMsg;
use crate::text::decimal;

verus! {

/// Whether a text stands in JSON as it is: there is nothing in it to escape.
pub open spec fn is_plain(text: Seq<char>) -> bool {
    forall|i: int|
        0 <= i < text.len() ==> #[trigger] text[i] >= ' ' && text[i] != '"' && text[i] != '\\'
}

/// A plain text in JSON.
pub open spec fn quoted(text: Seq<char>) -> Seq<char> {
    seq!['"'] + text + seq!['"']
}

/// A number in JSON.
pub open spec fn signed(n: int) -> Seq<char> {
    if n < 0 {
        seq!['-'] + decimal((-n) as nat)
    } else {
        decimal(n as nat)
    }
}

/// A truth value in JSON.
pub open spec fn truth(b: bool) -> Seq<char> {
    if b {
        "true"@
    } else {
        "false"@
    }
}

/// A member of an object.
pub open spec fn member(key: Seq<char>, value: Seq<char>) -> Seq<char> {
    quoted(key) + seq![':'] + value
}

/// The members of an object with a comma between any two.
pub open spec fn listed(members: Seq<Seq<char>>) -> Seq<char>
    decreases members.len(),
{
    if members.len() == 0 {
        Seq::empty()
    } else if members.len() == 1 {
        members[0]
    } else {
        listed(members.drop_last()) + seq![','] + members.last()
    }
}

/// An object.
pub open spec fn object(members: Seq<Seq<char>>) -> Seq<char> {
    seq!['{'] + listed(members) + seq!['}']
}

/// The members of an INFO message.
pub open spec fn info_members(info: NatsInfoMsg) -> Seq<Seq<char>> {
    seq![
        member("server_id"@, quoted(info.server_id@)),
        member("server_name"@, quoted(info.server_name@)),
        member("version"@, quoted(info.version@)),
        member("go"@, quoted(info.go@)),
        member("host"@, quoted(info.host@)),
        member("port"@, signed(info.port as int)),
        member("headers"@, truth(info.headers)),
        member("max_payload"@, signed(info.max_payload as int)),
        member("proto"@, signed(info.proto as int)),
    ]
}

/// The body of an INFO message.
pub open spec fn info_json(info: NatsInfoMsg) -> Seq<char> {
    object(info_members(info))
}

/// Whether every string of an INFO message is one that its buffer can hold, with nothing to escape.
pub open spec fn is_plain_info(info: NatsInfoMsg) -> bool {
    &&& is_plain_metadata(info.server_id@)
    &&& is_plain_metadata(info.server_name@)
    &&& is_plain_metadata(info.version@)
    &&& is_plain_metadata(info.go@)
    &&& is_plain_metadata(info.host@)
}

/// Whether a text is one that the buffer of a string of an INFO message can hold, with nothing to
/// escape.
pub open spec fn is_plain_metadata(text: Seq<char>) -> bool {
    is_plain(text) && BoundedString::<INFO_METADATA_STR_SIZE>::holds(text)
}

/// The body of a CONNECT message without credentials.
pub open spec fn noop_json(auth: NoopAuthenticator) -> Seq<char> {
    object(
        seq![
            member("verbose"@, truth(auth.verbose)),
            member("pedantic"@, truth(auth.pedantic)),
            member("tls_required"@, truth(auth.tls_required)),
            member("lang"@, quoted(auth.lang@)),
            member("name"@, quoted(auth.name@)),
            member("version"@, quoted(auth.version@)),
        ],
    )
}

/// The body of a CONNECT message with a user name and a password.
pub open spec fn user_pwd_json(auth: UserPwdAuthenticator) -> Seq<char> {
    object(
        seq![
            member("verbose"@, truth(auth.verbose)),
            member("pedantic"@, truth(auth.pedantic)),
            member("tls_required"@, truth(auth.tls_required)),
            member("user"@, quoted(auth.user@)),
            member("pass"@, quoted(auth.pass@)),
            member("lang"@, quoted(auth.lang@)),
            member("name"@, quoted(auth.name@)),
            member("version"@, quoted(auth.version@)),
        ],
    )
}

/// The body of a CONNECT message with a token.
pub open spec fn token_json(auth: TokenAuthenticator) -> Seq<char> {
    object(
        seq![
            member("verbose"@, truth(auth.verbose)),
            member("pedantic"@, truth(auth.pedantic)),
            member("tls_required"@, truth(auth.tls_required)),
            member("token"@, quoted(auth.token@)),
            member("lang"@, quoted(auth.lang@)),
            member("name"@, quoted(auth.name@)),
            member("version"@, quoted(auth.version@)),
        ],
    )
}

} // verus!
