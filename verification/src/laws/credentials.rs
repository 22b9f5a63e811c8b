//! What a client presents to a server.
use vstd::prelude::*;
use vstd::utf8::encode_utf8;

use crate::auth::{NoopAuthenticator, TokenAuthenticator, UserPwdAuthenticator};
use crate::json::{member, noop_json, object, quoted, token_json, truth, user_pwd_json};
use crate::limits::{PKG_NAME, PKG_VERSION, TOKEN_STR_SIZE, USR_PASS_STR_SIZE};

verus! {

/// A client that presents a user name and a password presents them as they are, each as what it is,
/// and sends them so.
pub proof fn user_name_and_password_are_presented(
    auth: UserPwdAuthenticator,
    user: Seq<char>,
    pwd: Seq<char>,
)
    requires
        auth.presents(user, pwd),
    ensures
        auth.user@ == user,
        auth.pass@ == pwd,
        user_pwd_json(auth) == object(
            seq![
                member("verbose"@, truth(false)),
                member("pedantic"@, truth(false)),
                member("tls_required"@, truth(false)),
                member("user"@, quoted(user)),
                member("pass"@, quoted(pwd)),
                member("lang"@, quoted("rust"@)),
                member("name"@, quoted(PKG_NAME@)),
                member("version"@, quoted(PKG_VERSION@)),
            ],
        ),
{
}

/// A client that presents a token presents it as it is, and sends it so.
pub proof fn token_is_presented(auth: TokenAuthenticator, token: Seq<char>)
    requires
        auth.presents(token),
    ensures
        auth.token@ == token,
        token_json(auth) == object(
            seq![
                member("verbose"@, truth(false)),
                member("pedantic"@, truth(false)),
                member("tls_required"@, truth(false)),
                member("token"@, quoted(token)),
                member("lang"@, quoted("rust"@)),
                member("name"@, quoted(PKG_NAME@)),
                member("version"@, quoted(PKG_VERSION@)),
            ],
        ),
{
}

/// A client without credentials presents its language, its name and its version.
pub proof fn name_is_presented(auth: NoopAuthenticator)
    requires
        auth.presents(),
    ensures
        noop_json(auth) == object(
            seq![
                member("verbose"@, truth(false)),
                member("pedantic"@, truth(false)),
                member("tls_required"@, truth(false)),
                member("lang"@, quoted("rust"@)),
                member("name"@, quoted(PKG_NAME@)),
                member("version"@, quoted(PKG_VERSION@)),
            ],
        ),
{
}

/// Credentials are short enough where they take no more bytes than there is room for, each by itself.
pub proof fn credentials_are_measured_in_bytes(user: Seq<char>, pwd: Seq<char>, token: Seq<char>)
    ensures
        UserPwdAuthenticator::holds(user, pwd) <==> encode_utf8(user).len() <= USR_PASS_STR_SIZE
            && encode_utf8(pwd).len() <= USR_PASS_STR_SIZE,
        TokenAuthenticator::holds(token) <==> encode_utf8(token).len() <= TOKEN_STR_SIZE,
{
}

} // verus!
