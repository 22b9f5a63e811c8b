//! How a client presents itself to a server.
use vstd::prelude::*;
use vstd::utf8::encode_utf8;

use crate::bounded::BoundedString;
use crate::collections::StrBuf;
use crate::error::CapacityError;
use crate::limits::{PKG_NAME, PKG_VERSION, TOKEN_STR_SIZE, USR_PASS_STR_SIZE};
use crate::sealed::Sealed;

verus! {

/// The body of a CONNECT message.
pub trait NatsAuthenticator: Sealed {

}

/// Presents a client without credentials.
pub struct NoopAuthenticator {
    pub verbose: bool,
    pub pedantic: bool,
    pub tls_required: bool,
    pub lang: &'static str,
    pub name: &'static str,
    pub version: &'static str,
}

/// Presents a client by a user name and a password.
pub struct UserPwdAuthenticator {
    pub verbose: bool,
    pub pedantic: bool,
    pub tls_required: bool,
    pub user: BoundedString<USR_PASS_STR_SIZE>,
    pub pass: BoundedString<USR_PASS_STR_SIZE>,
    pub lang: &'static str,
    pub name: &'static str,
    pub version: &'static str,
}

/// Presents a client by a token.
pub struct TokenAuthenticator {
    pub verbose: bool,
    pub pedantic: bool,
    pub tls_required: bool,
    pub token: BoundedString<TOKEN_STR_SIZE>,
    pub lang: &'static str,
    pub name: &'static str,
    pub version: &'static str,
}

/// What every client says: it wants neither acknowledgements nor strict checks nor encryption, and
/// it names its language, itself and its version.
pub open spec fn says_the_usual(
    verbose: bool,
    pedantic: bool,
    tls_required: bool,
    lang: Seq<char>,
    name: Seq<char>,
    version: Seq<char>,
) -> bool {
    &&& !verbose
    &&& !pedantic
    &&& !tls_required
    &&& lang == "rust"@
    &&& name == PKG_NAME@
    &&& version == PKG_VERSION@
}

impl NoopAuthenticator {
    /// Whether it says what every client says.
    pub open spec fn presents(self) -> bool {
        says_the_usual(
            self.verbose,
            self.pedantic,
            self.tls_required,
            self.lang@,
            self.name@,
            self.version@,
        )
    }

    /// What every client says, and nothing more.
    pub fn new() -> (a: Self)
        ensures
            a.presents(),
            !a.verbose && !a.pedantic && !a.tls_required,
            a.lang@ == "rust"@ && a.name@ == PKG_NAME@ && a.version@ == PKG_VERSION@,
    {
        NoopAuthenticator {
            verbose: false,
            pedantic: false,
            tls_required: false,
            name: PKG_NAME,
            lang: "rust",
            version: PKG_VERSION,
        }
    }
}

impl UserPwdAuthenticator {
    /// Whether a user name and a password are short enough.
    pub open spec fn holds(user: Seq<char>, pwd: Seq<char>) -> bool {
        &&& BoundedString::<USR_PASS_STR_SIZE>::holds(user)
        &&& BoundedString::<USR_PASS_STR_SIZE>::holds(pwd)
    }

    /// Whether it says what every client says, with this user name and this password.
    pub open spec fn presents(self, user: Seq<char>, pwd: Seq<char>) -> bool {
        &&& self.user@ == user
        &&& self.pass@ == pwd
        &&& says_the_usual(
            self.verbose,
            self.pedantic,
            self.tls_required,
            self.lang@,
            self.name@,
            self.version@,
        )
    }

    /// What every client says, with a user name and a password that are not too long.
    pub fn new(user: &str, pwd: &str) -> (r: Result<Self, CapacityError>)
        ensures
            match r {
                Ok(a) => Self::holds(user@, pwd@) && a.presents(user@, pwd@),
                Err(e) => !Self::holds(user@, pwd@) && e == CapacityError::Str,
            },
            r is Ok <==> encode_utf8(user@).len() <= USR_PASS_STR_SIZE && encode_utf8(pwd@).len()
                <= USR_PASS_STR_SIZE,
            r matches Ok(a) ==> {
                &&& a.user@ == user@
                &&& a.pass@ == pwd@
                &&& !a.verbose && !a.pedantic && !a.tls_required
                &&& a.lang@ == "rust"@ && a.name@ == PKG_NAME@ && a.version@ == PKG_VERSION@
            },
    {
        let user: BoundedString<USR_PASS_STR_SIZE> = match StrBuf::try_from_str(user) {
            Ok(user) => user,
            Err(e) => {
                return Err(e);
            },
        };
        let pass: BoundedString<USR_PASS_STR_SIZE> = match StrBuf::try_from_str(pwd) {
            Ok(pass) => pass,
            Err(e) => {
                return Err(e);
            },
        };
        Ok(
            UserPwdAuthenticator {
                verbose: false,
                pedantic: false,
                tls_required: false,
                user,
                pass,
                name: PKG_NAME,
                lang: "rust",
                version: PKG_VERSION,
            },
        )
    }
}

impl TokenAuthenticator {
    /// Whether a token is short enough.
    pub open spec fn holds(token: Seq<char>) -> bool {
        BoundedString::<TOKEN_STR_SIZE>::holds(token)
    }

    /// Whether it says what every client says, with this token.
    pub open spec fn presents(self, token: Seq<char>) -> bool {
        &&& self.token@ == token
        &&& says_the_usual(
            self.verbose,
            self.pedantic,
            self.tls_required,
            self.lang@,
            self.name@,
            self.version@,
        )
    }

    /// What every client says, with a token that is not too long.
    pub fn new(auth_token: &str) -> (r: Result<Self, CapacityError>)
        ensures
            match r {
                Ok(a) => Self::holds(auth_token@) && a.presents(auth_token@),
                Err(e) => !Self::holds(auth_token@) && e == CapacityError::Str,
            },
            r is Ok <==> encode_utf8(auth_token@).len() <= TOKEN_STR_SIZE,
            r matches Ok(a) ==> {
                &&& a.token@ == auth_token@
                &&& !a.verbose && !a.pedantic && !a.tls_required
                &&& a.lang@ == "rust"@ && a.name@ == PKG_NAME@ && a.version@ == PKG_VERSION@
            },
    {
        let token: BoundedString<TOKEN_STR_SIZE> = match StrBuf::try_from_str(auth_token) {
            Ok(token) => token,
            Err(e) => {
                return Err(e);
            },
        };
        Ok(
            TokenAuthenticator {
                verbose: false,
                pedantic: false,
                tls_required: false,
                token,
                name: PKG_NAME,
                lang: "rust",
                version: PKG_VERSION,
            },
        )
    }
}

impl Sealed for NoopAuthenticator {

}

impl NatsAuthenticator for NoopAuthenticator {

}

impl Sealed for UserPwdAuthenticator {

}

impl NatsAuthenticator for UserPwdAuthenticator {

}

impl Sealed for TokenAuthenticator {

}

impl NatsAuthenticator for TokenAuthenticator {

}

} // verus!
