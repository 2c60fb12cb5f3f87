//! The claims of the web UI's access tokens.

use vstd::prelude::*;
use vstd::string::*;

verus! {

/// How long a token is valid, in seconds.
pub const TOKEN_VALIDITY_SECS: i64 = 1800;

/// The claims of a token: issuer, issue time and expiry (Unix seconds).
pub struct Claims {
    iss: String,
    iat: i64,
    exp: i64,
}

impl Claims {
    pub closed spec fn issuer(self) -> Seq<char> {
        self.iss@
    }

    pub closed spec fn issued_at(self) -> i64 {
        self.iat
    }

    pub closed spec fn expires_at(self) -> i64 {
        self.exp
    }

    /// The claims of a token issued by `issuer` at `now`, valid for 30
    /// minutes.
    pub fn new(issuer: &str, now: i64) -> (r: Claims)
        requires
            now <= i64::MAX - TOKEN_VALIDITY_SECS,
        ensures
            r.issuer() == issuer@,
            r.issued_at() == now,
            r.expires_at() == now + TOKEN_VALIDITY_SECS,
    {
        Claims { iss: String::from_str(issuer), iat: now, exp: now + TOKEN_VALIDITY_SECS }
    }

    pub fn iss(&self) -> (r: &str)
        ensures
            r@ == self.issuer(),
    {
        self.iss.as_str()
    }

    pub fn iat(&self) -> (r: i64)
        ensures
            r == self.issued_at(),
    {
        self.iat
    }

    pub fn exp(&self) -> (r: i64)
        ensures
            r == self.expires_at(),
    {
        self.exp
    }
}

} // verus!
