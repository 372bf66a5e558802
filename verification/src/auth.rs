//! The authenticated identity carried by a signed token, and the parsing of
//! the authorization header. Signing and verifying the token itself is an
//! external collaborator's business; this module fixes what the token says.

use vstd::prelude::*;

use crate::text::has_prefix;

verus! {

/// How long a freshly issued token lives, in seconds.
pub const TOKEN_LIFETIME_SECS: usize = 3600;

/// What a session token asserts: who the caller is and until when.
#[derive(Clone, Copy, Debug, PartialEq, Eq, Structural)]
pub struct Claims {
    /// The authenticated account identifier.
    pub user_id: i32,
    /// Expiry, in seconds since the epoch.
    pub exp: usize,
}

impl Claims {
    /// The claims of a token issued now: they expire one lifetime later.
    pub fn issued_at(user_id: i32, now_secs: usize) -> (r: Claims)
        requires
            now_secs + TOKEN_LIFETIME_SECS <= usize::MAX,
        ensures
            r.user_id == user_id,
            r.exp == now_secs + TOKEN_LIFETIME_SECS,
    {
        Claims { user_id, exp: now_secs + TOKEN_LIFETIME_SECS }
    }

    /// Whether the token has expired at the given time.
    pub fn is_expired(&self, now_secs: usize) -> (r: bool)
        ensures
            r == (self.exp <= now_secs),
    {
        self.exp <= now_secs
    }
}

/// The token carried by an authorization header: what follows the `Bearer `
/// scheme prefix; anything else carries no token.
pub fn parse_bearer(header: &str) -> (r: Option<String>)
    ensures
        r matches Some(t) <==> "Bearer "@.len() <= header@.len() && header@.subrange(
            0,
            "Bearer "@.len() as int,
        ) == "Bearer "@,
        r matches Some(t) ==> t@ == header@.skip("Bearer "@.len() as int),
{
    if has_prefix(header, "Bearer ") {
        let plen = "Bearer ".unicode_len();
        let len = header.unicode_len();
        let rest = header.substring_char(plen, len);
        proof {
            assert(rest@ =~= header@.skip("Bearer "@.len() as int));
        }
        Some(String::from_str(rest))
    } else {
        None
    }
}

} // verus!
