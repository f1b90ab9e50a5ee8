use vstd::prelude::*;

use crate::matcher::{fingerprint_accepts, is_same_client};
use crate::parse::{
    parse_browser_cookie, parse_cookie_spec, parse_user_agent, parse_user_agent_spec,
};
use crate::persistent_storage_provider::PersistentStorageProvider;
use crate::temporary_storage_provider::TemporaryStorageProvider;
use crate::text::seq_starts_with;
use crate::user::FullUser;

verus! {

/// The reason a request failed authentication.
#[derive(Clone, Copy, Debug, PartialEq, Eq, Structural)]
pub enum AuthRejection {
    /// No session cookie came with the request.
    MissingCookie,
    /// The cookie is not a live session.
    NotAuthenticated,
    /// A versioned token was presented without a user-agent header.
    MissingUserAgent,
    /// A versioned token did not decode.
    MalformedCookie,
    /// The fingerprint check failed; the session entry is revoked.
    TheftDetected,
    /// The session's account no longer exists.
    AccountGone,
}

impl AuthRejection {
    pub open spec fn spec_status_code(&self) -> u16 {
        match self {
            AuthRejection::MissingCookie => 400,
            AuthRejection::NotAuthenticated => 401,
            AuthRejection::MissingUserAgent => 400,
            AuthRejection::MalformedCookie => 400,
            AuthRejection::TheftDetected => 410,
            AuthRejection::AccountGone => 410,
        }
    }

    /// The HTTP status this rejection is rendered with.
    pub fn status_code(&self) -> (c: u16)
        ensures
            c == self.spec_status_code(),
    {
        match self {
            AuthRejection::MissingCookie => 400,
            AuthRejection::NotAuthenticated => 401,
            AuthRejection::MissingUserAgent => 400,
            AuthRejection::MalformedCookie => 400,
            AuthRejection::TheftDetected => 410,
            AuthRejection::AccountGone => 410,
        }
    }
}

/// The token carries the versioned `s1` prefix, so it is subject to
/// fingerprint re-validation; other tokens pass as opaque values.
pub open spec fn has_session_prefix(s: Seq<char>) -> bool {
    seq_starts_with(s, "s1"@)
}

fn is_versioned_token(cookie: &String) -> (r: bool)
    ensures
        r == has_session_prefix(cookie@),
{
    proof {
        reveal_strlit("s1");
    }
    let s = cookie.as_str();
    let n = s.unicode_len();
    if n < 2 {
        return false;
    }
    let c0 = s.get_char(0);
    let c1 = s.get_char(1);
    if c0 == 's' && c1 == '1' {
        assert(cookie@.subrange(0, 2) =~= "s1"@);
        true
    } else {
        assert(cookie@.subrange(0, 2)[0] == cookie@[0] && cookie@.subrange(0, 2)[1]
            == cookie@[1]);
        false
    }
}

/// The per-request authentication gate: cookie extraction has already
/// happened; this chains session lookup, fingerprint re-validation for
/// versioned tokens, and account resolution. A failed fingerprint check
/// deletes the presented session entry before rejecting.
pub fn authenticate<P: PersistentStorageProvider, T: TemporaryStorageProvider>(
    persistent: &P,
    temporary: &mut T,
    cookie: Option<String>,
    ip: &str,
    user_agent: Option<String>,
) -> (r: Result<FullUser, AuthRejection>)
    requires
        persistent.inv(),
        old(temporary).inv(),
    ensures
        final(temporary).inv(),
        match r {
            Ok(user) => {
                &&& cookie is Some
                &&& old(temporary).sessions().contains_key(cookie.unwrap()@)
                &&& persistent.accounts().contains_key(
                    old(temporary).sessions()[cookie.unwrap()@],
                )
                &&& user.wf()
                &&& user.id == old(temporary).sessions()[cookie.unwrap()@]
                &&& user@ == persistent.accounts()[user.id]
                &&& has_session_prefix(cookie.unwrap()@) ==> user_agent is Some
                    && parse_cookie_spec(cookie.unwrap()@) is Some && fingerprint_accepts(
                    parse_cookie_spec(cookie.unwrap()@).unwrap(),
                    ip@,
                    parse_user_agent_spec(user_agent.unwrap()@),
                )
                &&& final(temporary).sessions() == old(temporary).sessions()
            },
            Err(rej) => {
                let sess = old(temporary).sessions();
                let unchanged = final(temporary).sessions() == sess;
                match rej {
                    AuthRejection::MissingCookie => cookie is None && unchanged,
                    AuthRejection::NotAuthenticated => cookie is Some && !sess.contains_key(
                        cookie.unwrap()@,
                    ) && unchanged,
                    AuthRejection::MissingUserAgent => cookie is Some && sess.contains_key(
                        cookie.unwrap()@,
                    ) && has_session_prefix(cookie.unwrap()@) && user_agent is None && unchanged,
                    AuthRejection::MalformedCookie => cookie is Some && sess.contains_key(
                        cookie.unwrap()@,
                    ) && has_session_prefix(cookie.unwrap()@) && user_agent is Some
                        && parse_cookie_spec(cookie.unwrap()@) is None && unchanged,
                    AuthRejection::TheftDetected => {
                        &&& cookie is Some
                        &&& sess.contains_key(cookie.unwrap()@)
                        &&& has_session_prefix(cookie.unwrap()@)
                        &&& user_agent is Some
                        &&& parse_cookie_spec(cookie.unwrap()@) is Some
                        &&& !fingerprint_accepts(
                            parse_cookie_spec(cookie.unwrap()@).unwrap(),
                            ip@,
                            parse_user_agent_spec(user_agent.unwrap()@),
                        )
                        &&& (final(temporary).sessions() == sess.remove(cookie.unwrap()@)
                            || unchanged)
                    },
                    AuthRejection::AccountGone => {
                        &&& cookie is Some
                        &&& sess.contains_key(cookie.unwrap()@)
                        &&& !persistent.accounts().contains_key(sess[cookie.unwrap()@])
                        &&& (has_session_prefix(cookie.unwrap()@) ==> user_agent is Some
                            && parse_cookie_spec(cookie.unwrap()@) is Some && fingerprint_accepts(
                            parse_cookie_spec(cookie.unwrap()@).unwrap(),
                            ip@,
                            parse_user_agent_spec(user_agent.unwrap()@),
                        ))
                        &&& unchanged
                    },
                }
            },
        },
{
    let cookie = match cookie {
        Some(c) => c,
        None => {
            return Err(AuthRejection::MissingCookie);
        },
    };
    let client_id = match temporary.get(cookie.clone()) {
        Some(id) => id,
        None => {
            return Err(AuthRejection::NotAuthenticated);
        },
    };
    if is_versioned_token(&cookie) {
        let ua = match &user_agent {
            Some(u) => u,
            None => {
                return Err(AuthRejection::MissingUserAgent);
            },
        };
        let parsed_user_agent = parse_user_agent(ua.clone());
        let expected_cookie = match parse_browser_cookie(cookie.as_str()) {
            Ok(parsed) => parsed,
            Err(_) => {
                return Err(AuthRejection::MalformedCookie);
            },
        };
        let same_client = is_same_client(&expected_cookie, ip, &parsed_user_agent);
        if !same_client {
            let _deleted = temporary.delete(cookie);
            return Err(AuthRejection::TheftDetected);
        }
    }
    match persistent.get_user_by_id(client_id) {
        Some(user) => Ok(user),
        None => Err(AuthRejection::AccountGone),
    }
}

} // verus!
