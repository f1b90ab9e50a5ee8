use vstd::prelude::*;

use crate::user_agent::{UserAgentExtension, UserAgentPlatform, UserAgentPlatformView};

verus! {

/// The decoded form of a session token: version prefix, hashed IP, hashed
/// platform triples, hashed extension tokens and the random nonce.
#[derive(Debug)]
pub struct ParsedCookie {
    pub prefix: String,
    pub ip: String,
    pub platforms: Vec<UserAgentPlatform>,
    pub extensions: Vec<UserAgentExtension>,
    pub random: String,
}

/// The mathematical shape of a decoded session token.
#[verifier::ext_equal]
pub ghost struct ParsedCookieView {
    pub prefix: Seq<char>,
    pub ip: Seq<char>,
    pub platforms: Seq<UserAgentPlatformView>,
    pub extensions: Seq<Seq<char>>,
    pub random: Seq<char>,
}

impl View for ParsedCookie {
    type V = ParsedCookieView;

    open spec fn view(&self) -> ParsedCookieView {
        ParsedCookieView {
            prefix: self.prefix@,
            ip: self.ip@,
            platforms: self.platforms.deep_view(),
            extensions: self.extensions.deep_view(),
            random: self.random@,
        }
    }
}

} // verus!
