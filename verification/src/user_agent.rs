use vstd::prelude::*;

verus! {

/// A single extension token at the tail of a user-agent header.
pub type UserAgentExtension = String;

/// One `name/version details` platform descriptor of a user-agent header.
#[derive(Debug)]
pub struct UserAgentPlatform {
    pub name: String,
    pub version: String,
    pub details: String,
}

/// The mathematical shape of a platform descriptor.
#[verifier::ext_equal]
pub ghost struct UserAgentPlatformView {
    pub name: Seq<char>,
    pub version: Seq<char>,
    pub details: Seq<char>,
}

impl View for UserAgentPlatform {
    type V = UserAgentPlatformView;

    open spec fn view(&self) -> UserAgentPlatformView {
        UserAgentPlatformView { name: self.name@, version: self.version@, details: self.details@ }
    }
}

impl DeepView for UserAgentPlatform {
    type V = UserAgentPlatformView;

    open spec fn deep_view(&self) -> UserAgentPlatformView {
        self.view()
    }
}

/// A parsed user-agent header: ordered platform descriptors followed by
/// ordered extension tokens.
#[derive(Debug)]
pub struct ParsedUserAgent {
    pub platforms: Vec<UserAgentPlatform>,
    pub extensions: Vec<UserAgentExtension>,
}

/// The mathematical shape of a parsed user-agent header.
#[verifier::ext_equal]
pub ghost struct ParsedUserAgentView {
    pub platforms: Seq<UserAgentPlatformView>,
    pub extensions: Seq<Seq<char>>,
}

impl View for ParsedUserAgent {
    type V = ParsedUserAgentView;

    open spec fn view(&self) -> ParsedUserAgentView {
        ParsedUserAgentView {
            platforms: self.platforms.deep_view(),
            extensions: self.extensions.deep_view(),
        }
    }
}

} // verus!
