use vstd::prelude::*;

use crate::cookie::{ParsedCookie, ParsedCookieView};
use crate::text::{
    chars_to_string, find_first, first_occurrence, lemma_first_occurrence_spec, split_chars,
    split_inclusive_chars, split_inclusive_seq, split_seq, str_to_chars, subvec,
};
use crate::user_agent::{
    ParsedUserAgent, ParsedUserAgentView, UserAgentExtension, UserAgentPlatform,
    UserAgentPlatformView,
};

verus! {

// ---------------------------------------------------------------------------
// What parsing means, stated over character sequences.
// ---------------------------------------------------------------------------

/// A platform descriptor `name/version details`: the name runs to the first
/// `/`, the version from there to the first following space, the free-text
/// details take the remainder.
pub open spec fn parse_platform_spec(s: Seq<char>) -> UserAgentPlatformView {
    let i = first_occurrence(s, seq!['/']);
    if i < 0 {
        UserAgentPlatformView { name: s, version: Seq::empty(), details: Seq::empty() }
    } else {
        let rest = s.subrange(i + 1, s.len() as int);
        let j = first_occurrence(rest, seq![' ']);
        if j < 0 {
            UserAgentPlatformView { name: s.subrange(0, i), version: rest, details: Seq::empty() }
        } else {
            UserAgentPlatformView {
                name: s.subrange(0, i),
                version: rest.subrange(0, j),
                details: rest.subrange(j + 1, rest.len() as int),
            }
        }
    }
}

/// The segment ends in a closing parenthesis.
pub open spec fn ends_with_paren(s: Seq<char>) -> bool {
    s.len() >= 1 && s[s.len() - 1] == ')'
}

/// The nonempty parts, in order.
pub open spec fn keep_nonempty(parts: Seq<Seq<char>>) -> Seq<Seq<char>>
    decreases parts.len(),
{
    if parts.len() == 0 {
        Seq::empty()
    } else if parts[0].len() != 0 {
        seq![parts[0]] + keep_nonempty(parts.drop_first())
    } else {
        keep_nonempty(parts.drop_first())
    }
}

/// A trailing extensions blob: space-separated tokens, empty ones dropped.
pub open spec fn extensions_spec(s: Seq<char>) -> Seq<Seq<char>> {
    keep_nonempty(split_seq(s, seq![' ']))
}

/// Each segment parsed as a platform descriptor, in order.
pub open spec fn platforms_of(segs: Seq<Seq<char>>) -> Seq<UserAgentPlatformView>
    decreases segs.len(),
{
    if segs.len() == 0 {
        Seq::empty()
    } else {
        seq![parse_platform_spec(segs[0])] + platforms_of(segs.drop_first())
    }
}

/// A parsed user-agent header: segments end at each `)`; a final segment
/// without one is the extensions blob; the rest are platform descriptors.
pub open spec fn parse_user_agent_spec(s: Seq<char>) -> ParsedUserAgentView {
    let segs = split_inclusive_seq(s, seq![')']);
    if segs.len() == 0 {
        ParsedUserAgentView { platforms: Seq::empty(), extensions: Seq::empty() }
    } else if !ends_with_paren(segs.last()) {
        ParsedUserAgentView {
            platforms: platforms_of(segs.drop_last()),
            extensions: extensions_spec(segs.last()),
        }
    } else {
        ParsedUserAgentView { platforms: platforms_of(segs), extensions: Seq::empty() }
    }
}

/// Hashed platform triples of a token: groups between `||` separators; a
/// group is kept only when splitting it on `-` gives exactly three parts.
pub open spec fn triples_of(groups: Seq<Seq<char>>) -> Seq<UserAgentPlatformView>
    decreases groups.len(),
{
    if groups.len() == 0 {
        Seq::empty()
    } else {
        let p = split_seq(groups[0], seq!['-']);
        let rest = triples_of(groups.drop_first());
        if p.len() == 3 {
            seq![UserAgentPlatformView { name: p[0], version: p[1], details: p[2] }] + rest
        } else {
            rest
        }
    }
}

/// A decoded session token: exactly five dot-separated fields, the third
/// split into hashed platform triples, the fourth into hashed extensions.
pub open spec fn parse_cookie_spec(s: Seq<char>) -> Option<ParsedCookieView> {
    let fields = split_seq(s, seq!['.']);
    if fields.len() != 5 {
        None
    } else {
        Some(
            ParsedCookieView {
                prefix: fields[0],
                ip: fields[1],
                platforms: triples_of(split_seq(fields[2], seq!['|', '|'])),
                extensions: split_seq(fields[3], seq!['_']),
                random: fields[4],
            },
        )
    }
}

// ---------------------------------------------------------------------------
// Executable parsers.
// ---------------------------------------------------------------------------

/// Parses one `name/version details` platform descriptor.
pub fn parse_platform(platform: &str) -> (r: UserAgentPlatform)
    ensures
        r@ == parse_platform_spec(platform@),
{
    let cs = str_to_chars(platform);
    let slash: Vec<char> = vec!['/'];
    assert(slash@ =~= seq!['/']);
    match find_first(&cs, &slash) {
        None => {
            let r = UserAgentPlatform {
                name: chars_to_string(&cs),
                version: String::new(),
                details: String::new(),
            };
            assert(r@ =~~= parse_platform_spec(platform@));
            r
        },
        Some(i) => {
            proof {
                lemma_first_occurrence_spec(cs@, slash@);
            }
            let clen = cs.len();
            assert(i + 1 <= clen);
            let name = chars_to_string(&subvec(&cs, 0, i));
            let rest = subvec(&cs, i + 1, clen);
            let space: Vec<char> = vec![' '];
            assert(space@ =~= seq![' ']);
            match find_first(&rest, &space) {
                None => {
                    let r = UserAgentPlatform {
                        name,
                        version: chars_to_string(&rest),
                        details: String::new(),
                    };
                    assert(r@ =~~= parse_platform_spec(platform@));
                    r
                },
                Some(j) => {
                    proof {
                        lemma_first_occurrence_spec(rest@, space@);
                    }
                    let r = UserAgentPlatform {
                        name,
                        version: chars_to_string(&subvec(&rest, 0, j)),
                        details: chars_to_string(&subvec(&rest, j + 1, rest.len())),
                    };
                    assert(r@ =~~= parse_platform_spec(platform@));
                    r
                },
            }
        },
    }
}

/// Detaches a trailing extensions blob: when the final segment does not end
/// in `)`, it is removed and split into extension tokens; otherwise the
/// segments stay as they are and no extensions result.
pub fn parse_extensions(segments: &mut Vec<Vec<char>>) -> (r: Vec<UserAgentExtension>)
    requires
        old(segments)@.len() >= 1,
    ensures
        ends_with_paren(old(segments).deep_view().last()) ==> final(segments)@ == old(segments)@
            && r.deep_view() == Seq::<Seq<char>>::empty(),
        !ends_with_paren(old(segments).deep_view().last()) ==> final(segments).deep_view() == old(
            segments,
        ).deep_view().drop_last() && r.deep_view() == extensions_spec(
            old(segments).deep_view().last(),
        ),
{
    let n = segments.len();
    let ghost segs = segments.deep_view();
    assert(segs.last() == segments@[n - 1]@);
    let ends_closed = segments[n - 1].len() >= 1 && segments[n - 1][segments[n - 1].len() - 1]
        == ')';
    assert(ends_closed == ends_with_paren(segs.last()));
    if ends_closed {
        let r: Vec<UserAgentExtension> = Vec::new();
        assert(r.deep_view() =~~= Seq::<Seq<char>>::empty());
        return r;
    }
    let popped = match segments.pop() {
        Some(p) => p,
        None => {
            proof {
                assert(false);
            }
            Vec::new()
        },
    };
    assert(segments.deep_view() =~~= segs.drop_last());
    assert(popped@ == segs.last());
    let space: Vec<char> = vec![' '];
    assert(space@ =~= seq![' ']);
    let parts = split_chars(&popped, &space);
    let ghost pv = parts.deep_view();
    let mut out: Vec<UserAgentExtension> = Vec::new();
    assert(out.deep_view() =~~= Seq::<Seq<char>>::empty());
    assert(pv.skip(0) =~~= pv);
    assert(out.deep_view() + keep_nonempty(pv.skip(0)) =~~= keep_nonempty(pv));
    let mut i: usize = 0;
    while i < parts.len()
        invariant
            i <= parts@.len(),
            pv == parts.deep_view(),
            pv.len() == parts@.len(),
            keep_nonempty(pv) == out.deep_view() + keep_nonempty(pv.skip(i as int)),
        decreases parts@.len() - i,
    {
        let ghost prev = out.deep_view();
        proof {
            assert(pv.skip(i as int)[0] == pv[i as int]);
            assert(pv.skip(i as int).drop_first() =~~= pv.skip(i + 1));
            assert(pv[i as int] == parts@[i as int]@);
        }
        if parts[i].len() != 0 {
            out.push(chars_to_string(&parts[i]));
            assert(out.deep_view() =~~= prev.push(pv[i as int]));
            assert(keep_nonempty(pv.skip(i as int)) =~~= seq![pv[i as int]] + keep_nonempty(
                pv.skip(i + 1),
            ));
            assert(keep_nonempty(pv) =~~= out.deep_view() + keep_nonempty(pv.skip(i + 1)));
        } else {
            assert(keep_nonempty(pv) =~~= out.deep_view() + keep_nonempty(pv.skip(i + 1)));
        }
        i = i + 1;
    }
    assert(pv.skip(pv.len() as int) =~~= Seq::<Seq<char>>::empty());
    assert(out.deep_view() =~~= keep_nonempty(pv));
    assert(out.deep_view() =~~= extensions_spec(segs.last()));
    out
}

/// Parses a raw user-agent header into ordered platform descriptors and
/// trailing extension tokens. An empty header gives empty lists.
pub fn parse_user_agent(user_agent: String) -> (r: ParsedUserAgent)
    ensures
        r@ == parse_user_agent_spec(user_agent@),
{
    let cs = str_to_chars(user_agent.as_str());
    let paren: Vec<char> = vec![')'];
    assert(paren@ =~= seq![')']);
    let mut segments = split_inclusive_chars(&cs, &paren);
    let ghost segs = split_inclusive_seq(user_agent@, seq![')']);
    assert(segments.deep_view() == segs);
    if segments.len() == 0 {
        let r = ParsedUserAgent { platforms: Vec::new(), extensions: Vec::new() };
        assert(r@ =~~= parse_user_agent_spec(user_agent@));
        return r;
    }
    let extensions = parse_extensions(&mut segments);
    let ghost full = segments.deep_view();
    let mut platforms: Vec<UserAgentPlatform> = Vec::new();
    assert(platforms.deep_view() =~~= Seq::<UserAgentPlatformView>::empty());
    assert(full.skip(0) =~~= full);
    assert(platforms.deep_view() + platforms_of(full.skip(0)) =~~= platforms_of(full));
    let mut i: usize = 0;
    while i < segments.len()
        invariant
            i <= segments@.len(),
            full == segments.deep_view(),
            full.len() == segments@.len(),
            platforms_of(full) == platforms.deep_view() + platforms_of(full.skip(i as int)),
        decreases segments@.len() - i,
    {
        let ghost prev = platforms.deep_view();
        proof {
            assert(full.skip(i as int)[0] == full[i as int]);
            assert(full.skip(i as int).drop_first() =~~= full.skip(i + 1));
            assert(full[i as int] == segments@[i as int]@);
        }
        let seg = chars_to_string(&segments[i]);
        let p = parse_platform(seg.as_str());
        platforms.push(p);
        assert(platforms.deep_view() =~~= prev.push(parse_platform_spec(full[i as int])));
        assert(platforms_of(full.skip(i as int)) =~~= seq![parse_platform_spec(full[i as int])]
            + platforms_of(full.skip(i + 1)));
        assert(platforms_of(full) =~~= platforms.deep_view() + platforms_of(full.skip(i + 1)));
        i = i + 1;
    }
    assert(full.skip(full.len() as int) =~~= Seq::<Seq<char>>::empty());
    assert(platforms.deep_view() =~~= platforms_of(full));
    let r = ParsedUserAgent { platforms, extensions };
    assert(r@ =~~= parse_user_agent_spec(user_agent@));
    r
}

/// Decodes a session token string; any field count other than five is
/// rejected as an invalid cookie.
pub fn parse_browser_cookie(cookie: &str) -> (r: Result<ParsedCookie, String>)
    ensures
        match r {
            Ok(pc) => parse_cookie_spec(cookie@) == Some(pc@),
            Err(e) => parse_cookie_spec(cookie@) is None && e@ == "Invalid cookie"@,
        },
{
    let cs = str_to_chars(cookie);
    let dot: Vec<char> = vec!['.'];
    assert(dot@ =~= seq!['.']);
    let fields = split_chars(&cs, &dot);
    let ghost fv = split_seq(cookie@, seq!['.']);
    assert(fields.deep_view() == fv);
    if fields.len() != 5 {
        return Err("Invalid cookie".to_owned());
    }
    assert(forall|k: int| 0 <= k < 5 ==> fields.deep_view()[k] == #[trigger] fields@[k]@);
    let prefix = chars_to_string(&fields[0]);
    let ip = chars_to_string(&fields[1]);

    let bars: Vec<char> = vec!['|', '|'];
    assert(bars@ =~= seq!['|', '|']);
    let groups = split_chars(&fields[2], &bars);
    let ghost gv = groups.deep_view();
    assert(gv == split_seq(fv[2], seq!['|', '|']));
    let dash: Vec<char> = vec!['-'];
    assert(dash@ =~= seq!['-']);
    let mut platforms: Vec<UserAgentPlatform> = Vec::new();
    assert(platforms.deep_view() =~~= Seq::<UserAgentPlatformView>::empty());
    assert(gv.skip(0) =~~= gv);
    assert(platforms.deep_view() + triples_of(gv.skip(0)) =~~= triples_of(gv));
    let mut i: usize = 0;
    while i < groups.len()
        invariant
            i <= groups@.len(),
            gv == groups.deep_view(),
            gv.len() == groups@.len(),
            dash@ == seq!['-'],
            triples_of(gv) == platforms.deep_view() + triples_of(gv.skip(i as int)),
        decreases groups@.len() - i,
    {
        let ghost prev = platforms.deep_view();
        proof {
            assert(gv.skip(i as int)[0] == gv[i as int]);
            assert(gv.skip(i as int).drop_first() =~~= gv.skip(i + 1));
            assert(gv[i as int] == groups@[i as int]@);
        }
        let parts = split_chars(&groups[i], &dash);
        let ghost p = split_seq(gv[i as int], seq!['-']);
        assert(parts.deep_view() == p);
        if parts.len() == 3 {
            assert(forall|k: int| 0 <= k < 3 ==> parts.deep_view()[k] == #[trigger] parts@[k]@);
            let platform = UserAgentPlatform {
                name: chars_to_string(&parts[0]),
                version: chars_to_string(&parts[1]),
                details: chars_to_string(&parts[2]),
            };
            platforms.push(platform);
            assert(platforms.deep_view() =~~= prev.push(
                UserAgentPlatformView { name: p[0], version: p[1], details: p[2] },
            ));
            assert(triples_of(gv.skip(i as int)) =~~= seq![
                UserAgentPlatformView { name: p[0], version: p[1], details: p[2] },
            ] + triples_of(gv.skip(i + 1)));
            assert(triples_of(gv) =~~= platforms.deep_view() + triples_of(gv.skip(i + 1)));
        } else {
            assert(triples_of(gv.skip(i as int)) =~~= triples_of(gv.skip(i + 1)));
            assert(triples_of(gv) =~~= platforms.deep_view() + triples_of(gv.skip(i + 1)));
        }
        i = i + 1;
    }
    assert(gv.skip(gv.len() as int) =~~= Seq::<Seq<char>>::empty());
    assert(platforms.deep_view() =~~= triples_of(gv));

    let under: Vec<char> = vec!['_'];
    assert(under@ =~= seq!['_']);
    let ext_parts = split_chars(&fields[3], &under);
    let ghost ev = ext_parts.deep_view();
    let mut extensions: Vec<UserAgentExtension> = Vec::new();
    let mut j: usize = 0;
    while j < ext_parts.len()
        invariant
            j <= ext_parts@.len(),
            ev == ext_parts.deep_view(),
            ev.len() == ext_parts@.len(),
            extensions.deep_view() == ev.take(j as int),
        decreases ext_parts@.len() - j,
    {
        let ghost prev = extensions.deep_view();
        proof {
            assert(ev[j as int] == ext_parts@[j as int]@);
        }
        extensions.push(chars_to_string(&ext_parts[j]));
        assert(extensions.deep_view() =~~= prev.push(ev[j as int]));
        assert(ev.take(j + 1) =~~= ev.take(j as int).push(ev[j as int]));
        j = j + 1;
    }
    assert(extensions.deep_view() =~~= ev);

    let random = chars_to_string(&fields[4]);
    let r = ParsedCookie { prefix, ip, platforms, extensions, random };
    assert(parse_cookie_spec(cookie@) == Some(r@)) by {
        assert(r@ =~~= parse_cookie_spec(cookie@).unwrap());
    }
    Ok(r)
}

} // verus!
