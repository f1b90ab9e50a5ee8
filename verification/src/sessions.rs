use vstd::prelude::*;

use crate::cookie::ParsedCookieView;
use crate::errors::HttpError;
use crate::status::Status;
use crate::hashing::{all_decimal_digits, is_decimal_digit, xx_digest_of, xx_hash};
use crate::parse::{parse_cookie_spec, parse_user_agent, parse_user_agent_spec, triples_of};
use crate::random::{all_ascii_alnum, is_ascii_alnum, random_string};
use crate::text::{
    avoids, first_occurrence, join_seq, join_strings, lemma_avoids_concat,
    lemma_avoids_no_occurrence, lemma_join_avoids, lemma_split_join, split_seq,
};
use crate::user_agent::{ParsedUserAgent, ParsedUserAgentView, UserAgentPlatformView};

verus! {

// ---------------------------------------------------------------------------
// What a generated token looks like.
// ---------------------------------------------------------------------------

/// The hashed `name-version-details` triple embedded for one platform.
pub open spec fn hashed_triple_spec(p: UserAgentPlatformView) -> Seq<char> {
    xx_digest_of(p.name) + seq!['-'] + xx_digest_of(p.version) + seq!['-'] + xx_digest_of(
        p.details,
    )
}

/// The hashed triples of all platforms, in order.
pub open spec fn hashed_triples_of(ps: Seq<UserAgentPlatformView>) -> Seq<Seq<char>>
    decreases ps.len(),
{
    if ps.len() == 0 {
        Seq::empty()
    } else {
        seq![hashed_triple_spec(ps[0])] + hashed_triples_of(ps.drop_first())
    }
}

/// The hashed extension tokens, in order.
pub open spec fn hashed_extensions_of(es: Seq<Seq<char>>) -> Seq<Seq<char>>
    decreases es.len(),
{
    if es.len() == 0 {
        Seq::empty()
    } else {
        seq![xx_digest_of(es[0])] + hashed_extensions_of(es.drop_first())
    }
}

/// A platform descriptor with each field replaced by its digest.
pub open spec fn hashed_platform_view(p: UserAgentPlatformView) -> UserAgentPlatformView {
    UserAgentPlatformView {
        name: xx_digest_of(p.name),
        version: xx_digest_of(p.version),
        details: xx_digest_of(p.details),
    }
}

/// All platform descriptors with their fields replaced by digests.
pub open spec fn hashed_platform_views_of(ps: Seq<UserAgentPlatformView>) -> Seq<
    UserAgentPlatformView,
>
    decreases ps.len(),
{
    if ps.len() == 0 {
        Seq::empty()
    } else {
        seq![hashed_platform_view(ps[0])] + hashed_platform_views_of(ps.drop_first())
    }
}

/// The session token built from an IP, a fingerprint and a random nonce:
/// five dot-separated fields.
pub open spec fn session_token_spec(
    ip: Seq<char>,
    ua: ParsedUserAgentView,
    nonce: Seq<char>,
) -> Seq<char> {
    join_seq(
        seq![
            "s1"@,
            xx_digest_of(ip),
            join_seq(hashed_triples_of(ua.platforms), seq!['|', '|']),
            join_seq(hashed_extensions_of(ua.extensions), seq!['_']),
            nonce,
        ],
        seq!['.'],
    )
}

/// What decoding a generated token yields. With no extensions the fourth
/// field is empty and decodes to a single empty extension entry.
pub open spec fn parsed_generated(
    ip: Seq<char>,
    ua: ParsedUserAgentView,
    nonce: Seq<char>,
) -> ParsedCookieView {
    ParsedCookieView {
        prefix: "s1"@,
        ip: xx_digest_of(ip),
        platforms: hashed_platform_views_of(ua.platforms),
        extensions: if ua.extensions.len() == 0 {
            seq![Seq::<char>::empty()]
        } else {
            hashed_extensions_of(ua.extensions)
        },
        random: nonce,
    }
}

/// The wrapper facts about digests that the round trip rests on: every
/// digest embedded for this fingerprint is a decimal string.
pub open spec fn fingerprint_digests_are_digits(ua: ParsedUserAgentView) -> bool {
    &&& forall|i: int|
        0 <= i < ua.platforms.len() ==> {
            &&& all_decimal_digits(xx_digest_of((#[trigger] ua.platforms[i]).name))
            &&& all_decimal_digits(xx_digest_of(ua.platforms[i].version))
            &&& all_decimal_digits(xx_digest_of(ua.platforms[i].details))
        }
    &&& forall|i: int|
        0 <= i < ua.extensions.len() ==> all_decimal_digits(
            xx_digest_of(#[trigger] ua.extensions[i]),
        )
}

/// A token freshly generated for this IP and fingerprint: the facts hold
/// for some 32-character alphanumeric nonce.
pub open spec fn fresh_token_facts(ip: Seq<char>, ua: ParsedUserAgentView, tok: Seq<char>) -> bool {
    exists|nonce: Seq<char>| generated_token_facts(ip, ua, nonce, tok)
}

/// Everything `generate_browser_session` promises about its result, for the
/// nonce it drew.
pub open spec fn generated_token_facts(
    ip: Seq<char>,
    ua: ParsedUserAgentView,
    nonce: Seq<char>,
    tok: Seq<char>,
) -> bool {
    &&& nonce.len() == 32
    &&& all_ascii_alnum(nonce)
    &&& tok == session_token_spec(ip, ua, nonce)
    &&& parse_cookie_spec(tok) == Some(parsed_generated(ip, ua, nonce))
}

// ---------------------------------------------------------------------------
// Avoidance facts feeding the round trip.
// ---------------------------------------------------------------------------

/// Every character of `s` is a digit or a dash.
pub open spec fn digits_or_dash(s: Seq<char>) -> bool {
    forall|i: int| 0 <= i < s.len() ==> is_decimal_digit(#[trigger] s[i]) || s[i] == '-'
}

proof fn lemma_digits_avoid(s: Seq<char>, t: Seq<char>)
    requires
        all_decimal_digits(s),
        forall|j: int| 0 <= j < t.len() ==> !is_decimal_digit(#[trigger] t[j]),
    ensures
        avoids(s, t),
{
}

proof fn lemma_triple_chars(p: UserAgentPlatformView)
    requires
        all_decimal_digits(xx_digest_of(p.name)),
        all_decimal_digits(xx_digest_of(p.version)),
        all_decimal_digits(xx_digest_of(p.details)),
    ensures
        digits_or_dash(hashed_triple_spec(p)),
{
    let t = hashed_triple_spec(p);
    let a = xx_digest_of(p.name);
    let b = xx_digest_of(p.version);
    let c = xx_digest_of(p.details);
    assert forall|i: int| 0 <= i < t.len() implies is_decimal_digit(#[trigger] t[i]) || t[i]
        == '-' by {
        if i < a.len() {
            assert(t[i] == a[i]);
        } else if i < a.len() + 1 {
            assert(t[i] == '-');
        } else if i < a.len() + 1 + b.len() {
            assert(t[i] == b[i - a.len() - 1]);
        } else if i < a.len() + 1 + b.len() + 1 {
            assert(t[i] == '-');
        } else {
            assert(t[i] == c[i - a.len() - b.len() - 2]);
        }
    }
}

proof fn lemma_triples_avoid(ps: Seq<UserAgentPlatformView>)
    requires
        forall|i: int|
            0 <= i < ps.len() ==> {
                &&& all_decimal_digits(xx_digest_of((#[trigger] ps[i]).name))
                &&& all_decimal_digits(xx_digest_of(ps[i].version))
                &&& all_decimal_digits(xx_digest_of(ps[i].details))
            },
    ensures
        forall|k: int|
            0 <= k < hashed_triples_of(ps).len() ==> digits_or_dash(
                #[trigger] hashed_triples_of(ps)[k],
            ),
        hashed_triples_of(ps).len() == ps.len(),
    decreases ps.len(),
{
    if ps.len() == 0 {
    } else {
        let rest = ps.drop_first();
        assert(forall|i: int| 0 <= i < rest.len() ==> rest[i] == ps[i + 1]);
        lemma_triples_avoid(rest);
        lemma_triple_chars(ps[0]);
        let ts = hashed_triples_of(ps);
        assert forall|k: int| 0 <= k < ts.len() implies digits_or_dash(#[trigger] ts[k]) by {
            if k == 0 {
                assert(ts[0] == hashed_triple_spec(ps[0]));
            } else {
                assert(ts[k] == hashed_triples_of(rest)[k - 1]);
            }
        }
    }
}

proof fn lemma_extensions_digits(es: Seq<Seq<char>>)
    requires
        forall|i: int| 0 <= i < es.len() ==> all_decimal_digits(xx_digest_of(#[trigger] es[i])),
    ensures
        forall|k: int|
            0 <= k < hashed_extensions_of(es).len() ==> all_decimal_digits(
                #[trigger] hashed_extensions_of(es)[k],
            ),
        hashed_extensions_of(es).len() == es.len(),
    decreases es.len(),
{
    if es.len() == 0 {
    } else {
        let rest = es.drop_first();
        assert(forall|i: int| 0 <= i < rest.len() ==> rest[i] == es[i + 1]);
        lemma_extensions_digits(rest);
        let hs = hashed_extensions_of(es);
        assert forall|k: int| 0 <= k < hs.len() implies all_decimal_digits(#[trigger] hs[k]) by {
            if k == 0 {
                assert(hs[0] == xx_digest_of(es[0]));
            } else {
                assert(hs[k] == hashed_extensions_of(rest)[k - 1]);
            }
        }
    }
}

/// Decoding the joined triples gives back the hashed platform descriptors.
proof fn lemma_triples_decode(ps: Seq<UserAgentPlatformView>)
    requires
        forall|i: int|
            0 <= i < ps.len() ==> {
                &&& all_decimal_digits(xx_digest_of((#[trigger] ps[i]).name))
                &&& all_decimal_digits(xx_digest_of(ps[i].version))
                &&& all_decimal_digits(xx_digest_of(ps[i].details))
            },
    ensures
        triples_of(hashed_triples_of(ps)) == hashed_platform_views_of(ps),
    decreases ps.len(),
{
    if ps.len() == 0 {
        assert(triples_of(hashed_triples_of(ps)) =~= hashed_platform_views_of(ps));
    } else {
        let rest = ps.drop_first();
        assert(forall|i: int| 0 <= i < rest.len() ==> rest[i] == ps[i + 1]);
        lemma_triples_decode(rest);
        let p = ps[0];
        let a = xx_digest_of(p.name);
        let b = xx_digest_of(p.version);
        let c = xx_digest_of(p.details);
        let parts = seq![a, b, c];
        assert(join_seq(parts, seq!['-']) =~= hashed_triple_spec(p)) by {
            let s_bc = seq![b, c];
            let s_c = seq![c];
            assert(join_seq(s_c, seq!['-']) == c);
            assert(s_bc.drop_first() =~~= s_c);
            assert(s_bc[0] == b);
            assert(join_seq(s_bc, seq!['-']) == b + seq!['-'] + c);
            assert(parts.drop_first() =~~= s_bc);
            assert(parts[0] == a);
            assert(join_seq(parts, seq!['-']) == a + seq!['-'] + (b + seq!['-'] + c));
        }
        assert(forall|i: int| 0 <= i < parts.len() ==> avoids(#[trigger] parts[i], seq!['-']))
            by {
            lemma_digits_avoid(a, seq!['-']);
            lemma_digits_avoid(b, seq!['-']);
            lemma_digits_avoid(c, seq!['-']);
        }
        lemma_split_join(parts, seq!['-']);
        let ts = hashed_triples_of(ps);
        assert(ts[0] == hashed_triple_spec(p));
        assert(ts.drop_first() =~~= hashed_triples_of(rest));
        assert(split_seq(ts[0], seq!['-']) == parts);
        assert(triples_of(ts) =~= seq![
            UserAgentPlatformView { name: a, version: b, details: c },
        ] + triples_of(hashed_triples_of(rest)));
        assert(hashed_platform_views_of(ps) =~= seq![hashed_platform_view(p)]
            + hashed_platform_views_of(rest));
    }
}

// ---------------------------------------------------------------------------
// The round trip and token generation.
// ---------------------------------------------------------------------------

/// Round trip: decoding a generated token reproduces the hashed IP, the
/// hashed platform triples and the hashed extensions (the nonce rides along
/// as the fifth field). With no extensions the fourth field is empty, and
/// decodes to one empty extension entry instead of an empty list.
pub proof fn lemma_token_round_trip(ip: Seq<char>, ua: ParsedUserAgentView, nonce: Seq<char>)
    requires
        nonce.len() == 32,
        all_ascii_alnum(nonce),
        all_decimal_digits(xx_digest_of(ip)),
        fingerprint_digests_are_digits(ua),
    ensures
        parse_cookie_spec(session_token_spec(ip, ua, nonce)) == Some(
            parsed_generated(ip, ua, nonce),
        ),
{
    reveal_strlit("s1");
    let dot = seq!['.'];
    let bars = seq!['|', '|'];
    let under = seq!['_'];
    let triples = hashed_triples_of(ua.platforms);
    let hexts = hashed_extensions_of(ua.extensions);
    let f2 = join_seq(triples, bars);
    let f3 = join_seq(hexts, under);
    let fields = seq!["s1"@, xx_digest_of(ip), f2, f3, nonce];
    let tok = session_token_spec(ip, ua, nonce);
    assert(tok == join_seq(fields, dot));

    lemma_triples_avoid(ua.platforms);
    lemma_extensions_digits(ua.extensions);

    // Every field avoids the dot separator.
    assert(avoids("s1"@, dot)) by {
        assert("s1"@[0] == 's' && "s1"@[1] == '1');
    }
    lemma_digits_avoid(xx_digest_of(ip), dot);
    assert(avoids(f2, dot)) by {
        assert(forall|k: int| 0 <= k < triples.len() ==> avoids(#[trigger] triples[k], dot));
        lemma_join_avoids(triples, bars, dot);
    }
    assert(avoids(f3, dot)) by {
        assert(forall|k: int| 0 <= k < hexts.len() ==> avoids(#[trigger] hexts[k], dot)) by {
            assert forall|k: int| 0 <= k < hexts.len() implies avoids(#[trigger] hexts[k], dot)
                by {
                lemma_digits_avoid(hexts[k], dot);
            }
        }
        lemma_join_avoids(hexts, under, dot);
    }
    assert(avoids(nonce, dot));
    assert(forall|i: int| 0 <= i < fields.len() ==> avoids(#[trigger] fields[i], dot)) by {
        assert(fields[0] == "s1"@ && fields[1] == xx_digest_of(ip) && fields[2] == f2 && fields[3]
            == f3 && fields[4] == nonce);
    }
    lemma_split_join(fields, dot);
    assert(split_seq(tok, dot) == fields);

    // Third field: the platform triples come back.
    if ua.platforms.len() == 0 {
        assert(triples_of(split_seq(f2, bars)) =~= hashed_platform_views_of(ua.platforms)) by {
            assert(f2 =~= Seq::<char>::empty());
            lemma_avoids_no_occurrence(f2, bars);
            assert(split_seq(f2, bars) =~= seq![f2]);
            lemma_avoids_no_occurrence(f2, seq!['-']);
            assert(split_seq(f2, seq!['-']) =~= seq![f2]);
            assert(split_seq(f2, seq!['-']).len() == 1);
            assert(seq![f2].drop_first() =~~= Seq::<Seq<char>>::empty());
            assert(triples_of(Seq::<Seq<char>>::empty()) =~~= Seq::<
                UserAgentPlatformView,
            >::empty());
            assert(triples_of(seq![f2]) =~~= Seq::<UserAgentPlatformView>::empty());
        }
    } else {
        assert(forall|k: int| 0 <= k < triples.len() ==> avoids(#[trigger] triples[k], bars));
        lemma_split_join(triples, bars);
        assert(split_seq(f2, bars) == triples);
        lemma_triples_decode(ua.platforms);
    }

    // Fourth field: the hashed extensions come back, or one empty entry.
    if ua.extensions.len() == 0 {
        assert(f3 =~= Seq::<char>::empty());
        lemma_avoids_no_occurrence(f3, under);
        assert(split_seq(f3, under) =~= seq![Seq::<char>::empty()]);
    } else {
        assert forall|k: int| 0 <= k < hexts.len() implies avoids(#[trigger] hexts[k], under) by {
            lemma_digits_avoid(hexts[k], under);
        }
        lemma_split_join(hexts, under);
    }

    assert(parse_cookie_spec(tok) == Some(parsed_generated(ip, ua, nonce))) by {
        assert(parse_cookie_spec(tok).unwrap() =~~= parsed_generated(ip, ua, nonce));
    }
}

/// Builds the session token for an IP and a parsed user-agent: the `s1`
/// prefix, the hashed IP, the hashed platform triples, the hashed extension
/// tokens and a fresh 32-character alphanumeric nonce, dot-joined.
pub fn generate_browser_session(ip: String, user_agent: ParsedUserAgent) -> (r: String)
    ensures
        fresh_token_facts(ip@, user_agent@, r@),
{
    let random = random_string(32);
    let hashed_ip = xx_hash(ip.as_str());
    let ghost pls = user_agent@.platforms;
    let mut triples: Vec<String> = Vec::new();
    assert(triples.deep_view() =~~= Seq::<Seq<char>>::empty());
    assert(pls.skip(0) =~~= pls);
    assert(triples.deep_view() + hashed_triples_of(pls.skip(0)) =~~= hashed_triples_of(pls));
    let mut i: usize = 0;
    while i < user_agent.platforms.len()
        invariant
            i <= user_agent.platforms@.len(),
            pls == user_agent@.platforms,
            pls.len() == user_agent.platforms@.len(),
            hashed_triples_of(pls) == triples.deep_view() + hashed_triples_of(pls.skip(i as int)),
            forall|k: int|
                0 <= k < i ==> {
                    &&& all_decimal_digits(xx_digest_of((#[trigger] pls[k]).name))
                    &&& all_decimal_digits(xx_digest_of(pls[k].version))
                    &&& all_decimal_digits(xx_digest_of(pls[k].details))
                },
        decreases user_agent.platforms@.len() - i,
    {
        let ghost prev = triples.deep_view();
        proof {
            assert(pls.skip(i as int)[0] == pls[i as int]);
            assert(pls.skip(i as int).drop_first() =~~= pls.skip(i + 1));
            assert(pls[i as int] == user_agent.platforms@[i as int]@);
        }
        let platform = &user_agent.platforms[i];
        let hn = xx_hash(platform.name.as_str());
        let hv = xx_hash(platform.version.as_str());
        let hd = xx_hash(platform.details.as_str());
        let mut triple = hn;
        triple.append("-");
        triple.append(hv.as_str());
        triple.append("-");
        triple.append(hd.as_str());
        proof {
            reveal_strlit("-");
            assert("-"@ =~= seq!['-']);
            assert(triple@ =~= hashed_triple_spec(pls[i as int]));
        }
        triples.push(triple);
        assert(triples.deep_view() =~~= prev.push(hashed_triple_spec(pls[i as int])));
        assert(hashed_triples_of(pls.skip(i as int)) =~~= seq![
            hashed_triple_spec(pls[i as int]),
        ] + hashed_triples_of(pls.skip(i + 1)));
        assert(hashed_triples_of(pls) =~~= triples.deep_view() + hashed_triples_of(
            pls.skip(i + 1),
        ));
        i = i + 1;
    }
    assert(pls.skip(pls.len() as int) =~~= Seq::<UserAgentPlatformView>::empty());
    assert(triples.deep_view() =~~= hashed_triples_of(pls));

    let ghost exts = user_agent@.extensions;
    let mut hashed_exts: Vec<String> = Vec::new();
    assert(hashed_exts.deep_view() =~~= Seq::<Seq<char>>::empty());
    assert(exts.skip(0) =~~= exts);
    assert(hashed_exts.deep_view() + hashed_extensions_of(exts.skip(0)) =~~= hashed_extensions_of(
        exts,
    ));
    let mut j: usize = 0;
    while j < user_agent.extensions.len()
        invariant
            j <= user_agent.extensions@.len(),
            exts == user_agent@.extensions,
            exts.len() == user_agent.extensions@.len(),
            hashed_extensions_of(exts) == hashed_exts.deep_view() + hashed_extensions_of(
                exts.skip(j as int),
            ),
            forall|k: int|
                0 <= k < j ==> all_decimal_digits(xx_digest_of(#[trigger] exts[k])),
        decreases user_agent.extensions@.len() - j,
    {
        let ghost prev = hashed_exts.deep_view();
        proof {
            assert(exts.skip(j as int)[0] == exts[j as int]);
            assert(exts.skip(j as int).drop_first() =~~= exts.skip(j + 1));
            assert(exts[j as int] == user_agent.extensions@[j as int]@);
        }
        let he = xx_hash(user_agent.extensions[j].as_str());
        hashed_exts.push(he);
        assert(hashed_exts.deep_view() =~~= prev.push(xx_digest_of(exts[j as int])));
        assert(hashed_extensions_of(exts.skip(j as int)) =~~= seq![xx_digest_of(exts[j as int])]
            + hashed_extensions_of(exts.skip(j + 1)));
        assert(hashed_extensions_of(exts) =~~= hashed_exts.deep_view() + hashed_extensions_of(
            exts.skip(j + 1),
        ));
        j = j + 1;
    }
    assert(exts.skip(exts.len() as int) =~~= Seq::<Seq<char>>::empty());
    assert(hashed_exts.deep_view() =~~= hashed_extensions_of(exts));

    let joined_platforms = join_strings(&triples, "||");
    let joined_extensions = join_strings(&hashed_exts, "_");
    let prefix = "s1";
    let mut parts: Vec<String> = Vec::new();
    parts.push(prefix.to_owned());
    parts.push(hashed_ip);
    parts.push(joined_platforms);
    parts.push(joined_extensions);
    parts.push(random);
    let r = join_strings(&parts, ".");
    proof {
        reveal_strlit("||");
        reveal_strlit("_");
        reveal_strlit(".");
        assert("||"@ =~= seq!['|', '|']);
        assert("_"@ =~= seq!['_']);
        assert("."@ =~= seq!['.']);
        let nonce = parts.deep_view()[4];
        assert(parts.deep_view() =~~= seq![
            "s1"@,
            xx_digest_of(ip@),
            join_seq(hashed_triples_of(user_agent@.platforms), seq!['|', '|']),
            join_seq(hashed_extensions_of(user_agent@.extensions), seq!['_']),
            nonce,
        ]);
        assert(r@ == session_token_spec(ip@, user_agent@, nonce));
        lemma_token_round_trip(ip@, user_agent@, nonce);
        assert(generated_token_facts(ip@, user_agent@, nonce, r@));
        assert(fresh_token_facts(ip@, user_agent@, r@));
    }
    r
}

/// Builds a session token for a request: rejects a request without a
/// user-agent header, otherwise parses the header and generates the token.
pub fn create_browser_session(ip: String, user_agent: Option<String>) -> (r: Result<
    String,
    HttpError,
>)
    ensures
        r matches Ok(token) ==> user_agent is Some && fresh_token_facts(
            ip@,
            parse_user_agent_spec(user_agent.unwrap()@),
            token@,
        ),
        r matches Err(e) ==> user_agent is None && (e matches HttpError::BadRequest(s)
            && s.message@ == "No user agent present"@),
{
    let agent = match user_agent {
        Some(agent) => agent,
        None => {
            return Err(HttpError::BadRequest(Status::from_message("No user agent present")));
        },
    };
    let parsed_user_agent = parse_user_agent(agent);
    let ghost pua = parsed_user_agent@;
    let ghost ipv = ip@;
    let token = generate_browser_session(ip, parsed_user_agent);
    proof {
        assert(pua == parse_user_agent_spec(user_agent.unwrap()@));
        assert(fresh_token_facts(ipv, parse_user_agent_spec(user_agent.unwrap()@), token@));
    }
    Ok(token)
}

} // verus!
