use vstd::prelude::*;

use crate::cookie::{ParsedCookie, ParsedCookieView};
use crate::hashing::{xx_digest_of, xx_hash};
use crate::sessions::{
    hashed_extensions_of, hashed_platform_view, hashed_platform_views_of, parsed_generated,
};
use crate::user_agent::{ParsedUserAgent, ParsedUserAgentView, UserAgentPlatformView};

verus! {

// ---------------------------------------------------------------------------
// The mismatch count and the decision threshold.
//
// The matcher scores `1 - m * penalty` against `0.6` with
// `penalty = 1 / (1 + 3N + M)`; over the rationals that comparison is
// exactly `5m < 2 * (1 + 3N + M)`, which is what is computed here.
// ---------------------------------------------------------------------------

/// How many of the three fields of one embedded platform triple disagree
/// with the digests of the presented platform.
pub open spec fn platform_mismatches(
    expected: UserAgentPlatformView,
    received: UserAgentPlatformView,
) -> int {
    (if expected.name != xx_digest_of(received.name) {
        1int
    } else {
        0int
    }) + (if expected.version != xx_digest_of(received.version) {
        1int
    } else {
        0int
    }) + (if expected.details != xx_digest_of(received.details) {
        1int
    } else {
        0int
    })
}

/// Positional field mismatches over paired platforms; the longer list's
/// extra entries are ignored.
pub open spec fn platform_mismatch_sum(
    expected: Seq<UserAgentPlatformView>,
    received: Seq<UserAgentPlatformView>,
) -> int
    decreases expected.len(),
{
    if expected.len() == 0 || received.len() == 0 {
        0
    } else {
        platform_mismatches(expected[0], received[0]) + platform_mismatch_sum(
            expected.drop_first(),
            received.drop_first(),
        )
    }
}

/// Positional mismatches over paired extension tokens; extra entries on
/// either side are ignored.
pub open spec fn extension_mismatch_sum(
    expected: Seq<Seq<char>>,
    received: Seq<Seq<char>>,
) -> int
    decreases expected.len(),
{
    if expected.len() == 0 || received.len() == 0 {
        0
    } else {
        (if expected[0] != xx_digest_of(received[0]) {
            1int
        } else {
            0int
        }) + extension_mismatch_sum(expected.drop_first(), received.drop_first())
    }
}

/// The total number of penalized signals: IP, platform fields, extensions.
pub open spec fn mismatch_count(
    cookie: ParsedCookieView,
    ip: Seq<char>,
    ua: ParsedUserAgentView,
) -> int {
    (if cookie.ip != xx_digest_of(ip) {
        1int
    } else {
        0int
    }) + platform_mismatch_sum(cookie.platforms, ua.platforms) + extension_mismatch_sum(
        cookie.extensions,
        ua.extensions,
    )
}

/// The shared per-mismatch weight is `1 /` this count of checkable signals.
pub open spec fn penalty_denominator(cookie: ParsedCookieView) -> int {
    1 + 3 * (cookie.platforms.len() as int) + (cookie.extensions.len() as int)
}

/// Accept iff the ownership probability `1 - m / D` stays above `3 / 5`.
pub open spec fn fingerprint_accepts(
    cookie: ParsedCookieView,
    ip: Seq<char>,
    ua: ParsedUserAgentView,
) -> bool {
    5 * mismatch_count(cookie, ip, ua) < 2 * penalty_denominator(cookie)
}

// ---------------------------------------------------------------------------
// Bounds: a mismatch count never exceeds the number of signals.
// ---------------------------------------------------------------------------

pub proof fn lemma_platform_sum_bounds(
    expected: Seq<UserAgentPlatformView>,
    received: Seq<UserAgentPlatformView>,
)
    ensures
        0 <= platform_mismatch_sum(expected, received) <= 3 * expected.len(),
    decreases expected.len(),
{
    if expected.len() == 0 || received.len() == 0 {
    } else {
        lemma_platform_sum_bounds(expected.drop_first(), received.drop_first());
    }
}

pub proof fn lemma_extension_sum_bounds(expected: Seq<Seq<char>>, received: Seq<Seq<char>>)
    ensures
        0 <= extension_mismatch_sum(expected, received) <= expected.len(),
    decreases expected.len(),
{
    if expected.len() == 0 || received.len() == 0 {
    } else {
        lemma_extension_sum_bounds(expected.drop_first(), received.drop_first());
    }
}

// ---------------------------------------------------------------------------
// Executable matcher.
// ---------------------------------------------------------------------------

/// Counts the penalized mismatches between a decoded token and the request
/// that presents it.
pub fn count_mismatches(cookie: &ParsedCookie, ip: &str, user_agent: &ParsedUserAgent) -> (m:
    u128)
    ensures
        m == mismatch_count(cookie@, ip@, user_agent@),
{
    proof {
        lemma_platform_sum_bounds(cookie@.platforms, user_agent@.platforms);
        lemma_extension_sum_bounds(cookie@.extensions, user_agent@.extensions);
    }
    let mut m: u128 = 0;
    let hashed_ip = xx_hash(ip);
    if !cookie.ip.eq(&hashed_ip) {
        m = m + 1;
    }
    let ghost base = m as int;

    let ghost ce = cookie@.platforms;
    let ghost ue = user_agent@.platforms;
    let n = if cookie.platforms.len() < user_agent.platforms.len() {
        cookie.platforms.len()
    } else {
        user_agent.platforms.len()
    };
    assert(ce.skip(0) =~~= ce);
    assert(ue.skip(0) =~~= ue);
    let mut k: usize = 0;
    while k < n
        invariant
            k <= n,
            n == if ce.len() < ue.len() {
                ce.len() as int
            } else {
                ue.len() as int
            },
            ce == cookie@.platforms,
            ue == user_agent@.platforms,
            ce.len() == cookie.platforms@.len(),
            ue.len() == user_agent.platforms@.len(),
            m <= base + 3 * k,
            base <= 1,
            m + platform_mismatch_sum(ce.skip(k as int), ue.skip(k as int)) == base
                + platform_mismatch_sum(ce, ue),
        decreases n - k,
    {
        proof {
            assert(ce.skip(k as int)[0] == ce[k as int]);
            assert(ue.skip(k as int)[0] == ue[k as int]);
            assert(ce.skip(k as int).drop_first() =~~= ce.skip(k + 1));
            assert(ue.skip(k as int).drop_first() =~~= ue.skip(k + 1));
            assert(ce[k as int] == cookie.platforms@[k as int]@);
            assert(ue[k as int] == user_agent.platforms@[k as int]@);
            lemma_platform_sum_bounds(ce.skip(k + 1), ue.skip(k + 1));
        }
        let expected = &cookie.platforms[k];
        let received = &user_agent.platforms[k];
        let hn = xx_hash(received.name.as_str());
        if !expected.name.eq(&hn) {
            m = m + 1;
        }
        let hv = xx_hash(received.version.as_str());
        if !expected.version.eq(&hv) {
            m = m + 1;
        }
        let hd = xx_hash(received.details.as_str());
        if !expected.details.eq(&hd) {
            m = m + 1;
        }
        k = k + 1;
    }
    proof {
        if ce.len() < ue.len() {
            assert(ce.skip(n as int).len() == 0);
        } else {
            assert(ue.skip(n as int).len() == 0);
        }
        assert(platform_mismatch_sum(ce.skip(n as int), ue.skip(n as int)) == 0);
    }

    let ghost base2 = m as int;
    let ghost cx = cookie@.extensions;
    let ghost ux = user_agent@.extensions;
    let ne = if cookie.extensions.len() < user_agent.extensions.len() {
        cookie.extensions.len()
    } else {
        user_agent.extensions.len()
    };
    assert(cx.skip(0) =~~= cx);
    assert(ux.skip(0) =~~= ux);
    let mut j: usize = 0;
    while j < ne
        invariant
            j <= ne,
            ne == if cx.len() < ux.len() {
                cx.len() as int
            } else {
                ux.len() as int
            },
            cx == cookie@.extensions,
            ux == user_agent@.extensions,
            cx.len() == cookie.extensions@.len(),
            ux.len() == user_agent.extensions@.len(),
            m <= base2 + j,
            base2 <= 1 + 3 * (n as int),
            m + extension_mismatch_sum(cx.skip(j as int), ux.skip(j as int)) == base2
                + extension_mismatch_sum(cx, ux),
        decreases ne - j,
    {
        proof {
            assert(cx.skip(j as int)[0] == cx[j as int]);
            assert(ux.skip(j as int)[0] == ux[j as int]);
            assert(cx.skip(j as int).drop_first() =~~= cx.skip(j + 1));
            assert(ux.skip(j as int).drop_first() =~~= ux.skip(j + 1));
            assert(cx[j as int] == cookie.extensions@[j as int]@);
            assert(ux[j as int] == user_agent.extensions@[j as int]@);
            lemma_extension_sum_bounds(cx.skip(j + 1), ux.skip(j + 1));
        }
        let he = xx_hash(user_agent.extensions[j].as_str());
        if !cookie.extensions[j].eq(&he) {
            m = m + 1;
        }
        j = j + 1;
    }
    proof {
        if cx.len() < ux.len() {
            assert(cx.skip(ne as int).len() == 0);
        } else {
            assert(ux.skip(ne as int).len() == 0);
        }
        assert(extension_mismatch_sum(cx.skip(ne as int), ux.skip(ne as int)) == 0);
    }
    m
}

/// Decides whether the presenter of a decoded token is plausibly its
/// original owner: accept iff `5m < 2 * (1 + 3N + M)`, the exact form of
/// "ownership probability above 0.6".
pub fn is_same_client(cookie: &ParsedCookie, ip: &str, user_agent: &ParsedUserAgent) -> (b: bool)
    ensures
        b == fingerprint_accepts(cookie@, ip@, user_agent@),
{
    let m = count_mismatches(cookie, ip, user_agent);
    proof {
        lemma_platform_sum_bounds(cookie@.platforms, user_agent@.platforms);
        lemma_extension_sum_bounds(cookie@.extensions, user_agent@.extensions);
    }
    let n = cookie.platforms.len() as u128;
    let e = cookie.extensions.len() as u128;
    let d: u128 = 1 + 3 * n + e;
    5 * m < 2 * d
}

// ---------------------------------------------------------------------------
// Laws of the matcher.
// ---------------------------------------------------------------------------

proof fn lemma_hashed_lens(
    ps: Seq<UserAgentPlatformView>,
    es: Seq<Seq<char>>,
)
    ensures
        hashed_platform_views_of(ps).len() == ps.len(),
        hashed_extensions_of(es).len() == es.len(),
    decreases ps.len() + es.len(),
{
    if ps.len() > 0 {
        lemma_hashed_lens(ps.drop_first(), es);
    } else if es.len() > 0 {
        lemma_hashed_lens(ps, es.drop_first());
    }
}

proof fn lemma_platform_sum_identity(ps: Seq<UserAgentPlatformView>)
    ensures
        platform_mismatch_sum(hashed_platform_views_of(ps), ps) == 0,
    decreases ps.len(),
{
    if ps.len() == 0 {
    } else {
        let hs = hashed_platform_views_of(ps);
        assert(hs[0] == hashed_platform_view(ps[0]));
        assert(hs.drop_first() =~~= hashed_platform_views_of(ps.drop_first()));
        lemma_platform_sum_identity(ps.drop_first());
        assert(platform_mismatches(hs[0], ps[0]) == 0);
    }
}

proof fn lemma_extension_sum_identity(es: Seq<Seq<char>>)
    ensures
        extension_mismatch_sum(hashed_extensions_of(es), es) == 0,
    decreases es.len(),
{
    if es.len() == 0 {
    } else {
        let hs = hashed_extensions_of(es);
        assert(hs[0] == xx_digest_of(es[0]));
        assert(hs.drop_first() =~~= hashed_extensions_of(es.drop_first()));
        lemma_extension_sum_identity(es.drop_first());
    }
}

/// Matcher identity: a token checked against the exact IP and user-agent it
/// was generated from has no mismatching signal, so the ownership
/// probability stays at 1 and the matcher accepts.
pub proof fn lemma_matcher_identity(ip: Seq<char>, ua: ParsedUserAgentView, nonce: Seq<char>)
    ensures
        mismatch_count(parsed_generated(ip, ua, nonce), ip, ua) == 0,
        fingerprint_accepts(parsed_generated(ip, ua, nonce), ip, ua),
{
    let pc = parsed_generated(ip, ua, nonce);
    assert(pc.ip == xx_digest_of(ip));
    lemma_platform_sum_identity(ua.platforms);
    if ua.extensions.len() == 0 {
        assert(extension_mismatch_sum(pc.extensions, ua.extensions) == 0);
    } else {
        lemma_extension_sum_identity(ua.extensions);
    }
    assert(penalty_denominator(pc) >= 1);
}

proof fn lemma_platform_sum_single(
    ps: Seq<UserAgentPlatformView>,
    qs: Seq<UserAgentPlatformView>,
    i: int,
)
    requires
        qs.len() == ps.len(),
        0 <= i < ps.len(),
        forall|k: int| 0 <= k < ps.len() && k != i ==> #[trigger] qs[k] == ps[k],
        qs[i].version == ps[i].version,
        qs[i].details == ps[i].details,
        xx_digest_of(qs[i].name) != xx_digest_of(ps[i].name),
    ensures
        platform_mismatch_sum(hashed_platform_views_of(ps), qs) == 1,
    decreases ps.len(),
{
    let hs = hashed_platform_views_of(ps);
    assert(hs[0] == hashed_platform_view(ps[0]));
    assert(hs.drop_first() =~~= hashed_platform_views_of(ps.drop_first()));
    if i == 0 {
        assert(platform_mismatches(hs[0], qs[0]) == 1);
        assert(forall|k: int|
            0 <= k < ps.drop_first().len() ==> #[trigger] qs.drop_first()[k]
                == ps.drop_first()[k]);
        assert(qs.drop_first() =~~= ps.drop_first());
        lemma_platform_sum_identity(ps.drop_first());
    } else {
        assert(qs[0] == ps[0]);
        assert(platform_mismatches(hs[0], qs[0]) == 0);
        let ps1 = ps.drop_first();
        let qs1 = qs.drop_first();
        assert(forall|k: int| 0 <= k < ps1.len() && k != i - 1 ==> #[trigger] qs1[k] == ps1[k]);
        assert(qs1[i - 1] == qs[i] && ps1[i - 1] == ps[i]);
        lemma_platform_sum_single(ps1, qs1, i - 1);
    }
}

/// Matcher degradation: presenting a request whose user-agent differs from
/// the token's in exactly one platform name (its digest differing) costs
/// exactly one penalty, and the matcher still accepts precisely while one
/// penalty keeps the probability above the threshold: `5 < 2 * (1 + 3N + M')`.
pub proof fn lemma_matcher_single_corruption(
    ip: Seq<char>,
    ua: ParsedUserAgentView,
    ua2: ParsedUserAgentView,
    nonce: Seq<char>,
    i: int,
)
    requires
        ua2.platforms.len() == ua.platforms.len(),
        0 <= i < ua.platforms.len(),
        forall|k: int|
            0 <= k < ua.platforms.len() && k != i ==> #[trigger] ua2.platforms[k]
                == ua.platforms[k],
        ua2.platforms[i].version == ua.platforms[i].version,
        ua2.platforms[i].details == ua.platforms[i].details,
        xx_digest_of(ua2.platforms[i].name) != xx_digest_of(ua.platforms[i].name),
        ua2.extensions == ua.extensions,
    ensures
        mismatch_count(parsed_generated(ip, ua, nonce), ip, ua2) == 1,
        fingerprint_accepts(parsed_generated(ip, ua, nonce), ip, ua2) <==> 5 < 2
            * penalty_denominator(parsed_generated(ip, ua, nonce)),
        ua.extensions.len() >= 1 ==> penalty_denominator(parsed_generated(ip, ua, nonce)) == 1 + 3
            * ua.platforms.len() + ua.extensions.len(),
{
    let pc = parsed_generated(ip, ua, nonce);
    assert(pc.ip == xx_digest_of(ip));
    lemma_hashed_lens(ua.platforms, ua.extensions);
    lemma_platform_sum_single(ua.platforms, ua2.platforms, i);
    if ua.extensions.len() == 0 {
        assert(extension_mismatch_sum(pc.extensions, ua2.extensions) == 0);
    } else {
        lemma_extension_sum_identity(ua.extensions);
    }
}

} // verus!
