//! Matching URLs found in a document against the compiled blocklist, with
//! the anchoring of each pattern kind and first/third-party discrimination.

use crate::bytes::{eq_ci, lower_copy, lower_seq, occurs_at};
use crate::dac::automaton::{dac_patterns, dac_standard, find_overlapping};
use crate::dac::pattern_type::{anchor_ok, sub_range, PatternType, NOT_THIRD_PARTY, TAG_MASK};
use crate::dac::psl::{filter_of, prepare_adblock_filter, sld};
use crate::processors::js_urls::{likely_url, script_ctx, url_literals, JsUrlsIterator};
use daachorse::DoubleArrayAhoCorasick;
use publicsuffix2::List;
use url::Url;
use vstd::prelude::*;

verus! {

/// The serialized URL that `src` resolves to against the URL `base`
/// (url's `Url::parse` then `Url::join`), if both parse.
pub uninterp spec fn resolved_of(base: Seq<u8>, src: Seq<u8>) -> Option<Seq<u8>>;

/// The host of URL `u` when it is a domain name (url's `Url::domain`).
pub uninterp spec fn url_domain_of(u: Seq<u8>) -> Option<Seq<u8>>;

/// The host of URL `u`, whatever its kind (url's `Url::host_str`).
pub uninterp spec fn url_host_of(u: Seq<u8>) -> Option<Seq<u8>>;

/// Relies on url's `Url::parse` and `Url::join`: `src` resolved against
/// `base`, serialized; a function of the two texts alone. Bytes that are not
/// UTF-8 do not parse.
#[verifier::external_body]
fn resolve(base: &[u8], src: &[u8]) -> (r: Option<Vec<u8>>)
    ensures
        r matches Some(v) ==> resolved_of(base@, src@) == Some(v@),
        r is None ==> resolved_of(base@, src@) is None,
{
    let b = Url::parse(std::str::from_utf8(base).ok()?).ok()?;
    b.join(std::str::from_utf8(src).ok()?).ok().map(|u| u.as_str().as_bytes().to_vec())
}

/// Relies on url's `Url::domain`: the host of `u` when it is a domain name,
/// none when `u` does not parse, has no host, or has an IP address.
#[verifier::external_body]
fn domain_of(u: &[u8]) -> (r: Option<Vec<u8>>)
    ensures
        r matches Some(v) ==> url_domain_of(u@) == Some(v@),
        r is None ==> url_domain_of(u@) is None,
{
    let url = Url::parse(std::str::from_utf8(u).ok()?).ok()?;
    url.domain().map(|d| d.as_bytes().to_vec())
}

/// Relies on url's `Url::host_str`: the host of `u`, none when `u` does not
/// parse or has no host.
#[verifier::external_body]
fn host_of(u: &[u8]) -> (r: Option<Vec<u8>>)
    ensures
        r matches Some(v) ==> url_host_of(u@) == Some(v@),
        r is None ==> url_host_of(u@) is None,
{
    let url = Url::parse(std::str::from_utf8(u).ok()?).ok()?;
    url.host_str().map(|d| d.as_bytes().to_vec())
}

/// `host` is `etld1` or one of its subdomains (ASCII case ignored).
pub open spec fn subdomain_or_equal(host: Seq<u8>, etld1: Seq<u8>) -> bool {
    &&& host.len() >= etld1.len()
    &&& eq_ci(host.subrange(host.len() - etld1.len(), host.len() as int), etld1)
    &&& (host.len() == etld1.len() || host[host.len() - etld1.len() - 1] == 46)
}

pub fn is_subdomain_or_equal(host: &[u8], etld1: &[u8]) -> (r: bool)
    ensures
        r == subdomain_or_equal(host@, etld1@),
{
    let h = host.len();
    let e = etld1.len();
    h >= e && crate::bytes::bytes_eq_ci(&host[h - e..h], etld1) && (h == e || host[h - e - 1] == 46)
}

/// A hit of pattern `q` at `at` in the lowercased URL `u` blocks the URL:
/// it is anchored as its kind demands, and a third-party-only pattern only
/// counts when `host` lies outside the document's registrable domain.
pub open spec fn blocking_hit(
    m: Map<Seq<u8>, u32>,
    u: Seq<u8>,
    host: Seq<u8>,
    etld1: Seq<u8>,
    sub: Option<(usize, usize)>,
    q: Seq<u8>,
    at: int,
) -> bool {
    &&& m.contains_key(q)
    &&& occurs_at(u, q, at)
    &&& anchor_ok(PatternType(m[q] & TAG_MASK), u, at, sub)
    &&& (m[q] & TAG_MASK & NOT_THIRD_PARTY != 0 || !subdomain_or_equal(host, etld1))
}

/// Some pattern of the automaton blocks the lowercased URL `u`.
pub open spec fn url_blocked(
    m: Map<Seq<u8>, u32>,
    u: Seq<u8>,
    host: Seq<u8>,
    etld1: Seq<u8>,
    sub: Option<(usize, usize)>,
) -> bool {
    exists|q: Seq<u8>, at: int| #[trigger] blocking_hit(m, u, host, etld1, sub, q, at)
}

/// Whether the lowercased URL `u`, whose host is `host`, is blocked for a
/// document whose registrable domain is `etld1`; `sub` is the subdomain
/// range of `u`.
pub fn is_blocked_url(
    d: &DoubleArrayAhoCorasick<u32>,
    u: &[u8],
    host: &[u8],
    etld1: &[u8],
    sub: Option<(usize, usize)>,
) -> (r: bool)
    requires
        dac_standard(*d),
    ensures
        r == url_blocked(dac_patterns(*d), u@, host@, etld1@, sub),
{
    let ghost m = dac_patterns(*d);
    let hits = find_overlapping(d, u);
    let outside = !is_subdomain_or_equal(host, etld1);
    let ulen: usize = u.len();
    let mut h: usize = 0;
    while h < hits.len()
        invariant
            h <= hits@.len(),
            ulen as int == u@.len(),
            m == dac_patterns(*d),
            outside == !subdomain_or_equal(host@, etld1@),
            forall|x: int|
                0 <= x < hits@.len() ==> {
                    let (s, e, v) = #[trigger] hits@[x];
                    &&& s <= e <= u@.len()
                    &&& m.contains_key(u@.subrange(s as int, e as int))
                    &&& m[u@.subrange(s as int, e as int)] == v
                },
            forall|x: int|
                0 <= x < h ==> !(anchor_ok(
                    PatternType((#[trigger] hits@[x]).2 & TAG_MASK),
                    u@,
                    hits@[x].0 as int,
                    sub,
                ) && (hits@[x].2 & TAG_MASK & NOT_THIRD_PARTY != 0 || outside)),
        decreases hits@.len() - h,
    {
        let (s, e, v) = hits[h];
        let p = PatternType::from(v);
        if p.is_match_at(u, s, sub) && (!p.is_third_party() || outside) {
            proof {
                let q = u@.subrange(s as int, e as int);
                assert(blocking_hit(m, u@, host@, etld1@, sub, q, s as int));
            }
            return true;
        }
        h += 1;
    }
    proof {
        assert forall|q: Seq<u8>, at: int| !#[trigger] blocking_hit(m, u@, host@, etld1@, sub, q, at) by {
            if blocking_hit(m, u@, host@, etld1@, sub, q, at) {
                assert(occurs_at(u@, q, at));
                let x = choose|x: int|
                    0 <= x < hits@.len() && (#[trigger] hits@[x]) == (
                        at as usize,
                        (at + q.len()) as usize,
                        m[q],
                    );
                assert(u@.len() <= usize::MAX);
                assert(hits@[x].0 as int == at);
            }
        }
    }
    false
}

/// What the matcher knows of the document: its registrable domain and the
/// URL that relative references resolve against.
#[derive(Clone)]
pub struct UrlBaseInfo {
    pub etld_plus1: Vec<u8>,
    pub base: Vec<u8>,
}

/// The base of a document at `uri`: `base_href` (or `./`) resolved against
/// it, or `uri` itself when that does not resolve.
pub open spec fn base_of(uri: Seq<u8>, href: Seq<u8>) -> Seq<u8> {
    match resolved_of(uri, href) {
        Some(b) => b,
        None => uri,
    }
}

/// The base info of a document at `uri`, with `base_href` (from a `<base>`
/// element) resolved against it when given; none when the URI has no host,
/// or the suffix list has no registrable domain for the host.
pub fn url_base_info(list: &List, uri: &[u8], base_href: Option<&[u8]>) -> (r: Option<UrlBaseInfo>)
    ensures
        url_host_of(uri@) is None ==> r is None,
        r matches Some(i) ==> url_host_of(uri@) matches Some(h) && i.etld_plus1@.len() <= h.len()
            && i.etld_plus1@ == h.subrange(h.len() - i.etld_plus1@.len(), h.len() as int) && i.base@
            == base_of(uri@, match base_href {
            Some(b) => b@,
            None => seq![46u8, 47],
        }),
{
    let host = host_of(uri)?;
    let etld_plus1 = sld(list, host.as_slice())?;
    let dot: [u8; 2] = [46, 47];
    assert(dot@ =~= seq![46u8, 47]);
    let href: &[u8] = match base_href {
        Some(h) => h,
        None => dot.as_slice(),
    };
    let base = match resolve(uri, href) {
        Some(b) => b,
        None => {
            let u = crate::bytes::copy_range(uri, 0, uri.len());
            assert(u@ =~= uri@);
            u
        },
    };
    Some(UrlBaseInfo { etld_plus1, base })
}

/// Whether URL text `src`, found in a document with base `base` and
/// registrable domain `etld1`, is blocked, when the suffix list splits the
/// resolved URL as `filter_of` does with answer `sld`: it resolves to a URL
/// with a domain host, and the lowercased URL has a blocking hit.
pub open spec fn src_blocked(m: Map<Seq<u8>, u32>, base: Seq<u8>, etld1: Seq<u8>, src: Seq<u8>, sld: Option<usize>) -> bool {
    match resolved_of(base, src) {
        None => false,
        Some(u) => match url_domain_of(u) {
            None => false,
            Some(h) => url_blocked(m, lower_seq(u), h, etld1, sub_range(filter_of(lower_seq(u), sld))),
        },
    }
}

/// Whether the URL `src`, found in a document, is blocked (see
/// `src_blocked`; `sld` is what the suffix list answers for the resolved
/// URL). A URL that does not resolve, or whose host is an IP address, is
/// never blocked.
pub fn is_match_src(d: &DoubleArrayAhoCorasick<u32>, list: &List, info: &UrlBaseInfo, src: &[u8]) -> (r: bool)
    requires
        dac_standard(*d),
    ensures
        exists|sld: Option<usize>| r == #[trigger] src_blocked(dac_patterns(*d), info.base@, info.etld_plus1@, src@, sld),
{
    let url = match resolve(info.base.as_slice(), src) {
        Some(u) => u,
        None => {
            assert(!src_blocked(dac_patterns(*d), info.base@, info.etld_plus1@, src@, None));
            return false;
        },
    };
    let host = match domain_of(url.as_slice()) {
        Some(h) => h,
        None => {
            assert(!src_blocked(dac_patterns(*d), info.base@, info.etld_plus1@, src@, None));
            return false;
        },
    };
    let lowered = lower_copy(url.as_slice());
    let f = prepare_adblock_filter(list, lowered.as_slice());
    let sub = match f {
        Some(f) => Some(f.sub_without_www),
        None => None,
    };
    let r = is_blocked_url(d, lowered.as_slice(), host.as_slice(), info.etld_plus1.as_slice(), sub);
    proof {
        let s0 = choose|s0: Option<usize>| f == filter_of(lowered@, s0);
        assert(sub == sub_range(filter_of(lowered@, s0)));
        assert(r == src_blocked(dac_patterns(*d), info.base@, info.etld_plus1@, src@, s0));
    }
    r
}

/// The literal `lit` of `code` is not blocked, for some answer of the
/// suffix list.
pub open spec fn literal_clear(m: Map<Seq<u8>, u32>, base: Seq<u8>, etld1: Seq<u8>, code: Seq<u8>, lit: (usize, usize)) -> bool {
    exists|sld: Option<usize>| !#[trigger] src_blocked(m, base, etld1, code.subrange(lit.0 as int, lit.1 as int), sld)
}

/// Whether some URL literal of a script (see `url_literals`) is blocked;
/// each literal is judged with the suffix list's answer for its URL.
pub fn is_match_code(d: &DoubleArrayAhoCorasick<u32>, list: &List, info: &UrlBaseInfo, code: &[u8]) -> (r: bool)
    requires
        dac_standard(*d),
        code@.len() <= isize::MAX,
    ensures
        ({
            let lits = url_literals(code@, 0, seq![script_ctx()]);
            &&& r ==> exists|i: int, sld: Option<usize>|
                0 <= i < lits.len() && #[trigger] src_blocked(
                    dac_patterns(*d),
                    info.base@,
                    info.etld_plus1@,
                    code@.subrange(lits[i].0 as int, lits[i].1 as int),
                    sld,
                )
            &&& !r ==> forall|i: int|
                0 <= i < lits.len() ==> literal_clear(dac_patterns(*d), info.base@, info.etld_plus1@, code@, #[trigger] lits[i])
        }),
{
    let ghost all = url_literals(code@, 0, seq![script_ctx()]);
    let mut it = JsUrlsIterator::new(code);
    let ghost mut seen: Seq<(usize, usize)> = Seq::empty();
    assert(all =~= seen + url_literals(code@, it.position(), it.scopes()));
    loop
        invariant
            it.wf(),
            it.source() == code@,
            dac_standard(*d),
            all == seen + url_literals(code@, it.position(), it.scopes()),
            all == url_literals(code@, 0, seq![script_ctx()]),
            forall|i: int|
                0 <= i < seen.len() ==> literal_clear(dac_patterns(*d), info.base@, info.etld_plus1@, code@, #[trigger] seen[i]),
        decreases code@.len() + 1 - it.position(),
    {
        let ghost p0 = it.position();
        let ghost s0 = it.scopes();
        match it.next_range() {
            Some((a, e)) => {
                assert(url_literals(code@, p0, s0) == seq![(a, e)] + url_literals(code@, it.position(), it.scopes()));
                assert(all[seen.len() as int] == (a, e)) by {
                    assert((seen + url_literals(code@, p0, s0))[seen.len() as int] == (a, e));
                }
                let hit = is_match_src(d, list, info, &code[a..e]);
                let ghost s1 = choose|sld: Option<usize>|
                    hit == #[trigger] src_blocked(dac_patterns(*d), info.base@, info.etld_plus1@, code@.subrange(a as int, e as int), sld);
                if hit {
                    assert(src_blocked(
                        dac_patterns(*d),
                        info.base@,
                        info.etld_plus1@,
                        code@.subrange(all[seen.len() as int].0 as int, all[seen.len() as int].1 as int),
                        s1,
                    ));
                    return true;
                }
                proof {
                    assert(literal_clear(dac_patterns(*d), info.base@, info.etld_plus1@, code@, (a, e)));
                    seen = seen.push((a, e));
                    assert(all =~= seen + url_literals(code@, it.position(), it.scopes()));
                }
            },
            None => {
                assert(url_literals(code@, p0, s0) =~= Seq::<(usize, usize)>::empty());
                assert(all =~= seen);
                assert forall|i: int| 0 <= i < all.len() implies literal_clear(
                    dac_patterns(*d),
                    info.base@,
                    info.etld_plus1@,
                    code@,
                    #[trigger] all[i],
                ) by {
                    assert(all[i] == seen[i]);
                }
                return false;
            },
        }
    }
}

/// A blocked URL is blocked by a hit that its pattern's kind accepts: some
/// pattern occurs at some position and is anchored there as its kind demands.
pub proof fn lemma_blocked_hit_is_anchored(
    m: Map<Seq<u8>, u32>,
    u: Seq<u8>,
    host: Seq<u8>,
    etld1: Seq<u8>,
    sub: Option<(usize, usize)>,
)
    requires
        url_blocked(m, u, host, etld1, sub),
    ensures
        exists|q: Seq<u8>, at: int|
            m.contains_key(q) && #[trigger] occurs_at(u, q, at) && anchor_ok(PatternType(m[q] & TAG_MASK), u, at, sub),
{
    let (q, at) = choose|q: Seq<u8>, at: int| #[trigger] blocking_hit(m, u, host, etld1, sub, q, at);
    assert(occurs_at(u, q, at));
}

} // verus!
