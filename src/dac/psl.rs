//! Splitting an Adblock rule into its domain, subdomain, eTLD+2 and path
//! suffix, with the Public Suffix List deciding where the registrable domain
//! starts.

use crate::bytes::{
    copy_range, decimal, find_first, find_first_exec, find_last, find_last_exec, is_digit, lemma_find_first,
    starts_with, starts_with_exec, trim_end_exec, trim_end_of,
};
use publicsuffix2::List;
use vstd::prelude::*;

verus! {

#[verifier::external_type_specification]
#[verifier::external_body]
pub struct ExList(List);

/// Relies on publicsuffix2's `List::sld` with raw matching (no normalisation,
/// no wildcards): the registrable domain it returns is borrowed from the host,
/// a suffix of it, so only its length is kept. Bytes that are not UTF-8 have
/// no registrable domain.
#[verifier::external_body]
fn sld_len(list: &List, host: &[u8]) -> (r: Option<usize>)
    ensures
        r matches Some(n) ==> n <= host@.len(),
{
    let opts = publicsuffix2::MatchOpts {
        wildcard: false,
        normalizer: Some(&publicsuffix2::options::RAW_NORMALIZER),
        strict: false,
        types: publicsuffix2::TypeFilter::Any,
    };
    std::str::from_utf8(host).ok().and_then(|h| list.sld(h, opts)).map(|s| s.len())
}

/// The registrable domain (eTLD+1) of a host, as the list sees it: a suffix of the host.
pub fn sld(list: &List, host: &[u8]) -> (r: Option<Vec<u8>>)
    ensures
        r matches Some(v) ==> v@.len() <= host@.len() && v@ == host@.subrange(
            host@.len() - v@.len(),
            host@.len() as int,
        ),
{
    match sld_len(list, host) {
        Some(n) => {
            let start = host.len() - n;
            let v = copy_range(host, start, host.len());
            Some(v)
        },
        None => None,
    }
}

/// One decimal octet of a dotted IPv4 address: 1 to 3 digits, no leading
/// zero, at most 255.
pub open spec fn ipv4_octet(s: Seq<u8>) -> bool {
    &&& 1 <= s.len() <= 3
    &&& forall|i: int| 0 <= i < s.len() ==> is_digit(#[trigger] s[i])
    &&& (s.len() == 1 || s[0] != 48)
    &&& decimal(s) <= 255
}

/// A dotted IPv4 address: four octets joined by three dots.
pub open spec fn ipv4_literal(s: Seq<u8>) -> bool {
    exists|i: int, j: int, k: int|
        0 <= i < j < k < s.len() && s[i] == 46 && s[j] == 46 && s[k] == 46 && ipv4_octet(
            #[trigger] s.subrange(0, i),
        ) && ipv4_octet(#[trigger] s.subrange(i + 1, j)) && ipv4_octet(
            #[trigger] s.subrange(j + 1, k),
        ) && ipv4_octet(#[trigger] s.subrange(k + 1, s.len() as int))
}

fn is_ipv4_octet(s: &[u8], a: usize, b: usize) -> (r: bool)
    requires
        a <= b <= s@.len(),
    ensures
        r == ipv4_octet(s@.subrange(a as int, b as int)),
{
    let ghost t = s@.subrange(a as int, b as int);
    if b - a < 1 || b - a > 3 {
        return false;
    }
    if b - a > 1 && s[a] == 48 {
        return false;
    }
    let mut v: u32 = 0;
    let mut k = a;
    while k < b
        invariant
            a <= k <= b <= s@.len(),
            b - a <= 3,
            t == s@.subrange(a as int, b as int),
            forall|i: int| a <= i < k ==> is_digit(s@[i]),
            v as int == decimal(s@.subrange(a as int, k as int)),
            v < 1000,
            k - a <= 2 ==> v < 100,
            k - a <= 1 ==> v < 10,
            k == a ==> v == 0,
        decreases b - k,
    {
        let d = s[k];
        if d < 48 || d > 57 {
            assert(!is_digit(t[k - a]));
            return false;
        }
        assert(s@.subrange(a as int, k + 1).drop_last() =~= s@.subrange(a as int, k as int));
        v = v * 10 + (d - 48) as u32;
        k += 1;
    }
    assert(t =~= s@.subrange(a as int, k as int));
    assert forall|i: int| 0 <= i < t.len() implies is_digit(#[trigger] t[i]) by {
        assert(t[i] == s@[a + i]);
    }
    v <= 255
}

/// Whether `s` is a dotted IPv4 address.
pub fn is_ipv4_literal(s: &[u8]) -> (r: bool)
    ensures
        r == ipv4_literal(s@),
{
    let n = s.len();
    let i = find_first_exec(s, 46, 0);
    proof {
        lemma_find_first(s@, 46, 0);
    }
    if i >= n {
        proof {
            if ipv4_literal(s@) {
                let (i1, j1, k1) = choose|i1: int, j1: int, k1: int|
                    0 <= i1 < j1 < k1 < s@.len() && s@[i1] == 46 && s@[j1] == 46 && s@[k1] == 46
                        && ipv4_octet(#[trigger] s@.subrange(0, i1)) && ipv4_octet(
                        #[trigger] s@.subrange(i1 + 1, j1),
                    ) && ipv4_octet(#[trigger] s@.subrange(j1 + 1, k1)) && ipv4_octet(
                        #[trigger] s@.subrange(k1 + 1, s@.len() as int),
                    );
                assert(s@[i1] != 46);
            }
        }
        return false;
    }
    let j = find_first_exec(s, 46, i + 1);
    proof {
        lemma_find_first(s@, 46, i + 1);
    }
    if j >= n {
        proof {
            if ipv4_literal(s@) {
                let (i1, j1, k1) = choose|i1: int, j1: int, k1: int|
                    0 <= i1 < j1 < k1 < s@.len() && s@[i1] == 46 && s@[j1] == 46 && s@[k1] == 46
                        && ipv4_octet(#[trigger] s@.subrange(0, i1)) && ipv4_octet(
                        #[trigger] s@.subrange(i1 + 1, j1),
                    ) && ipv4_octet(#[trigger] s@.subrange(j1 + 1, k1)) && ipv4_octet(
                        #[trigger] s@.subrange(k1 + 1, s@.len() as int),
                    );
                lemma_first_dot(s@, 0, i1);
                assert(s@[j1] != 46);
            }
        }
        return false;
    }
    let k = find_first_exec(s, 46, j + 1);
    proof {
        lemma_find_first(s@, 46, j + 1);
    }
    if k >= n {
        proof {
            if ipv4_literal(s@) {
                let (i1, j1, k1) = choose|i1: int, j1: int, k1: int|
                    0 <= i1 < j1 < k1 < s@.len() && s@[i1] == 46 && s@[j1] == 46 && s@[k1] == 46
                        && ipv4_octet(#[trigger] s@.subrange(0, i1)) && ipv4_octet(
                        #[trigger] s@.subrange(i1 + 1, j1),
                    ) && ipv4_octet(#[trigger] s@.subrange(j1 + 1, k1)) && ipv4_octet(
                        #[trigger] s@.subrange(k1 + 1, s@.len() as int),
                    );
                lemma_first_dot(s@, 0, i1);
                lemma_first_dot(s@, i1 + 1, j1);
                assert(s@[k1] != 46);
            }
        }
        return false;
    }
    let r = is_ipv4_octet(s, 0, i) && is_ipv4_octet(s, i + 1, j) && is_ipv4_octet(s, j + 1, k)
        && is_ipv4_octet(s, k + 1, n);
    proof {
        if ipv4_literal(s@) {
            let (i1, j1, k1) = choose|i1: int, j1: int, k1: int|
                0 <= i1 < j1 < k1 < s@.len() && s@[i1] == 46 && s@[j1] == 46 && s@[k1] == 46
                    && ipv4_octet(#[trigger] s@.subrange(0, i1)) && ipv4_octet(
                    #[trigger] s@.subrange(i1 + 1, j1),
                ) && ipv4_octet(#[trigger] s@.subrange(j1 + 1, k1)) && ipv4_octet(
                    #[trigger] s@.subrange(k1 + 1, s@.len() as int),
                );
            lemma_first_dot(s@, 0, i1);
            lemma_first_dot(s@, i1 + 1, j1);
            lemma_first_dot(s@, j1 + 1, k1);
        }
    }
    r
}

/// When `s[from..i]` is an octet and `s[i]` a dot, `i` is the first dot from `from`.
proof fn lemma_first_dot(s: Seq<u8>, from: int, i: int)
    requires
        0 <= from <= i < s.len(),
        s[i] == 46,
        ipv4_octet(s.subrange(from, i)),
    ensures
        find_first(s, 46, from) == i,
{
    lemma_find_first(s, 46, from);
    let f = find_first(s, 46, from);
    if f < i {
        assert(s.subrange(from, i)[f - from] == s[f]);
    }
}

} // verus!

verus! {

/// A rule split into parts, each a byte range `[start, end)` of the rule text.
#[derive(Clone, Copy, Debug)]
pub struct AdblockFilter {
    /// The host part, without scheme and user info.
    pub domain: (usize, usize),
    /// The part of the host before the registrable domain, without a
    /// trailing `www` and without trailing dots.
    pub sub_without_www: (usize, usize),
    /// The last two labels of the domain (the registrable domain after a
    /// `www`); none without a subdomain.
    pub etld_plus_2_without_www: Option<(usize, usize)>,
    /// From the first `/` to the end of the rule.
    pub suffix: (usize, usize),
}

pub open spec fn lit_https() -> Seq<u8> {
    seq![104u8, 116, 116, 112, 115, 58, 47, 47]
}

pub open spec fn lit_http() -> Seq<u8> {
    seq![104u8, 116, 116, 112, 58, 47, 47]
}

pub open spec fn lit_wss() -> Seq<u8> {
    seq![119u8, 115, 115, 58, 47, 47]
}

pub open spec fn lit_ws() -> Seq<u8> {
    seq![119u8, 115, 58, 47, 47]
}

pub open spec fn lit_slashes() -> Seq<u8> {
    seq![47u8, 47]
}

pub open spec fn lit_colon_slashes() -> Seq<u8> {
    seq![58u8, 47, 47]
}

pub open spec fn lit_www() -> Seq<u8> {
    seq![119u8, 119, 119]
}

/// Where the rule body starts once a `https://`, `http://`, `wss://`,
/// `ws://`, `//` or `://` prefix is skipped.
pub open spec fn body_start(c: Seq<u8>) -> int {
    if starts_with(c, lit_https()) {
        8
    } else if starts_with(c, lit_http()) {
        7
    } else if starts_with(c, lit_wss()) {
        6
    } else if starts_with(c, lit_ws()) {
        5
    } else if starts_with(c, lit_slashes()) {
        2
    } else if starts_with(c, lit_colon_slashes()) {
        3
    } else {
        0
    }
}

/// End of the domain: the first `/` of the body, or the end of the rule.
pub open spec fn domain_end(c: Seq<u8>) -> int {
    find_first(c, 47, body_start(c))
}

/// Start of the domain: just after the last `@` before its end, or the body start.
pub open spec fn domain_start(c: Seq<u8>) -> int {
    find_last(c, 64, body_start(c), domain_end(c)) + 1
}

/// The domain has no `:`, has a `.`, and is not an IP address.
pub open spec fn domain_ok(c: Seq<u8>) -> bool {
    let ds = domain_start(c);
    let de = domain_end(c);
    &&& find_first(c.subrange(ds, de), 58, 0) == de - ds
    &&& find_first(c.subrange(ds, de), 46, 0) < de - ds
    &&& !ipv4_literal(c.subrange(ds, de))
}

/// The filter, once the registrable domain is known to be the last `n` bytes
/// of the domain.
pub open spec fn filter_parts(c: Seq<u8>, n: int) -> AdblockFilter {
    let ds = domain_start(c);
    let de = domain_end(c);
    let e1 = de - n;
    let se = trim_end_of(c, 46, ds, e1);
    let (sub, e2) = if se == ds {
        ((ds, ds), None)
    } else if se - ds >= 3 && c.subrange(se - 3, se) == lit_www() {
        ((ds, trim_end_of(c, 46, ds, se - 3)), Some((e1, de)))
    } else {
        ((ds, se), Some((find_last(c, 46, ds, find_last(c, 46, ds, de)) + 1, de)))
    };
    AdblockFilter {
        domain: (ds as usize, de as usize),
        sub_without_www: (sub.0 as usize, sub.1 as usize),
        etld_plus_2_without_www: match e2 {
            Some(p) => Some((p.0 as usize, p.1 as usize)),
            None => None,
        },
        suffix: (de as usize, c.len() as usize),
    }
}

/// The filter of a rule given what the suffix list answered for its domain
/// (the length of the registrable domain, or none).
pub open spec fn filter_of(c: Seq<u8>, sld: Option<usize>) -> Option<AdblockFilter> {
    if c.len() == 0 || !domain_ok(c) {
        None
    } else {
        match sld {
            Some(n) => if n <= domain_end(c) - domain_start(c) {
                Some(filter_parts(c, n as int))
            } else {
                None
            },
            None => None,
        }
    }
}

fn rule_body_start(c: &[u8]) -> (r: usize)
    ensures
        r as int == body_start(c@),
        r <= c@.len(),
{
    let https: [u8; 8] = [104, 116, 116, 112, 115, 58, 47, 47];
    let http: [u8; 7] = [104, 116, 116, 112, 58, 47, 47];
    let wss: [u8; 6] = [119, 115, 115, 58, 47, 47];
    let ws: [u8; 5] = [119, 115, 58, 47, 47];
    let slashes: [u8; 2] = [47, 47];
    let colon_slashes: [u8; 3] = [58, 47, 47];
    proof {
        assert(https@ =~= lit_https());
        assert(http@ =~= lit_http());
        assert(wss@ =~= lit_wss());
        assert(ws@ =~= lit_ws());
        assert(slashes@ =~= lit_slashes());
        assert(colon_slashes@ =~= lit_colon_slashes());
    }
    if starts_with_exec(c, https.as_slice()) {
        8
    } else if starts_with_exec(c, http.as_slice()) {
        7
    } else if starts_with_exec(c, wss.as_slice()) {
        6
    } else if starts_with_exec(c, ws.as_slice()) {
        5
    } else if starts_with_exec(c, slashes.as_slice()) {
        2
    } else if starts_with_exec(c, colon_slashes.as_slice()) {
        3
    } else {
        0
    }
}

/// The domain range of a rule: `(start, end)`.
fn rule_domain(c: &[u8]) -> (r: (usize, usize))
    ensures
        r.0 as int == domain_start(c@),
        r.1 as int == domain_end(c@),
        body_start(c@) <= r.0 <= r.1 <= c@.len(),
{
    let b = rule_body_start(c);
    let de = find_first_exec(c, 47, b);
    let ds = match find_last_exec(c, 64, b, de) {
        Some(at) => at + 1,
        None => b,
    };
    (ds, de)
}

/// Whether the domain `c[ds..de]` may be looked up: no `:`, a `.`, not an IP address.
fn rule_domain_ok(c: &[u8], ds: usize, de: usize) -> (r: bool)
    requires
        ds as int == domain_start(c@),
        de as int == domain_end(c@),
        ds <= de <= c@.len(),
    ensures
        r == domain_ok(c@),
{
    let d = &c[ds..de];
    find_first_exec(d, 58, 0) == d.len() && find_first_exec(d, 46, 0) < d.len()
        && !is_ipv4_literal(d)
}

/// Every range of the filter lies inside a rule of length `n`, the
/// subdomain inside the domain.
pub open spec fn filter_in_bounds(f: AdblockFilter, n: int) -> bool {
    &&& f.domain.0 <= f.domain.1 <= n
    &&& f.domain.0 <= f.sub_without_www.0 <= f.sub_without_www.1 <= f.domain.1
    &&& (f.etld_plus_2_without_www matches Some((a, e)) ==> f.domain.0 <= a <= e <= f.domain.1)
    &&& f.suffix.0 == f.domain.1 && f.suffix.1 == n
}

/// The filter of a rule, given the length of its domain's registrable part as
/// the suffix list gave it.
pub fn filter_from_sld(c: &[u8], sld: Option<usize>) -> (r: Option<AdblockFilter>)
    ensures
        r == filter_of(c@, sld),
        r matches Some(f) ==> filter_in_bounds(f, c@.len() as int),
{
    if c.len() == 0 {
        return None;
    }
    let (ds, de) = rule_domain(c);
    if !rule_domain_ok(c, ds, de) {
        return None;
    }
    let n = match sld {
        Some(n) => n,
        None => {
            return None;
        },
    };
    if n > de - ds {
        return None;
    }
    let e1 = de - n;
    let se = trim_end_exec(c, 46, ds, e1);
    let www: [u8; 3] = [119, 119, 119];
    proof {
        assert(www@ =~= lit_www());
    }
    let (sub, e2) = if se == ds {
        ((ds, ds), None)
    } else if se - ds >= 3 && crate::bytes::bytes_eq(&c[se - 3..se], www.as_slice()) {
        ((ds, trim_end_exec(c, 46, ds, se - 3)), Some((e1, de)))
    } else {
        let e2s = match find_last_exec(c, 46, ds, de) {
            Some(d1) => match find_last_exec(c, 46, ds, d1) {
                Some(d2) => d2 + 1,
                None => ds,
            },
            None => ds,
        };
        ((ds, se), Some((e2s, de)))
    };
    Some(
        AdblockFilter {
            domain: (ds, de),
            sub_without_www: sub,
            etld_plus_2_without_www: e2,
            suffix: (de, c.len()),
        },
    )
}

/// Splits a rule body (a scheme prefix such as `https://` or `//` is skipped)
/// into domain, subdomain without `www`, eTLD+2 and path suffix. `None` for
/// an empty rule, a domain with a `:`, without a `.`, that is an IPv4
/// address, or that the suffix list has no registrable domain for.
pub fn prepare_adblock_filter(list: &List, c: &[u8]) -> (r: Option<AdblockFilter>)
    ensures
        c@.len() == 0 || !domain_ok(c@) ==> r is None,
        exists|sld: Option<usize>| r == filter_of(c@, sld),
        r matches Some(f) ==> filter_in_bounds(f, c@.len() as int),
{
    if c.len() == 0 {
        let r = filter_from_sld(c, None);
        return r;
    }
    let (ds, de) = rule_domain(c);
    if !rule_domain_ok(c, ds, de) {
        let r = filter_from_sld(c, None);
        return r;
    }
    let n = sld_len(list, &c[ds..de]);
    filter_from_sld(c, n)
}

} // verus!
