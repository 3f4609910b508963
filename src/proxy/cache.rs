//! Header rules for a response whose body the proxy rewrote: `Vary`, a new
//! `Cache-Control` with a bounded `max-age`, and no validators that the new
//! body would break.

use crate::bytes::{contains_ci_exec, find_bytes, occurs_at, push_range, starts_with, starts_with_exec};
use crate::proxy::headers::{all_tokens, safe_text, some_contains, HeaderMap};
use vstd::prelude::*;

verus! {

pub open spec fn name_vary() -> Seq<u8> {
    seq![118u8, 97, 114, 121]
}

pub open spec fn name_cache_control() -> Seq<u8> {
    seq![99u8, 97, 99, 104, 101, 45, 99, 111, 110, 116, 114, 111, 108]
}

pub open spec fn name_date() -> Seq<u8> {
    seq![100u8, 97, 116, 101]
}

pub open spec fn name_expires() -> Seq<u8> {
    seq![101u8, 120, 112, 105, 114, 101, 115]
}

pub open spec fn name_content_md5() -> Seq<u8> {
    seq![99u8, 111, 110, 116, 101, 110, 116, 45, 109, 100, 53]
}

pub open spec fn name_accept_ranges() -> Seq<u8> {
    seq![97u8, 99, 99, 101, 112, 116, 45, 114, 97, 110, 103, 101, 115]
}

pub open spec fn accept_encoding() -> Seq<u8> {
    seq![97u8, 99, 99, 101, 112, 116, 45, 101, 110, 99, 111, 100, 105, 110, 103]
}

pub open spec fn lit_private() -> Seq<u8> {
    seq![112u8, 114, 105, 118, 97, 116, 101]
}

pub open spec fn lit_public() -> Seq<u8> {
    seq![112u8, 117, 98, 108, 105, 99]
}

pub open spec fn lit_no_store() -> Seq<u8> {
    seq![110u8, 111, 45, 115, 116, 111, 114, 101]
}

pub open spec fn lit_no_cache() -> Seq<u8> {
    seq![110u8, 111, 45, 99, 97, 99, 104, 101]
}

pub open spec fn lit_max_age() -> Seq<u8> {
    seq![109u8, 97, 120, 45, 97, 103, 101, 61]
}

pub open spec fn lit_revalidate() -> Seq<u8> {
    seq![44u8, 32, 109, 117, 115, 116, 45, 114, 101, 118, 97, 108, 105, 100, 97, 116, 101, 44, 32, 115, 116, 97, 108, 101, 45, 119, 104, 105, 108, 101, 45, 114, 101, 118, 97, 108, 105, 100, 97, 116, 101, 61, 54, 48, 52, 56, 48, 48]
}

/// The decimal digits of `n`.
pub open spec fn dec_text(n: nat) -> Seq<u8>
    decreases n,
{
    if n < 10 {
        seq![(48 + n) as u8]
    } else {
        dec_text(n / 10) + seq![(48 + n % 10) as u8]
    }
}

/// Appends the decimal digits of `n`.
pub fn push_decimal(v: &mut Vec<u8>, n: u64)
    ensures
        final(v)@ == old(v)@ + dec_text(n as nat),
    decreases n,
{
    if n >= 10 {
        push_decimal(v, n / 10);
    }
    v.push((48 + n % 10) as u8);
    proof {
        if n >= 10 {
            assert(v@ =~= old(v)@ + dec_text(n as nat));
        } else {
            assert(v@ =~= old(v)@ + dec_text(n as nat));
        }
    }
}

/// `private` when the origin's Cache-Control says so, else `public`.
pub open spec fn visibility(cc: Seq<Seq<u8>>) -> Seq<u8> {
    if some_contains(cc, lit_private()) {
        lit_private()
    } else {
        lit_public()
    }
}

/// A Cache-Control that lets a cache keep the response for `age` seconds.
pub open spec fn max_age_directive(vis: Seq<u8>, age: nat) -> Seq<u8> {
    vis + seq![44u8, 32] + lit_max_age() + dec_text(age) + lit_revalidate()
}

/// The Cache-Control of a rewritten response, given the origin's: `no-store`
/// stays `no-store`; `no-cache` becomes `<vis>, no-cache`; otherwise, with
/// `age` from `response_age`, a negative age gives `<vis>, no-cache` and any
/// other a `max-age` of `min(age, cache_max_age)`.
pub open spec fn rewritten_cache_control(cc: Seq<Seq<u8>>, age: int, cache_max_age: u32) -> Seq<u8> {
    let vis = visibility(cc);
    if some_contains(cc, lit_no_store()) {
        lit_no_store()
    } else if some_contains(cc, lit_no_cache()) || age < 0 {
        vis + seq![44u8, 32] + lit_no_cache()
    } else {
        max_age_directive(vis, if age > cache_max_age {
            cache_max_age as nat
        } else {
            age as nat
        })
    }
}

/// The `Vary` of a rewritten response: `accept-encoding` added in front
/// unless the readable list already names it.
pub open spec fn rewritten_vary(vary: Seq<Seq<u8>>, out: Seq<Seq<u8>>) -> bool {
    let t = safe_text(vary);
    if t.len() == 0 {
        out == seq![accept_encoding()]
    } else if exists|i: int| occurs_at(t, accept_encoding(), i) {
        out == vary
    } else {
        out == seq![accept_encoding() + seq![44u8, 32] + t]
    }
}

/// The seconds since the Unix epoch of an HTTP date, as httpdate reads it.
pub uninterp spec fn http_date_of(s: Seq<u8>) -> Option<u64>;

/// The IMF-fixdate text of a time, as httpdate writes it.
pub uninterp spec fn http_date_text(secs: u64) -> Seq<u8>;

/// The first second of the year 10000: httpdate writes only earlier times.
pub const DATE_LIMIT: u64 = 253402300800;

/// Relies on httpdate's `parse_http_date`: the date as whole seconds since
/// the Unix epoch, a function of the text alone; none for text that is not
/// an HTTP date. A date it accepts lies in the years 1970 to 9999.
#[verifier::external_body]
fn parse_http_date_secs(s: &[u8]) -> (r: Option<u64>)
    ensures
        r == http_date_of(s@),
        r matches Some(v) ==> v < DATE_LIMIT,
{
    std::str::from_utf8(s).ok().and_then(|t| httpdate::parse_http_date(t).ok()).and_then(
        |d| d.duration_since(std::time::UNIX_EPOCH).ok(),
    ).map(|d| d.as_secs())
}

/// Relies on httpdate's `fmt_http_date`: the IMF-fixdate text of a time
/// given in seconds since the Unix epoch. It panics from the year 10000 on.
#[verifier::external_body]
fn fmt_http_date_secs(secs: u64) -> (r: Vec<u8>)
    requires
        secs < DATE_LIMIT,
    ensures
        r@ == http_date_text(secs),
{
    httpdate::fmt_http_date(std::time::UNIX_EPOCH + std::time::Duration::from_secs(secs)).into_bytes()
}

/// The text after `max-age=` in the first piece that starts with it.
pub open spec fn first_max_age(ts: Seq<Seq<u8>>) -> Option<Seq<u8>>
    decreases ts.len(),
{
    if ts.len() == 0 {
        None
    } else if starts_with(ts[0], lit_max_age()) {
        Some(ts[0].subrange(8, ts[0].len() as int))
    } else {
        first_max_age(ts.drop_first())
    }
}

/// The origin's own age: the first `max-age=` of Cache-Control as a number
/// (none when it does not parse).
pub open spec fn origin_age(cc: Seq<Seq<u8>>) -> Option<i64> {
    match first_max_age(all_tokens(cc)) {
        Some(t) => crate::cli::i64_of(t),
        None => None,
    }
}

/// The date the response speaks of: its `Date`, else `now`.
pub open spec fn server_date(date: Seq<Seq<u8>>, now: u64) -> u64 {
    match http_date_of(safe_text(date)) {
        Some(d) => d,
        None => now,
    }
}

/// The age a rewritten response may be cached for, before the cap: the
/// origin's `max-age`; else `Expires` minus the server date (-1 when
/// `Expires` is earlier); else `cache_max_age`.
pub open spec fn response_age(cc: Seq<Seq<u8>>, date: Seq<Seq<u8>>, expires: Seq<Seq<u8>>, now: u64, cache_max_age: u32) -> int {
    match origin_age(cc) {
        Some(a) => a as int,
        None => match http_date_of(safe_text(expires)) {
            Some(e) => if e >= server_date(date, now) {
                let d = e - server_date(date, now);
                if d > 0x7fff_ffff_ffff_ffff {
                    0x7fff_ffff_ffff_ffff
                } else {
                    d
                }
            } else {
                -1
            },
            None => cache_max_age as int,
        },
    }
}

fn origin_max_age(h: &HeaderMap) -> (r: Option<i64>)
    ensures
        r == origin_age(h.values(name_cache_control())),
{
    let cc: [u8; 13] = [99, 97, 99, 104, 101, 45, 99, 111, 110, 116, 114, 111, 108];
    assert(cc@ =~= name_cache_control());
    let toks = crate::proxy::response::readable_tokens(h, cc.as_slice());
    let ghost ts = toks@.map_values(|x: Vec<u8>| x@);
    let prefix: [u8; 8] = [109, 97, 120, 45, 97, 103, 101, 61];
    assert(prefix@ =~= lit_max_age());
    let mut k: usize = 0;
    assert(ts.subrange(0, ts.len() as int) =~= ts);
    while k < toks.len()
        invariant
            k <= toks@.len(),
            ts == toks@.map_values(|x: Vec<u8>| x@),
            ts == all_tokens(h.values(name_cache_control())),
            prefix@ == lit_max_age(),
            first_max_age(ts.subrange(k as int, ts.len() as int)) == first_max_age(ts),
        decreases toks@.len() - k,
    {
        let t = toks[k].as_slice();
        assert(ts.subrange(k as int, ts.len() as int)[0] == t@);
        assert(ts.subrange(k as int, ts.len() as int).drop_first() =~= ts.subrange(k + 1, ts.len() as int));
        if starts_with_exec(t, prefix.as_slice()) {
            assert(first_max_age(ts.subrange(k as int, ts.len() as int)) == Some(t@.subrange(8, t@.len() as int)));
            return crate::cli::parse_i64(&t[8..t.len()]);
        }
        k += 1;
    }
    assert(ts.subrange(k as int, ts.len() as int) =~= Seq::<Seq<u8>>::empty());
    assert(ts.subrange(0, ts.len() as int) =~= ts);
    None
}

impl HeaderMap {
    /// The age before the cap (see `response_age`) and the server date.
    fn age_and_date(&self, cache_max_age: u32, now_secs: u64) -> (r: (i64, u64))
        requires
            now_secs < DATE_LIMIT,
        ensures
            r.0 as int == response_age(
                self.values(name_cache_control()),
                self.values(name_date()),
                self.values(name_expires()),
                now_secs,
                cache_max_age,
            ),
            r.1 == server_date(self.values(name_date()), now_secs),
            r.1 < DATE_LIMIT,
    {
        let date: [u8; 4] = [100, 97, 116, 101];
        let expires: [u8; 7] = [101, 120, 112, 105, 114, 101, 115];
        assert(date@ =~= name_date());
        assert(expires@ =~= name_expires());
        let mut age = origin_max_age(self);
        let dtext = self.get_safe(date.as_slice());
        let server_date = match parse_http_date_secs(dtext.as_slice()) {
            Some(d) => d,
            None => now_secs,
        };
        if age.is_none() {
            let etext = self.get_safe(expires.as_slice());
            if let Some(e) = parse_http_date_secs(etext.as_slice()) {
                age = Some(
                    if e >= server_date {
                        let d = e - server_date;
                        if d > 0x7fff_ffff_ffff_ffffu64 {
                            0x7fff_ffff_ffff_ffffi64
                        } else {
                            d as i64
                        }
                    } else {
                        -1i64
                    },
                );
            }
        }
        let a: i64 = match age {
            Some(a) => a,
            None => cache_max_age as i64,
        };
        (a, server_date)
    }

    /// Rewrites the headers of a response whose body was rewritten: drops
    /// `Content-MD5`, `Accept-Ranges` and `Expires`, makes `Vary` name
    /// `accept-encoding`, and sets a new `Cache-Control` (see
    /// `rewritten_cache_control`). An age comes from the origin's `max-age`,
    /// else from `Expires` minus `Date` (`now_secs` standing in for a
    /// missing `Date`), else it is `cache_max_age`; it is capped at
    /// `cache_max_age`, and `Date` is then set to the date used.
    pub fn normalize_extra_for_patched_content(&mut self, cache_max_age: u32, now_secs: u64)
        requires
            now_secs < DATE_LIMIT,
        ensures
            final(self).values(name_cache_control()) == seq![
                rewritten_cache_control(
                    old(self).values(name_cache_control()),
                    response_age(
                        old(self).values(name_cache_control()),
                        old(self).values(name_date()),
                        old(self).values(name_expires()),
                        now_secs,
                        cache_max_age,
                    ),
                    cache_max_age,
                ),
            ],
            final(self).values(name_date()) == (if !some_contains(old(self).values(name_cache_control()), lit_no_store())
                && !some_contains(old(self).values(name_cache_control()), lit_no_cache()) && response_age(
                old(self).values(name_cache_control()),
                old(self).values(name_date()),
                old(self).values(name_expires()),
                now_secs,
                cache_max_age,
            ) >= 0 {
                seq![http_date_text(server_date(old(self).values(name_date()), now_secs))]
            } else {
                old(self).values(name_date())
            }),
            rewritten_vary(old(self).values(name_vary()), final(self).values(name_vary())),
            final(self).values(name_expires()).len() == 0,
            final(self).values(name_content_md5()).len() == 0,
            final(self).values(name_accept_ranges()).len() == 0,
            forall|m: Seq<u8>|
                m != name_cache_control() && m != name_vary() && m != name_expires() && m
                    != name_content_md5() && m != name_accept_ranges() && m != name_date() ==> #[trigger] final(self).values(m)
                    == old(self).values(m),
    {
        let md5: [u8; 11] = [99, 111, 110, 116, 101, 110, 116, 45, 109, 100, 53];
        let ranges: [u8; 13] = [97, 99, 99, 101, 112, 116, 45, 114, 97, 110, 103, 101, 115];
        let vary: [u8; 4] = [118, 97, 114, 121];
        let ae: [u8; 15] = [97, 99, 99, 101, 112, 116, 45, 101, 110, 99, 111, 100, 105, 110, 103];
        let cc: [u8; 13] = [99, 97, 99, 104, 101, 45, 99, 111, 110, 116, 114, 111, 108];
        let private: [u8; 7] = [112, 114, 105, 118, 97, 116, 101];
        let public: [u8; 6] = [112, 117, 98, 108, 105, 99];
        let no_store: [u8; 8] = [110, 111, 45, 115, 116, 111, 114, 101];
        let no_cache: [u8; 8] = [110, 111, 45, 99, 97, 99, 104, 101];
        let max_age: [u8; 8] = [109, 97, 120, 45, 97, 103, 101, 61];
        let reval: [u8; 48] = [44, 32, 109, 117, 115, 116, 45, 114, 101, 118, 97, 108, 105, 100, 97, 116, 101, 44, 32, 115, 116, 97, 108, 101, 45, 119, 104, 105, 108, 101, 45, 114, 101, 118, 97, 108, 105, 100, 97, 116, 101, 61, 54, 48, 52, 56, 48, 48];
        let date: [u8; 4] = [100, 97, 116, 101];
        let expires: [u8; 7] = [101, 120, 112, 105, 114, 101, 115];
        proof {
            assert(md5@ =~= name_content_md5());
            assert(ranges@ =~= name_accept_ranges());
            assert(vary@ =~= name_vary());
            assert(ae@ =~= accept_encoding());
            assert(cc@ =~= name_cache_control());
            assert(private@ =~= lit_private());
            assert(public@ =~= lit_public());
            assert(no_store@ =~= lit_no_store());
            assert(no_cache@ =~= lit_no_cache());
            assert(max_age@ =~= lit_max_age());
            assert(reval@ =~= lit_revalidate());
            assert(date@ =~= name_date());
            assert(expires@ =~= name_expires());
        }
        let ghost cc0 = self.values(name_cache_control());
        let ghost vary0 = self.values(name_vary());
        let ghost date0 = self.values(name_date());
        let ghost exp0 = self.values(name_expires());
        self.remove(md5.as_slice());
        self.remove(ranges.as_slice());

        let v = self.get_safe(vary.as_slice());
        if v.len() == 0 {
            let mut nv: Vec<u8> = Vec::new();
            push_range(&mut nv, ae.as_slice(), 0, 15);
            assert(nv@ =~= accept_encoding());
            self.set(vary.as_slice(), nv);
        } else if find_bytes(v.as_slice(), ae.as_slice()).is_none() {
            let mut nv: Vec<u8> = Vec::new();
            push_range(&mut nv, ae.as_slice(), 0, 15);
            nv.push(44);
            nv.push(32);
            push_range(&mut nv, v.as_slice(), 0, v.len());
            proof {
                assert(v@.subrange(0, v@.len() as int) =~= v@);
                assert(nv@ =~= accept_encoding() + seq![44u8, 32] + v@);
            }
            self.set(vary.as_slice(), nv);
        }

        let is_private = self.value_contains(cc.as_slice(), private.as_slice());
        let vis: &[u8] = if is_private {
            private.as_slice()
        } else {
            public.as_slice()
        };
        assert(vis@ == visibility(cc0));
        let mut out: Vec<u8> = Vec::new();
        if self.value_contains(cc.as_slice(), no_store.as_slice()) {
            push_range(&mut out, no_store.as_slice(), 0, 8);
            assert(out@ =~= lit_no_store());
        } else if self.value_contains(cc.as_slice(), no_cache.as_slice()) {
            push_range(&mut out, vis, 0, vis.len());
            out.push(44);
            out.push(32);
            push_range(&mut out, no_cache.as_slice(), 0, 8);
            assert(vis@.subrange(0, vis@.len() as int) =~= vis@);
            assert(out@ =~= vis@ + seq![44u8, 32] + lit_no_cache());
        } else {
            let (a, server_date) = self.age_and_date(cache_max_age, now_secs);
            assert(self.values(name_date()) == date0 && self.values(name_expires()) == exp0);
            assert(vis@.subrange(0, vis@.len() as int) =~= vis@);
            if a < 0 {
                push_range(&mut out, vis, 0, vis.len());
                out.push(44);
                out.push(32);
                push_range(&mut out, no_cache.as_slice(), 0, 8);
                assert(out@ =~= vis@ + seq![44u8, 32] + lit_no_cache());
            } else {
                let shown: u64 = if a > cache_max_age as i64 {
                    cache_max_age as u64
                } else {
                    a as u64
                };
                self.set(date.as_slice(), fmt_http_date_secs(server_date));
                push_range(&mut out, vis, 0, vis.len());
                out.push(44);
                out.push(32);
                push_range(&mut out, max_age.as_slice(), 0, 8);
                push_decimal(&mut out, shown);
                push_range(&mut out, reval.as_slice(), 0, 48);
                assert(out@ =~= max_age_directive(vis@, shown as nat));
            }
        }
        self.remove(expires.as_slice());
        self.set(cc.as_slice(), out);
    }
}

} // verus!
