//! Decisions on requests and on the responses to them: header hygiene, the
//! `Accept` the proxy forwards, and the early answers it gives itself.

use crate::bytes::{eq_ci, lower_copy, lower_seq, occurs_at_ci, push_range, starts_with, starts_with_ci};
use crate::proxy::headers::{all_tokens, join_tokens, some_contains, some_equals, some_starts, HeaderMap};
use vstd::prelude::*;

verus! {

/// An `Accept` entry the proxy never negotiates: its first ten bytes name
/// AVIF, HEIC, HEIF or APNG.
pub open spec fn dropped_accept(t: Seq<u8>) -> bool {
    t.len() >= 10 && {
        let p = lower_seq(t.subrange(0, 10));
        ||| p == seq![105u8, 109, 97, 103, 101, 47, 97, 118, 105, 102]
        ||| p == seq![105u8, 109, 97, 103, 101, 47, 104, 101, 105, 99]
        ||| p == seq![105u8, 109, 97, 103, 101, 47, 104, 101, 105, 102]
        ||| p == seq![105u8, 109, 97, 103, 101, 47, 97, 112, 110, 103]
    }
}

/// The `Accept` entries kept, in order.
pub open spec fn kept_accept(ts: Seq<Seq<u8>>) -> Seq<Seq<u8>>
    decreases ts.len(),
{
    if ts.len() == 0 {
        Seq::empty()
    } else {
        kept_accept(ts.drop_last()) + if dropped_accept(ts.last()) {
            Seq::empty()
        } else {
            seq![ts.last()]
        }
    }
}

/// The `Accept` the proxy forwards: the kept entries joined with `, `, or
/// `*/*` when none is left.
pub open spec fn forwarded_accept(vals: Seq<Seq<u8>>) -> Seq<u8> {
    let j = join_tokens(kept_accept(all_tokens(vals)));
    if j.len() == 0 {
        seq![42u8, 47, 42]
    } else {
        j
    }
}

fn is_dropped_accept(t: &[u8]) -> (r: bool)
    ensures
        r == dropped_accept(t@),
{
    if t.len() < 10 {
        return false;
    }
    let p = lower_copy(&t[0..10]);
    let avif: [u8; 10] = [105, 109, 97, 103, 101, 47, 97, 118, 105, 102];
    assert(avif@ =~= seq![105u8, 109, 97, 103, 101, 47, 97, 118, 105, 102]);
    let heic: [u8; 10] = [105, 109, 97, 103, 101, 47, 104, 101, 105, 99];
    assert(heic@ =~= seq![105u8, 109, 97, 103, 101, 47, 104, 101, 105, 99]);
    let heif: [u8; 10] = [105, 109, 97, 103, 101, 47, 104, 101, 105, 102];
    assert(heif@ =~= seq![105u8, 109, 97, 103, 101, 47, 104, 101, 105, 102]);
    let apng: [u8; 10] = [105, 109, 97, 103, 101, 47, 97, 112, 110, 103];
    assert(apng@ =~= seq![105u8, 109, 97, 103, 101, 47, 97, 112, 110, 103]);
    crate::bytes::bytes_eq(p.as_slice(), avif.as_slice()) || crate::bytes::bytes_eq(p.as_slice(), heic.as_slice())
        || crate::bytes::bytes_eq(p.as_slice(), heif.as_slice()) || crate::bytes::bytes_eq(p.as_slice(), apng.as_slice())
}

impl HeaderMap {
    /// Drops the hop-by-hop request headers: `Proxy-Authorization`,
    /// `Proxy-Connection`, `Keep-Alive`, and `Connection` and `Upgrade`
    /// unless `Connection` asks for an upgrade.
    pub fn normalize_request_headers(&mut self)
        ensures
            !some_contains(old(self).values(seq![99u8, 111, 110, 110, 101, 99, 116, 105, 111, 110]), seq![117u8, 112, 103, 114, 97, 100, 101]) ==> final(self).values(seq![99u8, 111, 110, 110, 101, 99, 116, 105, 111, 110]).len() == 0
                && final(self).values(seq![117u8, 112, 103, 114, 97, 100, 101]).len() == 0,
            final(self).values(seq![112u8, 114, 111, 120, 121, 45, 97, 117, 116, 104, 111, 114, 105, 122, 97, 116, 105, 111, 110]).len() == 0,
            final(self).values(seq![112u8, 114, 111, 120, 121, 45, 99, 111, 110, 110, 101, 99, 116, 105, 111, 110]).len() == 0,
            final(self).values(seq![107u8, 101, 101, 112, 45, 97, 108, 105, 118, 101]).len() == 0,
            forall|m: Seq<u8>|
                m != seq![99u8, 111, 110, 110, 101, 99, 116, 105, 111, 110] && m != seq![117u8, 112, 103, 114, 97, 100, 101] && m != seq![112u8, 114, 111, 120, 121, 45, 97, 117, 116, 104, 111, 114, 105, 122, 97, 116, 105, 111, 110] && m != seq![112u8, 114, 111, 120, 121, 45, 99, 111, 110, 110, 101, 99, 116, 105, 111, 110]
                    && m != seq![107u8, 101, 101, 112, 45, 97, 108, 105, 118, 101] ==> #[trigger] final(self).values(m) == old(self).values(m),
    {
        let conn: [u8; 10] = [99, 111, 110, 110, 101, 99, 116, 105, 111, 110];
        assert(conn@ =~= seq![99u8, 111, 110, 110, 101, 99, 116, 105, 111, 110]);
        let upg: [u8; 7] = [117, 112, 103, 114, 97, 100, 101];
        assert(upg@ =~= seq![117u8, 112, 103, 114, 97, 100, 101]);
        let pa: [u8; 19] = [112, 114, 111, 120, 121, 45, 97, 117, 116, 104, 111, 114, 105, 122, 97, 116, 105, 111, 110];
        assert(pa@ =~= seq![112u8, 114, 111, 120, 121, 45, 97, 117, 116, 104, 111, 114, 105, 122, 97, 116, 105, 111, 110]);
        let pc: [u8; 16] = [112, 114, 111, 120, 121, 45, 99, 111, 110, 110, 101, 99, 116, 105, 111, 110];
        assert(pc@ =~= seq![112u8, 114, 111, 120, 121, 45, 99, 111, 110, 110, 101, 99, 116, 105, 111, 110]);
        let ka: [u8; 10] = [107, 101, 101, 112, 45, 97, 108, 105, 118, 101];
        assert(ka@ =~= seq![107u8, 101, 101, 112, 45, 97, 108, 105, 118, 101]);
        if !self.value_contains(conn.as_slice(), upg.as_slice()) {
            self.remove(conn.as_slice());
            self.remove(upg.as_slice());
        }
        self.remove(pa.as_slice());
        self.remove(pc.as_slice());
        self.remove(ka.as_slice());
    }

    /// Drops the hop-by-hop headers, sets `Accept` to the entries the proxy
    /// negotiates (see `forwarded_accept`) and returns that `Accept` in lower case.
    pub fn normalize_and_get_accept(&mut self) -> (r: Vec<u8>)
        ensures
            final(self).values(seq![97u8, 99, 99, 101, 112, 116]) == seq![forwarded_accept(old(self).values(seq![97u8, 99, 99, 101, 112, 116]))],
            r@ == lower_seq(forwarded_accept(old(self).values(seq![97u8, 99, 99, 101, 112, 116]))),
            final(self).values(seq![112u8, 114, 111, 120, 121, 45, 97, 117, 116, 104, 111, 114, 105, 122, 97, 116, 105, 111, 110]).len() == 0,
            final(self).values(seq![112u8, 114, 111, 120, 121, 45, 99, 111, 110, 110, 101, 99, 116, 105, 111, 110]).len() == 0,
            final(self).values(seq![107u8, 101, 101, 112, 45, 97, 108, 105, 118, 101]).len() == 0,
            !some_contains(old(self).values(seq![99u8, 111, 110, 110, 101, 99, 116, 105, 111, 110]), seq![117u8, 112, 103, 114, 97, 100, 101]) ==> final(self).values(seq![99u8, 111, 110, 110, 101, 99, 116, 105, 111, 110]).len() == 0
                && final(self).values(seq![117u8, 112, 103, 114, 97, 100, 101]).len() == 0,
    {
        let acc: [u8; 6] = [97, 99, 99, 101, 112, 116];
        assert(acc@ =~= seq![97u8, 99, 99, 101, 112, 116]);
        let ghost acc0 = self.values(acc@);
        self.normalize_request_headers();
        assert(self.values(acc@) == acc0);
        let toks = crate::proxy::response::readable_tokens(self, acc.as_slice());
        let ghost ts = toks@.map_values(|x: Vec<u8>| x@);
        let mut kept: Vec<u8> = Vec::new();
        let mut count: usize = 0;
        let mut k: usize = 0;
        while k < toks.len()
            invariant
                k <= toks@.len(),
                ts == toks@.map_values(|x: Vec<u8>| x@),
                kept@ == join_tokens(kept_accept(ts.subrange(0, k as int))),
                count == kept_accept(ts.subrange(0, k as int)).len(),
                count <= k,
            decreases toks@.len() - k,
        {
            let t = toks[k].as_slice();
            assert(ts.subrange(0, k + 1).drop_last() =~= ts.subrange(0, k as int));
            assert(t@ == ts[k as int]);
            if !is_dropped_accept(t) {
                let ghost ks = kept_accept(ts.subrange(0, k + 1));
                assert(ks.drop_last() =~= kept_accept(ts.subrange(0, k as int)));
                if count > 0 {
                    kept.push(44);
                    kept.push(32);
                }
                push_range(&mut kept, t, 0, t.len());
                assert(t@.subrange(0, t@.len() as int) =~= t@);
                if count == 0 {
                    assert(ks.len() == 1);
                    assert(kept@ =~= join_tokens(ks));
                } else {
                    assert(kept@ =~= join_tokens(ks));
                }
                count = count + 1;
            } else {
                assert(kept_accept(ts.subrange(0, k + 1)) =~= kept_accept(ts.subrange(0, k as int)));
            }
            k += 1;
        }
        assert(ts.subrange(0, ts.len() as int) =~= ts);
        if kept.len() == 0 {
            kept.push(42);
            kept.push(47);
            kept.push(42);
            assert(kept@ =~= seq![42u8, 47, 42]);
        }
        let lowered = lower_copy(kept.as_slice());
        self.set(acc.as_slice(), kept);
        lowered
    }
}

/// What the proxy answers without asking the origin.
#[derive(Clone, Copy, Debug, PartialEq, Eq, Structural)]
pub enum ShortCircuit {
    /// Forward the request.
    Forward,
    /// `304 Not Modified`.
    NotModified,
    /// `204 No Content`.
    NoContent,
}

/// The first six bytes of the lowered `Accept` name a media family.
pub open spec fn accepts_family(accept: Seq<u8>, fam: Seq<u8>) -> bool {
    accept.len() >= 6 && accept.subrange(0, 6) == fam
}

fn accepts_family_exec(accept: &[u8], fam: &[u8]) -> (r: bool)
    requires
        fam@.len() == 6,
    ensures
        r == accepts_family(accept@, fam@),
{
    accept.len() >= 6 && crate::bytes::bytes_eq(&accept[0..6], fam)
}

/// With fast 304s on: a revalidation of a response the proxy transformed
/// (an `If-None-Match` starting `W/"zhlob-`), or any conditional request for
/// an image, video or audio (by the lowered `Accept`), is answered 304.
pub open spec fn browser_has_cached(h: Seq<(Seq<u8>, Seq<u8>)>, inm: Seq<Seq<u8>>, ims: Seq<Seq<u8>>, accept: Seq<u8>) -> bool {
    some_starts(inm, seq![87u8, 47, 34, 122, 104, 108, 111, 98, 45]) || ((ims.len() > 0 || inm.len() > 0) && (accepts_family(accept, seq![105u8, 109, 97, 103, 101, 47])
        || accepts_family(accept, seq![118u8, 105, 100, 101, 111, 47]) || accepts_family(accept, seq![97u8, 117, 100, 105, 111, 47])))
}

pub fn skip_if_browser_has_cached(h: &HeaderMap, accept: &[u8]) -> (r: bool)
    ensures
        r == browser_has_cached(h.pairs(), h.values(seq![105u8, 102, 45, 110, 111, 110, 101, 45, 109, 97, 116, 99, 104]), h.values(seq![105u8, 102, 45, 109, 111, 100, 105, 102, 105, 101, 100, 45, 115, 105, 110, 99, 101]), accept@),
{
    let inm: [u8; 13] = [105, 102, 45, 110, 111, 110, 101, 45, 109, 97, 116, 99, 104];
    assert(inm@ =~= seq![105u8, 102, 45, 110, 111, 110, 101, 45, 109, 97, 116, 99, 104]);
    let ims: [u8; 17] = [105, 102, 45, 109, 111, 100, 105, 102, 105, 101, 100, 45, 115, 105, 110, 99, 101];
    assert(ims@ =~= seq![105u8, 102, 45, 109, 111, 100, 105, 102, 105, 101, 100, 45, 115, 105, 110, 99, 101]);
    let marker: [u8; 9] = [87, 47, 34, 122, 104, 108, 111, 98, 45];
    assert(marker@ =~= seq![87u8, 47, 34, 122, 104, 108, 111, 98, 45]);
    let img: [u8; 6] = [105, 109, 97, 103, 101, 47];
    assert(img@ =~= seq![105u8, 109, 97, 103, 101, 47]);
    let vid: [u8; 6] = [118, 105, 100, 101, 111, 47];
    assert(vid@ =~= seq![118u8, 105, 100, 101, 111, 47]);
    let aud: [u8; 6] = [97, 117, 100, 105, 111, 47];
    assert(aud@ =~= seq![97u8, 117, 100, 105, 111, 47]);
    h.value_starts(inm.as_slice(), marker.as_slice()) || ((h.contains_key(ims.as_slice()) || h.contains_key(inm.as_slice()))
        && (accepts_family_exec(accept, img.as_slice()) || accepts_family_exec(accept, vid.as_slice())
        || accepts_family_exec(accept, aud.as_slice())))
}

/// A favicon path: at least 12 bytes, `/favicon` (any case) first, and an
/// extension (after the last `.`) of `ico`, `png` or `gif` (any case).
pub open spec fn favicon_path(path: Seq<u8>) -> bool {
    path.len() >= 12 && eq_ci(path.subrange(0, 8), seq![47u8, 102, 97, 118, 105, 99, 111, 110]) && {
        let d = crate::bytes::find_last(path, 46, 0, path.len() as int);
        d >= 0 && {
            let ext = path.subrange(d + 1, path.len() as int);
            eq_ci(ext, seq![105u8, 99, 111]) || eq_ci(ext, seq![112u8, 110, 103]) || eq_ci(ext, seq![103u8, 105, 102])
        }
    }
}

/// With auxiliary resources skipped: favicons and requests for video or
/// audio are answered 204.
pub fn skip_media_or_favicon(path: &[u8], accept: &[u8]) -> (r: bool)
    ensures
        r == (favicon_path(path@) || accepts_family(accept@, seq![118u8, 105, 100, 101, 111, 47]) || accepts_family(accept@, seq![97u8, 117, 100, 105, 111, 47])),
{
    let fav: [u8; 8] = [47, 102, 97, 118, 105, 99, 111, 110];
    assert(fav@ =~= seq![47u8, 102, 97, 118, 105, 99, 111, 110]);
    let ico: [u8; 3] = [105, 99, 111];
    assert(ico@ =~= seq![105u8, 99, 111]);
    let png: [u8; 3] = [112, 110, 103];
    assert(png@ =~= seq![112u8, 110, 103]);
    let gif: [u8; 3] = [103, 105, 102];
    assert(gif@ =~= seq![103u8, 105, 102]);
    let vid: [u8; 6] = [118, 105, 100, 101, 111, 47];
    assert(vid@ =~= seq![118u8, 105, 100, 101, 111, 47]);
    let aud: [u8; 6] = [97, 117, 100, 105, 111, 47];
    assert(aud@ =~= seq![97u8, 117, 100, 105, 111, 47]);
    let n = path.len();
    let mut is_favicon = false;
    if n >= 12 && crate::bytes::bytes_eq_ci(&path[0..8], fav.as_slice()) {
        if let Some(d) = crate::bytes::find_last_exec(path, 46, 0, n) {
            let ext = &path[d + 1..n];
            is_favicon = crate::bytes::bytes_eq_ci(ext, ico.as_slice()) || crate::bytes::bytes_eq_ci(ext, png.as_slice())
                || crate::bytes::bytes_eq_ci(ext, gif.as_slice());
        }
    }
    is_favicon || accepts_family_exec(accept, vid.as_slice()) || accepts_family_exec(accept, aud.as_slice())
}

/// A response whose body the proxy may rewrite: not 101, 204, 205 or 304;
/// no `Location` or `Trailer`; no `no-transform`; and, for the request (when
/// known), no `X-Requested-With` and a `Sec-Fetch-Dest` that is empty,
/// `document`, `image` or names a frame.
pub open spec fn patchable(
    status: u16,
    resp: Seq<(Seq<u8>, Seq<u8>)>,
    location: Seq<Seq<u8>>,
    trailer: Seq<Seq<u8>>,
    cc: Seq<Seq<u8>>,
    req_known: bool,
    xrw: Seq<Seq<u8>>,
    dest: Seq<u8>,
) -> bool {
    &&& status != 101 && status != 204 && status != 205 && status != 304
    &&& location.len() == 0
    &&& trailer.len() == 0
    &&& !some_contains(cc, seq![110u8, 111, 45, 116, 114, 97, 110, 115, 102, 111, 114, 109])
    &&& (!req_known || (xrw.len() == 0 && (dest.len() == 0 || dest == seq![100u8, 111, 99, 117, 109, 101, 110, 116] || dest == seq![105u8, 109, 97, 103, 101] || exists|i: int|
        occurs_at_ci(dest, seq![102u8, 114, 97, 109, 101], i) && crate::bytes::occurs_at(dest, seq![102u8, 114, 97, 109, 101], i))))
}

pub fn can_be_patched(status: u16, resp: &HeaderMap, req: Option<&HeaderMap>) -> (r: bool)
    ensures
        r == patchable(
            status,
            resp.pairs(),
            resp.values(seq![108u8, 111, 99, 97, 116, 105, 111, 110]),
            resp.values(seq![116u8, 114, 97, 105, 108, 101, 114]),
            resp.values(seq![99u8, 97, 99, 104, 101, 45, 99, 111, 110, 116, 114, 111, 108]),
            req is Some,
            match req {
                Some(q) => q.values(seq![120u8, 45, 114, 101, 113, 117, 101, 115, 116, 101, 100, 45, 119, 105, 116, 104]),
                None => Seq::empty(),
            },
            match req {
                Some(q) => crate::proxy::headers::safe_text(q.values(seq![115u8, 101, 99, 45, 102, 101, 116, 99, 104, 45, 100, 101, 115, 116])),
                None => Seq::empty(),
            },
        ),
{
    let loc: [u8; 8] = [108, 111, 99, 97, 116, 105, 111, 110];
    assert(loc@ =~= seq![108u8, 111, 99, 97, 116, 105, 111, 110]);
    let tr: [u8; 7] = [116, 114, 97, 105, 108, 101, 114];
    assert(tr@ =~= seq![116u8, 114, 97, 105, 108, 101, 114]);
    let cc: [u8; 13] = [99, 97, 99, 104, 101, 45, 99, 111, 110, 116, 114, 111, 108];
    assert(cc@ =~= seq![99u8, 97, 99, 104, 101, 45, 99, 111, 110, 116, 114, 111, 108]);
    let nt: [u8; 12] = [110, 111, 45, 116, 114, 97, 110, 115, 102, 111, 114, 109];
    assert(nt@ =~= seq![110u8, 111, 45, 116, 114, 97, 110, 115, 102, 111, 114, 109]);
    let xrw: [u8; 16] = [120, 45, 114, 101, 113, 117, 101, 115, 116, 101, 100, 45, 119, 105, 116, 104];
    assert(xrw@ =~= seq![120u8, 45, 114, 101, 113, 117, 101, 115, 116, 101, 100, 45, 119, 105, 116, 104]);
    let sfd: [u8; 14] = [115, 101, 99, 45, 102, 101, 116, 99, 104, 45, 100, 101, 115, 116];
    assert(sfd@ =~= seq![115u8, 101, 99, 45, 102, 101, 116, 99, 104, 45, 100, 101, 115, 116]);
    let doc: [u8; 8] = [100, 111, 99, 117, 109, 101, 110, 116];
    assert(doc@ =~= seq![100u8, 111, 99, 117, 109, 101, 110, 116]);
    let img: [u8; 5] = [105, 109, 97, 103, 101];
    assert(img@ =~= seq![105u8, 109, 97, 103, 101]);
    let frame: [u8; 5] = [102, 114, 97, 109, 101];
    assert(frame@ =~= seq![102u8, 114, 97, 109, 101]);
    if status == 101 || status == 204 || status == 205 || status == 304 {
        return false;
    }
    if resp.contains_key(loc.as_slice()) || resp.contains_key(tr.as_slice()) || resp.value_contains(cc.as_slice(), nt.as_slice()) {
        return false;
    }
    match req {
        None => true,
        Some(q) => {
            if q.contains_key(xrw.as_slice()) {
                return false;
            }
            let dest = q.get_safe(sfd.as_slice());
            let found = crate::bytes::find_bytes(dest.as_slice(), frame.as_slice());
            proof {
                if found is Some {
                    let i = found->Some_0 as int;
                    assert(dest@.subrange(i, i + 5) == frame@);
                    assert(occurs_at_ci(dest@, seq![102u8, 114, 97, 109, 101], i));
                }
                if exists|i: int| occurs_at_ci(dest@, seq![102u8, 114, 97, 109, 101], i) && crate::bytes::occurs_at(dest@, seq![102u8, 114, 97, 109, 101], i) {
                    let i = choose|i: int| occurs_at_ci(dest@, seq![102u8, 114, 97, 109, 101], i) && crate::bytes::occurs_at(dest@, seq![102u8, 114, 97, 109, 101], i);
                    assert(crate::bytes::occurs_at(dest@, frame@, i));
                }
            }
            dest.len() == 0 || crate::bytes::bytes_eq(dest.as_slice(), doc.as_slice()) || crate::bytes::bytes_eq(
                dest.as_slice(),
                img.as_slice(),
            ) || found.is_some()
        },
    }
}

/// Whether a rewritten HTML body goes out in chunks: chunking is on, the
/// response is patchable, its type starts `text/html` and it does not serve
/// byte ranges.
pub fn must_be_rechunkified(rechunk_size: usize, patchable: bool, resp: &HeaderMap) -> (r: bool)
    ensures
        r == (rechunk_size > 0 && patchable && some_starts(resp.values(seq![99u8, 111, 110, 116, 101, 110, 116, 45, 116, 121, 112, 101]), seq![116u8, 101, 120, 116, 47, 104, 116, 109, 108])
            && !some_equals(resp.values(seq![97u8, 99, 99, 101, 112, 116, 45, 114, 97, 110, 103, 101, 115]), seq![98u8, 121, 116, 101, 115])),
{
    let ct: [u8; 12] = [99, 111, 110, 116, 101, 110, 116, 45, 116, 121, 112, 101];
    assert(ct@ =~= seq![99u8, 111, 110, 116, 101, 110, 116, 45, 116, 121, 112, 101]);
    let html: [u8; 9] = [116, 101, 120, 116, 47, 104, 116, 109, 108];
    assert(html@ =~= seq![116u8, 101, 120, 116, 47, 104, 116, 109, 108]);
    let ar: [u8; 13] = [97, 99, 99, 101, 112, 116, 45, 114, 97, 110, 103, 101, 115];
    assert(ar@ =~= seq![97u8, 99, 99, 101, 112, 116, 45, 114, 97, 110, 103, 101, 115]);
    let bytes: [u8; 5] = [98, 121, 116, 101, 115];
    assert(bytes@ =~= seq![98u8, 121, 116, 101, 115]);
    rechunk_size > 0 && patchable && resp.value_starts(ct.as_slice(), html.as_slice()) && !resp.value_equals(
        ar.as_slice(),
        bytes.as_slice(),
    )
}

/// With auxiliary resources skipped: responses with an icon, video, audio
/// or font type are answered 204.
pub fn skip_media_or_font_or_favicon(resp: &HeaderMap) -> (r: bool)
    ensures
        r == (some_equals(resp.values(seq![99u8, 111, 110, 116, 101, 110, 116, 45, 116, 121, 112, 101]), seq![105u8, 109, 97, 103, 101, 47, 120, 45, 105, 99, 111, 110]) || some_equals(
            resp.values(seq![99u8, 111, 110, 116, 101, 110, 116, 45, 116, 121, 112, 101]),
            seq![105u8, 109, 97, 103, 101, 47, 118, 110, 100, 46, 109, 105, 99, 114, 111, 115, 111, 102, 116, 46, 105, 99, 111, 110],
        ) || some_starts(resp.values(seq![99u8, 111, 110, 116, 101, 110, 116, 45, 116, 121, 112, 101]), seq![118u8, 105, 100, 101, 111, 47]) || some_starts(resp.values(seq![99u8, 111, 110, 116, 101, 110, 116, 45, 116, 121, 112, 101]), seq![97u8, 117, 100, 105, 111, 47])
            || some_starts(resp.values(seq![99u8, 111, 110, 116, 101, 110, 116, 45, 116, 121, 112, 101]), seq![102u8, 111, 110, 116, 47]) || some_starts(
            resp.values(seq![99u8, 111, 110, 116, 101, 110, 116, 45, 116, 121, 112, 101]),
            seq![97u8, 112, 112, 108, 105, 99, 97, 116, 105, 111, 110, 47, 102, 111, 110, 116, 45],
        ) || some_starts(resp.values(seq![99u8, 111, 110, 116, 101, 110, 116, 45, 116, 121, 112, 101]), seq![97u8, 112, 112, 108, 105, 99, 97, 116, 105, 111, 110, 47, 120, 45, 102, 111, 110, 116, 45])),
{
    let ct: [u8; 12] = [99, 111, 110, 116, 101, 110, 116, 45, 116, 121, 112, 101];
    assert(ct@ =~= seq![99u8, 111, 110, 116, 101, 110, 116, 45, 116, 121, 112, 101]);
    let ico1: [u8; 12] = [105, 109, 97, 103, 101, 47, 120, 45, 105, 99, 111, 110];
    assert(ico1@ =~= seq![105u8, 109, 97, 103, 101, 47, 120, 45, 105, 99, 111, 110]);
    let ico2: [u8; 24] = [105, 109, 97, 103, 101, 47, 118, 110, 100, 46, 109, 105, 99, 114, 111, 115, 111, 102, 116, 46, 105, 99, 111, 110];
    assert(ico2@ =~= seq![105u8, 109, 97, 103, 101, 47, 118, 110, 100, 46, 109, 105, 99, 114, 111, 115, 111, 102, 116, 46, 105, 99, 111, 110]);
    let vid: [u8; 6] = [118, 105, 100, 101, 111, 47];
    assert(vid@ =~= seq![118u8, 105, 100, 101, 111, 47]);
    let aud: [u8; 6] = [97, 117, 100, 105, 111, 47];
    assert(aud@ =~= seq![97u8, 117, 100, 105, 111, 47]);
    let font: [u8; 5] = [102, 111, 110, 116, 47];
    assert(font@ =~= seq![102u8, 111, 110, 116, 47]);
    let af: [u8; 17] = [97, 112, 112, 108, 105, 99, 97, 116, 105, 111, 110, 47, 102, 111, 110, 116, 45];
    assert(af@ =~= seq![97u8, 112, 112, 108, 105, 99, 97, 116, 105, 111, 110, 47, 102, 111, 110, 116, 45]);
    let axf: [u8; 19] = [97, 112, 112, 108, 105, 99, 97, 116, 105, 111, 110, 47, 120, 45, 102, 111, 110, 116, 45];
    assert(axf@ =~= seq![97u8, 112, 112, 108, 105, 99, 97, 116, 105, 111, 110, 47, 120, 45, 102, 111, 110, 116, 45]);
    let c = ct.as_slice();
    resp.value_equals(c, ico1.as_slice()) || resp.value_equals(c, ico2.as_slice()) || resp.value_starts(c, vid.as_slice())
        || resp.value_starts(c, aud.as_slice()) || resp.value_starts(c, font.as_slice()) || resp.value_starts(
        c,
        af.as_slice(),
    ) || resp.value_starts(c, axf.as_slice())
}

/// An upstream that asks the proxy to authenticate is answered 502.
pub fn skip_on_proxy_error(status: u16) -> (r: bool)
    ensures
        r == (status == 407),
{
    status == 407
}

/// What the self-service host serves.
#[derive(Clone, Copy, Debug, PartialEq, Eq, Structural)]
pub enum MitmPage {
    /// Not a request to the self-service host.
    NotMitm,
    /// The install instructions.
    Instructions,
    /// The CA certificate in DER (`application/pkix-cert`).
    CertDer,
    /// The CA certificate in PEM (`application/x-x509-ca-cert`).
    CertPem,
}

/// Requests to host `mitm.it` get the instructions, or the CA certificate
/// when the path holds `-ca-cert` (DER when it ends in `cer`, else PEM).
pub fn process_mitm_it(host: &[u8], path: &[u8]) -> (r: MitmPage)
    ensures
        host@ != seq![109u8, 105, 116, 109, 46, 105, 116] ==> r == MitmPage::NotMitm,
        host@ == seq![109u8, 105, 116, 109, 46, 105, 116] && !(exists|i: int| crate::bytes::occurs_at(path@, seq![45u8, 99, 97, 45, 99, 101, 114, 116], i)) ==> r
            == MitmPage::Instructions,
        host@ == seq![109u8, 105, 116, 109, 46, 105, 116] && (exists|i: int| crate::bytes::occurs_at(path@, seq![45u8, 99, 97, 45, 99, 101, 114, 116], i)) ==> r == (if path@.len()
            >= 3 && path@.subrange(path@.len() - 3, path@.len() as int) == seq![99u8, 101, 114] {
            MitmPage::CertDer
        } else {
            MitmPage::CertPem
        }),
{
    let mitm: [u8; 7] = [109, 105, 116, 109, 46, 105, 116];
    assert(mitm@ =~= seq![109u8, 105, 116, 109, 46, 105, 116]);
    let ca: [u8; 8] = [45, 99, 97, 45, 99, 101, 114, 116];
    assert(ca@ =~= seq![45u8, 99, 97, 45, 99, 101, 114, 116]);
    let cer: [u8; 3] = [99, 101, 114];
    assert(cer@ =~= seq![99u8, 101, 114]);
    if !crate::bytes::bytes_eq(host, mitm.as_slice()) {
        return MitmPage::NotMitm;
    }
    if crate::bytes::find_bytes(path, ca.as_slice()).is_none() {
        return MitmPage::Instructions;
    }
    let n = path.len();
    if n >= 3 && crate::bytes::bytes_eq(&path[n - 3..n], cer.as_slice()) {
        MitmPage::CertDer
    } else {
        MitmPage::CertPem
    }
}

} // verus!
