//! Header hygiene for every response the proxy hands back.

use crate::bytes::{lower_copy, lower_seq, push_range};
use crate::proxy::cache::{name_cache_control, name_expires};
use crate::proxy::headers::{all_tokens, some_contains, HeaderMap};
use vstd::prelude::*;

verus! {

/// The HTTP version of a message.
#[derive(Clone, Copy, Debug, PartialEq, Eq, Structural)]
pub enum HttpVersion {
    Http09,
    Http10,
    Http11,
    Http2,
    Http3,
}

/// Headers that only fingerprint the origin's software or are hop-by-hop.
pub open spec fn fingerprint_header(n: Seq<u8>) -> bool {
    // x-powered-by
    ||| n == seq![120u8, 45, 112, 111, 119, 101, 114, 101, 100, 45, 98, 121]
    // x-server
    ||| n == seq![120u8, 45, 115, 101, 114, 118, 101, 114]
    // x-served-by
    ||| n == seq![120u8, 45, 115, 101, 114, 118, 101, 100, 45, 98, 121]
    // server
    ||| n == seq![115u8, 101, 114, 118, 101, 114]
    // x-aspnet-version
    ||| n == seq![120u8, 45, 97, 115, 112, 110, 101, 116, 45, 118, 101, 114, 115, 105, 111, 110]
    // x-generator
    ||| n == seq![120u8, 45, 103, 101, 110, 101, 114, 97, 116, 111, 114]
    // x-drupal-cache
    ||| n == seq![120u8, 45, 100, 114, 117, 112, 97, 108, 45, 99, 97, 99, 104, 101]
    // x-varnish
    ||| n == seq![120u8, 45, 118, 97, 114, 110, 105, 115, 104]
    // x-correlation-id
    ||| n == seq![120u8, 45, 99, 111, 114, 114, 101, 108, 97, 116, 105, 111, 110, 45, 105, 100]
    // x-debug-token
    ||| n == seq![120u8, 45, 100, 101, 98, 117, 103, 45, 116, 111, 107, 101, 110]
    // x-debug-token-link
    ||| n == seq![120u8, 45, 100, 101, 98, 117, 103, 45, 116, 111, 107, 101, 110, 45, 108, 105, 110, 107]
    // x-runtime
    ||| n == seq![120u8, 45, 114, 117, 110, 116, 105, 109, 101]
    // x-vcache-status
    ||| n == seq![120u8, 45, 118, 99, 97, 99, 104, 101, 45, 115, 116, 97, 116, 117, 115]
    // server-timing
    ||| n == seq![115u8, 101, 114, 118, 101, 114, 45, 116, 105, 109, 105, 110, 103]
    // x-robots-tag
    ||| n == seq![120u8, 45, 114, 111, 98, 111, 116, 115, 45, 116, 97, 103]
    // x-cache
    ||| n == seq![120u8, 45, 99, 97, 99, 104, 101]
    // x-cache-hits
    ||| n == seq![120u8, 45, 99, 97, 99, 104, 101, 45, 104, 105, 116, 115]
    // x-timer
    ||| n == seq![120u8, 45, 116, 105, 109, 101, 114]
    // pragma
    ||| n == seq![112u8, 114, 97, 103, 109, 97]
    // keep-alive
    ||| n == seq![107u8, 101, 101, 112, 45, 97, 108, 105, 118, 101]
    // proxy-authenticate
    ||| n == seq![112u8, 114, 111, 120, 121, 45, 97, 117, 116, 104, 101, 110, 116, 105, 99, 97, 116, 101]
}

fn remove_fingerprints(h: &mut HeaderMap)
    ensures
        forall|m: Seq<u8>| #[trigger] final(h).values(m) == if fingerprint_header(m) {
            Seq::<Seq<u8>>::empty()
        } else {
            old(h).values(m)
        },
{
    let n0: [u8; 12] = [120, 45, 112, 111, 119, 101, 114, 101, 100, 45, 98, 121];
    assert(n0@ =~= seq![120u8, 45, 112, 111, 119, 101, 114, 101, 100, 45, 98, 121]);
    h.remove(n0.as_slice());
    let n1: [u8; 8] = [120, 45, 115, 101, 114, 118, 101, 114];
    assert(n1@ =~= seq![120u8, 45, 115, 101, 114, 118, 101, 114]);
    h.remove(n1.as_slice());
    let n2: [u8; 11] = [120, 45, 115, 101, 114, 118, 101, 100, 45, 98, 121];
    assert(n2@ =~= seq![120u8, 45, 115, 101, 114, 118, 101, 100, 45, 98, 121]);
    h.remove(n2.as_slice());
    let n3: [u8; 6] = [115, 101, 114, 118, 101, 114];
    assert(n3@ =~= seq![115u8, 101, 114, 118, 101, 114]);
    h.remove(n3.as_slice());
    let n4: [u8; 16] = [120, 45, 97, 115, 112, 110, 101, 116, 45, 118, 101, 114, 115, 105, 111, 110];
    assert(n4@ =~= seq![120u8, 45, 97, 115, 112, 110, 101, 116, 45, 118, 101, 114, 115, 105, 111, 110]);
    h.remove(n4.as_slice());
    let n5: [u8; 11] = [120, 45, 103, 101, 110, 101, 114, 97, 116, 111, 114];
    assert(n5@ =~= seq![120u8, 45, 103, 101, 110, 101, 114, 97, 116, 111, 114]);
    h.remove(n5.as_slice());
    let n6: [u8; 14] = [120, 45, 100, 114, 117, 112, 97, 108, 45, 99, 97, 99, 104, 101];
    assert(n6@ =~= seq![120u8, 45, 100, 114, 117, 112, 97, 108, 45, 99, 97, 99, 104, 101]);
    h.remove(n6.as_slice());
    let n7: [u8; 9] = [120, 45, 118, 97, 114, 110, 105, 115, 104];
    assert(n7@ =~= seq![120u8, 45, 118, 97, 114, 110, 105, 115, 104]);
    h.remove(n7.as_slice());
    let n8: [u8; 16] = [120, 45, 99, 111, 114, 114, 101, 108, 97, 116, 105, 111, 110, 45, 105, 100];
    assert(n8@ =~= seq![120u8, 45, 99, 111, 114, 114, 101, 108, 97, 116, 105, 111, 110, 45, 105, 100]);
    h.remove(n8.as_slice());
    let n9: [u8; 13] = [120, 45, 100, 101, 98, 117, 103, 45, 116, 111, 107, 101, 110];
    assert(n9@ =~= seq![120u8, 45, 100, 101, 98, 117, 103, 45, 116, 111, 107, 101, 110]);
    h.remove(n9.as_slice());
    let n10: [u8; 18] = [120, 45, 100, 101, 98, 117, 103, 45, 116, 111, 107, 101, 110, 45, 108, 105, 110, 107];
    assert(n10@ =~= seq![120u8, 45, 100, 101, 98, 117, 103, 45, 116, 111, 107, 101, 110, 45, 108, 105, 110, 107]);
    h.remove(n10.as_slice());
    let n11: [u8; 9] = [120, 45, 114, 117, 110, 116, 105, 109, 101];
    assert(n11@ =~= seq![120u8, 45, 114, 117, 110, 116, 105, 109, 101]);
    h.remove(n11.as_slice());
    let n12: [u8; 15] = [120, 45, 118, 99, 97, 99, 104, 101, 45, 115, 116, 97, 116, 117, 115];
    assert(n12@ =~= seq![120u8, 45, 118, 99, 97, 99, 104, 101, 45, 115, 116, 97, 116, 117, 115]);
    h.remove(n12.as_slice());
    let n13: [u8; 13] = [115, 101, 114, 118, 101, 114, 45, 116, 105, 109, 105, 110, 103];
    assert(n13@ =~= seq![115u8, 101, 114, 118, 101, 114, 45, 116, 105, 109, 105, 110, 103]);
    h.remove(n13.as_slice());
    let n14: [u8; 12] = [120, 45, 114, 111, 98, 111, 116, 115, 45, 116, 97, 103];
    assert(n14@ =~= seq![120u8, 45, 114, 111, 98, 111, 116, 115, 45, 116, 97, 103]);
    h.remove(n14.as_slice());
    let n15: [u8; 7] = [120, 45, 99, 97, 99, 104, 101];
    assert(n15@ =~= seq![120u8, 45, 99, 97, 99, 104, 101]);
    h.remove(n15.as_slice());
    let n16: [u8; 12] = [120, 45, 99, 97, 99, 104, 101, 45, 104, 105, 116, 115];
    assert(n16@ =~= seq![120u8, 45, 99, 97, 99, 104, 101, 45, 104, 105, 116, 115]);
    h.remove(n16.as_slice());
    let n17: [u8; 7] = [120, 45, 116, 105, 109, 101, 114];
    assert(n17@ =~= seq![120u8, 45, 116, 105, 109, 101, 114]);
    h.remove(n17.as_slice());
    let n18: [u8; 6] = [112, 114, 97, 103, 109, 97];
    assert(n18@ =~= seq![112u8, 114, 97, 103, 109, 97]);
    h.remove(n18.as_slice());
    let n19: [u8; 10] = [107, 101, 101, 112, 45, 97, 108, 105, 118, 101];
    assert(n19@ =~= seq![107u8, 101, 101, 112, 45, 97, 108, 105, 118, 101]);
    h.remove(n19.as_slice());
    let n20: [u8; 18] = [112, 114, 111, 120, 121, 45, 97, 117, 116, 104, 101, 110, 116, 105, 99, 97, 116, 101];
    assert(n20@ =~= seq![112u8, 114, 111, 120, 121, 45, 97, 117, 116, 104, 101, 110, 116, 105, 99, 97, 116, 101]);
    h.remove(n20.as_slice());
}

pub open spec fn name_connection() -> Seq<u8> {
    seq![99u8, 111, 110, 110, 101, 99, 116, 105, 111, 110]
}

pub open spec fn name_upgrade() -> Seq<u8> {
    seq![117u8, 112, 103, 114, 97, 100, 101]
}

pub open spec fn name_transfer_encoding() -> Seq<u8> {
    seq![116u8, 114, 97, 110, 115, 102, 101, 114, 45, 101, 110, 99, 111, 100, 105, 110, 103]
}

pub open spec fn name_content_encoding() -> Seq<u8> {
    seq![99u8, 111, 110, 116, 101, 110, 116, 45, 101, 110, 99, 111, 100, 105, 110, 103]
}

pub open spec fn name_content_length() -> Seq<u8> {
    seq![99u8, 111, 110, 116, 101, 110, 116, 45, 108, 101, 110, 103, 116, 104]
}

/// A coding that can move from Transfer-Encoding to Content-Encoding.
pub open spec fn movable_coding(t: Seq<u8>) -> bool {
    ||| t == seq![103u8, 122, 105, 112]
    ||| t == seq![100u8, 101, 102, 108, 97, 116, 101]
    ||| t == seq![99u8, 111, 109, 112, 114, 101, 115, 115]
}

/// `list` with each token of `ts` added, `, `-separated.
pub open spec fn append_tokens(list: Seq<u8>, ts: Seq<Seq<u8>>) -> Seq<u8>
    decreases ts.len(),
{
    if ts.len() == 0 {
        list
    } else {
        let prev = append_tokens(list, ts.drop_last());
        if prev.len() == 0 {
            ts.last()
        } else {
            prev + seq![44u8, 32] + ts.last()
        }
    }
}

/// The lower-cased tokens that move.
pub open spec fn moved_codings(ts: Seq<Seq<u8>>) -> Seq<Seq<u8>>
    decreases ts.len(),
{
    if ts.len() == 0 {
        Seq::empty()
    } else {
        moved_codings(ts.drop_last()) + if movable_coding(lower_seq(ts.last())) {
            seq![lower_seq(ts.last())]
        } else {
            Seq::empty()
        }
    }
}

fn is_movable_coding(t: &[u8]) -> (r: bool)
    ensures
        r == movable_coding(t@),
{
    let g: [u8; 4] = [103, 122, 105, 112];
    let d: [u8; 7] = [100, 101, 102, 108, 97, 116, 101];
    let c: [u8; 8] = [99, 111, 109, 112, 114, 101, 115, 115];
    assert(g@ =~= seq![103u8, 122, 105, 112]);
    assert(d@ =~= seq![100u8, 101, 102, 108, 97, 116, 101]);
    assert(c@ =~= seq![99u8, 111, 109, 112, 114, 101, 115, 115]);
    crate::bytes::bytes_eq(t, g.as_slice()) || crate::bytes::bytes_eq(t, d.as_slice())
        || crate::bytes::bytes_eq(t, c.as_slice())
}

/// The readable tokens of a header, as `get_safe` splits them.
pub fn readable_tokens(h: &HeaderMap, n: &[u8]) -> (r: Vec<Vec<u8>>)
    ensures
        r@.map_values(|x: Vec<u8>| x@) == all_tokens(h.values(n@)),
{
    let vals = h.get_all(n);
    let ghost vs = vals@.map_values(|x: Vec<u8>| x@);
    let mut toks: Vec<Vec<u8>> = Vec::new();
    let mut i: usize = 0;
    while i < vals.len()
        invariant
            i <= vals@.len(),
            vs == vals@.map_values(|x: Vec<u8>| x@),
            vs == h.values(n@),
            toks@.map_values(|x: Vec<u8>| x@) == all_tokens(vs.subrange(0, i as int)),
        decreases vals@.len() - i,
    {
        let v = vals[i].as_slice();
        proof {
            assert(vs.subrange(0, i + 1).drop_last() =~= vs.subrange(0, i as int));
        }
        if crate::proxy::headers::is_visible_value(v) {
            crate::proxy::headers::push_csv_tokens(&mut toks, v);
        } else {
            assert(all_tokens(vs.subrange(0, i as int)) + Seq::<Seq<u8>>::empty() =~= all_tokens(
                vs.subrange(0, i as int),
            ));
        }
        i += 1;
    }
    assert(vs.subrange(0, vs.len() as int) =~= vs);
    toks
}

impl HeaderMap {
    /// Header hygiene for a response of status `status` and version
    /// `version`: fingerprinting and hop-by-hop headers go; `Connection` and
    /// `Upgrade` go unless the status is 101; `Expires` goes when
    /// Cache-Control has a `max-age`. A Transfer-Encoding goes too: on
    /// HTTP/1.1 it stays and `Content-Length` goes; on other versions its
    /// `gzip`, `deflate` and `compress` codings move to Content-Encoding
    /// (and then the headers are rewritten as for changed content, with
    /// `cache_max_age` and `now_secs`).
    #[verifier::rlimit(60)]
    pub fn normalize_response_headers(&mut self, status: u16, version: HttpVersion, cache_max_age: u32, now_secs: u64)
        requires
            now_secs < crate::proxy::cache::DATE_LIMIT,
        ensures
            forall|m: Seq<u8>| fingerprint_header(m) ==> #[trigger] final(self).values(m).len() == 0,
            forall|m: Seq<u8>|
                !fingerprint_header(m) && m != name_connection() && m != name_upgrade() && m != name_expires() && m
                    != name_transfer_encoding() && m != name_content_encoding() && m != name_content_length() && m
                    != name_cache_control() && m != crate::proxy::cache::name_vary() && m
                    != crate::proxy::cache::name_content_md5() && m != crate::proxy::cache::name_accept_ranges() && m
                    != crate::proxy::cache::name_date() ==> #[trigger] final(self).values(m) == old(self).values(m),
            status != 101 ==> final(self).values(name_connection()).len() == 0
                && final(self).values(name_upgrade()).len() == 0,
            some_contains(old(self).values(name_cache_control()), seq![109u8, 97, 120, 45, 97, 103, 101])
                && old(self).values(name_transfer_encoding()).len() == 0 ==> final(self).values(name_expires()).len() == 0,
            version != HttpVersion::Http11 ==> final(self).values(name_transfer_encoding()).len() == 0,
            version == HttpVersion::Http11 && old(self).values(name_transfer_encoding()).len() > 0
                ==> final(self).values(name_content_length()).len() == 0,
            version != HttpVersion::Http11 && moved_codings(all_tokens(old(self).values(name_transfer_encoding()))).len() > 0
                ==> final(self).values(name_content_encoding()) == seq![
                append_tokens(
                    crate::proxy::headers::safe_text(old(self).values(name_content_encoding())),
                    moved_codings(all_tokens(old(self).values(name_transfer_encoding()))),
                ),
            ],
    {
        let ghost te0 = self.values(name_transfer_encoding());
        let ghost ce0 = self.values(name_content_encoding());
        remove_fingerprints(self);
        let conn: [u8; 10] = [99, 111, 110, 110, 101, 99, 116, 105, 111, 110];
        let upg: [u8; 7] = [117, 112, 103, 114, 97, 100, 101];
        let te: [u8; 17] = [116, 114, 97, 110, 115, 102, 101, 114, 45, 101, 110, 99, 111, 100, 105, 110, 103];
        let ce: [u8; 16] = [99, 111, 110, 116, 101, 110, 116, 45, 101, 110, 99, 111, 100, 105, 110, 103];
        let cl: [u8; 14] = [99, 111, 110, 116, 101, 110, 116, 45, 108, 101, 110, 103, 116, 104];
        let cc: [u8; 13] = [99, 97, 99, 104, 101, 45, 99, 111, 110, 116, 114, 111, 108];
        let ma: [u8; 7] = [109, 97, 120, 45, 97, 103, 101];
        let ex: [u8; 7] = [101, 120, 112, 105, 114, 101, 115];
        proof {
            assert(conn@ =~= name_connection());
            assert(upg@ =~= name_upgrade());
            assert(te@ =~= name_transfer_encoding());
            assert(ce@ =~= name_content_encoding());
            assert(cl@ =~= name_content_length());
            assert(cc@ =~= name_cache_control());
            assert(ma@ =~= seq![109u8, 97, 120, 45, 97, 103, 101]);
            assert(ex@ =~= name_expires());
            assert(!fingerprint_header(name_transfer_encoding()));
            assert(!fingerprint_header(name_content_encoding()));
            assert(!fingerprint_header(name_cache_control()));
            assert(!fingerprint_header(crate::proxy::cache::name_vary()));
            assert(!fingerprint_header(crate::proxy::cache::name_date()));
            assert(!fingerprint_header(name_expires()));
            assert(!fingerprint_header(crate::proxy::cache::name_content_md5()));
            assert(!fingerprint_header(crate::proxy::cache::name_accept_ranges()));
            assert(name_connection() != name_cache_control() && name_connection() != crate::proxy::cache::name_vary()
                && name_connection() != name_expires() && name_connection() != crate::proxy::cache::name_content_md5()
                && name_connection() != crate::proxy::cache::name_accept_ranges() && name_connection()
                != crate::proxy::cache::name_date());
            assert(name_upgrade() != name_cache_control() && name_upgrade() != crate::proxy::cache::name_vary()
                && name_upgrade() != name_expires() && name_upgrade() != crate::proxy::cache::name_content_md5()
                && name_upgrade() != crate::proxy::cache::name_accept_ranges() && name_upgrade()
                != crate::proxy::cache::name_date());
            assert(name_content_encoding() != name_cache_control() && name_content_encoding() != crate::proxy::cache::name_vary()
                && name_content_encoding() != name_expires() && name_content_encoding() != crate::proxy::cache::name_content_md5()
                && name_content_encoding() != crate::proxy::cache::name_accept_ranges() && name_content_encoding()
                != crate::proxy::cache::name_date());
        }
        if status != 101 {
            self.remove(conn.as_slice());
            self.remove(upg.as_slice());
        }
        if self.value_contains(cc.as_slice(), ma.as_slice()) {
            self.remove(ex.as_slice());
        }
        if self.contains_key(te.as_slice()) {
            if version != HttpVersion::Http11 {
                let toks = readable_tokens(self, te.as_slice());
                let ghost ts = toks@.map_values(|x: Vec<u8>| x@);
                let mut list = self.get_safe(ce.as_slice());
                let ghost list0 = list@;
                let mut moved: Vec<Vec<u8>> = Vec::new();
                let mut k: usize = 0;
                while k < toks.len()
                    invariant
                        k <= toks@.len(),
                        ts == toks@.map_values(|x: Vec<u8>| x@),
                        moved@.map_values(|x: Vec<u8>| x@) == moved_codings(ts.subrange(0, k as int)),
                        list@ == append_tokens(list0, moved_codings(ts.subrange(0, k as int))),
                    decreases toks@.len() - k,
                {
                    let t = lower_copy(toks[k].as_slice());
                    proof {
                        assert(ts.subrange(0, k + 1).drop_last() =~= ts.subrange(0, k as int));
                    }
                    if is_movable_coding(t.as_slice()) {
                        let ghost ms = moved_codings(ts.subrange(0, k + 1));
                        assert(ms.drop_last() =~= moved_codings(ts.subrange(0, k as int)));
                        if list.len() > 0 {
                            list.push(44);
                            list.push(32);
                        }
                        push_range(&mut list, t.as_slice(), 0, t.len());
                        proof {
                            assert(t@.subrange(0, t@.len() as int) =~= t@);
                            if list@.len() == t@.len() {
                            }
                        }
                        let t2 = lower_copy(toks[k].as_slice());
                        moved.push(t2);
                        assert(moved@.map_values(|x: Vec<u8>| x@) =~= moved_codings(ts.subrange(0, k + 1)));
                        assert(list@ =~= append_tokens(list0, moved_codings(ts.subrange(0, k + 1))));
                    } else {
                        assert(moved_codings(ts.subrange(0, k + 1)) =~= moved_codings(ts.subrange(0, k as int)));
                    }
                    k += 1;
                }
                assert(ts.subrange(0, ts.len() as int) =~= ts);
                if moved.len() > 0 {
                    self.set(ce.as_slice(), list);
                    self.normalize_extra_for_patched_content(cache_max_age, now_secs);
                }
                self.remove(te.as_slice());
            } else {
                self.remove(cl.as_slice());
            }
        }
    }
}

} // verus!
