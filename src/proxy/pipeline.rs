//! Per-response decisions of the interception pipeline: whether to rewrite
//! a body, and the headers of the responses the proxy makes itself.

use crate::processors::compression::CompressionAlgo;
use crate::proxy::headers::{some_equals, some_starts, HeaderMap};
use vstd::prelude::*;

verus! {

/// What a response's body would be rewritten as.
#[derive(Clone, Copy, Debug, PartialEq, Eq, Structural)]
pub enum Transform {
    /// Passed through as it is.
    PassThrough,
    /// Rewritten by the HTML rules.
    Html,
    /// Re-encoded as a small WebP.
    Image,
}

/// The transform for a patchable response whose declared length fits the
/// limit: HTML cleaning for `text/html` when it is on; image re-encoding
/// when images are scaled, the client takes WebP (and is not opening the
/// image as a page) and the type is JPEG, PNG, GIF or WebP.
pub open spec fn transform_for(
    patchable: bool,
    content_length: int,
    limit: int,
    html_clean: bool,
    image_scaling: bool,
    accept: Seq<u8>,
    ct: Seq<Seq<u8>>,
) -> Transform {
    if !patchable || content_length > limit {
        Transform::PassThrough
    } else if html_clean && some_starts(ct, seq![116u8, 101, 120, 116, 47, 104, 116, 109, 108]) {
        Transform::Html
    } else if image_scaling && !crate::bytes::starts_with(accept, seq![116u8, 101, 120, 116, 47]) && (exists|i: int|
        crate::bytes::occurs_at(accept, seq![105u8, 109, 97, 103, 101, 47, 119, 101, 98, 112], i)) && (some_equals(ct, seq![105u8, 109, 97, 103, 101, 47, 106, 112, 101, 103]) || some_equals(
        ct,
        seq![105u8, 109, 97, 103, 101, 47, 112, 110, 103],
    ) || some_equals(ct, seq![105u8, 109, 97, 103, 101, 47, 103, 105, 102]) || some_equals(ct, seq![105u8, 109, 97, 103, 101, 47, 119, 101, 98, 112])) {
        Transform::Image
    } else {
        Transform::PassThrough
    }
}

pub fn choose_transform(
    patchable: bool,
    content_length: usize,
    limit: usize,
    html_clean: bool,
    image_scaling: bool,
    accept: &[u8],
    resp: &HeaderMap,
) -> (r: Transform)
    ensures
        r == transform_for(
            patchable,
            content_length as int,
            limit as int,
            html_clean,
            image_scaling,
            accept@,
            resp.values(seq![99u8, 111, 110, 116, 101, 110, 116, 45, 116, 121, 112, 101]),
        ),
{
    let ct: [u8; 12] = [99, 111, 110, 116, 101, 110, 116, 45, 116, 121, 112, 101];
    assert(ct@ =~= seq![99u8, 111, 110, 116, 101, 110, 116, 45, 116, 121, 112, 101]);
    let html: [u8; 9] = [116, 101, 120, 116, 47, 104, 116, 109, 108];
    assert(html@ =~= seq![116u8, 101, 120, 116, 47, 104, 116, 109, 108]);
    let text: [u8; 5] = [116, 101, 120, 116, 47];
    assert(text@ =~= seq![116u8, 101, 120, 116, 47]);
    let webp_accept: [u8; 10] = [105, 109, 97, 103, 101, 47, 119, 101, 98, 112];
    assert(webp_accept@ =~= seq![105u8, 109, 97, 103, 101, 47, 119, 101, 98, 112]);
    let jpeg: [u8; 10] = [105, 109, 97, 103, 101, 47, 106, 112, 101, 103];
    assert(jpeg@ =~= seq![105u8, 109, 97, 103, 101, 47, 106, 112, 101, 103]);
    let png: [u8; 9] = [105, 109, 97, 103, 101, 47, 112, 110, 103];
    assert(png@ =~= seq![105u8, 109, 97, 103, 101, 47, 112, 110, 103]);
    let gif: [u8; 9] = [105, 109, 97, 103, 101, 47, 103, 105, 102];
    assert(gif@ =~= seq![105u8, 109, 97, 103, 101, 47, 103, 105, 102]);
    if !patchable || content_length > limit {
        return Transform::PassThrough;
    }
    if html_clean && resp.value_starts(ct.as_slice(), html.as_slice()) {
        return Transform::Html;
    }
    let c = ct.as_slice();
    if image_scaling && !crate::bytes::starts_with_exec(accept, text.as_slice()) && crate::bytes::find_bytes(
        accept,
        webp_accept.as_slice(),
    ).is_some() && (resp.value_equals(c, jpeg.as_slice()) || resp.value_equals(c, png.as_slice())
        || resp.value_equals(c, gif.as_slice()) || resp.value_equals(c, webp_accept.as_slice())) {
        return Transform::Image;
    }
    Transform::PassThrough
}

/// The `Cache-Control` of a response the proxy makes itself: 204 and 304
/// may be kept privately for `cache_max_age`; a 200 text page must be
/// revalidated; other 200 bodies are not stored.
pub open spec fn own_cache_control(status: u16, mime: Seq<u8>, cache_max_age: u32) -> Option<Seq<u8>> {
    if status == 204 || status == 304 {
        Some(seq![112u8, 114, 105, 118, 97, 116, 101, 44, 32, 109, 97, 120, 45, 97, 103, 101, 61] + crate::proxy::cache::dec_text(cache_max_age as nat) + crate::proxy::cache::lit_revalidate())
    } else if status == 200 && crate::bytes::starts_with(mime, seq![116u8, 101, 120, 116, 47]) {
        Some(seq![112u8, 114, 105, 118, 97, 116, 101, 44, 32, 109, 97, 120, 45, 97, 103, 101, 61, 48] + crate::proxy::cache::lit_revalidate())
    } else if status == 200 {
        Some(seq![110u8, 111, 45, 115, 116, 111, 114, 101])
    } else {
        None
    }
}

/// The headers of a response the proxy makes itself: its Cache-Control
/// (see `own_cache_control`), a `Date` (`date_text`) for 204 and 304, the
/// `Content-Type` unless empty, and for the CA certificate a download name.
pub fn own_response_headers(status: u16, mime: &[u8], cache_max_age: u32, date_text: Vec<u8>, app_name: &[u8]) -> (r: HeaderMap)
    ensures
        own_cache_control(status, mime@, cache_max_age) matches Some(cc) ==> r.values(seq![99u8, 97, 99, 104, 101, 45, 99, 111, 110, 116, 114, 111, 108]) == seq![cc],
        own_cache_control(status, mime@, cache_max_age) is None ==> r.values(seq![99u8, 97, 99, 104, 101, 45, 99, 111, 110, 116, 114, 111, 108]).len() == 0,
        mime@.len() > 0 ==> r.values(seq![99u8, 111, 110, 116, 101, 110, 116, 45, 116, 121, 112, 101]) == seq![mime@],
        mime@.len() == 0 ==> r.values(seq![99u8, 111, 110, 116, 101, 110, 116, 45, 116, 121, 112, 101]).len() == 0,
{
    let cc: [u8; 13] = [99, 97, 99, 104, 101, 45, 99, 111, 110, 116, 114, 111, 108];
    assert(cc@ =~= seq![99u8, 97, 99, 104, 101, 45, 99, 111, 110, 116, 114, 111, 108]);
    let date: [u8; 4] = [100, 97, 116, 101];
    assert(date@ =~= seq![100u8, 97, 116, 101]);
    let ctn: [u8; 12] = [99, 111, 110, 116, 101, 110, 116, 45, 116, 121, 112, 101];
    assert(ctn@ =~= seq![99u8, 111, 110, 116, 101, 110, 116, 45, 116, 121, 112, 101]);
    let cd: [u8; 19] = [99, 111, 110, 116, 101, 110, 116, 45, 100, 105, 115, 112, 111, 115, 105, 116, 105, 111, 110];
    assert(cd@ =~= seq![99u8, 111, 110, 116, 101, 110, 116, 45, 100, 105, 115, 112, 111, 115, 105, 116, 105, 111, 110]);
    let priv_age: [u8; 17] = [112, 114, 105, 118, 97, 116, 101, 44, 32, 109, 97, 120, 45, 97, 103, 101, 61];
    assert(priv_age@ =~= seq![112u8, 114, 105, 118, 97, 116, 101, 44, 32, 109, 97, 120, 45, 97, 103, 101, 61]);
    let priv_zero: [u8; 18] = [112, 114, 105, 118, 97, 116, 101, 44, 32, 109, 97, 120, 45, 97, 103, 101, 61, 48];
    assert(priv_zero@ =~= seq![112u8, 114, 105, 118, 97, 116, 101, 44, 32, 109, 97, 120, 45, 97, 103, 101, 61, 48]);
    let no_store: [u8; 8] = [110, 111, 45, 115, 116, 111, 114, 101];
    assert(no_store@ =~= seq![110u8, 111, 45, 115, 116, 111, 114, 101]);
    let text: [u8; 5] = [116, 101, 120, 116, 47];
    assert(text@ =~= seq![116u8, 101, 120, 116, 47]);
    let pkix: [u8; 21] = [97, 112, 112, 108, 105, 99, 97, 116, 105, 111, 110, 47, 112, 107, 105, 120, 45, 99, 101, 114, 116];
    assert(pkix@ =~= seq![97u8, 112, 112, 108, 105, 99, 97, 116, 105, 111, 110, 47, 112, 107, 105, 120, 45, 99, 101, 114, 116]);
    let x509: [u8; 26] = [97, 112, 112, 108, 105, 99, 97, 116, 105, 111, 110, 47, 120, 45, 120, 53, 48, 57, 45, 99, 97, 45, 99, 101, 114, 116];
    assert(x509@ =~= seq![97u8, 112, 112, 108, 105, 99, 97, 116, 105, 111, 110, 47, 120, 45, 120, 53, 48, 57, 45, 99, 97, 45, 99, 101, 114, 116]);
    let attach: [u8; 21] = [97, 116, 116, 97, 99, 104, 109, 101, 110, 116, 59, 32, 102, 105, 108, 101, 110, 97, 109, 101, 61];
    assert(attach@ =~= seq![97u8, 116, 116, 97, 99, 104, 109, 101, 110, 116, 59, 32, 102, 105, 108, 101, 110, 97, 109, 101, 61]);
    let cert_cer: [u8; 12] = [45, 99, 97, 45, 99, 101, 114, 116, 46, 99, 101, 114];
    assert(cert_cer@ =~= seq![45u8, 99, 97, 45, 99, 101, 114, 116, 46, 99, 101, 114]);
    let cert_pem: [u8; 12] = [45, 99, 97, 45, 99, 101, 114, 116, 46, 112, 101, 109];
    assert(cert_pem@ =~= seq![45u8, 99, 97, 45, 99, 101, 114, 116, 46, 112, 101, 109]);
    let reval: [u8; 48] = [44, 32, 109, 117, 115, 116, 45, 114, 101, 118, 97, 108, 105, 100, 97, 116, 101, 44, 32, 115, 116, 97, 108, 101, 45, 119, 104, 105, 108, 101, 45, 114, 101, 118, 97, 108, 105, 100, 97, 116, 101, 61, 54, 48, 52, 56, 48, 48];
    assert(reval@ =~= crate::proxy::cache::lit_revalidate());
    let mut h = HeaderMap::new();
    if status == 204 || status == 304 {
        h.set(date.as_slice(), date_text);
        let mut v: Vec<u8> = Vec::new();
        crate::bytes::push_range(&mut v, priv_age.as_slice(), 0, priv_age.len());
        crate::proxy::cache::push_decimal(&mut v, cache_max_age as u64);
        crate::bytes::push_range(&mut v, reval.as_slice(), 0, 48);
        assert(priv_age@.subrange(0, priv_age@.len() as int) =~= priv_age@);
        assert(v@ =~= seq![112u8, 114, 105, 118, 97, 116, 101, 44, 32, 109, 97, 120, 45, 97, 103, 101, 61] + crate::proxy::cache::dec_text(cache_max_age as nat) + crate::proxy::cache::lit_revalidate());
        h.set(cc.as_slice(), v);
    } else if status == 200 && crate::bytes::starts_with_exec(mime, text.as_slice()) {
        let mut v: Vec<u8> = Vec::new();
        crate::bytes::push_range(&mut v, priv_zero.as_slice(), 0, priv_zero.len());
        crate::bytes::push_range(&mut v, reval.as_slice(), 0, 48);
        assert(priv_zero@.subrange(0, priv_zero@.len() as int) =~= priv_zero@);
        assert(v@ =~= seq![112u8, 114, 105, 118, 97, 116, 101, 44, 32, 109, 97, 120, 45, 97, 103, 101, 61, 48] + crate::proxy::cache::lit_revalidate());
        h.set(cc.as_slice(), v);
    } else if status == 200 {
        let v = crate::bytes::copy_range(no_store.as_slice(), 0, no_store.len());
        assert(no_store@.subrange(0, no_store@.len() as int) =~= no_store@);
        h.set(cc.as_slice(), v);
    }
    if mime.len() > 0 {
        let is_cer = crate::bytes::bytes_eq(mime, pkix.as_slice());
        let is_pem = crate::bytes::bytes_eq(mime, x509.as_slice());
        if is_cer || is_pem {
            let mut v: Vec<u8> = Vec::new();
            crate::bytes::push_range(&mut v, attach.as_slice(), 0, attach.len());
            crate::bytes::push_range(&mut v, app_name, 0, app_name.len());
            if is_cer {
                crate::bytes::push_range(&mut v, cert_cer.as_slice(), 0, cert_cer.len());
            } else {
                crate::bytes::push_range(&mut v, cert_pem.as_slice(), 0, cert_pem.len());
            }
            h.set(cd.as_slice(), v);
        }
        let m = crate::bytes::copy_range(mime, 0, mime.len());
        assert(mime@.subrange(0, mime@.len() as int) =~= mime@);
        h.set(ctn.as_slice(), m);
    }
    h
}

} // verus!

verus! {

/// A response without Cache-Control but with `Pragma: no-cache` gets
/// `Cache-Control: no-cache`; other headers stay.
pub fn apply_pragma(h: &mut HeaderMap)
    ensures
        old(h).values(seq![99u8, 97, 99, 104, 101, 45, 99, 111, 110, 116, 114, 111, 108]).len() == 0 && some_equals(old(h).values(seq![112u8, 114, 97, 103, 109, 97]), seq![110u8, 111, 45, 99, 97, 99, 104, 101])
            ==> final(h).values(seq![99u8, 97, 99, 104, 101, 45, 99, 111, 110, 116, 114, 111, 108]) == seq![seq![110u8, 111, 45, 99, 97, 99, 104, 101]],
        !(old(h).values(seq![99u8, 97, 99, 104, 101, 45, 99, 111, 110, 116, 114, 111, 108]).len() == 0 && some_equals(old(h).values(seq![112u8, 114, 97, 103, 109, 97]), seq![110u8, 111, 45, 99, 97, 99, 104, 101]))
            ==> final(h).values(seq![99u8, 97, 99, 104, 101, 45, 99, 111, 110, 116, 114, 111, 108]) == old(h).values(seq![99u8, 97, 99, 104, 101, 45, 99, 111, 110, 116, 114, 111, 108]),
        forall|m: Seq<u8>| m != seq![99u8, 97, 99, 104, 101, 45, 99, 111, 110, 116, 114, 111, 108] ==> #[trigger] final(h).values(m) == old(h).values(m),
{
    let cc: [u8; 13] = [99, 97, 99, 104, 101, 45, 99, 111, 110, 116, 114, 111, 108];
    assert(cc@ =~= seq![99u8, 97, 99, 104, 101, 45, 99, 111, 110, 116, 114, 111, 108]);
    let pragma: [u8; 6] = [112, 114, 97, 103, 109, 97];
    assert(pragma@ =~= seq![112u8, 114, 97, 103, 109, 97]);
    let no_cache: [u8; 8] = [110, 111, 45, 99, 97, 99, 104, 101];
    assert(no_cache@ =~= seq![110u8, 111, 45, 99, 97, 99, 104, 101]);
    if !h.contains_key(cc.as_slice()) && h.value_equals(pragma.as_slice(), no_cache.as_slice()) {
        let v = crate::bytes::copy_range(no_cache.as_slice(), 0, 8);
        assert(no_cache@.subrange(0, 8) =~= no_cache@);
        h.set(cc.as_slice(), v);
    }
}

/// The headers of a response whose body went out rewritten (or, for an
/// empty body, unchanged): no Transfer-Encoding; the body's Content-Type
/// when it changed (`text/html; charset=utf-8` for HTML, else
/// `image/webp`); Content-Encoding naming the coding, or gone for none.
pub fn finalize_transformed(h: &mut HeaderMap, algo: CompressionAlgo, type_changed: bool, is_html: bool)
    ensures
        final(h).values(seq![116u8, 114, 97, 110, 115, 102, 101, 114, 45, 101, 110, 99, 111, 100, 105, 110, 103]).len() == 0,
        type_changed ==> final(h).values(seq![99u8, 111, 110, 116, 101, 110, 116, 45, 116, 121, 112, 101]) == seq![if is_html {
            seq![116u8, 101, 120, 116, 47, 104, 116, 109, 108, 59, 32, 99, 104, 97, 114, 115, 101, 116, 61, 117, 116, 102, 45, 56]
        } else {
            seq![105u8, 109, 97, 103, 101, 47, 119, 101, 98, 112]
        }],
        !type_changed ==> final(h).values(seq![99u8, 111, 110, 116, 101, 110, 116, 45, 116, 121, 112, 101]) == old(h).values(seq![99u8, 111, 110, 116, 101, 110, 116, 45, 116, 121, 112, 101]),
        algo == CompressionAlgo::Uncompressed ==> final(h).values(seq![99u8, 111, 110, 116, 101, 110, 116, 45, 101, 110, 99, 111, 100, 105, 110, 103]).len() == 0,
        algo != CompressionAlgo::Uncompressed ==> final(h).values(seq![99u8, 111, 110, 116, 101, 110, 116, 45, 101, 110, 99, 111, 100, 105, 110, 103]) == seq![
            crate::processors::compression::coding_name(algo),
        ],
        forall|m: Seq<u8>|
            m != seq![116u8, 114, 97, 110, 115, 102, 101, 114, 45, 101, 110, 99, 111, 100, 105, 110, 103] && m != seq![99u8, 111, 110, 116, 101, 110, 116, 45, 116, 121, 112, 101] && m != seq![99u8, 111, 110, 116, 101, 110, 116, 45, 101, 110, 99, 111, 100, 105, 110, 103] ==> #[trigger] final(h).values(m)
                == old(h).values(m),
{
    let te: [u8; 17] = [116, 114, 97, 110, 115, 102, 101, 114, 45, 101, 110, 99, 111, 100, 105, 110, 103];
    assert(te@ =~= seq![116u8, 114, 97, 110, 115, 102, 101, 114, 45, 101, 110, 99, 111, 100, 105, 110, 103]);
    let ct: [u8; 12] = [99, 111, 110, 116, 101, 110, 116, 45, 116, 121, 112, 101];
    assert(ct@ =~= seq![99u8, 111, 110, 116, 101, 110, 116, 45, 116, 121, 112, 101]);
    let ce: [u8; 16] = [99, 111, 110, 116, 101, 110, 116, 45, 101, 110, 99, 111, 100, 105, 110, 103];
    assert(ce@ =~= seq![99u8, 111, 110, 116, 101, 110, 116, 45, 101, 110, 99, 111, 100, 105, 110, 103]);
    let html: [u8; 24] = [116, 101, 120, 116, 47, 104, 116, 109, 108, 59, 32, 99, 104, 97, 114, 115, 101, 116, 61, 117, 116, 102, 45, 56];
    assert(html@ =~= seq![116u8, 101, 120, 116, 47, 104, 116, 109, 108, 59, 32, 99, 104, 97, 114, 115, 101, 116, 61, 117, 116, 102, 45, 56]);
    let webp: [u8; 10] = [105, 109, 97, 103, 101, 47, 119, 101, 98, 112];
    assert(webp@ =~= seq![105u8, 109, 97, 103, 101, 47, 119, 101, 98, 112]);
    h.remove(te.as_slice());
    if type_changed {
        let v = if is_html {
            let v = crate::bytes::copy_range(html.as_slice(), 0, html.len());
            assert(html@.subrange(0, html@.len() as int) =~= html@);
            v
        } else {
            let v = crate::bytes::copy_range(webp.as_slice(), 0, webp.len());
            assert(webp@.subrange(0, webp@.len() as int) =~= webp@);
            v
        };
        h.set(ct.as_slice(), v);
    }
    if algo == CompressionAlgo::Uncompressed {
        h.remove(ce.as_slice());
    } else {
        h.set(ce.as_slice(), algo.name_bytes());
    }
}

/// An empty body goes out as it is: no Transfer-Encoding, no
/// Content-Encoding.
pub fn finalize_empty(h: &mut HeaderMap)
    ensures
        final(h).values(seq![116u8, 114, 97, 110, 115, 102, 101, 114, 45, 101, 110, 99, 111, 100, 105, 110, 103]).len() == 0,
        final(h).values(seq![99u8, 111, 110, 116, 101, 110, 116, 45, 101, 110, 99, 111, 100, 105, 110, 103]).len() == 0,
        forall|m: Seq<u8>| m != seq![116u8, 114, 97, 110, 115, 102, 101, 114, 45, 101, 110, 99, 111, 100, 105, 110, 103] && m != seq![99u8, 111, 110, 116, 101, 110, 116, 45, 101, 110, 99, 111, 100, 105, 110, 103] ==> #[trigger] final(h).values(m)
            == old(h).values(m),
{
    let te: [u8; 17] = [116, 114, 97, 110, 115, 102, 101, 114, 45, 101, 110, 99, 111, 100, 105, 110, 103];
    assert(te@ =~= seq![116u8, 114, 97, 110, 115, 102, 101, 114, 45, 101, 110, 99, 111, 100, 105, 110, 103]);
    let ce: [u8; 16] = [99, 111, 110, 116, 101, 110, 116, 45, 101, 110, 99, 111, 100, 105, 110, 103];
    assert(ce@ =~= seq![99u8, 111, 110, 116, 101, 110, 116, 45, 101, 110, 99, 111, 100, 105, 110, 103]);
    h.remove(te.as_slice());
    h.remove(ce.as_slice());
}

} // verus!
