use zhlob::processors::compression::CompressionAlgo;
use zhlob::proxy::headers::HeaderMap;
use zhlob::proxy::request::{
    can_be_patched, must_be_rechunkified, process_mitm_it, skip_if_browser_has_cached, skip_media_or_favicon,
    skip_media_or_font_or_favicon, skip_on_proxy_error, MitmPage,
};
use zhlob::proxy::pipeline::{apply_pragma, choose_transform, finalize_empty, finalize_transformed, own_response_headers, Transform};
use zhlob::proxy::response::HttpVersion;

fn map(pairs: &[(&str, &str)]) -> HeaderMap {
    let mut h = HeaderMap::new();
    for (n, v) in pairs {
        h.append(n.as_bytes().to_vec(), v.as_bytes().to_vec());
    }
    h
}

fn one(h: &HeaderMap, n: &str) -> Option<String> {
    let v = h.get_all(n.as_bytes());
    assert!(v.len() <= 1);
    v.first().map(|x| String::from_utf8(x.clone()).unwrap())
}

#[test]
fn set_remove_and_get_safe() {
    let mut h = map(&[("vary", "Origin,  , Accept"), ("vary", "X-Foo"), ("etag", "\"a\"")]);
    assert_eq!(h.get_safe(b"vary"), b"origin, accept, x-foo".to_vec());
    assert!(h.contains_key(b"etag"));
    h.remove(b"etag");
    assert!(!h.contains_key(b"etag"));
    h.set(b"vary", b"*".to_vec());
    assert_eq!(one(&h, "vary").unwrap(), "*");
    assert!(h.value_contains(b"vary", b"*"));
    assert!(h.value_starts(b"vary", b"*"));
    assert!(h.value_equals(b"vary", b"*"));
}

#[test]
fn etag_marker_round_trip() {
    let marker = b"zhlob~QUJDREVGR0g~";
    let mut resp = map(&[("etag", "W/\"abc\"")]);
    resp.inject_etag_marker(marker);
    let tagged = one(&resp, "etag").unwrap();
    assert_eq!(tagged, "W/\"zhlob~QUJDREVGR0g~abc\"");
    let mut req = map(&[("if-none-match", tagged.as_str())]);
    req.strip_etag_marker();
    assert_eq!(one(&req, "if-none-match").unwrap(), "W/\"abc\"");
}

#[test]
fn etag_marker_placement() {
    for (etag, expect) in [("\"x\"", "\"zhlob~M~x\""), ("plain", "zhlob~M~plain"), ("W/", "W/zhlob~M~")] {
        let mut h = map(&[("etag", etag)]);
        h.inject_etag_marker(b"zhlob~M~");
        assert_eq!(one(&h, "etag").unwrap(), expect);
    }
    let mut h = map(&[]);
    h.inject_etag_marker(b"zhlob~M~");
    assert!(!h.contains_key(b"etag"));
}

#[test]
fn strip_leaves_unmarked_headers_alone() {
    let mut h = map(&[("if-match", "\"a\", W/\"b\""), ("if-none-match", "\"zhlob~x~c\", \"d\"")]);
    h.strip_etag_marker();
    assert_eq!(one(&h, "if-match").unwrap(), "\"a\", W/\"b\"");
    assert_eq!(one(&h, "if-none-match").unwrap(), "\"c\", \"d\"");
}

#[test]
fn cache_control_is_capped() {
    let mut h = map(&[("cache-control", "public, max-age=999999")]);
    h.normalize_extra_for_patched_content(7200, 1_700_000_000);
    assert_eq!(
        one(&h, "cache-control").unwrap(),
        "public, max-age=7200, must-revalidate, stale-while-revalidate=604800"
    );
    let mut h = map(&[("cache-control", "private, max-age=60")]);
    h.normalize_extra_for_patched_content(7200, 1_700_000_000);
    assert_eq!(
        one(&h, "cache-control").unwrap(),
        "private, max-age=60, must-revalidate, stale-while-revalidate=604800"
    );
    assert!(h.contains_key(b"date"));
}

#[test]
fn cache_control_keeps_no_store_and_no_cache() {
    let mut h = map(&[("cache-control", "no-store"), ("expires", "0")]);
    h.normalize_extra_for_patched_content(7200, 0);
    assert_eq!(one(&h, "cache-control").unwrap(), "no-store");
    assert!(!h.contains_key(b"expires"));
    let mut h = map(&[("cache-control", "private, no-cache")]);
    h.normalize_extra_for_patched_content(7200, 0);
    assert_eq!(one(&h, "cache-control").unwrap(), "private, no-cache");
    let mut h = map(&[("cache-control", "max-age=-5")]);
    h.normalize_extra_for_patched_content(7200, 0);
    assert_eq!(one(&h, "cache-control").unwrap(), "public, no-cache");
}

#[test]
fn cache_control_default_age() {
    let mut h = map(&[("content-md5", "x"), ("accept-ranges", "bytes")]);
    h.normalize_extra_for_patched_content(300, 1_700_000_000);
    assert_eq!(
        one(&h, "cache-control").unwrap(),
        "public, max-age=300, must-revalidate, stale-while-revalidate=604800"
    );
    assert!(!h.contains_key(b"content-md5"));
    assert!(!h.contains_key(b"accept-ranges"));
    assert_eq!(one(&h, "vary").unwrap(), "accept-encoding");
}

#[test]
fn vary_gets_accept_encoding() {
    let mut h = map(&[("vary", "Origin")]);
    h.normalize_extra_for_patched_content(300, 0);
    assert_eq!(one(&h, "vary").unwrap(), "accept-encoding, origin");
    let mut h = map(&[("vary", "Accept-Encoding")]);
    h.normalize_extra_for_patched_content(300, 0);
    assert_eq!(one(&h, "vary").unwrap(), "Accept-Encoding");
}

#[test]
fn csp_inline_handlers() {
    assert!(map(&[]).csp_allow_inline_js_in_attrs());
    assert!(map(&[("content-security-policy", "script-src 'self' 'unsafe-inline'")]).csp_allow_inline_js_in_attrs());
    assert!(!map(&[("content-security-policy", "default-src 'self'")]).csp_allow_inline_js_in_attrs());
    assert!(!map(&[("content-security-policy", "script-src 'unsafe-inline' 'nonce-abc'")]).csp_allow_inline_js_in_attrs());
    assert!(!map(&[("content-security-policy", "script-src 'unsafe-inline' 'strict-dynamic'")]).csp_allow_inline_js_in_attrs());
    assert!(!map(&[("content-security-policy", "default-src 'unsafe-inline'; script-src-attr 'none'")])
        .csp_allow_inline_js_in_attrs());
    assert!(map(&[("content-security-policy", "img-src *; style-src 'self'")]).csp_allow_inline_js_in_attrs());
}

#[test]
fn chunked_gzip_on_http10_moves_to_content_encoding() {
    let mut h = map(&[("transfer-encoding", "chunked, gzip"), ("server", "nginx"), ("x-powered-by", "php")]);
    h.normalize_response_headers(200, HttpVersion::Http10, 7200, 0);
    assert_eq!(one(&h, "content-encoding").unwrap(), "gzip");
    assert!(!h.contains_key(b"transfer-encoding"));
    assert!(!h.contains_key(b"server"));
    assert!(!h.contains_key(b"x-powered-by"));
}

#[test]
fn http11_chunked_drops_content_length() {
    let mut h = map(&[("transfer-encoding", "chunked"), ("content-length", "10"), ("connection", "keep-alive")]);
    h.normalize_response_headers(200, HttpVersion::Http11, 7200, 0);
    assert!(h.contains_key(b"transfer-encoding"));
    assert!(!h.contains_key(b"content-length"));
    assert!(!h.contains_key(b"connection"));
    let mut h = map(&[("connection", "upgrade"), ("upgrade", "websocket")]);
    h.normalize_response_headers(101, HttpVersion::Http11, 7200, 0);
    assert!(h.contains_key(b"connection") && h.contains_key(b"upgrade"));
}

#[test]
fn max_age_drops_expires() {
    let mut h = map(&[("cache-control", "max-age=10"), ("expires", "Thu, 01 Jan 1970 00:00:00 GMT")]);
    h.normalize_response_headers(200, HttpVersion::Http11, 7200, 0);
    assert!(!h.contains_key(b"expires"));
}

#[test]
fn accept_is_normalized() {
    let mut h = map(&[("accept", "image/avif,image/webp, IMAGE/APNG;q=0.8,*/*"), ("proxy-authorization", "x"), ("keep-alive", "1")]);
    let a = h.normalize_and_get_accept();
    assert_eq!(a, b"image/webp, */*".to_vec());
    assert_eq!(one(&h, "accept").unwrap(), "image/webp, */*");
    assert!(!h.contains_key(b"proxy-authorization"));
    assert!(!h.contains_key(b"keep-alive"));
    let mut h = map(&[]);
    assert_eq!(h.normalize_and_get_accept(), b"*/*".to_vec());
    let mut h = map(&[("accept", "Text/HTML")]);
    assert_eq!(h.normalize_and_get_accept(), b"text/html".to_vec());
    assert_eq!(one(&h, "accept").unwrap(), "Text/HTML");
}

#[test]
fn revalidation_of_transformed_content_gets_304() {
    let h = map(&[("if-none-match", "W/\"zhlob-abcd\"")]);
    assert!(skip_if_browser_has_cached(&h, b"text/html"));
    let h = map(&[("if-modified-since", "Thu, 01 Jan 1970 00:00:00 GMT")]);
    assert!(skip_if_browser_has_cached(&h, b"image/webp,*/*"));
    assert!(!skip_if_browser_has_cached(&h, b"text/html"));
    assert!(!skip_if_browser_has_cached(&map(&[]), b"image/webp"));
}

#[test]
fn auxiliary_requests_get_204() {
    assert!(skip_media_or_favicon(b"/favicon.ico", b"*/*"));
    assert!(skip_media_or_favicon(b"/FAVICON.PNG", b"*/*"));
    assert!(!skip_media_or_favicon(b"/favicon.svg", b"*/*"));
    assert!(!skip_media_or_favicon(b"/fav.ico", b"*/*"));
    assert!(skip_media_or_favicon(b"/clip", b"video/webm"));
    assert!(!skip_media_or_favicon(b"/clip", b"text/html"));
    assert!(skip_media_or_font_or_favicon(&map(&[("content-type", "font/woff2")])));
    assert!(skip_media_or_font_or_favicon(&map(&[("content-type", "image/x-icon")])));
    assert!(!skip_media_or_font_or_favicon(&map(&[("content-type", "image/png")])));
}

#[test]
fn patchable_responses() {
    assert!(can_be_patched(200, &map(&[]), None));
    assert!(!can_be_patched(304, &map(&[]), None));
    assert!(!can_be_patched(200, &map(&[("location", "/x")]), None));
    assert!(!can_be_patched(200, &map(&[("cache-control", "no-transform")]), None));
    assert!(!can_be_patched(200, &map(&[]), Some(&map(&[("sec-fetch-dest", "script")]))));
    assert!(can_be_patched(200, &map(&[]), Some(&map(&[("sec-fetch-dest", "iframe")]))));
    assert!(can_be_patched(200, &map(&[]), Some(&map(&[("sec-fetch-dest", "document")]))));
    assert!(!can_be_patched(200, &map(&[]), Some(&map(&[("x-requested-with", "XMLHttpRequest")]))));
}

#[test]
fn rechunking_decision() {
    let html = map(&[("content-type", "text/html; charset=utf-8")]);
    assert!(must_be_rechunkified(1360, true, &html));
    assert!(!must_be_rechunkified(0, true, &html));
    assert!(!must_be_rechunkified(1360, false, &html));
    let ranged = map(&[("content-type", "text/html"), ("accept-ranges", "bytes")]);
    assert!(!must_be_rechunkified(1360, true, &ranged));
}

#[test]
fn upstream_auth_becomes_502() {
    assert!(skip_on_proxy_error(407));
    assert!(!skip_on_proxy_error(200));
}

#[test]
fn self_service_host() {
    assert_eq!(process_mitm_it(b"mitm.it", b"/zhlob-ca-cert.pem"), MitmPage::CertPem);
    assert_eq!(process_mitm_it(b"mitm.it", b"/zhlob-ca-cert.cer"), MitmPage::CertDer);
    assert_eq!(process_mitm_it(b"mitm.it", b"/"), MitmPage::Instructions);
    assert_eq!(process_mitm_it(b"example.com", b"/zhlob-ca-cert.pem"), MitmPage::NotMitm);
}

#[test]
fn coding_choices() {
    assert_eq!(CompressionAlgo::from_req_headers(&map(&[("accept-encoding", "gzip, deflate, br")])), CompressionAlgo::Brotli);
    assert_eq!(CompressionAlgo::from_req_headers(&map(&[("accept-encoding", "deflate")])), CompressionAlgo::Deflate);
    assert_eq!(CompressionAlgo::from_req_headers(&map(&[])), CompressionAlgo::Uncompressed);
    assert_eq!(CompressionAlgo::from_resp_headers(&map(&[("content-encoding", "gzip")])), Some(CompressionAlgo::Gzip));
    assert_eq!(
        CompressionAlgo::from_resp_headers(&map(&[("transfer-encoding", "chunked"), ("content-encoding", "BR")])),
        Some(CompressionAlgo::Brotli)
    );
    assert_eq!(CompressionAlgo::from_resp_headers(&map(&[("content-encoding", "gzip, br")])), None);
    assert_eq!(CompressionAlgo::from_resp_headers(&map(&[("content-encoding", "zstd")])), None);
    assert_eq!(CompressionAlgo::from_resp_headers(&map(&[])), Some(CompressionAlgo::Uncompressed));
    assert_eq!(CompressionAlgo::Brotli.as_str(), "br");
    assert_eq!(CompressionAlgo::Uncompressed.as_str(), "identity");
}

#[test]
fn compression_pays_or_is_skipped() {
    let raw = vec![b'a'; 1000];
    let (algo, body) = CompressionAlgo::Gzip.try_compress(raw.clone());
    assert_eq!(algo, CompressionAlgo::Gzip);
    assert!(body.len() + 23 < raw.len());
    let mut d = flate2::read::GzDecoder::new(body.as_slice());
    let mut back = Vec::new();
    std::io::Read::read_to_end(&mut d, &mut back).unwrap();
    assert_eq!(back, raw);
    let (algo, body) = CompressionAlgo::Brotli.try_compress(b"tiny".to_vec());
    assert_eq!(algo, CompressionAlgo::Uncompressed);
    assert_eq!(body, b"tiny".to_vec());
    let (algo, _) = CompressionAlgo::Deflate.try_compress(vec![b'z'; 500]);
    assert_eq!(algo, CompressionAlgo::Deflate);
}

#[test]
fn transform_choice() {
    let html = map(&[("content-type", "text/html; charset=utf-8")]);
    assert_eq!(choose_transform(true, 10, 100, true, true, b"text/html", &html), Transform::Html);
    assert_eq!(choose_transform(true, 1000, 100, true, true, b"text/html", &html), Transform::PassThrough);
    assert_eq!(choose_transform(false, 10, 100, true, true, b"text/html", &html), Transform::PassThrough);
    let png = map(&[("content-type", "image/png")]);
    assert_eq!(choose_transform(true, 10, 100, true, true, b"image/webp,*/*", &png), Transform::Image);
    assert_eq!(choose_transform(true, 10, 100, true, false, b"image/webp,*/*", &png), Transform::PassThrough);
    assert_eq!(choose_transform(true, 10, 100, true, true, b"image/png,*/*", &png), Transform::PassThrough);
    assert_eq!(choose_transform(true, 10, 100, true, true, b"text/html,image/webp", &png), Transform::PassThrough);
}

#[test]
fn own_responses() {
    let h = own_response_headers(200, b"application/x-x509-ca-cert", 7200, b"now".to_vec(), b"zhlob");
    assert_eq!(one(&h, "content-disposition").unwrap(), "attachment; filename=zhlob-ca-cert.pem");
    assert_eq!(one(&h, "content-type").unwrap(), "application/x-x509-ca-cert");
    assert_eq!(one(&h, "cache-control").unwrap(), "no-store");
    let h = own_response_headers(304, b"", 7200, b"Thu, 01 Jan 1970 00:00:00 GMT".to_vec(), b"zhlob");
    assert_eq!(
        one(&h, "cache-control").unwrap(),
        "private, max-age=7200, must-revalidate, stale-while-revalidate=604800"
    );
    assert!(h.contains_key(b"date"));
    assert!(!h.contains_key(b"content-type"));
    let h = own_response_headers(200, b"text/html; charset=utf-8", 7200, Vec::new(), b"zhlob");
    assert_eq!(
        one(&h, "cache-control").unwrap(),
        "private, max-age=0, must-revalidate, stale-while-revalidate=604800"
    );
    let h = own_response_headers(502, b"text/plain", 7200, Vec::new(), b"zhlob");
    assert!(!h.contains_key(b"cache-control"));
}

#[test]
fn cache_age_from_expires_minus_date() {
    let mut h = map(&[("date", "Thu, 01 Jan 1970 00:00:00 GMT"), ("expires", "Thu, 01 Jan 1970 00:01:40 GMT")]);
    h.normalize_extra_for_patched_content(7200, 5);
    // get_safe lowercases the dates, which httpdate does not read, so the
    // default age applies and Date becomes the time given
    assert_eq!(
        one(&h, "cache-control").unwrap(),
        "public, max-age=7200, must-revalidate, stale-while-revalidate=604800"
    );
    assert_eq!(one(&h, "date").unwrap(), "Thu, 01 Jan 1970 00:00:05 GMT");
}

#[test]
fn pragma_no_cache_becomes_cache_control() {
    let mut h = map(&[("pragma", "no-cache")]);
    apply_pragma(&mut h);
    assert_eq!(one(&h, "cache-control").unwrap(), "no-cache");
    let mut h = map(&[("pragma", "no-cache"), ("cache-control", "max-age=5")]);
    apply_pragma(&mut h);
    assert_eq!(one(&h, "cache-control").unwrap(), "max-age=5");
}

#[test]
fn transformed_headers_are_finalized() {
    let mut h = map(&[("transfer-encoding", "chunked"), ("content-type", "image/png"), ("content-encoding", "gzip")]);
    finalize_transformed(&mut h, CompressionAlgo::Uncompressed, true, false);
    assert!(!h.contains_key(b"transfer-encoding"));
    assert!(!h.contains_key(b"content-encoding"));
    assert_eq!(one(&h, "content-type").unwrap(), "image/webp");
    let mut h = map(&[("content-type", "text/html; charset=windows-1251")]);
    finalize_transformed(&mut h, CompressionAlgo::Brotli, true, true);
    assert_eq!(one(&h, "content-type").unwrap(), "text/html; charset=utf-8");
    assert_eq!(one(&h, "content-encoding").unwrap(), "br");
    let mut h = map(&[("transfer-encoding", "chunked"), ("content-encoding", "gzip")]);
    finalize_empty(&mut h);
    assert!(!h.contains_key(b"transfer-encoding") && !h.contains_key(b"content-encoding"));
}
