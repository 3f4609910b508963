use zhlob::processors::js_urls::{is_likely_url, JsUrlsIterator};

fn urls(src: &str) -> Vec<String> {
    let mut it = JsUrlsIterator::new(src.as_bytes());
    let mut out = Vec::new();
    while let Some(u) = it.next() {
        out.push(String::from_utf8(u.to_vec()).unwrap());
    }
    out
}

#[test]
fn likely_url_accepts_plain_hosts() {
    assert!(is_likely_url(b"http://a.b/"));
    assert!(is_likely_url(b"https://google.com/"));
    assert!(is_likely_url(b"http://test.ru/path"));
    assert!(is_likely_url(b"//sub.domain.tld/js"));
    assert!(is_likely_url(b"https://a-b.c-d.com/"));
    assert!(is_likely_url(b"http://127.0.0.1/"));
    assert!(is_likely_url(b"HTTP://MiXeD.CaSe.Ru/path"));
    assert!(is_likely_url(b"//Aa.Bb/"));
}

#[test]
fn likely_url_rejects_bad_hosts() {
    assert!(!is_likely_url(b"http://a_b.com/"));
    assert!(!is_likely_url(b"http://.a/"));
    assert!(!is_likely_url(b"//ab/"));
    assert!(!is_likely_url(b"http://googlecom/"));
    assert!(!is_likely_url(b"http://google..com/"));
    assert!(!is_likely_url(b"http://google./"));
    assert!(!is_likely_url(b"//domain.com:8080/"));
    assert!(!is_likely_url(b"//-domain.com/x"));
    assert!(!is_likely_url(b"//domain.co-/x"));
}

#[test]
fn likely_url_rejects_bad_prefixes() {
    assert!(!is_likely_url(b"https:/google.com/"));
    assert!(!is_likely_url(b"https://google.com"));
    assert!(!is_likely_url(b"ftp://google.com/"));
    assert!(!is_likely_url(b"http:google.com/"));
    assert!(!is_likely_url(b"HTTPS://GOOGLECOM/"));
}

#[test]
fn likely_url_needs_eight_bytes() {
    assert!(!is_likely_url(b"//a.b/"));
    assert!(!is_likely_url(b""));
}

#[test]
fn lexer_finds_string_literals() {
    let found = urls("var a = \"https://ads.example.com/x.js\"; var b = 'nope'; var c = 'https://cdn.site.org/lib.js';");
    assert_eq!(found, vec!["https://ads.example.com/x.js", "https://cdn.site.org/lib.js"]);
}

#[test]
fn lexer_skips_comments() {
    let found = urls("// 'https://x.yy/'\n/* \"https://q.rr/\" */ f('https://z.ww/');");
    assert_eq!(found, vec!["https://z.ww/"]);
}

#[test]
fn lexer_skips_regular_expressions() {
    let found = urls("x = /\"https:\\/\\/a.bb\\//; y = \"https://c.dd/\";");
    assert_eq!(found, vec!["https://c.dd/"]);
    let found = urls("function f(x) { return /'https:\\/\\/q.rr\\//.test(x); } g(\"https://s.tt/\")");
    assert_eq!(found, vec!["https://s.tt/"]);
}

#[test]
fn lexer_treats_slash_after_value_as_division() {
    let found = urls("a = b / 2; c = \"https://e.ff/\"; d = c / 3;");
    assert_eq!(found, vec!["https://e.ff/"]);
}

#[test]
fn lexer_follows_template_literals() {
    let found = urls("s = `text ${ 'https://g.hh/' } more`; t = 'https://i.jj/';");
    assert_eq!(found, vec!["https://g.hh/", "https://i.jj/"]);
}

#[test]
fn lexer_handles_escapes_in_strings() {
    let found = urls("a = 'it\\'s'; b = \"https://k.ll/\";");
    assert_eq!(found, vec!["https://k.ll/"]);
}

#[test]
fn lexer_stops_on_unclosed_string() {
    let found = urls("a = 'https://m.nn/");
    assert!(found.is_empty());
}

#[test]
fn lexer_ranges_lie_inside_quotes() {
    let src = b"q('https://u.vv/a') + \"https://w.xx/\"";
    let mut it = JsUrlsIterator::new(src);
    while let Some((a, e)) = it.next_range() {
        assert!(a > 0 && e < src.len());
        assert_eq!(src[a - 1], src[e]);
        assert!(src[e] == b'\'' || src[e] == b'"');
    }
}

#[test]
fn likely_url_scheme_case_is_free() {
    assert!(is_likely_url(b"HTTPS://a.example/"));
    assert!(is_likely_url(b"HtTpS://a.example/"));
    assert!(!is_likely_url(b"//-ab.com/xy"));
    assert!(!is_likely_url(b"//ab.com-/xy"));
}

#[test]
fn lexer_regex_with_quote() {
    assert_eq!(urls("a = /\"/; b = \"http://ex.com/x\";"), vec!["http://ex.com/x"]);
}

#[test]
fn lexer_property_named_like_keyword() {
    assert_eq!(urls("x = obj.extends / 2; s = \"http://ex.com/p\"; t = 1 / 2;"), vec!["http://ex.com/p"]);
}

#[test]
fn lexer_comments_and_template_text() {
    let src = "// \"http://ex.com/a\"\n/* 'http://ex.com/b' */ `http://ex.com/c ${\"http://ex.com/d\"}`";
    assert_eq!(urls(src), vec!["http://ex.com/d"]);
}

#[test]
fn lexer_results_move_forward() {
    let src = b"f('https://a.bc/x', \"https://d.ef/y\")";
    let mut it = JsUrlsIterator::new(src);
    let mut last_end = 0;
    while let Some((a, e)) = it.next_range() {
        assert!(a > last_end);
        last_end = e;
    }
    assert!(last_end > 0);
}
