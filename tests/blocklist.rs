use base64::Engine;
use publicsuffix2::List;
use zhlob::dac::automaton::{build_automaton, overlapping_hits};
use zhlob::dac::file::{dac_file_bytes, etag_marker, mix_version_into_hash, parse_dac_header, version_hash, DacError};
use zhlob::dac::generate::{
    is_valid_domain_part_with_dot, is_valid_script_rule, prune_overlaps_with, rule_body, CompileError, PatternSet,
};
use zhlob::dac::matcher::{is_match_code, is_match_src, is_subdomain_or_equal, url_base_info};
use zhlob::dac::pattern_type::{PatternKind, PatternType};
use zhlob::dac::psl::{prepare_adblock_filter, sld};

fn list() -> List {
    List::default()
}

#[test]
fn kind_tag_round_trip() {
    for k in [
        PatternKind::SlashedStart,
        PatternKind::DomainEndWithDotPrefix,
        PatternKind::DomainEnd,
        PatternKind::Substring,
        PatternKind::AnyDomainPartBeforeETLD,
    ] {
        for tp in [true, false] {
            let t = PatternType::of_kind(k, tp);
            let back = PatternType::from(t.0);
            assert_eq!(back.0, t.0);
            assert_eq!(back.is_third_party(), tp);
            assert_eq!(t.0 & 0x0FFF_FFFF, 0);
        }
    }
    assert_eq!(PatternType::of_kind(PatternKind::SlashedStart, true).0, 0x1000_0000);
    assert_eq!(PatternType::of_kind(PatternKind::AnyDomainPartBeforeETLD, false).0, 0xD000_0000);
}

#[test]
fn kind_tag_masks_and_flags() {
    assert_eq!(PatternType::from(0x9000_1234).0, 0x9000_0000);
    let t = PatternType::of_kind(PatternKind::DomainEnd, false);
    assert_eq!(t.with_third_party(true).0, 0x3000_0000);
    assert_eq!(t.with_third_party(true).with_third_party(false).0, 0xB000_0000);
    assert!(!t.is_third_party());
}

#[test]
fn anchoring_per_kind() {
    let u = b"https://ads.example.com/x";
    let slashed = PatternType::of_kind(PatternKind::SlashedStart, true);
    assert!(slashed.is_match_at(u, 0, None));
    assert!(slashed.is_match_at(u, 6, None));
    assert!(!slashed.is_match_at(u, 8, None));
    let end = PatternType::of_kind(PatternKind::DomainEnd, true);
    assert!(end.is_match_at(u, 8, None));
    assert!(end.is_match_at(u, 12, None));
    assert!(!end.is_match_at(u, 9, None));
    let sub = PatternType::of_kind(PatternKind::AnyDomainPartBeforeETLD, true);
    assert!(sub.is_match_at(u, 8, None));
    assert!(!sub.is_match_at(b"https://a.ads.example.com/", 10, None));
    assert!(sub.is_match_at(b"https://a.ads.example.com/", 10, Some((8, 13))));
    assert!(!sub.is_match_at(b"https://a.ads.example.com/", 14, Some((8, 13))));
    let any = PatternType::of_kind(PatternKind::Substring, false);
    assert!(any.is_match_at(u, 15, None));
}

#[test]
fn domain_part_with_dot() {
    assert!(is_valid_domain_part_with_dot(b"ads."));
    assert!(is_valid_domain_part_with_dot(b"a-b."));
    assert!(!is_valid_domain_part_with_dot(b"a.b."));
    assert!(!is_valid_domain_part_with_dot(b"-a."));
    assert!(!is_valid_domain_part_with_dot(b"a-."));
    assert!(!is_valid_domain_part_with_dot(b"ads"));
    assert!(!is_valid_domain_part_with_dot(b"."));
    assert!(!is_valid_domain_part_with_dot(b"a_b."));
}

#[test]
fn script_rule_options() {
    assert_eq!(is_valid_script_rule(b"third-party"), Some(true));
    assert_eq!(is_valid_script_rule(b"3p,script"), Some(true));
    assert_eq!(is_valid_script_rule(b"script,domain=~a.com"), Some(false));
    assert_eq!(is_valid_script_rule(b""), Some(false));
    assert_eq!(is_valid_script_rule(b"image"), None);
    assert_eq!(is_valid_script_rule(b"image,script"), Some(false));
    assert_eq!(is_valid_script_rule(b"domain=a.com"), None);
    assert_eq!(is_valid_script_rule(b"domain=~a.com|~b.com"), Some(false));
    assert_eq!(is_valid_script_rule(b"method=post"), None);
    assert_eq!(is_valid_script_rule(b"method=get|post"), Some(false));
    assert_eq!(is_valid_script_rule(b"method=~get"), None);
    assert_eq!(is_valid_script_rule(b"~script"), None);
    assert_eq!(is_valid_script_rule(b"Match-Case"), None);
    assert_eq!(is_valid_script_rule(b" third-party , xhr , script "), Some(true));
}

#[test]
fn registrable_domain() {
    let l = list();
    assert_eq!(sld(&l, b"www.example.co.uk"), Some(b"example.co.uk".to_vec()));
    assert_eq!(sld(&l, b"ads.example.com"), Some(b"example.com".to_vec()));
}

#[test]
fn filter_parts() {
    let l = list();
    let c = b"https://user@www.example.com/path";
    let f = prepare_adblock_filter(&l, c).unwrap();
    assert_eq!(&c[f.domain.0..f.domain.1], b"www.example.com");
    assert_eq!(f.sub_without_www.0, f.sub_without_www.1);
    let (a, e) = f.etld_plus_2_without_www.unwrap();
    assert_eq!(&c[a..e], b"example.com");
    assert_eq!(&c[f.suffix.0..f.suffix.1], b"/path");

    let c = b"x.ads.example.com";
    let f = prepare_adblock_filter(&l, c).unwrap();
    assert_eq!(&c[f.sub_without_www.0..f.sub_without_www.1], b"x.ads");
    let (a, e) = f.etld_plus_2_without_www.unwrap();
    assert_eq!(&c[a..e], b"example.com");
    assert_eq!(f.suffix.0, f.suffix.1);
}

#[test]
fn filter_rejects_hosts_that_cannot_be_looked_up() {
    let l = list();
    assert!(prepare_adblock_filter(&l, b"").is_none());
    assert!(prepare_adblock_filter(&l, b"1.2.3.4/x").is_none());
    assert!(prepare_adblock_filter(&l, b"localhost/x").is_none());
    assert!(prepare_adblock_filter(&l, b"example.com:8080/x").is_none());
}

#[test]
fn third_party_domain_rule_compiles_to_one_pattern() {
    let l = list();
    let mut set = PatternSet::new();
    set.add_rule_line(&l, b"||ads.example.com^$third-party");
    let pats = set.pattern_list();
    assert_eq!(pats, vec![b".example.com/".to_vec()]);
    let dac = set.compile(&l).unwrap();
    let hits = overlapping_hits(&dac, b".example.com/");
    assert_eq!(hits.len(), 1);
    let kind = PatternType::from(hits[0].2);
    assert_eq!(kind.0, PatternType::of_kind(PatternKind::DomainEndWithDotPrefix, true).0);
}

#[test]
fn third_party_rule_blocks_only_foreign_documents() {
    let l = list();
    let mut set = PatternSet::new();
    set.add_rule_line(&l, b"||ads.example.com^$third-party");
    let dac = set.compile(&l).unwrap();
    let other = url_base_info(&l, b"https://news.other.com/", None).unwrap();
    assert!(is_match_src(&dac, &l, &other, b"https://ads.example.com/x"));
    let same = url_base_info(&l, b"https://site.example.com/", None).unwrap();
    assert!(!is_match_src(&dac, &l, &same, b"https://ads.example.com/x"));
    assert!(!is_match_src(&dac, &l, &other, b"https://cdn.other.net/x"));
}

#[test]
fn scripts_are_matched_through_their_literals() {
    let l = list();
    let mut set = PatternSet::new();
    set.add_rule_line(&l, b"||ads.cdn.net^");
    let dac = set.compile(&l).unwrap();
    let info = url_base_info(&l, b"https://ex.com/page", None).unwrap();
    assert!(is_match_src(&dac, &l, &info, b"//ads.cdn.net/tag.js"));
    assert!(is_match_code(&dac, &l, &info, b"var s = 'https://ads.cdn.net/t.js';"));
    assert!(!is_match_code(&dac, &l, &info, b"var s = 'https://good.example.org/t.js';"));
}

#[test]
fn comment_and_cosmetic_lines_add_nothing() {
    let l = list();
    let mut set = PatternSet::new();
    for line in [
        &b"! comment"[..],
        b"[Adblock Plus 2.0]",
        b"@@||good.com^",
        b"example.com##.ad",
        b"example.com#@#.ad",
        b"example.com#?#.ad",
        b"   ",
        b"/banner[0-9]+/",
        b"|http://exact.com/|",
        b"ad*server.com",
        b"||example.com^$image",
    ] {
        set.add_rule_line(&l, line);
    }
    assert_eq!(set.len(), 0);
    assert_eq!(set.compile(&l).err(), Some(CompileError::NoPatterns));
}

#[test]
fn rule_kinds() {
    let l = list();
    let mut set = PatternSet::new();
    set.add_rule_line(&l, b"|https://track.example.org/pixel");
    set.add_rule_line(&l, b"||example.net^");
    set.add_rule_line(&l, b"/adframe.");
    set.add_rule_line(&l, b"://metrics.");
    let mut pats = set.pattern_list();
    pats.sort();
    assert_eq!(
        pats,
        vec![
            b"//track.example.org/pixel".to_vec(),
            b"/adframe.".to_vec(),
            b"example.net/".to_vec(),
            b"metrics.".to_vec(),
        ]
    );
}

#[test]
fn trivial_patterns_are_not_kept() {
    let mut set = PatternSet::new();
    set.add_pattern(PatternType::of_kind(PatternKind::Substring, false), b"/".to_vec());
    set.add_pattern(PatternType::of_kind(PatternKind::Substring, false), b"./".to_vec());
    set.add_pattern(PatternType::of_kind(PatternKind::Substring, false), Vec::new());
    assert_eq!(set.len(), 0);
    set.add_pattern(PatternType::of_kind(PatternKind::Substring, true), b"ads/".to_vec());
    set.add_pattern(PatternType::of_kind(PatternKind::Substring, false), b"ads/".to_vec());
    assert_eq!(set.len(), 1);
}

#[test]
fn pruning_drops_subsumed_patterns_and_is_idempotent() {
    let pats = vec![
        (b"tracker.".to_vec(), PatternType::of_kind(PatternKind::Substring, false).0),
        (b"tracker.js".to_vec(), PatternType::of_kind(PatternKind::Substring, true).0),
        (b"other.js".to_vec(), PatternType::of_kind(PatternKind::Substring, true).0),
    ];
    let dac = build_automaton(&pats).unwrap();
    let subs = vec![None, None, None];
    let once = prune_overlaps_with(&pats, &subs, &dac);
    let names: Vec<Vec<u8>> = once.iter().map(|p| p.0.clone()).collect();
    assert_eq!(names, vec![b"tracker.".to_vec(), b"other.js".to_vec()]);
    let dac2 = build_automaton(&once).unwrap();
    let twice = prune_overlaps_with(&once, &vec![None, None], &dac2);
    assert_eq!(twice, once);
}

#[test]
fn subdomain_or_equal_hosts() {
    assert!(is_subdomain_or_equal(b"ads.example.com", b"example.com"));
    assert!(is_subdomain_or_equal(b"EXAMPLE.com", b"example.com"));
    assert!(!is_subdomain_or_equal(b"badexample.com", b"example.com"));
    assert!(!is_subdomain_or_equal(b"com", b"example.com"));
}

#[test]
fn blocklist_file_round_trip() {
    let l = list();
    let mut set = PatternSet::new();
    set.add_rule_line(&l, b"||ads.example.com^");
    let dac = set.compile(&l).unwrap();
    let file = dac_file_bytes(&dac);
    assert_eq!(&file[0..4], b"DAC\x01");
    let h = parse_dac_header(&file).unwrap();
    assert_eq!(h, version_hash(&file[12..]));
    assert_eq!(h, xxhash_rust::xxh3::xxh3_64(&file[12..]));
    assert_eq!(u64::from_le_bytes(file[4..12].try_into().unwrap()), h);
}

#[test]
fn blocklist_file_errors() {
    assert_eq!(parse_dac_header(b"DAC\x01short"), Err(DacError::TooShort));
    assert_eq!(parse_dac_header(&[0u8; 40]), Err(DacError::BadMagic));
    assert_eq!(parse_dac_header(b"DAC\x02aaaaaaaaaaaaaaaaaaaa"), Err(DacError::BadMagic));
}

#[test]
fn version_mixing_and_marker() {
    let app = 0x1234_5678_9abc_def0u64;
    let body = 0x0fed_cba9_8765_4321u64;
    let expect = body
        ^ (app
            .wrapping_add(0x9e3779b97f4a7c15)
            .wrapping_add(body << 6)
            .wrapping_add(body >> 2));
    assert_eq!(mix_version_into_hash(app, body), expect);
    let b64 = base64::engine::general_purpose::URL_SAFE_NO_PAD.encode(expect.to_le_bytes());
    assert_eq!(etag_marker(app, body), format!("zhlob~{}~", b64).into_bytes());
}

#[test]
fn rule_bodies() {
    let rb = rule_body(b"  ||ads.example.com^$third-party  ").unwrap();
    assert_eq!((rb.start, rb.end, rb.third_party, rb.caret), (2, 19, true, true));
    let rb = rule_body(b"/banner/ad.js*").unwrap();
    assert_eq!((rb.start, rb.end, rb.third_party, rb.caret), (0, 13, false, false));
    assert!(rule_body(b"/regex/").is_none());
    assert!(rule_body(b"$script").is_none());
    assert!(rule_body(b"a^b").is_none());
    assert!(rule_body("ads.пример.рф".as_bytes()).is_none());
    assert!(rule_body(b"^*").is_none());
}
