use zhlob::cancellation::{CancellationGuard, CancellationToken};
use zhlob::resettable_lazy::ResettableLazy;
use zhlob::cli::{parse_i64, parse_listen_address, parse_range, parse_u32, RangeError};
use zhlob::highway_semaphore::SemaphoreState;
use zhlob::processors::html::{clean_href, filter_rel, link_action, meta_keep, LinkAction};
use zhlob::proxy::body_buffer::BodyBuffer;
use zhlob::proxy::cert::CertifiedKeyDer;

#[test]
fn tracking_parameters_are_removed() {
    assert_eq!(clean_href(b"/x?utm_source=a&q=1"), Some(b"/x?q=1".to_vec()));
    assert_eq!(clean_href(b"/p?utm_a=1#frag"), Some(b"/p#frag".to_vec()));
    assert_eq!(clean_href(b"/p?a=1&&fbclid=z&_ga=2&b#top"), Some(b"/p?a=1&b#top".to_vec()));
    assert_eq!(clean_href(b"/p?utmost=1&gclid=2&rb_clickid=3&=x"), Some(b"/p?utmost=1".to_vec()));
    assert_eq!(clean_href(b"/p"), None);
}

#[test]
fn rel_keeps_no_tokens() {
    assert_eq!(filter_rel(b"nofollow author noopener"), b"nofollow noopener".to_vec());
    assert_eq!(filter_rel(b"author"), Vec::<u8>::new());
    assert_eq!(filter_rel(b"  noreferrer\t"), b"noreferrer".to_vec());
}

#[test]
fn meta_policy() {
    assert!(meta_keep(Some(b"theme-color"), None, true, false));
    assert!(!meta_keep(Some(b"theme-color"), None, false, false));
    assert!(meta_keep(Some(b"viewport"), None, false, true));
    assert!(!meta_keep(Some(b"viewport"), None, false, false));
    assert!(!meta_keep(Some(b"description"), None, false, true));
    assert!(!meta_keep(None, Some(b"x-ua-compatible"), false, true));
    assert!(!meta_keep(None, Some(b"Content-Type"), false, true));
    assert!(meta_keep(None, Some(b"refresh"), false, true));
}

#[test]
fn link_policy() {
    assert_eq!(link_action(b"alternate", None, true, false), LinkAction::Remove);
    assert_eq!(link_action(b"icon", None, true, false), LinkAction::Remove);
    assert_eq!(link_action(b"manifest", None, false, false), LinkAction::Keep { strip_attrs: true, to_preload: false });
    assert_eq!(link_action(b"stylesheet", None, true, false), LinkAction::Keep { strip_attrs: true, to_preload: true });
    assert_eq!(link_action(b"stylesheet", None, true, true), LinkAction::Keep { strip_attrs: true, to_preload: false });
    assert_eq!(link_action(b"preload", Some(b"style"), true, false), LinkAction::Keep { strip_attrs: false, to_preload: false });
    assert_eq!(link_action(b"preload", Some(b"style"), false, false), LinkAction::Keep { strip_attrs: true, to_preload: false });
    assert_eq!(link_action(b"preload", Some(b"font"), true, false), LinkAction::Remove);
}

#[test]
fn high_priority_waiters_go_first() {
    let mut s = SemaphoreState::new(1);
    assert!(s.try_acquire(false, 1));
    assert!(!s.try_acquire(false, 2));
    assert!(!s.try_acquire(true, 3));
    assert_eq!(s.notify_next(), None);
    s.release();
    assert_eq!(s.notify_next(), Some(3));
    assert_eq!(s.notify_next(), None);
    s.release();
    assert_eq!(s.notify_next(), Some(2));
    s.release();
    assert_eq!(s.notify_next(), None);
    assert!(s.try_acquire(false, 4));
}

#[test]
fn low_priority_waits_behind_queued_high() {
    let mut s = SemaphoreState::new(0);
    assert!(!s.try_acquire(true, 1));
    s.release();
    assert!(!s.try_acquire(false, 2));
    assert!(s.try_acquire(true, 3));
}

#[test]
fn overflowing_body_passes_through_unchanged() {
    let mut b = BodyBuffer::new(5);
    assert_eq!(b.push(b"abc"), None);
    assert_eq!(b.push(b"de"), None);
    assert_eq!(b.push(b"fgh"), Some(b"abcdefgh".to_vec()));
    let mut b = BodyBuffer::new(4);
    assert_eq!(b.push(b"ab"), None);
    assert_eq!(b.into_bytes(), b"ab".to_vec());
}

#[test]
fn ranges() {
    assert_eq!(parse_range(b"96..384"), Ok([96, 384]));
    assert_eq!(parse_range(b"..768"), Ok([1, 768]));
    assert_eq!(parse_range(b"48.."), Ok([48, u32::MAX]));
    assert_eq!(parse_range(b".."), Ok([1, u32::MAX]));
    assert_eq!(parse_range(b" 5 .. 9 "), Ok([5, 9]));
    assert_eq!(parse_range(b"5..1"), Err(RangeError::Reversed));
    assert_eq!(parse_range(b"abc"), Err(RangeError::NoSeparator));
    assert_eq!(parse_range(b"x..1"), Err(RangeError::BadNumber));
}

#[test]
fn decimal_u32() {
    assert_eq!(parse_u32(b"4294967295"), Some(u32::MAX));
    assert_eq!(parse_u32(b"4294967296"), None);
    assert_eq!(parse_u32(b"+7"), Some(7));
    assert_eq!(parse_u32(b""), None);
    assert_eq!(parse_u32(b"-1"), None);
}

#[test]
fn listen_addresses() {
    assert_eq!(parse_listen_address(b"127.0.0.1:5151"), Some((b"127.0.0.1".to_vec(), 5151)));
    assert_eq!(parse_listen_address(b":8080"), Some((b"127.0.0.1".to_vec(), 8080)));
    assert_eq!(parse_listen_address(b"http://localhost"), Some((b"localhost".to_vec(), 5151)));
    assert_eq!(parse_listen_address(b"http://h:99"), Some((b"h".to_vec(), 99)));
    assert_eq!(parse_listen_address(b"0.0.0.0:"), Some((b"0.0.0.0".to_vec(), 5151)));
    assert_eq!(parse_listen_address(b"a:99999"), None);
    assert_eq!(parse_listen_address(b"http://example.org:8080"), Some((b"example.org".to_vec(), 8080)));
    assert_eq!(parse_listen_address(b"http://example.org"), Some((b"example.org".to_vec(), 5151)));
    assert_eq!(parse_listen_address(b":9000"), Some((b"127.0.0.1".to_vec(), 9000)));
    assert_eq!(parse_listen_address(b"://h:1"), Some((b"h".to_vec(), 1)));
}

#[test]
fn certified_key_split() {
    let mut blob = vec![1u8; 138];
    blob.extend_from_slice(&[7, 8]);
    let c = CertifiedKeyDer(&blob);
    assert_eq!(c.key_der().len(), 138);
    assert_eq!(c.cert_der(), &[7, 8]);
}

#[test]
fn cancellation_is_one_shot() {
    let (token, guard) = CancellationGuard::new();
    let other = token.clone();
    assert!(!token.is_cancelled());
    guard.cancel_now();
    assert!(token.is_cancelled());
    assert!(other.is_cancelled());
    token.cancel();
    assert!(other.is_cancelled());
    assert!(!CancellationToken::new().is_cancelled());
}

#[test]
fn decimal_i64() {
    assert_eq!(parse_i64(b"-9223372036854775808"), Some(i64::MIN));
    assert_eq!(parse_i64(b"9223372036854775807"), Some(i64::MAX));
    assert_eq!(parse_i64(b"9223372036854775808"), None);
    assert_eq!(parse_i64(b"+12"), Some(12));
    assert_eq!(parse_i64(b"-"), None);
    assert_eq!(parse_i64(b"1a"), None);
}

#[test]
fn lazy_value_is_computed_once_until_reset() {
    let calls = std::cell::Cell::new(0);
    let mut lazy: ResettableLazy<u32> = ResettableLazy::new();
    let init = || {
        calls.set(calls.get() + 1);
        7
    };
    assert_eq!(lazy.get(init), 7);
    assert_eq!(lazy.get(init), 7);
    assert_eq!(calls.get(), 1);
    lazy.reset();
    assert_eq!(lazy.get(init), 7);
    assert_eq!(calls.get(), 2);
}
