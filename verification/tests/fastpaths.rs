//! The fast tiers: every definite answer must match the authoritative
//! validator, and the component scanners must recognize exactly their
//! stated languages.

use pyval::fastpath::{
    batch_validate, const_validate_email, fast_ascii_email_check, get_common_domains,
    has_dot_issues, is_fast_domain_char, is_fast_local_char, ultra_fast_ascii_check,
};
use pyval::lazy::ZeroCopyValidator;
use pyval::lookup::{
    count_at_swar, has_consecutive_dots, is_valid_domain_byte_fast, is_valid_local_byte_fast,
};
use pyval::simd::{PortableSimd, SimdValidator};
use pyval::{is_valid, validate};

#[test]
fn fast_check_agrees_with_validator() {
    let samples = [
        "user@example.com",
        "a@gmail.com",
        "a..b@gmail.com",
        "User@Example.COM",
        "toolong@toolong.com",
        "a@b@c.com",
        "no-at",
        "",
        "üser@example.com",
        "user@[192.168.1.1]",
        "user@xn--bcher-kva.de",
        ".a@example.com",
        "a@-bad.com",
        "a@bad-.com",
        "a@1.2.3.4",
    ];
    for s in samples {
        if let Some(b) = fast_ascii_email_check(s) {
            assert_eq!(b, validate(s, true).is_ok(), "fast tier disagrees on {:?}", s);
            assert_eq!(b, validate(s, false).is_ok(), "fast tier disagrees on {:?}", s);
        }
        if let Some(b) = ultra_fast_ascii_check(s) {
            assert_eq!(b, validate(s, true).is_ok(), "pre-screen disagrees on {:?}", s);
        }
        if let Some(b) = PortableSimd::validate_email_fast(s) {
            assert_eq!(b, validate(s, true).is_ok(), "wide scan disagrees on {:?}", s);
        }
    }
}

#[test]
fn fast_check_answers_common_shapes() {
    assert_eq!(fast_ascii_email_check("user@gmail.com"), Some(true));
    assert_eq!(fast_ascii_email_check("a@bad-.com"), Some(false));
    assert_eq!(fast_ascii_email_check("nobody"), Some(false));
    // Outside the scanner's language: the tier escalates rather than guess.
    assert_eq!(fast_ascii_email_check("a..b@gmail.com"), None);
}

#[test]
fn fast_check_escalates_on_unicode_and_literals() {
    assert_eq!(fast_ascii_email_check("üser@example.com"), None);
    assert_eq!(fast_ascii_email_check("user@[192.168.1.1]"), None);
    assert_eq!(fast_ascii_email_check("user@xn--bcher-kva.de"), None);
}

#[test]
fn zero_copy_scanner_language() {
    assert!(ZeroCopyValidator::validate_no_alloc("user@example.com"));
    assert!(ZeroCopyValidator::validate_no_alloc("a-b.c@x-y.z.uk"));
    // Outside the scanner's language: unicode, brackets, bad structure.
    assert!(!ZeroCopyValidator::validate_no_alloc("üser@example.com"));
    assert!(!ZeroCopyValidator::validate_no_alloc("user@[192.168.1.1]"));
    assert!(!ZeroCopyValidator::validate_no_alloc("a..b@example.com"));
    assert!(!ZeroCopyValidator::validate_no_alloc("a@example"));
    assert!(!ZeroCopyValidator::validate_no_alloc("a@.com"));
    assert!(!ZeroCopyValidator::validate_no_alloc("a@-x.com"));
    assert!(!ZeroCopyValidator::validate_no_alloc("@example.com"));
    assert!(!ZeroCopyValidator::validate_no_alloc("a@"));
    assert!(!ZeroCopyValidator::validate_no_alloc("ab"));
}

#[test]
fn scanner_accept_implies_validator_accept_with_bounds() {
    // Everything the scanner accepts that also passes the explicit length
    // and label checks must be accepted by the validator.
    let samples = ["user@example.com", "a@b.co", "x.y.z@d1.d2.d3.org"];
    for s in samples {
        assert!(ZeroCopyValidator::validate_no_alloc(s));
        assert!(validate(s, true).is_ok());
    }
    // Scanner-accepted but rejected by the explicit label checks.
    assert!(ZeroCopyValidator::validate_no_alloc("a@bad-.com"));
    assert!(!is_valid("a@bad-.com", true));
    assert!(ZeroCopyValidator::validate_no_alloc("a@1.2"));
    assert!(!is_valid("a@1.2", true));
}

#[test]
fn character_tables() {
    assert!(is_valid_local_byte_fast(b'a'));
    assert!(is_valid_local_byte_fast(b'!'));
    assert!(is_valid_local_byte_fast(b'.'));
    assert!(!is_valid_local_byte_fast(b' '));
    assert!(!is_valid_local_byte_fast(b'@'));
    assert!(is_valid_domain_byte_fast(b'z'));
    assert!(is_valid_domain_byte_fast(b'-'));
    assert!(!is_valid_domain_byte_fast(b'.'));
    assert!(!is_valid_domain_byte_fast(b'_'));
    assert!(is_fast_local_char(b'_'));
    assert!(!is_fast_local_char(b'!'));
    assert!(is_fast_domain_char(b'.'));
    assert!(!is_fast_domain_char(b'_'));
}

#[test]
fn dot_scans() {
    assert!(has_consecutive_dots("a..b"));
    assert!(!has_consecutive_dots("a.b.c"));
    assert!(!has_consecutive_dots(""));
    assert!(has_dot_issues(".ab"));
    assert!(has_dot_issues("ab."));
    assert!(has_dot_issues("a..b"));
    assert!(has_dot_issues(""));
    assert!(!has_dot_issues("a.b"));
}

#[test]
fn at_sign_scan() {
    assert_eq!(count_at_swar("a@b@c"), (2, Some(1)));
    assert_eq!(count_at_swar("abc"), (0, None));
    assert_eq!(count_at_swar("@"), (1, Some(0)));
}

#[test]
fn wide_scan_primitives() {
    assert_eq!(SimdValidator::find_at("user@example.com"), Some(4));
    assert_eq!(SimdValidator::find_at("nope"), None);
    assert_eq!(SimdValidator::count_at("a@b@c@d"), 3);
    assert!(SimdValidator::is_valid_ascii("plain ascii!"));
    assert!(!SimdValidator::is_valid_ascii("übermail"));
    assert!(!SimdValidator::is_valid_ascii("tab\there"));
}

#[test]
fn wide_scan_rejects_multiple_at() {
    assert_eq!(PortableSimd::validate_email_fast("averylongaddress@with@two.ats.example"), Some(false));
    assert_eq!(PortableSimd::validate_email_fast("averylongaddresswithout-an-at.example"), Some(false));
}

#[test]
fn const_validation() {
    assert!(const_validate_email("a@b.c"));
    assert!(const_validate_email("not an email but one at sign @ here"));
    assert!(!const_validate_email("a@b@c"));
    assert!(!const_validate_email("ab"));
}

#[test]
fn common_domains_are_valid_hostnames() {
    let domains = get_common_domains();
    assert!(!domains.is_empty());
    for d in domains {
        assert!(is_valid(&format!("user@{}", d), true), "common domain {:?} not valid", d);
    }
}

#[test]
fn batch_order_preservation() {
    let inputs = ["a@example.com", "bad..local@example.com", "c@test.org", "no-at"];
    let refs: Vec<&str> = inputs.to_vec();
    let batch = batch_validate(&refs);
    assert_eq!(batch.len(), inputs.len());
    for (i, s) in inputs.iter().enumerate() {
        assert_eq!(batch[i], is_valid(s, true));
    }
    assert_eq!(batch, vec![true, false, true, false]);
}
