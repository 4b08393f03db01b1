//! End-to-end behaviour of the structural validator and its entry points.

use pyval::error::EmailError;
use pyval::{is_valid, is_valid_detailed, is_valid_fast, validate};

#[test]
fn accepts_simple_address() {
    let v = validate("user@example.com", true).unwrap();
    assert_eq!(v.original, "user@example.com");
    assert_eq!(v.local_part, "user");
    assert_eq!(v.domain, "example.com");
    assert_eq!(v.ascii_domain, "example.com");
    assert_eq!(v.normalized, "user@example.com");
    assert!(!v.smtputf8);
}

#[test]
fn canonical_example() {
    let v = validate("User.Name+tag@Example.COM", true).unwrap();
    assert_eq!(v.local_part, "User.Name+tag");
    assert_eq!(v.ascii_domain, "Example.COM");
    assert_eq!(v.normalized, "User.Name+tag@example.com");
    assert!(!v.smtputf8);
}

#[test]
fn trims_surrounding_whitespace() {
    let v = validate("  user@example.com\t\n", true).unwrap();
    assert_eq!(v.original, "user@example.com");
    assert_eq!(v.normalized, "user@example.com");
}

#[test]
fn empty_address_rejected() {
    assert_eq!(validate("", true).unwrap_err(), EmailError::Empty);
    assert_eq!(validate("   ", true).unwrap_err(), EmailError::Empty);
}

#[test]
fn at_sign_rules() {
    assert_eq!(
        validate("no-at-sign.example.com", true).unwrap_err(),
        EmailError::MissingAt
    );
    assert_eq!(validate("a@b@example.com", true).unwrap_err(), EmailError::MultipleAt);
}

#[test]
fn dot_rules() {
    assert_eq!(validate("a..b@example.com", true).unwrap_err(), EmailError::ConsecutiveDots);
    assert_eq!(validate(".a@example.com", true).unwrap_err(), EmailError::LeadingDot);
    assert_eq!(validate("a.@example.com", true).unwrap_err(), EmailError::TrailingDot);
}

#[test]
fn empty_local_part_rejected() {
    assert_eq!(validate("@example.com", true).unwrap_err(), EmailError::Empty);
}

#[test]
fn empty_domain_rejected() {
    assert_eq!(validate("user@", true).unwrap_err(), EmailError::InvalidDomain);
}

#[test]
fn local_part_length_boundary() {
    let local64 = "a".repeat(64);
    assert!(validate(&format!("{}@example.com", local64), true).is_ok());
    let local65 = "a".repeat(65);
    assert_eq!(
        validate(&format!("{}@example.com", local65), true).unwrap_err(),
        EmailError::LocalPartTooLong
    );
}

#[test]
fn domain_length_boundary() {
    // Three 63-character labels plus one of 61 and three dots: 253 bytes.
    let l63 = "b".repeat(63);
    let d253 = format!("{}.{}.{}.{}", l63, l63, l63, "c".repeat(61));
    assert_eq!(d253.len(), 253);
    assert!(validate(&format!("a@{}", d253), true).is_ok());
    let d254 = format!("{}.{}.{}.{}", l63, l63, l63, "c".repeat(62));
    assert_eq!(d254.len(), 254);
    assert_eq!(
        validate(&format!("a@{}", d254), true).unwrap_err(),
        EmailError::DomainTooLong
    );
}

#[test]
fn label_length_boundary() {
    let l63 = "x".repeat(63);
    assert!(validate(&format!("a@{}.com", l63), true).is_ok());
    let l64 = "x".repeat(64);
    assert_eq!(
        validate(&format!("a@{}.com", l64), true).unwrap_err(),
        EmailError::InvalidDomain
    );
}

#[test]
fn label_hyphen_rules() {
    assert_eq!(validate("a@-bad.com", true).unwrap_err(), EmailError::InvalidDomain);
    assert_eq!(validate("a@bad-.com", true).unwrap_err(), EmailError::InvalidDomain);
    assert!(validate("a@go-od.com", true).is_ok());
}

#[test]
fn domain_character_rule() {
    assert_eq!(validate("a@under_score.com", true).unwrap_err(), EmailError::InvalidCharacter);
}

#[test]
fn domain_needs_a_dot() {
    assert_eq!(validate("user@localhost", true).unwrap_err(), EmailError::InvalidDomain);
}

#[test]
fn all_numeric_domain_rejected() {
    assert_eq!(validate("user@192.168.1.1", true).unwrap_err(), EmailError::InvalidDomain);
}

#[test]
fn bracketed_ipv4_accepted() {
    let v = validate("user@[192.168.1.1]", true).unwrap();
    assert_eq!(v.ascii_domain, "[192.168.1.1]");
}

#[test]
fn bracketed_ipv4_rejected_when_malformed() {
    assert_eq!(validate("user@[999.1.1.1]", true).unwrap_err(), EmailError::InvalidDomain);
    assert_eq!(validate("user@[192.168.1]", true).unwrap_err(), EmailError::InvalidDomain);
    assert_eq!(validate("user@[192.168.01.1]", true).unwrap_err(), EmailError::InvalidDomain);
}

#[test]
fn ipv6_literal() {
    assert!(validate("user@[IPv6:::1]", true).is_ok());
    assert!(validate("user@[IPv6:2001:db8::8a2e:370:7334]", true).is_ok());
    assert!(validate("user@[IPv6:1:2:3:4:5:6:7:8]", true).is_ok());
    assert!(validate("user@[IPv6:::ffff:192.168.1.1]", true).is_ok());
    assert_eq!(
        validate("user@[IPv6:not-an-addr]", true).unwrap_err(),
        EmailError::InvalidDomain
    );
    assert_eq!(
        validate("user@[IPv6:1:2:3:4:5:6:7:8:9]", true).unwrap_err(),
        EmailError::InvalidDomain
    );
    assert_eq!(validate("user@[IPv6:1:::2]", true).unwrap_err(), EmailError::InvalidDomain);
}

#[test]
fn internationalized_local_part() {
    let v = validate("üser@example.com", true).unwrap();
    assert!(v.smtputf8);
    assert_eq!(v.local_part, "üser");
    assert_eq!(
        validate("üser@example.com", false).unwrap_err(),
        EmailError::InvalidCharacter
    );
}

#[test]
fn unsafe_unicode_rejected() {
    assert_eq!(
        validate("a\u{200B}b@example.com", true).unwrap_err(),
        EmailError::InvalidCharacter
    );
    assert_eq!(
        validate("a\u{FEFF}b@example.com", true).unwrap_err(),
        EmailError::InvalidCharacter
    );
}

#[test]
fn internationalized_domain_maps_to_ascii() {
    let v = validate("user@bücher.de", true).unwrap();
    assert_eq!(v.ascii_domain, "xn--bcher-kva.de");
    assert_eq!(v.normalized, "user@xn--bcher-kva.de");
    assert!(!v.smtputf8);
}

#[test]
fn nfc_composes_local_part() {
    // The local part is written with a combining diaeresis; the normalized
    // form composes it.
    let v = validate("u\u{0308}ser@example.com", true).unwrap();
    assert!(v.smtputf8);
    assert_eq!(v.normalized, "üser@example.com");
}

#[test]
fn punycode_label_goes_through_conversion() {
    assert!(validate("user@xn--bcher-kva.de", true).is_ok());
    assert_eq!(
        validate("user@xn--0.com", true).unwrap_err(),
        EmailError::InvalidDomain
    );
}

#[test]
fn normalization_idempotent_on_samples() {
    for s in [
        "user@example.com",
        "User.Name+tag@Example.COM",
        "a_b!c@Mixed-Case.ORG",
        "üser@example.com",
        "user@bücher.de",
    ] {
        let first = validate(s, true).unwrap().normalized;
        let second = validate(&first, true).unwrap().normalized;
        assert_eq!(second, first);
    }
}

#[test]
fn boolean_form_agrees_with_validator() {
    let samples = [
        "user@example.com",
        "User.Name+tag@Example.COM",
        "a..b@example.com",
        ".a@example.com",
        "a.@example.com",
        "no-at-sign.example.com",
        "a@b@example.com",
        "user@192.168.1.1",
        "user@[192.168.1.1]",
        "user@[IPv6:::1]",
        "user@[IPv6:not-an-addr]",
        "üser@example.com",
        "user@bücher.de",
        "user@xn--0.com",
        "",
        "   ",
        " padded@example.com ",
        "a@-bad.com",
        "a@bad-.com",
        "x@x.com",
        "a@gmail.com",
        "a..b@gmail.com",
        "user@localhost",
        "a!#$%&'*+-/=?^_`{|}~z@odd.example",
    ];
    for allow in [true, false] {
        for s in samples {
            let expected = validate(s, allow).is_ok();
            assert_eq!(is_valid(s, allow), expected, "is_valid disagrees on {:?}", s);
            assert_eq!(is_valid_fast(s, allow), expected, "is_valid_fast disagrees on {:?}", s);
            assert_eq!(
                is_valid_detailed(s, allow),
                expected,
                "is_valid_detailed disagrees on {:?}",
                s
            );
        }
    }
}

#[test]
fn atext_symbols_accepted() {
    assert!(validate("a!#$%&'*+-/=?^_`{|}~z@odd.example", true).is_ok());
}

#[test]
fn error_messages() {
    assert_eq!(EmailError::Empty.message(), "The email address is empty");
    assert_eq!(EmailError::MissingAt.message(), "The email address is missing an '@' sign");
    assert_eq!(EmailError::Generic.message(), "The email address is not valid");
}
