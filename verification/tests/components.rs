//! The component validators and auxiliary structures: local-part and
//! domain checks, the streaming machine, the approximate screens, pools
//! and caches.

use pyval::approximate::{
    EmailFilter, NeuralValidator, PrecomputedValidator, RleValidator, ValidationMethod,
};
use pyval::domain::{validate_domain, validate_domain_label};
use pyval::error::EmailError;
use pyval::ip::{is_ipv4_text, is_ipv6_text};
use pyval::jit::{find_at_fast, StreamingResult, ValidationState};
use pyval::lazy::{BranchlessValidator, LazyEmailView, StringPool};
use pyval::prefetch::{pipelined_validation, PrefetchBatchValidator, ValidationCache};
use pyval::syntax::{is_unsafe_unicode, is_valid_local_byte, validate_local_part};
use pyval::validator::EmailValidator;
use pyval::vectorized::{validate_multiple, DomainTrie};
use pyval::is_valid;

#[test]
fn local_part_checks() {
    assert!(validate_local_part("user", true).is_ok());
    assert!(validate_local_part("user.name+tag", false).is_ok());
    assert_eq!(validate_local_part("", true).unwrap_err(), EmailError::Empty);
    assert_eq!(validate_local_part(".a", true).unwrap_err(), EmailError::LeadingDot);
    assert_eq!(validate_local_part("a.", true).unwrap_err(), EmailError::TrailingDot);
    assert_eq!(validate_local_part("a..b", true).unwrap_err(), EmailError::ConsecutiveDots);
    assert_eq!(
        validate_local_part(&"x".repeat(65), true).unwrap_err(),
        EmailError::LocalPartTooLong
    );
    assert_eq!(validate_local_part("a b", true).unwrap_err(), EmailError::InvalidCharacter);
    assert!(validate_local_part("üser", true).is_ok());
    assert_eq!(validate_local_part("üser", false).unwrap_err(), EmailError::InvalidCharacter);
    assert_eq!(
        validate_local_part("a\u{200C}b", true).unwrap_err(),
        EmailError::InvalidCharacter
    );
}

#[test]
fn local_byte_and_unicode_helpers() {
    assert!(is_valid_local_byte('a', false));
    assert!(!is_valid_local_byte('@', true));
    assert!(is_valid_local_byte('ß', true));
    assert!(!is_valid_local_byte('ß', false));
    assert!(is_unsafe_unicode('\u{200B}'));
    assert!(is_unsafe_unicode('\u{FEFF}'));
    assert!(!is_unsafe_unicode('ü'));
}

#[test]
fn domain_checks() {
    assert_eq!(validate_domain("example.com").unwrap(), "example.com");
    assert_eq!(validate_domain("Example.COM").unwrap(), "Example.COM");
    assert_eq!(validate_domain("bücher.de").unwrap(), "xn--bcher-kva.de");
    assert_eq!(validate_domain("").unwrap_err(), EmailError::InvalidDomain);
    assert_eq!(validate_domain("nodot").unwrap_err(), EmailError::InvalidDomain);
    assert_eq!(validate_domain("1.2.3.4").unwrap_err(), EmailError::InvalidDomain);
    assert_eq!(validate_domain("a..b.com").unwrap_err(), EmailError::ConsecutiveDots);
    assert_eq!(validate_domain("[192.168.1.1]").unwrap(), "[192.168.1.1]");
    assert_eq!(validate_domain("[IPv6:::1]").unwrap(), "[IPv6:::1]");
    assert_eq!(validate_domain("[not-ip]").unwrap_err(), EmailError::InvalidDomain);
    assert_eq!(
        validate_domain(&format!("{}.com", "d".repeat(64))).unwrap_err(),
        EmailError::InvalidDomain
    );
}

#[test]
fn domain_label_checks() {
    assert!(validate_domain_label("example").is_ok());
    assert_eq!(validate_domain_label("").unwrap_err(), EmailError::ConsecutiveDots);
    assert_eq!(validate_domain_label("-a").unwrap_err(), EmailError::InvalidDomain);
    assert_eq!(validate_domain_label("a-").unwrap_err(), EmailError::InvalidDomain);
    assert_eq!(validate_domain_label("a_b").unwrap_err(), EmailError::InvalidCharacter);
    assert_eq!(
        validate_domain_label(&"z".repeat(64)).unwrap_err(),
        EmailError::InvalidDomain
    );
}

#[test]
fn ip_text_grammars() {
    assert!(is_ipv4_text("0.0.0.0"));
    assert!(is_ipv4_text("255.255.255.255"));
    assert!(!is_ipv4_text("256.0.0.1"));
    assert!(!is_ipv4_text("01.2.3.4"));
    assert!(!is_ipv4_text("1.2.3"));
    assert!(!is_ipv4_text("1.2.3.4.5"));
    assert!(is_ipv6_text("::"));
    assert!(is_ipv6_text("::1"));
    assert!(is_ipv6_text("1:2:3:4:5:6:7:8"));
    assert!(is_ipv6_text("fe80::1"));
    assert!(is_ipv6_text("::ffff:10.0.0.1"));
    assert!(is_ipv6_text("1:2:3:4:5:6:10.0.0.1"));
    assert!(!is_ipv6_text("1:2:3:4:5:6:7:8:9"));
    assert!(!is_ipv6_text("1:2"));
    assert!(!is_ipv6_text("1::2::3"));
    assert!(!is_ipv6_text(":::"));
    assert!(!is_ipv6_text("g::1"));
    assert!(!is_ipv6_text("12345::1"));
}

#[test]
fn validator_options() {
    let open = EmailValidator::new();
    assert!(open.allow_smtputf8);
    let strict = EmailValidator::default();
    assert!(!strict.allow_smtputf8);
    assert!(open.validate("üser@example.com").is_ok());
    assert_eq!(
        strict.validate("üser@example.com").unwrap_err(),
        EmailError::InvalidCharacter
    );
}

#[test]
fn streaming_state_machine() {
    let mut st = ValidationState::new();
    for b in "user@example.com".bytes() {
        st.transition(b);
    }
    assert!(!st.is_rejected());
    assert!(st.can_accept());

    let mut st = ValidationState::new();
    for b in "a@b@c.com".bytes() {
        st.transition(b);
    }
    assert!(st.is_rejected());

    let mut st = ValidationState::new();
    for b in "a..b@c.com".bytes() {
        st.transition(b);
    }
    assert!(st.is_rejected());

    let mut st = ValidationState::new();
    for b in "a@nodot".bytes() {
        st.transition(b);
    }
    assert!(!st.is_rejected());
    assert!(!st.can_accept());
}

#[test]
fn streaming_reject_is_conservative_on_plain_ascii() {
    // For ASCII inputs whose domain needs no conversion, a machine reject
    // always means the validator rejects too.
    let samples = [".a@b.com", "@b.com", "a@@b.com", "a..b@c.com", "a@.com", "x@y@z.com"];
    for s in samples {
        let mut st = ValidationState::new();
        for b in s.bytes() {
            st.transition(b);
        }
        assert!(st.is_rejected());
        assert!(!is_valid(s, true));
    }
}

#[test]
fn streaming_result_is_a_plain_verdict() {
    assert_ne!(StreamingResult::Valid, StreamingResult::Invalid);
    assert_ne!(StreamingResult::Valid, StreamingResult::NeedMore);
}

#[test]
fn find_at_positions() {
    assert_eq!(find_at_fast("a@b"), Some(1));
    assert_eq!(find_at_fast("ab"), None);
}

#[test]
fn neural_scorer() {
    let nv = NeuralValidator::new();
    // "ab@cd.ef": 8 characters, one @, one dot, leading letter, clean edges.
    assert_eq!(nv.score("ab@cd.ef"), 80 + 20 - 50 + 15 + 8);
    assert_eq!(nv.quick_check("ab@cd.ef"), (false, true));
    assert_eq!(nv.score(""), -1000);
    assert_eq!(nv.quick_check(""), (true, false));
    // Capitals push the score down hard.
    assert!(nv.score("ABCDEFG@HIJK.LM") < nv.score("abcdefg@hijk.lm"));
}

#[test]
fn bloom_filter_never_misses_added() {
    let mut filter = EmailFilter::new();
    let entries = ["a@example.com", "b@test.org", "c@mail.net"];
    for e in entries {
        filter.add(e);
    }
    for e in entries {
        assert!(filter.might_be_valid(e));
    }
}

#[test]
fn bloom_filter_usually_rejects_unknown() {
    let filter = EmailFilter::new();
    assert!(!filter.might_be_valid("never-added@example.com"));
}

#[test]
fn rle_pattern() {
    assert!(RleValidator::pattern_match("user@example.com"));
    assert!(!RleValidator::pattern_match("user@example"));
    assert!(!RleValidator::pattern_match("us er@example.com"));
    assert!(!RleValidator::pattern_match("user@exa..mple.com"));
    assert!(!RleValidator::pattern_match("user@example.com."));
    assert!(!RleValidator::pattern_match("a@b"));
    assert!(RleValidator::is_local_char('+'));
    assert!(!RleValidator::is_local_char('!'));
}

#[test]
fn precomputed_cache_matches_validator() {
    let cache = PrecomputedValidator::with_common_patterns();
    assert_eq!(cache.check("user@gmail.com"), Some(true));
    assert_eq!(cache.check("unknown@nowhere.invalid"), None);
    let _ = ValidationMethod::Full;
}

#[test]
fn lazy_view_accessors() {
    let view = LazyEmailView::new("User@Example.COM".to_string(), 4, false);
    assert_eq!(view.local_part(), "User");
    assert_eq!(view.domain(), "Example.COM");
    assert_eq!(view.ascii_domain(), "example.com");
    assert_eq!(view.normalized(), "user@example.com");
    assert_eq!(view.original(), "User@Example.COM");
    assert!(!view.smtputf8());
}

#[test]
fn lazy_string_pool() {
    let mut pool = StringPool::new();
    let s = pool.get_string(32);
    assert_eq!(s, "");
}

#[test]
fn branchless_screen() {
    assert!(BranchlessValidator::is_valid_branchless("a@b.c"));
    assert!(!BranchlessValidator::is_valid_branchless("a@b@c"));
    assert!(!BranchlessValidator::is_valid_branchless("@ab.c"));
    assert!(!BranchlessValidator::is_valid_branchless("ab.c@"));
    assert!(!BranchlessValidator::is_valid_branchless("ab"));
}

#[test]
fn prefetch_batches() {
    let inputs = ["a@example.com", "broken", "c@test.org"];
    let refs: Vec<&str> = inputs.to_vec();
    let mut results = Vec::new();
    PrefetchBatchValidator::validate_batch_prefetch(&refs, &mut results);
    assert_eq!(results, vec![true, false, true]);
    let chunked = PrefetchBatchValidator::validate_chunked(&refs, 2);
    assert_eq!(chunked, vec![true, false, true]);
    let piped = pipelined_validation(&refs);
    assert_eq!(piped, vec![true, false, true]);
}

#[test]
fn prefetch_string_pool() {
    let mut pool = pyval::prefetch::StringPool::new();
    let off0 = pool.add("hello");
    let off1 = pool.add("world!");
    assert_eq!(off0, 0);
    assert_eq!(off1, 5);
    assert_eq!(pool.get(0), Some("hello"));
    assert_eq!(pool.get(1), Some("world!"));
    assert_eq!(pool.get(2), None);
    pool.clear();
    assert_eq!(pool.get(0), None);
}

#[test]
fn validation_cache_round_trip() {
    // The cache stores `hash << 1`, so only hashes with a clear top bit can
    // be found again; these two have one.
    let mut cache = ValidationCache::new(64);
    cache.insert("x@y.com", true);
    cache.insert("hello@world.org", false);
    assert_eq!(cache.check("x@y.com"), Some(true));
    assert_eq!(cache.check("hello@world.org"), Some(false));
    assert_eq!(cache.check("user1@test.com"), None);
}

#[test]
fn vectorized_filter() {
    let inputs = ["user@example.com", "user@example", "a@b.c"];
    let refs: Vec<&str> = inputs.to_vec();
    let out = validate_multiple(&refs);
    assert_eq!(out, vec![true, false, true]);
}

#[test]
fn domain_trie_suffixes() {
    let trie = DomainTrie::new();
    assert!(trie.has_valid_tld("example.com"));
    assert!(trie.has_valid_tld("bbc.co.uk"));
    assert!(!trie.has_valid_tld("example.dev"));
}

#[test]
fn batch_matches_single_is_valid() {
    let inputs = ["a@example.com", "üser@example.com", "user@[IPv6:::1]"];
    for s in inputs {
        assert_eq!(is_valid(s, true), pyval::validate(s, true).is_ok());
    }
}
