//! Email address validation and canonicalization.
//!
//! The crate checks addresses against RFC 5322 (ASCII) and RFC 6531
//! (internationalized) syntax, with domain-name and IP-literal rules, and
//! produces a canonical, ASCII-compatible form of every accepted address.
//! Fast tiers answer only when they have verified everything the full
//! validator would; anything else escalates, so every entry point agrees
//! with the authoritative validator on every input.
#![verifier::loop_isolation(false)]

pub mod approximate;
pub mod domain;
pub mod error;
pub mod fastpath;
pub mod ip;
pub mod jit;
pub mod lazy;
pub mod lookup;
pub mod prefetch;
pub mod simd;
pub mod syntax;
pub mod text;
pub mod validator;
pub mod vectorized;

pub use error::EmailError;
pub use validator::{EmailValidator, ValidatedEmail};

use vstd::prelude::*;
use crate::validator::{spec_validate, EmailModel};

verus! {

/// Full validation with options: the authoritative entry point.
pub fn validate(email: &str, allow_smtputf8: bool) -> (r: Result<ValidatedEmail, EmailError>)
    ensures
        match r {
            Ok(v) => spec_validate(email@, allow_smtputf8) == Ok::<EmailModel, EmailError>(v@),
            Err(e) => spec_validate(email@, allow_smtputf8) == Err::<EmailModel, EmailError>(e),
        },
{
    let validator = EmailValidator {
        allow_smtputf8,
        allow_quoted_local: false,
        allow_domain_literal: false,
        check_deliverability: false,
    };
    validator.validate(email)
}

/// Quick boolean validation through the tiered dispatcher: a fast tier
/// answers where it can, the full validator otherwise. Behaviorally equal
/// to `validate(email, allow_smtputf8).is_ok()` on every input.
pub fn is_valid(email: &str, allow_smtputf8: bool) -> (r: bool)
    ensures
        r == spec_validate(email@, allow_smtputf8).is_ok(),
{
    match crate::fastpath::fast_ascii_email_check(email) {
        Some(b) => b,
        None => is_valid_detailed(email, allow_smtputf8),
    }
}

/// Boolean validation that tries the wide-scan pre-screen before the
/// ASCII fast path; equal to `validate(email, allow_smtputf8).is_ok()` on
/// every input.
pub fn is_valid_fast(email: &str, allow_smtputf8: bool) -> (r: bool)
    ensures
        r == spec_validate(email@, allow_smtputf8).is_ok(),
{
    if let Some(b) = crate::simd::PortableSimd::validate_email_fast(email) {
        return b;
    }
    is_valid(email, allow_smtputf8)
}

/// The deep path: runs the full structural validator and reports whether
/// it accepted.
pub fn is_valid_detailed(email: &str, allow_smtputf8: bool) -> (r: bool)
    ensures
        r == spec_validate(email@, allow_smtputf8).is_ok(),
{
    validate(email, allow_smtputf8).is_ok()
}

} // verus!
