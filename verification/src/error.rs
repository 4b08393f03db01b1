//! The closed set of reasons for which an address is rejected.

use vstd::prelude::*;

verus! {

/// A reason for rejecting an email address.
///
/// Validation is deterministic and pure: the first violation found during a
/// left-to-right, local-part-then-domain scan is reported, and no variant
/// carries a payload.
#[derive(Clone, Copy, Debug, PartialEq, Eq, Structural)]
pub enum EmailError {
    /// The address (or the part before `@`) is empty.
    Empty,
    /// The address has no `@` sign.
    MissingAt,
    /// The address has more than one `@` sign.
    MultipleAt,
    /// The local part starts with a period.
    LeadingDot,
    /// The local part ends with a period.
    TrailingDot,
    /// Two periods in a row.
    ConsecutiveDots,
    /// The part before `@` is longer than 64 bytes.
    LocalPartTooLong,
    /// The domain is longer than 253 bytes.
    DomainTooLong,
    /// The domain is not valid.
    InvalidDomain,
    /// A character is not allowed where it appears.
    InvalidCharacter,
    /// The address is not valid for a reason not otherwise classified.
    Generic,
}

impl EmailError {
    /// A human-readable description of the rejection.
    pub fn message(&self) -> (r: &'static str)
        ensures
            r@ == self.spec_message(),
    {
        match self {
            EmailError::Empty => "The email address is empty",
            EmailError::MissingAt => "The email address is missing an '@' sign",
            EmailError::MultipleAt => "The email address has too many '@' signs",
            EmailError::LeadingDot => "The email address cannot start with a period",
            EmailError::TrailingDot => "The email address cannot end with a period",
            EmailError::ConsecutiveDots => "The email address cannot have two periods in a row",
            EmailError::LocalPartTooLong => "The local part (before '@') is too long",
            EmailError::DomainTooLong => "The domain is too long",
            EmailError::InvalidDomain => "The domain is not valid",
            EmailError::InvalidCharacter => "Invalid character in the email address",
            EmailError::Generic => "The email address is not valid",
        }
    }

    /// The text that `message` returns for each variant.
    pub open spec fn spec_message(&self) -> Seq<char> {
        match self {
            EmailError::Empty => "The email address is empty"@,
            EmailError::MissingAt => "The email address is missing an '@' sign"@,
            EmailError::MultipleAt => "The email address has too many '@' signs"@,
            EmailError::LeadingDot => "The email address cannot start with a period"@,
            EmailError::TrailingDot => "The email address cannot end with a period"@,
            EmailError::ConsecutiveDots => "The email address cannot have two periods in a row"@,
            EmailError::LocalPartTooLong => "The local part (before '@') is too long"@,
            EmailError::DomainTooLong => "The domain is too long"@,
            EmailError::InvalidDomain => "The domain is not valid"@,
            EmailError::InvalidCharacter => "Invalid character in the email address"@,
            EmailError::Generic => "The email address is not valid"@,
        }
    }
}

} // verus!
