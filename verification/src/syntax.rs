//! The local-part validator: length, edge-dot, consecutive-dot and
//! character-class rules for the part of an address before the `@`, with an
//! opt-in gate for internationalized (non-ASCII) local parts.

use vstd::prelude::*;
use crate::error::EmailError;
use crate::lookup::spec_is_atext;
use vstd::utf8::encode_utf8;

verus! {

/// Whether a character is syntactically legal but semantically unsafe in a
/// local part: a control character, a zero-width character, or the
/// byte-order mark.
pub open spec fn spec_is_unsafe_unicode(c: char) -> bool {
    let u = c as u32;
    ||| u < 0x20
    ||| 0x7F <= u <= 0x9F
    ||| 0x200B <= u <= 0x200D
    ||| u == 0xFEFF
}

/// Reports whether `c` is unsafe in the sense of `spec_is_unsafe_unicode`.
pub fn is_unsafe_unicode(c: char) -> (r: bool)
    ensures
        r == spec_is_unsafe_unicode(c),
{
    let u = c as u32;
    u < 0x20 || (0x7F <= u && u <= 0x9F) || (0x200B <= u && u <= 0x200D) || u == 0xFEFF
}

/// Whether a non-dot local-part character is accepted by the byte-level
/// pass: ASCII *atext*, or any non-ASCII character when internationalized
/// local parts are allowed.
pub open spec fn spec_local_char_ok(c: char, allow_smtputf8: bool) -> bool {
    spec_is_atext(c) || (c as u32 >= 128 && allow_smtputf8)
}

/// Reports whether `c` passes the byte-level local-part character check.
pub fn is_valid_local_byte(c: char, allow_smtputf8: bool) -> (r: bool)
    ensures
        r == spec_local_char_ok(c, allow_smtputf8),
{
    crate::lookup::is_atext_char(c) || (c as u32 >= 128 && allow_smtputf8)
}

/// The single left-to-right scan of the local part from position `i`
/// onwards: the first consecutive-dot or character-class violation, if any.
/// `prev_dot` records whether position `i - 1` held a dot.
pub open spec fn spec_local_scan(
    l: Seq<char>,
    allow_smtputf8: bool,
    i: int,
    prev_dot: bool,
) -> Option<EmailError>
    decreases l.len() - i,
{
    if i < 0 || i >= l.len() {
        None
    } else if l[i] == '.' {
        if prev_dot {
            Some(EmailError::ConsecutiveDots)
        } else {
            spec_local_scan(l, allow_smtputf8, i + 1, true)
        }
    } else if !spec_local_char_ok(l[i], allow_smtputf8) {
        Some(EmailError::InvalidCharacter)
    } else {
        spec_local_scan(l, allow_smtputf8, i + 1, false)
    }
}

/// The screening pass for internationalized local parts: rejects any
/// non-ASCII character that is unsafe in the sense of
/// `spec_is_unsafe_unicode`.
pub open spec fn spec_local_unicode_err(l: Seq<char>, allow_smtputf8: bool) -> Option<EmailError> {
    if allow_smtputf8 && exists|j: int|
        0 <= j < l.len() && l[j] as u32 > 127 && spec_is_unsafe_unicode(l[j]) {
        Some(EmailError::InvalidCharacter)
    } else {
        None
    }
}

/// The first violation of the local-part rules, checked in order: emptiness,
/// byte length, edge dots, the character scan, then the internationalized
/// screening pass.
pub open spec fn spec_local_error(l: Seq<char>, allow_smtputf8: bool) -> Option<EmailError> {
    if l.len() == 0 {
        Some(EmailError::Empty)
    } else if encode_utf8(l).len() > 64 {
        Some(EmailError::LocalPartTooLong)
    } else if l[0] == '.' {
        Some(EmailError::LeadingDot)
    } else if l.last() == '.' {
        Some(EmailError::TrailingDot)
    } else if spec_local_scan(l, allow_smtputf8, 0, false) is Some {
        spec_local_scan(l, allow_smtputf8, 0, false)
    } else {
        spec_local_unicode_err(l, allow_smtputf8)
    }
}

/// The character scan finds nothing wrong in a local part whose characters
/// are *atext* or dots with no two dots adjacent.
pub proof fn lemma_local_scan_clean(l: Seq<char>, allow_smtputf8: bool, i: int, prev: bool)
    requires
        0 <= i <= l.len(),
        forall|k: int| 0 <= k < l.len() ==> spec_is_atext(#[trigger] l[k]) || l[k] == '.',
        forall|k: int| 0 <= k && k + 1 < l.len() ==> !(#[trigger] l[k] == '.' && l[k + 1] == '.'),
        prev ==> i > 0 && l[i - 1] == '.',
    ensures
        spec_local_scan(l, allow_smtputf8, i, prev) is None,
    decreases l.len() - i,
{
    if i < l.len() {
        if l[i] == '.' {
            lemma_local_scan_clean(l, allow_smtputf8, i + 1, true);
        } else {
            lemma_local_scan_clean(l, allow_smtputf8, i + 1, false);
        }
    }
}

/// A local part that the character scan passes has no two dots in a row
/// from position `i` on.
pub proof fn lemma_local_scan_no_pairs(l: Seq<char>, allow_smtputf8: bool, i: int, prev: bool)
    requires
        0 <= i <= l.len(),
        spec_local_scan(l, allow_smtputf8, i, prev) is None,
    ensures
        forall|m: int| i <= m && m + 1 < l.len() ==> !(#[trigger] l[m] == '.' && l[m + 1] == '.'),
    decreases l.len() - i,
{
    if i < l.len() {
        if l[i] == '.' {
            lemma_local_scan_no_pairs(l, allow_smtputf8, i + 1, true);
            if i + 1 < l.len() && l[i + 1] == '.' {
                assert(spec_local_scan(l, allow_smtputf8, i + 1, true) is Some);
            }
        } else {
            lemma_local_scan_no_pairs(l, allow_smtputf8, i + 1, false);
        }
    }
}

/// A local part that the character scan passes holds only dots and
/// characters accepted by `spec_local_char_ok`.
pub proof fn lemma_local_scan_chars(l: Seq<char>, allow_smtputf8: bool, i: int, prev: bool)
    requires
        0 <= i <= l.len(),
        spec_local_scan(l, allow_smtputf8, i, prev) is None,
    ensures
        forall|k: int|
            i <= k < l.len() ==> #[trigger] l[k] == '.' || spec_local_char_ok(l[k], allow_smtputf8),
    decreases l.len() - i,
{
    if i < l.len() {
        if l[i] == '.' {
            lemma_local_scan_chars(l, allow_smtputf8, i + 1, true);
        } else {
            lemma_local_scan_chars(l, allow_smtputf8, i + 1, false);
        }
    }
}

/// Validates the local part (before `@`) of an email address.
///
/// Returns `Ok(())` exactly when the part, read as a character sequence, is
/// a sequence of *atext*-or-permitted-Unicode runs separated by single dots,
/// with no leading or trailing dot and at most 64 bytes in all.
pub fn validate_local_part(local: &str, allow_smtputf8: bool) -> (r: Result<(), EmailError>)
    ensures
        match r {
            Ok(_) => spec_local_error(local@, allow_smtputf8) is None,
            Err(e) => spec_local_error(local@, allow_smtputf8) == Some(e),
        },
{
    let n = local.unicode_len();
    if n == 0 {
        return Err(EmailError::Empty);
    }
    proof {
        crate::text::lemma_encode_utf8_len_ge(local@);
        crate::text::lemma_encode_utf8_len_le(local@);
    }
    if n > 64 {
        return Err(EmailError::LocalPartTooLong);
    }
    if local.len() > 64 {
        return Err(EmailError::LocalPartTooLong);
    }
    if local.get_char(0) == '.' {
        return Err(EmailError::LeadingDot);
    }
    if local.get_char(n - 1) == '.' {
        return Err(EmailError::TrailingDot);
    }
    let mut i: usize = 0;
    let mut prev_dot = false;
    let mut any_high = false;
    while i < n
        invariant
            i <= n,
            n == local@.len(),
            spec_local_scan(local@, allow_smtputf8, 0, false) == spec_local_scan(
                local@,
                allow_smtputf8,
                i as int,
                prev_dot,
            ),
            any_high == exists|k: int| 0 <= k < i && local@[k] as u32 >= 128,
        decreases n - i,
    {
        let c = local.get_char(i);
        if c == '.' {
            if prev_dot {
                return Err(EmailError::ConsecutiveDots);
            }
            prev_dot = true;
        } else {
            prev_dot = false;
            if !is_valid_local_byte(c, allow_smtputf8) {
                return Err(EmailError::InvalidCharacter);
            }
        }
        if c as u32 >= 128 {
            any_high = true;
        }
        proof {
            if local@[i as int] as u32 >= 128 {
                assert(exists|k: int| 0 <= k < i + 1 && local@[k] as u32 >= 128);
            }
        }
        i += 1;
    }
    if allow_smtputf8 && any_high {
        let mut j: usize = 0;
        while j < n
            invariant
                j <= n,
                n == local@.len(),
                forall|k: int|
                    0 <= k < j ==> !(local@[k] as u32 > 127 && spec_is_unsafe_unicode(local@[k])),
            decreases n - j,
        {
            let c = local.get_char(j);
            if c as u32 > 127 && is_unsafe_unicode(c) {
                return Err(EmailError::InvalidCharacter);
            }
            j += 1;
        }
    }
    Ok(())
}

} // verus!
