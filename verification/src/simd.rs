//! Wide-scan helpers: locating and counting `@` signs and screening for
//! printable ASCII in one pass, plus a pre-screen built from them that may
//! reject early but never accepts on its own.

use vstd::prelude::*;
use crate::text::{count_char, find_char, spec_trim};
use crate::validator::spec_validate;

verus! {

/// Whether `c` is printable ASCII: between space and `0x7F`, exclusive.
pub open spec fn spec_printable_ascii_char(c: char) -> bool {
    (0x20 <= c as u32) && ((c as u32) < 0x80)
}

/// Whether every character of `s` is printable ASCII.
pub open spec fn spec_printable_ascii(s: Seq<char>) -> bool {
    forall|k: int| 0 <= k < s.len() ==> spec_printable_ascii_char(#[trigger] s[k])
}

/// Single-pass scanning primitives over the characters of an address.
pub struct SimdValidator;

impl SimdValidator {
    /// Finds the position (in characters) of the first `@` sign.
    pub fn find_at(email: &str) -> (r: Option<usize>)
        ensures
            match r {
                Some(p) => p == find_char(email@, '@') && email@[p as int] == '@',
                None => find_char(email@, '@') == -1,
            },
    {
        let (_, first) = crate::lookup::count_at_swar(email);
        first
    }

    /// Counts the `@` signs.
    pub fn count_at(email: &str) -> (r: usize)
        ensures
            r == count_char(email@, '@'),
    {
        let (count, _) = crate::lookup::count_at_swar(email);
        count
    }

    /// Reports whether every character is printable ASCII (between space
    /// and `0x7F`, exclusive).
    pub fn is_valid_ascii(email: &str) -> (r: bool)
        ensures
            r == spec_printable_ascii(email@),
    {
        let n = email.unicode_len();
        let mut i: usize = 0;
        while i < n
            invariant
                i <= n,
                n == email@.len(),
                forall|k: int| 0 <= k < i ==> spec_printable_ascii_char(#[trigger] email@[k]),
            decreases n - i,
        {
            let u = email.get_char(i) as u32;
            if !(0x20 <= u && u < 0x80) {
                return false;
            }
            i += 1;
        }
        true
    }
}

/// A pre-screen over the scanning primitives: definite rejects for inputs
/// whose `@` signs are wrong in number or position, escalation for
/// everything else.
pub struct PortableSimd;

impl PortableSimd {
    /// Screens longer printable-ASCII inputs: rejects those without exactly
    /// one interior `@`, and hands everything else to the next tier. The
    /// answer, when given, equals the full validator's verdict under either
    /// internationalization setting.
    pub fn validate_email_fast(email: &str) -> (r: Option<bool>)
        ensures
            r matches Some(b) ==> b == spec_validate(email@, true).is_ok() && b == spec_validate(
                email@,
                false,
            ).is_ok(),
    {
        let n = email.unicode_len();
        if n < 16 {
            return None;
        }
        if !SimdValidator::is_valid_ascii(email) {
            return None;
        }
        proof {
            crate::text::lemma_trim_count(email@, '@');
        }
        let at_count = SimdValidator::count_at(email);
        if at_count != 1 {
            return Some(false);
        }
        let p = match SimdValidator::find_at(email) {
            Some(p) => p,
            None => {
                return None;
            },
        };
        proof {
            crate::text::lemma_find_char(email@, '@');
        }
        if p == 0 {
            proof {
                let t = spec_trim(email@);
                crate::text::lemma_count_pos_nonempty(t, '@');
                crate::text::lemma_trim_end_head(crate::text::spec_trim_start(email@));
                assert(t[0] == '@');
                crate::text::lemma_find_char_is(t, '@', 0);
                assert(t.subrange(0, 0) =~= Seq::<char>::empty());
            }
            return Some(false);
        }
        if p == n - 1 {
            proof {
                let ts = crate::text::spec_trim_start(email@);
                let t = spec_trim(email@);
                crate::text::lemma_trim_start_count(email@, '@');
                crate::text::lemma_count_pos_nonempty(ts, '@');
                crate::text::lemma_trim_start_last(email@);
                assert(ts.last() == '@');
                assert(t == ts);
                crate::text::lemma_count_char_exists(t, '@');
                crate::text::lemma_find_char(t, '@');
                let f = find_char(t, '@');
                assert(t[f] == '@');
                assert(t[t.len() - 1] == '@');
                crate::text::lemma_count_char_unique(t, '@', f, t.len() - 1);
                assert(t.subrange(t.len() as int, t.len() as int) =~= Seq::<char>::empty());
            }
            return Some(false);
        }
        None
    }
}

} // verus!
