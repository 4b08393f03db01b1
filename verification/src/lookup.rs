//! O(1) membership tests for the two character sets of the grammar: the
//! RFC 5322 *atext* set used by local parts, and the letter-digit-hyphen set
//! used by domain labels.

use vstd::prelude::*;

verus! {

/// Whether `c` is in the RFC 5322 *atext* set: the characters permitted
/// unquoted in a local part, not counting the dot separator.
pub open spec fn spec_is_atext(c: char) -> bool {
    ||| 'a' <= c <= 'z'
    ||| 'A' <= c <= 'Z'
    ||| '0' <= c <= '9'
    ||| c == '!'
    ||| c == '#'
    ||| c == '$'
    ||| c == '%'
    ||| c == '&'
    ||| c == '\''
    ||| c == '*'
    ||| c == '+'
    ||| c == '-'
    ||| c == '/'
    ||| c == '='
    ||| c == '?'
    ||| c == '^'
    ||| c == '_'
    ||| c == '`'
    ||| c == '{'
    ||| c == '|'
    ||| c == '}'
    ||| c == '~'
}

/// Whether `c` is an ASCII letter, digit or hyphen: the set permitted inside
/// a domain label.
pub open spec fn spec_is_domain_char(c: char) -> bool {
    ||| 'a' <= c <= 'z'
    ||| 'A' <= c <= 'Z'
    ||| '0' <= c <= '9'
    ||| c == '-'
}

/// Whether `c` is an ASCII decimal digit.
pub open spec fn spec_is_dec_digit(c: char) -> bool {
    '0' <= c <= '9'
}

/// Reports whether `c` is an ASCII decimal digit.
pub fn is_dec_digit(c: char) -> (r: bool)
    ensures
        r == spec_is_dec_digit(c),
{
    '0' <= c && c <= '9'
}

/// Reports whether `c` is in the *atext* set.
pub fn is_atext_char(c: char) -> (r: bool)
    ensures
        r == spec_is_atext(c),
{
    ('a' <= c && c <= 'z') || ('A' <= c && c <= 'Z') || ('0' <= c && c <= '9') || c == '!' || c
        == '#' || c == '$' || c == '%' || c == '&' || c == '\'' || c == '*' || c == '+' || c == '-'
        || c == '/' || c == '=' || c == '?' || c == '^' || c == '_' || c == '`' || c == '{' || c
        == '|' || c == '}' || c == '~'
}

/// Reports whether `c` is an ASCII letter, digit or hyphen.
pub fn is_domain_char(c: char) -> (r: bool)
    ensures
        r == spec_is_domain_char(c),
{
    ('a' <= c && c <= 'z') || ('A' <= c && c <= 'Z') || ('0' <= c && c <= '9') || c == '-'
}

/// The byte-level local-part table: *atext* plus the dot separator.
pub open spec fn spec_local_byte(b: u8) -> bool {
    spec_is_atext(b as char) || b == 46
}

/// The byte-level domain table: ASCII letter, digit or hyphen.
pub open spec fn spec_domain_byte(b: u8) -> bool {
    spec_is_domain_char(b as char)
}

/// Byte-level membership test for the local-part table.
pub fn is_valid_local_byte_fast(b: u8) -> (r: bool)
    ensures
        r == spec_local_byte(b),
{
    is_atext_char(b as char) || b == 46
}

/// Byte-level membership test for the domain table.
pub fn is_valid_domain_byte_fast(b: u8) -> (r: bool)
    ensures
        r == spec_domain_byte(b),
{
    is_domain_char(b as char)
}

/// Whether `s` contains two dots in a row.
pub open spec fn spec_has_consecutive_dots(s: Seq<char>) -> bool {
    exists|i: int| 0 <= i && i + 1 < s.len() && #[trigger] s[i] == '.' && s[i + 1] == '.'
}

/// Reports whether `s` contains two periods in a row.
pub fn has_consecutive_dots(s: &str) -> (r: bool)
    ensures
        r == spec_has_consecutive_dots(s@),
{
    let n = s.unicode_len();
    if n < 2 {
        return false;
    }
    let mut i: usize = 0;
    let mut prev = s.get_char(0);
    while i + 1 < n
        invariant
            i + 1 <= n,
            n == s@.len(),
            n >= 2,
            prev == s@[i as int],
            forall|k: int| 0 <= k && k + 1 <= i ==> !(#[trigger] s@[k] == '.' && s@[k + 1] == '.'),
        decreases n - i,
    {
        let c = s.get_char(i + 1);
        if prev == '.' && c == '.' {
            return true;
        }
        prev = c;
        i += 1;
    }
    false
}

/// Counts the `@` signs in `s` and reports the position (in characters) of
/// the first one, if any.
pub fn count_at_swar(s: &str) -> (r: (usize, Option<usize>))
    ensures
        r.0 == crate::text::count_char(s@, '@'),
        match r.1 {
            Some(p) => p == crate::text::find_char(s@, '@') && s@[p as int] == '@',
            None => crate::text::find_char(s@, '@') == -1,
        },
{
    let n = s.unicode_len();
    let mut count: usize = 0;
    let mut first: Option<usize> = None;
    let mut i: usize = 0;
    proof {
        assert(s@.subrange(0, 0) =~= Seq::<char>::empty());
    }
    while i < n
        invariant
            i <= n,
            n == s@.len(),
            count == crate::text::count_char(s@.subrange(0, i as int), '@'),
            count <= i,
            match first {
                Some(p) => p < i && s@[p as int] == '@' && (forall|k: int|
                    0 <= k < p ==> s@[k] != '@'),
                None => forall|k: int| 0 <= k < i ==> s@[k] != '@',
            },
        decreases n - i,
    {
        proof {
            crate::text::lemma_count_char_step(s@, '@', i as int);
        }
        if s.get_char(i) == '@' {
            count += 1;
            if first.is_none() {
                first = Some(i);
            }
        }
        i += 1;
    }
    proof {
        assert(s@.subrange(0, n as int) =~= s@);
        match first {
            Some(p) => crate::text::lemma_find_char_is(s@, '@', p as int),
            None => crate::text::lemma_find_char(s@, '@'),
        }
    }
    (count, first)
}

} // verus!
