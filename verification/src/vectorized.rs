//! Batch-oriented helpers: an element-wise quick filter over many
//! addresses, and a suffix table of common top-level domains.

use vstd::prelude::*;
use crate::lookup::spec_has_consecutive_dots;
use crate::text::find_char;

verus! {

/// The language of the quick single-address filter: 5 to 254 characters,
/// one interior `@` (checked at the first one), a local part of at most 64
/// characters with no edge or doubled dots, and a domain part of 3 to 253
/// characters with an interior dot structure. A pass here is a heuristic
/// screen, not a validation verdict.
pub open spec fn spec_single_fast(s: Seq<char>) -> bool {
    &&& 5 <= s.len() <= 254
    &&& 1 <= find_char(s, '@') < s.len() - 1
    &&& {
        let p = find_char(s, '@');
        let local = s.subrange(0, p);
        let domain = s.subrange(p + 1, s.len() as int);
        &&& local.len() <= 64
        &&& local[0] != '.'
        &&& local.last() != '.'
        &&& !spec_has_consecutive_dots(local)
        &&& 3 <= domain.len() <= 253
        &&& domain[0] != '.'
        &&& domain.last() != '.'
        &&& domain.contains('.')
    }
}

/// Runs the quick filter on one address.
fn validate_single_fast(email: &str) -> (r: bool)
    ensures
        r == spec_single_fast(email@),
{
    let n = email.unicode_len();
    if n < 5 || n > 254 {
        return false;
    }
    let (_, first) = crate::lookup::count_at_swar(email);
    let p = match first {
        Some(p) => p,
        None => {
            proof {
                crate::text::lemma_find_char(email@, '@');
            }
            return false;
        },
    };
    proof {
        crate::text::lemma_find_char(email@, '@');
    }
    if p == 0 || p == n - 1 {
        return false;
    }
    let local = email.substring_char(0, p);
    let domain = email.substring_char(p + 1, n);
    let ll = local.unicode_len();
    if ll > 64 {
        return false;
    }
    if local.get_char(0) == '.' || local.get_char(ll - 1) == '.' {
        return false;
    }
    if crate::lookup::has_consecutive_dots(local) {
        return false;
    }
    let dl = domain.unicode_len();
    if dl < 3 || dl > 253 {
        return false;
    }
    if domain.get_char(0) == '.' || domain.get_char(dl - 1) == '.' {
        return false;
    }
    crate::text::str_contains_char(domain, '.')
}

/// Runs the quick filter over many addresses, order preserved.
pub fn validate_multiple(emails: &[&str]) -> (r: Vec<bool>)
    ensures
        r.len() == emails.len(),
        forall|i: int| 0 <= i < emails.len() ==> r[i] == spec_single_fast(#[trigger] emails[i]@),
{
    let mut out: Vec<bool> = Vec::new();
    let mut i: usize = 0;
    while i < emails.len()
        invariant
            i <= emails.len(),
            out.len() == i,
            forall|k: int| 0 <= k < i ==> out[k] == spec_single_fast(#[trigger] emails[k]@),
        decreases emails.len() - i,
    {
        out.push(validate_single_fast(emails[i]));
        i += 1;
    }
    out
}

/// Whether `s` ends with `suffix`.
pub open spec fn spec_ends_with(s: Seq<char>, suffix: Seq<char>) -> bool {
    suffix.len() <= s.len() && s.subrange(s.len() - suffix.len(), s.len() as int) == suffix
}

/// Reports whether `s` ends with `suffix`, character for character.
fn str_ends_with(s: &str, suffix: &str) -> (r: bool)
    ensures
        r == spec_ends_with(s@, suffix@),
{
    let n = s.unicode_len();
    let m = suffix.unicode_len();
    if m > n {
        return false;
    }
    let mut i: usize = 0;
    while i < m
        invariant
            i <= m <= n,
            n == s@.len(),
            m == suffix@.len(),
            forall|k: int| 0 <= k < i ==> s@[n - m + k] == suffix@[k],
        decreases m - i,
    {
        if s.get_char(n - m + i) != suffix.get_char(i) {
            proof {
                assert(s@.subrange(n - m, n as int)[i as int] != suffix@[i as int]);
            }
            return false;
        }
        i += 1;
    }
    proof {
        assert(s@.subrange(n - m, n as int) =~= suffix@);
    }
    true
}

/// A suffix table of common top-level domains.
pub struct DomainTrie {
    /// The recognized suffixes, each beginning with a dot.
    pub tlds: Vec<&'static str>,
}

impl DomainTrie {
    /// The table of nine common top-level-domain suffixes.
    pub fn new() -> (r: Self)
        ensures
            r.tlds@.len() == 9,
            r.tlds@[0]@ == ".com"@,
            r.tlds@[1]@ == ".org"@,
            r.tlds@[2]@ == ".net"@,
            r.tlds@[3]@ == ".edu"@,
            r.tlds@[4]@ == ".gov"@,
            r.tlds@[5]@ == ".co.uk"@,
            r.tlds@[6]@ == ".com.au"@,
            r.tlds@[7]@ == ".co.jp"@,
            r.tlds@[8]@ == ".com.cn"@,
    {
        DomainTrie {
            tlds: vec![
                ".com",
                ".org",
                ".net",
                ".edu",
                ".gov",
                ".co.uk",
                ".com.au",
                ".co.jp",
                ".com.cn",
            ],
        }
    }

    /// Reports whether `domain` ends with one of the recognized suffixes.
    pub fn has_valid_tld(&self, domain: &str) -> (r: bool)
        ensures
            r == exists|i: int|
                0 <= i < self.tlds@.len() && spec_ends_with(domain@, (#[trigger] self.tlds@[i])@),
    {
        let mut i: usize = 0;
        while i < self.tlds.len()
            invariant
                i <= self.tlds@.len(),
                forall|k: int| 0 <= k < i ==> !spec_ends_with(domain@, (#[trigger] self.tlds@[k])@),
            decreases self.tlds@.len() - i,
        {
            if str_ends_with(domain, self.tlds[i]) {
                return true;
            }
            i += 1;
        }
        false
    }
}

} // verus!
