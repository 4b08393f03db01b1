//! Approximate pre-validation: a weighted feature scorer, a probabilistic
//! membership filter, a run-length pattern matcher and a precomputed cache.
//! All of them are best-effort accelerators in front of the dispatcher:
//! each contract says exactly what is computed, and only the cache's
//! verdicts are tied to the authoritative validator.

use vstd::prelude::*;
use crate::text::count_char;

verus! {

/// How many characters of `s` satisfy `f`.
pub open spec fn count_matching(s: Seq<char>, f: spec_fn(char) -> bool) -> nat
    decreases s.len(),
{
    if s.len() == 0 {
        0
    } else {
        count_matching(s.drop_last(), f) + if f(s.last()) {
            1nat
        } else {
            0nat
        }
    }
}

/// How many positions of `s` start two dots in a row.
pub open spec fn count_dot_pairs(s: Seq<char>) -> nat
    decreases s.len(),
{
    if s.len() < 2 {
        0
    } else {
        count_dot_pairs(s.drop_last()) + if s[s.len() - 2] == '.' && s.last() == '.' {
            1nat
        } else {
            0nat
        }
    }
}

/// Whether `c` is an ASCII capital letter.
pub open spec fn spec_is_upper(c: char) -> bool {
    'A' <= c <= 'Z'
}

/// Whether `c` is an ASCII letter.
pub open spec fn spec_is_alpha(c: char) -> bool {
    ('a' <= c <= 'z') || ('A' <= c <= 'Z')
}

/// The weighted feature score of `s`: a large negative constant outside the
/// length bounds, otherwise the fixed-weight sum over length, `@` and dot
/// counts, the leading character, capital letters, digits, edge dots and
/// doubled dots.
pub open spec fn spec_score(s: Seq<char>) -> int {
    if s.len() < 3 || s.len() > 254 {
        -1000
    } else {
        10 * s.len() + 20 * count_char(s, '@') - 50 * count_char(s, '.') + (if spec_is_alpha(
            s[0],
        ) {
            15int
        } else {
            0int
        }) - 100 * count_matching(s, |c: char| spec_is_upper(c)) + 5 * count_matching(
            s,
            |c: char| crate::lookup::spec_is_dec_digit(c),
        ) + (if s[0] != '.' && s.last() != '.' {
            8int
        } else {
            0int
        }) - 30 * count_dot_pairs(s)
    }
}

/// A feature-weighted scorer that estimates validity; its verdicts are
/// heuristic and never override the validator.
pub struct NeuralValidator {
    /// The fixed feature weights.
    pub weights: [i32; 8],
    /// The score above which `quick_check` reports "probably valid".
    pub threshold: i32,
}

impl NeuralValidator {
    /// A scorer with the fixed heuristic weights.
    pub fn new() -> (r: Self)
        ensures
            r.weights@ == seq![10i32, 20i32, -50i32, 15i32, -100i32, 5i32, 8i32, -30i32],
            r.threshold == 50,
    {
        let weights = [10i32, 20i32, -50i32, 15i32, -100i32, 5i32, 8i32, -30i32];
        proof {
            assert(weights@ =~= seq![10i32, 20i32, -50i32, 15i32, -100i32, 5i32, 8i32, -30i32]);
        }
        NeuralValidator { weights, threshold: 50 }
    }

    /// Computes the weighted feature score; higher means more likely valid.
    pub fn score(&self, email: &str) -> (r: i32)
        ensures
            r == spec_score(email@),
    {
        let n = email.unicode_len();
        if n < 3 || n > 254 {
            return -1000;
        }
        let mut at: usize = 0;
        let mut dots: usize = 0;
        let mut upper: usize = 0;
        let mut digits: usize = 0;
        let mut pairs: usize = 0;
        let mut i: usize = 0;
        while i < n
            invariant
                i <= n,
                n == email@.len(),
                at == count_char(email@.subrange(0, i as int), '@'),
                dots == count_char(email@.subrange(0, i as int), '.'),
                upper == count_matching(
                    email@.subrange(0, i as int),
                    |c: char| spec_is_upper(c),
                ),
                digits == count_matching(
                    email@.subrange(0, i as int),
                    |c: char| crate::lookup::spec_is_dec_digit(c),
                ),
                pairs == count_dot_pairs(email@.subrange(0, i as int)),
                at <= i && dots <= i && upper <= i && digits <= i && pairs <= i,
            decreases n - i,
        {
            let c = email.get_char(i);
            proof {
                let pre = email@.subrange(0, i as int);
                let post = email@.subrange(0, i + 1);
                assert(post.drop_last() =~= pre);
                assert(post.last() == email@[i as int]);
                if i >= 1 {
                    assert(post[post.len() - 2] == email@[i - 1]);
                    assert(pre.last() == email@[i - 1]);
                }
            }
            if c == '@' {
                at += 1;
            }
            if c == '.' {
                dots += 1;
            }
            if 'A' <= c && c <= 'Z' {
                upper += 1;
            }
            if crate::lookup::is_dec_digit(c) {
                digits += 1;
            }
            if i >= 1 && c == '.' && email.get_char(i - 1) == '.' {
                pairs += 1;
            }
            i += 1;
        }
        proof {
            assert(email@.subrange(0, n as int) =~= email@);
        }
        let first = email.get_char(0);
        let last = email.get_char(n - 1);
        let f_alpha: i32 = if ('a' <= first && first <= 'z') || ('A' <= first && first <= 'Z') {
            15
        } else {
            0
        };
        let f_edges: i32 = if first != '.' && last != '.' {
            8
        } else {
            0
        };
        10 * (n as i32) + 20 * (at as i32) - 50 * (dots as i32) + f_alpha - 100 * (upper as i32) + 5
            * (digits as i32) + f_edges - 30 * (pairs as i32)
    }

    /// The quick answer pair (definitely invalid, probably valid), read
    /// off the score against the fixed cut-offs. "Probably" decides
    /// nothing; callers must escalate unless they only want a screen.
    pub fn quick_check(&self, email: &str) -> (r: (bool, bool))
        ensures
            r.0 == (spec_score(email@) < -200),
            r.1 == (spec_score(email@) > self.threshold && spec_score(email@) >= -200),
    {
        let score = self.score(email);
        if score < -200 {
            (true, false)
        } else if score > self.threshold {
            (false, true)
        } else {
            (false, false)
        }
    }
}

/// Which bit of the 2048-bit table a position addresses.
pub open spec fn spec_bit(bits: Seq<u64>, idx: int) -> bool {
    ((bits[idx / 64] >> ((idx % 64) as u64)) & 1) == 1
}

/// The DJB2 hash of a byte sequence.
pub open spec fn spec_hash_djb2(bs: Seq<u8>) -> u64
    decreases bs.len(),
{
    if bs.len() == 0 {
        5381
    } else {
        let h = spec_hash_djb2(bs.drop_last());
        vstd::wrapping::u64_specs::wrapping_add(
            vstd::wrapping::u64_specs::wrapping_add(h << 5, h),
            bs.last() as u64,
        )
    }
}

/// The SDBM hash of a byte sequence.
pub open spec fn spec_hash_sdbm(bs: Seq<u8>) -> u64
    decreases bs.len(),
{
    if bs.len() == 0 {
        0
    } else {
        let h = spec_hash_sdbm(bs.drop_last());
        vstd::wrapping::u64_specs::wrapping_sub(
            vstd::wrapping::u64_specs::wrapping_add(
                vstd::wrapping::u64_specs::wrapping_add((bs.last() as u64), h << 6),
                h << 16,
            ),
            h,
        )
    }
}

/// The FNV-1a hash of a byte sequence.
pub open spec fn spec_hash_fnv(bs: Seq<u8>) -> u64
    decreases bs.len(),
{
    if bs.len() == 0 {
        0xcbf29ce484222325
    } else {
        let h = spec_hash_fnv(bs.drop_last());
        vstd::wrapping::u64_specs::wrapping_mul(h ^ (bs.last() as u64), 0x100000001b3)
    }
}

/// A 2048-bit probabilistic membership filter over three hashes: a miss is
/// definite, a hit may be a false positive. The ghost set records what was
/// added, and `might_be_valid` is proved to never miss an added string.
pub struct EmailFilter {
    /// The 2048-bit table, as 32 words.
    pub bits: Vec<u64>,
    /// The strings added so far.
    pub added: Ghost<Set<Seq<char>>>,
}

impl EmailFilter {
    /// The three bit positions addressed by `s`.
    pub open spec fn spec_positions(s: Seq<char>) -> (int, int, int) {
        let bs = vstd::utf8::encode_utf8(s);
        (
            spec_hash_djb2(bs) as int % 2048,
            spec_hash_sdbm(bs) as int % 2048,
            spec_hash_fnv(bs) as int % 2048,
        )
    }

    /// The filter's well-formedness: 32 words, and every added string's
    /// three bits are set.
    pub open spec fn wf(&self) -> bool {
        &&& self.bits@.len() == 32
        &&& forall|s: Seq<char>|
            self.added@.contains(s) ==> {
                let (a, b, c) = #[trigger] Self::spec_positions(s);
                spec_bit(self.bits@, a) && spec_bit(self.bits@, b) && spec_bit(self.bits@, c)
            }
    }

    /// An empty filter.
    pub fn new() -> (r: Self)
        ensures
            r.wf(),
            r.added@ == Set::<Seq<char>>::empty(),
    {
        let mut bits: Vec<u64> = Vec::new();
        let mut i: usize = 0;
        while i < 32
            invariant
                bits@.len() == i,
                i <= 32,
            decreases 32 - i,
        {
            bits.push(0);
            i += 1;
        }
        EmailFilter { bits, added: Ghost(Set::empty()) }
    }

    /// Sets one bit, leaving every other bit as it was.
    fn set_bit(&mut self, idx: usize)
        requires
            idx < 2048,
            old(self).bits@.len() == 32,
        ensures
            final(self).bits@.len() == 32,
            final(self).added == old(self).added,
            spec_bit(final(self).bits@, idx as int),
            forall|j: int| 0 <= j < 2048 && spec_bit(old(self).bits@, j) ==> spec_bit(
                final(self).bits@,
                j,
            ),
    {
        let w = idx / 64;
        let k = (idx % 64) as u64;
        let oldword = self.bits[w];
        let newword = oldword | (1u64 << k);
        self.bits.set(w, newword);
        proof {
            assert(((oldword | (1u64 << k)) >> k) & 1 == 1) by (bit_vector)
                requires
                    k < 64,
            ;
            assert forall|j: int|
                0 <= j < 2048 && spec_bit(old(self).bits@, j) implies spec_bit(
                final(self).bits@,
                j,
            ) by {
                if j / 64 == w {
                    let j2 = (j % 64) as u64;
                    assert(((oldword >> j2) & 1 == 1) ==> (((oldword | (1u64 << k)) >> j2) & 1
                        == 1)) by (bit_vector);
                }
            }
        }
    }

    /// Reads one bit.
    fn get_bit(&self, idx: usize) -> (r: bool)
        requires
            idx < 2048,
            self.bits@.len() == 32,
        ensures
            r == spec_bit(self.bits@, idx as int),
    {
        ((self.bits[idx / 64] >> ((idx % 64) as u64)) & 1) == 1
    }

    /// The three bit positions of `email`, computed from its bytes.
    fn positions(email: &str) -> (r: (usize, usize, usize))
        ensures
            r.0 == Self::spec_positions(email@).0,
            r.1 == Self::spec_positions(email@).1,
            r.2 == Self::spec_positions(email@).2,
            r.0 < 2048 && r.1 < 2048 && r.2 < 2048,
    {
        let h1 = Self::hash1(email);
        let h2 = Self::hash2(email);
        let h3 = Self::hash3(email);
        ((h1 % 2048) as usize, (h2 % 2048) as usize, (h3 % 2048) as usize)
    }

    /// Adds `email` to the filter.
    pub fn add(&mut self, email: &str)
        requires
            old(self).wf(),
        ensures
            final(self).wf(),
            final(self).added@ == old(self).added@.insert(email@),
    {
        let (a, b, c) = Self::positions(email);
        self.set_bit(a);
        self.set_bit(b);
        self.set_bit(c);
        proof {
            self.added@ = self.added@.insert(email@);
        }
    }

    /// Tests `email` against the filter: every added string reports `true`;
    /// an unrelated string may also report `true`, never the reverse.
    pub fn might_be_valid(&self, email: &str) -> (r: bool)
        requires
            self.wf(),
        ensures
            self.added@.contains(email@) ==> r,
    {
        let (a, b, c) = Self::positions(email);
        self.get_bit(a) && self.get_bit(b) && self.get_bit(c)
    }

    /// The DJB2 hash of the bytes of `s`.
    fn hash1(s: &str) -> (r: u64)
        ensures
            r == spec_hash_djb2(vstd::utf8::encode_utf8(s@)),
    {
        let bs = s.as_bytes();
        let mut h: u64 = 5381;
        let mut i: usize = 0;
        while i < bs.len()
            invariant
                i <= bs@.len(),
                bs@ == vstd::utf8::encode_utf8(s@),
                h == spec_hash_djb2(bs@.subrange(0, i as int)),
            decreases bs@.len() - i,
        {
            proof {
                assert(bs@.subrange(0, i + 1).drop_last() =~= bs@.subrange(0, i as int));
                assert(bs@.subrange(0, i + 1).last() == bs@[i as int]);
            }
            h = ((h << 5).wrapping_add(h)).wrapping_add(bs[i] as u64);
            i += 1;
        }
        proof {
            assert(bs@.subrange(0, bs@.len() as int) =~= bs@);
        }
        h
    }

    /// The SDBM hash of the bytes of `s`.
    fn hash2(s: &str) -> (r: u64)
        ensures
            r == spec_hash_sdbm(vstd::utf8::encode_utf8(s@)),
    {
        let bs = s.as_bytes();
        let mut h: u64 = 0;
        let mut i: usize = 0;
        while i < bs.len()
            invariant
                i <= bs@.len(),
                bs@ == vstd::utf8::encode_utf8(s@),
                h == spec_hash_sdbm(bs@.subrange(0, i as int)),
            decreases bs@.len() - i,
        {
            proof {
                assert(bs@.subrange(0, i + 1).drop_last() =~= bs@.subrange(0, i as int));
                assert(bs@.subrange(0, i + 1).last() == bs@[i as int]);
            }
            h = (bs[i] as u64).wrapping_add(h << 6).wrapping_add(h << 16).wrapping_sub(h);
            i += 1;
        }
        proof {
            assert(bs@.subrange(0, bs@.len() as int) =~= bs@);
        }
        h
    }

    /// The FNV-1a hash of the bytes of `s`.
    fn hash3(s: &str) -> (r: u64)
        ensures
            r == spec_hash_fnv(vstd::utf8::encode_utf8(s@)),
    {
        let bs = s.as_bytes();
        let mut h: u64 = 0xcbf29ce484222325;
        let mut i: usize = 0;
        while i < bs.len()
            invariant
                i <= bs@.len(),
                bs@ == vstd::utf8::encode_utf8(s@),
                h == spec_hash_fnv(bs@.subrange(0, i as int)),
            decreases bs@.len() - i,
        {
            proof {
                assert(bs@.subrange(0, i + 1).drop_last() =~= bs@.subrange(0, i as int));
                assert(bs@.subrange(0, i + 1).last() == bs@[i as int]);
            }
            h = (h ^ (bs[i] as u64)).wrapping_mul(0x100000001b3);
            i += 1;
        }
        proof {
            assert(bs@.subrange(0, bs@.len() as int) =~= bs@);
        }
        h
    }
}

/// The pattern language of the run-length matcher: a non-empty run of
/// letter-digit-dot-underscore-hyphen-plus characters, one `@`, then a
/// letter-digit-hyphen-dot run with at least one dot, no doubled dot and no
/// trailing dot. A match is a heuristic screen, not a validation verdict.
pub open spec fn spec_rle_pattern(s: Seq<char>) -> bool {
    &&& 5 <= s.len() <= 254
    &&& 1 <= crate::text::find_char(s, '@') < s.len()
    &&& {
        let p = crate::text::find_char(s, '@');
        let domain = s.subrange(p + 1, s.len() as int);
        &&& forall|k: int| 0 <= k < p ==> spec_rle_local_char(#[trigger] s[k])
        &&& forall|k: int|
            0 <= k < domain.len() ==> crate::lookup::spec_is_domain_char(#[trigger] domain[k])
                || domain[k] == '.'
        &&& domain.contains('.')
        &&& !crate::lookup::spec_has_consecutive_dots(domain)
        &&& s.last() != '.'
    }
}

/// The local character class of the run-length matcher.
pub open spec fn spec_rle_local_char(c: char) -> bool {
    ||| spec_is_alpha(c)
    ||| crate::lookup::spec_is_dec_digit(c)
    ||| c == '.'
    ||| c == '_'
    ||| c == '-'
    ||| c == '+'
}

/// A pattern matcher that screens addresses against the common shape
/// letters-`@`-letters-dots.
pub struct RleValidator;

impl RleValidator {
    /// Reports whether `c` is in the matcher's local character class.
    pub fn is_local_char(c: char) -> (r: bool)
        ensures
            r == spec_rle_local_char(c),
    {
        ('a' <= c && c <= 'z') || ('A' <= c && c <= 'Z') || ('0' <= c && c <= '9') || c == '.' || c
            == '_' || c == '-' || c == '+'
    }

    /// Matches `email` against the pattern language.
    pub fn pattern_match(email: &str) -> (r: bool)
        ensures
            r == spec_rle_pattern(email@),
    {
        let n = email.unicode_len();
        if n < 5 || n > 254 {
            return false;
        }
        let (_, first) = crate::lookup::count_at_swar(email);
        let p = match first {
            Some(p) => p,
            None => {
                proof {
                    crate::text::lemma_find_char(email@, '@');
                }
                return false;
            },
        };
        proof {
            crate::text::lemma_find_char(email@, '@');
        }
        if p == 0 {
            return false;
        }
        let mut i: usize = 0;
        while i < p
            invariant
                i <= p,
                p < n,
                n == email@.len(),
                forall|k: int| 0 <= k < i ==> spec_rle_local_char(#[trigger] email@[k]),
            decreases p - i,
        {
            if !Self::is_local_char(email.get_char(i)) {
                return false;
            }
            i += 1;
        }
        let domain = email.substring_char(p + 1, n);
        let dn = domain.unicode_len();
        let mut j: usize = 0;
        while j < dn
            invariant
                j <= dn,
                dn == domain@.len(),
                domain@ == email@.subrange(p + 1, n as int),
                forall|k: int|
                    0 <= k < j ==> crate::lookup::spec_is_domain_char(#[trigger] domain@[k])
                        || domain@[k] == '.',
            decreases dn - j,
        {
            let c = domain.get_char(j);
            if !(crate::lookup::is_domain_char(c) || c == '.') {
                return false;
            }
            j += 1;
        }
        if !crate::text::str_contains_char(domain, '.') {
            return false;
        }
        if crate::lookup::has_consecutive_dots(domain) {
            return false;
        }
        if email.get_char(n - 1) == '.' {
            return false;
        }
        true
    }
}

/// A cache of precomputed verdicts for frequent addresses. Every stored
/// verdict equals the authoritative validator's, so a hit may be served
/// directly.
pub struct PrecomputedValidator {
    /// The cached addresses and their verdicts.
    pub entries: Vec<(String, bool)>,
}

impl PrecomputedValidator {
    /// Every cached verdict agrees with the validator.
    pub open spec fn wf(&self) -> bool {
        forall|i: int|
            0 <= i < self.entries@.len() ==> (#[trigger] self.entries@[i]).1
                == crate::validator::spec_validate(self.entries@[i].0@, true).is_ok()
    }

    /// A cache preloaded with common local-part and provider-domain pairs,
    /// each verdict computed by the dispatcher.
    pub fn with_common_patterns() -> (r: Self)
        ensures
            r.wf(),
    {
        let locals: Vec<&'static str> = vec!["user", "test", "admin", "info", "support", "contact"];
        let domains: Vec<&'static str> = vec!["gmail.com", "yahoo.com", "hotmail.com", "example.com"];
        let mut entries: Vec<(String, bool)> = Vec::new();
        let mut i: usize = 0;
        while i < locals.len()
            invariant
                forall|k: int|
                    0 <= k < entries@.len() ==> (#[trigger] entries@[k]).1
                        == crate::validator::spec_validate(entries@[k].0@, true).is_ok(),
            decreases locals.len() - i,
        {
            let mut j: usize = 0;
            while j < domains.len()
                invariant
                    forall|k: int|
                        0 <= k < entries@.len() ==> (#[trigger] entries@[k]).1
                            == crate::validator::spec_validate(entries@[k].0@, true).is_ok(),
                decreases domains.len() - j,
            {
                let mut email = String::from_str(locals[i]);
                email.append("@");
                email.append(domains[j]);
                let verdict = crate::is_valid(email.as_str(), true);
                entries.push((email, verdict));
                j += 1;
            }
            i += 1;
        }
        PrecomputedValidator { entries }
    }

    /// Looks `email` up; a hit returns the validator's verdict for it.
    pub fn check(&self, email: &str) -> (r: Option<bool>)
        requires
            self.wf(),
        ensures
            r matches Some(b) ==> b == crate::validator::spec_validate(email@, true).is_ok(),
    {
        let mut i: usize = 0;
        while i < self.entries.len()
            decreases self.entries@.len() - i,
        {
            if crate::text::str_eq(self.entries[i].0.as_str(), email) {
                return Some(self.entries[i].1);
            }
            i += 1;
        }
        None
    }
}

/// Which mechanism produced a verdict.
#[derive(Clone, Copy, PartialEq, Eq, Structural, Debug)]
pub enum ValidationMethod {
    /// The probabilistic membership filter.
    Filter,
    /// The weighted feature scorer.
    Neural,
    /// The full validator.
    Full,
}

} // verus!
