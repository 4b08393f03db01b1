//! Zero-copy validation: a single-pass state machine over the characters of
//! an address, with no allocation. The scanner accepts a restricted
//! ASCII-only language; `lemma_scan_inv` states what a non-rejecting scan
//! guarantees about the input, which is what lets a fast tier trust an
//! accept without re-running the full validator.

use vstd::prelude::*;
use crate::lookup::{spec_is_atext, spec_is_domain_char};
use crate::text::{count_char, find_char};
use vstd::utf8::encode_utf8;

verus! {

/// The states of the single-pass scanner.
#[derive(Clone, Copy, PartialEq, Eq, Structural, Debug)]
pub enum ScanState {
    /// Before the first character of the local part.
    LocalStart,
    /// Inside the local part, last character not a dot.
    Local,
    /// Inside the local part, right after a dot.
    LocalDot,
    /// Right after the `@`.
    DomainStart,
    /// Inside the domain, last character not a dot.
    Domain,
    /// Inside the domain, right after a dot.
    DomainDot,
    /// The input is outside the scanner's language.
    Reject,
}

/// One scanner transition: the state after reading `c` in state `st`.
/// Local characters are *atext*; domain characters are letter, digit or
/// hyphen; a dot may not follow the start of either part, another dot, or
/// the `@`; a hyphen may not start a domain label.
pub open spec fn spec_scan_step(st: ScanState, c: char) -> ScanState {
    match st {
        ScanState::LocalStart => if spec_is_atext(c) {
            ScanState::Local
        } else {
            ScanState::Reject
        },
        ScanState::Local => if c == '@' {
            ScanState::DomainStart
        } else if c == '.' {
            ScanState::LocalDot
        } else if spec_is_atext(c) {
            ScanState::Local
        } else {
            ScanState::Reject
        },
        ScanState::LocalDot => if spec_is_atext(c) {
            ScanState::Local
        } else {
            ScanState::Reject
        },
        ScanState::DomainStart => if spec_is_domain_char(c) && c != '-' {
            ScanState::Domain
        } else {
            ScanState::Reject
        },
        ScanState::Domain => if c == '.' {
            ScanState::DomainDot
        } else if spec_is_domain_char(c) {
            ScanState::Domain
        } else {
            ScanState::Reject
        },
        ScanState::DomainDot => if spec_is_domain_char(c) && c != '-' {
            ScanState::Domain
        } else {
            ScanState::Reject
        },
        ScanState::Reject => ScanState::Reject,
    }
}

/// The scanner folded over `s`: the final state and the number of dots read
/// in the domain part.
pub open spec fn spec_scan(s: Seq<char>) -> (ScanState, nat)
    decreases s.len(),
{
    if s.len() == 0 {
        (ScanState::LocalStart, 0nat)
    } else {
        let prev = spec_scan(s.drop_last());
        let st = spec_scan_step(prev.0, s.last());
        let d = if prev.0 == ScanState::Domain && s.last() == '.' {
            (prev.1 + 1) as nat
        } else {
            prev.1
        };
        (st, d)
    }
}

/// Whether the scanner accepts `s`: between 3 and 254 bytes, the scan ends
/// in `Domain`, and at least one dot was read in the domain part.
pub open spec fn spec_fsm_accepts(s: Seq<char>) -> bool {
    &&& 3 <= encode_utf8(s).len() <= 254
    &&& spec_scan(s).0 == ScanState::Domain
    &&& spec_scan(s).1 >= 1
}

/// The well-formedness that a scan guarantees of the local part read so
/// far: non-empty, *atext* characters separated by single interior dots.
pub open spec fn spec_local_shape(l: Seq<char>) -> bool {
    &&& l.len() > 0
    &&& l[0] != '.'
    &&& l.last() != '.'
    &&& forall|k: int| 0 <= k < l.len() ==> spec_is_atext(#[trigger] l[k]) || l[k] == '.'
    &&& forall|k: int| 0 <= k && k + 1 < l.len() ==> !(#[trigger] l[k] == '.' && l[k + 1] == '.')
}

/// The well-formedness that a scan guarantees of the domain part read so
/// far: letter-digit-hyphen characters and dots, no leading dot or hyphen,
/// and no dot followed by a dot or hyphen.
pub open spec fn spec_domain_shape(x: Seq<char>) -> bool {
    &&& forall|k: int|
        0 <= k < x.len() ==> spec_is_domain_char(#[trigger] x[k]) || x[k] == '.'
    &&& x.len() > 0 ==> x[0] != '.' && x[0] != '-'
    &&& forall|k: int|
        0 <= k && k + 1 < x.len() && #[trigger] x[k] == '.' ==> x[k + 1] != '.' && x[k + 1] != '-'
}

/// What each non-reject scanner state says about the prefix `p` read so
/// far, with `d` the domain dot count.
pub open spec fn spec_scan_inv(p: Seq<char>, st: ScanState, d: nat) -> bool {
    match st {
        ScanState::LocalStart => p.len() == 0 && d == 0,
        ScanState::Local => {
            &&& count_char(p, '@') == 0
            &&& spec_local_shape(p)
            &&& p.last() != '.'
            &&& d == 0
        },
        ScanState::LocalDot => {
            &&& count_char(p, '@') == 0
            &&& p.len() > 0
            &&& p[0] != '.'
            &&& p.last() == '.'
            &&& forall|k: int| 0 <= k < p.len() ==> spec_is_atext(#[trigger] p[k]) || p[k] == '.'
            &&& forall|k: int|
                0 <= k && k + 1 < p.len() ==> !(#[trigger] p[k] == '.' && p[k + 1] == '.')
            &&& d == 0
        },
        ScanState::DomainStart | ScanState::Domain | ScanState::DomainDot => {
            &&& count_char(p, '@') == 1
            &&& 0 <= find_char(p, '@') < p.len()
            &&& spec_local_shape(p.subrange(0, find_char(p, '@')))
            &&& spec_domain_shape(p.subrange(find_char(p, '@') + 1, p.len() as int))
            &&& d == count_char(p.subrange(find_char(p, '@') + 1, p.len() as int), '.')
            &&& (st == ScanState::DomainStart <==> find_char(p, '@') == p.len() - 1)
            &&& (st == ScanState::Domain ==> find_char(p, '@') < p.len() - 1 && p.last() != '.')
            &&& (st == ScanState::DomainDot ==> find_char(p, '@') < p.len() - 1 && p.last() == '.')
        },
        ScanState::Reject => true,
    }
}

/// An *atext* character is ASCII and is none of `@`, dot or whitespace.
pub proof fn lemma_atext_facts(c: char)
    ensures
        spec_is_atext(c) ==> c as u32 >= 33 && c as u32 <= 126 && c != '@' && c != '.'
            && !crate::text::spec_is_ws(c),
        spec_is_domain_char(c) ==> c as u32 >= 45 && c as u32 <= 122 && c != '@' && c != '.' && c
            != '[' && !crate::text::spec_is_ws(c),
{
}

/// The scan invariant holds of every prefix: what the scanner's state says
/// about the characters read so far is true of them.
pub proof fn lemma_scan_inv(s: Seq<char>)
    ensures
        spec_scan_inv(s, spec_scan(s).0, spec_scan(s).1),
    decreases s.len(),
{
    if s.len() > 0 {
        let p = s.drop_last();
        let c = s.last();
        lemma_scan_inv(p);
        let prev = spec_scan(p);
        let cur = spec_scan(s);
        lemma_atext_facts(c);
        match prev.0 {
            ScanState::LocalStart => {
                if spec_is_atext(c) {
                    assert(s =~= seq![c]);
                    crate::text::lemma_count_none(s, '@');
                }
                assert(spec_scan_inv(s, cur.0, cur.1));
            },
            ScanState::Local => {
                if c == '@' {
                    crate::text::lemma_count_char_step(s, '@', s.len() - 1);
                    assert(s.subrange(0, s.len() - 1) =~= p);
                    assert forall|k: int| 0 <= k < s.len() - 1 implies s[k] != '@' by {
                        if s[k] == '@' {
                            crate::text::lemma_count_char_lb(p, '@', k);
                        }
                    }
                    crate::text::lemma_find_char_is(s, '@', s.len() - 1);
                    assert(s.subrange(s.len() as int, s.len() as int) =~= Seq::<char>::empty());
                    crate::text::lemma_count_none(Seq::<char>::empty(), '.');
                } else if c == '.' || spec_is_atext(c) {
                    crate::text::lemma_count_char_step(s, '@', s.len() - 1);
                    assert(s.subrange(0, s.len() - 1) =~= p);
                    assert(forall|k: int| 0 <= k < p.len() ==> s[k] == p[k]);
                }
                assert(spec_scan_inv(s, cur.0, cur.1));
            },
            ScanState::LocalDot => {
                if spec_is_atext(c) {
                    crate::text::lemma_count_char_step(s, '@', s.len() - 1);
                    assert(s.subrange(0, s.len() - 1) =~= p);
                    assert(forall|k: int| 0 <= k < p.len() ==> s[k] == p[k]);
                }
                assert(spec_scan_inv(s, cur.0, cur.1));
            },
            ScanState::DomainStart | ScanState::Domain | ScanState::DomainDot => {
                let keep = match prev.0 {
                    ScanState::DomainStart => spec_is_domain_char(c) && c != '-',
                    ScanState::Domain => c == '.' || spec_is_domain_char(c),
                    _ => spec_is_domain_char(c) && c != '-',
                };
                if keep {
                    let i = find_char(p, '@');
                    crate::text::lemma_count_char_step(s, '@', s.len() - 1);
                    assert(s.subrange(0, s.len() - 1) =~= p);
                    assert(forall|k: int| 0 <= k < p.len() ==> s[k] == p[k]);
                    crate::text::lemma_find_char(p, '@');
                    crate::text::lemma_find_char_is(s, '@', i);
                    assert(s.subrange(0, i) =~= p.subrange(0, i));
                    let xp = p.subrange(i + 1, p.len() as int);
                    let xs = s.subrange(i + 1, s.len() as int);
                    assert(xs.drop_last() =~= xp);
                    assert(xs.last() == c);
                    crate::text::lemma_count_char_step(xs, '.', xs.len() - 1);
                    assert(xs.subrange(0, xs.len() - 1) =~= xp);
                    if xs.len() > 1 {
                        assert(xs[xs.len() - 2] == xp.last());
                    }
                    assert forall|k: int| 0 <= k < xs.len() - 1 implies xs[k] == xp[k] by {}
                    assert(xs[xs.len() - 1] == c);
                    assert forall|k: int|
                        0 <= k < xs.len() implies spec_is_domain_char(#[trigger] xs[k]) || xs[k]
                        == '.' by {
                        if k < xs.len() - 1 {
                            assert(spec_is_domain_char(xp[k]) || xp[k] == '.');
                        }
                    }
                    assert forall|k: int|
                        0 <= k && k + 1 < xs.len() && #[trigger] xs[k] == '.' implies xs[k + 1]
                        != '.' && xs[k + 1] != '-' by {
                        if k + 1 < xs.len() - 1 {
                            assert(xp[k] == '.' && k + 1 < xp.len());
                        } else {
                            assert(xs[k] == xp.last());
                        }
                    }
                    assert(count_char(s, '@') == 1);
                    assert(find_char(s, '@') == i);
                    assert(spec_local_shape(s.subrange(0, i)));
                    assert(spec_domain_shape(xs));
                    assert(cur.1 == count_char(xs, '.'));
                    assert(cur.0 == ScanState::Domain || cur.0 == ScanState::DomainDot);
                    assert(i < s.len() - 1);
                    assert(cur.0 == ScanState::Domain ==> s.last() != '.');
                    assert(cur.0 == ScanState::DomainDot ==> s.last() == '.');
                }
                assert(spec_scan_inv(s, cur.0, cur.1));
            },
            ScanState::Reject => {},
        }
    }
}

/// A zero-copy email scanner: validates without creating intermediate
/// strings.
pub struct ZeroCopyValidator;

impl ZeroCopyValidator {
    /// Reports whether `c` is a local-part character for the scanner:
    /// *atext*, with dots handled by the state machine.
    pub fn is_local_char(c: char) -> (r: bool)
        ensures
            r == spec_is_atext(c),
    {
        crate::lookup::is_atext_char(c)
    }

    /// Reports whether `c` is a domain character for the scanner.
    pub fn is_domain_char(c: char) -> (r: bool)
        ensures
            r == spec_is_domain_char(c),
    {
        crate::lookup::is_domain_char(c)
    }

    /// Runs the scanner over `email` without allocating.
    ///
    /// An accept means the input lies in the scanner's restricted
    /// ASCII-only language; `lemma_scan_shape` in this module and
    /// `lemma_fast_path_agreement` in `fastpath` say when an accept may be
    /// trusted as a validation verdict. A reject says nothing by itself:
    /// internationalized addresses and IP-literal domains are outside the
    /// scanner's language and must go to the full validator.
    pub fn validate_no_alloc(email: &str) -> (r: bool)
        ensures
            r == spec_fsm_accepts(email@),
    {
        let n = email.unicode_len();
        proof {
            crate::text::lemma_encode_utf8_len_ge(email@);
            crate::text::lemma_encode_utf8_len_le(email@);
        }
        if n > 254 {
            return false;
        }
        if email.len() < 3 || email.len() > 254 {
            return false;
        }
        let mut st = ScanState::LocalStart;
        let mut at_count: usize = 0;
        let mut dot_count: usize = 0;
        let mut i: usize = 0;
        while i < n
            invariant
                i <= n,
                n == email@.len(),
                st == spec_scan(email@.subrange(0, i as int)).0,
                dot_count == spec_scan(email@.subrange(0, i as int)).1,
                at_count == count_char(email@.subrange(0, i as int), '@'),
                dot_count <= i,
                at_count <= i,
            decreases n - i,
        {
            let c = email.get_char(i);
            proof {
                let pre = email@.subrange(0, i as int);
                let post = email@.subrange(0, i + 1);
                assert(post.drop_last() =~= pre);
                assert(post.last() == email@[i as int]);
                crate::text::lemma_count_char_step(email@, '@', i as int);
            }
            let next = match st {
                ScanState::LocalStart => {
                    if Self::is_local_char(c) {
                        ScanState::Local
                    } else {
                        ScanState::Reject
                    }
                },
                ScanState::Local => {
                    if c == '@' {
                        ScanState::DomainStart
                    } else if c == '.' {
                        ScanState::LocalDot
                    } else if Self::is_local_char(c) {
                        ScanState::Local
                    } else {
                        ScanState::Reject
                    }
                },
                ScanState::LocalDot => {
                    if Self::is_local_char(c) {
                        ScanState::Local
                    } else {
                        ScanState::Reject
                    }
                },
                ScanState::DomainStart => {
                    if Self::is_domain_char(c) && c != '-' {
                        ScanState::Domain
                    } else {
                        ScanState::Reject
                    }
                },
                ScanState::Domain => {
                    if c == '.' {
                        ScanState::DomainDot
                    } else if Self::is_domain_char(c) {
                        ScanState::Domain
                    } else {
                        ScanState::Reject
                    }
                },
                ScanState::DomainDot => {
                    if Self::is_domain_char(c) && c != '-' {
                        ScanState::Domain
                    } else {
                        ScanState::Reject
                    }
                },
                ScanState::Reject => ScanState::Reject,
            };
            if matches!(st, ScanState::Domain) && c == '.' {
                dot_count += 1;
            }
            if c == '@' {
                at_count += 1;
            }
            st = next;
            i += 1;
        }
        proof {
            assert(email@.subrange(0, n as int) =~= email@);
            lemma_scan_inv(email@);
        }
        matches!(st, ScanState::Domain) && at_count == 1 && dot_count >= 1
    }
}

} // verus!

verus! {

/// A zero-allocation view of an address already known to hold an `@`: the
/// original string together with the position of that `@`, from which both
/// parts can be read without copying.
pub struct LazyEmailView {
    /// The full address.
    pub original: String,
    /// The position (in characters) of the `@` separator.
    pub at_pos: usize,
    /// Whether the local part needs the SMTPUTF8 extension.
    pub smtputf8: bool,
}

impl LazyEmailView {
    /// Whether the recorded position really points at an `@` inside the
    /// string; every accessor relies on it.
    pub open spec fn wf(&self) -> bool {
        self.at_pos < self.original@.len() && self.original@[self.at_pos as int] == '@'
    }

    /// Wraps an address whose `@` position is already known.
    pub fn new(original: String, at_pos: usize, smtputf8: bool) -> (r: Self)
        requires
            at_pos < original@.len(),
            original@[at_pos as int] == '@',
        ensures
            r.wf(),
            r.original@ == original@,
            r.at_pos == at_pos,
            r.smtputf8 == smtputf8,
    {
        LazyEmailView { original, at_pos, smtputf8 }
    }

    /// The part before the `@`, borrowed from the original.
    pub fn local_part(&self) -> (r: &str)
        requires
            self.wf(),
        ensures
            r@ == self.original@.subrange(0, self.at_pos as int),
    {
        self.original.as_str().substring_char(0, self.at_pos)
    }

    /// The part after the `@`, borrowed from the original.
    pub fn domain(&self) -> (r: &str)
        requires
            self.wf(),
        ensures
            r@ == self.original@.subrange(self.at_pos + 1, self.original@.len() as int),
    {
        let n = self.original.as_str().unicode_len();
        self.original.as_str().substring_char(self.at_pos + 1, n)
    }

    /// The ASCII-lower-cased form of the whole address, computed on demand.
    pub fn normalized(&self) -> (r: String)
        requires
            self.wf(),
        ensures
            r@ == crate::text::spec_lower(self.original@.subrange(0, self.at_pos as int)) + seq![
                '@',
            ] + crate::text::spec_lower(
                self.original@.subrange(self.at_pos + 1, self.original@.len() as int),
            ),
    {
        let local = self.local_part();
        let domain = self.domain();
        let mut out = crate::text::ascii_lower_str(local);
        out.append("@");
        let lower_domain = crate::text::ascii_lower_str(domain);
        out.append(lower_domain.as_str());
        proof {
            reveal_strlit("@");
            assert("@"@ =~= seq!['@']);
        }
        out
    }

    /// The ASCII-lower-cased domain, computed on demand.
    pub fn ascii_domain(&self) -> (r: String)
        requires
            self.wf(),
        ensures
            r@ == crate::text::spec_lower(
                self.original@.subrange(self.at_pos + 1, self.original@.len() as int),
            ),
    {
        crate::text::ascii_lower_str(self.domain())
    }

    /// The address as given.
    pub fn original(&self) -> (r: &str)
        ensures
            r@ == self.original@,
    {
        self.original.as_str()
    }

    /// Whether the local part needs the SMTPUTF8 extension.
    pub fn smtputf8(&self) -> (r: bool)
        ensures
            r == self.smtputf8,
    {
        self.smtputf8
    }
}

/// A reusable byte buffer for building strings without repeated
/// allocation.
pub struct StringPool {
    /// The reusable buffer.
    pub buffer: Vec<u8>,
}

impl StringPool {
    /// An empty pool.
    pub fn new() -> (r: Self)
        ensures
            r.buffer@.len() == 0,
    {
        StringPool { buffer: Vec::new() }
    }

    /// Hands out an empty string, clearing the pooled buffer for reuse;
    /// `capacity` is an allocation hint only.
    pub fn get_string(&mut self, capacity: usize) -> (r: String)
        ensures
            r@ =~= Seq::<char>::empty(),
            final(self).buffer@.len() == 0,
    {
        let _hint = capacity;
        self.buffer.clear();
        String::new()
    }
}

/// Validation with as few branches as the structure allows: only the
/// length bounds and the position of a single `@` are checked.
pub struct BranchlessValidator;

impl BranchlessValidator {
    /// Reports whether `email` is 3 to 254 bytes long with exactly one
    /// `@`, not at either end. This is the whole check: a pass is a screen,
    /// not a validation verdict.
    pub fn is_valid_branchless(email: &str) -> (r: bool)
        ensures
            r == (3 <= encode_utf8(email@).len() <= 254 && count_char(email@, '@') == 1 && 1
                <= find_char(email@, '@') < email@.len() - 1),
    {
        let n = email.unicode_len();
        proof {
            crate::text::lemma_encode_utf8_len_ge(email@);
            crate::text::lemma_encode_utf8_len_le(email@);
        }
        if n > 254 {
            return false;
        }
        if email.len() < 3 || email.len() > 254 {
            return false;
        }
        let (cnt, first) = crate::lookup::count_at_swar(email);
        if cnt != 1 {
            return false;
        }
        let p = match first {
            Some(p) => p,
            None => {
                return false;
            },
        };
        proof {
            crate::text::lemma_find_char(email@, '@');
        }
        p >= 1 && p < n - 1
    }
}

} // verus!
