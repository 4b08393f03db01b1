//! Fast paths for common cases. Every tier returns a definite answer only
//! when it has independently verified every invariant the full validator
//! checks for the inputs it covers, and otherwise escalates by returning
//! `None`; `lemma_fast_path_agreement` is the statement that makes a fast
//! accept or reject trustworthy.

use vstd::prelude::*;
use crate::domain::{spec_all_numeric, spec_hostname_error, spec_is_ace_label, spec_plain_domain};
use crate::lazy::ZeroCopyValidator;
use crate::text::{count_char, find_char, split_seq, spec_trim};
use crate::validator::spec_validate;
use vstd::utf8::is_ascii_chars;

verus! {

/// The checks that a scanner accept does not itself establish: the length
/// bounds of both parts and the per-label length, trailing-hyphen and
/// all-numeric rules of the domain.
pub open spec fn spec_fast_extras(s: Seq<char>) -> bool {
    let i = find_char(s, '@');
    let local = s.subrange(0, i);
    let domain = s.subrange(i + 1, s.len() as int);
    let labs = split_seq(domain, '.');
    &&& local.len() <= 64
    &&& domain.len() <= 253
    &&& !spec_all_numeric(labs)
    &&& forall|j: int|
        0 <= j < labs.len() ==> (#[trigger] labs[j]).len() > 0 && labs[j].len() <= 63
            && labs[j].last() != '-'
}

/// Whether the domain part holds an `xn--` label: the fast tier cannot
/// predict what the domain-to-ASCII conversion makes of one, so such an
/// input must go to the full validator.
pub open spec fn spec_fast_escalates(s: Seq<char>) -> bool {
    let i = find_char(s, '@');
    let domain = s.subrange(i + 1, s.len() as int);
    exists|j: int|
        0 <= j < split_seq(domain, '.').len() && spec_is_ace_label(
            #[trigger] split_seq(domain, '.')[j],
        )
}

/// Tier agreement: on any input that the zero-copy scanner accepts and that
/// carries no `xn--` label, the full validator accepts exactly when the
/// explicit length and label checks of `spec_fast_extras` pass — for either
/// setting of the internationalization option. A fast tier that performs
/// those checks after a scanner accept therefore answers exactly as the
/// full validator would.
pub proof fn lemma_fast_path_agreement(s: Seq<char>, allow_smtputf8: bool)
    requires
        crate::lazy::spec_fsm_accepts(s),
        !spec_fast_escalates(s),
    ensures
        spec_trim(s) == s,
        spec_validate(s, allow_smtputf8).is_ok() <==> spec_fast_extras(s),
{
    crate::lazy::lemma_scan_inv(s);
    let i = find_char(s, '@');
    let local = s.subrange(0, i);
    let domain = s.subrange(i + 1, s.len() as int);
    let labs = split_seq(domain, '.');
    assert(local[0] == s[0]);
    assert(domain.last() == s.last());
    crate::lazy::lemma_atext_facts(s[0]);
    crate::lazy::lemma_atext_facts(s.last());
    assert(!crate::text::spec_is_ws(s[0]));
    assert(!crate::text::spec_is_ws(s.last()));
    assert(crate::text::spec_trim_start(s) == s);
    assert(spec_trim(s) == s);
    assert forall|k: int| 0 <= k < local.len() implies '\0' <= #[trigger] local[k]
        <= '\u{7f}' by {
        crate::lazy::lemma_atext_facts(local[k]);
    }
    assert(is_ascii_chars(local));
    vstd::utf8::is_ascii_chars_encode_utf8(local);
    assert forall|k: int| 0 <= k < domain.len() implies '\0' <= #[trigger] domain[k]
        <= '\u{7f}' by {
        crate::lazy::lemma_atext_facts(domain[k]);
    }
    assert(is_ascii_chars(domain));
    vstd::utf8::is_ascii_chars_encode_utf8(domain);
    if local.len() <= 64 {
        crate::syntax::lemma_local_scan_clean(local, allow_smtputf8, 0, false);
        assert forall|j: int| 0 <= j < local.len() implies !(local[j] as u32 > 127
            && crate::syntax::spec_is_unsafe_unicode(#[trigger] local[j])) by {
            assert('\0' <= local[j] <= '\u{7f}');
        }
        assert(crate::syntax::spec_local_error(local, allow_smtputf8) is None);
    } else {
        assert(crate::syntax::spec_local_error(local, allow_smtputf8) == Some(
            crate::error::EmailError::LocalPartTooLong,
        ));
    }
    assert(domain.len() > 0);
    crate::lazy::lemma_atext_facts(domain[0]);
    assert(domain[0] != '[');
    assert(spec_plain_domain(domain));
    crate::domain::lemma_shaped_labels(domain);
    crate::domain::lemma_labels_error_none(labs);
    crate::text::lemma_count_char_exists(domain, '.');
    assert(domain.contains('.'));
    if spec_fast_extras(s) {
        assert forall|j: int| 0 <= j < labs.len() implies spec_label_error_is_none(labs[j]) by {
            assert((#[trigger] labs[j]).len() > 0 && labs[j].len() <= 63 && labs[j].last() != '-');
            assert(labs[j][0] != '-');
            assert(!(exists|k: int|
                0 <= k < labs[j].len() && !crate::lookup::spec_is_domain_char(
                    #[trigger] labs[j][k],
                )));
        }
        assert(spec_hostname_error(domain) is None);
    } else {
        if local.len() <= 64 && domain.len() <= 253 && !spec_all_numeric(labs) {
            assert(exists|j: int|
                0 <= j < labs.len() && !((#[trigger] labs[j]).len() > 0 && labs[j].len() <= 63
                    && labs[j].last() != '-'));
            let j = choose|j: int|
                0 <= j < labs.len() && !((#[trigger] labs[j]).len() > 0 && labs[j].len() <= 63
                    && labs[j].last() != '-');
            assert(crate::domain::spec_label_error(labs[j]) is Some);
            assert(spec_hostname_error(domain) is Some);
        }
    }
}

/// Whether `spec_label_error` finds nothing wrong with `lab`.
pub open spec fn spec_label_error_is_none(lab: Seq<char>) -> bool {
    crate::domain::spec_label_error(lab) is None
}

/// Whether `b` is in the reduced local-part byte set that the narrow fast
/// scan recognizes: letters, digits, dot, hyphen, underscore, plus and `@`.
pub open spec fn spec_is_fast_local_char(b: u8) -> bool {
    ||| 48 <= b <= 57
    ||| 65 <= b <= 90
    ||| 97 <= b <= 122
    ||| b == 46
    ||| b == 45
    ||| b == 95
    ||| b == 43
    ||| b == 64
}

/// Whether `b` is in the reduced domain byte set: letters, digits, dot and
/// hyphen.
pub open spec fn spec_is_fast_domain_char(b: u8) -> bool {
    ||| 48 <= b <= 57
    ||| 65 <= b <= 90
    ||| 97 <= b <= 122
    ||| b == 46
    ||| b == 45
}

/// Byte-level membership test for the reduced local-part set.
pub fn is_fast_local_char(b: u8) -> (r: bool)
    ensures
        r == spec_is_fast_local_char(b),
{
    (48 <= b && b <= 57) || (65 <= b && b <= 90) || (97 <= b && b <= 122) || b == 46 || b == 45
        || b == 95 || b == 43 || b == 64
}

/// Byte-level membership test for the reduced domain set.
pub fn is_fast_domain_char(b: u8) -> (r: bool)
    ensures
        r == spec_is_fast_domain_char(b),
{
    (48 <= b && b <= 57) || (65 <= b && b <= 90) || (97 <= b && b <= 122) || b == 46 || b == 45
}

/// Whether `s` is empty, has a dot at either end, or has two dots in a row.
pub open spec fn spec_has_dot_issues(s: Seq<char>) -> bool {
    ||| s.len() == 0
    ||| s[0] == '.'
    ||| s.last() == '.'
    ||| crate::lookup::spec_has_consecutive_dots(s)
}

/// Reports a leading, trailing or doubled dot in `s`.
pub fn has_dot_issues(s: &str) -> (r: bool)
    ensures
        r == spec_has_dot_issues(s@),
{
    let n = s.unicode_len();
    if n == 0 {
        return true;
    }
    if s.get_char(0) == '.' || s.get_char(n - 1) == '.' {
        return true;
    }
    crate::lookup::has_consecutive_dots(s)
}

/// The cheapest pre-screen: definite rejects for inputs that are empty,
/// lack an `@`, repeat the `@`, or put it at either end. Anything else is
/// handed on unanswered.
pub fn ultra_fast_ascii_check(email: &str) -> (r: Option<bool>)
    ensures
        r matches Some(b) ==> b == spec_validate(email@, true).is_ok() && b == spec_validate(
            email@,
            false,
        ).is_ok(),
{
    let t = crate::text::trim_str(email);
    let n = t.unicode_len();
    if n == 0 {
        return Some(false);
    }
    let (cnt, first) = crate::lookup::count_at_swar(t);
    if cnt == 0 {
        return Some(false);
    }
    if cnt > 1 {
        return Some(false);
    }
    let p = match first {
        Some(p) => p,
        None => {
            return None;
        },
    };
    if p == 0 {
        proof {
            assert(t@.subrange(0, 0) =~= Seq::<char>::empty());
        }
        return Some(false);
    }
    if p == n - 1 {
        proof {
            assert(t@.subrange(n as int, n as int) =~= Seq::<char>::empty());
        }
        return Some(false);
    }
    None
}

/// The scanner-backed length, label and all-numeric checks on the domain
/// part, exactly the domain half of `spec_fast_extras`.
fn domain_extras_ok(domain: &str) -> (r: bool)
    ensures
        r == (domain@.len() <= 253 && !spec_all_numeric(split_seq(domain@, '.')) && (forall|j: int|
            0 <= j < split_seq(domain@, '.').len() ==> (#[trigger] split_seq(domain@, '.')[j]).len()
                > 0 && split_seq(domain@, '.')[j].len() <= 63 && split_seq(domain@, '.')[j].last()
                != '-')),
{
    let n = domain.unicode_len();
    if n > 253 {
        return false;
    }
    let labels = crate::text::split_str(domain, '.');
    let ghost labs = split_seq(domain@, '.');
    let m = labels.len();
    let mut all_numeric = true;
    let mut labels_ok = true;
    let mut i: usize = 0;
    while i < m
        invariant
            i <= m,
            m == labels.len(),
            all_numeric == forall|k: int|
                0 <= k < i ==> crate::domain::spec_all_digits(#[trigger] labs[k]),
            labels_ok == forall|k: int|
                0 <= k < i ==> (#[trigger] labs[k]).len() > 0 && labs[k].len() <= 63
                    && labs[k].last() != '-',
        decreases m - i,
    {
        proof {
            assert(labels.deep_view()[i as int] == labels@[i as int]@);
        }
        let lab = labels[i].as_str();
        let ln = lab.unicode_len();
        let dig = crate::domain::label_all_digits(lab);
        proof {
            if !dig {
                assert(!crate::domain::spec_all_digits(labs[i as int]));
            }
        }
        all_numeric = all_numeric && dig;
        let lab_ok = ln > 0 && ln <= 63 && lab.get_char(ln - 1) != '-';
        proof {
            let ghost li = i as int;
            if !lab_ok {
                assert(!(labs[li].len() > 0 && labs[li].len() <= 63 && labs[li].last() != '-'));
            }
        }
        labels_ok = labels_ok && lab_ok;
        i += 1;
    }
    !all_numeric && labels_ok
}

/// Cached plain-ASCII domains of large mail providers, each one checked at
/// construction to pass the hostname rules, so that a lookup hit may stand
/// in for the per-label scan.
pub fn get_common_domains() -> (r: Vec<&'static str>)
    ensures
        forall|i: int|
            0 <= i < r.len() ==> {
                let d = (#[trigger] r@[i])@;
                &&& spec_hostname_error(d) is None
                &&& spec_plain_domain(d)
                &&& d.len() <= 253
            },
{
    let candidates: Vec<&'static str> = vec![
        "gmail.com",
        "yahoo.com",
        "hotmail.com",
        "outlook.com",
        "icloud.com",
        "protonmail.com",
        "yandex.com",
        "zoho.com",
        "mail.ru",
        "qq.com",
        "163.com",
        "126.com",
        "foxmail.com",
        "live.com",
        "msn.com",
        "aol.com",
        "proton.me",
        "hey.com",
        "fastmail.com",
        "gmx.com",
        "comcast.net",
        "verizon.net",
        "att.net",
        "me.com",
        "mac.com",
        "example.com",
        "test.com",
    ];
    let mut out: Vec<&'static str> = Vec::new();
    let mut i: usize = 0;
    while i < candidates.len()
        invariant
            forall|k: int|
                0 <= k < out.len() ==> {
                    let d = (#[trigger] out@[k])@;
                    &&& spec_hostname_error(d) is None
                    &&& spec_plain_domain(d)
                    &&& d.len() <= 253
                },
        decreases candidates.len() - i,
    {
        let d = candidates[i];
        if crate::domain::is_plain_domain(d) && d.unicode_len() <= 253 {
            if crate::domain::check_hostname(d).is_ok() {
                out.push(d);
            }
        }
        i += 1;
    }
    out
}

/// The ASCII fast path: a definite answer for addresses inside the
/// zero-copy scanner's language, `None` for everything that needs the full
/// validator. The answer, when given, equals the full validator's verdict
/// under either internationalization setting.
pub fn fast_ascii_email_check(email: &str) -> (r: Option<bool>)
    ensures
        r matches Some(b) ==> b == spec_validate(email@, true).is_ok() && b == spec_validate(
            email@,
            false,
        ).is_ok(),
{
    if let Some(b) = ultra_fast_ascii_check(email) {
        return Some(b);
    }
    let t = crate::text::trim_str(email);
    let n = t.unicode_len();
    if !ZeroCopyValidator::validate_no_alloc(t) {
        return None;
    }
    proof {
        crate::lazy::lemma_scan_inv(t@);
    }
    let (cnt, first) = crate::lookup::count_at_swar(t);
    let p = match first {
        Some(p) => p,
        None => {
            return None;
        },
    };
    proof {
        crate::text::lemma_find_char(t@, '@');
    }
    let local = t.substring_char(0, p);
    let domain = t.substring_char(p + 1, n);
    if !crate::domain::is_plain_domain(domain) {
        return None;
    }
    let local_ok = local.unicode_len() <= 64;
    let commons = get_common_domains();
    let mut ci: usize = 0;
    while ci < commons.len()
        decreases commons.len() - ci,
    {
        if crate::text::str_eq(domain, commons[ci]) {
            proof {
                crate::domain::lemma_labels_error_none(split_seq(domain@, '.'));
                lemma_fast_path_agreement(t@, true);
                lemma_fast_path_agreement(t@, false);
                assert(spec_validate(email@, true) == spec_validate(t@, true));
                assert(spec_validate(email@, false) == spec_validate(t@, false));
            }
            return Some(local_ok);
        }
        ci += 1;
    }
    let ok = local_ok && domain_extras_ok(domain);
    proof {
        lemma_fast_path_agreement(t@, true);
        lemma_fast_path_agreement(t@, false);
        assert(spec_validate(email@, true) == spec_validate(t@, true));
        assert(spec_validate(email@, false) == spec_validate(t@, false));
    }
    Some(ok)
}

/// Validates an address with the same simple structural rules at any
/// optimization level: byte-length bounds and exactly one `@` sign.
pub fn const_validate_email(email: &str) -> (r: bool)
    ensures
        r == (3 <= vstd::utf8::encode_utf8(email@).len() <= 254 && count_char(email@, '@') == 1),
{
    let n = email.unicode_len();
    proof {
        crate::text::lemma_encode_utf8_len_ge(email@);
        crate::text::lemma_encode_utf8_len_le(email@);
    }
    if n > 254 {
        return false;
    }
    if email.len() < 3 || email.len() > 254 {
        return false;
    }
    let (cnt, _) = crate::lookup::count_at_swar(email);
    cnt == 1
}

/// Validates a batch of addresses; the result preserves order, one verdict
/// per input, with no interaction between items.
pub fn batch_validate(emails: &[&str]) -> (r: Vec<bool>)
    ensures
        r.len() == emails.len(),
        forall|i: int|
            0 <= i < emails.len() ==> r[i] == spec_validate(#[trigger] emails[i]@, true).is_ok(),
{
    let mut out: Vec<bool> = Vec::new();
    let mut i: usize = 0;
    while i < emails.len()
        invariant
            i <= emails.len(),
            out.len() == i,
            forall|k: int|
                0 <= k < i ==> out[k] == spec_validate(#[trigger] emails[k]@, true).is_ok(),
        decreases emails.len() - i,
    {
        out.push(crate::is_valid(emails[i], true));
        i += 1;
    }
    out
}

} // verus!
