//! The domain validator: IP-literal recognition, label-length and hyphen
//! rules, rejection of all-numeric hostnames, and conversion of
//! internationalized domains to their ASCII-compatible form.

use vstd::prelude::*;
use crate::error::EmailError;
use crate::ip::{spec_ipv4_text, spec_ipv6_text};
use crate::lookup::{spec_is_dec_digit, spec_is_domain_char};
use crate::text::{split_seq, split_str};
use vstd::utf8::encode_utf8;

verus! {

/// What `idna::domain_to_ascii` returns for a given character sequence:
/// the ASCII-compatible form of the domain, or `None` where the conversion
/// fails.
pub uninterp spec fn idna_to_ascii(domain: Seq<char>) -> Option<Seq<char>>;

/// Relies on `idna::domain_to_ascii`, the UTS-46 domain-to-ASCII algorithm:
/// its result depends on the input characters alone, and on success it is an
/// ASCII string.
#[verifier::external_body]
fn domain_to_ascii_checked(domain: &str) -> (r: Option<String>)
    ensures
        r is Some <==> idna_to_ascii(domain@) is Some,
        r matches Some(s) ==> idna_to_ascii(domain@) == Some(s@) && vstd::utf8::is_ascii_chars(s@),
{
    match idna::domain_to_ascii(domain) {
        Ok(s) => Some(s),
        Err(_) => None,
    }
}

/// The first violation of the rules for one domain label, checked in order:
/// emptiness (two dots in a row, or a dot at either end), length, edge
/// hyphens, then the character class.
pub open spec fn spec_label_error(lab: Seq<char>) -> Option<EmailError> {
    if lab.len() == 0 {
        Some(EmailError::ConsecutiveDots)
    } else if lab.len() > 63 {
        Some(EmailError::InvalidDomain)
    } else if lab[0] == '-' || lab.last() == '-' {
        Some(EmailError::InvalidDomain)
    } else if exists|k: int| 0 <= k < lab.len() && !spec_is_domain_char(#[trigger] lab[k]) {
        Some(EmailError::InvalidCharacter)
    } else {
        None
    }
}

/// The first violation among a sequence of labels, in order.
pub open spec fn spec_labels_error(labs: Seq<Seq<char>>) -> Option<EmailError>
    decreases labs.len(),
{
    if labs.len() == 0 {
        None
    } else if spec_label_error(labs[0]) is Some {
        spec_label_error(labs[0])
    } else {
        spec_labels_error(labs.drop_first())
    }
}

/// Whether every character of `lab` is a decimal digit (vacuously true of an
/// empty label).
pub open spec fn spec_all_digits(lab: Seq<char>) -> bool {
    forall|k: int| 0 <= k < lab.len() ==> spec_is_dec_digit(#[trigger] lab[k])
}

/// Whether every label of `labs` is all-digits: such a hostname would be
/// mistaken for a bare IP address.
pub open spec fn spec_all_numeric(labs: Seq<Seq<char>>) -> bool {
    forall|i: int| 0 <= i < labs.len() ==> spec_all_digits(#[trigger] labs[i])
}

/// The checks applied to an ASCII-mapped (or already plain-ASCII) hostname:
/// at least one dot, not all-numeric, then every label in order.
pub open spec fn spec_hostname_error(a: Seq<char>) -> Option<EmailError> {
    if !a.contains('.') {
        Some(EmailError::InvalidDomain)
    } else if spec_all_numeric(split_seq(a, '.')) {
        Some(EmailError::InvalidDomain)
    } else {
        spec_labels_error(split_seq(a, '.'))
    }
}

/// Whether `c` may appear in a domain that is taken as-is, without the
/// domain-to-ASCII conversion: letter, digit, hyphen, or the dot separator.
pub open spec fn spec_plain_char(c: char) -> bool {
    spec_is_domain_char(c) || c == '.'
}

/// Whether `lab` begins with the ASCII-compatible-encoding prefix `xn--` in
/// any letter case. Such a label asks for Punycode decoding, so a domain
/// holding one is never taken as-is.
pub open spec fn spec_is_ace_label(lab: Seq<char>) -> bool {
    &&& lab.len() >= 4
    &&& (lab[0] == 'x' || lab[0] == 'X')
    &&& (lab[1] == 'n' || lab[1] == 'N')
    &&& lab[2] == '-'
    &&& lab[3] == '-'
}

/// Whether `d` is a plain-ASCII domain that the domain-to-ASCII conversion
/// would pass through unchanged: every character a letter, digit, hyphen or
/// dot, and no label carrying the `xn--` prefix.
pub open spec fn spec_plain_domain(d: Seq<char>) -> bool {
    &&& forall|k: int| 0 <= k < d.len() ==> spec_plain_char(#[trigger] d[k])
    &&& forall|i: int|
        0 <= i < split_seq(d, '.').len() ==> !spec_is_ace_label(#[trigger] split_seq(d, '.')[i])
}

/// Whether the bracketed domain `d` is a well-formed IP literal: an IPv6
/// address after an `IPv6:` tag, or an IPv4 address otherwise.
pub open spec fn spec_ip_literal_ok(d: Seq<char>) -> bool {
    let inner = d.subrange(1, d.len() - 1);
    if inner.len() >= 5 && inner[0] == 'I' && inner[1] == 'P' && inner[2] == 'v' && inner[3] == '6'
        && inner[4] == ':' {
        spec_ipv6_text(inner.subrange(5, inner.len() as int))
    } else {
        spec_ipv4_text(inner)
    }
}

/// What domain validation returns for `d`: the ASCII form of the domain, or
/// the first rule violation. A bracketed domain must be an IP literal and is
/// returned unchanged; a plain-ASCII domain is taken as-is; any other domain
/// goes through the domain-to-ASCII conversion before the hostname checks.
pub open spec fn spec_domain_result(d: Seq<char>) -> Result<Seq<char>, EmailError> {
    if d.len() == 0 {
        Err(EmailError::InvalidDomain)
    } else if d[0] == '[' && d.last() == ']' {
        if spec_ip_literal_ok(d) {
            Ok(d)
        } else {
            Err(EmailError::InvalidDomain)
        }
    } else if encode_utf8(d).len() > 253 {
        Err(EmailError::DomainTooLong)
    } else if spec_plain_domain(d) {
        match spec_hostname_error(d) {
            None => Ok(d),
            Some(e) => Err(e),
        }
    } else {
        match idna_to_ascii(d) {
            None => Err(EmailError::InvalidDomain),
            Some(a) => match spec_hostname_error(a) {
                None => Ok(a),
                Some(e) => Err(e),
            },
        }
    }
}

/// A label sequence has no violation exactly when no single label has one.
pub proof fn lemma_labels_error_none(labs: Seq<Seq<char>>)
    ensures
        spec_labels_error(labs) is None <==> forall|j: int|
            0 <= j < labs.len() ==> spec_label_error(#[trigger] labs[j]) is None,
    decreases labs.len(),
{
    if labs.len() > 0 {
        lemma_labels_error_none(labs.drop_first());
        assert(forall|j: int| 0 <= j < labs.drop_first().len() ==> labs.drop_first()[j] == labs[j
            + 1]);
        if spec_label_error(labs[0]) is None && spec_labels_error(labs.drop_first()) is None {
            assert forall|j: int| 0 <= j < labs.len() implies spec_label_error(
                #[trigger] labs[j],
            ) is None by {
                if j > 0 {
                    assert(labs[j] == labs.drop_first()[j - 1]);
                }
            }
        }
    }
}

/// The labels of a well-shaped hostname — no leading dot or hyphen, no
/// trailing dot, letter-digit-hyphen-dot characters, and no dot followed by
/// a dot or hyphen — are all non-empty, start with something other than a
/// hyphen, and hold only letter-digit-hyphen characters.
pub proof fn lemma_shaped_labels(x: Seq<char>)
    requires
        x.len() > 0,
        x[0] != '.',
        x[0] != '-',
        x.last() != '.',
        forall|k: int| 0 <= k < x.len() ==> spec_is_domain_char(#[trigger] x[k]) || x[k] == '.',
        forall|k: int|
            0 <= k && k + 1 < x.len() && #[trigger] x[k] == '.' ==> x[k + 1] != '.' && x[k + 1]
                != '-',
    ensures
        forall|j: int|
            0 <= j < split_seq(x, '.').len() ==> (#[trigger] split_seq(x, '.')[j]).len() > 0
                && split_seq(x, '.')[j][0] != '-',
        forall|j: int, k: int|
            0 <= j < split_seq(x, '.').len() && 0 <= k < split_seq(x, '.')[j].len()
                ==> spec_is_domain_char(#[trigger] split_seq(x, '.')[j][k]),
    decreases x.len(),
{
    crate::text::lemma_find_char(x, '.');
    let fi = crate::text::find_char(x, '.');
    if fi == -1 {
        crate::text::lemma_split_no_sep(x, '.');
        assert(split_seq(x, '.') =~~= seq![x]);
        assert(split_seq(x, '.')[0] == x);
    } else {
        assert(0 < fi) by {
            assert(x[0] != '.');
        }
        assert(fi < x.len() - 1) by {
            if fi == x.len() - 1 {
                assert(x.last() == '.');
            }
        }
        crate::text::lemma_split_at_first_sep(x, '.', fi);
        let head = x.subrange(0, fi);
        let rest = x.subrange(fi + 1, x.len() as int);
        assert(rest[0] == x[fi + 1]);
        assert(rest[0] != '.' && rest[0] != '-');
        assert(rest.last() == x.last());
        assert forall|k: int| 0 <= k < rest.len() implies spec_is_domain_char(#[trigger] rest[k])
            || rest[k] == '.' by {
            assert(rest[k] == x[k + fi + 1]);
        }
        assert forall|k: int|
            0 <= k && k + 1 < rest.len() && #[trigger] rest[k] == '.' implies rest[k + 1] != '.'
            && rest[k + 1] != '-' by {
            assert(rest[k] == x[k + fi + 1]);
            assert(rest[k + 1] == x[k + fi + 2]);
        }
        lemma_shaped_labels(rest);
        let parts = split_seq(x, '.');
        let rparts = split_seq(rest, '.');
        assert(parts =~~= seq![head] + rparts);
        assert(parts[0] == head);
        assert(head.len() > 0 && head[0] == x[0]);
        assert forall|k: int| 0 <= k < head.len() implies spec_is_domain_char(
            #[trigger] head[k],
        ) by {
            assert(head[k] == x[k]);
        }
        assert forall|j: int|
            0 <= j < parts.len() implies (#[trigger] parts[j]).len() > 0 && parts[j][0] != '-' by {
            if j > 0 {
                assert(parts[j] == rparts[j - 1]);
            }
        }
        assert forall|j: int, k: int|
            0 <= j < parts.len() && 0 <= k < parts[j].len() implies spec_is_domain_char(
            #[trigger] parts[j][k],
        ) by {
            if j > 0 {
                assert(parts[j] == rparts[j - 1]);
            }
        }
    }
}

/// Validates one dot-separated domain label.
pub fn validate_domain_label(label: &str) -> (r: Result<(), EmailError>)
    ensures
        match r {
            Ok(_) => spec_label_error(label@) is None,
            Err(e) => spec_label_error(label@) == Some(e),
        },
{
    let n = label.unicode_len();
    if n == 0 {
        return Err(EmailError::ConsecutiveDots);
    }
    if n > 63 {
        return Err(EmailError::InvalidDomain);
    }
    if label.get_char(0) == '-' || label.get_char(n - 1) == '-' {
        return Err(EmailError::InvalidDomain);
    }
    let mut i: usize = 0;
    while i < n
        invariant
            i <= n,
            forall|k: int| 0 <= k < i ==> spec_is_domain_char(#[trigger] label@[k]),
        decreases n - i,
    {
        if !crate::lookup::is_domain_char(label.get_char(i)) {
            return Err(EmailError::InvalidCharacter);
        }
        i += 1;
    }
    Ok(())
}

/// Reports whether every character of `lab` is a decimal digit.
pub(crate) fn label_all_digits(lab: &str) -> (r: bool)
    ensures
        r == spec_all_digits(lab@),
{
    let n = lab.unicode_len();
    let mut i: usize = 0;
    while i < n
        invariant
            i <= n,
            forall|k: int| 0 <= k < i ==> spec_is_dec_digit(#[trigger] lab@[k]),
        decreases n - i,
    {
        if !crate::lookup::is_dec_digit(lab.get_char(i)) {
            return false;
        }
        i += 1;
    }
    true
}

/// Runs the hostname checks on an ASCII-mapped domain.
pub(crate) fn check_hostname(a: &str) -> (r: Result<(), EmailError>)
    ensures
        match r {
            Ok(_) => spec_hostname_error(a@) is None,
            Err(e) => spec_hostname_error(a@) == Some(e),
        },
{
    if !crate::text::str_contains_char(a, '.') {
        return Err(EmailError::InvalidDomain);
    }
    let labels = split_str(a, '.');
    let ghost labs = split_seq(a@, '.');
    let m = labels.len();
    let mut all_numeric = true;
    let mut i: usize = 0;
    while i < m
        invariant
            i <= m,
            m == labels.len(),
            all_numeric == forall|k: int| 0 <= k < i ==> spec_all_digits(#[trigger] labs[k]),
        decreases m - i,
    {
        proof {
            assert(labels.deep_view()[i as int] == labels@[i as int]@);
        }
        let dig = label_all_digits(labels[i].as_str());
        proof {
            if !dig {
                assert(!spec_all_digits(labs[i as int]));
            }
        }
        all_numeric = all_numeric && dig;
        i += 1;
    }
    if all_numeric {
        return Err(EmailError::InvalidDomain);
    }
    proof {
        assert(!spec_all_numeric(labs));
        assert(labs.skip(0) =~~= labs);
    }
    let mut j: usize = 0;
    while j < m
        invariant
            j <= m,
            m == labels.len(),
            spec_labels_error(labs.skip(j as int)) == spec_labels_error(labs),
            forall|k: int| 0 <= k < j ==> spec_label_error(#[trigger] labs[k]) is None,
        decreases m - j,
    {
        proof {
            assert(labels.deep_view()[j as int] == labels@[j as int]@);
            assert(labs.skip(j as int)[0] == labs[j as int]);
            assert(labs.skip(j as int).drop_first() =~~= labs.skip(j + 1));
        }
        match validate_domain_label(labels[j].as_str()) {
            Ok(_) => {},
            Err(e) => {
                return Err(e);
            },
        }
        j += 1;
    }
    proof {
        assert(labs.skip(m as int) =~~= Seq::<Seq<char>>::empty());
    }
    Ok(())
}

/// Reports whether `d` is a plain-ASCII domain in the sense of
/// `spec_plain_domain`.
pub(crate) fn is_plain_domain(d: &str) -> (r: bool)
    ensures
        r == spec_plain_domain(d@),
{
    let n = d.unicode_len();
    let mut i: usize = 0;
    while i < n
        invariant
            i <= n,
            forall|k: int| 0 <= k < i ==> spec_plain_char(#[trigger] d@[k]),
        decreases n - i,
    {
        let c = d.get_char(i);
        if !(crate::lookup::is_domain_char(c) || c == '.') {
            return false;
        }
        i += 1;
    }
    let labels = split_str(d, '.');
    let ghost labs = split_seq(d@, '.');
    let m = labels.len();
    let mut j: usize = 0;
    while j < m
        invariant
            j <= m,
            m == labels.len(),
            forall|k: int| 0 <= k < j ==> !spec_is_ace_label(#[trigger] labs[k]),
        decreases m - j,
    {
        proof {
            assert(labels.deep_view()[j as int] == labels@[j as int]@);
        }
        let lab = labels[j].as_str();
        let ln = lab.unicode_len();
        if ln >= 4 {
            let c0 = lab.get_char(0);
            let c1 = lab.get_char(1);
            if (c0 == 'x' || c0 == 'X') && (c1 == 'n' || c1 == 'N') && lab.get_char(2) == '-'
                && lab.get_char(3) == '-' {
                return false;
            }
        }
        j += 1;
    }
    true
}

/// Validates a bracketed IP-literal domain and returns it unchanged.
fn validate_ip_literal(domain: &str) -> (r: Result<String, EmailError>)
    requires
        domain@.len() >= 1,
        domain@[0] == '[',
        domain@.last() == ']',
    ensures
        match r {
            Ok(s) => spec_ip_literal_ok(domain@) && s@ == domain@,
            Err(e) => !spec_ip_literal_ok(domain@) && e == EmailError::InvalidDomain,
        },
{
    let n = domain.unicode_len();
    let inner = domain.substring_char(1, n - 1);
    let m = inner.unicode_len();
    let ok = if m >= 5 && inner.get_char(0) == 'I' && inner.get_char(1) == 'P' && inner.get_char(2)
        == 'v' && inner.get_char(3) == '6' && inner.get_char(4) == ':' {
        let rest = inner.substring_char(5, m);
        proof {
            assert(rest@ =~= domain@.subrange(1, n - 1).subrange(5, m as int));
        }
        crate::ip::is_ipv6_text(rest)
    } else {
        crate::ip::is_ipv4_text(inner)
    };
    if ok {
        Ok(domain.to_owned())
    } else {
        Err(EmailError::InvalidDomain)
    }
}

/// Validates the domain part (after `@`) of an email address and returns
/// its ASCII form: the literal itself for a bracketed IP literal, the domain
/// unchanged when it is plain ASCII, and the ASCII-compatible conversion
/// otherwise. The form returned satisfies the hostname rules, so callers
/// may lower-case it for the canonical form without further validation.
pub fn validate_domain(domain: &str) -> (r: Result<String, EmailError>)
    ensures
        match r {
            Ok(s) => spec_domain_result(domain@) == Ok::<Seq<char>, EmailError>(s@),
            Err(e) => spec_domain_result(domain@) == Err::<Seq<char>, EmailError>(e),
        },
{
    let n = domain.unicode_len();
    if n == 0 {
        return Err(EmailError::InvalidDomain);
    }
    if domain.get_char(0) == '[' && domain.get_char(n - 1) == ']' {
        return validate_ip_literal(domain);
    }
    proof {
        crate::text::lemma_encode_utf8_len_ge(domain@);
        crate::text::lemma_encode_utf8_len_le(domain@);
    }
    if n > 253 {
        return Err(EmailError::DomainTooLong);
    }
    if domain.len() > 253 {
        return Err(EmailError::DomainTooLong);
    }
    if is_plain_domain(domain) {
        match check_hostname(domain) {
            Ok(_) => Ok(domain.to_owned()),
            Err(e) => Err(e),
        }
    } else {
        match domain_to_ascii_checked(domain) {
            None => Err(EmailError::InvalidDomain),
            Some(a) => match check_hostname(a.as_str()) {
                Ok(_) => Ok(a),
                Err(e) => Err(e),
            },
        }
    }
}

} // verus!
