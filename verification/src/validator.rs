//! The structural validator: trims the input, enforces exactly one `@`,
//! delegates to the local-part and domain validators, and builds the
//! normalized, canonical result.

use vstd::prelude::*;
use crate::error::EmailError;
use crate::syntax::spec_local_error;
use crate::domain::spec_domain_result;
use crate::text::{count_char, find_char, spec_lower, spec_trim};
use unicode_normalization::UnicodeNormalization;
use vstd::utf8::is_ascii_chars;

verus! {

broadcast use vstd::utf8::char_u32_cast;

/// What canonical composition (Unicode NFC) returns for a given character
/// sequence.
pub uninterp spec fn nfc_of(s: Seq<char>) -> Seq<char>;

/// Relies on `unicode_normalization::UnicodeNormalization::nfc`: canonical
/// composition, a function of the input characters alone.
#[verifier::external_body]
fn nfc_str(s: &str) -> (r: String)
    ensures
        r@ == nfc_of(s@),
{
    s.nfc().collect()
}

/// The mathematical content of a `ValidatedEmail`: every field as a
/// character sequence.
#[verifier::ext_equal]
pub struct EmailModel {
    pub original: Seq<char>,
    pub local_part: Seq<char>,
    pub domain: Seq<char>,
    pub normalized: Seq<char>,
    pub ascii_domain: Seq<char>,
    pub smtputf8: bool,
}

/// A successfully validated email address.
///
/// `normalized` is the case-normalized local part joined by `@` with the
/// lower-cased `ascii_domain`; `ascii_domain` is pure ASCII even when
/// `domain` was internationalized; `smtputf8` holds exactly when the local
/// part contains a non-ASCII character.
#[derive(Clone, Debug)]
pub struct ValidatedEmail {
    pub original: String,
    pub local_part: String,
    pub domain: String,
    pub normalized: String,
    pub ascii_domain: String,
    pub smtputf8: bool,
}

impl View for ValidatedEmail {
    type V = EmailModel;

    open spec fn view(&self) -> EmailModel {
        EmailModel {
            original: self.original@,
            local_part: self.local_part@,
            domain: self.domain@,
            normalized: self.normalized@,
            ascii_domain: self.ascii_domain@,
            smtputf8: self.smtputf8,
        }
    }
}

/// The local part as it appears in the normalized form: unchanged when pure
/// ASCII, canonically composed otherwise.
pub open spec fn spec_normalized_local(l: Seq<char>) -> Seq<char> {
    if is_ascii_chars(l) {
        l
    } else {
        nfc_of(l)
    }
}

/// What validation returns for the input `s`: the validated record, or the
/// first rule violation found. The input is trimmed of surrounding
/// whitespace; an empty result, a missing `@` and a repeated `@` are
/// rejected before the local part and then the domain are checked.
pub open spec fn spec_validate(s: Seq<char>, allow_smtputf8: bool) -> Result<
    EmailModel,
    EmailError,
> {
    let t = spec_trim(s);
    if t.len() == 0 {
        Err(EmailError::Empty)
    } else if count_char(t, '@') == 0 {
        Err(EmailError::MissingAt)
    } else if count_char(t, '@') > 1 {
        Err(EmailError::MultipleAt)
    } else {
        let i = find_char(t, '@');
        let local = t.subrange(0, i);
        let domain = t.subrange(i + 1, t.len() as int);
        match spec_local_error(local, allow_smtputf8) {
            Some(e) => Err(e),
            None => match spec_domain_result(domain) {
                Err(e) => Err(e),
                Ok(ascii) => Ok(
                    EmailModel {
                        original: t,
                        local_part: local,
                        domain: domain,
                        ascii_domain: ascii,
                        normalized: spec_normalized_local(local) + seq!['@'] + spec_lower(ascii),
                        smtputf8: !is_ascii_chars(local),
                    },
                ),
            },
        }
    }
}

/// Idempotent normalization: validating the normalized form of an accepted
/// address succeeds and yields the same normalized form again.
///
/// The law is stated for accepted addresses whose local part is ASCII and
/// whose domain is taken as-is (plain ASCII): for a bracketed IP literal
/// the normalized form lower-cases the `IPv6:` tag and no longer parses,
/// and an internationalized address goes through the outside composition
/// and domain-to-ASCII conversions, of which only the results are named.
pub proof fn lemma_normalization_idempotent(s: Seq<char>, allow_smtputf8: bool)
    requires
        spec_validate(s, allow_smtputf8) is Ok,
        is_ascii_chars(spec_validate(s, allow_smtputf8)->Ok_0.local_part),
        crate::domain::spec_plain_domain(spec_validate(s, allow_smtputf8)->Ok_0.domain),
    ensures
        spec_validate(spec_validate(s, allow_smtputf8)->Ok_0.normalized, allow_smtputf8) is Ok,
        spec_validate(
            spec_validate(s, allow_smtputf8)->Ok_0.normalized,
            allow_smtputf8,
        )->Ok_0.normalized == spec_validate(s, allow_smtputf8)->Ok_0.normalized,
{
    let t = spec_trim(s);
    let i = find_char(t, '@');
    let local = t.subrange(0, i);
    let domain = t.subrange(i + 1, t.len() as int);
    let m = spec_validate(s, allow_smtputf8)->Ok_0;
    crate::text::lemma_find_char(t, '@');
    assert(m.local_part == local);
    assert(m.domain == domain);
    assert(crate::syntax::spec_local_error(local, allow_smtputf8) is None);
    assert(domain.len() > 0);
    assert(crate::domain::spec_plain_char(domain[0]));
    assert(domain[0] != '[') by {
        crate::lazy::lemma_atext_facts(domain[0]);
    }
    assert(crate::domain::spec_hostname_error(domain) is None);
    assert(m.ascii_domain == domain);
    let ld = spec_lower(domain);
    let nn = local + seq!['@'] + ld;
    assert(m.normalized == nn);
    // Character classes of both sides of the `@`.
    crate::syntax::lemma_local_scan_chars(local, allow_smtputf8, 0, false);
    assert forall|k: int|
        0 <= k < local.len() implies crate::lookup::spec_is_atext(#[trigger] local[k]) || local[k]
        == '.' by {
        assert('\0' <= local[k] <= '\u{7f}');
        assert(!(local[k] as u32 >= 128));
    }
    assert forall|k: int| 0 <= k < ld.len() implies crate::domain::spec_plain_char(
        #[trigger] ld[k],
    ) && ld[k] != '@' && !crate::text::spec_is_ws(ld[k]) && '\0' <= ld[k] <= '\u{7f}' by {
        assert(crate::domain::spec_plain_char(domain[k]));
        assert(ld[k] == crate::text::spec_lower_char(domain[k]));
        crate::lazy::lemma_atext_facts(domain[k]);
        crate::lazy::lemma_atext_facts(ld[k]);
    }
    // Surrounding whitespace: there is none, so trimming is the identity.
    assert(nn[0] == local[0]);
    assert(local[0] != '.');
    assert(!crate::text::spec_is_ws(nn[0])) by {
        crate::lazy::lemma_atext_facts(local[0]);
    }
    assert(nn.last() == ld.last());
    assert(crate::text::spec_trim_start(nn) == nn);
    assert(spec_trim(nn) == nn);
    // Exactly one `@`, at the boundary between the two parts.
    assert(count_char(local, '@') == 0) by {
        assert forall|k: int| 0 <= k < local.len() implies local[k] != '@' by {
            crate::lazy::lemma_atext_facts(local[k]);
        }
        crate::text::lemma_count_none(local, '@');
    }
    assert(count_char(seq!['@'], '@') == 1) by {
        assert(seq!['@'].drop_last() =~= Seq::<char>::empty());
        assert(count_char(Seq::<char>::empty(), '@') == 0);
        assert(seq!['@'].last() == '@');
    }
    assert(count_char(ld, '@') == 0) by {
        crate::text::lemma_count_none(ld, '@');
    }
    crate::text::lemma_count_char_concat(local + seq!['@'], ld, '@');
    crate::text::lemma_count_char_concat(local, seq!['@'], '@');
    assert(count_char(nn, '@') == 1);
    assert(nn[local.len() as int] == '@');
    assert forall|k: int| 0 <= k < local.len() implies nn[k] != '@' by {
        assert(nn[k] == local[k]);
        crate::lazy::lemma_atext_facts(local[k]);
    }
    crate::text::lemma_find_char_is(nn, '@', local.len() as int);
    assert(nn.subrange(0, local.len() as int) =~= local);
    assert(nn.subrange(local.len() as int + 1, nn.len() as int) =~= ld);
    // The lower-cased domain still passes every domain check.
    assert(ld[0] != '[');
    assert(is_ascii_chars(domain)) by {
        assert forall|k: int| 0 <= k < domain.len() implies '\0' <= #[trigger] domain[k]
            <= '\u{7f}' by {
            crate::lazy::lemma_atext_facts(domain[k]);
        }
    }
    assert(is_ascii_chars(ld));
    vstd::utf8::is_ascii_chars_encode_utf8(domain);
    vstd::utf8::is_ascii_chars_encode_utf8(ld);
    assert(vstd::utf8::encode_utf8(ld).len() <= 253);
    let labs = crate::text::split_seq(domain, '.');
    let llabs = crate::text::split_seq(ld, '.');
    crate::text::lemma_split_lower(domain);
    assert(crate::domain::spec_plain_domain(ld)) by {
        assert forall|j: int| 0 <= j < llabs.len() implies !crate::domain::spec_is_ace_label(
            #[trigger] llabs[j],
        ) by {
            assert(llabs[j] =~= spec_lower(labs[j]));
            assert(!crate::domain::spec_is_ace_label(labs[j]));
            assert(llabs[j].len() == labs[j].len());
            if crate::domain::spec_is_ace_label(llabs[j]) {
                assert(llabs[j][0] == crate::text::spec_lower_char(labs[j][0]));
                assert(llabs[j][1] == crate::text::spec_lower_char(labs[j][1]));
                assert(llabs[j][2] == crate::text::spec_lower_char(labs[j][2]));
                assert(llabs[j][3] == crate::text::spec_lower_char(labs[j][3]));
                crate::text::lemma_lower_char_cases(labs[j][0]);
                crate::text::lemma_lower_char_cases(labs[j][1]);
                crate::text::lemma_lower_char_cases(labs[j][2]);
                crate::text::lemma_lower_char_cases(labs[j][3]);
                assert(crate::domain::spec_is_ace_label(labs[j]));
            }
        }
    }
    assert(crate::domain::spec_hostname_error(ld) is None) by {
        let dk = choose|dk: int| 0 <= dk < domain.len() && domain[dk] == '.';
        assert(domain.contains('.'));
        assert(domain[dk] == '.');
        assert(ld[dk] == '.');
        assert(ld.contains('.'));
        assert(!crate::domain::spec_all_numeric(labs));
        let bj = choose|bj: int|
            0 <= bj < labs.len() && !crate::domain::spec_all_digits(#[trigger] labs[bj]);
        let bk = choose|bk: int|
            0 <= bk < labs[bj].len() && !crate::lookup::spec_is_dec_digit(#[trigger] labs[bj][bk]);
        assert(llabs[bj] =~= spec_lower(labs[bj]));
        assert(llabs[bj][bk] == crate::text::spec_lower_char(labs[bj][bk]));
        assert(!crate::lookup::spec_is_dec_digit(llabs[bj][bk]));
        assert(!crate::domain::spec_all_digits(llabs[bj]));
        assert(!crate::domain::spec_all_numeric(llabs));
        crate::domain::lemma_labels_error_none(labs);
        crate::domain::lemma_labels_error_none(llabs);
        assert forall|j: int| 0 <= j < llabs.len() implies crate::domain::spec_label_error(
            #[trigger] llabs[j],
        ) is None by {
            assert(crate::domain::spec_label_error(labs[j]) is None);
            assert(llabs[j] =~= spec_lower(labs[j]));
            assert(llabs[j][0] == crate::text::spec_lower_char(labs[j][0]));
            assert(llabs[j].last() == crate::text::spec_lower_char(labs[j].last()));
            assert forall|k: int| 0 <= k < llabs[j].len() implies crate::lookup::spec_is_domain_char(
                #[trigger] llabs[j][k],
            ) by {
                assert(crate::lookup::spec_is_domain_char(labs[j][k]));
                assert(llabs[j][k] == crate::text::spec_lower_char(labs[j][k]));
            }
        }
    }
    assert(crate::domain::spec_domain_result(ld) == Ok::<Seq<char>, crate::error::EmailError>(ld));
    // The second pass rebuilds the very same normalized form.
    let m2 = spec_validate(nn, allow_smtputf8)->Ok_0;
    crate::text::lemma_lower_idempotent(domain);
    assert(m2.normalized =~= local + seq!['@'] + spec_lower(ld));
    assert(spec_lower(ld) =~= ld);
    assert(m2.normalized == nn);
}

/// An email validator with configurable options.
///
/// Only `allow_smtputf8` takes part in validation; the other options are
/// accepted for interface compatibility and record the caller's intent.
pub struct EmailValidator {
    pub allow_smtputf8: bool,
    pub allow_quoted_local: bool,
    pub allow_domain_literal: bool,
    pub check_deliverability: bool,
}

impl Default for EmailValidator {
    /// A validator with every option off.
    fn default() -> (r: Self)
        ensures
            !r.allow_smtputf8,
            !r.allow_quoted_local,
            !r.allow_domain_literal,
            !r.check_deliverability,
    {
        EmailValidator {
            allow_smtputf8: false,
            allow_quoted_local: false,
            allow_domain_literal: false,
            check_deliverability: false,
        }
    }
}

impl EmailValidator {
    /// A validator that accepts internationalized local parts.
    pub fn new() -> (r: Self)
        ensures
            r.allow_smtputf8,
            !r.allow_quoted_local,
            !r.allow_domain_literal,
            !r.check_deliverability,
    {
        EmailValidator {
            allow_smtputf8: true,
            allow_quoted_local: false,
            allow_domain_literal: false,
            check_deliverability: false,
        }
    }

    /// Lower-cases the ASCII letters of `s`.
    fn ascii_to_lower(s: &str) -> (r: String)
        ensures
            r@ == spec_lower(s@),
    {
        crate::text::ascii_lower_str(s)
    }

    /// Validates `email` and builds its canonical form.
    pub fn validate(&self, email: &str) -> (r: Result<ValidatedEmail, EmailError>)
        ensures
            match r {
                Ok(v) => spec_validate(email@, self.allow_smtputf8) == Ok::<
                    EmailModel,
                    EmailError,
                >(v@),
                Err(e) => spec_validate(email@, self.allow_smtputf8) == Err::<
                    EmailModel,
                    EmailError,
                >(e),
            },
    {
        let trimmed = crate::text::trim_str(email);
        let n = trimmed.unicode_len();
        if n == 0 {
            return Err(EmailError::Empty);
        }
        let (at_count, at_first) = crate::lookup::count_at_swar(trimmed);
        if at_count == 0 {
            return Err(EmailError::MissingAt);
        }
        if at_count > 1 {
            return Err(EmailError::MultipleAt);
        }
        let at_pos = match at_first {
            Some(p) => p,
            None => {
                proof {
                    crate::text::lemma_find_char(trimmed@, '@');
                    crate::text::lemma_count_none(trimmed@, '@');
                }
                return Err(EmailError::Generic);
            },
        };
        proof {
            crate::text::lemma_find_char(trimmed@, '@');
        }
        let local = trimmed.substring_char(0, at_pos);
        let domain_str = trimmed.substring_char(at_pos + 1, n);
        match crate::syntax::validate_local_part(local, self.allow_smtputf8) {
            Ok(_) => {},
            Err(e) => {
                return Err(e);
            },
        }
        let ascii_domain = match crate::domain::validate_domain(domain_str) {
            Ok(s) => s,
            Err(e) => {
                return Err(e);
            },
        };
        let normalized_local: String = if local.is_ascii() {
            local.to_owned()
        } else {
            nfc_str(local)
        };
        let lower_domain = Self::ascii_to_lower(ascii_domain.as_str());
        let mut normalized = normalized_local;
        normalized.append("@");
        normalized.append(lower_domain.as_str());
        let smtputf8 = !local.is_ascii();
        let result = ValidatedEmail {
            original: trimmed.to_owned(),
            local_part: local.to_owned(),
            domain: domain_str.to_owned(),
            normalized,
            ascii_domain,
            smtputf8,
        };
        proof {
            reveal_strlit("@");
            assert("@"@ =~= seq!['@']);
            let m = spec_validate(email@, self.allow_smtputf8)->Ok_0;
            assert(result@ =~= m);
        }
        Ok(result)
    }
}

} // verus!
