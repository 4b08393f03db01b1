//! The textual IPv4 and IPv6 address grammars, used to recognize bracketed
//! IP-literal domain parts.
//!
//! IPv4 text is four dot-separated decimal octets, each without a leading
//! zero and at most 255. IPv6 text is colon-separated groups of one to four
//! hexadecimal digits, at most one `::` standing for one or more zero
//! groups, and optionally a trailing IPv4 address in place of the last two
//! groups.

use vstd::prelude::*;
use crate::lookup::spec_is_dec_digit;
use crate::text::{split_seq, split_str};

verus! {

/// Whether `c` is an ASCII hexadecimal digit.
pub open spec fn spec_is_hex_digit(c: char) -> bool {
    ||| '0' <= c <= '9'
    ||| 'a' <= c <= 'f'
    ||| 'A' <= c <= 'F'
}

/// Reports whether `c` is an ASCII hexadecimal digit.
pub fn is_hex_digit(c: char) -> (r: bool)
    ensures
        r == spec_is_hex_digit(c),
{
    ('0' <= c && c <= '9') || ('a' <= c && c <= 'f') || ('A' <= c && c <= 'F')
}

/// The value of `p` read as a decimal numeral.
pub open spec fn spec_dec_value(p: Seq<char>) -> int
    decreases p.len(),
{
    if p.len() == 0 {
        0
    } else {
        spec_dec_value(p.drop_last()) * 10 + (p.last() as u32 - 48)
    }
}

/// Whether `p` is a legal IPv4 octet: one to three decimal digits, no
/// leading zero, value at most 255.
pub open spec fn spec_ipv4_octet(p: Seq<char>) -> bool {
    &&& 1 <= p.len() <= 3
    &&& forall|k: int| 0 <= k < p.len() ==> spec_is_dec_digit(#[trigger] p[k])
    &&& (p.len() == 1 || p[0] != '0')
    &&& spec_dec_value(p) <= 255
}

/// Whether `s` is the text of an IPv4 address: four dot-separated octets.
pub open spec fn spec_ipv4_text(s: Seq<char>) -> bool {
    let ps = split_seq(s, '.');
    ps.len() == 4 && forall|i: int| 0 <= i < 4 ==> spec_ipv4_octet(#[trigger] ps[i])
}

/// Whether `p` is an IPv6 group: one to four hexadecimal digits.
pub open spec fn spec_h16(p: Seq<char>) -> bool {
    &&& 1 <= p.len() <= 4
    &&& forall|k: int| 0 <= k < p.len() ==> spec_is_hex_digit(#[trigger] p[k])
}

/// The index of the first `::` in `s`, or `-1` if there is none.
pub open spec fn find_dc(s: Seq<char>) -> int
    decreases s.len(),
{
    if s.len() < 2 {
        -1
    } else if s[0] == ':' && s[1] == ':' {
        0
    } else {
        let r = find_dc(s.drop_first());
        if r == -1 {
            -1
        } else {
            r + 1
        }
    }
}

/// What `find_dc` returns: either no `::` occurs, or the result is the least
/// index where one starts.
pub proof fn lemma_find_dc(s: Seq<char>)
    ensures
        find_dc(s) == -1 ==> forall|k: int|
            0 <= k && k + 1 < s.len() ==> !(#[trigger] s[k] == ':' && s[k + 1] == ':'),
        find_dc(s) != -1 ==> {
            let r = find_dc(s);
            &&& 0 <= r
            &&& r + 1 < s.len()
            &&& s[r] == ':'
            &&& s[r + 1] == ':'
            &&& forall|k: int| 0 <= k < r ==> !(#[trigger] s[k] == ':' && s[k + 1] == ':')
        },
    decreases s.len(),
{
    if s.len() >= 2 && !(s[0] == ':' && s[1] == ':') {
        lemma_find_dc(s.drop_first());
        let d = s.drop_first();
        assert forall|k: int| 0 <= k < d.len() implies d[k] == s[k + 1] by {}
        if find_dc(s) == -1 {
            assert forall|k: int| 0 <= k && k + 1 < s.len() implies !(#[trigger] s[k] == ':' && s[k
                + 1] == ':') by {
                if k > 0 {
                    assert(d[k - 1] == s[k]);
                    assert(d[k] == s[k + 1]);
                }
            }
        }
        if find_dc(s) != -1 {
            let r = find_dc(s);
            assert forall|k: int| 0 <= k < r implies !(#[trigger] s[k] == ':' && s[k + 1] == ':')
            by {
                if k > 0 {
                    assert(!(d[k - 1] == ':' && d[k] == ':'));
                }
            }
        }
    }
}

/// A position starting `::` with no earlier one is the result of `find_dc`.
pub proof fn lemma_find_dc_is(s: Seq<char>, i: int)
    requires
        0 <= i,
        i + 1 < s.len(),
        s[i] == ':',
        s[i + 1] == ':',
        forall|k: int| 0 <= k < i ==> !(#[trigger] s[k] == ':' && s[k + 1] == ':'),
    ensures
        find_dc(s) == i,
    decreases s.len(),
{
    if i > 0 {
        let d = s.drop_first();
        assert(d[i - 1] == s[i]);
        assert(d[i] == s[i + 1]);
        assert forall|k: int| 0 <= k < i - 1 implies !(#[trigger] d[k] == ':' && d[k + 1] == ':')
        by {
            assert(d[k] == s[k + 1]);
            assert(d[k + 1] == s[k + 2]);
        }
        lemma_find_dc_is(d, i - 1);
    }
}

/// Whether `s` is the text of an IPv6 address.
pub open spec fn spec_ipv6_text(s: Seq<char>) -> bool {
    let dc = find_dc(s);
    if dc == -1 {
        let ps = split_seq(s, ':');
        ||| (ps.len() == 8 && forall|i: int| 0 <= i < 8 ==> spec_h16(#[trigger] ps[i]))
        ||| (ps.len() == 7 && (forall|i: int| 0 <= i < 6 ==> spec_h16(#[trigger] ps[i]))
            && spec_ipv4_text(ps[6]))
    } else {
        let left = s.subrange(0, dc);
        let right = s.subrange(dc + 2, s.len() as int);
        let lp = split_seq(left, ':');
        let rp = split_seq(right, ':');
        let left_ok = left.len() == 0 || forall|i: int| 0 <= i < lp.len() ==> spec_h16(
            #[trigger] lp[i],
        );
        let right_ok = right.len() == 0 || ((forall|i: int|
            0 <= i < rp.len() - 1 ==> spec_h16(#[trigger] rp[i])) && (spec_h16(rp[rp.len() - 1])
            || spec_ipv4_text(rp[rp.len() - 1])));
        let lu: int = if left.len() == 0 {
            0
        } else {
            lp.len() as int
        };
        let ru: int = if right.len() == 0 {
            0
        } else if spec_ipv4_text(rp[rp.len() - 1]) {
            rp.len() as int + 1
        } else {
            rp.len() as int
        };
        left_ok && right_ok && lu + ru <= 7
    }
}

/// Reports whether `p` is a legal IPv4 octet.
fn is_ipv4_octet(p: &str) -> (r: bool)
    ensures
        r == spec_ipv4_octet(p@),
{
    let n = p.unicode_len();
    if n < 1 || n > 3 {
        return false;
    }
    let mut i: usize = 0;
    let mut val: u32 = 0;
    while i < n
        invariant
            i <= n,
            n == p@.len(),
            n <= 3,
            forall|k: int| 0 <= k < i ==> spec_is_dec_digit(#[trigger] p@[k]),
            val == spec_dec_value(p@.subrange(0, i as int)),
            val <= 999,
            i == 0 ==> val == 0,
            i == 1 ==> val <= 9,
            i == 2 ==> val <= 99,
        decreases n - i,
    {
        let c = p.get_char(i);
        if !crate::lookup::is_dec_digit(c) {
            return false;
        }
        proof {
            assert(p@.subrange(0, i + 1).drop_last() =~= p@.subrange(0, i as int));
            assert(p@.subrange(0, i + 1).last() == p@[i as int]);
        }
        val = val * 10 + (c as u32 - 48);
        i += 1;
    }
    proof {
        assert(p@.subrange(0, n as int) =~= p@);
    }
    if n > 1 && p.get_char(0) == '0' {
        return false;
    }
    val <= 255
}

/// Reports whether `s` is the text of an IPv4 address.
pub fn is_ipv4_text(s: &str) -> (r: bool)
    ensures
        r == spec_ipv4_text(s@),
{
    let ps = split_str(s, '.');
    if ps.len() != 4 {
        return false;
    }
    let mut i: usize = 0;
    while i < 4
        invariant
            i <= 4,
            ps.len() == 4,
            ps.deep_view() =~~= split_seq(s@, '.'),
            forall|k: int| 0 <= k < i ==> spec_ipv4_octet(#[trigger] split_seq(s@, '.')[k]),
        decreases 4 - i,
    {
        proof {
            assert(ps.deep_view()[i as int] == ps@[i as int]@);
        }
        if !is_ipv4_octet(ps[i].as_str()) {
            return false;
        }
        i += 1;
    }
    true
}

/// Reports whether `p` is an IPv6 group of one to four hexadecimal digits.
fn is_h16(p: &str) -> (r: bool)
    ensures
        r == spec_h16(p@),
{
    let n = p.unicode_len();
    if n < 1 || n > 4 {
        return false;
    }
    let mut i: usize = 0;
    while i < n
        invariant
            i <= n,
            n == p@.len(),
            forall|k: int| 0 <= k < i ==> spec_is_hex_digit(#[trigger] p@[k]),
        decreases n - i,
    {
        if !is_hex_digit(p.get_char(i)) {
            return false;
        }
        i += 1;
    }
    true
}

/// Reports whether every piece of `ps` in `[0, upto)` is an IPv6 group.
fn pieces_all_h16(ps: &Vec<String>, upto: usize) -> (r: bool)
    requires
        upto <= ps.len(),
    ensures
        r == forall|i: int| 0 <= i < upto ==> spec_h16(#[trigger] ps.deep_view()[i]),
{
    let mut i: usize = 0;
    while i < upto
        invariant
            i <= upto <= ps.len(),
            forall|k: int| 0 <= k < i ==> spec_h16(#[trigger] ps.deep_view()[k]),
        decreases upto - i,
    {
        proof {
            assert(ps.deep_view()[i as int] == ps@[i as int]@);
        }
        if !is_h16(ps[i].as_str()) {
            return false;
        }
        i += 1;
    }
    true
}

/// Reports whether `s` is the text of an IPv6 address.
pub fn is_ipv6_text(s: &str) -> (r: bool)
    ensures
        r == spec_ipv6_text(s@),
{
    let n = s.unicode_len();
    let mut i: usize = 0;
    let mut dc_found = false;
    let mut dci: usize = 0;
    if n >= 2 {
        while !dc_found && i < n - 1
            invariant
                n == s@.len(),
                n >= 2,
                !dc_found ==> i <= n - 1 && forall|k: int|
                    0 <= k < i ==> !(#[trigger] s@[k] == ':' && s@[k + 1] == ':'),
                dc_found ==> dci + 1 < n && s@[dci as int] == ':' && s@[dci + 1] == ':' && forall|
                    k: int,
                |
                    0 <= k < dci ==> !(#[trigger] s@[k] == ':' && s@[k + 1] == ':'),
            decreases n - i, (if dc_found { 0int } else { 1int }),
        {
            if s.get_char(i) == ':' && s.get_char(i + 1) == ':' {
                dc_found = true;
                dci = i;
            } else {
                i += 1;
            }
        }
    }
    if !dc_found {
        proof {
            lemma_find_dc(s@);
            if find_dc(s@) != -1 {
                let r = find_dc(s@);
                assert(s@[r] == ':' && s@[r + 1] == ':');
                assert(false);
            }
        }
        let ps = split_str(s, ':');
        if ps.len() == 8 {
            pieces_all_h16(&ps, 8)
        } else if ps.len() == 7 {
            if !pieces_all_h16(&ps, 6) {
                return false;
            }
            proof {
                assert(ps.deep_view()[6] == ps@[6]@);
            }
            is_ipv4_text(ps[6].as_str())
        } else {
            false
        }
    } else {
        proof {
            lemma_find_dc_is(s@, dci as int);
        }
        let left = s.substring_char(0, dci);
        let right = s.substring_char(dci + 2, n);
        let mut lu: usize = 0;
        if !left.is_empty() {
            let lp = split_str(left, ':');
            if lp.len() > 7 {
                proof {
                    crate::text::lemma_split_len(right@, ':');
                }
                return false;
            }
            if !pieces_all_h16(&lp, lp.len()) {
                return false;
            }
            lu = lp.len();
        }
        let mut ru: usize = 0;
        if !right.is_empty() {
            let rp = split_str(right, ':');
            if rp.len() > 8 {
                return false;
            }
            if !pieces_all_h16(&rp, rp.len() - 1) {
                return false;
            }
            proof {
                assert(rp.deep_view()[rp.len() - 1] == rp@[rp.len() - 1]@);
            }
            let last_ipv4 = is_ipv4_text(rp[rp.len() - 1].as_str());
            if !last_ipv4 && !is_h16(rp[rp.len() - 1].as_str()) {
                return false;
            }
            ru = if last_ipv4 {
                rp.len() + 1
            } else {
                rp.len()
            };
        }
        lu + ru <= 7
    }
}

} // verus!
