//! Small character and string utilities shared by the validators:
//! counting and locating characters, whitespace trimming, ASCII lowercasing,
//! and string comparison, all specified over `Seq<char>` views.

use vstd::prelude::*;

verus! {

broadcast use vstd::string::group_string_axioms;

/// How many times `c` occurs in `s`.
pub open spec fn count_char(s: Seq<char>, c: char) -> nat
    decreases s.len(),
{
    if s.len() == 0 {
        0
    } else {
        count_char(s.drop_last(), c) + if s.last() == c {
            1nat
        } else {
            0nat
        }
    }
}

/// Extending a prefix by one character adds that character's occurrence count.
pub proof fn lemma_count_char_step(s: Seq<char>, c: char, i: int)
    requires
        0 <= i < s.len(),
    ensures
        count_char(s.subrange(0, i + 1), c) == count_char(s.subrange(0, i), c) + if s[i] == c {
            1int
        } else {
            0int
        },
{
    assert(s.subrange(0, i + 1).drop_last() =~= s.subrange(0, i));
    assert(s.subrange(0, i + 1).last() == s[i]);
}

/// Occurrence counts add up across a split point.
pub proof fn lemma_count_char_split(s: Seq<char>, c: char, k: int)
    requires
        0 <= k <= s.len(),
    ensures
        count_char(s, c) == count_char(s.subrange(0, k), c) + count_char(
            s.subrange(k, s.len() as int),
            c,
        ),
    decreases s.len(),
{
    if k == s.len() {
        assert(s.subrange(0, k) =~= s);
        assert(s.subrange(k, s.len() as int) =~= Seq::<char>::empty());
    } else {
        let d = s.drop_last();
        lemma_count_char_split(d, c, k);
        assert(d.subrange(0, k) =~= s.subrange(0, k));
        assert(s.subrange(k, s.len() as int).drop_last() =~= d.subrange(k, d.len() as int));
        assert(s.subrange(k, s.len() as int).last() == s.last());
    }
}

/// A sequence with an occurrence of `c` has a positive count of `c`.
pub proof fn lemma_count_char_lb(s: Seq<char>, c: char, i: int)
    requires
        0 <= i < s.len(),
        s[i] == c,
    ensures
        count_char(s, c) >= 1,
    decreases s.len(),
{
    if i < s.len() - 1 {
        lemma_count_char_lb(s.drop_last(), c, i);
    }
}

/// In a sequence with exactly one occurrence of `c`, two positions holding `c`
/// must be the same position.
pub proof fn lemma_count_char_unique(s: Seq<char>, c: char, i: int, j: int)
    requires
        count_char(s, c) == 1,
        0 <= i < s.len(),
        0 <= j < s.len(),
        s[i] == c,
        s[j] == c,
    ensures
        i == j,
{
    if i != j {
        let lo = if i < j {
            i
        } else {
            j
        };
        let hi = if i < j {
            j
        } else {
            i
        };
        lemma_count_char_split(s, c, hi);
        lemma_count_char_lb(s.subrange(0, hi), c, lo);
        lemma_count_char_lb(s.subrange(hi, s.len() as int), c, 0);
    }
}

/// Occurrence counts add over concatenation.
pub proof fn lemma_count_char_concat(x: Seq<char>, y: Seq<char>, c: char)
    ensures
        count_char(x + y, c) == count_char(x, c) + count_char(y, c),
{
    lemma_count_char_split(x + y, c, x.len() as int);
    assert((x + y).subrange(0, x.len() as int) =~= x);
    assert((x + y).subrange(x.len() as int, (x + y).len() as int) =~= y);
}

/// Lower-casing commutes with splitting at dots: the pieces of the
/// lower-cased sequence are the lower-cased pieces.
pub proof fn lemma_split_lower(x: Seq<char>)
    ensures
        split_seq(spec_lower(x), '.').len() == split_seq(x, '.').len(),
        forall|j: int|
            0 <= j < split_seq(x, '.').len() ==> #[trigger] split_seq(spec_lower(x), '.')[j]
                =~= spec_lower(split_seq(x, '.')[j]),
    decreases x.len(),
{
    let lx = spec_lower(x);
    if x.len() == 0 {
        assert(lx =~= x);
    } else {
        assert(lx.drop_first() =~= spec_lower(x.drop_first()));
        lemma_split_lower(x.drop_first());
        let r = split_seq(x.drop_first(), '.');
        let lr = split_seq(spec_lower(x.drop_first()), '.');
        if x[0] == '.' {
            assert(spec_lower_char(x[0]) == '.');
            assert(split_seq(x, '.') =~~= seq![Seq::<char>::empty()] + r);
            assert(split_seq(lx, '.') =~~= seq![Seq::<char>::empty()] + lr);
            assert forall|j: int|
                0 <= j < split_seq(x, '.').len() implies #[trigger] split_seq(lx, '.')[j]
                =~= spec_lower(split_seq(x, '.')[j]) by {
                if j == 0 {
                    assert(spec_lower(Seq::<char>::empty()) =~= Seq::<char>::empty());
                } else {
                    assert(split_seq(lx, '.')[j] == lr[j - 1]);
                    assert(split_seq(x, '.')[j] == r[j - 1]);
                }
            }
        } else {
            assert(spec_lower_char(x[0]) != '.');
            assert(lx[0] == spec_lower_char(x[0]));
            crate::text::lemma_split_len(x.drop_first(), '.');
            crate::text::lemma_split_len(spec_lower(x.drop_first()), '.');
            assert(split_seq(x, '.') =~~= seq![seq![x[0]] + r[0]] + r.drop_first());
            assert(split_seq(lx, '.') =~~= seq![seq![lx[0]] + lr[0]] + lr.drop_first());
            assert forall|j: int|
                0 <= j < split_seq(x, '.').len() implies #[trigger] split_seq(lx, '.')[j]
                =~= spec_lower(split_seq(x, '.')[j]) by {
                if j == 0 {
                    assert(lr[0] =~= spec_lower(r[0]));
                    assert(seq![lx[0]] + lr[0] =~= spec_lower(seq![x[0]] + r[0]));
                } else {
                    assert(split_seq(lx, '.')[j] == lr[j]);
                    assert(split_seq(x, '.')[j] == r[j]);
                    assert(lr[j] =~= spec_lower(r[j]));
                }
            }
        }
    }
}

/// A sequence with a positive count of `c` contains `c`.
pub proof fn lemma_count_char_exists(s: Seq<char>, c: char)
    requires
        count_char(s, c) >= 1,
    ensures
        s.contains(c),
    decreases s.len(),
{
    if s.len() > 0 {
        if s.last() == c {
            assert(s[s.len() - 1] == c);
        } else {
            lemma_count_char_exists(s.drop_last(), c);
            let k = choose|k: int| 0 <= k < s.drop_last().len() && s.drop_last()[k] == c;
            assert(s[k] == c);
        }
    }
}

/// A sequence without any occurrence of `c` has count zero.
pub proof fn lemma_count_none(s: Seq<char>, c: char)
    requires
        forall|k: int| 0 <= k < s.len() ==> s[k] != c,
    ensures
        count_char(s, c) == 0,
    decreases s.len(),
{
    if s.len() > 0 {
        lemma_count_none(s.drop_last(), c);
    }
}

/// The index of the first occurrence of `c` in `s`, or `-1` if there is none.
pub open spec fn find_char(s: Seq<char>, c: char) -> int
    decreases s.len(),
{
    if s.len() == 0 {
        -1
    } else if s[0] == c {
        0
    } else {
        let r = find_char(s.drop_first(), c);
        if r == -1 {
            -1
        } else {
            r + 1
        }
    }
}

/// What `find_char` returns: either no occurrence exists, or the result is the
/// least index holding `c`.
pub proof fn lemma_find_char(s: Seq<char>, c: char)
    ensures
        find_char(s, c) == -1 ==> forall|k: int| 0 <= k < s.len() ==> s[k] != c,
        find_char(s, c) != -1 ==> {
            let r = find_char(s, c);
            &&& 0 <= r < s.len()
            &&& s[r] == c
            &&& forall|k: int| 0 <= k < r ==> s[k] != c
        },
    decreases s.len(),
{
    if s.len() > 0 && s[0] != c {
        lemma_find_char(s.drop_first(), c);
        assert forall|k: int| 0 <= k < s.len() && find_char(s, c) == -1 implies s[k] != c by {
            if k > 0 {
                assert(s.drop_first()[k - 1] == s[k]);
            }
        }
        if find_char(s, c) != -1 {
            let r = find_char(s, c);
            assert(s[r] == s.drop_first()[r - 1]);
            assert forall|k: int| 0 <= k < r implies s[k] != c by {
                if k > 0 {
                    assert(s.drop_first()[k - 1] == s[k]);
                }
            }
        }
    }
}

/// A position holding `c` with nothing but other characters before it is the
/// result of `find_char`.
pub proof fn lemma_find_char_is(s: Seq<char>, c: char, i: int)
    requires
        0 <= i < s.len(),
        s[i] == c,
        forall|k: int| 0 <= k < i ==> s[k] != c,
    ensures
        find_char(s, c) == i,
    decreases s.len(),
{
    if i > 0 {
        assert forall|k: int| 0 <= k < i - 1 implies s.drop_first()[k] != c by {
            assert(s.drop_first()[k] == s[k + 1]);
        }
        assert(s.drop_first()[i - 1] == s[i]);
        lemma_find_char_is(s.drop_first(), c, i - 1);
    }
}

/// Whether a character has the Unicode `White_Space` property; this is the set
/// that surrounding-whitespace trimming removes.
pub open spec fn spec_is_ws(c: char) -> bool {
    let u = c as u32;
    ||| 0x09 <= u <= 0x0D
    ||| u == 0x20
    ||| u == 0x85
    ||| u == 0xA0
    ||| u == 0x1680
    ||| 0x2000 <= u <= 0x200A
    ||| u == 0x2028
    ||| u == 0x2029
    ||| u == 0x202F
    ||| u == 0x205F
    ||| u == 0x3000
}

/// Reports whether `c` is whitespace in the sense of `spec_is_ws`.
pub fn is_ws_char(c: char) -> (r: bool)
    ensures
        r == spec_is_ws(c),
{
    let u = c as u32;
    (0x09 <= u && u <= 0x0D) || u == 0x20 || u == 0x85 || u == 0xA0 || u == 0x1680 || (0x2000 <= u
        && u <= 0x200A) || u == 0x2028 || u == 0x2029 || u == 0x202F || u == 0x205F || u == 0x3000
}

/// `s` with its whitespace prefix removed.
pub open spec fn spec_trim_start(s: Seq<char>) -> Seq<char>
    decreases s.len(),
{
    if s.len() > 0 && spec_is_ws(s[0]) {
        spec_trim_start(s.drop_first())
    } else {
        s
    }
}

/// `s` with its whitespace suffix removed.
pub open spec fn spec_trim_end(s: Seq<char>) -> Seq<char>
    decreases s.len(),
{
    if s.len() > 0 && spec_is_ws(s.last()) {
        spec_trim_end(s.drop_last())
    } else {
        s
    }
}

/// `s` with surrounding whitespace removed.
pub open spec fn spec_trim(s: Seq<char>) -> Seq<char> {
    spec_trim_end(spec_trim_start(s))
}

/// If the first `a` characters are whitespace and position `a` (if any) is
/// not, the trimmed-start sequence is the suffix from `a`.
pub proof fn lemma_trim_start_subrange(s: Seq<char>, a: int)
    requires
        0 <= a <= s.len(),
        forall|k: int| 0 <= k < a ==> spec_is_ws(s[k]),
        a == s.len() || !spec_is_ws(s[a]),
    ensures
        spec_trim_start(s) =~= s.subrange(a, s.len() as int),
    decreases a,
{
    if a == 0 {
        if s.len() > 0 {
            assert(!spec_is_ws(s[0]));
        }
        assert(s.subrange(0, s.len() as int) =~= s);
    } else {
        let d = s.drop_first();
        assert forall|k: int| 0 <= k < a - 1 implies spec_is_ws(d[k]) by {
            assert(d[k] == s[k + 1]);
        }
        if a - 1 < d.len() {
            assert(d[a - 1] == s[a]);
        }
        lemma_trim_start_subrange(d, a - 1);
        assert(d.subrange(a - 1, d.len() as int) =~= s.subrange(a, s.len() as int));
    }
}

/// If the last characters from position `b` on are whitespace and position
/// `b - 1` (if any) is not, the trimmed-end sequence is the prefix up to `b`.
pub proof fn lemma_trim_end_subrange(s: Seq<char>, b: int)
    requires
        0 <= b <= s.len(),
        forall|k: int| b <= k < s.len() ==> spec_is_ws(s[k]),
        b == 0 || !spec_is_ws(s[b - 1]),
    ensures
        spec_trim_end(s) =~= s.subrange(0, b),
    decreases s.len(),
{
    if b == s.len() {
        if s.len() > 0 {
            assert(!spec_is_ws(s.last()));
        }
        assert(s.subrange(0, s.len() as int) =~= s);
    } else {
        let d = s.drop_last();
        assert(spec_is_ws(s.last()));
        lemma_trim_end_subrange(d, b);
        assert(d.subrange(0, b) =~= s.subrange(0, b));
    }
}

/// Removing a whitespace prefix does not change the count of a
/// non-whitespace character.
pub proof fn lemma_trim_start_count(s: Seq<char>, c: char)
    requires
        !spec_is_ws(c),
    ensures
        count_char(spec_trim_start(s), c) == count_char(s, c),
    decreases s.len(),
{
    if s.len() > 0 && spec_is_ws(s[0]) {
        lemma_trim_start_count(s.drop_first(), c);
        assert(s =~= seq![s[0]] + s.drop_first());
        lemma_count_char_concat(seq![s[0]], s.drop_first(), c);
        assert(count_char(seq![s[0]], c) == 0) by {
            assert(seq![s[0]].drop_last() =~= Seq::<char>::empty());
            assert(seq![s[0]].last() == s[0]);
            assert(count_char(Seq::<char>::empty(), c) == 0);
            assert(s[0] != c);
        }
    }
}

/// Removing a whitespace suffix does not change the count of a
/// non-whitespace character.
pub proof fn lemma_trim_end_count(s: Seq<char>, c: char)
    requires
        !spec_is_ws(c),
    ensures
        count_char(spec_trim_end(s), c) == count_char(s, c),
    decreases s.len(),
{
    if s.len() > 0 && spec_is_ws(s.last()) {
        lemma_trim_end_count(s.drop_last(), c);
    }
}

/// Trimming does not change the count of a non-whitespace character.
pub proof fn lemma_trim_count(s: Seq<char>, c: char)
    requires
        !spec_is_ws(c),
    ensures
        count_char(spec_trim(s), c) == count_char(s, c),
{
    lemma_trim_start_count(s, c);
    lemma_trim_end_count(spec_trim_start(s), c);
}

/// Removing a whitespace suffix keeps the first character.
pub proof fn lemma_trim_end_head(s: Seq<char>)
    ensures
        spec_trim_end(s).len() > 0 ==> spec_trim_end(s)[0] == s[0],
    decreases s.len(),
{
    if s.len() > 0 && spec_is_ws(s.last()) {
        lemma_trim_end_head(s.drop_last());
    }
}

/// Removing a whitespace prefix keeps the last character.
pub proof fn lemma_trim_start_last(s: Seq<char>)
    ensures
        spec_trim_start(s).len() > 0 ==> spec_trim_start(s).last() == s.last(),
    decreases s.len(),
{
    if s.len() > 0 && spec_is_ws(s[0]) {
        lemma_trim_start_last(s.drop_first());
        if s.drop_first().len() > 0 {
            assert(s.drop_first().last() == s.last());
        }
    }
}

/// The trimmed-start form is a suffix: some whitespace-only prefix length
/// `a` exists with the rest kept.
pub proof fn lemma_trim_start_shape(s: Seq<char>)
    ensures
        exists|a: int|
            0 <= a <= s.len() && #[trigger] spec_trim_start(s) =~= s.subrange(a, s.len() as int)
                && (forall|k: int| 0 <= k < a ==> spec_is_ws(s[k])),
    decreases s.len(),
{
    if s.len() > 0 && spec_is_ws(s[0]) {
        lemma_trim_start_shape(s.drop_first());
        let d = s.drop_first();
        let a0 = choose|a0: int|
            0 <= a0 <= d.len() && #[trigger] spec_trim_start(d) =~= d.subrange(a0, d.len() as int)
                && (forall|k: int| 0 <= k < a0 ==> spec_is_ws(d[k]));
        assert(d.subrange(a0, d.len() as int) =~= s.subrange(a0 + 1, s.len() as int));
        assert forall|k: int| 0 <= k < a0 + 1 implies spec_is_ws(s[k]) by {
            if k > 0 {
                assert(spec_is_ws(d[k - 1]));
            }
        }
        assert(spec_trim_start(s) =~= s.subrange(a0 + 1, s.len() as int));
    } else {
        assert(spec_trim_start(s) =~= s.subrange(0, s.len() as int));
    }
}

/// The trimmed-end form is a prefix: some whitespace-only suffix starting
/// at `b` exists with the rest kept.
pub proof fn lemma_trim_end_shape(s: Seq<char>)
    ensures
        exists|b: int|
            0 <= b <= s.len() && #[trigger] spec_trim_end(s) =~= s.subrange(0, b) && (forall|k: int|
                b <= k < s.len() ==> spec_is_ws(s[k])),
    decreases s.len(),
{
    if s.len() > 0 && spec_is_ws(s.last()) {
        lemma_trim_end_shape(s.drop_last());
        let d = s.drop_last();
        let b0 = choose|b0: int|
            0 <= b0 <= d.len() && #[trigger] spec_trim_end(d) =~= d.subrange(0, b0) && (forall|
                k: int,
            |
                b0 <= k < d.len() ==> spec_is_ws(d[k]));
        assert(d.subrange(0, b0) =~= s.subrange(0, b0));
        assert forall|k: int| b0 <= k < s.len() implies spec_is_ws(s[k]) by {
            if k < d.len() {
                assert(spec_is_ws(d[k]));
            }
        }
        assert(spec_trim_end(s) =~= s.subrange(0, b0));
    } else {
        assert(spec_trim_end(s) =~= s.subrange(0, s.len() as int));
    }
}

/// The trimmed form keeps a contiguous middle: some `a <= b` exist with
/// whitespace on both sides and the middle kept.
pub proof fn lemma_trim_shape(s: Seq<char>)
    ensures
        exists|a: int, b: int|
            {
                &&& 0 <= a <= b <= s.len()
                &&& #[trigger] spec_trim(s) =~= s.subrange(a, b)
                &&& forall|k: int| 0 <= k < a ==> spec_is_ws(s[k])
                &&& forall|k: int| b <= k < s.len() ==> spec_is_ws(s[k])
            },
{
    lemma_trim_start_shape(s);
    let a = choose|a: int|
        0 <= a <= s.len() && #[trigger] spec_trim_start(s) =~= s.subrange(a, s.len() as int) && (
        forall|k: int| 0 <= k < a ==> spec_is_ws(s[k]));
    let ts = spec_trim_start(s);
    lemma_trim_end_shape(ts);
    let b0 = choose|b0: int|
        0 <= b0 <= ts.len() && #[trigger] spec_trim_end(ts) =~= ts.subrange(0, b0) && (forall|
            k: int,
        |
            b0 <= k < ts.len() ==> spec_is_ws(ts[k]));
    assert(ts.subrange(0, b0) =~= s.subrange(a, a + b0));
    assert forall|k: int| a + b0 <= k < s.len() implies spec_is_ws(s[k]) by {
        assert(s[k] == ts[k - a]);
    }
    assert(spec_trim(s) =~= s.subrange(a, a + b0));
}

/// A sequence with count zero of `c` at some position cannot hold `c`; so a
/// positive count forces a non-empty sequence.
pub proof fn lemma_count_pos_nonempty(s: Seq<char>, c: char)
    requires
        count_char(s, c) >= 1,
    ensures
        s.len() > 0,
{
}

/// Removes surrounding whitespace, like `str::trim`.
pub fn trim_str(s: &str) -> (r: &str)
    ensures
        r@ =~= spec_trim(s@),
{
    let n = s.unicode_len();
    let mut a: usize = 0;
    while a < n && is_ws_char(s.get_char(a))
        invariant
            a <= n,
            n == s@.len(),
            forall|k: int| 0 <= k < a ==> spec_is_ws(s@[k]),
        decreases n - a,
    {
        a += 1;
    }
    proof {
        lemma_trim_start_subrange(s@, a as int);
    }
    let mut b: usize = n;
    while b > a && is_ws_char(s.get_char(b - 1))
        invariant
            a <= b <= n,
            n == s@.len(),
            forall|k: int| b <= k < n ==> spec_is_ws(s@[k]),
        decreases b,
    {
        b -= 1;
    }
    proof {
        let t = spec_trim_start(s@);
        assert forall|k: int| b - a <= k < t.len() implies spec_is_ws(t[k]) by {
            assert(t[k] == s@[k + a]);
        }
        if b > a {
            assert(t[b - a - 1] == s@[b - 1]);
        }
        lemma_trim_end_subrange(t, b - a);
        assert(t.subrange(0, b - a) =~= s@.subrange(a as int, b as int));
    }
    s.substring_char(a, b)
}

/// Compares two string slices character by character.
pub fn str_eq(a: &str, b: &str) -> (r: bool)
    ensures
        r == (a@ == b@),
{
    let na = a.unicode_len();
    let nb = b.unicode_len();
    if na != nb {
        return false;
    }
    let mut i: usize = 0;
    while i < na
        invariant
            i <= na,
            na == a@.len(),
            na == b@.len(),
            forall|k: int| 0 <= k < i ==> a@[k] == b@[k],
        decreases na - i,
    {
        if a.get_char(i) != b.get_char(i) {
            return false;
        }
        i += 1;
    }
    proof {
        assert(a@ =~= b@);
    }
    true
}

/// Relies on `String::push`: appends exactly the given character.
#[verifier::external_body]
pub(crate) fn push_char(s: &mut String, c: char)
    ensures
        final(s)@ == old(s)@.push(c),
{
    s.push(c);
}

/// `c` mapped to lower case if it is an ASCII capital letter, unchanged
/// otherwise.
pub open spec fn spec_lower_char(c: char) -> char {
    if 65 <= c as u32 <= 90 {
        ((c as u32) + 32) as char
    } else {
        c
    }
}

/// `s` with every ASCII capital letter mapped to lower case.
pub open spec fn spec_lower(s: Seq<char>) -> Seq<char> {
    Seq::new(s.len(), |i: int| spec_lower_char(s[i]))
}

/// Maps an ASCII capital letter to its lower-case form.
pub fn lower_char(c: char) -> (r: char)
    ensures
        r == spec_lower_char(c),
{
    let u = c as u32;
    if 65 <= u && u <= 90 {
        ((u + 32) as u8) as char
    } else {
        c
    }
}

/// Lower-cases the ASCII letters of `s`, leaving every other character as it
/// is.
pub fn ascii_lower_str(s: &str) -> (r: String)
    ensures
        r@ =~= spec_lower(s@),
{
    let n = s.unicode_len();
    let mut r = String::new();
    let mut i: usize = 0;
    while i < n
        invariant
            i <= n,
            n == s@.len(),
            r@.len() == i,
            forall|k: int| 0 <= k < i ==> r@[k] == spec_lower_char(s@[k]),
        decreases n - i,
    {
        let c = lower_char(s.get_char(i));
        push_char(&mut r, c);
        i += 1;
    }
    r
}

/// `s` divided at every occurrence of `sep`: the pieces between separators,
/// in order, with an empty piece for every pair of adjacent separators and at
/// either end. An empty sequence yields one empty piece.
pub open spec fn split_seq(s: Seq<char>, sep: char) -> Seq<Seq<char>>
    decreases s.len(),
{
    if s.len() == 0 {
        seq![Seq::<char>::empty()]
    } else if s[0] == sep {
        seq![Seq::<char>::empty()] + split_seq(s.drop_first(), sep)
    } else {
        let r = split_seq(s.drop_first(), sep);
        seq![seq![s[0]] + r[0]] + r.drop_first()
    }
}

/// Splitting always yields at least one piece.
pub proof fn lemma_split_len(s: Seq<char>, sep: char)
    ensures
        split_seq(s, sep).len() >= 1,
    decreases s.len(),
{
    if s.len() > 0 {
        lemma_split_len(s.drop_first(), sep);
    }
}

/// A sequence without the separator splits into itself alone.
pub proof fn lemma_split_no_sep(s: Seq<char>, sep: char)
    requires
        forall|k: int| 0 <= k < s.len() ==> s[k] != sep,
    ensures
        split_seq(s, sep) =~~= seq![s],
    decreases s.len(),
{
    if s.len() > 0 {
        assert forall|k: int| 0 <= k < s.drop_first().len() implies s.drop_first()[k] != sep by {
            assert(s.drop_first()[k] == s[k + 1]);
        }
        lemma_split_no_sep(s.drop_first(), sep);
        assert(seq![s[0]] + s.drop_first() =~= s);
    }
}

/// Splitting at the first separator occurrence yields the prefix piece
/// followed by the split of the remainder.
pub proof fn lemma_split_at_first_sep(s: Seq<char>, sep: char, i: int)
    requires
        0 <= i < s.len(),
        s[i] == sep,
        forall|k: int| 0 <= k < i ==> s[k] != sep,
    ensures
        split_seq(s, sep) =~~= seq![s.subrange(0, i)] + split_seq(
            s.subrange(i + 1, s.len() as int),
            sep,
        ),
    decreases s.len(),
{
    if i == 0 {
        assert(s.subrange(0, 0) =~= Seq::<char>::empty());
        assert(s.subrange(1, s.len() as int) =~= s.drop_first());
    } else {
        let d = s.drop_first();
        assert(d[i - 1] == s[i]);
        assert forall|k: int| 0 <= k < i - 1 implies d[k] != sep by {
            assert(d[k] == s[k + 1]);
        }
        lemma_split_at_first_sep(d, sep, i - 1);
        lemma_split_len(d.subrange(i, d.len() as int), sep);
        assert(d.subrange(i, d.len() as int) =~= s.subrange(i + 1, s.len() as int));
        assert(seq![s[0]] + d.subrange(0, i - 1) =~= s.subrange(0, i));
    }
}

/// Splits `s` at every occurrence of `sep`, like `str::split`.
pub fn split_str(s: &str, sep: char) -> (r: Vec<String>)
    ensures
        r.deep_view() =~~= split_seq(s@, sep),
{
    let n = s.unicode_len();
    let mut out: Vec<String> = Vec::new();
    let mut start: usize = 0;
    let mut i: usize = 0;
    proof {
        assert(out.deep_view() =~~= Seq::<Seq<char>>::empty());
        assert(s@.subrange(0, n as int) =~= s@);
    }
    while i < n
        invariant
            start <= i <= n,
            n == s@.len(),
            forall|k: int| start <= k < i ==> s@[k] != sep,
            split_seq(s@, sep) =~~= out.deep_view() + split_seq(
                s@.subrange(start as int, n as int),
                sep,
            ),
        decreases n - i,
    {
        if s.get_char(i) == sep {
            let piece = s.substring_char(start, i).to_owned();
            proof {
                let rem = s@.subrange(start as int, n as int);
                assert(rem[i - start] == sep);
                assert forall|k: int| 0 <= k < i - start implies rem[k] != sep by {
                    assert(rem[k] == s@[k + start]);
                }
                lemma_split_at_first_sep(rem, sep, i - start);
                assert(rem.subrange(0, i - start) =~= s@.subrange(start as int, i as int));
                assert(rem.subrange(i - start + 1, rem.len() as int) =~= s@.subrange(
                    i + 1,
                    n as int,
                ));
            }
            out.push(piece);
            start = i + 1;
        }
        i += 1;
    }
    let last = s.substring_char(start, n).to_owned();
    proof {
        let rem = s@.subrange(start as int, n as int);
        assert forall|k: int| 0 <= k < rem.len() implies rem[k] != sep by {
            assert(rem[k] == s@[k + start]);
        }
        lemma_split_no_sep(rem, sep);
    }
    out.push(last);
    out
}

/// Reports whether `s` contains the character `c`.
pub fn str_contains_char(s: &str, c: char) -> (r: bool)
    ensures
        r == s@.contains(c),
{
    let n = s.unicode_len();
    let mut i: usize = 0;
    while i < n
        invariant
            i <= n,
            n == s@.len(),
            forall|k: int| 0 <= k < i ==> s@[k] != c,
        decreases n - i,
    {
        if s.get_char(i) == c {
            return true;
        }
        i += 1;
    }
    false
}

/// A UTF-8 encoding has at least one byte per character.
pub proof fn lemma_encode_utf8_len_ge(s: Seq<char>)
    ensures
        vstd::utf8::encode_utf8(s).len() >= s.len(),
    decreases s.len(),
{
    if s.len() > 0 {
        lemma_encode_utf8_len_ge(s.drop_first());
    }
}

/// A UTF-8 encoding has at most four bytes per character.
pub proof fn lemma_encode_utf8_len_le(s: Seq<char>)
    ensures
        vstd::utf8::encode_utf8(s).len() <= 4 * s.len(),
    decreases s.len(),
{
    if s.len() > 0 {
        lemma_encode_utf8_len_le(s.drop_first());
    }
}

/// Lower-casing twice is the same as lower-casing once.
pub proof fn lemma_lower_idempotent(s: Seq<char>)
    ensures
        spec_lower(spec_lower(s)) =~= spec_lower(s),
{
}

} // verus!

verus! {

/// Which characters lower-case to `x`, `n` or a hyphen: only the letter
/// itself, its capital form, or the hyphen.
pub proof fn lemma_lower_char_cases(a: char)
    ensures
        spec_lower_char(a) == 'x' ==> a == 'x' || a == 'X',
        spec_lower_char(a) == 'n' ==> a == 'n' || a == 'N',
        spec_lower_char(a) == '-' ==> a == '-',
{
    assert('x' as u32 == 120);
    assert('X' as u32 == 88);
    assert('n' as u32 == 110);
    assert('N' as u32 == 78);
    assert('-' as u32 == 45);
    if 65 <= a as u32 <= 90 {
        assert((((a as u32 + 32) as char) as u32) == a as u32 + 32);
    }
}

} // verus!
