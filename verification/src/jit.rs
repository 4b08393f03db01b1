//! A compact streaming state machine for byte-at-a-time validation: the
//! caller feeds bytes one by one and may ask at any point whether the
//! stream is already rejected or could be accepted as it stands.

use vstd::prelude::*;

verus! {

/// A streaming validation state: a coarse four-state machine (local start,
/// local part, domain start, domain, with `255` for rejection) plus the
/// counts and the last byte needed to extend it.
#[derive(Clone, Copy, PartialEq, Eq, Structural, Debug)]
pub struct ValidationState {
    /// `0` local start, `1` local, `2` domain start, `3` domain, `255`
    /// rejected.
    pub state: u8,
    /// How many `@` signs were fed.
    pub at_count: u8,
    /// How many dots were fed in the domain part.
    pub dot_count: u8,
    /// The previous byte fed, `0` initially.
    pub last_char: u8,
}

/// The state after feeding `b` in state `v`: a dot or `@` cannot open
/// either part, a second `@` or a doubled dot in the local part rejects,
/// and dots are counted in the domain.
pub open spec fn spec_transition(v: ValidationState, b: u8) -> ValidationState {
    let s = if v.state == 0 {
        if b == 64 || b == 46 {
            ValidationState { state: 255, at_count: v.at_count, dot_count: v.dot_count, last_char: v.last_char }
        } else {
            ValidationState { state: 1, at_count: v.at_count, dot_count: v.dot_count, last_char: v.last_char }
        }
    } else if v.state == 1 {
        if b == 64 {
            if v.at_count + 1 > 1 {
                ValidationState { state: 255, at_count: (v.at_count + 1) as u8, dot_count: v.dot_count, last_char: v.last_char }
            } else {
                ValidationState { state: 2, at_count: (v.at_count + 1) as u8, dot_count: v.dot_count, last_char: v.last_char }
            }
        } else if b == 46 && v.last_char == 46 {
            ValidationState { state: 255, at_count: v.at_count, dot_count: v.dot_count, last_char: v.last_char }
        } else {
            v
        }
    } else if v.state == 2 {
        if b == 46 || b == 64 {
            ValidationState { state: 255, at_count: v.at_count, dot_count: v.dot_count, last_char: v.last_char }
        } else {
            ValidationState { state: 3, at_count: v.at_count, dot_count: v.dot_count, last_char: v.last_char }
        }
    } else if v.state == 3 {
        if b == 64 {
            ValidationState { state: 255, at_count: v.at_count, dot_count: v.dot_count, last_char: v.last_char }
        } else if b == 46 {
            ValidationState { state: 3, at_count: v.at_count, dot_count: (v.dot_count + 1) as u8, last_char: v.last_char }
        } else {
            v
        }
    } else {
        v
    };
    ValidationState { state: s.state, at_count: s.at_count, dot_count: s.dot_count, last_char: b }
}

impl ValidationState {
    /// The initial state: nothing fed yet.
    pub fn new() -> (r: Self)
        ensures
            r.state == 0,
            r.at_count == 0,
            r.dot_count == 0,
            r.last_char == 0,
    {
        ValidationState { state: 0, at_count: 0, dot_count: 0, last_char: 0 }
    }

    /// Feeds one byte.
    pub fn transition(&mut self, b: u8)
        requires
            old(self).at_count < 255,
            old(self).dot_count < 255,
        ensures
            *final(self) == spec_transition(*old(self), b),
    {
        match self.state {
            0 => {
                if b == 64 || b == 46 {
                    self.state = 255;
                } else {
                    self.state = 1;
                }
            },
            1 => {
                if b == 64 {
                    self.at_count += 1;
                    if self.at_count > 1 {
                        self.state = 255;
                    } else {
                        self.state = 2;
                    }
                } else if b == 46 && self.last_char == 46 {
                    self.state = 255;
                }
            },
            2 => {
                if b == 46 || b == 64 {
                    self.state = 255;
                } else {
                    self.state = 3;
                }
            },
            3 => {
                if b == 64 {
                    self.state = 255;
                } else if b == 46 {
                    self.dot_count += 1;
                }
            },
            _ => {},
        }
        self.last_char = b;
    }

    /// Whether the stream fed so far is already outside the machine's
    /// language.
    pub fn is_rejected(&self) -> (r: bool)
        ensures
            r == (self.state == 255),
    {
        self.state == 255
    }

    /// Whether the stream fed so far could be accepted as it stands: in
    /// the domain, one `@` fed, and at least one domain dot.
    pub fn can_accept(&self) -> (r: bool)
        ensures
            r == (self.state == 3 && self.at_count == 1 && self.dot_count >= 1),
    {
        self.state == 3 && self.at_count == 1 && self.dot_count >= 1
    }
}

/// The machine after feeding the characters of `s` (assumed ASCII, so each
/// character is its own byte), in order, from the initial state.
pub open spec fn spec_feed(s: Seq<char>) -> ValidationState
    decreases s.len(),
{
    if s.len() == 0 {
        ValidationState { state: 0, at_count: 0, dot_count: 0, last_char: 0 }
    } else {
        spec_transition(spec_feed(s.drop_last()), s.last() as u8)
    }
}

/// A doubled dot before any `@`.
pub open spec fn spec_bad_dots_at(s: Seq<char>, i: int) -> bool {
    &&& 0 <= i
    &&& i + 1 < s.len()
    &&& s[i] == '.'
    &&& s[i + 1] == '.'
    &&& forall|k: int| 0 <= k <= i ==> s[k] != '@'
}

/// A dot immediately after the first `@`.
pub open spec fn spec_bad_domain_start_at(s: Seq<char>, i: int) -> bool {
    &&& 0 <= i
    &&& i + 1 < s.len()
    &&& s[i] == '@'
    &&& s[i + 1] == '.'
    &&& forall|k: int| 0 <= k < i ==> s[k] != '@'
}

/// The patterns on which the streaming machine gives up: a leading `@` or
/// dot, a repeated `@`, a doubled dot in the local part, or a dot opening
/// the domain.
pub open spec fn spec_stream_bad(s: Seq<char>) -> bool {
    ||| (s.len() > 0 && (s[0] == '@' || s[0] == '.'))
    ||| crate::text::count_char(s, '@') >= 2
    ||| exists|i: int| #[trigger] spec_bad_dots_at(s, i)
    ||| exists|i: int| #[trigger] spec_bad_domain_start_at(s, i)
}

/// What each machine state says about an ASCII stream fed so far; `255`
/// records that one of the give-up patterns occurred.
pub open spec fn spec_feed_inv(s: Seq<char>, v: ValidationState) -> bool {
    &&& (v.state == 0 ==> s.len() == 0)
    &&& (v.state == 1 ==> {
        &&& s.len() > 0
        &&& s[0] != '@'
        &&& s[0] != '.'
        &&& crate::text::count_char(s, '@') == 0
        &&& v.at_count == 0
        &&& v.last_char == s.last() as u8
        &&& forall|m: int| 0 <= m && m + 1 < s.len() ==> !(#[trigger] s[m] == '.' && s[m + 1] == '.')
    })
    &&& (v.state == 2 ==> {
        &&& s.len() > 0
        &&& s[0] != '@'
        &&& s[0] != '.'
        &&& s.last() == '@'
        &&& crate::text::count_char(s, '@') == 1
        &&& forall|m: int| 0 <= m && m + 1 < s.len() ==> !(#[trigger] s[m] == '.' && s[m + 1] == '.')
    })
    &&& (v.state == 3 ==> {
        let f = crate::text::find_char(s, '@');
        &&& 1 <= f < s.len() - 1
        &&& crate::text::count_char(s, '@') == 1
        &&& s[0] != '.'
        &&& s[f + 1] != '.'
        &&& forall|m: int| 0 <= m && m + 1 < f ==> !(#[trigger] s[m] == '.' && s[m + 1] == '.')
    })
    &&& (v.state == 255 ==> spec_stream_bad(s))
    &&& (v.state == 0 || v.state == 1 || v.state == 2 || v.state == 3 || v.state == 255)
}

/// Feeding an ASCII stream keeps the machine's state faithful to it; in
/// particular, reaching the rejected state means one of the give-up
/// patterns really occurred.
pub proof fn lemma_feed_inv(s: Seq<char>)
    requires
        vstd::utf8::is_ascii_chars(s),
    ensures
        spec_feed_inv(s, spec_feed(s)),
    decreases s.len(),
{
    broadcast use vstd::utf8::char_u32_cast;

    assert('@' as u32 == 64);
    assert('.' as u32 == 46);
    if s.len() > 0 {
        let p = s.drop_last();
        let c = s.last();
        let b = c as u8;
        assert(vstd::utf8::is_ascii_chars(p)) by {
            assert(forall|k: int| 0 <= k < p.len() ==> p[k] == s[k]);
        }
        lemma_feed_inv(p);
        let prev = spec_feed(p);
        let cur = spec_feed(s);
        assert((c as u32) < 128) by {
            assert('\0' <= s[s.len() - 1] <= '\u{7f}');
        }
        assert((b == 64) == (c == '@'));
        assert((b == 46) == (c == '.'));
        assert(forall|k: int| 0 <= k < p.len() ==> p[k] == s[k]);
        if prev.state == 0 {
            assert(s =~= seq![c]);
            if !(b == 64 || b == 46) {
                crate::text::lemma_count_none(s, '@');
            }
        } else if prev.state == 1 {
            crate::text::lemma_count_char_step(s, '@', s.len() - 1);
            assert(s.subrange(0, s.len() - 1) =~= p);
            if b == 64 {
                assert(cur.state == 2);
            } else if b == 46 && prev.last_char == 46 {
                let i = s.len() - 2;
                assert(p.last() as u8 == 46);
                assert((p.last() as u32) < 128) by {
                    assert('\0' <= p[p.len() - 1] <= '\u{7f}');
                }
                assert(p.last() == '.');
                assert forall|k: int| 0 <= k <= i implies s[k] != '@' by {
                    if s[k] == '@' {
                        crate::text::lemma_count_char_lb(p, '@', k);
                    }
                }
                assert(spec_bad_dots_at(s, i));
            } else {
                assert(cur.state == 1);
                assert forall|m: int|
                    0 <= m && m + 1 < s.len() implies !(#[trigger] s[m] == '.' && s[m + 1]
                    == '.') by {
                    if m + 1 == s.len() - 1 {
                        assert(p.last() as u8 == prev.last_char);
                        if s[m] == '.' && s[m + 1] == '.' {
                            assert(p.last() == '.');
                            assert(prev.last_char == 46);
                        }
                    }
                }
            }
        } else if prev.state == 2 {
            crate::text::lemma_count_char_step(s, '@', s.len() - 1);
            assert(s.subrange(0, s.len() - 1) =~= p);
            let f = s.len() - 2;
            assert(p.last() == '@');
            assert forall|k: int| 0 <= k < f implies s[k] != '@' by {
                if s[k] == '@' {
                    crate::text::lemma_count_char_step(p, '@', p.len() - 1);
                    assert(p.subrange(0, p.len() - 1) =~= p.drop_last());
                    crate::text::lemma_count_char_lb(p.drop_last(), '@', k);
                    assert(p.drop_last()[k] == s[k]);
                }
            }
            if b == 46 {
                assert(spec_bad_domain_start_at(s, f));
            } else if b == 64 {
                assert(crate::text::count_char(s, '@') == 2);
            } else {
                assert(cur.state == 3);
                crate::text::lemma_find_char_is(s, '@', f);
                assert forall|m: int|
                    0 <= m && m + 1 < f implies !(#[trigger] s[m] == '.' && s[m + 1] == '.') by {
                    assert(!(p[m] == '.' && p[m + 1] == '.'));
                }
            }
        } else if prev.state == 3 {
            crate::text::lemma_count_char_step(s, '@', s.len() - 1);
            assert(s.subrange(0, s.len() - 1) =~= p);
            if b == 64 {
                assert(crate::text::count_char(s, '@') == 2);
            } else {
                assert(cur.state == 3);
                let f = crate::text::find_char(p, '@');
                crate::text::lemma_find_char(p, '@');
                crate::text::lemma_find_char_is(s, '@', f);
                assert(s[f + 1] == p[f + 1]);
            }
        } else {
            assert(prev.state == 255);
            assert(spec_stream_bad(p));
            assert(cur.state == 255);
            if p.len() > 0 && (p[0] == '@' || p[0] == '.') {
                assert(s[0] == p[0]);
            } else if crate::text::count_char(p, '@') >= 2 {
                crate::text::lemma_count_char_step(s, '@', s.len() - 1);
                assert(s.subrange(0, s.len() - 1) =~= p);
            } else if exists|i: int| #[trigger] spec_bad_dots_at(p, i) {
                let i = choose|i: int| #[trigger] spec_bad_dots_at(p, i);
                assert(spec_bad_dots_at(s, i));
            } else {
                let i = choose|i: int| #[trigger] spec_bad_domain_start_at(p, i);
                assert(spec_bad_domain_start_at(s, i));
            }
        }
    }
}

/// Whether the validator would take the domain part of `s` as-is: either
/// the trimmed input does not have exactly one `@`, or what follows its
/// `@` is a plain-ASCII domain (no conversion needed).
pub open spec fn spec_domain_taken_as_is(s: Seq<char>) -> bool {
    let t = crate::text::spec_trim(s);
    crate::text::count_char(t, '@') == 1 ==> crate::domain::spec_plain_domain(
        t.subrange(crate::text::find_char(t, '@') + 1, t.len() as int),
    )
}

/// A streaming reject is conservative: on an ASCII input whose domain part
/// the validator takes as-is, a rejected stream is an invalid address.
/// Internationalized inputs and domains that go through the ASCII
/// conversion are outside the machine's mandate and must use the full
/// validator whatever the machine said.
#[verifier::rlimit(60)]
pub proof fn lemma_streaming_reject_sound(s: Seq<char>, allow_smtputf8: bool)
    requires
        vstd::utf8::is_ascii_chars(s),
        spec_feed(s).state == 255,
        spec_domain_taken_as_is(s),
    ensures
        crate::validator::spec_validate(s, allow_smtputf8).is_err(),
{
    lemma_feed_inv(s);
    assert(spec_stream_bad(s));
    assert('@' as u32 == 64);
    assert('.' as u32 == 46);
    assert(!crate::text::spec_is_ws('@'));
    assert(!crate::text::spec_is_ws('.'));
    let t = crate::text::spec_trim(s);
    crate::text::lemma_trim_count(s, '@');
    crate::text::lemma_trim_shape(s);
    let (a, b) = choose|a: int, b: int|
        {
            &&& 0 <= a <= b <= s.len()
            &&& #[trigger] crate::text::spec_trim(s) =~= s.subrange(a, b)
            &&& forall|k: int| 0 <= k < a ==> crate::text::spec_is_ws(s[k])
            &&& forall|k: int| b <= k < s.len() ==> crate::text::spec_is_ws(s[k])
        };
    if t.len() == 0 {
        // Err(Empty)
    } else {
        let cnt = crate::text::count_char(t, '@');
        if cnt == 0 || cnt >= 2 {
            // Err(MissingAt) or Err(MultipleAt)
        } else {
            crate::text::lemma_find_char(t, '@');
            let f = crate::text::find_char(t, '@');
            if f == -1 {
                crate::text::lemma_count_none(t, '@');
            }
            assert(0 <= f < t.len());
            assert(t[f] == '@');
            let local = t.subrange(0, f);
            let domain = t.subrange(f + 1, t.len() as int);
            if s.len() > 0 && (s[0] == '@' || s[0] == '.') {
                assert(a == 0);
                assert(t[0] == s[0]);
                if s[0] == '@' {
                    crate::text::lemma_find_char_is(t, '@', 0);
                    assert(t.subrange(0, 0) =~= Seq::<char>::empty());
                    assert(crate::syntax::spec_local_error(local, allow_smtputf8) is Some);
                } else {
                    assert(t[f] == '@');
                    assert(f >= 1);
                    assert(local[0] == '.');
                    assert(crate::syntax::spec_local_error(local, allow_smtputf8) is Some);
                }
            } else if crate::text::count_char(s, '@') >= 2 {
                assert(false);
            } else if exists|i: int| #[trigger] spec_bad_dots_at(s, i) {
                let i = choose|i: int| #[trigger] spec_bad_dots_at(s, i);
                assert(a <= i) by {
                    if i < a {
                        assert(crate::text::spec_is_ws(s[i]));
                    }
                }
                assert(i + 1 < b) by {
                    if i + 1 >= b {
                        assert(crate::text::spec_is_ws(s[i + 1]));
                    }
                }
                let ti = i - a;
                assert(t[ti] == s[i]);
                assert(t[ti + 1] == s[i + 1]);
                assert(f != ti && f != ti + 1);
                assert(f > ti + 1) by {
                    if f < ti {
                        assert(t[f] == s[f + a]);
                        assert(f + a <= i);
                        assert(s[f + a] != '@');
                    }
                }
                assert(local[ti] == '.' && local[ti + 1] == '.');
                if crate::syntax::spec_local_scan(local, allow_smtputf8, 0, false) is None {
                    crate::syntax::lemma_local_scan_no_pairs(local, allow_smtputf8, 0, false);
                }
                assert(crate::syntax::spec_local_error(local, allow_smtputf8) is Some);
            } else {
                let i = choose|i: int| #[trigger] spec_bad_domain_start_at(s, i);
                assert(a <= i) by {
                    if i < a {
                        assert(crate::text::spec_is_ws(s[i]));
                    }
                }
                assert(i + 1 < b) by {
                    if i + 1 >= b {
                        assert(crate::text::spec_is_ws(s[i + 1]));
                    }
                }
                let ti = i - a;
                assert(t[ti] == s[i]);
                assert forall|k: int| 0 <= k < ti implies t[k] != '@' by {
                    assert(t[k] == s[k + a]);
                }
                crate::text::lemma_find_char_is(t, '@', ti);
                assert(domain[0] == t[ti + 1]);
                assert(domain[0] == '.');
                if crate::syntax::spec_local_error(local, allow_smtputf8) is None {
                    assert(domain.len() > 0);
                    assert(domain[0] != '[');
                    if vstd::utf8::encode_utf8(domain).len() <= 253 {
                        assert(crate::domain::spec_plain_domain(domain));
                        let labs = crate::text::split_seq(domain, '.');
                        crate::text::lemma_split_at_first_sep(domain, '.', 0);
                        assert(labs[0] =~= domain.subrange(0, 0));
                        assert(labs[0].len() == 0);
                        assert(crate::domain::spec_label_error(labs[0]) is Some);
                        assert(domain.contains('.'));
                        if !crate::domain::spec_all_numeric(labs) {
                            assert(crate::domain::spec_labels_error(labs) is Some);
                        }
                        assert(crate::domain::spec_hostname_error(domain) is Some);
                    }
                }
            }
        }
    }
}

/// Finds the position (in characters) of the first `@` sign.
pub fn find_at_fast(s: &str) -> (r: Option<usize>)
    ensures
        match r {
            Some(p) => p == crate::text::find_char(s@, '@') && s@[p as int] == '@',
            None => crate::text::find_char(s@, '@') == -1,
        },
{
    let (_, first) = crate::lookup::count_at_swar(s);
    first
}

/// The verdict of a streaming validation that may not have seen the whole
/// input yet.
#[derive(Clone, Copy, PartialEq, Eq, Structural, Debug)]
pub enum StreamingResult {
    /// The stream fed so far is acceptable as a complete address.
    Valid,
    /// The stream fed so far can no longer become acceptable.
    Invalid,
    /// More input is needed to decide.
    NeedMore,
}

} // verus!
