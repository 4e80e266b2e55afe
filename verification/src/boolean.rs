//! Coercion of user-supplied tokens to booleans.
//!
//! A token is accepted when, after surrounding whitespace is stripped, it
//! equals `1`, `true` or `yes` up to ASCII letter case. Every other string,
//! the empty string included, coerces to false. Matching happens against the
//! lowercased text, so no separate uppercase-only token such as a bare `T`
//! exists: `"T"` coerces to false while `"true"`, `"TRUE"` and `" Yes "`
//! coerce to true.

use vstd::prelude::*;

verus! {

/// A character with the Unicode white-space property: what is stripped from
/// either end of a token before it is examined.
pub open spec fn is_ws_char(c: char) -> bool {
    let u = c as u32;
    u == 0x09 || u == 0x0A || u == 0x0B || u == 0x0C || u == 0x0D || u == 0x20 || u == 0x85
        || u == 0xA0 || u == 0x1680 || (0x2000 <= u && u <= 0x200A) || u == 0x2028 || u == 0x2029
        || u == 0x202F || u == 0x205F || u == 0x3000
}

/// Every character of `s` is whitespace.
pub open spec fn all_ws(s: Seq<char>) -> bool {
    forall|i: int| 0 <= i < s.len() ==> is_ws_char(#[trigger] s[i])
}

/// `s` without its leading whitespace.
pub open spec fn trim_start(s: Seq<char>) -> Seq<char>
    decreases s.len(),
{
    if s.len() == 0 {
        s
    } else if is_ws_char(s[0]) {
        trim_start(s.drop_first())
    } else {
        s
    }
}

/// `s` without its trailing whitespace.
pub open spec fn trim_end(s: Seq<char>) -> Seq<char>
    decreases s.len(),
{
    if s.len() == 0 {
        s
    } else if is_ws_char(s.last()) {
        trim_end(s.drop_last())
    } else {
        s
    }
}

/// `s` without surrounding whitespace.
pub open spec fn trimmed(s: Seq<char>) -> Seq<char> {
    trim_end(trim_start(s))
}

/// ASCII lowering of a scalar value: the letters `A`..`Z` move to `a`..`z`,
/// everything else stays.
pub open spec fn lower_scalar(u: u32) -> u32 {
    if 0x41 <= u && u <= 0x5A {
        (u + 0x20) as u32
    } else {
        u
    }
}

/// `c` equals the (lowercase) character `t` once lowercased.
pub open spec fn char_matches_ci(c: char, t: char) -> bool {
    lower_scalar(c as u32) == t as u32
}

/// `s` equals `t` character by character, up to ASCII letter case in `s`.
pub open spec fn matches_ci(s: Seq<char>, t: Seq<char>) -> bool {
    s.len() == t.len() && forall|i: int| 0 <= i < s.len() ==> char_matches_ci(#[trigger] s[i], t[i])
}

pub open spec fn token_one() -> Seq<char> {
    seq!['1']
}

pub open spec fn token_true() -> Seq<char> {
    seq!['t', 'r', 'u', 'e']
}

pub open spec fn token_yes() -> Seq<char> {
    seq!['y', 'e', 's']
}

/// `t` is one of the accepted tokens, up to ASCII letter case.
pub open spec fn is_accepting_token(t: Seq<char>) -> bool {
    matches_ci(t, token_one()) || matches_ci(t, token_true()) || matches_ci(t, token_yes())
}

/// What `string_to_bool` returns on input `s`.
pub open spec fn spec_string_to_bool(s: Seq<char>) -> bool {
    is_accepting_token(trimmed(s))
}

fn ws_char(c: char) -> (r: bool)
    ensures
        r == is_ws_char(c),
{
    let u: u32 = c as u32;
    u == 0x09 || u == 0x0A || u == 0x0B || u == 0x0C || u == 0x0D || u == 0x20 || u == 0x85
        || u == 0xA0 || u == 0x1680 || (0x2000 <= u && u <= 0x200A) || u == 0x2028 || u == 0x2029
        || u == 0x202F || u == 0x205F || u == 0x3000
}

fn char_matches(c: char, t: char) -> (r: bool)
    ensures
        r == char_matches_ci(c, t),
{
    let u: u32 = c as u32;
    let l: u32 = if 0x41 <= u && u <= 0x5A {
        u + 0x20
    } else {
        u
    };
    l == t as u32
}

proof fn lemma_trim_start_skip_to(s: Seq<char>, k: int)
    requires
        0 <= k <= s.len(),
        forall|j: int| 0 <= j < k ==> is_ws_char(#[trigger] s[j]),
        k < s.len() ==> !is_ws_char(s[k]),
    ensures
        trim_start(s) == s.subrange(k, s.len() as int),
    decreases k,
{
    if k == 0 {
        assert(trim_start(s) =~= s.subrange(0, s.len() as int));
    } else {
        assert(is_ws_char(s[0]));
        let rest = s.drop_first();
        assert(forall|j: int| 0 <= j < k - 1 ==> is_ws_char(#[trigger] rest[j]));
        assert(k - 1 < rest.len() ==> !is_ws_char(rest[k - 1]));
        lemma_trim_start_skip_to(rest, k - 1);
        assert(rest.subrange(k - 1, rest.len() as int) =~= s.subrange(k, s.len() as int));
    }
}

proof fn lemma_trim_end_keep_to(s: Seq<char>, e: int)
    requires
        0 <= e <= s.len(),
        forall|j: int| e <= j < s.len() ==> is_ws_char(#[trigger] s[j]),
        e > 0 ==> !is_ws_char(s[e - 1]),
    ensures
        trim_end(s) == s.subrange(0, e),
    decreases s.len(),
{
    if e == s.len() {
        if s.len() == 0 {
            assert(trim_end(s) =~= s.subrange(0, e));
        } else {
            assert(!is_ws_char(s.last()));
            assert(trim_end(s) =~= s.subrange(0, e));
        }
    } else {
        assert(is_ws_char(s.last()));
        let rest = s.drop_last();
        assert(forall|j: int| e <= j < rest.len() ==> is_ws_char(#[trigger] rest[j]));
        lemma_trim_end_keep_to(rest, e);
        assert(rest.subrange(0, e) =~= s.subrange(0, e));
    }
}

/// Where the leading whitespace of `s` ends at `start`, the trailing
/// whitespace begins at `end`, and what lies between starts and ends with a
/// non-whitespace character, the trimmed form of `s` is exactly that middle.
proof fn lemma_trimmed_between(s: Seq<char>, start: int, end: int)
    requires
        0 <= start <= end <= s.len(),
        forall|j: int| 0 <= j < start ==> is_ws_char(#[trigger] s[j]),
        forall|j: int| end <= j < s.len() ==> is_ws_char(#[trigger] s[j]),
        start < end ==> !is_ws_char(s[start]) && !is_ws_char(s[end - 1]),
    ensures
        trimmed(s) == s.subrange(start, end),
{
    if start == end {
        assert(forall|j: int| 0 <= j < s.len() ==> is_ws_char(#[trigger] s[j]));
        lemma_trim_start_skip_to(s, s.len() as int);
        assert(trim_start(s) =~= Seq::<char>::empty());
        assert(trimmed(s) =~= s.subrange(start, end));
    } else {
        lemma_trim_start_skip_to(s, start);
        let t = s.subrange(start, s.len() as int);
        assert(forall|j: int| end - start <= j < t.len() ==> is_ws_char(#[trigger] t[j]));
        assert(!is_ws_char(t[end - start - 1]));
        lemma_trim_end_keep_to(t, end - start);
        assert(t.subrange(0, end - start) =~= s.subrange(start, end));
    }
}

/// Coerces a user-supplied token to a boolean: true exactly when the token,
/// stripped of surrounding whitespace, equals `1`, `true` or `yes` up to
/// ASCII letter case; false for every other string. Total: it never fails.
pub fn string_to_bool(in_str: &str) -> (r: bool)
    ensures
        r == spec_string_to_bool(in_str@),
{
    let n = in_str.unicode_len();
    let mut start: usize = 0;
    while start < n && ws_char(in_str.get_char(start))
        invariant
            0 <= start <= n,
            n == in_str@.len(),
            forall|j: int| 0 <= j < start ==> is_ws_char(#[trigger] in_str@[j]),
        decreases n - start,
    {
        start += 1;
    }
    let mut end: usize = n;
    while end > start && ws_char(in_str.get_char(end - 1))
        invariant
            start <= end <= n,
            n == in_str@.len(),
            forall|j: int| end <= j < n ==> is_ws_char(#[trigger] in_str@[j]),
        decreases end,
    {
        end -= 1;
    }
    proof {
        lemma_trimmed_between(in_str@, start as int, end as int);
    }
    let ghost t = in_str@.subrange(start as int, end as int);
    let len = end - start;
    if len == 1 {
        let m0 = char_matches(in_str.get_char(start), '1');
        proof {
            assert(m0 == matches_ci(t, token_one())) by {
                assert(t[0] == in_str@[start as int]);
                assert(token_one()[0] == '1');
                if m0 {
                    assert(forall|i: int|
                        0 <= i < t.len() ==> char_matches_ci(#[trigger] t[i], token_one()[i]));
                }
            }
            assert(!matches_ci(t, token_true()));
            assert(!matches_ci(t, token_yes()));
        }
        m0
    } else if len == 4 {
        let m0 = char_matches(in_str.get_char(start), 't');
        let m1 = char_matches(in_str.get_char(start + 1), 'r');
        let m2 = char_matches(in_str.get_char(start + 2), 'u');
        let m3 = char_matches(in_str.get_char(start + 3), 'e');
        let m = m0 && m1 && m2 && m3;
        proof {
            assert(m == matches_ci(t, token_true())) by {
                assert(t[0] == in_str@[start as int]);
                assert(t[1] == in_str@[start + 1 as int]);
                assert(t[2] == in_str@[start + 2 as int]);
                assert(t[3] == in_str@[start + 3 as int]);
                assert(token_true()[0] == 't');
                assert(token_true()[1] == 'r');
                assert(token_true()[2] == 'u');
                assert(token_true()[3] == 'e');
                if m {
                    assert(forall|i: int|
                        0 <= i < t.len() ==> char_matches_ci(#[trigger] t[i], token_true()[i])) by {
                        assert(char_matches_ci(t[0], token_true()[0]));
                        assert(char_matches_ci(t[1], token_true()[1]));
                        assert(char_matches_ci(t[2], token_true()[2]));
                        assert(char_matches_ci(t[3], token_true()[3]));
                    }
                }
            }
            assert(!matches_ci(t, token_one()));
            assert(!matches_ci(t, token_yes()));
        }
        m
    } else if len == 3 {
        let m0 = char_matches(in_str.get_char(start), 'y');
        let m1 = char_matches(in_str.get_char(start + 1), 'e');
        let m2 = char_matches(in_str.get_char(start + 2), 's');
        let m = m0 && m1 && m2;
        proof {
            assert(m == matches_ci(t, token_yes())) by {
                assert(t[0] == in_str@[start as int]);
                assert(t[1] == in_str@[start + 1 as int]);
                assert(t[2] == in_str@[start + 2 as int]);
                assert(token_yes()[0] == 'y');
                assert(token_yes()[1] == 'e');
                assert(token_yes()[2] == 's');
                if m {
                    assert(forall|i: int|
                        0 <= i < t.len() ==> char_matches_ci(#[trigger] t[i], token_yes()[i])) by {
                        assert(char_matches_ci(t[0], token_yes()[0]));
                        assert(char_matches_ci(t[1], token_yes()[1]));
                        assert(char_matches_ci(t[2], token_yes()[2]));
                    }
                }
            }
            assert(!matches_ci(t, token_one()));
            assert(!matches_ci(t, token_true()));
        }
        m
    } else {
        proof {
            assert(!matches_ci(t, token_one()));
            assert(!matches_ci(t, token_true()));
            assert(!matches_ci(t, token_yes()));
        }
        false
    }
}

proof fn lemma_token_char_not_ws(c: char, t: char)
    requires
        char_matches_ci(c, t),
        t == '1' || t == 't' || t == 'r' || t == 'u' || t == 'e' || t == 'y' || t == 's',
    ensures
        !is_ws_char(c),
{
}

/// Any accepted token — `1`, `true` or `yes` in any ASCII letter case —
/// surrounded by any amount of whitespace on either side coerces to true.
pub proof fn lemma_padded_token_accepted(p: Seq<char>, core: Seq<char>, q: Seq<char>, tok: Seq<char>)
    requires
        all_ws(p),
        all_ws(q),
        tok == token_one() || tok == token_true() || tok == token_yes(),
        matches_ci(core, tok),
    ensures
        spec_string_to_bool(p + core + q),
{
    let s = p + core + q;
    let start = p.len() as int;
    let end = (p.len() + core.len()) as int;
    assert(core.len() >= 1);
    assert forall|i: int| 0 <= i < core.len() implies !is_ws_char(#[trigger] core[i]) by {
        assert(char_matches_ci(core[i], tok[i]));
        lemma_token_char_not_ws(core[i], tok[i]);
    }
    assert(forall|j: int| 0 <= j < start ==> is_ws_char(#[trigger] s[j]));
    assert(forall|j: int| end <= j < s.len() ==> is_ws_char(#[trigger] s[j]));
    assert(s[start] == core[0]);
    assert(s[end - 1] == core[core.len() - 1]);
    lemma_trimmed_between(s, start, end);
    assert(s.subrange(start, end) =~= core);
}

} // verus!
