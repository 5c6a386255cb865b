//! General-purpose character and substring searching on strings, together
//! with the specification-level notions the rest of the crate states its
//! contracts with.

use vstd::prelude::*;

verus! {

/// `c` occurs somewhere in `s`.
pub open spec fn contains_char(s: Seq<char>, c: char) -> bool {
    exists|i: int| 0 <= i < s.len() && s[i] == c
}

/// `i` is the index of the first occurrence of `c` in `s`.
pub open spec fn first_char_at(s: Seq<char>, c: char, i: int) -> bool {
    &&& 0 <= i < s.len()
    &&& s[i] == c
    &&& forall|j: int| 0 <= j < i ==> s[j] != c
}

/// `pat` occurs in `s` starting at index `i`.
pub open spec fn matches_at(s: Seq<char>, pat: Seq<char>, i: int) -> bool {
    &&& 0 <= i
    &&& i + pat.len() <= s.len()
    &&& s.subrange(i, i + pat.len() as int) == pat
}

/// `pat` occurs somewhere in `s`.
pub open spec fn contains_seq(s: Seq<char>, pat: Seq<char>) -> bool {
    exists|i: int| matches_at(s, pat, i)
}

/// `i` is the index of the first occurrence of `pat` in `s`.
pub open spec fn first_match_at(s: Seq<char>, pat: Seq<char>, i: int) -> bool {
    &&& matches_at(s, pat, i)
    &&& forall|j: int| 0 <= j < i ==> !matches_at(s, pat, j)
}

/// Index of the first occurrence of `c` in `s`, if any.
pub open spec fn spec_find_char(s: Seq<char>, c: char) -> Option<int>
    decreases s.len(),
{
    if s.len() == 0 {
        None
    } else if s[0] == c {
        Some(0int)
    } else {
        match spec_find_char(s.skip(1), c) {
            Some(i) => Some(i + 1),
            None => None,
        }
    }
}

/// Index of the first occurrence of `pat` in `s`, if any.
pub open spec fn spec_find_seq(s: Seq<char>, pat: Seq<char>) -> Option<int>
    decreases s.len(),
    via spec_find_seq_decreases
{
    if s.len() < pat.len() {
        None
    } else if s.subrange(0, pat.len() as int) == pat {
        Some(0int)
    } else {
        match spec_find_seq(s.skip(1), pat) {
            Some(i) => Some(i + 1),
            None => None,
        }
    }
}

#[via_fn]
proof fn spec_find_seq_decreases(s: Seq<char>, pat: Seq<char>) {
    if s.len() >= pat.len() && s.subrange(0, pat.len() as int) != pat {
        if s.len() == 0 {
            assert(s.subrange(0, pat.len() as int) =~= pat);
        }
    }
}

/// `spec_find_char` returns exactly the first occurrence of `c`.
pub proof fn lemma_spec_find_char(s: Seq<char>, c: char)
    ensures
        match spec_find_char(s, c) {
            Some(i) => first_char_at(s, c, i),
            None => !contains_char(s, c),
        },
    decreases s.len(),
{
    if s.len() == 0 {
    } else if s[0] == c {
    } else {
        lemma_spec_find_char(s.skip(1), c);
        let t = s.skip(1);
        assert(forall|j: int| 0 <= j < t.len() ==> t[j] == s[j + 1]);
        match spec_find_char(t, c) {
            Some(i) => {
                assert(s[i + 1] == t[i]);
                assert(forall|j: int| 1 <= j < i + 1 ==> s[j] == t[j - 1] && t[j - 1] != c);
            },
            None => {
                assert forall|j: int| 0 <= j < s.len() implies s[j] != c by {
                    if j > 0 {
                        assert(s[j] == t[j - 1]);
                    }
                }
            },
        }
    }
}

/// Shifting a sequence by one shifts every match by one.
proof fn lemma_matches_at_shift(s: Seq<char>, pat: Seq<char>, i: int)
    requires
        s.len() > 0,
        0 <= i,
    ensures
        matches_at(s, pat, i + 1) == matches_at(s.skip(1), pat, i),
{
    let t = s.skip(1);
    if i + 1 + pat.len() <= s.len() {
        assert(t.subrange(i, i + pat.len() as int) =~= s.subrange(i + 1, i + 1 + pat.len() as int));
    }
}

/// `spec_find_seq` returns exactly the first occurrence of `pat`.
pub proof fn lemma_spec_find_seq(s: Seq<char>, pat: Seq<char>)
    ensures
        match spec_find_seq(s, pat) {
            Some(i) => first_match_at(s, pat, i),
            None => !contains_seq(s, pat),
        },
    decreases s.len(),
{
    if s.len() < pat.len() {
        assert forall|i: int| !matches_at(s, pat, i) by {}
    } else if s.subrange(0, pat.len() as int) == pat {
        assert(matches_at(s, pat, 0));
    } else {
        assert(s.len() > 0) by {
            if s.len() == 0 {
                assert(s.subrange(0, pat.len() as int) =~= pat);
            }
        }
        lemma_spec_find_seq(s.skip(1), pat);
        assert forall|i: int| 0 <= i implies matches_at(s, pat, i + 1) == matches_at(
            s.skip(1),
            pat,
            i,
        ) by {
            lemma_matches_at_shift(s, pat, i);
        }
        match spec_find_seq(s.skip(1), pat) {
            Some(i) => {
                assert(matches_at(s, pat, i + 1));
                assert forall|j: int| 0 <= j < i + 1 implies !matches_at(s, pat, j) by {
                    if j > 0 {
                        lemma_matches_at_shift(s, pat, j - 1);
                    }
                }
            },
            None => {
                assert forall|j: int| !matches_at(s, pat, j) by {
                    if j > 0 {
                        lemma_matches_at_shift(s, pat, j - 1);
                    } else if j == 0 {
                        assert(s.subrange(0, pat.len() as int) != pat);
                    }
                }
            },
        }
    }
}

/// Returns the index of the first occurrence of `c` in `s`, if any.
pub fn find_char(s: &str, c: char) -> (r: Option<usize>)
    ensures
        match r {
            Some(i) => first_char_at(s@, c, i as int),
            None => !contains_char(s@, c),
        },
{
    let n = s.unicode_len();
    let mut i: usize = 0;
    while i < n
        invariant
            n == s@.len(),
            0 <= i <= n,
            forall|j: int| 0 <= j < i ==> s@[j] != c,
        decreases n - i,
    {
        if s.get_char(i) == c {
            return Some(i);
        }
        i = i + 1;
    }
    None
}

/// Whether `pat` occurs in `s` starting at index `i`.
fn match_at(s: &str, pat: &str, i: usize) -> (r: bool)
    requires
        i + pat@.len() <= s@.len(),
    ensures
        r == matches_at(s@, pat@, i as int),
{
    let n = s.unicode_len();
    let m = pat.unicode_len();
    let mut k: usize = 0;
    while k < m
        invariant
            n == s@.len(),
            m == pat@.len(),
            i + m <= s@.len(),
            0 <= k <= m,
            forall|j: int| 0 <= j < k ==> s@[i + j] == pat@[j],
        decreases m - k,
    {
        if s.get_char(i + k) != pat.get_char(k) {
            proof {
                assert(s@.subrange(i as int, i + m as int)[k as int] == s@[i + k]);
            }
            return false;
        }
        k = k + 1;
    }
    proof {
        assert(s@.subrange(i as int, i + m as int) =~= pat@);
    }
    true
}

/// Returns the index of the first occurrence of `pat` in `s`, if any.
pub fn find_substr(s: &str, pat: &str) -> (r: Option<usize>)
    ensures
        match r {
            Some(i) => first_match_at(s@, pat@, i as int),
            None => !contains_seq(s@, pat@),
        },
{
    let n = s.unicode_len();
    let m = pat.unicode_len();
    if m > n {
        return None;
    }
    if m == 0 {
        proof {
            assert(s@.subrange(0, 0) =~= pat@);
        }
        return Some(0);
    }
    let mut i: usize = 0;
    while i <= n - m
        invariant
            n == s@.len(),
            m == pat@.len(),
            0 < m <= n,
            0 <= i <= n - m + 1,
            forall|j: int| 0 <= j < i ==> !matches_at(s@, pat@, j),
        decreases n - i,
    {
        if match_at(s, pat, i) {
            return Some(i);
        }
        i = i + 1;
    }
    None
}

/// Whether `pat` occurs somewhere in `s`.
pub fn contains_substr(s: &str, pat: &str) -> (r: bool)
    ensures
        r == contains_seq(s@, pat@),
{
    match find_substr(s, pat) {
        Some(_) => true,
        None => false,
    }
}

/// Character-for-character string equality.
pub fn str_eq(a: &str, b: &str) -> (r: bool)
    ensures
        r == (a@ == b@),
{
    let n = a.unicode_len();
    let m = b.unicode_len();
    if n != m {
        return false;
    }
    let mut i: usize = 0;
    while i < n
        invariant
            n == a@.len(),
            n == b@.len(),
            0 <= i <= n,
            forall|j: int| 0 <= j < i ==> a@[j] == b@[j],
        decreases n - i,
    {
        if a.get_char(i) != b.get_char(i) {
            return false;
        }
        i = i + 1;
    }
    proof {
        assert(a@ =~= b@);
    }
    true
}

/// The characters the parser treats as whitespace at the start of a line.
pub open spec fn is_space(c: char) -> bool {
    c == ' ' || c == '\t' || c == '\r' || c == '\n'
}

/// `s` with its leading whitespace removed.
pub open spec fn spec_trim_start(s: Seq<char>) -> Seq<char>
    decreases s.len(),
{
    if s.len() == 0 {
        s
    } else if is_space(s[0]) {
        spec_trim_start(s.skip(1))
    } else {
        s
    }
}

/// Returns `s` with its leading whitespace removed.
pub fn trim_start(s: &str) -> (r: String)
    ensures
        r@ == spec_trim_start(s@),
{
    let n = s.unicode_len();
    let mut i: usize = 0;
    proof {
        assert(s@.skip(0) =~= s@);
    }
    while i < n
        invariant
            n == s@.len(),
            0 <= i <= n,
            spec_trim_start(s@) == spec_trim_start(s@.skip(i as int)),
        ensures
            0 <= i <= n,
            n == s@.len(),
            spec_trim_start(s@) == spec_trim_start(s@.skip(i as int)),
            i < n ==> !is_space(s@[i as int]),
        decreases n - i,
    {
        let c = s.get_char(i);
        if !(c == ' ' || c == '\t' || c == '\r' || c == '\n') {
            break ;
        }
        proof {
            assert(s@.skip(i as int)[0] == s@[i as int]);
            assert(s@.skip(i as int).skip(1) =~= s@.skip(i + 1));
        }
        i = i + 1;
    }
    proof {
        if i < n {
            assert(s@.skip(i as int)[0] == s@[i as int]);
        }
        assert(spec_trim_start(s@.skip(i as int)) == s@.skip(i as int));
        assert(s@.skip(i as int) =~= s@.subrange(i as int, n as int));
    }
    String::from_str(s.substring_char(i, n))
}

/// Trailing `"\n"` (and then a trailing `"\r"`) removed, as done to raw
/// console input before it is interpreted.
pub open spec fn spec_clean_input(s: Seq<char>) -> Seq<char> {
    let t = if s.len() > 0 && s.last() == '\n' {
        s.drop_last()
    } else {
        s
    };
    if t.len() > 0 && t.last() == '\r' {
        t.drop_last()
    } else {
        t
    }
}

/// Strips one trailing newline (and a carriage return before it) from a line
/// of console input, both in place and in the returned copy.
pub fn clean_user_input(s: &mut String) -> (r: String)
    ensures
        final(s)@ == spec_clean_input(old(s)@),
        r@ == spec_clean_input(old(s)@),
{
    let n = s.as_str().unicode_len();
    let mut end: usize = n;
    if end > 0 && s.as_str().get_char(end - 1) == '\n' {
        end = end - 1;
    }
    if end > 0 && s.as_str().get_char(end - 1) == '\r' {
        end = end - 1;
    }
    let cleaned = String::from_str(s.as_str().substring_char(0, end));
    proof {
        let v = old(s)@;
        let t = if v.len() > 0 && v.last() == '\n' {
            v.drop_last()
        } else {
            v
        };
        assert(t =~= v.subrange(0, t.len() as int));
        assert(spec_clean_input(v) =~= v.subrange(0, spec_clean_input(v).len() as int));
        assert(cleaned@ =~= spec_clean_input(v));
    }
    let r = cleaned.clone();
    *s = cleaned;
    r
}

} // verus!
