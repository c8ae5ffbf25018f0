//! Small verified helpers on strings and characters: equality, searching,
//! whitespace trimming and delimiter stripping, all specified over the
//! `Seq<char>` views of `&str` and `String`.

use vstd::prelude::*;
use vstd::string::*;

verus! {

/// Relies on `String::push` from the standard library: appends the given
/// character to the end of the string.
pub assume_specification[ String::push ](s: &mut String, ch: char)
    ensures
        final(s)@ == old(s)@.push(ch),
;

/// ASCII whitespace, the characters insignificant around delimiters.
pub open spec fn is_space_char(c: char) -> bool {
    c == ' ' || c == '\t' || c == '\n' || c == '\r' || c == '\u{b}' || c == '\u{c}'
}

/// First index at or after `i` holding a non-whitespace character (or the end).
pub open spec fn skip_spaces(s: Seq<char>, i: int) -> int
    decreases s.len() - i,
    when 0 <= i <= s.len()
{
    if i < s.len() && is_space_char(s[i]) {
        skip_spaces(s, i + 1)
    } else {
        i
    }
}

/// Last bound at or before `j`, not below `a`, with no whitespace just before it.
pub open spec fn rskip_spaces(s: Seq<char>, a: int, j: int) -> int
    decreases j,
    when 0 <= a <= j <= s.len()
{
    if j > a && is_space_char(s[j - 1]) {
        rskip_spaces(s, a, j - 1)
    } else {
        j
    }
}

/// What trimming ASCII whitespace from both ends leaves.
pub open spec fn spec_trim(s: Seq<char>) -> Seq<char> {
    let a = skip_spaces(s, 0);
    let b = rskip_spaces(s, a, s.len() as int);
    s.subrange(a, b)
}

/// Index of the first occurrence of `c` at or after `i`, if any.
pub open spec fn find_char_from(s: Seq<char>, c: char, i: int) -> Option<int>
    decreases s.len() - i,
    when 0 <= i <= s.len()
{
    if i >= s.len() {
        None
    } else if s[i] == c {
        Some(i)
    } else {
        find_char_from(s, c, i + 1)
    }
}

/// Index of the last occurrence of `c` strictly below `j`, if any.
pub open spec fn rfind_char_before(s: Seq<char>, c: char, j: int) -> Option<int>
    decreases j,
    when 0 <= j <= s.len()
{
    if j <= 0 {
        None
    } else if s[j - 1] == c {
        Some(j - 1)
    } else {
        rfind_char_before(s, c, j - 1)
    }
}

/// First index at or after `i` whose character is not `c` (or the end).
pub open spec fn skip_char(s: Seq<char>, c: char, i: int) -> int
    decreases s.len() - i,
    when 0 <= i <= s.len()
{
    if i < s.len() && s[i] == c {
        skip_char(s, c, i + 1)
    } else {
        i
    }
}

/// Last bound at or before `j`, not below `a`, with no `c` just before it.
pub open spec fn rskip_char(s: Seq<char>, c: char, a: int, j: int) -> int
    decreases j,
    when 0 <= a <= j <= s.len()
{
    if j > a && s[j - 1] == c {
        rskip_char(s, c, a, j - 1)
    } else {
        j
    }
}

/// What stripping every leading `c` leaves.
pub open spec fn spec_trim_start_matches(s: Seq<char>, c: char) -> Seq<char> {
    s.subrange(skip_char(s, c, 0), s.len() as int)
}

/// What stripping every leading and trailing `c` leaves.
pub open spec fn spec_trim_matches(s: Seq<char>, c: char) -> Seq<char> {
    let a = skip_char(s, c, 0);
    let b = rskip_char(s, c, a, s.len() as int);
    s.subrange(a, b)
}

pub proof fn lemma_skip_spaces_bounds(s: Seq<char>, i: int)
    requires
        0 <= i <= s.len(),
    ensures
        i <= skip_spaces(s, i) <= s.len(),
    decreases s.len() - i,
{
    if i < s.len() && is_space_char(s[i]) {
        lemma_skip_spaces_bounds(s, i + 1);
    }
}

/// `skip_spaces` lands on `a` exactly when everything before `a` is
/// whitespace and `a` is the end or a non-whitespace character.
pub proof fn lemma_skip_spaces_value(s: Seq<char>, i: int, a: int)
    requires
        0 <= i <= a <= s.len(),
        forall|j: int| i <= j < a ==> is_space_char(s[j]),
        a == s.len() || !is_space_char(s[a]),
    ensures
        skip_spaces(s, i) == a,
    decreases a - i,
{
    if i < a {
        lemma_skip_spaces_value(s, i + 1, a);
    }
}

pub proof fn lemma_rskip_spaces_value(s: Seq<char>, a: int, j: int, b: int)
    requires
        0 <= a <= b <= j <= s.len(),
        forall|k: int| b <= k < j ==> is_space_char(s[k]),
        b == a || !is_space_char(s[b - 1]),
    ensures
        rskip_spaces(s, a, j) == b,
    decreases j - b,
{
    if b < j {
        lemma_rskip_spaces_value(s, a, j - 1, b);
    }
}

pub proof fn lemma_skip_char_value(s: Seq<char>, c: char, i: int, a: int)
    requires
        0 <= i <= a <= s.len(),
        forall|j: int| i <= j < a ==> s[j] == c,
        a == s.len() || s[a] != c,
    ensures
        skip_char(s, c, i) == a,
    decreases a - i,
{
    if i < a {
        lemma_skip_char_value(s, c, i + 1, a);
    }
}

pub proof fn lemma_rskip_char_value(s: Seq<char>, c: char, a: int, j: int, b: int)
    requires
        0 <= a <= b <= j <= s.len(),
        forall|k: int| b <= k < j ==> s[k] == c,
        b == a || s[b - 1] != c,
    ensures
        rskip_char(s, c, a, j) == b,
    decreases j - b,
{
    if b < j {
        lemma_rskip_char_value(s, c, a, j - 1, b);
    }
}

/// `find_char_from` finds `idx` exactly when `idx` holds `c` and nothing
/// before it (at or after `i`) does.
pub proof fn lemma_find_char_some(s: Seq<char>, c: char, i: int, idx: int)
    requires
        0 <= i <= idx < s.len(),
        s[idx] == c,
        forall|j: int| i <= j < idx ==> s[j] != c,
    ensures
        find_char_from(s, c, i) == Some(idx),
    decreases idx - i,
{
    if i < idx {
        lemma_find_char_some(s, c, i + 1, idx);
    }
}

pub proof fn lemma_find_char_none(s: Seq<char>, c: char, i: int)
    requires
        0 <= i <= s.len(),
        forall|j: int| i <= j < s.len() ==> s[j] != c,
    ensures
        find_char_from(s, c, i) is None,
    decreases s.len() - i,
{
    if i < s.len() {
        lemma_find_char_none(s, c, i + 1);
    }
}

pub proof fn lemma_rfind_char_some(s: Seq<char>, c: char, j: int, idx: int)
    requires
        0 <= idx < j <= s.len(),
        s[idx] == c,
        forall|k: int| idx < k < j ==> s[k] != c,
    ensures
        rfind_char_before(s, c, j) == Some(idx),
    decreases j - idx,
{
    if idx < j - 1 {
        lemma_rfind_char_some(s, c, j - 1, idx);
    }
}

pub proof fn lemma_rfind_char_none(s: Seq<char>, c: char, j: int)
    requires
        0 <= j <= s.len(),
        forall|k: int| 0 <= k < j ==> s[k] != c,
    ensures
        rfind_char_before(s, c, j) is None,
    decreases j,
{
    if j > 0 {
        lemma_rfind_char_none(s, c, j - 1);
    }
}

/// Character-by-character string equality, decided on the views.
pub fn str_eq(a: &str, b: &str) -> (r: bool)
    ensures
        r == (a@ == b@),
{
    let alen = a.unicode_len();
    let blen = b.unicode_len();
    if alen != blen {
        return false;
    }
    let mut i: usize = 0;
    while i < alen
        invariant
            alen == a@.len(),
            alen == b@.len(),
            i <= alen,
            forall|j: int| 0 <= j < i ==> a@[j] == b@[j],
        decreases alen - i,
    {
        if a.get_char(i) != b.get_char(i) {
            return false;
        }
        i += 1;
    }
    proof {
        assert(a@ =~= b@);
    }
    true
}

/// Whether `c` is ASCII whitespace.
pub fn is_space(c: char) -> (r: bool)
    ensures
        r == is_space_char(c),
{
    c == ' ' || c == '\t' || c == '\n' || c == '\r' || c == '\u{b}' || c == '\u{c}'
}

/// ASCII-whitespace trim of both ends.
pub fn trim(s: &str) -> (r: &str)
    ensures
        r@ == spec_trim(s@),
{
    let n = s.unicode_len();
    let mut a: usize = 0;
    while a < n && is_space(s.get_char(a))
        invariant
            n == s@.len(),
            a <= n,
            forall|j: int| 0 <= j < a ==> is_space_char(s@[j]),
        decreases n - a,
    {
        a += 1;
    }
    let mut b: usize = n;
    while b > a && is_space(s.get_char(b - 1))
        invariant
            n == s@.len(),
            a <= b <= n,
            forall|k: int| b <= k < n ==> is_space_char(s@[k]),
        decreases b,
    {
        b -= 1;
    }
    proof {
        lemma_skip_spaces_value(s@, 0, a as int);
        lemma_rskip_spaces_value(s@, a as int, s@.len() as int, b as int);
    }
    s.substring_char(a, b)
}

/// Index of the first occurrence of `c` in `s`, if any.
pub fn find_char(s: &str, c: char) -> (r: Option<usize>)
    ensures
        match r {
            Some(i) => find_char_from(s@, c, 0) == Some(i as int),
            None => find_char_from(s@, c, 0) is None,
        },
{
    let n = s.unicode_len();
    let mut i: usize = 0;
    while i < n
        invariant
            n == s@.len(),
            i <= n,
            forall|j: int| 0 <= j < i ==> s@[j] != c,
        decreases n - i,
    {
        if s.get_char(i) == c {
            proof {
                lemma_find_char_some(s@, c, 0, i as int);
            }
            return Some(i);
        }
        i += 1;
    }
    proof {
        lemma_find_char_none(s@, c, 0);
    }
    None
}

/// Index of the last occurrence of `c` in `s`, if any.
pub fn rfind_char(s: &str, c: char) -> (r: Option<usize>)
    ensures
        match r {
            Some(i) => rfind_char_before(s@, c, s@.len() as int) == Some(i as int),
            None => rfind_char_before(s@, c, s@.len() as int) is None,
        },
{
    let n = s.unicode_len();
    let mut j: usize = n;
    while j > 0
        invariant
            n == s@.len(),
            j <= n,
            forall|k: int| j <= k < n ==> s@[k] != c,
        decreases j,
    {
        if s.get_char(j - 1) == c {
            proof {
                lemma_rfind_char_some(s@, c, s@.len() as int, j - 1);
            }
            return Some(j - 1);
        }
        j -= 1;
    }
    proof {
        lemma_rfind_char_none(s@, c, s@.len() as int);
    }
    None
}

/// Strip every leading `c`.
pub fn trim_start_matches_char(s: &str, c: char) -> (r: &str)
    ensures
        r@ == spec_trim_start_matches(s@, c),
{
    let n = s.unicode_len();
    let mut a: usize = 0;
    while a < n && s.get_char(a) == c
        invariant
            n == s@.len(),
            a <= n,
            forall|j: int| 0 <= j < a ==> s@[j] == c,
        decreases n - a,
    {
        a += 1;
    }
    proof {
        lemma_skip_char_value(s@, c, 0, a as int);
    }
    s.substring_char(a, n)
}

/// Strip every leading and trailing `c`.
pub fn trim_matches_char(s: &str, c: char) -> (r: &str)
    ensures
        r@ == spec_trim_matches(s@, c),
{
    let n = s.unicode_len();
    let mut a: usize = 0;
    while a < n && s.get_char(a) == c
        invariant
            n == s@.len(),
            a <= n,
            forall|j: int| 0 <= j < a ==> s@[j] == c,
        decreases n - a,
    {
        a += 1;
    }
    let mut b: usize = n;
    while b > a && s.get_char(b - 1) == c
        invariant
            n == s@.len(),
            a <= b <= n,
            forall|k: int| b <= k < n ==> s@[k] == c,
        decreases b,
    {
        b -= 1;
    }
    proof {
        lemma_skip_char_value(s@, c, 0, a as int);
        lemma_rskip_char_value(s@, c, a as int, s@.len() as int, b as int);
    }
    s.substring_char(a, b)
}

/// Whether `p@` is a prefix of `s@`.
pub open spec fn spec_starts_with(s: Seq<char>, p: Seq<char>) -> bool {
    p.len() <= s.len() && s.subrange(0, p.len() as int) == p
}

/// Prefix test, decided on the views.
pub fn str_starts_with(s: &str, p: &str) -> (r: bool)
    ensures
        r == spec_starts_with(s@, p@),
{
    let n = s.unicode_len();
    let m = p.unicode_len();
    if m > n {
        proof {
            assert(!spec_starts_with(s@, p@));
        }
        return false;
    }
    let mut i: usize = 0;
    while i < m
        invariant
            n == s@.len(),
            m == p@.len(),
            m <= n,
            i <= m,
            forall|j: int| 0 <= j < i ==> s@[j] == p@[j],
        decreases m - i,
    {
        if s.get_char(i) != p.get_char(i) {
            proof {
                assert(s@.subrange(0, p@.len() as int)[i as int] == s@[i as int]);
            }
            return false;
        }
        i += 1;
    }
    proof {
        assert(s@.subrange(0, p@.len() as int) =~= p@);
    }
    true
}

/// Copy a character range of `s` into an owned string.
pub fn substring_owned(s: &str, from: usize, to: usize) -> (r: String)
    requires
        from <= to <= s@.len(),
    ensures
        r@ == s@.subrange(from as int, to as int),
{
    s.substring_char(from, to).to_owned()
}

/// The views of a sequence of owned strings.
pub open spec fn strings_view(v: Seq<String>) -> Seq<Seq<char>> {
    v.map(|i: int, x: String| x@)
}

/// Everything `find_char_from` promises of its answer.
pub proof fn lemma_find_char_props(s: Seq<char>, c: char, i: int)
    requires
        0 <= i <= s.len(),
    ensures
        match find_char_from(s, c, i) {
            Some(j) => i <= j < s.len() && s[j] == c && forall|t: int| i <= t < j ==> s[t] != c,
            None => forall|t: int| i <= t < s.len() ==> s[t] != c,
        },
    decreases s.len() - i,
{
    if i < s.len() && s[i] != c {
        lemma_find_char_props(s, c, i + 1);
    }
}

/// Everything `rfind_char_before` promises of its answer.
pub proof fn lemma_rfind_char_props(s: Seq<char>, c: char, j: int)
    requires
        0 <= j <= s.len(),
    ensures
        match rfind_char_before(s, c, j) {
            Some(idx) => 0 <= idx < j && s[idx] == c && forall|t: int| idx < t < j ==> s[t] != c,
            None => forall|t: int| 0 <= t < j ==> s[t] != c,
        },
    decreases j,
{
    if j > 0 && s[j - 1] != c {
        lemma_rfind_char_props(s, c, j - 1);
    }
}

} // verus!
