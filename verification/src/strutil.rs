//! Character-sequence helpers shared by the resolver and the session codecs:
//! whitespace scanning, substring search, and conversions between `str`,
//! `String` and `Vec<char>`.
use vstd::prelude::*;
use vstd::string::*;

verus! {

/// The whitespace characters that separate tokens of a command line.
pub open spec fn is_space_char(c: char) -> bool {
    c == ' ' || c == '\t' || c == '\n' || c == '\r'
}

pub fn is_space(c: char) -> (r: bool)
    ensures
        r == is_space_char(c),
{
    c == ' ' || c == '\t' || c == '\n' || c == '\r'
}

/// First index at or after `i` holding a non-space character, or `s.len()`.
pub open spec fn skip_spaces(s: Seq<char>, i: int) -> int
    decreases s.len() - i,
{
    if i < 0 || i >= s.len() {
        i
    } else if is_space_char(s[i]) {
        skip_spaces(s, i + 1)
    } else {
        i
    }
}

/// First index at or after `i` holding a space character, or `s.len()`.
pub open spec fn skip_non_spaces(s: Seq<char>, i: int) -> int
    decreases s.len() - i,
{
    if i < 0 || i >= s.len() {
        i
    } else if !is_space_char(s[i]) {
        skip_non_spaces(s, i + 1)
    } else {
        i
    }
}

pub proof fn lemma_skip_spaces(s: Seq<char>, i: int)
    requires
        0 <= i <= s.len(),
    ensures
        i <= skip_spaces(s, i) <= s.len(),
        forall|j: int| i <= j < skip_spaces(s, i) ==> is_space_char(s[j]),
        skip_spaces(s, i) < s.len() ==> !is_space_char(s[skip_spaces(s, i)]),
    decreases s.len() - i,
{
    if i < s.len() && is_space_char(s[i]) {
        lemma_skip_spaces(s, i + 1);
    }
}

pub proof fn lemma_skip_non_spaces(s: Seq<char>, i: int)
    requires
        0 <= i <= s.len(),
    ensures
        i <= skip_non_spaces(s, i) <= s.len(),
        forall|j: int| i <= j < skip_non_spaces(s, i) ==> !is_space_char(s[j]),
        skip_non_spaces(s, i) < s.len() ==> is_space_char(s[skip_non_spaces(s, i)]),
    decreases s.len() - i,
{
    if i < s.len() && !is_space_char(s[i]) {
        lemma_skip_non_spaces(s, i + 1);
    }
}

/// Start of the first whitespace-separated token of `s`.
pub open spec fn token_start(s: Seq<char>) -> int {
    skip_spaces(s, 0)
}

/// End of the first whitespace-separated token of `s`.
pub open spec fn token_end(s: Seq<char>) -> int {
    skip_non_spaces(s, token_start(s))
}

/// The first whitespace-separated token of `s` (empty if none).
pub open spec fn first_token(s: Seq<char>) -> Seq<char> {
    s.subrange(token_start(s), token_end(s))
}

/// Everything from the first space after the first token to the end of `s`.
pub open spec fn rest_after_token(s: Seq<char>) -> Seq<char> {
    s.subrange(token_end(s), s.len() as int)
}

/// If the characters from `i` to `e` are all spaces, with a non-space (or the
/// end) at `e`, the space run starting at `i` ends exactly at `e`.
pub proof fn lemma_skip_spaces_match(s: Seq<char>, i: int, e: int)
    requires
        0 <= i <= e <= s.len(),
        forall|j: int| i <= j < e ==> is_space_char(#[trigger] s[j]),
        e < s.len() ==> !is_space_char(s[e]),
    ensures
        skip_spaces(s, i) == e,
    decreases e - i,
{
    if i < e {
        lemma_skip_spaces_match(s, i + 1, e);
    }
}

/// If the characters from `i` to `e` are all non-spaces, with a space (or the
/// end) at `e`, the non-space run starting at `i` ends exactly at `e`.
pub proof fn lemma_skip_non_spaces_match(s: Seq<char>, i: int, e: int)
    requires
        0 <= i <= e <= s.len(),
        forall|j: int| i <= j < e ==> !is_space_char(#[trigger] s[j]),
        e < s.len() ==> is_space_char(s[e]),
    ensures
        skip_non_spaces(s, i) == e,
    decreases e - i,
{
    if i < e {
        lemma_skip_non_spaces_match(s, i + 1, e);
    }
}

/// First index at or after `i` holding `c`, or `s.len()`.
pub open spec fn skip_to_char(s: Seq<char>, i: int, c: char) -> int
    decreases s.len() - i,
{
    if i < 0 || i >= s.len() {
        i
    } else if s[i] == c {
        i
    } else {
        skip_to_char(s, i + 1, c)
    }
}

pub proof fn lemma_skip_to_char(s: Seq<char>, i: int, c: char)
    requires
        0 <= i <= s.len(),
    ensures
        i <= skip_to_char(s, i, c) <= s.len(),
        forall|j: int| i <= j < skip_to_char(s, i, c) ==> s[j] != c,
        skip_to_char(s, i, c) < s.len() ==> s[skip_to_char(s, i, c)] == c,
    decreases s.len() - i,
{
    if i < s.len() && s[i] != c {
        lemma_skip_to_char(s, i + 1, c);
    }
}

/// If the characters from `i` to `e` all differ from `c`, with `c` (or the
/// end) at `e`, the scan for `c` starting at `i` ends exactly at `e`.
pub proof fn lemma_skip_to_char_match(s: Seq<char>, i: int, e: int, c: char)
    requires
        0 <= i <= e <= s.len(),
        forall|j: int| i <= j < e ==> (#[trigger] s[j]) != c,
        e < s.len() ==> s[e] == c,
    ensures
        skip_to_char(s, i, c) == e,
    decreases e - i,
{
    if i < e {
        lemma_skip_to_char_match(s, i + 1, e, c);
    }
}

/// Index of the last occurrence of `c` in `s`, or `-1`.
pub open spec fn last_index_of(s: Seq<char>, c: char) -> int
    decreases s.len(),
{
    if s.len() == 0 {
        -1
    } else if s[s.len() - 1] == c {
        s.len() - 1
    } else {
        last_index_of(s.drop_last(), c)
    }
}

pub proof fn lemma_last_index_of(s: Seq<char>, c: char)
    ensures
        -1 <= last_index_of(s, c) < s.len(),
        last_index_of(s, c) >= 0 ==> s[last_index_of(s, c)] == c,
        forall|j: int| last_index_of(s, c) < j < s.len() ==> s[j] != c,
    decreases s.len(),
{
    if s.len() > 0 && s[s.len() - 1] != c {
        lemma_last_index_of(s.drop_last(), c);
        assert(forall|j: int| 0 <= j < s.len() - 1 ==> s.drop_last()[j] == s[j]);
    }
}

/// The suffix of `s` after the last occurrence of `c` (all of `s` if none).
pub open spec fn after_last(s: Seq<char>, c: char) -> Seq<char> {
    s.subrange(last_index_of(s, c) + 1, s.len() as int)
}

/// True when `pat` occurs in `s` starting exactly at index `i`.
pub open spec fn match_at(s: Seq<char>, i: int, pat: Seq<char>) -> bool {
    0 <= i && i + pat.len() <= s.len() && s.subrange(i, i + pat.len()) == pat
}

/// First index at or after `i` where `pat` occurs in `s`, or `-1`.
pub open spec fn find_sub(s: Seq<char>, i: int, pat: Seq<char>) -> int
    decreases s.len() + 1 - i,
{
    if i < 0 || i + pat.len() > s.len() {
        -1
    } else if s.subrange(i, i + pat.len()) == pat {
        i
    } else {
        find_sub(s, i + 1, pat)
    }
}

/// True when `pat` occurs anywhere in `s`.
pub open spec fn contains_sub(s: Seq<char>, pat: Seq<char>) -> bool {
    find_sub(s, 0, pat) >= 0
}

pub proof fn lemma_find_sub(s: Seq<char>, i: int, pat: Seq<char>)
    requires
        0 <= i,
    ensures
        find_sub(s, i, pat) >= -1,
        find_sub(s, i, pat) >= 0 ==> match_at(s, find_sub(s, i, pat), pat)
            && i <= find_sub(s, i, pat),
        forall|j: int|
            i <= j && (find_sub(s, i, pat) == -1 || j < find_sub(s, i, pat)) ==> !match_at(
                s,
                j,
                pat,
            ),
    decreases s.len() + 1 - i,
{
    if i + pat.len() <= s.len() && s.subrange(i, i + pat.len()) != pat {
        lemma_find_sub(s, i + 1, pat);
    }
}

/// True when `suf` is a suffix of `s`.
pub open spec fn ends_with(s: Seq<char>, suf: Seq<char>) -> bool {
    match_at(s, s.len() - suf.len(), suf)
}

/// The characters of `s` as a vector, for constant-time indexing.
pub fn chars_vec(s: &str) -> (v: Vec<char>)
    ensures
        v@ == s@,
{
    let n = s.unicode_len();
    let mut v: Vec<char> = Vec::new();
    let mut i: usize = 0;
    while i < n
        invariant
            n == s@.len(),
            i <= n,
            v@ =~= s@.subrange(0, i as int),
        decreases n - i,
    {
        v.push(s.get_char(i));
        i = i + 1;
    }
    assert(v@ =~= s@);
    v
}

/// Relies on `String::push`: appends one character to the end of the string.
#[verifier::external_body]
fn push_char(s: &mut String, c: char)
    ensures
        final(s)@ == old(s)@.push(c),
{
    s.push(c);
}

/// Builds a `String` from a vector of characters.
pub fn string_from_chars(v: &Vec<char>) -> (s: String)
    ensures
        s@ == v@,
{
    let mut s = String::new();
    let mut i: usize = 0;
    while i < v.len()
        invariant
            i <= v@.len(),
            s@ =~= v@.subrange(0, i as int),
        decreases v@.len() - i,
    {
        push_char(&mut s, v[i]);
        assert(s@ =~= v@.subrange(0, i + 1 as int));
        i = i + 1;
    }
    assert(s@ =~= v@);
    s
}

/// What `str::to_lowercase` returns: a function of the characters alone.
pub uninterp spec fn lower_of(s: Seq<char>) -> Seq<char>;

/// Relies on `str::to_lowercase`: the result depends on the input characters
/// alone, and every character lowercases to at least one character.
#[verifier::external_body]
pub(crate) fn lowercase(s: &str) -> (r: String)
    ensures
        r@ == lower_of(s@),
        s@.len() > 0 ==> r@.len() > 0,
{
    s.to_lowercase()
}

/// True when `pat` occurs in `v` starting exactly at index `i`.
pub fn match_at_exec(v: &Vec<char>, i: usize, pat: &Vec<char>) -> (r: bool)
    ensures
        r == match_at(v@, i as int, pat@),
{
    let n = v.len();
    if i > n || pat.len() > n - i {
        return false;
    }
    let mut k: usize = 0;
    while k < pat.len()
        invariant
            n == v@.len(),
            i + pat@.len() <= n,
            k <= pat@.len(),
            forall|t: int| 0 <= t < k ==> v@[i + t] == pat@[t],
        decreases pat@.len() - k,
    {
        assert(i + k < n);
        if v[i + k] != pat[k] {
            assert(v@.subrange(i as int, i + pat@.len()) != pat@) by {
                assert(v@.subrange(i as int, i + pat@.len())[k as int] == v@[i + k]);
            }
            return false;
        }
        k = k + 1;
    }
    assert(v@.subrange(i as int, i + pat@.len()) =~= pat@);
    true
}

/// First index at or after `from` where `pat` occurs in `v`.
pub fn find_sub_exec(v: &Vec<char>, from: usize, pat: &Vec<char>) -> (r: Option<usize>)
    ensures
        match r {
            Some(j) => find_sub(v@, from as int, pat@) == j as int,
            None => find_sub(v@, from as int, pat@) == -1,
        },
{
    let mut j: usize = from;
    loop
        invariant
            from <= j,
            find_sub(v@, from as int, pat@) == find_sub(v@, j as int, pat@),
        decreases v@.len() + 1 - j,
    {
        if j > v.len() || pat.len() > v.len() - j {
            return None;
        }
        if pat.len() == 0 {
            assert(v@.subrange(j as int, j as int) =~= pat@);
            return Some(j);
        }
        if match_at_exec(v, j, pat) {
            return Some(j);
        }
        assert(j < v@.len());
        j = j + 1;
    }
}

/// A position holding `c` with no later occurrence is the last occurrence.
pub proof fn lemma_last_index_unique(s: Seq<char>, c: char, m: int)
    requires
        -1 <= m < s.len(),
        m >= 0 ==> s[m] == c,
        forall|j: int| m < j < s.len() ==> s[j] != c,
    ensures
        last_index_of(s, c) == m,
{
    lemma_last_index_of(s, c);
}

/// A match of a concatenation is a match of each part in turn.
pub proof fn lemma_match_at_concat(s: Seq<char>, i: int, a: Seq<char>, b: Seq<char>)
    requires
        match_at(s, i, a + b),
    ensures
        match_at(s, i, a),
        match_at(s, i + a.len(), b),
{
    let ab = a + b;
    assert(forall|t: int| 0 <= t < ab.len() ==> s[i + t] == #[trigger] ab[t]) by {
        assert(forall|t: int|
            0 <= t < ab.len() ==> s.subrange(i, i + ab.len())[t] == #[trigger] ab[t]);
    }
    assert(s.subrange(i, i + a.len()) =~= a);
    assert(forall|t: int| 0 <= t < b.len() ==> ab[a.len() + t] == #[trigger] b[t]);
    assert(s.subrange(i + a.len(), i + a.len() + b.len()) =~= b);
}

/// Matches of two adjacent parts join to a match of their concatenation.
pub proof fn lemma_match_at_join(s: Seq<char>, i: int, a: Seq<char>, b: Seq<char>)
    requires
        match_at(s, i, a),
        match_at(s, i + a.len(), b),
    ensures
        match_at(s, i, a + b),
{
    assert(forall|t: int| 0 <= t < a.len() ==> s[i + t] == #[trigger] a[t]) by {
        assert(forall|t: int| 0 <= t < a.len() ==> s.subrange(i, i + a.len())[t] == #[trigger] a[t]);
    }
    assert(forall|t: int| 0 <= t < b.len() ==> s[i + a.len() + t] == #[trigger] b[t]) by {
        assert(forall|t: int|
            0 <= t < b.len() ==> s.subrange(i + a.len(), i + a.len() + b.len())[t] == #[trigger] b[t]);
    }
    assert(s.subrange(i, i + (a + b).len()) =~= a + b);
}

/// The first character of a match.
pub proof fn lemma_match_at_first(s: Seq<char>, i: int, lit: Seq<char>)
    requires
        match_at(s, i, lit),
        lit.len() > 0,
    ensures
        s[i] == lit[0],
{
    assert(s.subrange(i, i + lit.len())[0] == s[i]);
}

/// A match with no earlier match is what `find_sub` finds.
pub proof fn lemma_find_sub_unique(s: Seq<char>, pat: Seq<char>, p: int)
    requires
        match_at(s, p, pat),
        forall|j: int| 0 <= j < p ==> !match_at(s, j, pat),
    ensures
        find_sub(s, 0, pat) == p,
{
    lemma_find_sub(s, 0, pat);
    let f = find_sub(s, 0, pat);
    if f == -1 || f > p {
        assert(!match_at(s, p, pat));
    } else if 0 <= f < p {
        assert(match_at(s, f, pat));
        assert(!match_at(s, f, pat));
    }
}

/// The characters of `v` from `a` to `b` as a fresh vector.
pub fn sub_vec(v: &Vec<char>, a: usize, b: usize) -> (r: Vec<char>)
    requires
        a <= b <= v@.len(),
    ensures
        r@ == v@.subrange(a as int, b as int),
{
    let mut r: Vec<char> = Vec::new();
    let mut i: usize = a;
    while i < b
        invariant
            a <= i <= b <= v@.len(),
            r@ =~= v@.subrange(a as int, i as int),
        decreases b - i,
    {
        r.push(v[i]);
        assert(r@ =~= v@.subrange(a as int, i + 1 as int));
        i = i + 1;
    }
    r
}

/// Appends the characters of `src` to `dst`.
pub fn append_vec(dst: &mut Vec<char>, src: &Vec<char>)
    ensures
        final(dst)@ == old(dst)@ + src@,
{
    let mut i: usize = 0;
    while i < src.len()
        invariant
            i <= src@.len(),
            dst@ =~= old(dst)@ + src@.subrange(0, i as int),
        decreases src@.len() - i,
    {
        dst.push(src[i]);
        assert(dst@ =~= old(dst)@ + src@.subrange(0, i + 1 as int));
        i = i + 1;
    }
    assert(dst@ =~= old(dst)@ + src@);
}

/// First index at or after `from` holding a non-space character.
pub fn skip_spaces_vec(v: &Vec<char>, from: usize) -> (r: usize)
    requires
        from <= v@.len(),
    ensures
        r as int == skip_spaces(v@, from as int),
        from <= r <= v@.len(),
        forall|j: int| from <= j < r ==> is_space_char(#[trigger] v@[j]),
        r < v@.len() ==> !is_space_char(v@[r as int]),
{
    let n = v.len();
    let mut i: usize = from;
    while i < n && is_space(v[i])
        invariant
            n == v@.len(),
            from <= i <= n,
            skip_spaces(v@, from as int) == skip_spaces(v@, i as int),
        decreases n - i,
    {
        i = i + 1;
    }
    proof {
        lemma_skip_spaces(v@, from as int);
    }
    i
}

/// First index at or after `from` holding a space character.
pub fn skip_non_spaces_vec(v: &Vec<char>, from: usize) -> (r: usize)
    requires
        from <= v@.len(),
    ensures
        r as int == skip_non_spaces(v@, from as int),
        from <= r <= v@.len(),
        forall|j: int| from <= j < r ==> !is_space_char(#[trigger] v@[j]),
        r < v@.len() ==> is_space_char(v@[r as int]),
{
    let n = v.len();
    let mut i: usize = from;
    while i < n && !is_space(v[i])
        invariant
            n == v@.len(),
            from <= i <= n,
            skip_non_spaces(v@, from as int) == skip_non_spaces(v@, i as int),
        decreases n - i,
    {
        i = i + 1;
    }
    proof {
        lemma_skip_non_spaces(v@, from as int);
    }
    i
}

/// First index at or after `from` holding `c`.
pub fn skip_to_char_vec(v: &Vec<char>, from: usize, c: char) -> (r: usize)
    requires
        from <= v@.len(),
    ensures
        r as int == skip_to_char(v@, from as int, c),
        from <= r <= v@.len(),
{
    let n = v.len();
    let mut i: usize = from;
    while i < n && v[i] != c
        invariant
            n == v@.len(),
            from <= i <= n,
            skip_to_char(v@, from as int, c) == skip_to_char(v@, i as int, c),
        decreases n - i,
    {
        i = i + 1;
    }
    proof {
        lemma_skip_to_char(v@, from as int, c);
    }
    i
}

/// Index of the last occurrence of `c` in `v`, if any.
pub fn last_index_of_vec(v: &Vec<char>, c: char) -> (r: Option<usize>)
    ensures
        match r {
            Some(m) => last_index_of(v@, c) == m as int && (m as int) < v@.len(),
            None => last_index_of(v@, c) == -1,
        },
{
    let mut k = v.len();
    while k > 0
        invariant
            k <= v@.len(),
            forall|j: int| k <= j < v@.len() ==> v@[j] != c,
        decreases k,
    {
        if v[k - 1] == c {
            proof {
                lemma_last_index_unique(v@, c, k - 1);
            }
            return Some(k - 1);
        }
        k = k - 1;
    }
    proof {
        lemma_last_index_unique(v@, c, -1);
    }
    None
}

/// True when the characters of `a` and `b` are equal.
pub fn str_eq(a: &str, b: &str) -> (r: bool)
    ensures
        r == (a@ == b@),
{
    let n = a.unicode_len();
    let m = b.unicode_len();
    if n != m {
        return false;
    }
    let mut i: usize = 0;
    while i < n
        invariant
            n == a@.len() && n == b@.len(),
            i <= n,
            forall|t: int| 0 <= t < i ==> a@[t] == b@[t],
        decreases n - i,
    {
        if a.get_char(i) != b.get_char(i) {
            return false;
        }
        i = i + 1;
    }
    assert(a@ =~= b@);
    true
}

} // verus!
