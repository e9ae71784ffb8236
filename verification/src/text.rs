//! Searching and trimming on sequences of characters.

use vstd::prelude::*;
use vstd::slice::slice_subrange;

verus! {

/// The first index at or after `from` at which `c` stands in `s`.
pub open spec fn position_from(s: Seq<char>, c: char, from: int) -> Option<int>
    decreases s.len() - from,
{
    if from < 0 || from >= s.len() {
        None
    } else if s[from] == c {
        Some(from)
    } else {
        position_from(s, c, from + 1)
    }
}

/// The first index at which `c` stands in `s`.
pub open spec fn position(s: Seq<char>, c: char) -> Option<int> {
    position_from(s, c, 0)
}

/// Whether `pat` stands in `s` at index `i`.
pub open spec fn occurs_at(s: Seq<char>, pat: Seq<char>, i: int) -> bool {
    0 <= i && i + pat.len() <= s.len() && s.subrange(i, i + pat.len()) == pat
}

/// The first index at or after `from` at which `pat` occurs in `s`.
pub open spec fn find_from(s: Seq<char>, pat: Seq<char>, from: int) -> Option<int>
    decreases s.len() - from + 1,
{
    if from < 0 || from + pat.len() > s.len() {
        None
    } else if occurs_at(s, pat, from) {
        Some(from)
    } else {
        find_from(s, pat, from + 1)
    }
}

/// The first index at which `pat` occurs in `s`.
pub open spec fn find(s: Seq<char>, pat: Seq<char>) -> Option<int> {
    find_from(s, pat, 0)
}

/// Whether `pat` occurs somewhere in `s`.
pub open spec fn contains_seq(s: Seq<char>, pat: Seq<char>) -> bool {
    find(s, pat) is Some
}

/// `position_from` finds an occurrence of `c`, and the earliest one there is.
pub proof fn lemma_position_from(s: Seq<char>, c: char, from: int)
    requires
        0 <= from,
    ensures
        match position_from(s, c, from) {
            Some(i) => from <= i < s.len() && s[i] == c && forall|j: int|
                from <= j < i ==> s[j] != c,
            None => forall|j: int| from <= j < s.len() ==> s[j] != c,
        },
    decreases s.len() - from,
{
    if from < s.len() && s[from] != c {
        lemma_position_from(s, c, from + 1);
    }
}

/// `position` answers `None` exactly when `c` does not stand in `s`, and
/// otherwise gives the index of its first occurrence.
pub proof fn lemma_position(s: Seq<char>, c: char)
    ensures
        position(s, c) is None <==> !s.contains(c),
        match position(s, c) {
            Some(i) => 0 <= i < s.len() && s[i] == c && forall|j: int| 0 <= j < i ==> s[j] != c,
            None => true,
        },
{
    lemma_position_from(s, c, 0);
}

/// `find_from` finds an occurrence of `pat`, and the earliest one there is.
pub proof fn lemma_find_from(s: Seq<char>, pat: Seq<char>, from: int)
    requires
        0 <= from,
    ensures
        match find_from(s, pat, from) {
            Some(i) => from <= i && occurs_at(s, pat, i) && forall|j: int|
                from <= j < i ==> !occurs_at(s, pat, j),
            None => forall|j: int| from <= j ==> !occurs_at(s, pat, j),
        },
    decreases s.len() - from + 1,
{
    if from + pat.len() <= s.len() && !occurs_at(s, pat, from) {
        lemma_find_from(s, pat, from + 1);
    }
}

/// The index of the first `c` in `s`.
pub fn find_char(s: &[char], c: char) -> (r: Option<usize>)
    ensures
        match r {
            Some(i) => position(s@, c) == Some(i as int) && i < s.len(),
            None => position(s@, c) is None,
        },
{
    let mut i: usize = 0;
    while i < s.len()
        invariant
            i <= s.len(),
            position(s@, c) == position_from(s@, c, i as int),
        decreases s.len() - i,
    {
        if s[i] == c {
            return Some(i);
        }
        i += 1;
    }
    None
}

/// Whether `pat` stands in `s` at index `i`.
pub fn matches_at(s: &[char], pat: &[char], i: usize) -> (r: bool)
    ensures
        r == occurs_at(s@, pat@, i as int),
{
    if pat.len() > s.len() || i > s.len() - pat.len() {
        return false;
    }
    let mut k: usize = 0;
    while k < pat.len()
        invariant
            k <= pat.len(),
            i + pat.len() <= s.len(),
            forall|j: int| 0 <= j < k ==> s@[i + j] == pat@[j],
        decreases pat.len() - k,
    {
        if s[i + k] != pat[k] {
            proof {
            }
            return false;
        }
        k += 1;
    }
    proof {
        assert(s@.subrange(i as int, i + pat@.len()) =~= pat@);
    }
    true
}

/// The index of the first occurrence of `pat` in `s`.
pub fn find_seq(s: &[char], pat: &[char]) -> (r: Option<usize>)
    ensures
        match r {
            Some(i) => find(s@, pat@) == Some(i as int) && i + pat.len() <= s.len(),
            None => find(s@, pat@) is None,
        },
{
    if pat.len() > s.len() {
        return None;
    }
    let last: usize = s.len() - pat.len();
    let mut i: usize = 0;
    while i < last
        invariant
            i <= last,
            last == s.len() - pat.len(),
            find(s@, pat@) == find_from(s@, pat@, i as int),
        decreases last - i,
    {
        if matches_at(s, pat, i) {
            return Some(i);
        }
        i += 1;
    }
    if matches_at(s, pat, last) {
        Some(last)
    } else {
        assert(find_from(s@, pat@, last + 1) is None);
        None
    }
}

/// Whether `c` is white space: the code points that carry the Unicode
/// property `White_Space`.
pub open spec fn is_space(c: char) -> bool {
    let n = c as u32;
    ||| 0x09 <= n <= 0x0D
    ||| n == 0x20
    ||| n == 0x85
    ||| n == 0xA0
    ||| n == 0x1680
    ||| 0x2000 <= n <= 0x200A
    ||| n == 0x2028
    ||| n == 0x2029
    ||| n == 0x202F
    ||| n == 0x205F
    ||| n == 0x3000
}

/// The first index at or after `from` whose character is not white space,
/// or the length of `s` where there is none.
pub open spec fn skip_spaces(s: Seq<char>, from: int) -> int
    decreases s.len() - from,
{
    if 0 <= from < s.len() && is_space(s[from]) {
        skip_spaces(s, from + 1)
    } else {
        from
    }
}

/// The end of `s` once the white space before index `to` is taken off, down
/// to `lo` at most.
pub open spec fn drop_spaces(s: Seq<char>, lo: int, to: int) -> int
    decreases to - lo,
{
    if lo < to <= s.len() && 0 <= lo && is_space(s[to - 1]) {
        drop_spaces(s, lo, to - 1)
    } else {
        to
    }
}

/// The index at which `trim` lets its result begin.
pub open spec fn trim_start(s: Seq<char>) -> int {
    skip_spaces(s, 0)
}

/// The index at which `trim` lets its result end.
pub open spec fn trim_end(s: Seq<char>) -> int {
    drop_spaces(s, trim_start(s), s.len() as int)
}

/// `s` without the white space at its two ends.
pub open spec fn trim(s: Seq<char>) -> Seq<char> {
    s.subrange(trim_start(s), trim_end(s))
}

/// The bounds that `trim` cuts at lie in order inside `s`; all before the
/// first and all after the second is white space, and what lies between
/// neither begins nor ends with white space.
pub proof fn lemma_trim_bounds(s: Seq<char>)
    ensures
        0 <= trim_start(s) <= trim_end(s) <= s.len(),
        forall|j: int| 0 <= j < trim_start(s) ==> is_space(s[j]),
        forall|j: int| trim_end(s) <= j < s.len() ==> is_space(s[j]),
        trim(s).len() > 0 ==> !is_space(trim(s).first()) && !is_space(trim(s).last()),
{
    lemma_skip_spaces(s, 0);
    lemma_drop_spaces(s, trim_start(s), s.len() as int);
}

/// What `skip_spaces` passes over is white space, and it stops at the end or
/// at a character that is none.
pub proof fn lemma_skip_spaces(s: Seq<char>, from: int)
    requires
        0 <= from <= s.len(),
    ensures
        from <= skip_spaces(s, from) <= s.len(),
        forall|j: int| from <= j < skip_spaces(s, from) ==> is_space(s[j]),
        skip_spaces(s, from) < s.len() ==> !is_space(s[skip_spaces(s, from)]),
    decreases s.len() - from,
{
    if from < s.len() && is_space(s[from]) {
        lemma_skip_spaces(s, from + 1);
    }
}

/// What `drop_spaces` takes off is white space, and it stops at `lo` or
/// behind a character that is none.
pub proof fn lemma_drop_spaces(s: Seq<char>, lo: int, to: int)
    requires
        0 <= lo <= to <= s.len(),
    ensures
        lo <= drop_spaces(s, lo, to) <= to,
        forall|j: int| drop_spaces(s, lo, to) <= j < to ==> is_space(s[j]),
        lo < drop_spaces(s, lo, to) ==> !is_space(s[drop_spaces(s, lo, to) - 1]),
    decreases to - lo,
{
    if lo < to && is_space(s[to - 1]) {
        lemma_drop_spaces(s, lo, to - 1);
    }
}

/// Whether `c` is white space.
pub fn is_whitespace(c: char) -> (r: bool)
    ensures
        r == is_space(c),
{
    let n: u32 = c as u32;
    (0x09 <= n && n <= 0x0D) || n == 0x20 || n == 0x85 || n == 0xA0 || n == 0x1680 || (0x2000 <= n
        && n <= 0x200A) || n == 0x2028 || n == 0x2029 || n == 0x202F || n == 0x205F || n == 0x3000
}

/// `s` without the white space at its two ends.
pub fn trim_slice(s: &[char]) -> (r: &[char])
    ensures
        r@ == trim(s@),
{
    let mut a: usize = 0;
    while a < s.len() && is_whitespace(s[a])
        invariant
            a <= s.len(),
            skip_spaces(s@, 0) == skip_spaces(s@, a as int),
        decreases s.len() - a,
    {
        a += 1;
    }
    let mut b: usize = s.len();
    while a < b && is_whitespace(s[b - 1])
        invariant
            a <= b <= s.len(),
            drop_spaces(s@, a as int, s@.len() as int) == drop_spaces(s@, a as int, b as int),
        decreases b - a,
    {
        b -= 1;
    }
    slice_subrange(s, a, b)
}

/// The characters of a string, in order.
pub fn chars_of(s: &str) -> (v: Vec<char>)
    ensures
        v@ == s@,
{
    let mut v: Vec<char> = Vec::new();
    for c in it: s.chars()
        invariant
            it.seq() == s@,
            v@ == it.seq().take(it.index() as int),
    {
        v.push(c);
    }
    v
}

/// Calls `String::push`, which appends one character to the end of the
/// string and leaves what it held before in place.
#[verifier::external_body]
fn push_char(s: &mut String, c: char)
    ensures
        final(s)@ == old(s)@.push(c),
{
    s.push(c)
}

/// The string made of the characters of `v`, in order.
pub fn string_of(v: &[char]) -> (s: String)
    ensures
        s@ == v@,
{
    let mut s = String::new();
    let mut i: usize = 0;
    while i < v.len()
        invariant
            i <= v.len(),
            s@ == v@.take(i as int),
        decreases v.len() - i,
    {
        push_char(&mut s, v[i]);
        i += 1;
    }
    s
}

} // verus!
