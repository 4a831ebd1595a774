//! Character-level text operations, stated over absolute positions in a `Seq<char>`.

use vstd::prelude::*;
use vstd::string::*;

verus! {

/// The Unicode `White_Space` property, the notion of whitespace that `str::trim` uses.
pub open spec fn is_ws(c: char) -> bool {
    ||| ('\u{9}' <= c && c <= '\u{d}')
    ||| c == ' '
    ||| c == '\u{85}'
    ||| c == '\u{a0}'
    ||| c == '\u{1680}'
    ||| ('\u{2000}' <= c && c <= '\u{200a}')
    ||| c == '\u{2028}'
    ||| c == '\u{2029}'
    ||| c == '\u{202f}'
    ||| c == '\u{205f}'
    ||| c == '\u{3000}'
}

/// Whether `c` is Unicode whitespace.
pub fn is_whitespace(c: char) -> (r: bool)
    ensures
        r == is_ws(c),
{
    ('\u{9}' <= c && c <= '\u{d}') || c == ' ' || c == '\u{85}' || c == '\u{a0}' || c == '\u{1680}'
        || ('\u{2000}' <= c && c <= '\u{200a}') || c == '\u{2028}' || c == '\u{2029}' || c
        == '\u{202f}' || c == '\u{205f}' || c == '\u{3000}'
}

/// The chars of a string slice, in order.
pub fn chars_of(s: &str) -> (v: Vec<char>)
    ensures
        v@ == s@,
{
    let mut v: Vec<char> = Vec::new();
    for c in it: s.chars()
        invariant
            v@ == it.seq().take(it.index() as int),
    {
        v.push(c);
    }
    v
}


/// The first position in `[lo, hi)` that holds a non-whitespace char, or `hi`.
pub open spec fn skip_ws(s: Seq<char>, lo: int, hi: int) -> int
    decreases hi - lo,
{
    if lo >= hi {
        hi
    } else if is_ws(s[lo]) {
        skip_ws(s, lo + 1, hi)
    } else {
        lo
    }
}

/// The end of `[lo, hi)` once its trailing whitespace is dropped (never below `lo`).
pub open spec fn skip_ws_back(s: Seq<char>, lo: int, hi: int) -> int
    decreases hi - lo,
{
    if hi <= lo {
        lo
    } else if is_ws(s[hi - 1]) {
        skip_ws_back(s, lo, hi - 1)
    } else {
        hi
    }
}

/// Start of `s[lo..hi].trim()` within `s`.
pub open spec fn trim_start(s: Seq<char>, lo: int, hi: int) -> int {
    skip_ws(s, lo, hi)
}

/// End of `s[lo..hi].trim()` within `s`.
pub open spec fn trim_end(s: Seq<char>, lo: int, hi: int) -> int {
    skip_ws_back(s, skip_ws(s, lo, hi), hi)
}

/// `s[lo..hi].trim()`: the range without its leading and trailing whitespace.
pub open spec fn trimmed(s: Seq<char>, lo: int, hi: int) -> Seq<char> {
    s.subrange(trim_start(s, lo, hi), trim_end(s, lo, hi))
}

/// `t.trim()` for a whole sequence.
pub open spec fn trim(t: Seq<char>) -> Seq<char> {
    trimmed(t, 0, t.len() as int)
}

pub proof fn lemma_skip_ws_bounds(s: Seq<char>, lo: int, hi: int)
    requires
        lo <= hi,
    ensures
        lo <= skip_ws(s, lo, hi) <= hi,
        forall|k: int| lo <= k < skip_ws(s, lo, hi) ==> is_ws(#[trigger] s[k]),
        skip_ws(s, lo, hi) < hi ==> !is_ws(s[skip_ws(s, lo, hi)]),
    decreases hi - lo,
{
    if lo < hi && is_ws(s[lo]) {
        lemma_skip_ws_bounds(s, lo + 1, hi);
    }
}

pub proof fn lemma_skip_ws_back_bounds(s: Seq<char>, lo: int, hi: int)
    requires
        lo <= hi,
    ensures
        lo <= skip_ws_back(s, lo, hi) <= hi,
        forall|k: int| skip_ws_back(s, lo, hi) <= k < hi ==> is_ws(#[trigger] s[k]),
        skip_ws_back(s, lo, hi) > lo ==> !is_ws(s[skip_ws_back(s, lo, hi) - 1]),
    decreases hi - lo,
{
    if lo < hi && is_ws(s[hi - 1]) {
        lemma_skip_ws_back_bounds(s, lo, hi - 1);
    }
}

/// The bounds of the trimmed text of `s[lo..hi]`.
pub fn trim_bounds(s: &Vec<char>, lo: usize, hi: usize) -> (r: (usize, usize))
    requires
        lo <= hi <= s.len(),
    ensures
        r.0 == trim_start(s@, lo as int, hi as int),
        r.1 == trim_end(s@, lo as int, hi as int),
        lo <= r.0 <= r.1 <= hi,
{
    let mut a = lo;
    loop
        invariant
            lo <= a <= hi,
            hi <= s.len(),
            skip_ws(s@, lo as int, hi as int) == skip_ws(s@, a as int, hi as int),
        ensures
            a == hi || !is_ws(s@[a as int]),
        decreases hi - a,
    {
        if a == hi || !is_whitespace(s[a]) {
            break;
        }
        a += 1;
    }
    assert(a == skip_ws(s@, a as int, hi as int));
    let mut b = hi;
    loop
        invariant
            a == skip_ws(s@, lo as int, hi as int),
            a <= b <= hi,
            hi <= s.len(),
            skip_ws_back(s@, a as int, hi as int) == skip_ws_back(s@, a as int, b as int),
        ensures
            b == a || !is_ws(s@[b - 1]),
        decreases b,
    {
        if b == a || !is_whitespace(s[b - 1]) {
            break;
        }
        b -= 1;
    }
    (a, b)
}

/// The first position in `[lo, hi)` holding `c`, or -1.
pub open spec fn find_char(s: Seq<char>, lo: int, hi: int, c: char) -> int
    decreases hi - lo,
{
    if lo >= hi {
        -1
    } else if s[lo] == c {
        lo
    } else {
        find_char(s, lo + 1, hi, c)
    }
}

pub proof fn lemma_find_char(s: Seq<char>, lo: int, hi: int, c: char)
    requires
        0 <= lo,
    ensures
        find_char(s, lo, hi, c) == -1 || (lo <= find_char(s, lo, hi, c) < hi && s[find_char(
            s,
            lo,
            hi,
            c,
        )] == c),
        forall|k: int|
            lo <= k < hi && (find_char(s, lo, hi, c) == -1 || k < find_char(s, lo, hi, c))
                ==> #[trigger] s[k] != c,
    decreases hi - lo,
{
    let f = find_char(s, lo, hi, c);
    if lo < hi && s[lo] != c {
        lemma_find_char(s, lo + 1, hi, c);
        assert(f == find_char(s, lo + 1, hi, c));
        assert forall|k: int| lo <= k < hi && (f == -1 || k < f) implies #[trigger] s[k] != c by {
            if k > lo {
                assert(lo + 1 <= k);
            }
        }
    } else if lo < hi {
        assert(f == lo);
    }
}

/// The position of the first `c` in `s[lo..hi]`.
pub fn find_char_exec(s: &Vec<char>, lo: usize, hi: usize, c: char) -> (r: Option<usize>)
    requires
        lo <= hi <= s.len(),
    ensures
        match r {
            Some(i) => i == find_char(s@, lo as int, hi as int, c) && lo <= i < hi,
            None => find_char(s@, lo as int, hi as int, c) == -1,
        },
{
    let mut i = lo;
    while i < hi
        invariant
            lo <= i <= hi,
            hi <= s.len(),
            find_char(s@, lo as int, hi as int, c) == find_char(s@, i as int, hi as int, c),
        decreases hi - i,
    {
        if s[i] == c {
            return Some(i);
        }
        i += 1;
    }
    None
}

/// Whether `pat` occurs in `s` at position `i`, ending no later than `hi`.
pub open spec fn occurs_at(s: Seq<char>, i: int, hi: int, pat: Seq<char>) -> bool {
    &&& 0 <= i
    &&& i + pat.len() <= hi
    &&& i + pat.len() <= s.len()
    &&& s.subrange(i, i + pat.len()) == pat
}

/// The first start of an occurrence of `pat` inside `s[lo..hi]`, or -1 (also for an empty `pat`).
pub open spec fn find_in(s: Seq<char>, lo: int, hi: int, pat: Seq<char>) -> int
    decreases hi - lo,
{
    if pat.len() == 0 || lo + pat.len() > hi {
        -1
    } else if occurs_at(s, lo, hi, pat) {
        lo
    } else {
        find_in(s, lo + 1, hi, pat)
    }
}

/// The start of the last occurrence of `pat` inside `s[lo..hi]`, or -1 (also for an empty `pat`).
pub open spec fn rfind_in(s: Seq<char>, lo: int, hi: int, pat: Seq<char>) -> int
    decreases hi - lo,
{
    if pat.len() == 0 || hi - pat.len() < lo {
        -1
    } else if occurs_at(s, hi - pat.len(), hi, pat) {
        hi - pat.len()
    } else {
        rfind_in(s, lo, hi - 1, pat)
    }
}

pub proof fn lemma_find_in(s: Seq<char>, lo: int, hi: int, pat: Seq<char>)
    requires
        0 <= lo,
    ensures
        find_in(s, lo, hi, pat) == -1 || (lo <= find_in(s, lo, hi, pat) && occurs_at(
            s,
            find_in(s, lo, hi, pat),
            hi,
            pat,
        )),
    decreases hi - lo,
{
    if pat.len() > 0 && lo + pat.len() <= hi && !occurs_at(s, lo, hi, pat) {
        lemma_find_in(s, lo + 1, hi, pat);
    }
}

pub proof fn lemma_rfind_in(s: Seq<char>, lo: int, hi: int, pat: Seq<char>)
    requires
        0 <= lo,
    ensures
        rfind_in(s, lo, hi, pat) == -1 || (lo <= rfind_in(s, lo, hi, pat) && occurs_at(
            s,
            rfind_in(s, lo, hi, pat),
            hi,
            pat,
        )),
    decreases hi - lo,
{
    if pat.len() > 0 && hi - pat.len() >= lo && !occurs_at(s, hi - pat.len(), hi, pat) {
        lemma_rfind_in(s, lo, hi - 1, pat);
        let r = rfind_in(s, lo, hi - 1, pat);
        if r != -1 {
            assert(s.subrange(r, r + pat.len()) == pat);
        }
    }
}

/// Whether `pat` occurs in `s` at `i`.
pub fn matches_at(s: &Vec<char>, i: usize, hi: usize, pat: &Vec<char>) -> (r: bool)
    requires
        hi <= s.len(),
        i <= hi,
    ensures
        r == occurs_at(s@, i as int, hi as int, pat@),
{
    if pat.len() > hi - i {
        return false;
    }
    let mut k: usize = 0;
    while k < pat.len()
        invariant
            i + pat.len() <= hi <= s.len(),
            k <= pat.len(),
            forall|j: int| 0 <= j < k ==> s@[i + j] == pat@[j],
        decreases pat.len() - k,
    {
        if s[i + k] != pat[k] {
            assert(s@.subrange(i as int, i + pat.len())[k as int] != pat@[k as int]);
            return false;
        }
        k += 1;
    }
    assert(s@.subrange(i as int, i + pat.len()) =~= pat@);
    true
}

/// The first start of `pat` inside `s[lo..hi]`.
pub fn find_exec(s: &Vec<char>, lo: usize, hi: usize, pat: &Vec<char>) -> (r: Option<usize>)
    requires
        lo <= hi <= s.len(),
    ensures
        match r {
            Some(i) => i == find_in(s@, lo as int, hi as int, pat@),
            None => find_in(s@, lo as int, hi as int, pat@) == -1,
        },
{
    if pat.len() == 0 {
        return None;
    }
    let mut i = lo;
    while i <= hi
        invariant
            lo <= i,
            hi <= s.len(),
            i <= hi + 1,
            pat.len() > 0,
            find_in(s@, lo as int, hi as int, pat@) == find_in(s@, i as int, hi as int, pat@),
        decreases hi + 1 - i,
    {
        if pat.len() > hi - i {
            return None;
        }
        if matches_at(s, i, hi, pat) {
            return Some(i);
        }
        i += 1;
    }
    None
}

/// The start of the last occurrence of `pat` inside `s[lo..hi]`.
pub fn rfind_exec(s: &Vec<char>, lo: usize, hi: usize, pat: &Vec<char>) -> (r: Option<usize>)
    requires
        lo <= hi <= s.len(),
    ensures
        match r {
            Some(i) => i == rfind_in(s@, lo as int, hi as int, pat@),
            None => rfind_in(s@, lo as int, hi as int, pat@) == -1,
        },
{
    if pat.len() == 0 {
        return None;
    }
    let mut h = hi;
    loop
        invariant
            lo <= h <= hi,
            hi <= s.len(),
            pat.len() > 0,
            rfind_in(s@, lo as int, hi as int, pat@) == rfind_in(s@, lo as int, h as int, pat@),
        decreases h,
    {
        if pat.len() > h || h - pat.len() < lo {
            return None;
        }
        if matches_at(s, h - pat.len(), h, pat) {
            return Some(h - pat.len());
        }
        h -= 1;
    }
}

/// The position just past the line that starts at `pos`: past its `'\n'`, or the end of `s`.
pub open spec fn line_end(s: Seq<char>, pos: int) -> int {
    let j = find_char(s, pos, s.len() as int, '\n');
    if j < 0 {
        s.len() as int
    } else {
        j + 1
    }
}

pub proof fn lemma_line_end(s: Seq<char>, pos: int)
    requires
        0 <= pos < s.len(),
    ensures
        pos < line_end(s, pos) <= s.len(),
{
    lemma_find_char(s, pos, s.len() as int, '\n');
}

/// The end of the line that starts at `pos`.
pub fn line_end_exec(s: &Vec<char>, pos: usize) -> (r: usize)
    requires
        pos < s.len(),
    ensures
        r == line_end(s@, pos as int),
        pos < r <= s.len(),
{
    proof {
        lemma_line_end(s@, pos as int);
    }
    match find_char_exec(s, pos, s.len(), '\n') {
        Some(j) => j + 1,
        None => s.len(),
    }
}

/// Whether `s[lo..hi]` is exactly `pat`.
pub fn range_equals(s: &Vec<char>, lo: usize, hi: usize, pat: &Vec<char>) -> (r: bool)
    requires
        lo <= hi <= s.len(),
    ensures
        r == (s@.subrange(lo as int, hi as int) == pat@),
{
    if hi - lo != pat.len() {
        return false;
    }
    matches_at(s, lo, hi, pat)
}

/// `s[lo..hi].split(pat).nth(1)`: the bounds of the text between the first occurrence of
/// `pat` and the next one (or the end of the range); `None` when `pat` does not occur.
pub open spec fn split_second(s: Seq<char>, lo: int, hi: int, pat: Seq<char>) -> Option<(int, int)> {
    let i = find_in(s, lo, hi, pat);
    if i < 0 {
        None
    } else {
        let start = i + pat.len();
        let j = find_in(s, start, hi, pat);
        Some((start, if j < 0 { hi } else { j }))
    }
}

/// `s[lo..hi].rsplit(pat).nth(1)`: the bounds of the text between the next-to-last occurrence
/// of `pat` (or the start of the range) and the last one; `None` when `pat` does not occur.
pub open spec fn rsplit_second(s: Seq<char>, lo: int, hi: int, pat: Seq<char>) -> Option<
    (int, int),
> {
    let k = rfind_in(s, lo, hi, pat);
    if k < 0 {
        None
    } else {
        let k2 = rfind_in(s, lo, k, pat);
        Some((if k2 < 0 { lo } else { k2 + pat.len() }, k))
    }
}

/// The bounds of `s[lo..hi].split(pat).nth(1)`.
pub fn split_second_exec(s: &Vec<char>, lo: usize, hi: usize, pat: &Vec<char>) -> (r: Option<
    (usize, usize),
>)
    requires
        lo <= hi <= s.len(),
    ensures
        match r {
            Some((a, b)) => split_second(s@, lo as int, hi as int, pat@) == Some(
                (a as int, b as int),
            ) && lo <= a <= b <= hi,
            None => split_second(s@, lo as int, hi as int, pat@) is None,
        },
{
    match find_exec(s, lo, hi, pat) {
        None => None,
        Some(i) => {
            proof {
                lemma_find_in(s@, lo as int, hi as int, pat@);
            }
            let start = i + pat.len();
            match find_exec(s, start, hi, pat) {
                None => Some((start, hi)),
                Some(j) => {
                    proof {
                        lemma_find_in(s@, start as int, hi as int, pat@);
                    }
                    Some((start, j))
                },
            }
        },
    }
}

/// The bounds of `s[lo..hi].rsplit(pat).nth(1)`.
pub fn rsplit_second_exec(s: &Vec<char>, lo: usize, hi: usize, pat: &Vec<char>) -> (r: Option<
    (usize, usize),
>)
    requires
        lo <= hi <= s.len(),
    ensures
        match r {
            Some((a, b)) => rsplit_second(s@, lo as int, hi as int, pat@) == Some(
                (a as int, b as int),
            ) && lo <= a <= b <= hi,
            None => rsplit_second(s@, lo as int, hi as int, pat@) is None,
        },
{
    match rfind_exec(s, lo, hi, pat) {
        None => None,
        Some(k) => {
            proof {
                lemma_rfind_in(s@, lo as int, hi as int, pat@);
            }
            match rfind_exec(s, lo, k, pat) {
                None => Some((lo, k)),
                Some(k2) => {
                    proof {
                        lemma_rfind_in(s@, lo as int, k as int, pat@);
                    }
                    Some((k2 + pat.len(), k))
                },
            }
        },
    }
}

/// `content[a..b]` as an owned string.
pub fn owned_range(content: &str, a: usize, b: usize) -> (r: String)
    requires
        a <= b <= content@.len(),
    ensures
        r@ == content@.subrange(a as int, b as int),
{
    String::from_str(content.substring_char(a, b))
}

/// A trimmed range has no whitespace to trim.
pub proof fn lemma_trimmed_is_trimmed(s: Seq<char>, lo: int, hi: int)
    requires
        0 <= lo <= hi <= s.len(),
    ensures
        trim(trimmed(s, lo, hi)) == trimmed(s, lo, hi),
{
    let a = skip_ws(s, lo, hi);
    lemma_skip_ws_bounds(s, lo, hi);
    lemma_skip_ws_back_bounds(s, a, hi);
    let b = skip_ws_back(s, a, hi);
    let t = s.subrange(a, b);
    let n = t.len() as int;
    if n > 0 {
        assert(t[0] == s[a]);
        assert(t[n - 1] == s[b - 1]);
        assert(skip_ws(t, 0, n) == 0);
        assert(skip_ws_back(t, 0, n) == n);
        assert(t.subrange(0, n) == t);
    } else {
        assert(skip_ws(t, 0, 0) == 0);
        assert(t.subrange(0, 0) == t);
    }
}

/// An occurrence at `k` is found by a search that starts no later than `k`.
pub proof fn lemma_find_in_finds(s: Seq<char>, lo: int, hi: int, pat: Seq<char>, k: int)
    requires
        0 <= lo <= k,
        pat.len() > 0,
        occurs_at(s, k, hi, pat),
    ensures
        lo <= find_in(s, lo, hi, pat) <= k,
    decreases k - lo,
{
    if !occurs_at(s, lo, hi, pat) {
        lemma_find_in_finds(s, lo + 1, hi, pat, k);
    }
}

/// Whether `pat` occurs anywhere in `s`.
pub open spec fn contains(s: Seq<char>, pat: Seq<char>) -> bool {
    find_in(s, 0, s.len() as int, pat) >= 0
}

/// What is found in a part of `s` is contained in `s`.
pub proof fn lemma_found_in_part(s: Seq<char>, lo: int, hi: int, pat: Seq<char>)
    requires
        0 <= lo <= hi <= s.len(),
        find_in(s, lo, hi, pat) >= 0,
    ensures
        contains(s, pat),
{
    lemma_find_in(s, lo, hi, pat);
    let k = find_in(s, lo, hi, pat);
    assert(pat.len() > 0);
    lemma_find_in_finds(s, 0, s.len() as int, pat, k);
}

/// The bounds that `rsplit_second` gives lie within the range searched.
pub proof fn lemma_rsplit_second_bounds(s: Seq<char>, lo: int, hi: int, pat: Seq<char>)
    requires
        0 <= lo <= hi <= s.len(),
    ensures
        rsplit_second(s, lo, hi, pat) matches Some((a, b)) ==> lo <= a <= b <= hi,
{
    lemma_rfind_in(s, lo, hi, pat);
    let k = rfind_in(s, lo, hi, pat);
    if k >= 0 {
        lemma_rfind_in(s, lo, k, pat);
    }
}

/// `t` holds the chars of `s[lo..hi]` at positions shifted by `k`.
pub open spec fn agree(t: Seq<char>, s: Seq<char>, k: int, lo: int, hi: int) -> bool {
    forall|i: int| lo <= i < hi ==> #[trigger] s[i] == t[i + k]
}

pub proof fn lemma_agree_narrow(t: Seq<char>, s: Seq<char>, k: int, lo: int, hi: int, lo2: int, hi2: int)
    requires
        agree(t, s, k, lo, hi),
        lo <= lo2,
        hi2 <= hi,
    ensures
        agree(t, s, k, lo2, hi2),
{
}

pub proof fn lemma_find_char_shift(t: Seq<char>, s: Seq<char>, k: int, lo: int, hi: int, c: char)
    requires
        agree(t, s, k, lo, hi),
        0 <= lo,
        0 <= lo + k,
    ensures
        find_char(t, lo + k, hi + k, c) == (if find_char(s, lo, hi, c) < 0 {
            -1
        } else {
            find_char(s, lo, hi, c) + k
        }),
    decreases hi - lo,
{
    if lo < hi {
        assert(s[lo] == t[lo + k]);
        if s[lo] != c {
            lemma_find_char_shift(t, s, k, lo + 1, hi, c);
            assert(find_char(t, lo + k, hi + k, c) == find_char(t, lo + 1 + k, hi + k, c));
        }
    }
}

pub proof fn lemma_skip_ws_shift(t: Seq<char>, s: Seq<char>, k: int, lo: int, hi: int)
    requires
        agree(t, s, k, lo, hi),
    ensures
        skip_ws(t, lo + k, hi + k) == skip_ws(s, lo, hi) + k,
    decreases hi - lo,
{
    if lo < hi && is_ws(s[lo]) {
        lemma_skip_ws_shift(t, s, k, lo + 1, hi);
        assert(skip_ws(t, lo + k, hi + k) == skip_ws(t, lo + 1 + k, hi + k));
    }
}

pub proof fn lemma_skip_ws_back_shift(t: Seq<char>, s: Seq<char>, k: int, lo: int, hi: int)
    requires
        agree(t, s, k, lo, hi),
    ensures
        skip_ws_back(t, lo + k, hi + k) == skip_ws_back(s, lo, hi) + k,
    decreases hi - lo,
{
    if lo < hi && is_ws(s[hi - 1]) {
        lemma_skip_ws_back_shift(t, s, k, lo, hi - 1);
        assert(skip_ws_back(t, lo + k, hi + k) == skip_ws_back(t, lo + k, hi - 1 + k));
    }
}

pub proof fn lemma_trim_shift(t: Seq<char>, s: Seq<char>, k: int, lo: int, hi: int)
    requires
        agree(t, s, k, lo, hi),
        0 <= lo <= hi <= s.len(),
        0 <= lo + k,
        hi + k <= t.len(),
    ensures
        trim_start(t, lo + k, hi + k) == trim_start(s, lo, hi) + k,
        trim_end(t, lo + k, hi + k) == trim_end(s, lo, hi) + k,
        trimmed(t, lo + k, hi + k) == trimmed(s, lo, hi),
{
    lemma_skip_ws_shift(t, s, k, lo, hi);
    let a = skip_ws(s, lo, hi);
    lemma_skip_ws_bounds(s, lo, hi);
    lemma_agree_narrow(t, s, k, lo, hi, a, hi);
    lemma_skip_ws_back_shift(t, s, k, a, hi);
    let b = skip_ws_back(s, a, hi);
    lemma_skip_ws_back_bounds(s, a, hi);
    assert forall|i: int| 0 <= i < b - a implies #[trigger] trimmed(t, lo + k, hi + k)[i]
        == trimmed(s, lo, hi)[i] by {
        assert(s[a + i] == t[a + i + k]);
    }
    assert(trimmed(t, lo + k, hi + k) =~= trimmed(s, lo, hi));
}

pub proof fn lemma_occurs_at_shift(t: Seq<char>, s: Seq<char>, k: int, i: int, hi: int, pat: Seq<char>)
    requires
        agree(t, s, k, i, hi),
        0 <= i,
        0 <= i + k,
        hi <= s.len(),
        hi + k <= t.len(),
    ensures
        occurs_at(t, i + k, hi + k, pat) == occurs_at(s, i, hi, pat),
{
    if i + pat.len() <= hi {
        if occurs_at(s, i, hi, pat) {
            assert forall|j: int| 0 <= j < pat.len() implies #[trigger] t.subrange(
                i + k,
                i + k + pat.len(),
            )[j] == pat[j] by {
                assert(s.subrange(i, i + pat.len())[j] == s[i + j]);
                assert(s[i + j] == t[i + j + k]);
            }
            assert(t.subrange(i + k, i + k + pat.len()) =~= pat);
        }
        if occurs_at(t, i + k, hi + k, pat) {
            assert forall|j: int| 0 <= j < pat.len() implies #[trigger] s.subrange(
                i,
                i + pat.len(),
            )[j] == pat[j] by {
                assert(t.subrange(i + k, i + k + pat.len())[j] == t[i + j + k]);
                assert(s[i + j] == t[i + j + k]);
            }
            assert(s.subrange(i, i + pat.len()) =~= pat);
        }
    }
}

pub proof fn lemma_find_in_shift(t: Seq<char>, s: Seq<char>, k: int, lo: int, hi: int, pat: Seq<char>)
    requires
        agree(t, s, k, lo, hi),
        0 <= lo,
        0 <= lo + k,
        hi <= s.len(),
        hi + k <= t.len(),
    ensures
        find_in(t, lo + k, hi + k, pat) == (if find_in(s, lo, hi, pat) < 0 {
            -1
        } else {
            find_in(s, lo, hi, pat) + k
        }),
    decreases hi - lo,
{
    if pat.len() > 0 && lo + pat.len() <= hi {
        lemma_occurs_at_shift(t, s, k, lo, hi, pat);
        if !occurs_at(s, lo, hi, pat) {
            lemma_find_in_shift(t, s, k, lo + 1, hi, pat);
            assert(find_in(t, lo + k, hi + k, pat) == find_in(t, lo + 1 + k, hi + k, pat));
        }
    }
}

pub proof fn lemma_rfind_in_shift(t: Seq<char>, s: Seq<char>, k: int, lo: int, hi: int, pat: Seq<char>)
    requires
        agree(t, s, k, lo, hi),
        0 <= lo,
        0 <= lo + k,
        hi <= s.len(),
        hi + k <= t.len(),
    ensures
        rfind_in(t, lo + k, hi + k, pat) == (if rfind_in(s, lo, hi, pat) < 0 {
            -1
        } else {
            rfind_in(s, lo, hi, pat) + k
        }),
    decreases hi - lo,
{
    if pat.len() > 0 && hi - pat.len() >= lo {
        lemma_agree_narrow(t, s, k, lo, hi, hi - pat.len(), hi);
        lemma_occurs_at_shift(t, s, k, hi - pat.len(), hi, pat);
        if !occurs_at(s, hi - pat.len(), hi, pat) {
            lemma_agree_narrow(t, s, k, lo, hi, lo, hi - 1);
            lemma_rfind_in_shift(t, s, k, lo, hi - 1, pat);
            assert(rfind_in(t, lo + k, hi + k, pat) == rfind_in(t, lo + k, hi - 1 + k, pat));
        }
    }
}

pub proof fn lemma_split_second_shift(t: Seq<char>, s: Seq<char>, k: int, lo: int, hi: int, pat: Seq<char>)
    requires
        agree(t, s, k, lo, hi),
        0 <= lo <= hi,
        0 <= lo + k,
        hi <= s.len(),
        hi + k <= t.len(),
    ensures
        split_second(t, lo + k, hi + k, pat) == (match split_second(s, lo, hi, pat) {
            Some((a, b)) => Some((a + k, b + k)),
            None => None,
        }),
{
    lemma_find_in_shift(t, s, k, lo, hi, pat);
    let i = find_in(s, lo, hi, pat);
    if i >= 0 {
        lemma_find_in(s, lo, hi, pat);
        let start = i + pat.len();
        lemma_agree_narrow(t, s, k, lo, hi, start, hi);
        lemma_find_in_shift(t, s, k, start, hi, pat);
        let j = find_in(s, start, hi, pat);
        lemma_find_in(s, start, hi, pat);
        assert(find_in(t, lo + k, hi + k, pat) == i + k);
        assert((i + k) + pat.len() == start + k);
        let tj = find_in(t, start + k, hi + k, pat);
        assert(tj == (if j < 0 { -1 } else { j + k }));
    }
}

pub proof fn lemma_rsplit_second_shift(t: Seq<char>, s: Seq<char>, k: int, lo: int, hi: int, pat: Seq<char>)
    requires
        agree(t, s, k, lo, hi),
        0 <= lo <= hi,
        0 <= lo + k,
        hi <= s.len(),
        hi + k <= t.len(),
    ensures
        rsplit_second(t, lo + k, hi + k, pat) == (match rsplit_second(s, lo, hi, pat) {
            Some((a, b)) => Some((a + k, b + k)),
            None => None,
        }),
{
    lemma_rfind_in_shift(t, s, k, lo, hi, pat);
    let r = rfind_in(s, lo, hi, pat);
    if r >= 0 {
        lemma_rfind_in(s, lo, hi, pat);
        lemma_agree_narrow(t, s, k, lo, hi, lo, r);
        lemma_rfind_in_shift(t, s, k, lo, r, pat);
        assert(rfind_in(t, lo + k, hi + k, pat) == r + k);
        let r2 = rfind_in(s, lo, r, pat);
        lemma_rfind_in(s, lo, r, pat);
        assert(rfind_in(t, lo + k, r + k, pat) == (if r2 < 0 { -1 } else { r2 + k }));
    }
}

pub proof fn lemma_line_end_shift(t: Seq<char>, s: Seq<char>, k: int, pos: int)
    requires
        0 <= pos <= s.len(),
        0 <= k,
        t.len() == s.len() + k,
        agree(t, s, k, pos, s.len() as int),
    ensures
        line_end(t, pos + k) == line_end(s, pos) + k,
{
    lemma_find_char_shift(t, s, k, pos, s.len() as int, '\n');
}

/// Searching for `c` past a range that holds none.
pub proof fn lemma_find_char_skip(s: Seq<char>, lo: int, m: int, hi: int, c: char)
    requires
        0 <= lo <= m <= hi,
        find_char(s, lo, m, c) < 0,
    ensures
        find_char(s, lo, hi, c) == find_char(s, m, hi, c),
    decreases m - lo,
{
    if lo < m {
        assert(s[lo] != c);
        assert(find_char(s, lo + 1, m, c) == find_char(s, lo, m, c));
        lemma_find_char_skip(s, lo + 1, m, hi, c);
    }
}

/// Searching for `pat` past positions that cannot start it.
pub proof fn lemma_find_in_skip(s: Seq<char>, lo: int, m: int, hi: int, pat: Seq<char>)
    requires
        0 <= lo <= m <= hi,
        pat.len() > 0,
        forall|i: int| lo <= i < m ==> #[trigger] s[i] != pat[0],
    ensures
        find_in(s, lo, hi, pat) == find_in(s, m, hi, pat),
    decreases m - lo,
{
    if lo < m {
        if lo + pat.len() <= hi {
            if occurs_at(s, lo, hi, pat) {
                assert(s.subrange(lo, lo + pat.len())[0] == s[lo]);
            }
            lemma_find_in_skip(s, lo + 1, m, hi, pat);
        }
    }
}

/// A search that starts no later than an occurrence, with none before it, finds that one.
pub proof fn lemma_find_in_first(s: Seq<char>, lo: int, hi: int, pat: Seq<char>, k: int)
    requires
        0 <= lo <= k,
        pat.len() > 0,
        occurs_at(s, k, hi, pat),
        forall|i: int| lo <= i < k ==> !#[trigger] occurs_at(s, i, hi, pat),
    ensures
        find_in(s, lo, hi, pat) == k,
{
    lemma_find_in_finds(s, lo, hi, pat, k);
    lemma_find_in(s, lo, hi, pat);
}

/// A backward search finds the last occurrence.
pub proof fn lemma_rfind_in_last(s: Seq<char>, lo: int, hi: int, pat: Seq<char>, k: int)
    requires
        0 <= lo <= k,
        pat.len() > 0,
        occurs_at(s, k, hi, pat),
        forall|i: int| k < i && i + pat.len() <= hi ==> !#[trigger] occurs_at(s, i, hi, pat),
    ensures
        rfind_in(s, lo, hi, pat) == k,
    decreases hi,
{
    if hi - pat.len() != k {
        assert(!occurs_at(s, hi - pat.len(), hi, pat));
        assert forall|i: int| k < i && i + pat.len() <= hi - 1 implies !#[trigger] occurs_at(
            s,
            i,
            hi - 1,
            pat,
        ) by {
            assert(!occurs_at(s, i, hi, pat));
        }
        lemma_rfind_in_last(s, lo, hi - 1, pat, k);
    }
}

/// No occurrence starts after the one a backward search finds (or at all, when it finds none).
pub proof fn lemma_rfind_in_nothing_after(s: Seq<char>, lo: int, hi: int, pat: Seq<char>)
    requires
        0 <= lo,
        pat.len() > 0,
    ensures
        forall|i: int|
            rfind_in(s, lo, hi, pat) < i && lo <= i && i + pat.len() <= hi ==> !#[trigger] occurs_at(
                s,
                i,
                hi,
                pat,
            ),
    decreases hi,
{
    if hi - pat.len() >= lo && !occurs_at(s, hi - pat.len(), hi, pat) {
        lemma_rfind_in_nothing_after(s, lo, hi - 1, pat);
        assert forall|i: int|
            rfind_in(s, lo, hi, pat) < i && lo <= i && i + pat.len() <= hi implies !#[trigger] occurs_at(
                s,
                i,
                hi,
                pat,
            ) by {
            if i + pat.len() <= hi - 1 {
                assert(!occurs_at(s, i, hi - 1, pat));
            }
        }
    }
}

/// A backward search over a range where `pat` never occurs finds nothing.
pub proof fn lemma_rfind_in_none(s: Seq<char>, lo: int, hi: int, pat: Seq<char>)
    requires
        0 <= lo,
        forall|i: int| lo <= i && i + pat.len() <= hi ==> !#[trigger] occurs_at(s, i, hi, pat),
    ensures
        rfind_in(s, lo, hi, pat) == -1,
{
    lemma_rfind_in(s, lo, hi, pat);
}

/// A text that does not contain `pat` holds it at no position.
pub proof fn lemma_not_contains(p: Seq<char>, pat: Seq<char>, i: int)
    requires
        !contains(p, pat),
        pat.len() > 0,
        0 <= i,
        i + pat.len() <= p.len(),
    ensures
        p.subrange(i, i + pat.len()) != pat,
{
    if p.subrange(i, i + pat.len()) == pat {
        lemma_find_in_finds(p, 0, p.len() as int, pat, i);
    }
}

/// The line starting at `pos` ends just past the first `'\n'` at or after `pos`.
pub proof fn lemma_line_end_at(s: Seq<char>, pos: int, j: int)
    requires
        0 <= pos <= j < s.len(),
        s[j] == '\n',
        forall|i: int| pos <= i < j ==> s[i] != '\n',
    ensures
        line_end(s, pos) == j + 1,
{
    lemma_find_char(s, pos, s.len() as int, '\n');
    let f = find_char(s, pos, s.len() as int, '\n');
    assert(s[j] == '\n');
    if f >= 0 && f < j {
        assert(s[f] != '\n');
    }
}

/// A line without `'\n'` runs to the end of the text.
pub proof fn lemma_line_end_last(s: Seq<char>, pos: int)
    requires
        0 <= pos < s.len(),
        forall|i: int| pos <= i < s.len() ==> s[i] != '\n',
    ensures
        line_end(s, pos) == s.len(),
{
    lemma_find_char(s, pos, s.len() as int, '\n');
}

proof fn lemma_skip_ws_extend(s: Seq<char>, lo: int, hi: int)
    requires
        lo <= hi,
        0 <= hi < s.len(),
        is_ws(s[hi]),
    ensures
        skip_ws(s, lo, hi + 1) == (if skip_ws(s, lo, hi) == hi {
            hi + 1
        } else {
            skip_ws(s, lo, hi)
        }),
    decreases hi - lo,
{
    if lo < hi && is_ws(s[lo]) {
        lemma_skip_ws_extend(s, lo + 1, hi);
    } else if lo == hi {
        assert(skip_ws(s, hi + 1, hi + 1) == hi + 1);
    }
}

/// Trimming a range is not changed by a whitespace char just past it.
pub proof fn lemma_trimmed_extend_ws(s: Seq<char>, lo: int, hi: int)
    requires
        0 <= lo <= hi < s.len(),
        is_ws(s[hi]),
    ensures
        trimmed(s, lo, hi + 1) == trimmed(s, lo, hi),
{
    lemma_skip_ws_extend(s, lo, hi);
    lemma_skip_ws_bounds(s, lo, hi);
    let a = skip_ws(s, lo, hi);
    if a == hi {
        assert(skip_ws_back(s, hi + 1, hi + 1) == hi + 1);
        assert(skip_ws_back(s, hi, hi) == hi);
        assert(trimmed(s, lo, hi + 1) =~= trimmed(s, lo, hi));
    } else {
        assert(skip_ws_back(s, a, hi + 1) == skip_ws_back(s, a, hi));
    }
}

/// `s.trim()` as an owned string.
pub fn trim_str(s: &str) -> (r: String)
    ensures
        r@ == trim(s@),
{
    let v = chars_of(s);
    let (a, b) = trim_bounds(&v, 0, v.len());
    owned_range(s, a, b)
}

/// The empty text has nothing to trim.
pub proof fn lemma_trim_empty()
    ensures
        trim(Seq::<char>::empty()) == Seq::<char>::empty(),
{
    let e = Seq::<char>::empty();
    assert(skip_ws(e, 0, 0) == 0);
    assert(skip_ws_back(e, 0, 0) == 0);
    assert(e.subrange(0, 0) == e);
}

} // verus!
