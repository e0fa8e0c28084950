//! Character-level text processing on which the parsers of this crate rest.
//!
//! Strings are handled through their character view (`s@`, a `Seq<char>`); each
//! executable function here is tied to a spec function over that view.
use vstd::prelude::*;

verus! {

/// The characters that Unicode calls `White_Space`; this is exactly the set that
/// `char::is_whitespace` accepts (and so what `str::trim` and
/// `str::split_whitespace` treat as blanks).
pub open spec fn is_ws(c: char) -> bool {
    ||| ('\t' <= c && c <= '\r')
    ||| c == ' '
    ||| c == '\u{85}'
    ||| c == '\u{a0}'
    ||| c == '\u{1680}'
    ||| ('\u{2000}' <= c && c <= '\u{200a}')
    ||| c == '\u{2028}'
    ||| c == '\u{2029}'
    ||| c == '\u{202f}'
    ||| c == '\u{205f}'
    ||| c == '\u{3000}'
}

pub fn is_whitespace(c: char) -> (r: bool)
    ensures
        r == is_ws(c),
{
    ('\t' <= c && c <= '\r') || c == ' ' || c == '\u{85}' || c == '\u{a0}' || c == '\u{1680}' || (
    '\u{2000}' <= c && c <= '\u{200a}') || c == '\u{2028}' || c == '\u{2029}' || c == '\u{202f}'
        || c == '\u{205f}' || c == '\u{3000}'
}

/// The characters of a string slice, in order.
pub fn chars_of(s: &str) -> (v: Vec<char>)
    ensures
        v@ == s@,
{
    let n = s.unicode_len();
    let mut v: Vec<char> = Vec::new();
    let mut i: usize = 0;
    while i < n
        invariant
            n == s@.len(),
            i <= n,
            v@ == s@.take(i as int),
        decreases n - i,
    {
        v.push(s.get_char(i));
        i = i + 1;
    }
    v
}

/// Appends one character to a `String` (`String::push`).
#[verifier::external_body]
fn push_char(s: &mut String, c: char)
    ensures
        final(s)@ == old(s)@.push(c),
{
    s.push(c);
}

/// A new `String` holding the characters `v[lo..hi]`.
pub fn string_from_range(v: &Vec<char>, lo: usize, hi: usize) -> (r: String)
    requires
        lo <= hi <= v@.len(),
    ensures
        r@ == v@.subrange(lo as int, hi as int),
{
    let mut r = String::new();
    let mut i = lo;
    while i < hi
        invariant
            lo <= i <= hi <= v@.len(),
            r@ == v@.subrange(lo as int, i as int),
        decreases hi - i,
    {
        push_char(&mut r, v[i]);
        proof {
            assert(v@.subrange(lo as int, i + 1) =~= v@.subrange(lo as int, i as int).push(v@[i as int]));
        }
        i = i + 1;
    }
    r
}

/// A new `String` holding all the characters of `v`.
pub fn string_from_chars(v: &Vec<char>) -> (r: String)
    ensures
        r@ == v@,
{
    let r = string_from_range(v, 0, v.len());
    proof {
        assert(v@.subrange(0, v@.len() as int) =~= v@);
    }
    r
}

/// A new `String` with the characters of `a` followed by those of `b`.
pub fn concat_str(a: &str, b: &str) -> (r: String)
    ensures
        r@ == a@ + b@,
{
    let mut r = String::from_str(a);
    r.append(b);
    r
}

/// A new `String` with the characters of `a`, `b` and `c` in turn.
pub fn concat3(a: &str, b: &str, c: &str) -> (r: String)
    ensures
        r@ == a@ + b@ + c@,
{
    let mut r = String::from_str(a);
    r.append(b);
    r.append(c);
    r
}

/// `s` with every `from` replaced by `to`.
pub open spec fn replace_char(s: Seq<char>, from: char, to: char) -> Seq<char> {
    s.map_values(|c: char| if c == from { to } else { c })
}

/// `s` without any `c`.
pub open spec fn remove_char(s: Seq<char>, c: char) -> Seq<char>
    decreases s.len(),
{
    if s.len() == 0 {
        s
    } else if s.last() == c {
        remove_char(s.drop_last(), c)
    } else {
        remove_char(s.drop_last(), c).push(s.last())
    }
}

/// `s` without any `c` (`str::replace` of a character by nothing).
pub fn remove_char_str(s: &str, c: char) -> (r: String)
    ensures
        r@ == remove_char(s@, c),
{
    let v = chars_of(s);
    let mut r = String::new();
    let mut i: usize = 0;
    while i < v.len()
        invariant
            v@ == s@,
            i <= v@.len(),
            r@ == remove_char(v@.take(i as int), c),
        decreases v@.len() - i,
    {
        proof {
            assert(v@.take(i + 1).drop_last() =~= v@.take(i as int));
        }
        if v[i] != c {
            push_char(&mut r, v[i]);
        }
        i = i + 1;
    }
    proof {
        assert(v@.take(v@.len() as int) =~= v@);
    }
    r
}

/// `s` with every `from` replaced by `to` (`str::replace` with one-character patterns).
pub fn replace_char_str(s: &str, from: char, to: char) -> (r: String)
    ensures
        r@ == replace_char(s@, from, to),
{
    let v = chars_of(s);
    let mut r = String::new();
    let mut i: usize = 0;
    while i < v.len()
        invariant
            v@ == s@,
            i <= v@.len(),
            r@ == replace_char(s@, from, to).take(i as int),
        decreases v@.len() - i,
    {
        let c = if v[i] == from {
            to
        } else {
            v[i]
        };
        push_char(&mut r, c);
        proof {
            assert(replace_char(s@, from, to).take(i + 1) =~= replace_char(s@, from, to).take(
                i as int,
            ).push(c));
        }
        i = i + 1;
    }
    proof {
        assert(replace_char(s@, from, to).take(v@.len() as int) =~= replace_char(s@, from, to));
    }
    r
}

// ---------------------------------------------------------------------------
// Trimming
// ---------------------------------------------------------------------------

/// `s` without its leading white space.
pub open spec fn trim_start(s: Seq<char>) -> Seq<char>
    decreases s.len(),
{
    if s.len() > 0 && is_ws(s[0]) {
        trim_start(s.skip(1))
    } else {
        s
    }
}

/// `s` without its trailing white space.
pub open spec fn trim_end(s: Seq<char>) -> Seq<char>
    decreases s.len(),
{
    if s.len() > 0 && is_ws(s.last()) {
        trim_end(s.drop_last())
    } else {
        s
    }
}

/// `s` without leading and trailing white space (`str::trim`).
pub open spec fn trim(s: Seq<char>) -> Seq<char> {
    trim_end(trim_start(s))
}

/// The index of the first character of `v[lo..hi]` that is not white space, or `hi`.
fn skip_ws_forward(v: &Vec<char>, lo: usize, hi: usize) -> (i: usize)
    requires
        lo <= hi <= v@.len(),
    ensures
        lo <= i <= hi,
        trim_start(v@.subrange(lo as int, hi as int)) == v@.subrange(i as int, hi as int),
        i < hi ==> !is_ws(v@[i as int]),
        forall|k: int| lo <= k < i ==> is_ws(#[trigger] v@[k]),
{
    let mut i = lo;
    while i < hi && is_whitespace(v[i])
        invariant
            lo <= i <= hi <= v@.len(),
            trim_start(v@.subrange(lo as int, hi as int)) == trim_start(
                v@.subrange(i as int, hi as int),
            ),
            forall|k: int| lo <= k < i ==> is_ws(#[trigger] v@[k]),
        decreases hi - i,
    {
        proof {
            let t = v@.subrange(i as int, hi as int);
            assert(t.skip(1) =~= v@.subrange(i + 1, hi as int));
        }
        i = i + 1;
    }
    i
}

/// The end of `v[lo..hi]` once its trailing white space is dropped.
fn skip_ws_backward(v: &Vec<char>, lo: usize, hi: usize) -> (j: usize)
    requires
        lo <= hi <= v@.len(),
    ensures
        lo <= j <= hi,
        trim_end(v@.subrange(lo as int, hi as int)) == v@.subrange(lo as int, j as int),
{
    let mut j = hi;
    while j > lo && is_whitespace(v[j - 1])
        invariant
            lo <= j <= hi <= v@.len(),
            trim_end(v@.subrange(lo as int, hi as int)) == trim_end(
                v@.subrange(lo as int, j as int),
            ),
        decreases j - lo,
    {
        proof {
            let t = v@.subrange(lo as int, j as int);
            assert(t.drop_last() =~= v@.subrange(lo as int, j - 1));
        }
        j = j - 1;
    }
    j
}

/// The bounds `(a, b)` such that `v[a..b]` is `v[lo..hi]` trimmed.
pub fn trim_bounds(v: &Vec<char>, lo: usize, hi: usize) -> (r: (usize, usize))
    requires
        lo <= hi <= v@.len(),
    ensures
        lo <= r.0 <= r.1 <= hi,
        trim(v@.subrange(lo as int, hi as int)) == v@.subrange(r.0 as int, r.1 as int),
{
    let a = skip_ws_forward(v, lo, hi);
    let b = skip_ws_backward(v, a, hi);
    (a, b)
}

/// `v` trimmed, as a new `String`.
pub fn trimmed_string(v: &Vec<char>) -> (r: String)
    ensures
        r@ == trim(v@),
{
    let (a, b) = trim_bounds(v, 0, v.len());
    proof {
        assert(v@.subrange(0, v@.len() as int) =~= v@);
    }
    string_from_range(v, a, b)
}

// ---------------------------------------------------------------------------
// Prefixes, searching
// ---------------------------------------------------------------------------

/// `p` is a prefix of `s`.
pub open spec fn starts_with(s: Seq<char>, p: Seq<char>) -> bool {
    p.len() <= s.len() && s.take(p.len() as int) == p
}

/// `p` occurs in `s` as a contiguous part.
pub open spec fn contains_seq(s: Seq<char>, p: Seq<char>) -> bool {
    exists|i: int| 0 <= i && i + p.len() <= s.len() && #[trigger] s.subrange(i, i + p.len()) == p
}

/// The index of the first `c` in `s`.
pub open spec fn find_char(s: Seq<char>, c: char) -> Option<int>
    decreases s.len(),
{
    if s.len() == 0 {
        None
    } else if s[0] == c {
        Some(0)
    } else {
        match find_char(s.skip(1), c) {
            Some(i) => Some(i + 1),
            None => None,
        }
    }
}

pub proof fn lemma_find_char(s: Seq<char>, c: char)
    ensures
        match find_char(s, c) {
            Some(i) => 0 <= i < s.len() && s[i] == c && forall|k: int| 0 <= k < i ==> s[k] != c,
            None => forall|k: int| 0 <= k < s.len() ==> s[k] != c,
        },
    decreases s.len(),
{
    if s.len() > 0 && s[0] != c {
        lemma_find_char(s.skip(1), c);
        match find_char(s.skip(1), c) {
            Some(i) => {
                assert forall|k: int| 0 <= k < i + 1 implies s[k] != c by {
                    if k > 0 {
                        assert(s[k] == s.skip(1)[k - 1]);
                    }
                }
            },
            None => {
                assert forall|k: int| 0 <= k < s.len() implies s[k] != c by {
                    if k > 0 {
                        assert(s[k] == s.skip(1)[k - 1]);
                    }
                }
            },
        }
    }
}

/// A sequence has at most one first occurrence of a character.
pub proof fn lemma_find_char_unique(s: Seq<char>, c: char, i: int)
    requires
        0 <= i < s.len(),
        s[i] == c,
        forall|k: int| 0 <= k < i ==> s[k] != c,
    ensures
        find_char(s, c) == Some(i),
{
    lemma_find_char(s, c);
    match find_char(s, c) {
        Some(j) => {
            if j < i {
                assert(s[j] != c);
            } else if j > i {
                assert(s[i] != c);
            }
        },
        None => {
            assert(s[i] != c);
        },
    }
}

/// The index of the first `c` in `v[lo..hi]` (relative to `v`), if any.
pub fn find_char_in(v: &Vec<char>, lo: usize, hi: usize, c: char) -> (r: Option<usize>)
    requires
        lo <= hi <= v@.len(),
    ensures
        match r {
            Some(i) => lo <= i < hi && find_char(v@.subrange(lo as int, hi as int), c) == Some(
                i - lo,
            ),
            None => find_char(v@.subrange(lo as int, hi as int), c) is None,
        },
{
    let mut i = lo;
    while i < hi
        invariant
            lo <= i <= hi <= v@.len(),
            forall|k: int| lo <= k < i ==> v@[k] != c,
        decreases hi - i,
    {
        if v[i] == c {
            proof {
                lemma_find_char_unique(v@.subrange(lo as int, hi as int), c, i - lo);
            }
            return Some(i);
        }
        i = i + 1;
    }
    proof {
        let s = v@.subrange(lo as int, hi as int);
        lemma_find_char(s, c);
        if find_char(s, c) is Some {
            let j = find_char(s, c)->0;
            assert(s[j] == v@[lo + j]);
        }
    }
    None
}

/// Whether `v[lo..hi]` starts with `p`.
pub fn starts_with_at(v: &Vec<char>, lo: usize, hi: usize, p: &Vec<char>) -> (r: bool)
    requires
        lo <= hi <= v@.len(),
    ensures
        r == starts_with(v@.subrange(lo as int, hi as int), p@),
{
    if p.len() > hi - lo {
        return false;
    }
    let mut k: usize = 0;
    while k < p.len()
        invariant
            lo <= hi <= v@.len(),
            p@.len() <= hi - lo,
            k <= p@.len(),
            forall|m: int| 0 <= m < k ==> v@[lo + m] == p@[m],
        decreases p@.len() - k,
    {
        if v[lo + k] != p[k] {
            proof {
                let s = v@.subrange(lo as int, hi as int);
                assert(s.take(p@.len() as int)[k as int] != p@[k as int]);
            }
            return false;
        }
        k = k + 1;
    }
    proof {
        let s = v@.subrange(lo as int, hi as int);
        assert(s.take(p@.len() as int) =~= p@);
    }
    true
}

/// Whether `v[lo..hi]` holds `p` somewhere.
pub fn contains_at(v: &Vec<char>, lo: usize, hi: usize, p: &Vec<char>) -> (r: bool)
    requires
        lo <= hi <= v@.len(),
    ensures
        r == contains_seq(v@.subrange(lo as int, hi as int), p@),
{
    let ghost s = v@.subrange(lo as int, hi as int);
    if p.len() > hi - lo {
        proof {
            assert forall|i: int| 0 <= i && i + p@.len() <= s.len() implies #[trigger] s.subrange(
                i,
                i + p@.len(),
            ) != p@ by {}
        }
        return false;
    }
    let last = hi - lo - p.len();
    let mut i: usize = 0;
    while i <= last
        invariant
            lo <= hi <= v@.len(),
            s == v@.subrange(lo as int, hi as int),
            p@.len() <= hi - lo,
            last == hi - lo - p@.len(),
            forall|j: int| 0 <= j < i ==> #[trigger] s.subrange(j, j + p@.len()) != p@,
        decreases last + 1 - i,
    {
        if starts_with_at(v, lo + i, hi, p) {
            proof {
                let t = v@.subrange(lo + i, hi as int);
                assert(t.take(p@.len() as int) =~= s.subrange(i as int, i + p@.len()));
            }
            return true;
        }
        proof {
            let t = v@.subrange(lo + i, hi as int);
            assert(t.take(p@.len() as int) =~= s.subrange(i as int, i + p@.len()));
        }
        if i == last {
            proof {
                assert forall|j: int| 0 <= j && j + p@.len() <= s.len() implies #[trigger] s.subrange(
                    j,
                    j + p@.len(),
                ) != p@ by {}
            }
            return false;
        }
        i = i + 1;
    }
    false
}

// ---------------------------------------------------------------------------
// ASCII case
// ---------------------------------------------------------------------------

pub open spec fn ascii_lower(c: char) -> char {
    if 'A' <= c && c <= 'Z' {
        ((c as u32) + 32) as char
    } else {
        c
    }
}

pub open spec fn ascii_upper(c: char) -> char {
    if 'a' <= c && c <= 'z' {
        ((c as u32) - 32) as char
    } else {
        c
    }
}

pub open spec fn is_ascii_char(c: char) -> bool {
    (c as u32) < 128
}

pub open spec fn all_ascii(s: Seq<char>) -> bool {
    forall|i: int| 0 <= i < s.len() ==> is_ascii_char(#[trigger] s[i])
}

pub open spec fn ascii_lower_seq(s: Seq<char>) -> Seq<char> {
    s.map_values(|c: char| ascii_lower(c))
}

pub open spec fn ascii_upper_seq(s: Seq<char>) -> Seq<char> {
    s.map_values(|c: char| ascii_upper(c))
}

/// `a` and `b` are equal when ASCII letters are compared without case
/// (`str::eq_ignore_ascii_case`).
pub open spec fn eq_ignore_ascii_case(a: Seq<char>, b: Seq<char>) -> bool {
    a.len() == b.len() && forall|i: int| 0 <= i < a.len() ==> ascii_lower(#[trigger] a[i]) == ascii_lower(b[i])
}

pub fn char_ascii_lower(c: char) -> (r: char)
    ensures
        r == ascii_lower(c),
{
    if 'A' <= c && c <= 'Z' {
        let u: u8 = c as u8;
        ((u + 32) as char)
    } else {
        c
    }
}

pub fn eq_ignore_ascii_case_str(a: &str, b: &str) -> (r: bool)
    ensures
        r == eq_ignore_ascii_case(a@, b@),
{
    let va = chars_of(a);
    let vb = chars_of(b);
    if va.len() != vb.len() {
        return false;
    }
    let mut i: usize = 0;
    while i < va.len()
        invariant
            va@ == a@,
            vb@ == b@,
            va@.len() == vb@.len(),
            i <= va@.len(),
            forall|k: int| 0 <= k < i ==> ascii_lower(#[trigger] va@[k]) == ascii_lower(vb@[k]),
        decreases va@.len() - i,
    {
        if char_ascii_lower(va[i]) != char_ascii_lower(vb[i]) {
            return false;
        }
        i = i + 1;
    }
    true
}

// ---------------------------------------------------------------------------
// Unicode case mapping (std)
// ---------------------------------------------------------------------------

/// What `str::to_lowercase` returns for a string, as a function of its characters.
pub uninterp spec fn unicode_lowercase(s: Seq<char>) -> Seq<char>;

/// What `str::to_uppercase` returns for a string, as a function of its characters.
pub uninterp spec fn unicode_uppercase(s: Seq<char>) -> Seq<char>;

/// `str::to_lowercase`. Trusted: the result is the Unicode lowercase mapping of
/// the input, a function of its characters alone; on ASCII input that mapping
/// lowers the letters `A`-`Z` and leaves every other character as it is.
#[verifier::external_body]
pub(crate) fn to_lowercase(s: &str) -> (r: String)
    ensures
        r@ == unicode_lowercase(s@),
        all_ascii(s@) ==> r@ == ascii_lower_seq(s@),
{
    s.to_lowercase()
}

/// `str::to_uppercase`. Trusted: the result is the Unicode uppercase mapping of
/// the input, a function of its characters alone; on ASCII input that mapping
/// raises the letters `a`-`z` and leaves every other character as it is.
#[verifier::external_body]
pub(crate) fn to_uppercase(s: &str) -> (r: String)
    ensures
        r@ == unicode_uppercase(s@),
        all_ascii(s@) ==> r@ == ascii_upper_seq(s@),
{
    s.to_uppercase()
}


// ---------------------------------------------------------------------------
// Splitting into pieces
// ---------------------------------------------------------------------------

/// The pieces `v[a..b]` that a list of bounds designates.
pub open spec fn range_views(v: Seq<char>, r: Seq<(usize, usize)>) -> Seq<Seq<char>> {
    r.map_values(|p: (usize, usize)| v.subrange(p.0 as int, p.1 as int))
}

/// Every bound of `r` lies inside `lo..hi`.
pub open spec fn ranges_within(r: Seq<(usize, usize)>, lo: int, hi: int) -> bool {
    forall|i: int| 0 <= i < r.len() ==> lo <= (#[trigger] r[i]).0 <= r[i].1 <= hi
}

/// The length of the run of non-white-space characters that `s` starts with.
pub open spec fn word_len(s: Seq<char>) -> nat
    decreases s.len(),
{
    if s.len() == 0 || is_ws(s[0]) {
        0
    } else {
        1 + word_len(s.skip(1))
    }
}

pub proof fn lemma_word_len(s: Seq<char>)
    ensures
        word_len(s) <= s.len(),
        s.len() > 0 && !is_ws(s[0]) ==> word_len(s) >= 1,
    decreases s.len(),
{
    if s.len() > 0 && !is_ws(s[0]) {
        lemma_word_len(s.skip(1));
    }
}

/// The white-space separated words of `s` (`str::split_whitespace`).
pub open spec fn words(s: Seq<char>) -> Seq<Seq<char>>
    decreases s.len(),
{
    if s.len() == 0 {
        seq![]
    } else if is_ws(s[0]) {
        words(s.skip(1))
    } else {
        proof {
            lemma_word_len(s);
        }
        seq![s.take(word_len(s) as int)] + words(s.skip(word_len(s) as int))
    }
}

/// The bounds of the words of `v[lo..hi]`.
pub fn split_whitespace_in(v: &Vec<char>, lo: usize, hi: usize) -> (r: Vec<(usize, usize)>)
    requires
        lo <= hi <= v@.len(),
    ensures
        ranges_within(r@, lo as int, hi as int),
        range_views(v@, r@) == words(v@.subrange(lo as int, hi as int)),
{
    let mut r: Vec<(usize, usize)> = Vec::new();
    let mut i = lo;
    while i < hi
        invariant
            lo <= i <= hi <= v@.len(),
            ranges_within(r@, lo as int, i as int),
            words(v@.subrange(lo as int, hi as int)) == range_views(v@, r@) + words(
                v@.subrange(i as int, hi as int),
            ),
        decreases hi - i,
    {
        let ghost t = v@.subrange(i as int, hi as int);
        if is_whitespace(v[i]) {
            proof {
                assert(t.skip(1) =~= v@.subrange(i + 1, hi as int));
            }
            i = i + 1;
        } else {
            let mut j = i;
            while j < hi && !is_whitespace(v[j])
                invariant
                    i <= j <= hi <= v@.len(),
                    t == v@.subrange(i as int, hi as int),
                    word_len(t) == (j - i) + word_len(v@.subrange(j as int, hi as int)),
                decreases hi - j,
            {
                proof {
                    let u = v@.subrange(j as int, hi as int);
                    assert(u.skip(1) =~= v@.subrange(j + 1, hi as int));
                }
                j = j + 1;
            }
            proof {
                let u = v@.subrange(j as int, hi as int);
                assert(word_len(u) == 0);
                assert(t.take(word_len(t) as int) =~= v@.subrange(i as int, j as int));
                assert(t.skip(word_len(t) as int) =~= u);
                let old_r = r@;
                assert(range_views(v@, old_r.push((i, j))) =~= range_views(v@, old_r).push(
                    v@.subrange(i as int, j as int),
                ));
                assert(range_views(v@, old_r) + words(t) =~= range_views(v@, old_r).push(
                    v@.subrange(i as int, j as int),
                ) + words(u));
            }
            r.push((i, j));
            i = j;
        }
    }
    proof {
        assert(v@.subrange(i as int, hi as int) =~= Seq::<char>::empty());
        assert(range_views(v@, r@) + Seq::<Seq<char>>::empty() =~= range_views(v@, r@));
    }
    r
}

/// `s` split at every `c`; there is always at least one piece (`str::split`).
pub open spec fn split_char(s: Seq<char>, c: char) -> Seq<Seq<char>>
    decreases s.len(),
{
    match find_char(s, c) {
        Some(i) => {
            proof {
                lemma_find_char(s, c);
            }
            seq![s.take(i)] + split_char(s.skip(i + 1), c)
        },
        None => seq![s],
    }
}

/// The bounds of the pieces of `v[lo..hi]` split at every `c`.
pub fn split_char_in(v: &Vec<char>, lo: usize, hi: usize, c: char) -> (r: Vec<(usize, usize)>)
    requires
        lo <= hi <= v@.len(),
    ensures
        ranges_within(r@, lo as int, hi as int),
        range_views(v@, r@) == split_char(v@.subrange(lo as int, hi as int), c),
{
    let mut r: Vec<(usize, usize)> = Vec::new();
    let mut i = lo;
    loop
        invariant
            lo <= i <= hi <= v@.len(),
            ranges_within(r@, lo as int, i as int),
            split_char(v@.subrange(lo as int, hi as int), c) == range_views(v@, r@) + split_char(
                v@.subrange(i as int, hi as int),
                c,
            ),
        decreases hi - i,
    {
        let ghost t = v@.subrange(i as int, hi as int);
        match find_char_in(v, i, hi, c) {
            Some(j) => {
                proof {
                    lemma_find_char(t, c);
                    assert(t.take(j - i) =~= v@.subrange(i as int, j as int));
                    assert(t.skip(j - i + 1) =~= v@.subrange(j + 1, hi as int));
                    let old_r = r@;
                    assert(range_views(v@, old_r.push((i, j))) =~= range_views(v@, old_r).push(
                        v@.subrange(i as int, j as int),
                    ));
                    assert(range_views(v@, old_r) + split_char(t, c) =~= range_views(
                        v@,
                        old_r,
                    ).push(v@.subrange(i as int, j as int)) + split_char(
                        v@.subrange(j + 1, hi as int),
                        c,
                    ));
                }
                r.push((i, j));
                i = j + 1;
            },
            None => {
                proof {
                    let old_r = r@;
                    assert(range_views(v@, old_r.push((i, hi))) =~= range_views(v@, old_r).push(
                        t,
                    ));
                    assert(range_views(v@, old_r) + split_char(t, c) =~= range_views(
                        v@,
                        old_r,
                    ).push(t));
                }
                r.push((i, hi));
                return r;
            },
        }
    }
}

/// `s` without one trailing carriage return.
pub open spec fn strip_cr(s: Seq<char>) -> Seq<char> {
    if s.len() > 0 && s.last() == '\r' {
        s.drop_last()
    } else {
        s
    }
}

/// The lines of `s` (`str::lines`): pieces ended by `\n` or `\r\n`; the last line
/// needs no ending, and an empty text has no lines.
pub open spec fn lines(s: Seq<char>) -> Seq<Seq<char>>
    decreases s.len(),
{
    if s.len() == 0 {
        seq![]
    } else {
        match find_char(s, '\n') {
            Some(i) => {
                proof {
                    lemma_find_char(s, '\n');
                }
                seq![strip_cr(s.take(i))] + lines(s.skip(i + 1))
            },
            None => seq![s],
        }
    }
}

/// The bounds of the lines of `v`.
pub fn lines_of(v: &Vec<char>) -> (r: Vec<(usize, usize)>)
    ensures
        ranges_within(r@, 0, v@.len() as int),
        range_views(v@, r@) == lines(v@),
{
    let mut r: Vec<(usize, usize)> = Vec::new();
    let hi = v.len();
    let mut i: usize = 0;
    proof {
        assert(v@.subrange(0, hi as int) =~= v@);
    }
    while i < hi
        invariant
            i <= hi == v@.len(),
            ranges_within(r@, 0, i as int),
            lines(v@) == range_views(v@, r@) + lines(v@.subrange(i as int, hi as int)),
        decreases hi - i,
    {
        let ghost t = v@.subrange(i as int, hi as int);
        match find_char_in(v, i, hi, '\n') {
            Some(j) => {
                let e = if j > i && v[j - 1] == '\r' {
                    j - 1
                } else {
                    j
                };
                proof {
                    lemma_find_char(t, '\n');
                    assert(strip_cr(t.take(j - i)) =~= v@.subrange(i as int, e as int));
                    assert(t.skip(j - i + 1) =~= v@.subrange(j + 1, hi as int));
                    let old_r = r@;
                    assert(range_views(v@, old_r.push((i, e))) =~= range_views(v@, old_r).push(
                        v@.subrange(i as int, e as int),
                    ));
                    assert(range_views(v@, old_r) + lines(t) =~= range_views(v@, old_r).push(
                        v@.subrange(i as int, e as int),
                    ) + lines(v@.subrange(j + 1, hi as int)));
                }
                r.push((i, e));
                i = j + 1;
            },
            None => {
                proof {
                    let old_r = r@;
                    assert(range_views(v@, old_r.push((i, hi))) =~= range_views(v@, old_r).push(
                        t,
                    ));
                    assert(range_views(v@, old_r) + lines(t) =~= range_views(v@, old_r).push(t));
                }
                r.push((i, hi));
                return r;
            },
        }
    }
    proof {
        assert(v@.subrange(i as int, hi as int) =~= Seq::<char>::empty());
        assert(range_views(v@, r@) + Seq::<Seq<char>>::empty() =~= range_views(v@, r@));
    }
    r
}

// ---------------------------------------------------------------------------
// Numbers
// ---------------------------------------------------------------------------

pub open spec fn is_digit(c: char) -> bool {
    '0' <= c && c <= '9'
}

pub open spec fn all_digits(s: Seq<char>) -> bool {
    forall|i: int| 0 <= i < s.len() ==> is_digit(#[trigger] s[i])
}

/// The number that a string of decimal digits writes.
pub open spec fn digits_value(s: Seq<char>) -> nat
    decreases s.len(),
{
    if s.len() == 0 {
        0
    } else {
        digits_value(s.drop_last()) * 10 + ((s.last() as u32) - ('0' as u32)) as nat
    }
}

/// What `str::parse::<u64>` accepts and yields: an optional `+`, then one or more
/// decimal digits whose value fits in 64 bits.
pub open spec fn parse_u64(s: Seq<char>) -> Option<nat> {
    let d = if s.len() > 0 && s[0] == '+' {
        s.skip(1)
    } else {
        s
    };
    if d.len() > 0 && all_digits(d) && digits_value(d) <= u64::MAX {
        Some(digits_value(d))
    } else {
        None
    }
}

proof fn lemma_digits_value_grows(s: Seq<char>, i: int, j: int)
    requires
        0 <= i <= j <= s.len(),
    ensures
        digits_value(s.take(i)) <= digits_value(s.take(j)),
    decreases j - i,
{
    if i < j {
        lemma_digits_value_grows(s, i, j - 1);
        assert(s.take(j).drop_last() =~= s.take(j - 1));
    }
}

/// The number that `v[lo..hi]` writes, as `str::parse::<u64>` reads it.
pub fn parse_u64_in(v: &Vec<char>, lo: usize, hi: usize) -> (r: Option<u64>)
    requires
        lo <= hi <= v@.len(),
    ensures
        match r {
            Some(n) => parse_u64(v@.subrange(lo as int, hi as int)) == Some(n as nat),
            None => parse_u64(v@.subrange(lo as int, hi as int)) is None,
        },
{
    let ghost s = v@.subrange(lo as int, hi as int);
    let start = if lo < hi && v[lo] == '+' {
        lo + 1
    } else {
        lo
    };
    let ghost d = v@.subrange(start as int, hi as int);
    proof {
        if lo < hi && v@[lo as int] == '+' {
            assert(s.skip(1) =~= d);
        } else {
            assert(s =~= d);
        }
    }
    if start == hi {
        return None;
    }
    let mut acc: u64 = 0;
    let mut i = start;
    while i < hi
        invariant
            lo <= start <= i <= hi <= v@.len(),
            d == v@.subrange(start as int, hi as int),
            s == v@.subrange(lo as int, hi as int),
            d.len() > 0,
            parse_u64(s) == (if all_digits(d) && digits_value(d) <= u64::MAX {
                Some(digits_value(d))
            } else {
                None
            }),
            all_digits(d.take(i - start)),
            acc as nat == digits_value(d.take(i - start)),
        decreases hi - i,
    {
        let c = v[i];
        if !('0' <= c && c <= '9') {
            proof {
                assert(d[i - start] == c);
            }
            return None;
        }
        let dig: u64 = (c as u32 - '0' as u32) as u64;
        proof {
            assert(d.take(i - start + 1).drop_last() =~= d.take(i - start));
            assert(d.take(i - start + 1).last() == c);
        }
        if acc > (u64::MAX - dig) / 10 {
            proof {
                assert(acc * 10 + dig > u64::MAX) by (nonlinear_arith)
                    requires
                        acc > (u64::MAX - dig) / 10,
                        dig <= 9,
                ;
                lemma_digits_value_grows(d, i - start + 1, d.len() as int);
                assert(d.take(d.len() as int) =~= d);
            }
            return None;
        }
        proof {
            assert(acc * 10 + dig <= u64::MAX) by (nonlinear_arith)
                requires
                    acc <= (u64::MAX - dig) / 10,
                    dig <= 9,
            ;
        }
        acc = acc * 10 + dig;
        i = i + 1;
    }
    proof {
        assert(d.take(hi - start) =~= d);
    }
    Some(acc)
}

// ---------------------------------------------------------------------------
// Stripping a repeated prefix
// ---------------------------------------------------------------------------

/// `s` with every leading repetition of `p` removed (`str::trim_start_matches`).
pub open spec fn trim_start_matches(s: Seq<char>, p: Seq<char>) -> Seq<char>
    decreases s.len(),
{
    if p.len() > 0 && starts_with(s, p) {
        trim_start_matches(s.skip(p.len() as int), p)
    } else {
        s
    }
}

/// `s` with every leading repetition of `p` removed.
pub fn trim_start_matches_str(s: &str, p: &str) -> (r: String)
    ensures
        r@ == trim_start_matches(s@, p@),
{
    let v = chars_of(s);
    let pv = chars_of(p);
    let n = v.len();
    let mut i: usize = 0;
    proof {
        assert(v@.subrange(0, n as int) =~= v@);
    }
    while pv.len() > 0 && starts_with_at(&v, i, n, &pv)
        invariant
            i <= n == v@.len(),
            v@ == s@,
            pv@ == p@,
            trim_start_matches(s@, p@) == trim_start_matches(v@.subrange(i as int, n as int), p@),
        decreases n - i,
    {
        proof {
            let t = v@.subrange(i as int, n as int);
            assert(t.skip(p@.len() as int) =~= v@.subrange(i + p@.len(), n as int));
        }
        i = i + pv.len();
    }
    string_from_range(&v, i, n)
}


// ---------------------------------------------------------------------------
// Ordering
// ---------------------------------------------------------------------------

/// `a` comes before `b` in lexicographic order of code points (the order of
/// `String`'s `Ord`, since UTF-8 keeps the order of code points).
pub open spec fn seq_lt(a: Seq<char>, b: Seq<char>) -> bool
    decreases a.len(),
{
    if a.len() == 0 {
        b.len() > 0
    } else if b.len() == 0 {
        false
    } else if a[0] < b[0] {
        true
    } else if a[0] > b[0] {
        false
    } else {
        seq_lt(a.skip(1), b.skip(1))
    }
}

/// The order of strings is a strict total order: no string comes before itself,
pub proof fn lemma_seq_lt_irreflexive(a: Seq<char>)
    ensures
        !seq_lt(a, a),
    decreases a.len(),
{
    if a.len() > 0 {
        lemma_seq_lt_irreflexive(a.skip(1));
    }
}

/// it is transitive,
pub proof fn lemma_seq_lt_transitive(a: Seq<char>, b: Seq<char>, c: Seq<char>)
    requires
        seq_lt(a, b),
        seq_lt(b, c),
    ensures
        seq_lt(a, c),
    decreases a.len(),
{
    if a.len() > 0 && b.len() > 0 && c.len() > 0 {
        if a[0] == b[0] && b[0] == c[0] {
            lemma_seq_lt_transitive(a.skip(1), b.skip(1), c.skip(1));
        }
    }
}

/// and any two different strings are ordered one way or the other.
pub proof fn lemma_seq_lt_total(a: Seq<char>, b: Seq<char>)
    ensures
        seq_lt(a, b) || seq_lt(b, a) || a == b,
    decreases a.len(),
{
    if a.len() == 0 && b.len() == 0 {
        assert(a =~= b);
    } else if a.len() > 0 && b.len() > 0 && a[0] == b[0] {
        lemma_seq_lt_total(a.skip(1), b.skip(1));
        if a.skip(1) == b.skip(1) {
            assert(a =~= seq![a[0]] + a.skip(1));
            assert(b =~= seq![b[0]] + b.skip(1));
        }
    }
}

/// Whether `a` comes before `b`.
pub fn str_lt(a: &str, b: &str) -> (r: bool)
    ensures
        r == seq_lt(a@, b@),
{
    let va = chars_of(a);
    let vb = chars_of(b);
    let mut i: usize = 0;
    proof {
        assert(va@.skip(0) =~= va@);
        assert(vb@.skip(0) =~= vb@);
    }
    loop
        invariant
            va@ == a@,
            vb@ == b@,
            i <= va@.len(),
            i <= vb@.len(),
            seq_lt(a@, b@) == seq_lt(va@.skip(i as int), vb@.skip(i as int)),
        decreases va@.len() - i,
    {
        let ghost sa = va@.skip(i as int);
        let ghost sb = vb@.skip(i as int);
        if i == va.len() {
            return i < vb.len();
        }
        if i == vb.len() {
            return false;
        }
        let ca = va[i];
        let cb = vb[i];
        proof {
            assert(sa[0] == ca);
            assert(sb[0] == cb);
        }
        if ca < cb {
            return true;
        }
        if ca > cb {
            return false;
        }
        proof {
            assert(sa.skip(1) =~= va@.skip(i + 1));
            assert(sb.skip(1) =~= vb@.skip(i + 1));
        }
        i = i + 1;
    }
}

} // verus!
