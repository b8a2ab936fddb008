//! Text primitives.
//!
//! A text is modelled by the sequence of its characters. The specification functions say what
//! each operation yields on such sequences; the executable functions work on slices of
//! characters and are proved to yield exactly that.

use vstd::prelude::*;
use vstd::slice::slice_subrange;

verus! {

/// `String::push` appends one character at the end of the text.
pub assume_specification[ String::push ](s: &mut String, c: char)
    ensures
        final(s)@ == old(s)@.push(c),
;

/// `str == str` holds exactly when both texts are made of the same characters.
pub assume_specification[ <str as PartialEq>::eq ](a: &str, b: &str) -> (r: bool)
    ensures
        r == (a@ == b@),
;

// ---------------------------------------------------------------------------
// Characters
// ---------------------------------------------------------------------------

/// The characters with the Unicode property `White_Space`.
pub open spec fn is_white(c: char) -> bool {
    ||| '\u{9}' <= c && c <= '\u{d}'
    ||| c == ' '
    ||| c == '\u{85}'
    ||| c == '\u{a0}'
    ||| c == '\u{1680}'
    ||| '\u{2000}' <= c && c <= '\u{200a}'
    ||| c == '\u{2028}'
    ||| c == '\u{2029}'
    ||| c == '\u{202f}'
    ||| c == '\u{205f}'
    ||| c == '\u{3000}'
}

/// Whether `c` is white space.
pub fn is_whitespace(c: char) -> (r: bool)
    ensures
        r == is_white(c),
{
    ('\u{9}' <= c && c <= '\u{d}') || c == ' ' || c == '\u{85}' || c == '\u{a0}' || c == '\u{1680}'
        || ('\u{2000}' <= c && c <= '\u{200a}') || c == '\u{2028}' || c == '\u{2029}' || c
        == '\u{202f}' || c == '\u{205f}' || c == '\u{3000}'
}

pub open spec fn is_digit(c: char) -> bool {
    '0' <= c && c <= '9'
}

pub open spec fn is_letter(c: char) -> bool {
    ('a' <= c && c <= 'z') || ('A' <= c && c <= 'Z')
}

pub open spec fn is_alnum(c: char) -> bool {
    is_digit(c) || is_letter(c)
}

/// Whether `c` is one of the ASCII digits.
pub fn is_ascii_digit(c: char) -> (r: bool)
    ensures
        r == is_digit(c),
{
    '0' <= c && c <= '9'
}

/// Whether `c` is one of the ASCII letters.
pub fn is_ascii_alphabetic(c: char) -> (r: bool)
    ensures
        r == is_letter(c),
{
    ('a' <= c && c <= 'z') || ('A' <= c && c <= 'Z')
}

/// Whether `c` is an ASCII letter or digit.
pub fn is_ascii_alphanumeric(c: char) -> (r: bool)
    ensures
        r == is_alnum(c),
{
    is_ascii_digit(c) || is_ascii_alphabetic(c)
}

/// `c` with an ASCII capital turned into the small letter.
pub open spec fn lower_char(c: char) -> char {
    if 'A' <= c && c <= 'Z' {
        ((c as u32) + 32) as char
    } else {
        c
    }
}

fn to_lower_char(c: char) -> (r: char)
    ensures
        r == lower_char(c),
{
    if 'A' <= c && c <= 'Z' {
        (c as u8 + 32) as char
    } else {
        c
    }
}

/// `s` with every ASCII capital turned into the small letter.
pub open spec fn lowered(s: Seq<char>) -> Seq<char> {
    Seq::new(s.len(), |i: int| lower_char(s[i]))
}

/// The characters of `s` with every ASCII capital turned into the small letter.
pub fn to_lower(s: &[char]) -> (r: Vec<char>)
    ensures
        r@ == lowered(s@),
{
    let mut out: Vec<char> = Vec::new();
    let mut i: usize = 0;
    while i < s.len()
        invariant
            i <= s.len(),
            out@ == lowered(s@.take(i as int)),
        decreases s.len() - i,
    {
        out.push(to_lower_char(s[i]));
        assert(lowered(s@.take(i + 1)) =~= lowered(s@.take(i as int)).push(
            lower_char(s@[i as int]),
        ));
        i = i + 1;
    }
    assert(s@.take(s@.len() as int) =~= s@);
    out
}

// ---------------------------------------------------------------------------
// Conversions
// ---------------------------------------------------------------------------

/// The characters of `s`, in order.
pub fn chars_of(s: &str) -> (r: Vec<char>)
    ensures
        r@ == s@,
{
    let mut out: Vec<char> = Vec::new();
    for c in it: s.chars()
        invariant
            it.seq() == s@,
            out@ == s@.take(it.index()),
    {
        out.push(c);
        assert(s@.take(it.index() + 1) =~= s@.take(it.index()).push(c));
    }
    assert(s@.take(s@.len() as int) =~= s@);
    out
}

/// The text made of the characters `s`, in order.
pub fn text_of(s: &[char]) -> (r: String)
    ensures
        r@ == s@,
{
    let mut out = String::new();
    let mut i: usize = 0;
    while i < s.len()
        invariant
            i <= s.len(),
            out@ == s@.take(i as int),
        decreases s.len() - i,
    {
        out.push(s[i]);
        assert(s@.take(i + 1) =~= s@.take(i as int).push(s@[i as int]));
        i = i + 1;
    }
    assert(s@.take(s@.len() as int) =~= s@);
    out
}

/// Whether the two texts are the same.
pub fn same(a: &str, b: &str) -> (r: bool)
    ensures
        r == (a@ == b@),
{
    *a == *b
}

/// The view of an optional text.
pub open spec fn opt_view(o: Option<String>) -> Option<Seq<char>> {
    match o {
        Some(s) => Some(s@),
        None => None,
    }
}

/// The view of an optional borrowed text.
pub open spec fn opt_str_view(o: Option<&str>) -> Option<Seq<char>> {
    match o {
        Some(s) => Some(s@),
        None => None,
    }
}

/// A copy of an optional text.
pub fn copy_opt(o: &Option<String>) -> (r: Option<String>)
    ensures
        r == *o,
{
    match o {
        Some(s) => Some(s.clone()),
        None => None,
    }
}

/// An owned copy of an optional borrowed text.
pub fn own_opt(o: Option<&str>) -> (r: Option<String>)
    ensures
        opt_view(r) == opt_str_view(o),
{
    match o {
        Some(s) => Some(s.to_owned()),
        None => None,
    }
}

/// The views of a list of texts.
pub open spec fn texts(v: Seq<String>) -> Seq<Seq<char>> {
    v.map_values(|s: String| s@)
}

/// The views of a list of borrowed texts.
pub open spec fn strs(v: Seq<&str>) -> Seq<Seq<char>> {
    v.map_values(|s: &str| s@)
}

/// The views of a list of character lists.
pub open spec fn rows(v: Seq<Vec<char>>) -> Seq<Seq<char>> {
    v.map_values(|s: Vec<char>| s@)
}

// ---------------------------------------------------------------------------
// Trimming
// ---------------------------------------------------------------------------

/// The predicate "is white space".
pub open spec fn white() -> spec_fn(char) -> bool {
    |c: char| is_white(c)
}

/// The predicate "is the character `x`".
pub open spec fn just(x: char) -> spec_fn(char) -> bool {
    |c: char| c == x
}

/// `s` without the longest prefix whose characters all meet `p`.
pub open spec fn drop_leading(s: Seq<char>, p: spec_fn(char) -> bool) -> Seq<char>
    decreases s.len(),
{
    if s.len() > 0 && p(s[0]) {
        drop_leading(s.skip(1), p)
    } else {
        s
    }
}

/// `s` without the longest suffix whose characters all meet `p`.
pub open spec fn drop_trailing(s: Seq<char>, p: spec_fn(char) -> bool) -> Seq<char>
    decreases s.len(),
{
    if s.len() > 0 && p(s.last()) {
        drop_trailing(s.drop_last(), p)
    } else {
        s
    }
}

pub open spec fn trimmed_start(s: Seq<char>) -> Seq<char> {
    drop_leading(s, white())
}

pub open spec fn trimmed_end(s: Seq<char>) -> Seq<char> {
    drop_trailing(s, white())
}

/// `s` without the white space at both ends.
pub open spec fn trimmed(s: Seq<char>) -> Seq<char> {
    trimmed_end(trimmed_start(s))
}

/// `s` without the occurrences of `x` at both ends.
pub open spec fn trimmed_of(s: Seq<char>, x: char) -> Seq<char> {
    drop_trailing(drop_leading(s, just(x)), just(x))
}

/// The text without leading white space.
pub fn trim_start(s: &[char]) -> (r: &[char])
    ensures
        r@ == trimmed_start(s@),
        r@.len() <= s@.len(),
{
    let mut i: usize = 0;
    assert(s@.skip(0) =~= s@);
    while i < s.len() && is_whitespace(s[i])
        invariant
            i <= s.len(),
            trimmed_start(s@) == trimmed_start(s@.skip(i as int)),
        decreases s.len() - i,
    {
        assert(s@.skip(i as int).skip(1) =~= s@.skip(i + 1));
        i = i + 1;
    }
    assert(s@.skip(i as int) =~= s@.subrange(i as int, s@.len() as int));
    slice_subrange(s, i, s.len())
}

/// The text without trailing white space.
pub fn trim_end(s: &[char]) -> (r: &[char])
    ensures
        r@ == trimmed_end(s@),
        r@.len() <= s@.len(),
{
    let mut i: usize = s.len();
    assert(s@.take(i as int) =~= s@);
    while i > 0 && is_whitespace(s[i - 1])
        invariant
            i <= s.len(),
            trimmed_end(s@) == trimmed_end(s@.take(i as int)),
        decreases i,
    {
        assert(s@.take(i as int).drop_last() =~= s@.take(i - 1));
        i = i - 1;
    }
    assert(s@.take(i as int) =~= s@.subrange(0, i as int));
    slice_subrange(s, 0, i)
}

/// The text without the white space at both ends.
pub fn trim(s: &[char]) -> (r: &[char])
    ensures
        r@ == trimmed(s@),
        r@.len() <= s@.len(),
{
    trim_end(trim_start(s))
}

/// The text without the occurrences of `x` at both ends.
pub fn trim_char(s: &[char], x: char) -> (r: &[char])
    ensures
        r@ == trimmed_of(s@, x),
{
    let mut i: usize = 0;
    assert(s@.skip(0) =~= s@);
    while i < s.len() && s[i] == x
        invariant
            i <= s.len(),
            drop_leading(s@, just(x)) == drop_leading(s@.skip(i as int), just(x)),
        decreases s.len() - i,
    {
        assert(s@.skip(i as int).skip(1) =~= s@.skip(i + 1));
        i = i + 1;
    }
    assert(s@.skip(i as int) =~= s@.subrange(i as int, s@.len() as int));
    let rest = slice_subrange(s, i, s.len());
    let mut j: usize = rest.len();
    assert(rest@.take(j as int) =~= rest@);
    while j > 0 && rest[j - 1] == x
        invariant
            j <= rest.len(),
            drop_trailing(rest@, just(x)) == drop_trailing(rest@.take(j as int), just(x)),
        decreases j,
    {
        assert(rest@.take(j as int).drop_last() =~= rest@.take(j - 1));
        j = j - 1;
    }
    assert(rest@.take(j as int) =~= rest@.subrange(0, j as int));
    slice_subrange(rest, 0, j)
}

/// The trimmed text.
pub fn trim_text(s: &str) -> (r: String)
    ensures
        r@ == trimmed(s@),
{
    let c = chars_of(s);
    text_of(trim(c.as_slice()))
}

/// `Some` of the trimmed text where anything is left of it.
pub open spec fn filled(o: Option<Seq<char>>) -> Option<Seq<char>> {
    match o {
        Some(s) => if trimmed(s).len() > 0 {
            Some(trimmed(s))
        } else {
            None
        },
        None => None,
    }
}

/// The trimmed text, unless nothing is given or nothing is left of it.
pub fn fill(o: Option<&str>) -> (r: Option<String>)
    ensures
        opt_view(r) == filled(opt_str_view(o)),
{
    match o {
        Some(s) => {
            let t = trim_text(s);
            if t.as_str().is_empty() {
                None
            } else {
                Some(t)
            }
        },
        None => None,
    }
}

/// Like [`fill`], for an owned optional text.
pub fn fill_owned(o: &Option<String>) -> (r: Option<String>)
    ensures
        opt_view(r) == filled(opt_view(*o)),
{
    match o {
        Some(s) => fill(Some(s.as_str())),
        None => None,
    }
}

/// Whether nothing but white space is in the text.
pub open spec fn blank(s: Seq<char>) -> bool {
    trimmed(s).len() == 0
}

/// Whether nothing but white space is in the text.
pub fn is_blank(s: &str) -> (r: bool)
    ensures
        r == blank(s@),
{
    let c = chars_of(s);
    trim(c.as_slice()).len() == 0
}

// ---------------------------------------------------------------------------
// Searching
// ---------------------------------------------------------------------------

/// Whether `pat` stands in `s` at index `i`.
pub open spec fn occurs_at(s: Seq<char>, pat: Seq<char>, i: int) -> bool {
    &&& 0 <= i
    &&& i + pat.len() <= s.len()
    &&& s.subrange(i, i + pat.len()) == pat
}

/// Whether `pat` stands somewhere in `s`.
pub open spec fn has_text(s: Seq<char>, pat: Seq<char>) -> bool {
    exists|i: int| #[trigger] occurs_at(s, pat, i)
}

/// The least index not below `i` at which `pat` stands in `s`.
pub open spec fn first_from(s: Seq<char>, pat: Seq<char>, i: int) -> Option<int>
    decreases s.len() + 1 - i,
{
    if i < 0 || i + pat.len() > s.len() {
        None
    } else if occurs_at(s, pat, i) {
        Some(i)
    } else {
        first_from(s, pat, i + 1)
    }
}

/// The first index at which `pat` stands in `s`.
pub open spec fn first_at(s: Seq<char>, pat: Seq<char>) -> Option<int> {
    first_from(s, pat, 0)
}

/// The greatest index not above `i` at which `pat` stands in `s`.
pub open spec fn last_upto(s: Seq<char>, pat: Seq<char>, i: int) -> Option<int>
    decreases i + 1,
{
    if i < 0 {
        None
    } else if occurs_at(s, pat, i) {
        Some(i)
    } else {
        last_upto(s, pat, i - 1)
    }
}

/// The last index at which `pat` stands in `s`.
pub open spec fn last_at(s: Seq<char>, pat: Seq<char>) -> Option<int> {
    last_upto(s, pat, s.len() - pat.len())
}

/// What [`first_from`] yields is the least occurrence, and it yields one where there is any.
pub proof fn lemma_first_from(s: Seq<char>, pat: Seq<char>, i: int)
    requires
        0 <= i,
    ensures
        match first_from(s, pat, i) {
            Some(k) => i <= k && occurs_at(s, pat, k) && forall|j: int|
                i <= j < k ==> !#[trigger] occurs_at(s, pat, j),
            None => forall|j: int| i <= j ==> !#[trigger] occurs_at(s, pat, j),
        },
    decreases s.len() + 1 - i,
{
    if i + pat.len() > s.len() {
    } else if occurs_at(s, pat, i) {
    } else {
        lemma_first_from(s, pat, i + 1);
    }
}

/// [`first_at`] yields the least occurrence, and one exactly where `pat` stands in `s`.
pub proof fn lemma_first_at(s: Seq<char>, pat: Seq<char>)
    ensures
        first_at(s, pat) is Some <==> has_text(s, pat),
        match first_at(s, pat) {
            Some(k) => occurs_at(s, pat, k) && forall|j: int|
                0 <= j < k ==> !#[trigger] occurs_at(s, pat, j),
            None => forall|j: int| !#[trigger] occurs_at(s, pat, j),
        },
{
    lemma_first_from(s, pat, 0);
}

/// An occurrence with none before it is the one that [`first_at`] yields.
pub proof fn lemma_first_at_is(s: Seq<char>, pat: Seq<char>, n: int)
    requires
        occurs_at(s, pat, n),
        forall|j: int| 0 <= j < n ==> !#[trigger] occurs_at(s, pat, j),
    ensures
        first_at(s, pat) == Some(n),
{
    lemma_first_at(s, pat);
}

/// What [`last_at`] yields is the greatest occurrence, and it yields one where there is any.
pub proof fn lemma_last_at(s: Seq<char>, pat: Seq<char>)
    ensures
        match last_at(s, pat) {
            Some(k) => occurs_at(s, pat, k) && forall|j: int|
                k < j ==> !#[trigger] occurs_at(s, pat, j),
            None => forall|j: int| !#[trigger] occurs_at(s, pat, j),
        },
{
    lemma_last_upto(s, pat, s.len() - pat.len());
}

proof fn lemma_last_upto(s: Seq<char>, pat: Seq<char>, i: int)
    ensures
        match last_upto(s, pat, i) {
            Some(k) => k <= i && occurs_at(s, pat, k) && forall|j: int|
                k < j <= i ==> !#[trigger] occurs_at(s, pat, j),
            None => forall|j: int| j <= i ==> !#[trigger] occurs_at(s, pat, j),
        },
    decreases i + 1,
{
    if i < 0 {
    } else if occurs_at(s, pat, i) {
    } else {
        lemma_last_upto(s, pat, i - 1);
    }
}

/// Whether `pat` stands in `s` at index `i`.
pub fn matches_at(s: &[char], pat: &[char], i: usize) -> (r: bool)
    requires
        i <= s.len(),
    ensures
        r == occurs_at(s@, pat@, i as int),
{
    if pat.len() > s.len() - i {
        return false;
    }
    let mut k: usize = 0;
    while k < pat.len()
        invariant
            k <= pat.len(),
            i + pat.len() <= s.len(),
            forall|j: int| 0 <= j < k ==> s@[i + j] == pat@[j],
        decreases pat.len() - k,
    {
        if s[i + k] != pat[k] {
            assert(s@.subrange(i as int, i + pat@.len())[k as int] != pat@[k as int]);
            return false;
        }
        k = k + 1;
    }
    assert(s@.subrange(i as int, i + pat@.len()) =~= pat@);
    true
}

/// The first index not below `start` at which `pat` stands in `s`.
pub fn find_from(s: &[char], pat: &str, start: usize) -> (r: Option<usize>)
    requires
        start <= s.len(),
    ensures
        match r {
            Some(k) => first_from(s@, pat@, start as int) == Some(k as int) && start <= k && k
                + pat@.len() <= s@.len(),
            None => first_from(s@, pat@, start as int) is None,
        },
{
    let p = chars_of(pat);
    let mut i: usize = start;
    while i <= s.len() && p.len() <= s.len() - i
        invariant
            start <= i,
            p@ == pat@,
            first_from(s@, pat@, start as int) == first_from(s@, pat@, i as int),
            i <= s.len() + 1,
        decreases s.len() + 1 - i,
    {
        if matches_at(s, p.as_slice(), i) {
            return Some(i);
        }
        if i == s.len() {
            assert(first_from(s@, pat@, i + 1) is None);
            return None;
        }
        i = i + 1;
    }
    None
}

/// The first index at which `pat` stands in `s`.
pub fn find(s: &[char], pat: &str) -> (r: Option<usize>)
    ensures
        match r {
            Some(k) => first_at(s@, pat@) == Some(k as int) && k + pat@.len() <= s@.len()
                && occurs_at(s@, pat@, k as int),
            None => first_at(s@, pat@) is None,
        },
        r is Some <==> has_text(s@, pat@),
{
    proof {
        lemma_first_at(s@, pat@);
    }
    find_from(s, pat, 0)
}

/// The last index at which `pat` stands in `s`.
pub fn rfind(s: &[char], pat: &str) -> (r: Option<usize>)
    ensures
        match r {
            Some(k) => last_at(s@, pat@) == Some(k as int) && k + pat@.len() <= s@.len(),
            None => last_at(s@, pat@) is None,
        },
{
    let p = chars_of(pat);
    if p.len() > s.len() {
        return None;
    }
    let mut i: usize = s.len() - p.len();
    loop
        invariant
            p@ == pat@,
            i + pat@.len() <= s@.len(),
            last_at(s@, pat@) == last_upto(s@, pat@, i as int),
        decreases i,
    {
        if matches_at(s, p.as_slice(), i) {
            return Some(i);
        }
        if i == 0 {
            assert(last_upto(s@, pat@, -1) is None);
            return None;
        }
        i = i - 1;
    }
}

/// Whether `pat` stands somewhere in `s`.
pub fn contains(s: &[char], pat: &str) -> (r: bool)
    ensures
        r == has_text(s@, pat@),
{
    find(s, pat).is_some()
}

/// Whether `s` begins with `pat`.
pub open spec fn begins(s: Seq<char>, pat: Seq<char>) -> bool {
    occurs_at(s, pat, 0)
}

/// Whether `s` ends with `pat`.
pub open spec fn ends(s: Seq<char>, pat: Seq<char>) -> bool {
    occurs_at(s, pat, s.len() - pat.len())
}

/// Whether `s` begins with `pat`.
pub fn starts_with(s: &[char], pat: &str) -> (r: bool)
    ensures
        r == begins(s@, pat@),
{
    let p = chars_of(pat);
    matches_at(s, p.as_slice(), 0)
}

/// Whether `s` ends with `pat`.
pub fn ends_with(s: &[char], pat: &str) -> (r: bool)
    ensures
        r == ends(s@, pat@),
{
    let p = chars_of(pat);
    if p.len() > s.len() {
        return false;
    }
    matches_at(s, p.as_slice(), s.len() - p.len())
}

/// Whether `s` is the text `t`.
pub fn equals(s: &[char], t: &str) -> (r: bool)
    ensures
        r == (s@ == t@),
{
    let p = chars_of(t);
    if p.len() != s.len() {
        return false;
    }
    let r = matches_at(s, p.as_slice(), 0);
    assert(s@.subrange(0, s@.len() as int) =~= s@);
    r
}

// ---------------------------------------------------------------------------
// Replacing
// ---------------------------------------------------------------------------

/// What is left of `s` from index `i` on, read left to right, each occurrence of `from` replaced
/// by `to`.
pub open spec fn replaced_from(s: Seq<char>, from: Seq<char>, to: Seq<char>, i: int) -> Seq<char>
    decreases s.len() - i,
{
    if i < 0 || i >= s.len() || from.len() == 0 {
        Seq::empty()
    } else if occurs_at(s, from, i) {
        to + replaced_from(s, from, to, i + from.len())
    } else {
        seq![s[i]] + replaced_from(s, from, to, i + 1)
    }
}

/// `s` with each occurrence of `from` replaced by `to`.
pub open spec fn replaced(s: Seq<char>, from: Seq<char>, to: Seq<char>) -> Seq<char> {
    replaced_from(s, from, to, 0)
}

/// The text with each occurrence of `from` replaced by `to`.
pub fn replace(s: &[char], from: &str, to: &str) -> (r: Vec<char>)
    requires
        from@.len() > 0,
    ensures
        r@ == replaced(s@, from@, to@),
{
    let f = chars_of(from);
    let t = chars_of(to);
    let mut out: Vec<char> = Vec::new();
    let mut i: usize = 0;
    while i < s.len()
        invariant
            i <= s.len(),
            f@ == from@,
            t@ == to@,
            from@.len() > 0,
            replaced(s@, from@, to@) == out@ + replaced_from(s@, from@, to@, i as int),
        decreases s.len() - i,
    {
        let ghost before = out@;
        if matches_at(s, f.as_slice(), i) {
            push_all(&mut out, t.as_slice());
            assert(before + (to@ + replaced_from(s@, from@, to@, i + from@.len())) =~= (before
                + to@) + replaced_from(s@, from@, to@, i + from@.len()));
            i = i + f.len();
        } else {
            out.push(s[i]);
            assert(before + (seq![s@[i as int]] + replaced_from(s@, from@, to@, i + 1))
                =~= before.push(s@[i as int]) + replaced_from(s@, from@, to@, i + 1));
            i = i + 1;
        }
    }
    assert(out@ + Seq::<char>::empty() =~= out@);
    out
}

/// Appends the characters `s`.
pub fn push_all(out: &mut Vec<char>, s: &[char])
    ensures
        final(out)@ == old(out)@ + s@,
{
    let mut i: usize = 0;
    let ghost before = out@;
    while i < s.len()
        invariant
            i <= s.len(),
            out@ == before + s@.take(i as int),
        decreases s.len() - i,
    {
        out.push(s[i]);
        assert(s@.take(i + 1) =~= s@.take(i as int).push(s@[i as int]));
        i = i + 1;
    }
    assert(s@.take(s@.len() as int) =~= s@);
}

// ---------------------------------------------------------------------------
// Lines, words and joining
// ---------------------------------------------------------------------------

/// The first index not below `i` at which `s` holds `x`, or the length where there is none.
pub open spec fn next_index(s: Seq<char>, x: char, i: int) -> int
    decreases s.len() - i,
{
    if i < 0 || i >= s.len() {
        s.len() as int
    } else if s[i] == x {
        i
    } else {
        next_index(s, x, i + 1)
    }
}

/// `s` without a carriage return at its end.
pub open spec fn without_cr(s: Seq<char>) -> Seq<char> {
    if s.len() > 0 && s.last() == '\r' {
        s.drop_last()
    } else {
        s
    }
}

/// Where [`next_index`] lies.
pub proof fn lemma_next_index(s: Seq<char>, x: char, i: int)
    requires
        0 <= i <= s.len(),
    ensures
        i <= next_index(s, x, i) <= s.len(),
        forall|j: int| i <= j < next_index(s, x, i) ==> s[j] != x,
        next_index(s, x, i) < s.len() ==> s[next_index(s, x, i)] == x,
    decreases s.len() - i,
{
    if i < s.len() && s[i] != x {
        lemma_next_index(s, x, i + 1);
    }
}

/// The lines of `s` from index `i` on: a line ends before a line feed, or before a carriage
/// return that a line feed follows; the last line may lack its end.
pub open spec fn lines_from(s: Seq<char>, i: int) -> Seq<Seq<char>>
    decreases s.len() - i,
{
    if i < 0 || i >= s.len() {
        Seq::empty()
    } else {
        let e = next_index(s, '\n', i);
        if e >= s.len() || e < i {
            seq![s.skip(i)]
        } else {
            seq![without_cr(s.subrange(i, e))] + lines_from(s, e + 1)
        }
    }
}

/// The lines of `s`.
pub open spec fn lines_of(s: Seq<char>) -> Seq<Seq<char>> {
    lines_from(s, 0)
}

/// The first index not below `start` at which `s` holds `x`, or the length.
pub fn index_of(s: &[char], x: char, start: usize) -> (r: usize)
    requires
        start <= s.len(),
    ensures
        r == next_index(s@, x, start as int),
        start <= r <= s.len(),
{
    let mut i: usize = start;
    while i < s.len() && s[i] != x
        invariant
            start <= i <= s.len(),
            next_index(s@, x, start as int) == next_index(s@, x, i as int),
        decreases s.len() - i,
    {
        i = i + 1;
    }
    i
}

/// A list of characters of its own.
pub fn copy_chars(s: &[char]) -> (r: Vec<char>)
    ensures
        r@ == s@,
{
    let mut out: Vec<char> = Vec::new();
    push_all(&mut out, s);
    assert(Seq::<char>::empty() + s@ =~= s@);
    out
}

/// The lines of the text.
pub fn lines(s: &[char]) -> (r: Vec<Vec<char>>)
    ensures
        rows(r@) == lines_of(s@),
{
    let mut out: Vec<Vec<char>> = Vec::new();
    let mut i: usize = 0;
    assert(rows(out@) + lines_from(s@, 0) =~= lines_of(s@));
    while i < s.len()
        invariant
            i <= s.len(),
            lines_of(s@) == rows(out@) + lines_from(s@, i as int),
        decreases s.len() - i,
    {
        let e = index_of(s, '\n', i);
        let ghost before = rows(out@);
        if e == s.len() {
            let line = copy_chars(slice_subrange(s, i, e));
            assert(s@.subrange(i as int, e as int) =~= s@.skip(i as int));
            out.push(line);
            assert(rows(out@) =~= before.push(s@.skip(i as int)));
            assert(rows(out@) =~= before + seq![s@.skip(i as int)]);
            return out;
        }
        let mut stop: usize = e;
        if e > i && s[e - 1] == '\r' {
            stop = e - 1;
        }
        let line = copy_chars(slice_subrange(s, i, stop));
        assert(line@ =~= without_cr(s@.subrange(i as int, e as int)));
        out.push(line);
        assert(rows(out@) =~= before.push(without_cr(s@.subrange(i as int, e as int))));
        assert(rows(out@) + lines_from(s@, e + 1) =~= before + (seq![
            without_cr(s@.subrange(i as int, e as int)),
        ] + lines_from(s@, e + 1)));
        i = e + 1;
    }
    assert(rows(out@) + Seq::<Seq<char>>::empty() =~= rows(out@));
    out
}

/// The length of the longest prefix of `s` without white space.
pub open spec fn word_len(s: Seq<char>) -> nat
    decreases s.len(),
{
    if s.len() > 0 && !is_white(s[0]) {
        1 + word_len(s.skip(1))
    } else {
        0
    }
}

/// The longest runs of `s` without white space, in order.
pub open spec fn words_of(s: Seq<char>) -> Seq<Seq<char>>
    decreases s.len(),
{
    if s.len() == 0 {
        Seq::empty()
    } else if is_white(s[0]) {
        words_of(s.skip(1))
    } else {
        let n = word_len(s) as int;
        if 0 < n <= s.len() {
            seq![s.take(n)] + words_of(s.skip(n))
        } else {
            Seq::empty()
        }
    }
}

pub proof fn lemma_word_len(s: Seq<char>)
    ensures
        word_len(s) <= s.len(),
        forall|j: int| 0 <= j < word_len(s) ==> !is_white(s[j]),
        word_len(s) < s.len() ==> is_white(s[word_len(s) as int]),
    decreases s.len(),
{
    if s.len() > 0 && !is_white(s[0]) {
        lemma_word_len(s.skip(1));
        let t = s.skip(1);
        assert forall|j: int| 0 <= j < word_len(s) implies !is_white(s[j]) by {
            if j > 0 {
                assert(s[j] == t[j - 1]);
            }
        }
        if word_len(s) < s.len() {
            assert(s[word_len(s) as int] == t[word_len(t) as int]);
        }
    }
}

/// The length of the longest prefix of `s` without white space.
fn word_length(s: &[char]) -> (r: usize)
    ensures
        r == word_len(s@),
        r <= s.len(),
{
    let mut i: usize = 0;
    assert(s@.skip(0) =~= s@);
    while i < s.len() && !is_whitespace(s[i])
        invariant
            i <= s.len(),
            word_len(s@) == i + word_len(s@.skip(i as int)),
        decreases s.len() - i,
    {
        assert(s@.skip(i as int).skip(1) =~= s@.skip(i + 1));
        i = i + 1;
    }
    i
}

/// The longest runs of the text without white space, in order.
pub fn words(s: &[char]) -> (r: Vec<Vec<char>>)
    ensures
        rows(r@) == words_of(s@),
{
    let mut out: Vec<Vec<char>> = Vec::new();
    let mut i: usize = 0;
    assert(s@.skip(0) =~= s@);
    assert(rows(out@) + words_of(s@) =~= words_of(s@));
    while i < s.len()
        invariant
            i <= s.len(),
            words_of(s@) == rows(out@) + words_of(s@.skip(i as int)),
        decreases s.len() - i,
    {
        let ghost rest = s@.skip(i as int);
        if is_whitespace(s[i]) {
            assert(rest.skip(1) =~= s@.skip(i + 1));
            i = i + 1;
        } else {
            let tail = slice_subrange(s, i, s.len());
            assert(tail@ =~= rest);
            let n = word_length(tail);
            let word = copy_chars(slice_subrange(tail, 0, n));
            assert(word@ =~= rest.take(n as int));
            let ghost before = rows(out@);
            out.push(word);
            assert(rows(out@) =~= before.push(rest.take(n as int)));
            assert(rest.skip(n as int) =~= s@.skip(i + n));
            assert(n > 0);
            assert(rows(out@) + words_of(s@.skip(i + n)) =~= before + (seq![rest.take(n as int)]
                + words_of(s@.skip(i + n))));
            i = i + n;
        }
    }
    assert(rows(out@) + Seq::<Seq<char>>::empty() =~= rows(out@));
    out
}

/// The texts of `list`, `sep` between each two.
pub open spec fn joined(list: Seq<Seq<char>>, sep: Seq<char>) -> Seq<char>
    decreases list.len(),
{
    if list.len() == 0 {
        Seq::empty()
    } else if list.len() == 1 {
        list[0]
    } else {
        joined(list.drop_last(), sep) + sep + list.last()
    }
}

/// The texts of `list`, `sep` between each two.
pub fn join(list: &Vec<String>, sep: &str) -> (r: String)
    ensures
        r@ == joined(texts(list@), sep@),
{
    let mut out = String::new();
    let mut i: usize = 0;
    let ghost all = texts(list@);
    while i < list.len()
        invariant
            i <= list.len(),
            all == texts(list@),
            out@ == joined(all.take(i as int), sep@),
        decreases list.len() - i,
    {
        if i > 0 {
            out.append(sep);
        }
        out.append(list[i].as_str());
        assert(all.take(i + 1).drop_last() =~= all.take(i as int));
        assert(all.take(i + 1).last() == list@[i as int]@);
        if i == 0 {
            assert(all.take(1)[0] == list@[0]@);
            assert(out@ =~= list@[0]@);
        }
        i = i + 1;
    }
    assert(all.take(all.len() as int) =~= all);
    out
}

/// The texts of `list`, `sep` between each two.
pub fn join_chars(list: &Vec<Vec<char>>, sep: char) -> (r: Vec<char>)
    ensures
        r@ == joined(rows(list@), seq![sep]),
{
    let mut out: Vec<char> = Vec::new();
    let mut i: usize = 0;
    let ghost all = rows(list@);
    while i < list.len()
        invariant
            i <= list.len(),
            all == rows(list@),
            out@ == joined(all.take(i as int), seq![sep]),
        decreases list.len() - i,
    {
        let ghost before = out@;
        if i > 0 {
            out.push(sep);
            assert(out@ =~= before + seq![sep]);
        }
        push_all(&mut out, list[i].as_slice());
        assert(all.take(i + 1).drop_last() =~= all.take(i as int));
        assert(all.take(i + 1).last() == list@[i as int]@);
        if i == 0 {
            assert(all.take(1)[0] == list@[0]@);
            assert(out@ =~= list@[0]@);
        }
        i = i + 1;
    }
    assert(all.take(all.len() as int) =~= all);
    out
}

// ---------------------------------------------------------------------------
// Cutting
// ---------------------------------------------------------------------------

/// `s`, cut after `n` characters, with an ellipsis where anything was cut.
pub open spec fn clipped(s: Seq<char>, n: int) -> Seq<char> {
    if s.len() > n {
        s.take(n).push('…')
    } else {
        s
    }
}

/// The text, cut after `n` characters, with an ellipsis where anything was cut.
pub fn clip(s: &[char], n: usize) -> (r: Vec<char>)
    ensures
        r@ == clipped(s@, n as int),
        r@.len() <= n + 1,
{
    if s.len() > n {
        let mut out = copy_chars(slice_subrange(s, 0, n));
        assert(out@ =~= s@.take(n as int));
        out.push('…');
        out
    } else {
        copy_chars(s)
    }
}

/// The first entry of `list`, from index `i` on, with anything left after trimming, trimmed.
pub open spec fn first_filled(list: Seq<Seq<char>>, i: int) -> Option<Seq<char>>
    decreases list.len() - i,
{
    if i < 0 || i >= list.len() {
        None
    } else if trimmed(list[i]).len() > 0 {
        Some(trimmed(list[i]))
    } else {
        first_filled(list, i + 1)
    }
}

/// The first line of `s` with anything left after trimming, trimmed.
pub open spec fn first_filled_line(s: Seq<char>) -> Option<Seq<char>> {
    first_filled(lines_of(s), 0)
}

/// The view of an optional list of characters.
pub open spec fn opt_chars(o: Option<Vec<char>>) -> Option<Seq<char>> {
    match o {
        Some(s) => Some(s@),
        None => None,
    }
}

/// The first line of the text with anything left after trimming, trimmed.
pub fn find_filled_line(s: &[char]) -> (r: Option<Vec<char>>)
    ensures
        opt_chars(r) == first_filled_line(s@),
{
    let list = lines(s);
    let ghost all = rows(list@);
    let mut i: usize = 0;
    while i < list.len()
        invariant
            i <= list.len(),
            all == rows(list@),
            all == lines_of(s@),
            first_filled(all, 0) == first_filled(all, i as int),
        decreases list.len() - i,
    {
        let line = trim(list[i].as_slice());
        assert(all[i as int] == list@[i as int]@);
        if line.len() > 0 {
            return Some(copy_chars(line));
        }
        i = i + 1;
    }
    None
}

/// The first line of the text with anything left after trimming, trimmed.
pub fn first_non_empty_line(text: &str) -> (r: Option<String>)
    ensures
        opt_view(r) == first_filled_line(text@),
{
    let s = chars_of(text);
    match find_filled_line(s.as_slice()) {
        Some(line) => Some(text_of(line.as_slice())),
        None => None,
    }
}

/// Whether any text of `list` stands in `s`.
pub open spec fn has_any(s: Seq<char>, list: Seq<Seq<char>>) -> bool {
    exists|i: int| 0 <= i < list.len() && has_text(s, #[trigger] list[i])
}

/// How many texts of `list` stand in `s`.
pub open spec fn count_present(s: Seq<char>, list: Seq<Seq<char>>) -> nat
    decreases list.len(),
{
    if list.len() == 0 {
        0
    } else {
        count_present(s, list.drop_last()) + if has_text(s, list.last()) {
            1nat
        } else {
            0nat
        }
    }
}

/// How many texts of `list` stand in `s`.
pub fn count_markers(s: &[char], list: &[&str]) -> (r: usize)
    ensures
        r == count_present(s@, strs(list@)),
        r <= list@.len(),
{
    let mut n: usize = 0;
    let mut i: usize = 0;
    let ghost all = strs(list@);
    while i < list.len()
        invariant
            i <= list.len(),
            n <= i,
            all == strs(list@),
            n == count_present(s@, all.take(i as int)),
        decreases list.len() - i,
    {
        assert(all.take(i + 1).drop_last() =~= all.take(i as int));
        assert(all.take(i + 1).last() == list@[i as int]@);
        if contains(s, list[i]) {
            n = n + 1;
        }
        i = i + 1;
    }
    assert(all.take(all.len() as int) =~= all);
    n
}

/// Whether any text of `list` stands in `s`.
pub fn contains_any(s: &[char], list: &[&str]) -> (r: bool)
    ensures
        r == has_any(s@, strs(list@)),
{
    let ghost all = strs(list@);
    let mut i: usize = 0;
    while i < list.len()
        invariant
            i <= list.len(),
            all == strs(list@),
            forall|j: int| 0 <= j < i ==> !has_text(s@, #[trigger] all[j]),
        decreases list.len() - i,
    {
        assert(all[i as int] == list@[i as int]@);
        if contains(s, list[i]) {
            return true;
        }
        i = i + 1;
    }
    false
}

/// Whether `s` is one of the texts of `list`.
pub fn is_one_of(s: &[char], list: &[&str]) -> (r: bool)
    ensures
        r == strs(list@).contains(s@),
{
    let ghost all = strs(list@);
    let mut i: usize = 0;
    while i < list.len()
        invariant
            i <= list.len(),
            all == strs(list@),
            forall|j: int| 0 <= j < i ==> #[trigger] all[j] != s@,
        decreases list.len() - i,
    {
        assert(all[i as int] == list@[i as int]@);
        if equals(s, list[i]) {
            return true;
        }
        i = i + 1;
    }
    false
}

// ---------------------------------------------------------------------------
// Order
// ---------------------------------------------------------------------------

/// Whether `a` comes before `b`, or is `b`, in the order of their characters.
pub open spec fn text_le(a: Seq<char>, b: Seq<char>) -> bool
    decreases a.len(),
{
    if a.len() == 0 {
        true
    } else if b.len() == 0 {
        false
    } else if a[0] != b[0] {
        a[0] < b[0]
    } else {
        text_le(a.skip(1), b.skip(1))
    }
}

/// Any two texts can be held against each other, and two that come before each other are the same.
pub proof fn lemma_text_le_total(a: Seq<char>, b: Seq<char>)
    ensures
        text_le(a, b) || text_le(b, a),
        text_le(a, b) && text_le(b, a) ==> a == b,
    decreases a.len(),
{
    if a.len() > 0 && b.len() > 0 && a[0] == b[0] {
        lemma_text_le_total(a.skip(1), b.skip(1));
        if a.skip(1) == b.skip(1) {
            assert(a =~= seq![a[0]] + a.skip(1));
            assert(b =~= seq![b[0]] + b.skip(1));
        }
    } else if a.len() == 0 && b.len() == 0 {
        assert(a =~= b);
    }
}

/// The order of texts goes on from one to the next.
pub proof fn lemma_text_le_transitive(a: Seq<char>, b: Seq<char>, c: Seq<char>)
    requires
        text_le(a, b),
        text_le(b, c),
    ensures
        text_le(a, c),
    decreases a.len(),
{
    if a.len() > 0 && b.len() > 0 && c.len() > 0 && a[0] == b[0] && b[0] == c[0] {
        lemma_text_le_transitive(a.skip(1), b.skip(1), c.skip(1));
    }
}

/// Whether `a` comes before `b`, or is `b`, in the order of their characters.
pub fn text_before(a: &str, b: &str) -> (r: bool)
    ensures
        r == text_le(a@, b@),
{
    let x = chars_of(a);
    let y = chars_of(b);
    let mut i: usize = 0;
    assert(x@.skip(0) =~= x@);
    assert(y@.skip(0) =~= y@);
    while i < x.len() && i < y.len() && x[i] == y[i]
        invariant
            i <= x.len(),
            i <= y.len(),
            text_le(x@, y@) == text_le(x@.skip(i as int), y@.skip(i as int)),
        decreases x.len() - i,
    {
        assert(x@.skip(i as int).skip(1) =~= x@.skip(i + 1));
        assert(y@.skip(i as int).skip(1) =~= y@.skip(i + 1));
        i = i + 1;
    }
    if i == x.len() {
        true
    } else if i == y.len() {
        false
    } else {
        x[i] < y[i]
    }
}

// ---------------------------------------------------------------------------
// Numbers
// ---------------------------------------------------------------------------

/// The digit of a number below ten.
pub open spec fn digit_char(d: nat) -> char {
    (('0' as nat) + d) as char
}

/// The decimal digits of `n`.
pub open spec fn decimal(n: nat) -> Seq<char>
    decreases n,
{
    if n < 10 {
        seq![digit_char(n)]
    } else {
        decimal(n / 10).push(digit_char(n % 10))
    }
}

/// The decimal digits of `n`.
pub fn to_decimal(n: u64) -> (r: String)
    ensures
        r@ == decimal(n as nat),
    decreases n,
{
    let d: u8 = (n % 10) as u8;
    let c = (48u8 + d) as char;
    if n < 10 {
        let mut out = String::new();
        out.push(c);
        out
    } else {
        let mut out = to_decimal(n / 10);
        out.push(c);
        out
    }
}

/// Whether `s` holds digits alone.
pub open spec fn all_digits(s: Seq<char>) -> bool {
    forall|i: int| 0 <= i < s.len() ==> is_digit(#[trigger] s[i])
}

/// The number that the digits `s` write.
pub open spec fn digits_value(s: Seq<char>) -> nat
    decreases s.len(),
{
    if s.len() == 0 {
        0
    } else {
        digits_value(s.drop_last()) * 10 + ((s.last() as nat) - ('0' as nat)) as nat
    }
}

/// The digits of a number without its sign.
pub open spec fn unsigned_part(s: Seq<char>) -> Seq<char> {
    if s.len() > 0 && (s[0] == '+' || s[0] == '-') {
        s.skip(1)
    } else {
        s
    }
}

/// The number that `s` writes: digits with or without a sign before them, within the range of the
/// type.
pub open spec fn number_of(s: Seq<char>) -> Option<i64> {
    let digits = unsigned_part(s);
    let value = if s.len() > 0 && s[0] == '-' {
        -(digits_value(digits) as int)
    } else {
        digits_value(digits) as int
    };
    if digits.len() > 0 && all_digits(digits) && i64::MIN <= value <= i64::MAX {
        Some(value as i64)
    } else {
        None
    }
}

/// A longer row of digits writes no lesser number.
proof fn lemma_digits_grow(s: Seq<char>, n: int)
    requires
        0 <= n <= s.len(),
        all_digits(s),
    ensures
        digits_value(s.take(n)) <= digits_value(s),
    decreases s.len() - n,
{
    if n == s.len() {
        assert(s.take(n) =~= s);
    } else {
        lemma_digits_grow(s, n + 1);
        let longer = s.take(n + 1);
        assert(longer.drop_last() =~= s.take(n));
        assert(is_digit(s[n]));
        assert(longer.last() == s[n]);
    }
}

/// The number that the text writes, if it writes one.
pub fn parse_i64(s: &[char]) -> (r: Option<i64>)
    ensures
        r == number_of(s@),
{
    let negative = s.len() > 0 && s[0] == '-';
    let signed = negative || (s.len() > 0 && s[0] == '+');
    let start: usize = if signed {
        1
    } else {
        0
    };
    let ghost digits = unsigned_part(s@);
    assert(digits =~= s@.skip(start as int));
    if start == s.len() {
        return None;
    }
    let mut value: i128 = 0;
    let mut i: usize = start;
    while i < s.len()
        invariant
            start <= i <= s.len(),
            start <= 1,
            digits == unsigned_part(s@),
            digits == s@.skip(start as int),
            digits.len() > 0,
            value == digits_value(digits.take(i - start)),
            0 <= value <= 0x8000_0000_0000_0000,
            all_digits(digits.take(i - start)),
        decreases s.len() - i,
    {
        let c = s[i];
        let ghost n = i - start;
        assert(digits[n] == c);
        if !is_ascii_digit(c) {
            assert(!is_digit(digits[n]));
            return None;
        }
        proof {
            let longer = digits.take(n + 1);
            assert(longer.drop_last() =~= digits.take(n));
            assert(longer.last() == c);
            assert forall|j: int| 0 <= j < longer.len() implies is_digit(#[trigger] longer[j]) by {
                if j < n {
                    assert(digits.take(n)[j] == longer[j]);
                }
            }
        }
        value = value * 10 + ((c as u32) - 48) as i128;
        i = i + 1;
        if value > 0x8000_0000_0000_0000 {
            proof {
                if all_digits(digits) {
                    lemma_digits_grow(digits, n + 1);
                }
            }
            return None;
        }
    }
    assert(digits.take(digits.len() as int) =~= digits);
    if negative {
        Some((-value) as i64)
    } else if value <= 0x7fff_ffff_ffff_ffff {
        Some(value as i64)
    } else {
        None
    }
}

// ---------------------------------------------------------------------------
// Facts about searching
// ---------------------------------------------------------------------------

/// What stands in a part of a text stands in the text.
pub proof fn lemma_has_part(a: Seq<char>, b: Seq<char>, c: Seq<char>, pat: Seq<char>)
    requires
        has_text(b, pat),
    ensures
        has_text(a + b + c, pat),
{
    let i = choose|i: int| #[trigger] occurs_at(b, pat, i);
    let s = a + b + c;
    assert(s.subrange(a.len() + i, a.len() + i + pat.len()) =~= b.subrange(i, i + pat.len()));
    assert(occurs_at(s, pat, a.len() + i));
}

/// A text stands in itself.
pub proof fn lemma_has_self(s: Seq<char>)
    ensures
        has_text(s, s),
{
    assert(s.subrange(0, s.len() as int) =~= s);
    assert(occurs_at(s, s, 0));
}

/// A text without characters stands in every text.
pub proof fn lemma_has_empty(s: Seq<char>, pat: Seq<char>)
    requires
        pat.len() == 0,
    ensures
        has_text(s, pat),
{
    assert(s.subrange(0, 0) =~= pat);
    assert(occurs_at(s, pat, 0));
}

/// The second and the last of four texts stand in the four put together.
pub proof fn lemma_has_inner(a: Seq<char>, b: Seq<char>, c: Seq<char>, d: Seq<char>)
    ensures
        has_text(a + b + c + d, b),
        has_text(a + b + c + d, d),
{
    lemma_has_self(b);
    lemma_has_part(a, b, c + d, b);
    assert(a + b + (c + d) =~= a + b + c + d);
    lemma_has_self(d);
    lemma_has_part(a + b + c, d, Seq::empty(), d);
    assert(a + b + c + d + Seq::empty() =~= a + b + c + d);
}

/// Each text of a list stands in the joined list.
pub proof fn lemma_joined_has(list: Seq<Seq<char>>, sep: Seq<char>, i: int)
    requires
        0 <= i < list.len(),
    ensures
        has_text(joined(list, sep), list[i]),
    decreases list.len(),
{
    lemma_has_self(list[i]);
    if list.len() == 1 {
    } else {
        let head = joined(list.drop_last(), sep);
        let whole = joined(list, sep);
        if i == list.len() - 1 {
            lemma_has_part(head + sep, list[i], Seq::empty(), list[i]);
            assert((head + sep) + list[i] + Seq::empty() =~= whole);
        } else {
            lemma_joined_has(list.drop_last(), sep, i);
            lemma_has_part(Seq::empty(), head, sep + list.last(), list[i]);
            assert(Seq::empty() + head + (sep + list.last()) =~= whole);
        }
    }
}

// ---------------------------------------------------------------------------
// Facts about words
// ---------------------------------------------------------------------------

/// Whether the text begins and ends with no white space, and has no two of them in a row, and no
/// other than the space.
pub open spec fn tidy(s: Seq<char>) -> bool {
    forall|i: int|
        #![trigger s[i]]
        0 <= i < s.len() && is_white(s[i]) ==> s[i] == ' ' && 0 < i < s.len() - 1 && !is_white(
            s[i - 1],
        ) && !is_white(s[i + 1])
}

/// Whether the list holds words: none empty, none with white space in it.
pub open spec fn all_words(list: Seq<Seq<char>>) -> bool {
    forall|k: int|
        0 <= k < list.len() ==> (#[trigger] list[k]).len() > 0 && forall|j: int|
            0 <= j < list[k].len() ==> !is_white(#[trigger] list[k][j])
}

pub proof fn lemma_words_of(s: Seq<char>)
    ensures
        all_words(words_of(s)),
    decreases s.len(),
{
    if s.len() == 0 {
    } else if is_white(s[0]) {
        lemma_words_of(s.skip(1));
    } else {
        lemma_word_len(s);
        let n = word_len(s) as int;
        lemma_words_of(s.skip(n));
        let rest = words_of(s.skip(n));
        let list = seq![s.take(n)] + rest;
        assert forall|k: int| 0 <= k < list.len() implies (#[trigger] list[k]).len() > 0
            && forall|j: int| 0 <= j < list[k].len() ==> !is_white(#[trigger] list[k][j]) by {
            if k > 0 {
                assert(list[k] == rest[k - 1]);
            }
        }
    }
}

pub proof fn lemma_joined_words(list: Seq<Seq<char>>)
    requires
        all_words(list),
    ensures
        tidy(joined(list, seq![' '])),
        list.len() > 0 ==> joined(list, seq![' ']).len() > 0 && !is_white(
            joined(list, seq![' ']).last(),
        ) && !is_white(joined(list, seq![' '])[0]),
    decreases list.len(),
{
    if list.len() == 0 {
    } else if list.len() == 1 {
        let w = list[0];
        assert forall|i: int| 0 <= i < w.len() implies !is_white(#[trigger] w[i]) by {}
    } else {
        let head = list.drop_last();
        assert forall|k: int| 0 <= k < head.len() implies (#[trigger] head[k]).len() > 0
            && forall|j: int| 0 <= j < head[k].len() ==> !is_white(#[trigger] head[k][j]) by {
            assert(head[k] == list[k]);
        }
        lemma_joined_words(head);
        let a = joined(head, seq![' ']);
        let w = list[list.len() - 1];
        let r = joined(list, seq![' ']);
        assert(r == a + seq![' '] + w);
        assert forall|i: int| 0 <= i < r.len() && is_white(#[trigger] r[i]) implies r[i] == ' '
            && 0 < i < r.len() - 1 && !is_white(r[i - 1]) && !is_white(r[i + 1]) by {
            if i < a.len() {
                assert(r[i] == a[i]);
                assert(r[i + 1] == a[i + 1]);
                assert(r[i - 1] == a[i - 1]);
            } else if i == a.len() {
                assert(r[i - 1] == a.last());
                assert(r[i + 1] == w[0]);
            } else {
                assert(r[i] == w[i - a.len() - 1]);
            }
        }
        assert(r.last() == w.last());
        assert(r[0] == a[0]);
    }
}

/// Trimming leaves a tidy text as it is.
pub proof fn lemma_tidy_trimmed(s: Seq<char>)
    requires
        tidy(s),
    ensures
        trimmed(s) == s,
{
    if s.len() > 0 {
        assert(!is_white(s[0]));
        assert(!is_white(s[s.len() - 1]));
    }
}

// ---------------------------------------------------------------------------
// What trimming leaves
// ---------------------------------------------------------------------------

/// Whether nothing but white space is in `s`.
pub open spec fn all_white(s: Seq<char>) -> bool {
    forall|i: int| 0 <= i < s.len() ==> is_white(#[trigger] s[i])
}

/// Whether two texts are the same but for the case of ASCII letters.
pub open spec fn same_but_for_case(a: Seq<char>, b: Seq<char>) -> bool {
    &&& a.len() == b.len()
    &&& forall|i: int|
        0 <= i < a.len() ==> lower_char(#[trigger] a[i]) == lower_char(#[trigger] b[i])
}

/// Where `drop_leading` begins: at the first character that does not satisfy `p`.
pub proof fn lemma_drop_leading(s: Seq<char>, p: spec_fn(char) -> bool) -> (r: int)
    ensures
        0 <= r <= s.len(),
        drop_leading(s, p) == s.skip(r),
        forall|k: int| 0 <= k < r ==> p(#[trigger] s[k]),
        r < s.len() ==> !p(s[r]),
    decreases s.len(),
{
    if s.len() > 0 && p(s[0]) {
        let n = lemma_drop_leading(s.skip(1), p);
        assert(s.skip(1).skip(n) =~= s.skip(n + 1));
        assert forall|k: int| 0 <= k < n + 1 implies p(#[trigger] s[k]) by {
            if k > 0 {
                assert(s.skip(1)[k - 1] == s[k]);
            }
        }
        n + 1
    } else {
        assert(s.skip(0) =~= s);
        0
    }
}

/// Where `drop_trailing` ends: after the last character that does not satisfy `p`.
pub proof fn lemma_drop_trailing(s: Seq<char>, p: spec_fn(char) -> bool) -> (r: int)
    ensures
        0 <= r <= s.len(),
        drop_trailing(s, p) == s.take(r),
        forall|k: int| r <= k < s.len() ==> p(#[trigger] s[k]),
        r > 0 ==> !p(s[r - 1]),
    decreases s.len(),
{
    if s.len() > 0 && p(s.last()) {
        let n = lemma_drop_trailing(s.drop_last(), p);
        assert(s.drop_last().take(n) =~= s.take(n));
        assert forall|k: int| n <= k < s.len() implies p(#[trigger] s[k]) by {
            if k < s.len() - 1 {
                assert(s.drop_last()[k] == s[k]);
            }
        }
        n
    } else {
        assert(s.take(s.len() as int) =~= s);
        s.len() as int
    }
}

/// Where a trimmed text begins and ends.
pub proof fn lemma_trimmed(s: Seq<char>) -> (r: (int, int))
    ensures
        0 <= r.0 <= r.1 <= s.len(),
        trimmed(s) == s.subrange(r.0, r.1),
        forall|k: int| 0 <= k < r.0 ==> is_white(#[trigger] s[k]),
        forall|k: int| r.1 <= k < s.len() ==> is_white(#[trigger] s[k]),
        r.0 < r.1 ==> !is_white(s[r.0]) && !is_white(s[r.1 - 1]),
        r.0 == r.1 ==> all_white(s),
{
    let i = lemma_drop_leading(s, white());
    let tail = s.skip(i);
    let n = lemma_drop_trailing(tail, white());
    assert(tail.take(n) =~= s.subrange(i, i + n));
    assert forall|k: int| i + n <= k < s.len() implies is_white(#[trigger] s[k]) by {
        assert(white()(tail[k - i]));
    }
    assert forall|k: int| 0 <= k < i implies is_white(#[trigger] s[k]) by {
        assert(white()(s[k]));
    }
    if n > 0 {
        assert(!white()(tail[n - 1]));
        assert(tail[n - 1] == s[i + n - 1]);
        assert(!white()(s[i]));
    }
    (i, i + n)
}

/// A text is trimmed to the part between its first and its last character that is not white.
pub proof fn lemma_trimmed_is(s: Seq<char>, i: int, j: int)
    requires
        0 <= i <= j <= s.len(),
        forall|k: int| 0 <= k < i ==> is_white(#[trigger] s[k]),
        forall|k: int| j <= k < s.len() ==> is_white(#[trigger] s[k]),
        i < j ==> !is_white(s[i]) && !is_white(s[j - 1]),
    ensures
        trimmed(s) == s.subrange(i, j),
{
    let r = lemma_trimmed(s);
    if i < j {
        assert(!is_white(s[i]));
        assert(!is_white(s[j - 1]));
        assert(r.0 < r.1);
        assert(r.0 == i && r.1 == j);
    } else {
        if r.0 < r.1 {
            assert(!is_white(s[r.0]));
        }
        assert(s.subrange(i, j) =~= s.subrange(r.0, r.1));
    }
}

/// Trimming a trimmed text changes nothing.
pub proof fn lemma_trimmed_twice(s: Seq<char>)
    ensures
        trimmed(trimmed(s)) == trimmed(s),
{
    let r = lemma_trimmed(s);
    let t = trimmed(s);
    lemma_trimmed_is(t, 0, t.len() as int);
    assert(t.subrange(0, t.len() as int) =~= t);
}

/// A text is blank exactly where nothing but white space is in it.
pub proof fn lemma_blank(s: Seq<char>)
    ensures
        blank(s) == all_white(s),
{
    let r = lemma_trimmed(s);
    if r.0 < r.1 {
        assert(!is_white(s[r.0]));
    }
}

/// White space around a text is trimmed away.
pub proof fn lemma_trimmed_around(u: Seq<char>, s: Seq<char>, v: Seq<char>)
    requires
        all_white(u),
        all_white(v),
    ensures
        trimmed(u + s + v) == trimmed(s),
{
    let w = u + s + v;
    let r = lemma_trimmed(s);
    assert forall|k: int| 0 <= k < u.len() + r.0 implies is_white(#[trigger] w[k]) by {
        if k < u.len() {
            assert(w[k] == u[k]);
        } else {
            assert(w[k] == s[k - u.len()]);
        }
    }
    assert forall|k: int| u.len() + r.1 <= k < w.len() implies is_white(#[trigger] w[k]) by {
        if k < u.len() + s.len() {
            assert(w[k] == s[k - u.len()]);
        } else {
            assert(w[k] == v[k - u.len() - s.len()]);
        }
    }
    lemma_trimmed_is(w, u.len() + r.0, u.len() + r.1);
    assert(w.subrange(u.len() + r.0, u.len() + r.1) =~= s.subrange(r.0, r.1));
}

/// Texts that are the same but for case are the same in small letters, and white in the same places.
pub proof fn lemma_same_but_for_case(a: Seq<char>, b: Seq<char>)
    requires
        same_but_for_case(a, b),
    ensures
        lowered(a) == lowered(b),
        forall|i: int| 0 <= i < a.len() ==> is_white(#[trigger] a[i]) == is_white(b[i]),
        same_but_for_case(trimmed(a), trimmed(b)),
{
    assert forall|i: int| 0 <= i < a.len() implies is_white(#[trigger] a[i]) == is_white(b[i]) by {
        assert(lower_char(a[i]) == lower_char(b[i]));
    }
    assert(lowered(a) =~= lowered(b)) by {
        assert forall|i: int| 0 <= i < a.len() implies lowered(a)[i] == lowered(b)[i] by {
            assert(lower_char(a[i]) == lower_char(b[i]));
        }
    }
    let r = lemma_trimmed(a);
    assert forall|k: int| 0 <= k < r.0 implies is_white(#[trigger] b[k]) by {
        assert(is_white(a[k]));
    }
    assert forall|k: int| r.1 <= k < b.len() implies is_white(#[trigger] b[k]) by {
        assert(is_white(a[k]));
    }
    if r.0 < r.1 {
        assert(!is_white(a[r.0]));
        assert(!is_white(a[r.1 - 1]));
    }
    lemma_trimmed_is(b, r.0, r.1);
    let x = trimmed(a);
    let y = trimmed(b);
    assert forall|i: int| 0 <= i < x.len() implies lower_char(#[trigger] x[i]) == lower_char(
        #[trigger] y[i],
    ) by {
        assert(x[i] == a[r.0 + i]);
        assert(y[i] == b[r.0 + i]);
    }
}

/// A part of a part is a part.
pub proof fn lemma_part_of_part(a: Seq<char>, b: Seq<char>, c: Seq<char>)
    requires
        has_text(a, b),
        has_text(b, c),
    ensures
        has_text(a, c),
{
    let i = choose|i: int| #[trigger] occurs_at(a, b, i);
    let j = choose|j: int| #[trigger] occurs_at(b, c, j);
    assert(a.subrange(i + j, i + j + c.len()) =~= b.subrange(j, j + c.len()));
    assert(occurs_at(a, c, i + j));
}

/// What stands between two indices of a text is a part of it.
pub proof fn lemma_subrange_is_part(s: Seq<char>, i: int, j: int)
    requires
        0 <= i <= j <= s.len(),
    ensures
        has_text(s, s.subrange(i, j)),
{
    assert(occurs_at(s, s.subrange(i, j), i));
}

/// What is left of a text without a character at both ends is a part of it.
pub proof fn lemma_trimmed_of_is_part(s: Seq<char>, x: char)
    ensures
        has_text(s, trimmed_of(s, x)),
{
    let i = lemma_drop_leading(s, just(x));
    let n = lemma_drop_trailing(s.skip(i), just(x));
    assert(s.skip(i).take(n) =~= s.subrange(i, i + n));
    lemma_subrange_is_part(s, i, i + n);
}

/// What is left of a text after trimming is a part of it.
pub proof fn lemma_trimmed_is_part(s: Seq<char>)
    ensures
        has_text(s, trimmed(s)),
{
    let r = lemma_trimmed(s);
    lemma_subrange_is_part(s, r.0, r.1);
}

/// Whether a pattern begins and ends with characters that are not white.
pub open spec fn is_solid(pat: Seq<char>) -> bool {
    pat.len() > 0 && !is_white(pat[0]) && !is_white(pat.last())
}

/// A solid pattern stands nowhere but in the part of a text that white space surrounds.
pub proof fn lemma_found_inside(u: Seq<char>, s: Seq<char>, v: Seq<char>, pat: Seq<char>)
    requires
        all_white(u),
        all_white(v),
        is_solid(pat),
    ensures
        forall|j: int| #[trigger]
            occurs_at(lowered(u + s + v), pat, j) ==> u.len() <= j && occurs_at(
                lowered(s),
                pat,
                j - u.len(),
            ),
        forall|i: int| #[trigger]
            occurs_at(lowered(s), pat, i) ==> occurs_at(lowered(u + s + v), pat, i + u.len()),
        has_text(lowered(u + s + v), pat) == has_text(lowered(s), pat),
{
    let w = u + s + v;
    let big = lowered(w);
    let low = lowered(s);
    let n = u.len() as int;
    assert forall|j: int| #[trigger] occurs_at(big, pat, j) implies n <= j && occurs_at(
        low,
        pat,
        j - n,
    ) by {
        let part = big.subrange(j, j + pat.len());
        assert(part[0] == lower_char(w[j]));
        assert(part[pat.len() - 1] == lower_char(w[j + pat.len() - 1]));
        if j < n {
            assert(w[j] == u[j]);
            assert(is_white(u[j]));
        }
        let e = j + pat.len() - 1;
        if e >= n + s.len() {
            assert(w[e] == v[e - n - s.len()]);
            assert(is_white(v[e - n - s.len()]));
        }
        assert(low.subrange(j - n, j - n + pat.len()) =~= part);
    }
    assert forall|i: int| #[trigger] occurs_at(low, pat, i) implies occurs_at(big, pat, i + n) by {
        assert(big.subrange(i + n, i + n + pat.len()) =~= low.subrange(i, i + pat.len()));
    }
    if has_text(big, pat) {
        let j = choose|j: int| #[trigger] occurs_at(big, pat, j);
        assert(occurs_at(low, pat, j - n));
    }
    if has_text(low, pat) {
        let i = choose|i: int| #[trigger] occurs_at(low, pat, i);
        assert(occurs_at(big, pat, i + n));
    }
}

/// An index in a part, as an index in the whole.
pub open spec fn shifted(o: Option<int>, n: int) -> Option<int> {
    match o {
        Some(k) => Some(k + n),
        None => None,
    }
}

/// Whether `pat` stands in `big` where it stands in `low`, `n` places further, and nowhere else.
spec fn stands_shifted(big: Seq<char>, low: Seq<char>, n: int, pat: Seq<char>) -> bool {
    &&& forall|j: int| #[trigger]
        occurs_at(big, pat, j) ==> n <= j && occurs_at(low, pat, j - n)
    &&& forall|i: int| #[trigger] occurs_at(low, pat, i) ==> occurs_at(big, pat, i + n)
}

proof fn lemma_first_from_shifted(
    big: Seq<char>,
    low: Seq<char>,
    n: int,
    pat: Seq<char>,
    i: int,
)
    requires
        0 <= n,
        0 <= i,
        stands_shifted(big, low, n, pat),
    ensures
        first_from(big, pat, i + n) == shifted(first_from(low, pat, i), n),
{
    lemma_first_from(big, pat, i + n);
    lemma_first_from(low, pat, i);
    if let Some(k) = first_from(low, pat, i) {
        assert(occurs_at(big, pat, k + n));
    }
    if let Some(k) = first_from(big, pat, i + n) {
        assert(occurs_at(low, pat, k - n));
    }
}

proof fn lemma_first_at_shifted(big: Seq<char>, low: Seq<char>, n: int, pat: Seq<char>)
    requires
        0 <= n,
        stands_shifted(big, low, n, pat),
    ensures
        first_at(big, pat) == shifted(first_at(low, pat), n),
{
    lemma_first_at(big, pat);
    lemma_first_at(low, pat);
    if let Some(k) = first_at(low, pat) {
        assert(occurs_at(big, pat, k + n));
    }
    if let Some(k) = first_at(big, pat) {
        assert(occurs_at(low, pat, k - n));
    }
}

proof fn lemma_last_at_shifted(big: Seq<char>, low: Seq<char>, n: int, pat: Seq<char>)
    requires
        0 <= n,
        stands_shifted(big, low, n, pat),
    ensures
        last_at(big, pat) == shifted(last_at(low, pat), n),
{
    lemma_last_at(big, pat);
    lemma_last_at(low, pat);
    if let Some(k) = last_at(low, pat) {
        assert(occurs_at(big, pat, k + n));
    }
    if let Some(k) = last_at(big, pat) {
        assert(occurs_at(low, pat, k - n));
    }
}

/// White space around a text only shifts where a solid pattern is found first and last.
pub proof fn lemma_found_shifted(u: Seq<char>, s: Seq<char>, v: Seq<char>, pat: Seq<char>)
    requires
        all_white(u),
        all_white(v),
        is_solid(pat),
    ensures
        first_at(lowered(u + s + v), pat) == shifted(first_at(lowered(s), pat), u.len() as int),
        last_at(lowered(u + s + v), pat) == shifted(last_at(lowered(s), pat), u.len() as int),
        forall|i: int|
            0 <= i ==> first_from(lowered(u + s + v), pat, i + u.len()) == shifted(
                #[trigger] first_from(lowered(s), pat, i),
                u.len() as int,
            ),
{
    let big = lowered(u + s + v);
    let low = lowered(s);
    let n = u.len() as int;
    assert(stands_shifted(big, low, n, pat)) by {
        lemma_found_inside(u, s, v, pat);
    }
    lemma_first_at_shifted(big, low, n, pat);
    lemma_last_at_shifted(big, low, n, pat);
    assert forall|i: int| 0 <= i implies first_from(big, pat, i + n) == shifted(
        #[trigger] first_from(low, pat, i),
        n,
    ) by {
        lemma_first_from_shifted(big, low, n, pat, i);
    }
}

/// A text is its trimmed part with white space around it.
pub proof fn lemma_trimmed_split(s: Seq<char>) -> (r: (Seq<char>, Seq<char>))
    ensures
        all_white(r.0),
        all_white(r.1),
        s == r.0 + trimmed(s) + r.1,
{
    let r = lemma_trimmed(s);
    let u = s.take(r.0);
    let v = s.skip(r.1);
    assert(all_white(u)) by {
        assert forall|i: int| 0 <= i < u.len() implies is_white(#[trigger] u[i]) by {
            assert(is_white(s[i]));
        }
    }
    assert(all_white(v)) by {
        assert forall|i: int| 0 <= i < v.len() implies is_white(#[trigger] v[i]) by {
            assert(is_white(s[r.1 + i]));
        }
    }
    assert(s =~= u + s.subrange(r.0, r.1) + v);
    (u, v)
}

// ---------------------------------------------------------------------------
// The first line with text
// ---------------------------------------------------------------------------

/// Whether the `k`th line of `s` is the first with anything but white space in it.
pub open spec fn is_first_filled(s: Seq<char>, k: int) -> bool {
    &&& 0 <= k < lines_of(s).len()
    &&& !blank(lines_of(s)[k])
    &&& forall|j: int| 0 <= j < k ==> blank(#[trigger] lines_of(s)[j])
}

/// A line has no line break in it, and those of blank text are blank.
pub proof fn lemma_lines_from(s: Seq<char>, i: int)
    requires
        0 <= i <= s.len(),
    ensures
        forall|k: int, j: int|
            0 <= k < lines_from(s, i).len() && 0 <= j < lines_from(s, i)[k].len()
                ==> #[trigger] lines_from(s, i)[k][j] != '\n',
        all_white(s) ==> forall|k: int|
            0 <= k < lines_from(s, i).len() ==> all_white(#[trigger] lines_from(s, i)[k]),
    decreases s.len() - i,
{
    if i < s.len() {
        lemma_next_index(s, '\n', i);
        let e = next_index(s, '\n', i);
        let all = lines_from(s, i);
        if e < s.len() {
            lemma_lines_from(s, e + 1);
            let rest = lines_from(s, e + 1);
            assert forall|k: int| 0 <= k < all.len() && all_white(s) implies all_white(
                #[trigger] all[k],
            ) by {
                if k > 0 {
                    assert(all[k] == rest[k - 1]);
                }
            }
            assert forall|k: int, j: int|
                0 <= k < all.len() && 0 <= j < all[k].len() implies #[trigger] all[k][j]
                != '\n' by {
                if k > 0 {
                    assert(all[k] == rest[k - 1]);
                    assert(rest[k - 1][j] != '\n');
                } else {
                    assert(all[k][j] == s[i + j]);
                }
            }
        }
    }
}

/// The first line with text, trimmed, is that of the line that comes first.
pub proof fn lemma_first_filled_line(s: Seq<char>)
    ensures
        match first_filled_line(s) {
            Some(t) => exists|k: int| #[trigger]
                is_first_filled(s, k) && t == trimmed(lines_of(s)[k]),
            None => forall|k: int| 0 <= k < lines_of(s).len() ==> blank(#[trigger] lines_of(s)[k]),
        },
        blank(s) ==> first_filled_line(s) is None,
{
    lemma_first_filled(lines_of(s), 0);
    if let Some(t) = first_filled_line(s) {
        let k = choose|k: int|
            0 <= k < lines_of(s).len() && !blank(lines_of(s)[k]) && t == trimmed(
                #[trigger] lines_of(s)[k],
            ) && forall|j: int| 0 <= j < k ==> blank(#[trigger] lines_of(s)[j]);
        assert(is_first_filled(s, k));
        if blank(s) {
            lemma_blank(s);
            lemma_lines_from(s, 0);
            lemma_blank(lines_of(s)[k]);
        }
    }
}

proof fn lemma_first_filled(list: Seq<Seq<char>>, i: int)
    requires
        0 <= i,
    ensures
        match first_filled(list, i) {
            Some(t) => exists|k: int|
                i <= k < list.len() && !blank(list[k]) && t == trimmed(#[trigger] list[k])
                    && forall|j: int| i <= j < k ==> blank(#[trigger] list[j]),
            None => forall|k: int| i <= k < list.len() ==> blank(#[trigger] list[k]),
        },
    decreases list.len() - i,
{
    if i < list.len() {
        if trimmed(list[i]).len() > 0 {
            assert(!blank(list[i]));
        } else {
            lemma_first_filled(list, i + 1);
        }
    }
}

// ---------------------------------------------------------------------------
// Texts put together out of parts
// ---------------------------------------------------------------------------

/// What a text ends with, the next one, and what the one after that begins with stand in the three
/// put together.
pub proof fn lemma_has_across(
    a: Seq<char>,
    b: Seq<char>,
    c: Seq<char>,
    pre: Seq<char>,
    post: Seq<char>,
)
    requires
        ends(a, pre),
        begins(c, post),
    ensures
        has_text(a + b + c, pre + b + post),
{
    let whole = a + b + c;
    let part = pre + b + post;
    let i = a.len() - pre.len();
    let sub = whole.subrange(i, i + part.len());
    assert forall|k: int| 0 <= k < part.len() implies #[trigger] sub[k] == part[k] by {
        if k < pre.len() {
            assert(a.subrange(i, a.len() as int)[k] == pre[k]);
        } else if k >= pre.len() + b.len() {
            let m = k - pre.len() - b.len();
            assert(c.subrange(0, post.len() as int)[m] == post[m]);
        }
    }
    assert(sub =~= part);
    assert(occurs_at(whole, part, i));
}

/// A text with another after it ends with what the other ends with.
pub proof fn lemma_ends_after(a: Seq<char>, b: Seq<char>, pre: Seq<char>)
    requires
        ends(a, pre),
    ensures
        ends(a + b, pre + b),
{
    let whole = a + b;
    let part = pre + b;
    let i = whole.len() - part.len();
    let sub = whole.subrange(i, whole.len() as int);
    assert forall|k: int| 0 <= k < part.len() implies #[trigger] sub[k] == part[k] by {
        if k < pre.len() {
            assert(a.subrange(i, a.len() as int)[k] == pre[k]);
        }
    }
    assert(sub =~= part);
}

/// What a text ends with it ends with after another as well.
pub proof fn lemma_ends_longer(a: Seq<char>, b: Seq<char>, pre: Seq<char>)
    requires
        ends(b, pre),
    ensures
        ends(a + b, pre),
{
    let whole = a + b;
    let i = whole.len() - pre.len();
    assert(whole.subrange(i, whole.len() as int) =~= b.subrange(
        b.len() - pre.len(),
        b.len() as int,
    ));
}

/// A text that neither begins nor ends with white space stands in the trimmed text where it stands
/// in the text.
pub proof fn lemma_solid_stays(s: Seq<char>, pat: Seq<char>)
    requires
        has_text(s, pat),
        is_solid(pat),
    ensures
        has_text(trimmed(s), pat),
{
    let i = choose|i: int| #[trigger] occurs_at(s, pat, i);
    let (a, b) = lemma_trimmed(s);
    let part = s.subrange(i, i + pat.len());
    assert(part[0] == s[i]);
    assert(part[pat.len() - 1] == s[i + pat.len() - 1]);
    assert(a <= i);
    assert(i + pat.len() <= b);
    assert(trimmed(s).subrange(i - a, i - a + pat.len()) =~= part);
    assert(occurs_at(trimmed(s), pat, i - a));
}

/// Two neighbours of a list stand in the joined list, with the separator between them.
pub proof fn lemma_joined_neighbours(list: Seq<Seq<char>>, sep: Seq<char>, i: int)
    requires
        0 <= i < list.len() - 1,
    ensures
        has_text(joined(list, sep), list[i] + sep + list[i + 1]),
    decreases list.len(),
{
    let head = joined(list.drop_last(), sep);
    let whole = joined(list, sep);
    let part = list[i] + sep + list[i + 1];
    let none = Seq::<char>::empty();
    if i == list.len() - 2 {
        lemma_joined_ends(list.drop_last(), sep);
        assert(list.drop_last().last() == list[i]);
        lemma_ends_after(head, sep + list.last(), list[i]);
        assert(head + (sep + list.last()) =~= whole);
        assert(list[i] + (sep + list.last()) =~= part);
        assert(occurs_at(whole, part, whole.len() - part.len()));
    } else {
        lemma_joined_neighbours(list.drop_last(), sep, i);
        lemma_has_part(none, head, sep + list.last(), part);
        assert(none + head + (sep + list.last()) =~= whole);
    }
}

/// A joined list ends with the last of the list.
pub proof fn lemma_joined_ends(list: Seq<Seq<char>>, sep: Seq<char>)
    requires
        list.len() > 0,
    ensures
        ends(joined(list, sep), list.last()),
{
    let last = list.last();
    assert(last.subrange(0, last.len() as int) =~= last);
    if list.len() > 1 {
        lemma_ends_longer(joined(list.drop_last(), sep) + sep, last, last);
    }
}

/// Where a pattern does not stand, replacing it changes nothing.
pub proof fn lemma_replaced_none(s: Seq<char>, from: Seq<char>, to: Seq<char>)
    requires
        !has_text(s, from),
        from.len() > 0,
    ensures
        replaced(s, from, to) == s,
{
    lemma_replaced_untouched(s, from, to, 0, s.len() as int);
    assert(replaced_from(s, from, to, s.len() as int) =~= Seq::empty());
    assert(s.subrange(0, s.len() as int) + Seq::empty() =~= s);
}

/// What no occurrence of the pattern begins in is taken over as it stands.
proof fn lemma_replaced_untouched(s: Seq<char>, from: Seq<char>, to: Seq<char>, i: int, e: int)
    requires
        0 <= i <= e <= s.len(),
        from.len() > 0,
        forall|p: int| i <= p < e ==> !#[trigger] occurs_at(s, from, p),
    ensures
        replaced_from(s, from, to, i) == s.subrange(i, e) + replaced_from(s, from, to, e),
    decreases e - i,
{
    if i < e {
        lemma_replaced_untouched(s, from, to, i + 1, e);
        assert(!occurs_at(s, from, i));
        assert(seq![s[i]] + (s.subrange(i + 1, e) + replaced_from(s, from, to, e)) =~= s.subrange(
            i,
            e,
        ) + replaced_from(s, from, to, e));
    } else {
        assert(s.subrange(i, e) + replaced_from(s, from, to, e) =~= replaced_from(s, from, to, e));
    }
}

/// A part of a text that no occurrence of the pattern touches is kept.
proof fn lemma_replaced_from_keeps(
    s: Seq<char>,
    from: Seq<char>,
    to: Seq<char>,
    i: int,
    q: int,
    e: int,
)
    requires
        0 <= i <= q <= e <= s.len(),
        from.len() > 0,
        forall|p: int| #[trigger] occurs_at(s, from, p) ==> p + from.len() <= q || e <= p,
    ensures
        has_text(replaced_from(s, from, to, i), s.subrange(q, e)),
    decreases q - i,
{
    let part = s.subrange(q, e);
    let all = replaced_from(s, from, to, i);
    let none = Seq::<char>::empty();
    if q == e {
        lemma_has_empty(all, part);
    } else if i == q {
        lemma_replaced_untouched(s, from, to, q, e);
        let rest = replaced_from(s, from, to, e);
        lemma_has_self(part);
        lemma_has_part(none, part, rest, part);
        assert(none + part + rest =~= all);
    } else if occurs_at(s, from, i) {
        lemma_replaced_from_keeps(s, from, to, i + from.len(), q, e);
        let rest = replaced_from(s, from, to, i + from.len());
        lemma_has_part(to, rest, none, part);
        assert(to + rest + none =~= all);
    } else {
        lemma_replaced_from_keeps(s, from, to, i + 1, q, e);
        let rest = replaced_from(s, from, to, i + 1);
        lemma_has_part(seq![s[i]], rest, none, part);
        assert(seq![s[i]] + rest + none =~= all);
    }
}

/// What replaces a pattern stands in the new text, where the pattern stood in the old.
pub proof fn lemma_replaced_has(s: Seq<char>, from: Seq<char>, to: Seq<char>)
    requires
        has_text(s, from),
        from.len() > 0,
    ensures
        has_text(replaced(s, from, to), to),
{
    let p = choose|p: int| #[trigger] occurs_at(s, from, p);
    lemma_replaced_from_has(s, from, to, 0, p);
}

proof fn lemma_replaced_from_has(s: Seq<char>, from: Seq<char>, to: Seq<char>, i: int, p: int)
    requires
        0 <= i <= p,
        occurs_at(s, from, p),
        from.len() > 0,
    ensures
        has_text(replaced_from(s, from, to, i), to),
    decreases p - i,
{
    let all = replaced_from(s, from, to, i);
    let none = Seq::<char>::empty();
    if occurs_at(s, from, i) {
        let rest = replaced_from(s, from, to, i + from.len());
        lemma_has_self(to);
        lemma_has_part(none, to, rest, to);
        assert(none + to + rest =~= all);
    } else {
        lemma_replaced_from_has(s, from, to, i + 1, p);
        let rest = replaced_from(s, from, to, i + 1);
        lemma_has_part(seq![s[i]], rest, none, to);
        assert(seq![s[i]] + rest + none =~= all);
    }
}

/// Whether `s` from index `k` on, as far as it goes, is no beginning of `pat`.
pub open spec fn differs_from(s: Seq<char>, k: int, pat: Seq<char>) -> bool {
    exists|d: int| 0 <= d < pat.len() && k + d < s.len() && s[k + d] != #[trigger] pat[d]
}

/// Whether `pat` neither begins anywhere in `s` nor breaks off at the end of it.
pub open spec fn is_clear_of(s: Seq<char>, pat: Seq<char>) -> bool {
    forall|k: int| 0 <= k < s.len() ==> #[trigger] differs_from(s, k, pat)
}

/// A part of a text is kept where the pattern does not begin in it, and where its first character
/// stands nowhere in the pattern but at its beginning.
pub proof fn lemma_replaced_keeps(s: Seq<char>, part: Seq<char>, from: Seq<char>, to: Seq<char>)
    requires
        has_text(s, part),
        part.len() > 0,
        from.len() > 0,
        is_clear_of(part, from),
        forall|d: int| 0 < d < from.len() ==> #[trigger] from[d] != part[0],
    ensures
        has_text(replaced(s, from, to), part),
{
    let q = choose|q: int| #[trigger] occurs_at(s, part, q);
    let e = q + part.len();
    assert forall|p: int| #[trigger] occurs_at(s, from, p) implies p + from.len() <= q || e
        <= p by {
        let here = s.subrange(p, p + from.len());
        let there = s.subrange(q, e);
        if q <= p < e {
            let k = p - q;
            assert(differs_from(part, k, from));
            let d = choose|d: int|
                0 <= d < from.len() && k + d < part.len() && part[k + d] != #[trigger] from[d];
            assert(here[d] == s[p + d]);
            assert(there[k + d] == s[p + d]);
        } else if p < q && q < p + from.len() {
            assert(here[q - p] == s[q]);
            assert(there[0] == s[q]);
            assert(from[q - p] != part[0]);
        }
    }
    lemma_replaced_from_keeps(s, from, to, 0, q, e);
    assert(s.subrange(q, e) =~= part);
}

/// What the first of two neighbours ends with and what the second begins with stand in a text with
/// what is between them, where the neighbours do.
pub proof fn lemma_part_between(
    whole: Seq<char>,
    a: Seq<char>,
    b: Seq<char>,
    sep: Seq<char>,
    c: Seq<char>,
    d: Seq<char>,
)
    requires
        has_text(whole, (a + b) + sep + (c + d)),
    ensures
        has_text(whole, b + sep + c),
{
    let part = b + sep + c;
    lemma_has_self(part);
    lemma_has_part(a, part, d, part);
    assert(a + part + d =~= (a + b) + sep + (c + d));
    lemma_part_of_part(whole, (a + b) + sep + (c + d), part);
}

/// What a text ends with stands in a text where the other does.
pub proof fn lemma_part_at_end(whole: Seq<char>, a: Seq<char>, b: Seq<char>)
    requires
        has_text(whole, a + b),
    ensures
        has_text(whole, b),
{
    lemma_has_self(b);
    lemma_has_part(a, b, Seq::empty(), b);
    assert(a + b + Seq::empty() =~= a + b);
    lemma_part_of_part(whole, a + b, b);
}

/// Trimming keeps the end of a text that ends with something solid.
pub proof fn lemma_ends_trimmed(s: Seq<char>, pat: Seq<char>)
    requires
        ends(s, pat),
        is_solid(pat),
    ensures
        ends(trimmed(s), pat),
{
    let n = s.len() as int;
    let m = pat.len() as int;
    let w = lemma_trimmed(s);
    let part = s.subrange(n - m, n);
    assert(part[m - 1] == s[n - 1]);
    assert(part[0] == s[n - m]);
    assert(w.1 == n);
    assert(w.0 <= n - m);
    let t = trimmed(s);
    assert(t.subrange(t.len() - m, t.len() as int) =~= part);
}

/// Trimming keeps the beginning of a text that begins with something solid.
pub proof fn lemma_begins_trimmed(s: Seq<char>, pat: Seq<char>)
    requires
        begins(s, pat),
        is_solid(pat),
    ensures
        begins(trimmed(s), pat),
{
    let m = pat.len() as int;
    let w = lemma_trimmed(s);
    let part = s.subrange(0, m);
    assert(part[m - 1] == s[m - 1]);
    assert(part[0] == s[0]);
    assert(w.0 == 0);
    assert(m <= w.1);
    let t = trimmed(s);
    assert(t.subrange(0, m) =~= part);
}

/// A trimmed text that is not empty is solid.
pub proof fn lemma_trimmed_is_solid(s: Seq<char>)
    requires
        !blank(s),
    ensures
        is_solid(trimmed(s)),
{
    let r = lemma_trimmed(s);
    let t = trimmed(s);
    assert(t[0] == s[r.0]);
    assert(t[t.len() - 1] == s[r.1 - 1]);
}

/// White space are the characters that Unicode calls so, and digits and letters those of ASCII.
pub proof fn law_kinds_of_characters_are_known(c: char)
    ensures
        ({
            let n = c as u32;
            &&& is_white(c) <==> 9 <= n <= 13 || n == 32 || n == 0x85 || n == 0xA0 || n == 0x1680
                || 0x2000 <= n <= 0x200A || n == 0x2028 || n == 0x2029 || n == 0x202F || n == 0x205F
                || n == 0x3000
            &&& is_digit(c) <==> 48 <= n <= 57
            &&& is_letter(c) <==> 65 <= n <= 90 || 97 <= n <= 122
            &&& is_alnum(c) <==> is_digit(c) || is_letter(c)
        }),
{
}

/// Capitals of ASCII become the small letters that stand thirty-two places after them, and nothing
/// else changes, neither at once nor when it is done again.
pub proof fn law_only_capitals_become_small(s: Seq<char>, i: int)
    requires
        0 <= i < s.len(),
    ensures
        lowered(s).len() == s.len(),
        65 <= s[i] as u32 <= 90 ==> lowered(s)[i] as u32 == s[i] as u32 + 32,
        !(65 <= s[i] as u32 <= 90) ==> lowered(s)[i] == s[i],
        lowered(lowered(s)) == lowered(s),
{
    assert(lowered(lowered(s)) =~= lowered(s));
}

/// Trimming takes white space away at the two ends, all of it and nothing else.
pub proof fn law_only_white_space_is_trimmed(s: Seq<char>)
    ensures
        exists|i: int, j: int|
            0 <= i <= j <= s.len() && trimmed(s) == #[trigger] s.subrange(i, j) && all_white(
                s.take(i),
            ) && all_white(s.skip(j)) && (i < j ==> !is_white(s[i]) && !is_white(s[j - 1])),
        blank(s) <==> all_white(s),
        trimmed(trimmed(s)) == trimmed(s),
        filled(None) is None,
        filled(Some(s)) == if all_white(s) {
            None
        } else {
            Some(trimmed(s))
        },
{
    let (i, j) = lemma_trimmed(s);
    lemma_blank(s);
    lemma_trimmed_twice(s);
    assert(trimmed(s) == s.subrange(i, j));
    assert forall|k: int| 0 <= k < s.take(i).len() implies is_white(#[trigger] s.take(i)[k]) by {
        assert(s.take(i)[k] == s[k]);
    }
    assert forall|k: int| 0 <= k < s.skip(j).len() implies is_white(#[trigger] s.skip(j)[k]) by {
        assert(s.skip(j)[k] == s[j + k]);
    }
}

/// A joined list begins with its first text, and what follows is the rest of the list, joined.
proof fn lemma_joined_front(x: Seq<char>, list: Seq<Seq<char>>, sep: Seq<char>)
    requires
        list.len() > 0,
    ensures
        joined(seq![x] + list, sep) == x + sep + joined(list, sep),
    decreases list.len(),
{
    let whole = seq![x] + list;
    assert(whole.drop_last() =~= seq![x] + list.drop_last());
    assert(whole.last() == list.last());
    if list.len() == 1 {
        assert(whole.drop_last() =~= seq![x]);
        assert(joined(seq![x], sep) == x);
        assert(joined(whole, sep) =~= x + sep + joined(list, sep));
    } else {
        lemma_joined_front(x, list.drop_last(), sep);
        assert(joined(whole, sep) =~= x + sep + joined(list, sep));
    }
}

/// A list of texts is joined in order, with what stands between them between each two and nowhere
/// else.
pub proof fn law_texts_are_joined_in_order(list: Seq<Seq<char>>, x: Seq<char>, sep: Seq<char>)
    ensures
        joined(Seq::<Seq<char>>::empty(), sep).len() == 0,
        joined(seq![x], sep) == x,
        list.len() > 0 ==> joined(list.push(x), sep) == joined(list, sep) + sep + x,
        list.len() > 0 ==> joined(seq![x] + list, sep) == x + sep + joined(list, sep),
{
    if list.len() > 0 {
        assert(list.push(x).drop_last() =~= list);
        lemma_joined_front(x, list, sep);
    }
}

/// The lines of a text without carriage returns give it back with a line break between each two, but
/// for a line break at its end, and no line holds one.
pub proof fn law_lines_give_the_text_back(s: Seq<char>)
    requires
        !s.contains('\r'),
    ensures
        s == joined(lines_of(s), seq!['\n']) || s == joined(lines_of(s), seq!['\n']) + seq!['\n'],
        forall|k: int| 0 <= k < lines_of(s).len() ==> !(#[trigger] lines_of(s)[k]).contains('\n'),
{
    lemma_lines_give_back(s, 0);
    assert(s.skip(0) =~= s);
}

proof fn lemma_lines_give_back(s: Seq<char>, i: int)
    requires
        0 <= i <= s.len(),
        !s.contains('\r'),
    ensures
        ({
            let text = joined(lines_from(s, i), seq!['\n']);
            s.skip(i) == text || s.skip(i) == text + seq!['\n']
        }),
        forall|k: int|
            0 <= k < lines_from(s, i).len() ==> !(#[trigger] lines_from(s, i)[k]).contains('\n'),
        i < s.len() ==> lines_from(s, i).len() > 0,
    decreases s.len() - i,
{
    if i < s.len() {
        let e = next_index(s, '\n', i);
        lemma_next_index(s, '\n', i);
        let lines = lines_from(s, i);
        if e >= s.len() {
            assert(lines =~= seq![s.skip(i)]);
            assert(joined(lines, seq!['\n']) == s.skip(i));
            assert(!s.skip(i).contains('\n'));
        } else {
            let first = s.subrange(i, e);
            if first.len() > 0 {
                assert(s.contains(s[e - 1]));
                assert(first.last() == s[e - 1]);
            }
            assert(without_cr(first) == first);
            assert(!first.contains('\n'));
            let rest = lines_from(s, e + 1);
            lemma_lines_give_back(s, e + 1);
            assert(lines =~= seq![first] + rest);
            if rest.len() == 0 {
                assert(lines =~= seq![first]);
                assert(joined(lines, seq!['\n']) == first);
                assert(e + 1 == s.len());
                assert(s.skip(i) =~= first + seq!['\n']);
            } else {
                lemma_joined_front(first, rest, seq!['\n']);
                let text = joined(rest, seq!['\n']);
                assert(s.skip(i) =~= first + seq!['\n'] + s.skip(e + 1));
                assert(first + seq!['\n'] + (text + seq!['\n']) =~= (first + seq!['\n'] + text)
                    + seq!['\n']);
            }
            assert forall|k: int| 0 <= k < lines.len() implies !(#[trigger] lines[k]).contains(
                '\n',
            ) by {
                if k > 0 {
                    assert(lines[k] == rest[k - 1]);
                }
            }
        }
    } else {
        assert(s.skip(i) =~= Seq::<char>::empty());
    }
}

/// The words of a text are all that is not white space in it, in order.
pub proof fn law_words_are_all_but_white_space(s: Seq<char>)
    ensures
        joined(words_of(s), Seq::empty()) == s.filter(|c: char| !is_white(c)),
        all_words(words_of(s)),
    decreases s.len(),
{
    let solid = |c: char| !is_white(c);
    lemma_words_of(s);
    if s.len() == 0 {
        assert(s.filter(solid) =~= Seq::<char>::empty()) by {
            reveal(Seq::filter);
        }
    } else if is_white(s[0]) {
        law_words_are_all_but_white_space(s.skip(1));
        Seq::filter_distributes_over_add(seq![s[0]], s.skip(1), solid);
        assert(seq![s[0]] + s.skip(1) =~= s);
        assert(seq![s[0]].filter(solid) =~= Seq::<char>::empty()) by {
            reveal(Seq::filter);
            assert(seq![s[0]].drop_last() =~= Seq::<char>::empty());
            assert(Seq::<char>::empty().filter(solid) =~= Seq::<char>::empty());
        }
    } else {
        lemma_word_len(s);
        let n = word_len(s) as int;
        let first = s.take(n);
        law_words_are_all_but_white_space(s.skip(n));
        Seq::filter_distributes_over_add(first, s.skip(n), solid);
        assert(first + s.skip(n) =~= s);
        lemma_all_stay(first, solid);
        let rest = words_of(s.skip(n));
        if rest.len() == 0 {
            assert(seq![first] + rest =~= seq![first]);
            assert(joined(seq![first], Seq::empty()) == first);
            assert(first + Seq::<char>::empty() =~= first);
        } else {
            lemma_joined_front(first, rest, Seq::empty());
            assert(first + Seq::<char>::empty() =~= first);
        }
    }
}

proof fn lemma_all_stay(s: Seq<char>, p: spec_fn(char) -> bool)
    requires
        forall|i: int| 0 <= i < s.len() ==> p(#[trigger] s[i]),
    ensures
        s.filter(p) == s,
    decreases s.len(),
{
    reveal(Seq::filter);
    if s.len() > 0 {
        lemma_all_stay(s.drop_last(), p);
        assert(s.drop_last().push(s.last()) =~= s);
    } else {
        assert(s.filter(p) =~= s);
    }
}

/// A text is cut where it is longer than it may be, there and nowhere before, and then ends with an
/// ellipsis.
pub proof fn law_long_texts_are_cut(s: Seq<char>, n: int)
    requires
        0 <= n,
    ensures
        s.len() <= n ==> clipped(s, n) == s,
        s.len() > n ==> {
            &&& clipped(s, n).len() == n + 1
            &&& clipped(s, n)[n] == '…'
            &&& forall|i: int| 0 <= i < n ==> #[trigger] clipped(s, n)[i] == s[i]
        },
{
}

/// Texts are ordered by the first character in which they differ, and a text comes before whatever
/// it is the beginning of.
pub proof fn law_texts_are_ordered_by_characters(a: Seq<char>, b: Seq<char>, k: int)
    requires
        0 <= k <= a.len(),
        k <= b.len(),
        forall|i: int| 0 <= i < k ==> #[trigger] a[i] == b[i],
    ensures
        k < a.len() && k < b.len() && a[k] < b[k] ==> text_le(a, b) && !text_le(b, a),
        k == a.len() ==> text_le(a, b),
        k == a.len() && k < b.len() ==> !text_le(b, a),
    decreases k,
{
    if k > 0 {
        assert(a[0] == b[0]);
        assert forall|i: int| 0 <= i < k - 1 implies #[trigger] a.skip(1)[i] == b.skip(1)[i] by {
            assert(a[i + 1] == b[i + 1]);
        }
        law_texts_are_ordered_by_characters(a.skip(1), b.skip(1), k - 1);
        if k < a.len() && k < b.len() {
            assert(a.skip(1)[k - 1] == a[k]);
            assert(b.skip(1)[k - 1] == b[k]);
        }
    }
}

/// A number in decimal is made of digits, begins with a zero only where it is zero, and is read as
/// the number that it is.
pub proof fn law_numbers_are_read_back(n: nat)
    ensures
        all_digits(decimal(n)),
        decimal(n).len() > 0,
        n > 0 ==> decimal(n)[0] != '0',
        digits_value(decimal(n)) == n,
        n <= i64::MAX ==> number_of(decimal(n)) == Some(n as i64),
        n <= i64::MAX ==> number_of(seq!['-'] + decimal(n)) == Some((-(n as int)) as i64),
        n > i64::MAX ==> number_of(decimal(n)) is None,
    decreases n,
{
    let s = decimal(n);
    if n < 10 {
        assert(s.drop_last() =~= Seq::<char>::empty());
        assert(digits_value(s.drop_last()) == 0);
        assert(s.last() as nat == '0' as nat + n);
    } else {
        law_numbers_are_read_back(n / 10);
        assert(s.drop_last() =~= decimal(n / 10));
        assert(s.last() as nat == '0' as nat + n % 10);
        assert(s[0] == decimal(n / 10)[0]);
        assert(n == 10 * (n / 10) + n % 10);
    }
    let minus = seq!['-'] + s;
    assert(minus.skip(1) =~= s);
    assert(minus[0] == '-');
    assert(is_digit(s[0]));
}

/// Whatever has a character that is no digit, but for a sign in front, is no number, and neither is
/// a sign alone.
pub proof fn law_only_digits_are_numbers(s: Seq<char>, i: int)
    ensures
        s.len() == 0 ==> number_of(s) is None,
        0 <= i < s.len() && !is_digit(s[i]) && !(i == 0 && (s[i] == '+' || s[i] == '-'))
            ==> number_of(s) is None,
        s.len() == 1 && !is_digit(s[0]) ==> number_of(s) is None,
{
    if 0 <= i < s.len() && !is_digit(s[i]) && !(i == 0 && (s[i] == '+' || s[i] == '-')) {
        let digits = unsigned_part(s);
        if digits.len() == s.len() {
            assert(digits[i] == s[i]);
        } else {
            assert(digits[i - 1] == s[i]);
        }
    }
}

/// The texts of a list that stand in another text are counted one by one: some do exactly where
/// the count is not zero, and all do exactly where it is that of the list.
pub proof fn law_every_text_is_counted_once(s: Seq<char>, list: Seq<Seq<char>>)
    ensures
        count_present(s, list) <= list.len(),
        count_present(s, list) > 0 <==> has_any(s, list),
        count_present(s, list) == list.len() <==> forall|i: int|
            0 <= i < list.len() ==> has_text(s, #[trigger] list[i]),
    decreases list.len(),
{
    if list.len() > 0 {
        let front = list.drop_last();
        law_every_text_is_counted_once(s, front);
        assert(list[list.len() - 1] == list.last());
        assert forall|i: int| 0 <= i < front.len() implies #[trigger] front[i] == list[i] by {}
        if has_any(s, front) {
            let i = choose|i: int| 0 <= i < front.len() && has_text(s, #[trigger] front[i]);
            assert(has_text(s, list[i]));
        }
        if has_any(s, list) {
            let i = choose|i: int| 0 <= i < list.len() && has_text(s, #[trigger] list[i]);
            if i < front.len() {
                assert(has_text(s, front[i]));
            }
        }
        if forall|i: int| 0 <= i < front.len() ==> has_text(s, #[trigger] front[i]) {
            if has_text(s, list.last()) {
                assert forall|i: int| 0 <= i < list.len() implies has_text(s, #[trigger] list[i]) by {
                    if i < front.len() {
                        assert(has_text(s, front[i]));
                    }
                }
            }
        } else {
            let i = choose|i: int| 0 <= i < front.len() && !has_text(s, #[trigger] front[i]);
            assert(!has_text(s, list[i]));
        }
    }
}

} // verus!
