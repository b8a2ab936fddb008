//! Sentences out of a stream of transcribed speech.

use crate::text::{
    chars_of, is_ascii_alphabetic, is_ascii_digit, is_one_of, is_whitespace, text_of, to_lower,
    trim, trim_start,
};
use vstd::prelude::*;
use vstd::slice::slice_subrange;

verus! {

// ---------------------------------------------------------------------------
// Sentences
// ---------------------------------------------------------------------------

/// The marks that may end a sentence.
pub open spec fn is_terminator(c: char) -> bool {
    c == '。' || c == '．' || c == '.' || c == '!' || c == '?' || c == '！' || c == '？'
}

/// What may stand after the end of a sentence: white space, a quotation mark or a bracket.
pub open spec fn may_follow(c: char) -> bool {
    ||| crate::text::is_white(c)
    ||| c == '"'
    ||| c == '\''
    ||| c == '”'
    ||| c == '’'
    ||| c == ')'
    ||| c == ']'
    ||| c == '}'
}

/// The abbreviations whose full stop ends no sentence.
pub open spec fn abbreviations() -> Seq<Seq<char>> {
    seq![
        "mr"@,
        "mrs"@,
        "ms"@,
        "dr"@,
        "prof"@,
        "sr"@,
        "jr"@,
        "st"@,
        "vs"@,
        "etc"@,
    ]
}

/// Where the run of ASCII letters before index `i` begins.
pub open spec fn letters_start(s: Seq<char>, i: int) -> int
    decreases i,
{
    if 0 < i <= s.len() && crate::text::is_letter(s[i - 1]) {
        letters_start(s, i - 1)
    } else {
        i
    }
}

/// Whether a sentence ends with the character at index `i`: a mark that is no decimal point and
/// belongs to no abbreviation, with nothing, white space, a quotation mark or a bracket after it.
pub open spec fn ends_sentence(s: Seq<char>, i: int) -> bool {
    &&& 0 <= i < s.len()
    &&& is_terminator(s[i])
    &&& !(s[i] == '.' && i > 0 && crate::text::is_digit(s[i - 1]) && i + 1 < s.len()
        && crate::text::is_digit(s[i + 1]))
    &&& !(s[i] == '.' && abbreviations().contains(
        crate::text::lowered(s.subrange(letters_start(s, i), i)),
    ))
    &&& i + 1 == s.len() || may_follow(s[i + 1])
}

/// The index after the first end of a sentence at or after index `i`.
pub open spec fn boundary_from(s: Seq<char>, i: int) -> Option<int>
    decreases s.len() - i,
{
    if i < 0 || i >= s.len() {
        None
    } else if ends_sentence(s, i) {
        Some(i + 1)
    } else {
        boundary_from(s, i + 1)
    }
}

/// The index after the first sentence of `s`.
pub open spec fn boundary(s: Seq<char>) -> Option<int> {
    boundary_from(s, 0)
}

proof fn lemma_boundary_from(s: Seq<char>, i: int)
    requires
        0 <= i,
    ensures
        boundary_from(s, i) matches Some(k) ==> i < k <= s.len() && ends_sentence(s, k - 1)
            && forall|j: int| i <= j < k - 1 ==> !#[trigger] ends_sentence(s, j),
        boundary_from(s, i) is None ==> forall|j: int|
            i <= j ==> !#[trigger] ends_sentence(s, j),
    decreases s.len() - i,
{
    if i < s.len() && !ends_sentence(s, i) {
        lemma_boundary_from(s, i + 1);
    }
}

fn run_of_letters(s: &[char], end: usize) -> (r: usize)
    requires
        end <= s.len(),
    ensures
        r == letters_start(s@, end as int),
        r <= end,
{
    let mut i: usize = end;
    while i > 0 && is_ascii_alphabetic(s[i - 1])
        invariant
            i <= end <= s.len(),
            letters_start(s@, end as int) == letters_start(s@, i as int),
        decreases i,
    {
        i = i - 1;
    }
    i
}

fn is_sentence_end(s: &[char], i: usize) -> (r: bool)
    requires
        i < s.len(),
    ensures
        r == ends_sentence(s@, i as int),
{
    let c = s[i];
    if !(c == '。' || c == '．' || c == '.' || c == '!' || c == '?' || c == '！' || c == '？') {
        return false;
    }
    if c == '.' && i > 0 && is_ascii_digit(s[i - 1]) && i + 1 < s.len() && is_ascii_digit(
        s[i + 1],
    ) {
        return false;
    }
    if c == '.' {
        let start = run_of_letters(s, i);
        let low = to_lower(slice_subrange(s, start, i));
        let list: [&str; 10] = ["mr", "mrs", "ms", "dr", "prof", "sr", "jr", "st", "vs", "etc"];
        assert(crate::text::strs(list@) =~= abbreviations());
        if is_one_of(low.as_slice(), &list) {
            return false;
        }
    }
    if i + 1 == s.len() {
        return true;
    }
    let next = s[i + 1];
    is_whitespace(next) || next == '"' || next == '\'' || next == '”' || next == '’' || next == ')'
        || next == ']' || next == '}'
}

/// The index after the first sentence of the text.
fn find_boundary(s: &[char]) -> (r: Option<usize>)
    ensures
        match r {
            Some(k) => boundary(s@) == Some(k as int) && 0 < k <= s.len(),
            None => boundary(s@) is None,
        },
{
    let mut i: usize = 0;
    while i < s.len()
        invariant
            i <= s.len(),
            boundary(s@) == boundary_from(s@, i as int),
        decreases s.len() - i,
    {
        if is_sentence_end(s, i) {
            return Some(i + 1);
        }
        i = i + 1;
    }
    None
}

/// The index, in bytes, after the first sentence of the text, leading white space left out.
pub fn live_sentence_boundary_index(text: &str) -> (r: Option<usize>)
    ensures
        match r {
            Some(n) => boundary(crate::text::trimmed_start(text@)) matches Some(k) && n
                == vstd::utf8::encode_utf8(crate::text::trimmed_start(text@).take(k)).len(),
            None => boundary(crate::text::trimmed_start(text@)) is None,
        },
{
    let all = chars_of(text);
    let s = trim_start(all.as_slice());
    match find_boundary(s) {
        Some(k) => {
            let head = slice_subrange(s, 0, k);
            assert(head@ =~= s@.take(k as int));
            Some(text_of(head).as_str().as_bytes().len())
        },
        None => None,
    }
}

/// The sentences of `s`, trimmed, and what is left after the last of them. With `whole`, what is
/// left counts as a sentence.
pub open spec fn split_units(s: Seq<char>, whole: bool) -> (Seq<Seq<char>>, Seq<char>)
    decreases s.len(),
{
    let t = crate::text::trimmed(s);
    if t.len() == 0 {
        (Seq::empty(), t)
    } else {
        match boundary(t) {
            Some(k) => {
                proof {
                    lemma_trimmed_len(s);
                    lemma_boundary(t);
                }
                let sentence = crate::text::trimmed(t.take(k));
                let (units, rest) = split_units(t.skip(k), whole);
                if sentence.len() > 0 {
                    (seq![sentence] + units, rest)
                } else {
                    (units, rest)
                }
            },
            None => if whole {
                (seq![t], Seq::empty())
            } else {
                (Seq::empty(), t)
            },
        }
    }
}

/// Trimming makes no text longer.
pub proof fn lemma_trimmed_len(s: Seq<char>)
    ensures
        crate::text::trimmed(s).len() <= s.len(),
{
    lemma_drop_leading_len(s, crate::text::white());
    lemma_drop_trailing_len(crate::text::trimmed_start(s), crate::text::white());
}

proof fn lemma_drop_leading_len(s: Seq<char>, p: spec_fn(char) -> bool)
    ensures
        crate::text::drop_leading(s, p).len() <= s.len(),
    decreases s.len(),
{
    if s.len() > 0 && p(s[0]) {
        lemma_drop_leading_len(s.skip(1), p);
    }
}

proof fn lemma_drop_trailing_len(s: Seq<char>, p: spec_fn(char) -> bool)
    ensures
        crate::text::drop_trailing(s, p).len() <= s.len(),
    decreases s.len(),
{
    if s.len() > 0 && p(s.last()) {
        lemma_drop_trailing_len(s.drop_last(), p);
    }
}

/// A sentence has at least one character.
pub proof fn lemma_boundary(s: Seq<char>)
    ensures
        boundary(s) matches Some(k) ==> 0 < k <= s.len(),
{
    lemma_boundary_from(s, 0);
}

/// Splits a text into its sentences, and what is left after the last of them. With
/// `include_remainder`, what is left counts as a sentence.
pub fn split_live_source_units(text: &str, include_remainder: bool) -> (r: (Vec<String>, String))
    ensures
        (crate::text::texts(r.0@), r.1@) == split_units(text@, include_remainder),
{
    let all = chars_of(text);
    let mut units: Vec<String> = Vec::new();
    let mut rest = trim(all.as_slice());
    let ghost mut tail = text@;
    proof {
        lemma_trimmed_len(text@);
        assert(crate::text::texts(units@) =~= Seq::empty());
        assert(Seq::empty() + split_units(text@, include_remainder).0 =~= split_units(
            text@,
            include_remainder,
        ).0);
    }
    while rest.len() > 0
        invariant
            rest@ == crate::text::trimmed(tail),
            split_units(text@, include_remainder).0 == crate::text::texts(units@) + split_units(
                tail,
                include_remainder,
            ).0,
            split_units(text@, include_remainder).1 == split_units(tail, include_remainder).1,
        decreases rest@.len(),
    {
        let ghost before = crate::text::texts(units@);
        match find_boundary(rest) {
            None => {
                if include_remainder {
                    let unit = text_of(rest);
                    units.push(unit);
                    assert(crate::text::texts(units@) =~= before.push(rest@));
                    assert(before + seq![rest@] =~= before.push(rest@));
                    let nothing = String::new();
                    assert(nothing@ =~= Seq::empty());
                    return (units, nothing);
                } else {
                    assert(before + Seq::<Seq<char>>::empty() =~= before);
                    return (units, text_of(rest));
                }
            },
            Some(k) => {
                let head = slice_subrange(rest, 0, k);
                assert(head@ =~= rest@.take(k as int));
                let sentence = trim(head);
                let after = slice_subrange(rest, k, rest.len());
                assert(after@ =~= rest@.skip(k as int));
                if sentence.len() > 0 {
                    units.push(text_of(sentence));
                    assert(crate::text::texts(units@) =~= before.push(sentence@));
                    assert(before.push(sentence@) + split_units(after@, include_remainder).0
                        =~= before + (seq![sentence@] + split_units(after@, include_remainder).0));
                }
                proof {
                    lemma_trimmed_len(after@);
                    tail = after@;
                }
                rest = trim(after);
            },
        }
    }
    assert(crate::text::texts(units@) + Seq::<Seq<char>>::empty() =~= crate::text::texts(units@));
    (units, text_of(rest))
}

// ---------------------------------------------------------------------------
// No word is lost
// ---------------------------------------------------------------------------

/// `s` without white space.
pub open spec fn squeezed(s: Seq<char>) -> Seq<char> {
    s.filter(|c: char| !crate::text::is_white(c))
}

/// The texts of a list one after the other, without white space.
pub open spec fn spoken(list: Seq<Seq<char>>) -> Seq<char>
    decreases list.len(),
{
    if list.len() == 0 {
        Seq::empty()
    } else {
        spoken(list.drop_last()) + squeezed(list.last())
    }
}

pub proof fn lemma_squeezed_append(a: Seq<char>, b: Seq<char>)
    ensures
        squeezed(a + b) == squeezed(a) + squeezed(b),
{
    Seq::filter_distributes_over_add(a, b, |c: char| !crate::text::is_white(c));
}

pub proof fn lemma_squeezed_one(c: char)
    requires
        crate::text::is_white(c),
    ensures
        squeezed(seq![c]) == Seq::<char>::empty(),
{
    let s = seq![c];
    reveal_with_fuel(Seq::filter, 2);
    assert(s.drop_last() =~= Seq::empty());
    assert(s.last() == c);
}

proof fn lemma_squeezed_trim_start(s: Seq<char>)
    ensures
        squeezed(crate::text::trimmed_start(s)) == squeezed(s),
    decreases s.len(),
{
    if s.len() > 0 && crate::text::is_white(s[0]) {
        lemma_squeezed_trim_start(s.skip(1));
        lemma_squeezed_one(s[0]);
        lemma_squeezed_append(seq![s[0]], s.skip(1));
        assert(seq![s[0]] + s.skip(1) =~= s);
        assert(Seq::<char>::empty() + squeezed(s.skip(1)) =~= squeezed(s.skip(1)));
    }
}

proof fn lemma_squeezed_trim_end(s: Seq<char>)
    ensures
        squeezed(crate::text::trimmed_end(s)) == squeezed(s),
    decreases s.len(),
{
    if s.len() > 0 && crate::text::is_white(s.last()) {
        lemma_squeezed_trim_end(s.drop_last());
        lemma_squeezed_one(s.last());
        lemma_squeezed_append(s.drop_last(), seq![s.last()]);
        assert(s.drop_last() + seq![s.last()] =~= s);
        assert(squeezed(s.drop_last()) + Seq::<char>::empty() =~= squeezed(s.drop_last()));
    }
}

/// Trimming takes away white space alone.
pub proof fn lemma_squeezed_trimmed(s: Seq<char>)
    ensures
        squeezed(crate::text::trimmed(s)) == squeezed(s),
{
    lemma_squeezed_trim_start(s);
    lemma_squeezed_trim_end(crate::text::trimmed_start(s));
}

pub proof fn lemma_spoken_append(a: Seq<Seq<char>>, b: Seq<Seq<char>>)
    ensures
        spoken(a + b) == spoken(a) + spoken(b),
    decreases b.len(),
{
    if b.len() == 0 {
        assert(a + b =~= a);
        assert(spoken(a) + Seq::<char>::empty() =~= spoken(a));
    } else {
        assert((a + b).drop_last() =~= a + b.drop_last());
        lemma_spoken_append(a, b.drop_last());
        assert(spoken(a) + spoken(b.drop_last()) + squeezed(b.last()) =~= spoken(a) + (spoken(
            b.drop_last(),
        ) + squeezed(b.last())));
    }
}

proof fn lemma_spoken_one(t: Seq<char>)
    ensures
        spoken(seq![t]) == squeezed(t),
{
    assert(seq![t].drop_last() =~= Seq::<Seq<char>>::empty());
    reveal_with_fuel(spoken, 2);
    assert(Seq::<char>::empty() + squeezed(t) =~= squeezed(t));
}

/// Splitting into sentences loses and adds nothing but white space: the sentences and what is left
/// after them are the text. And no sentence is empty, and there are no more of them than
/// characters.
pub proof fn law_splitting_keeps_every_word(s: Seq<char>, whole: bool)
    ensures
        spoken(split_units(s, whole).0) + squeezed(split_units(s, whole).1) == squeezed(s),
        split_units(s, whole).0.len() <= s.len(),
        forall|i: int|
            0 <= i < split_units(s, whole).0.len() ==> (#[trigger] split_units(s, whole).0[i]).len()
                > 0,
        whole ==> split_units(s, whole).1.len() == 0,
    decreases s.len(),
{
    let t = crate::text::trimmed(s);
    lemma_trimmed_len(s);
    lemma_squeezed_trimmed(s);
    if t.len() == 0 {
        assert(spoken(Seq::empty()) + squeezed(t) =~= squeezed(t));
    } else {
        lemma_boundary(t);
        match boundary(t) {
            Some(k) => {
                let sentence = crate::text::trimmed(t.take(k));
                let (units, rest) = split_units(t.skip(k), whole);
                law_splitting_keeps_every_word(t.skip(k), whole);
                lemma_squeezed_trimmed(t.take(k));
                lemma_squeezed_append(t.take(k), t.skip(k));
                assert(t.take(k) + t.skip(k) =~= t);
                if sentence.len() > 0 {
                    lemma_spoken_append(seq![sentence], units);
                    lemma_spoken_one(sentence);
                    assert(squeezed(sentence) + spoken(units) + squeezed(rest) =~= squeezed(
                        sentence,
                    ) + (spoken(units) + squeezed(rest)));
                    let all = seq![sentence] + units;
                    assert forall|i: int| 0 <= i < all.len() implies (#[trigger] all[i]).len()
                        > 0 by {
                        if i > 0 {
                            assert(all[i] == units[i - 1]);
                        }
                    }
                } else {
                    assert(sentence =~= Seq::empty());
                    assert(squeezed(Seq::<char>::empty()) =~= Seq::<char>::empty()) by {
                        reveal_with_fuel(Seq::filter, 1);
                    }
                    assert(Seq::<char>::empty() + squeezed(t.skip(k)) =~= squeezed(t.skip(k)));
                }
            },
            None => {
                if whole {
                    lemma_spoken_one(t);
                    assert(squeezed(Seq::<char>::empty()) =~= Seq::<char>::empty()) by {
                        reveal_with_fuel(Seq::filter, 1);
                    }
                    assert(squeezed(t) + Seq::<char>::empty() =~= squeezed(t));
                } else {
                    assert(spoken(Seq::empty()) + squeezed(t) =~= squeezed(t));
                }
            },
        }
    }
}

// ---------------------------------------------------------------------------
// Where sentences end
// ---------------------------------------------------------------------------

/// Whether the letters right before index `i`, all of them, are one of the abbreviations that a full
/// stop is written after.
pub open spec fn after_abbreviation(s: Seq<char>, i: int) -> bool {
    exists|k: int| #[trigger] spells_abbreviation(s, k, i)
}

/// Whether the letters of `s` from index `k` to index `i`, and no more before them, are one of the
/// abbreviations that a full stop is written after.
pub open spec fn spells_abbreviation(s: Seq<char>, k: int, i: int) -> bool {
    let w = crate::text::lowered(s.subrange(k, i));
    &&& 0 <= k <= i <= s.len()
    &&& k == 0 || !('a' <= s[k - 1] && s[k - 1] <= 'z' || 'A' <= s[k - 1] && s[k - 1] <= 'Z')
    &&& w == "mr"@ || w == "mrs"@ || w == "ms"@ || w == "dr"@ || w == "prof"@ || w == "sr"@ || w
        == "jr"@ || w == "st"@ || w == "vs"@ || w == "etc"@
}

proof fn lemma_letters_start(s: Seq<char>, i: int)
    requires
        0 <= i <= s.len(),
    ensures
        0 <= letters_start(s, i) <= i,
        letters_start(s, i) > 0 ==> !crate::text::is_letter(s[letters_start(s, i) - 1]),
        forall|j: int| letters_start(s, i) <= j < i ==> crate::text::is_letter(#[trigger] s[j]),
    decreases i,
{
    if i > 0 && crate::text::is_letter(s[i - 1]) {
        lemma_letters_start(s, i - 1);
    }
}

/// The abbreviations are made of small letters.
proof fn lemma_abbreviation_letters(w: Seq<char>)
    requires
        abbreviations().contains(w),
    ensures
        w.len() > 0,
        forall|j: int| 0 <= j < w.len() ==> 'a' <= #[trigger] w[j] && w[j] <= 'z',
{
    reveal_strlit("mr");
    reveal_strlit("mrs");
    reveal_strlit("ms");
    reveal_strlit("dr");
    reveal_strlit("prof");
    reveal_strlit("sr");
    reveal_strlit("jr");
    reveal_strlit("st");
    reveal_strlit("vs");
    reveal_strlit("etc");
    let list = abbreviations();
    let n = choose|n: int| 0 <= n < list.len() && list[n] == w;
    assert(w == list[n]);
}

proof fn lemma_abbreviations_are(w: Seq<char>)
    ensures
        abbreviations().contains(w) <==> (w == "mr"@ || w == "mrs"@ || w == "ms"@ || w == "dr"@
            || w == "prof"@ || w == "sr"@ || w == "jr"@ || w == "st"@ || w == "vs"@ || w
            == "etc"@),
{
    let list = abbreviations();
    assert(list[0] == "mr"@ && list[1] == "mrs"@ && list[2] == "ms"@ && list[3] == "dr"@);
    assert(list[4] == "prof"@ && list[5] == "sr"@ && list[6] == "jr"@ && list[7] == "st"@);
    assert(list[8] == "vs"@ && list[9] == "etc"@);
    if list.contains(w) {
        let n = choose|n: int| 0 <= n < list.len() && list[n] == w;
        assert(w == list[n]);
    }
}

/// What stands right before a full stop is an abbreviation exactly where its letters are one.
proof fn lemma_after_abbreviation(s: Seq<char>, i: int)
    requires
        0 <= i <= s.len(),
    ensures
        after_abbreviation(s, i) == abbreviations().contains(
            crate::text::lowered(s.subrange(letters_start(s, i), i)),
        ),
{
    let k = letters_start(s, i);
    lemma_letters_start(s, i);
    lemma_abbreviations_are(crate::text::lowered(s.subrange(k, i)));
    if abbreviations().contains(crate::text::lowered(s.subrange(k, i))) {
        assert(spells_abbreviation(s, k, i));
    }
    if after_abbreviation(s, i) {
        let m = choose|m: int| #[trigger] spells_abbreviation(s, m, i);
        let part = s.subrange(m, i);
        let w = crate::text::lowered(part);
        lemma_abbreviations_are(w);
        lemma_abbreviation_letters(w);
        assert forall|j: int| m <= j < i implies crate::text::is_letter(#[trigger] s[j]) by {
            assert('a' <= w[j - m] && w[j - m] <= 'z');
            assert(w[j - m] == crate::text::lower_char(s[j]));
        }
        if k < m {
            assert(crate::text::is_letter(s[m - 1]));
        }
        if m < k {
            assert(crate::text::is_letter(s[k - 1]));
        }
    }
}

/// A sentence is cut off as soon as it is whole. It ends with the first of the marks `。．.!?！？`
/// that has nothing, white space, a quotation mark or a closing bracket after it; a full stop after
/// an abbreviation does not count. What follows is split on its own.
pub proof fn law_sentences_end_at_marks(a: Seq<char>, b: Seq<char>, whole: bool)
    requires
        a.len() > 0,
        !crate::text::is_white(a[0]),
        a.last() == '。' || a.last() == '．' || a.last() == '.' || a.last() == '!' || a.last() == '?'
            || a.last() == '！' || a.last() == '？',
        a.last() == '.' ==> !after_abbreviation(a, a.len() - 1) && !(a.len() > 1 && '0' <= a[a.len()
            - 2] && a[a.len() - 2] <= '9' && b.len() > 0 && '0' <= b[0] && b[0] <= '9'),
        forall|j: int|
            0 <= j < a.len() - 1 && (a[j] == '。' || a[j] == '．' || a[j] == '.' || a[j] == '!'
                || a[j] == '?' || a[j] == '！' || a[j] == '？') ==> (#[trigger] a[j]) == '.'
                && after_abbreviation(a, j) || !(crate::text::is_white(a[j + 1]) || a[j + 1] == '"'
                || a[j + 1] == '\'' || a[j + 1] == '”' || a[j + 1] == '’' || a[j + 1] == ')' || a[j
                + 1] == ']' || a[j + 1] == '}'),
        b.len() == 0 || crate::text::is_white(b[0]) || b[0] == '"' || b[0] == '\'' || b[0] == '”'
            || b[0] == '’' || b[0] == ')' || b[0] == ']' || b[0] == '}',
    ensures
        split_units(a + b, whole).0 == seq![a] + split_units(b, whole).0,
        split_units(a + b, whole).1 == split_units(b, whole).1,
{
    let s = a + b;
    let n = a.len() as int;
    let t = crate::text::trimmed(s);
    let (i, e) = crate::text::lemma_trimmed(s);
    assert(s[0] == a[0]);
    assert(s[n - 1] == a.last());
    assert(!crate::text::is_white(a.last()));
    assert(i == 0 && n <= e);
    assert(t.take(n) =~= a);
    assert forall|j: int| 0 <= j < n implies #[trigger] ends_sentence(t, j) == (j == n - 1) by {
        assert(t[j] == a[j]);
        lemma_after_abbreviation(t, j);
        lemma_after_abbreviation(a, j);
        lemma_same_letters(t, a, j);
        if j < n - 1 {
            assert(t[j + 1] == a[j + 1]);
        } else if n < t.len() {
            assert(t[n] == b[0]);
        }
    }
    lemma_boundary_from(t, 0);
    assert(ends_sentence(t, n - 1));
    assert(boundary(t) == Some(n));
    crate::text::lemma_trimmed_is(a, 0, n);
    assert(a.subrange(0, n) =~= a);
    let rest = t.skip(n);
    let v = b.skip(e - n);
    assert(rest =~= b.take(e - n));
    assert(crate::text::all_white(v)) by {
        assert forall|j: int| 0 <= j < v.len() implies crate::text::is_white(#[trigger] v[j]) by {
            assert(v[j] == s[e + j]);
        }
    }
    crate::text::lemma_trimmed_around(Seq::empty(), rest, v);
    assert(Seq::<char>::empty() + rest + v =~= b);
    assert(split_units(rest, whole) == split_units(b, whole));
}

/// The letters before an index are the same in texts that begin alike.
proof fn lemma_same_letters(s: Seq<char>, a: Seq<char>, i: int)
    requires
        0 <= i <= a.len() <= s.len(),
        s.take(a.len() as int) == a,
    ensures
        letters_start(s, i) == letters_start(a, i),
        s.subrange(letters_start(s, i), i) == a.subrange(letters_start(s, i), i),
    decreases i,
{
    lemma_letters_start(s, i);
    if i > 0 {
        assert(a[i - 1] == s[i - 1]);
        lemma_same_letters(s, a, i - 1);
    }
    assert(s.subrange(letters_start(s, i), i) =~= a.subrange(letters_start(s, i), i));
}

/// A text that is one whole sentence is cut off at once, and nothing waits.
pub proof fn law_whole_sentence_is_cut_off(s: Seq<char>, whole: bool)
    requires
        s.len() > 0,
        !crate::text::is_white(s[0]),
        s.last() == '。' || s.last() == '．' || s.last() == '.' || s.last() == '!' || s.last() == '?'
            || s.last() == '！' || s.last() == '？',
        s.last() == '.' ==> !after_abbreviation(s, s.len() - 1),
        forall|j: int|
            0 <= j < s.len() - 1 && (s[j] == '。' || s[j] == '．' || s[j] == '.' || s[j] == '!'
                || s[j] == '?' || s[j] == '！' || s[j] == '？') ==> (#[trigger] s[j]) == '.'
                && after_abbreviation(s, j) || !(crate::text::is_white(s[j + 1]) || s[j + 1] == '"'
                || s[j + 1] == '\'' || s[j + 1] == '”' || s[j + 1] == '’' || s[j + 1] == ')' || s[j
                + 1] == ']' || s[j + 1] == '}'),
    ensures
        split_units(s, whole).0 == seq![s],
        split_units(s, whole).1.len() == 0,
{
    let none = Seq::<char>::empty();
    law_sentences_end_at_marks(s, none, whole);
    assert(s + none =~= s);
    crate::text::lemma_trimmed_is(none, 0, 0);
    assert(crate::text::trimmed(none) =~= none);
    assert(seq![s] + split_units(none, whole).0 =~= seq![s]);
}

/// Where no sentence has ended, the whole text waits; at the end of a session it is one sentence. No
/// sentence ends with a mark that has more text right after it, nor with a decimal point, nor with
/// the full stop after an abbreviation.
pub proof fn law_unfinished_sentence_waits(s: Seq<char>)
    requires
        s.len() > 0,
        !crate::text::is_white(s[0]),
        !crate::text::is_white(s.last()),
        forall|j: int|
            0 <= j < s.len() && (s[j] == '。' || s[j] == '．' || s[j] == '.' || s[j] == '!' || s[j]
                == '?' || s[j] == '！' || s[j] == '？') ==> (#[trigger] s[j]) == '.'
                && after_abbreviation(s, j) || j + 1 < s.len() && !(crate::text::is_white(s[j + 1])
                || s[j + 1] == '"' || s[j + 1] == '\'' || s[j + 1] == '”' || s[j + 1] == '’' || s[j
                + 1] == ')' || s[j + 1] == ']' || s[j + 1] == '}'),
    ensures
        split_units(s, false).0.len() == 0,
        split_units(s, false).1 == s,
        split_units(s, true).0 == seq![s],
        split_units(s, true).1.len() == 0,
{
    let n = s.len() as int;
    crate::text::lemma_trimmed_is(s, 0, n);
    assert(s.subrange(0, n) =~= s);
    assert forall|j: int| 0 <= j implies !#[trigger] ends_sentence(s, j) by {
        if j < n {
            lemma_after_abbreviation(s, j);
            assert(s[j] == s[j]);
        }
    }
    lemma_boundary_from(s, 0);
    assert(boundary(s) is None);
}

} // verus!
