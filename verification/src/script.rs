//! Which writing system a text is in, and the guard against a refinement that leaves it.

use crate::text::chars_of;
use vstd::prelude::*;

verus! {

#[derive(Clone, Copy, Debug, PartialEq, Eq, Structural)]
pub enum TextScript {
    Latin,
    Japanese,
    Cjk,
    Hangul,
    Cyrillic,
    Arabic,
    Devanagari,
    Thai,
}

/// How many characters of a text belong to each writing system.
pub struct TextScriptCounts {
    pub latin: usize,
    pub cjk: usize,
    pub kana: usize,
    pub hangul: usize,
    pub cyrillic: usize,
    pub arabic: usize,
    pub devanagari: usize,
    pub thai: usize,
}

pub open spec fn is_latin(c: char) -> bool {
    ||| 'a' <= c && c <= 'z'
    ||| 'A' <= c && c <= 'Z'
    ||| '\u{00C0}' <= c && c <= '\u{024F}'
    ||| '\u{1E00}' <= c && c <= '\u{1EFF}'
}

pub open spec fn is_kana(c: char) -> bool {
    '\u{3040}' <= c && c <= '\u{30FF}'
}

pub open spec fn is_cjk(c: char) -> bool {
    ||| '\u{4E00}' <= c && c <= '\u{9FFF}'
    ||| '\u{3400}' <= c && c <= '\u{4DBF}'
}

pub open spec fn is_hangul(c: char) -> bool {
    ||| '\u{AC00}' <= c && c <= '\u{D7AF}'
    ||| '\u{1100}' <= c && c <= '\u{11FF}'
}

pub open spec fn is_cyrillic(c: char) -> bool {
    '\u{0400}' <= c && c <= '\u{04FF}'
}

pub open spec fn is_arabic(c: char) -> bool {
    '\u{0600}' <= c && c <= '\u{06FF}'
}

pub open spec fn is_devanagari(c: char) -> bool {
    '\u{0900}' <= c && c <= '\u{097F}'
}

pub open spec fn is_thai(c: char) -> bool {
    '\u{0E00}' <= c && c <= '\u{0E7F}'
}

/// How many characters of `s` meet `p`.
pub open spec fn count_of(s: Seq<char>, p: spec_fn(char) -> bool) -> nat
    decreases s.len(),
{
    if s.len() == 0 {
        0
    } else {
        count_of(s.drop_last(), p) + if p(s.last()) {
            1nat
        } else {
            0nat
        }
    }
}

pub open spec fn latin_count(s: Seq<char>) -> nat {
    count_of(s, |c: char| is_latin(c))
}

pub open spec fn kana_count(s: Seq<char>) -> nat {
    count_of(s, |c: char| is_kana(c))
}

pub open spec fn cjk_count(s: Seq<char>) -> nat {
    count_of(s, |c: char| is_cjk(c))
}

pub open spec fn hangul_count(s: Seq<char>) -> nat {
    count_of(s, |c: char| is_hangul(c))
}

pub open spec fn cyrillic_count(s: Seq<char>) -> nat {
    count_of(s, |c: char| is_cyrillic(c))
}

pub open spec fn arabic_count(s: Seq<char>) -> nat {
    count_of(s, |c: char| is_arabic(c))
}

pub open spec fn devanagari_count(s: Seq<char>) -> nat {
    count_of(s, |c: char| is_devanagari(c))
}

pub open spec fn thai_count(s: Seq<char>) -> nat {
    count_of(s, |c: char| is_thai(c))
}

/// How many characters of `s` belong to any of the writing systems.
pub open spec fn script_total(s: Seq<char>) -> nat {
    latin_count(s) + cjk_count(s) + kana_count(s) + hangul_count(s) + cyrillic_count(s)
        + arabic_count(s) + devanagari_count(s) + thai_count(s)
}

impl TextScriptCounts {
    /// The sum of all counts.
    pub open spec fn sum(&self) -> int {
        self.latin + self.cjk + self.kana + self.hangul + self.cyrillic + self.arabic
            + self.devanagari + self.thai
    }

    /// Whether these are the counts of the text `s`.
    pub open spec fn counts(&self, s: Seq<char>) -> bool {
        &&& self.latin == latin_count(s)
        &&& self.cjk == cjk_count(s)
        &&& self.kana == kana_count(s)
        &&& self.hangul == hangul_count(s)
        &&& self.cyrillic == cyrillic_count(s)
        &&& self.arabic == arabic_count(s)
        &&& self.devanagari == devanagari_count(s)
        &&& self.thai == thai_count(s)
    }

    /// The number of characters counted in all.
    pub fn total(&self) -> (r: usize)
        requires
            self.sum() <= usize::MAX,
        ensures
            r == self.sum(),
    {
        self.latin + self.cjk + self.kana + self.hangul + self.cyrillic + self.arabic
            + self.devanagari + self.thai
    }
}

/// Counts the characters of `text` by writing system.
pub fn count_text_scripts(text: &str) -> (r: TextScriptCounts)
    ensures
        r.counts(text@),
        r.sum() == script_total(text@),
        r.sum() <= usize::MAX,
{
    let s = chars_of(text);
    let mut counts = TextScriptCounts {
        latin: 0,
        cjk: 0,
        kana: 0,
        hangul: 0,
        cyrillic: 0,
        arabic: 0,
        devanagari: 0,
        thai: 0,
    };
    let mut i: usize = 0;
    while i < s.len()
        invariant
            i <= s.len(),
            counts.counts(s@.take(i as int)),
            counts.sum() <= i,
        decreases s.len() - i,
    {
        let ch = s[i];
        proof {
            assert(s@.take(i + 1).drop_last() =~= s@.take(i as int));
            assert(s@.take(i + 1).last() == ch);
        }
        if ('a' <= ch && ch <= 'z') || ('A' <= ch && ch <= 'Z') {
            counts.latin = counts.latin + 1;
        } else if ('\u{00C0}' <= ch && ch <= '\u{024F}') || ('\u{1E00}' <= ch && ch <= '\u{1EFF}') {
            counts.latin = counts.latin + 1;
        } else if '\u{3040}' <= ch && ch <= '\u{30FF}' {
            counts.kana = counts.kana + 1;
        } else if ('\u{4E00}' <= ch && ch <= '\u{9FFF}') || ('\u{3400}' <= ch && ch <= '\u{4DBF}') {
            counts.cjk = counts.cjk + 1;
        } else if ('\u{AC00}' <= ch && ch <= '\u{D7AF}') || ('\u{1100}' <= ch && ch <= '\u{11FF}') {
            counts.hangul = counts.hangul + 1;
        } else if '\u{0400}' <= ch && ch <= '\u{04FF}' {
            counts.cyrillic = counts.cyrillic + 1;
        } else if '\u{0600}' <= ch && ch <= '\u{06FF}' {
            counts.arabic = counts.arabic + 1;
        } else if '\u{0900}' <= ch && ch <= '\u{097F}' {
            counts.devanagari = counts.devanagari + 1;
        } else if '\u{0E00}' <= ch && ch <= '\u{0E7F}' {
            counts.thai = counts.thai + 1;
        }
        i = i + 1;
    }
    assert(s@.take(s@.len() as int) =~= s@);
    counts
}

/// The entry with the greatest count among those of at least three characters; of equal ones, the
/// last.
pub open spec fn leading(list: Seq<(TextScript, nat)>) -> Option<(TextScript, nat)>
    decreases list.len(),
{
    if list.len() == 0 {
        None
    } else {
        let rest = leading(list.drop_last());
        let (script, count) = list.last();
        if count >= 3 && (rest matches Some((_, best)) ==> best <= count) {
            Some((script, count))
        } else {
            rest
        }
    }
}

/// The writing systems other than Japanese with their counts in `s`.
pub open spec fn candidates(s: Seq<char>) -> Seq<(TextScript, nat)> {
    seq![
        (TextScript::Latin, latin_count(s)),
        (TextScript::Cjk, cjk_count(s)),
        (TextScript::Hangul, hangul_count(s)),
        (TextScript::Cyrillic, cyrillic_count(s)),
        (TextScript::Arabic, arabic_count(s)),
        (TextScript::Devanagari, devanagari_count(s)),
        (TextScript::Thai, thai_count(s)),
    ]
}

/// The writing system that a text is in, where it has at least three characters of one. Kana
/// beside ideographs are Japanese.
pub open spec fn dominant(s: Seq<char>) -> Option<TextScript> {
    if script_total(s) < 3 {
        None
    } else if kana_count(s) > 0 && kana_count(s) + cjk_count(s) >= 3 {
        Some(TextScript::Japanese)
    } else {
        match leading(candidates(s)) {
            Some((script, _)) => Some(script),
            None => None,
        }
    }
}

/// The writing system that `text` is in.
pub fn dominant_text_script(text: &str) -> (r: Option<TextScript>)
    ensures
        r == dominant(text@),
{
    let counts = count_text_scripts(text);
    if counts.total() < 3 {
        return None;
    }
    if counts.kana > 0 && counts.kana + counts.cjk >= 3 {
        return Some(TextScript::Japanese);
    }
    let list: [(TextScript, usize); 7] = [
        (TextScript::Latin, counts.latin),
        (TextScript::Cjk, counts.cjk),
        (TextScript::Hangul, counts.hangul),
        (TextScript::Cyrillic, counts.cyrillic),
        (TextScript::Arabic, counts.arabic),
        (TextScript::Devanagari, counts.devanagari),
        (TextScript::Thai, counts.thai),
    ];
    let ghost all = candidates(text@);
    assert(forall|j: int|
        0 <= j < 7 ==> all[j] == (#[trigger] list@[j].0, list@[j].1 as nat));
    let mut best: Option<(TextScript, usize)> = None;
    let mut i: usize = 0;
    while i < 7
        invariant
            i <= 7,
            all.len() == 7,
            forall|j: int| 0 <= j < 7 ==> all[j] == (#[trigger] list@[j].0, list@[j].1 as nat),
            match best {
                Some((script, count)) => leading(all.take(i as int)) == Some(
                    (script, count as nat),
                ),
                None => leading(all.take(i as int)) is None,
            },
        decreases 7 - i,
    {
        let (script, count) = list[i];
        assert(all.take(i + 1).drop_last() =~= all.take(i as int));
        assert(all.take(i + 1).last() == (list@[i as int].0, list@[i as int].1 as nat));
        let better = match best {
            Some((_, top)) => top <= count,
            None => true,
        };
        if count >= 3 && better {
            best = Some((script, count));
        }
        i = i + 1;
    }
    assert(all.take(7) =~= all);
    match best {
        Some((script, _)) => Some(script),
        None => None,
    }
}

/// The instruction that keeps a model in the writing system of its input.
pub open spec fn guard_instruction(script: Option<TextScript>) -> Seq<char> {
    match script {
        Some(
            TextScript::Latin,
        ) => "Detected input script: Latin. The output must remain in the same Latin-script language as the input. Do not output Chinese, Japanese, Korean, Cyrillic, Arabic, or another script."@,
        Some(
            TextScript::Japanese,
        ) => "Detected input language/script: Japanese. The output must remain Japanese. Do not translate it into Chinese, English, Korean, or any other language."@,
        Some(
            TextScript::Cjk,
        ) => "Detected input script: CJK ideographs. Preserve the same source language and script. Do not switch between Chinese, Japanese, Korean, or another language."@,
        Some(
            TextScript::Hangul,
        ) => "Detected input script: Korean Hangul. The output must remain Korean Hangul."@,
        Some(
            TextScript::Cyrillic,
        ) => "Detected input script: Cyrillic. The output must remain in the same Cyrillic-script language."@,
        Some(
            TextScript::Arabic,
        ) => "Detected input script: Arabic. The output must remain in the same Arabic-script language."@,
        Some(
            TextScript::Devanagari,
        ) => "Detected input script: Devanagari. The output must remain in the same Devanagari-script language."@,
        Some(TextScript::Thai) => "Detected input script: Thai. The output must remain Thai."@,
        None => "Preserve the input language and script exactly. Do not translate."@,
    }
}

/// The instruction that keeps a model in the writing system of `source_text`.
pub fn refinement_language_guard_instruction(source_text: &str) -> (r: &'static str)
    ensures
        r@ == guard_instruction(dominant(source_text@)),
{
    match dominant_text_script(source_text) {
        Some(
            TextScript::Latin,
        ) => "Detected input script: Latin. The output must remain in the same Latin-script language as the input. Do not output Chinese, Japanese, Korean, Cyrillic, Arabic, or another script.",
        Some(
            TextScript::Japanese,
        ) => "Detected input language/script: Japanese. The output must remain Japanese. Do not translate it into Chinese, English, Korean, or any other language.",
        Some(
            TextScript::Cjk,
        ) => "Detected input script: CJK ideographs. Preserve the same source language and script. Do not switch between Chinese, Japanese, Korean, or another language.",
        Some(
            TextScript::Hangul,
        ) => "Detected input script: Korean Hangul. The output must remain Korean Hangul.",
        Some(
            TextScript::Cyrillic,
        ) => "Detected input script: Cyrillic. The output must remain in the same Cyrillic-script language.",
        Some(
            TextScript::Arabic,
        ) => "Detected input script: Arabic. The output must remain in the same Arabic-script language.",
        Some(
            TextScript::Devanagari,
        ) => "Detected input script: Devanagari. The output must remain in the same Devanagari-script language.",
        Some(TextScript::Thai) => "Detected input script: Thai. The output must remain Thai.",
        None => "Preserve the input language and script exactly. Do not translate.",
    }
}

/// Whether both texts are in a known writing system, and not in the same one.
pub open spec fn language_changed(source: Seq<char>, refined: Seq<char>) -> bool {
    match (dominant(source), dominant(refined)) {
        (Some(a), Some(b)) => a != b,
        _ => false,
    }
}

/// Whether a refinement has left the writing system of its source. A few proper nouns in another
/// script are fine; a switch of the dominant script is not.
pub fn refinement_language_changed(source_text: &str, refined_text: &str) -> (r: bool)
    ensures
        r == language_changed(source_text@, refined_text@),
{
    match (dominant_text_script(source_text), dominant_text_script(refined_text)) {
        (Some(source_script), Some(refined_script)) => source_script != refined_script,
        _ => false,
    }
}

/// A text is never taken for a change of its own writing system, and a change shows both ways.
pub proof fn law_guard_is_a_difference(source: Seq<char>, refined: Seq<char>)
    ensures
        !language_changed(source, source),
        dominant(source) == dominant(refined) ==> !language_changed(source, refined),
        language_changed(source, refined) == language_changed(refined, source),
{
}

/// How many characters meet a predicate, of two texts in a row.
pub proof fn lemma_count_append(a: Seq<char>, b: Seq<char>, p: spec_fn(char) -> bool)
    ensures
        count_of(a + b, p) == count_of(a, p) + count_of(b, p),
    decreases b.len(),
{
    if b.len() == 0 {
        assert(a + b =~= a);
    } else {
        assert((a + b).drop_last() =~= a + b.drop_last());
        lemma_count_append(a, b.drop_last(), p);
    }
}

/// The counts do not depend on where in a text a character stands: texts that are the same but
/// for the order of two parts are in the same writing system.
pub proof fn law_script_ignores_order(a: Seq<char>, b: Seq<char>)
    ensures
        dominant(a + b) == dominant(b + a),
        !language_changed(a + b, b + a),
{
    lemma_count_append(a, b, |c: char| is_latin(c));
    lemma_count_append(b, a, |c: char| is_latin(c));
    lemma_count_append(a, b, |c: char| is_kana(c));
    lemma_count_append(b, a, |c: char| is_kana(c));
    lemma_count_append(a, b, |c: char| is_cjk(c));
    lemma_count_append(b, a, |c: char| is_cjk(c));
    lemma_count_append(a, b, |c: char| is_hangul(c));
    lemma_count_append(b, a, |c: char| is_hangul(c));
    lemma_count_append(a, b, |c: char| is_cyrillic(c));
    lemma_count_append(b, a, |c: char| is_cyrillic(c));
    lemma_count_append(a, b, |c: char| is_arabic(c));
    lemma_count_append(b, a, |c: char| is_arabic(c));
    lemma_count_append(a, b, |c: char| is_devanagari(c));
    lemma_count_append(b, a, |c: char| is_devanagari(c));
    lemma_count_append(a, b, |c: char| is_thai(c));
    lemma_count_append(b, a, |c: char| is_thai(c));
    assert(candidates(a + b) =~= candidates(b + a));
}

// ---------------------------------------------------------------------------
// Texts in one writing system
// ---------------------------------------------------------------------------

proof fn lemma_count_all(s: Seq<char>, p: spec_fn(char) -> bool)
    requires
        forall|i: int| 0 <= i < s.len() ==> p(#[trigger] s[i]),
    ensures
        count_of(s, p) == s.len(),
    decreases s.len(),
{
    if s.len() > 0 {
        let head = s.drop_last();
        assert forall|i: int| 0 <= i < head.len() implies p(#[trigger] head[i]) by {
            assert(head[i] == s[i]);
        }
        lemma_count_all(head, p);
        assert(p(s[s.len() - 1]));
    }
}

proof fn lemma_count_none(s: Seq<char>, p: spec_fn(char) -> bool)
    requires
        forall|i: int| 0 <= i < s.len() ==> !p(#[trigger] s[i]),
    ensures
        count_of(s, p) == 0,
    decreases s.len(),
{
    if s.len() > 0 {
        let head = s.drop_last();
        assert forall|i: int| 0 <= i < head.len() implies !p(#[trigger] head[i]) by {
            assert(head[i] == s[i]);
        }
        lemma_count_none(head, p);
        assert(!p(s[s.len() - 1]));
    }
}

/// Which of the writing systems a text is in, where all its characters are of one.
proof fn lemma_one_script(s: Seq<char>, n: int)
    requires
        0 <= n < 8,
        forall|i: int|
            0 <= i < s.len() ==> is_latin(#[trigger] s[i]) == (n == 0) && is_cjk(s[i]) == (n == 1)
                && is_hangul(s[i]) == (n == 2) && is_cyrillic(s[i]) == (n == 3) && is_arabic(s[i])
                == (n == 4) && is_devanagari(s[i]) == (n == 5) && is_thai(s[i]) == (n == 6)
                && is_kana(s[i]) == (n == 7),
    ensures
        latin_count(s) == if n == 0 { s.len() } else { 0 },
        cjk_count(s) == if n == 1 { s.len() } else { 0 },
        hangul_count(s) == if n == 2 { s.len() } else { 0 },
        cyrillic_count(s) == if n == 3 { s.len() } else { 0 },
        arabic_count(s) == if n == 4 { s.len() } else { 0 },
        devanagari_count(s) == if n == 5 { s.len() } else { 0 },
        thai_count(s) == if n == 6 { s.len() } else { 0 },
        kana_count(s) == if n == 7 { s.len() } else { 0 },
{
    let a = |c: char| is_latin(c);
    let b = |c: char| is_cjk(c);
    let d = |c: char| is_hangul(c);
    let e = |c: char| is_cyrillic(c);
    let f = |c: char| is_arabic(c);
    let g = |c: char| is_devanagari(c);
    let h = |c: char| is_thai(c);
    let k = |c: char| is_kana(c);
    lemma_count(s, a, n == 0);
    lemma_count(s, b, n == 1);
    lemma_count(s, d, n == 2);
    lemma_count(s, e, n == 3);
    lemma_count(s, f, n == 4);
    lemma_count(s, g, n == 5);
    lemma_count(s, h, n == 6);
    lemma_count(s, k, n == 7);
}

proof fn lemma_count(s: Seq<char>, p: spec_fn(char) -> bool, all: bool)
    requires
        forall|i: int| 0 <= i < s.len() ==> p(#[trigger] s[i]) == all,
    ensures
        count_of(s, p) == if all { s.len() } else { 0 },
{
    if all {
        lemma_count_all(s, p);
    } else {
        lemma_count_none(s, p);
    }
}

/// The script that leads where all others are absent.
proof fn lemma_only_leader(s: Seq<char>, n: int)
    requires
        0 <= n < 7,
        s.len() >= 3,
        latin_count(s) == if n == 0 { s.len() } else { 0 },
        cjk_count(s) == if n == 1 { s.len() } else { 0 },
        hangul_count(s) == if n == 2 { s.len() } else { 0 },
        cyrillic_count(s) == if n == 3 { s.len() } else { 0 },
        arabic_count(s) == if n == 4 { s.len() } else { 0 },
        devanagari_count(s) == if n == 5 { s.len() } else { 0 },
        thai_count(s) == if n == 6 { s.len() } else { 0 },
    ensures
        leading(candidates(s)) == Some((candidates(s)[n].0, s.len())),
{
    lemma_leader(candidates(s), n);
}

proof fn lemma_leader(list: Seq<(TextScript, nat)>, n: int)
    requires
        0 <= n < list.len(),
        list[n].1 >= 3,
        forall|i: int| 0 <= i < list.len() && i != n ==> (#[trigger] list[i]).1 == 0,
    ensures
        leading(list) == Some(list[n]),
    decreases list.len(),
{
    let head = list.drop_last();
    assert forall|i: int| 0 <= i < head.len() implies #[trigger] head[i] == list[i] by {}
    assert(list[list.len() - 1] == list.last());
    if n == list.len() - 1 {
        lemma_no_leader(head);
    } else {
        assert(head[n] == list[n]);
        lemma_leader(head, n);
    }
}

proof fn lemma_no_leader(list: Seq<(TextScript, nat)>)
    requires
        forall|i: int| 0 <= i < list.len() ==> (#[trigger] list[i]).1 == 0,
    ensures
        leading(list) is None,
    decreases list.len(),
{
    if list.len() > 0 {
        let head = list.drop_last();
        assert forall|i: int| 0 <= i < head.len() implies (#[trigger] head[i]).1 == 0 by {
            assert(head[i] == list[i]);
        }
        lemma_no_leader(head);
        assert(list[list.len() - 1].1 == 0);
    }
}

/// A text of three or more characters of one writing system is in that writing system; a shorter one is
/// too short to tell.
pub proof fn law_plain_texts_are_in_their_script(s: Seq<char>)
    ensures
        s.len() >= 3 && (forall|i: int|
            0 <= i < s.len() ==> 'a' <= (#[trigger] s[i]) && s[i] <= 'z' || 'A' <= s[i] && s[i]
                <= 'Z' || '\u{C0}' <= s[i] && s[i] <= '\u{24F}' || '\u{1E00}' <= s[i] && s[i]
                <= '\u{1EFF}') ==> dominant(s) == Some(TextScript::Latin),
        s.len() >= 3 && (forall|i: int|
            0 <= i < s.len() ==> '\u{3040}' <= (#[trigger] s[i]) && s[i] <= '\u{30FF}')
            ==> dominant(s) == Some(TextScript::Japanese),
        s.len() >= 3 && (forall|i: int|
            0 <= i < s.len() ==> '\u{4E00}' <= (#[trigger] s[i]) && s[i] <= '\u{9FFF}'
                || '\u{3400}' <= s[i] && s[i] <= '\u{4DBF}') ==> dominant(s) == Some(
            TextScript::Cjk,
        ),
        s.len() >= 3 && (forall|i: int|
            0 <= i < s.len() ==> '\u{AC00}' <= (#[trigger] s[i]) && s[i] <= '\u{D7AF}'
                || '\u{1100}' <= s[i] && s[i] <= '\u{11FF}') ==> dominant(s) == Some(
            TextScript::Hangul,
        ),
        s.len() >= 3 && (forall|i: int|
            0 <= i < s.len() ==> '\u{400}' <= (#[trigger] s[i]) && s[i] <= '\u{4FF}') ==> dominant(
            s,
        ) == Some(TextScript::Cyrillic),
        s.len() >= 3 && (forall|i: int|
            0 <= i < s.len() ==> '\u{600}' <= (#[trigger] s[i]) && s[i] <= '\u{6FF}') ==> dominant(
            s,
        ) == Some(TextScript::Arabic),
        s.len() >= 3 && (forall|i: int|
            0 <= i < s.len() ==> '\u{900}' <= (#[trigger] s[i]) && s[i] <= '\u{97F}') ==> dominant(
            s,
        ) == Some(TextScript::Devanagari),
        s.len() >= 3 && (forall|i: int|
            0 <= i < s.len() ==> '\u{E00}' <= (#[trigger] s[i]) && s[i] <= '\u{E7F}') ==> dominant(
            s,
        ) == Some(TextScript::Thai),
{
    if s.len() >= 3 {
        if forall|i: int|
            0 <= i < s.len() ==> 'a' <= (#[trigger] s[i]) && s[i] <= 'z' || 'A' <= s[i] && s[i]
                <= 'Z' || '\u{C0}' <= s[i] && s[i] <= '\u{24F}' || '\u{1E00}' <= s[i] && s[i]
                <= '\u{1EFF}' {
            lemma_one_script(s, 0);
            lemma_only_leader(s, 0);
        } else if forall|i: int|
            0 <= i < s.len() ==> '\u{3040}' <= (#[trigger] s[i]) && s[i] <= '\u{30FF}' {
            lemma_one_script(s, 7);
        } else if forall|i: int|
            0 <= i < s.len() ==> '\u{4E00}' <= (#[trigger] s[i]) && s[i] <= '\u{9FFF}'
                || '\u{3400}' <= s[i] && s[i] <= '\u{4DBF}' {
            lemma_one_script(s, 1);
            lemma_only_leader(s, 1);
        } else if forall|i: int|
            0 <= i < s.len() ==> '\u{AC00}' <= (#[trigger] s[i]) && s[i] <= '\u{D7AF}'
                || '\u{1100}' <= s[i] && s[i] <= '\u{11FF}' {
            lemma_one_script(s, 2);
            lemma_only_leader(s, 2);
        } else if forall|i: int|
            0 <= i < s.len() ==> '\u{400}' <= (#[trigger] s[i]) && s[i] <= '\u{4FF}' {
            lemma_one_script(s, 3);
            lemma_only_leader(s, 3);
        } else if forall|i: int|
            0 <= i < s.len() ==> '\u{600}' <= (#[trigger] s[i]) && s[i] <= '\u{6FF}' {
            lemma_one_script(s, 4);
            lemma_only_leader(s, 4);
        } else if forall|i: int|
            0 <= i < s.len() ==> '\u{900}' <= (#[trigger] s[i]) && s[i] <= '\u{97F}' {
            lemma_one_script(s, 5);
            lemma_only_leader(s, 5);
        } else if forall|i: int|
            0 <= i < s.len() ==> '\u{E00}' <= (#[trigger] s[i]) && s[i] <= '\u{E7F}' {
            lemma_one_script(s, 6);
            lemma_only_leader(s, 6);
        }
        assert(s[0] == s[0]);
    }
}

/// Kana makes a text Japanese, whatever else is in it, where it has three characters of kana and of
/// ideographs together. A text with fewer than three letters of any kind is of no writing system.
pub proof fn law_kana_makes_japanese(s: Seq<char>)
    ensures
        kana_count(s) > 0 && kana_count(s) + cjk_count(s) >= 3 ==> dominant(s) == Some(
            TextScript::Japanese,
        ),
        script_total(s) < 3 ==> dominant(s) is None,
        kana_count(s) == 0 ==> dominant(s) != Some(TextScript::Japanese),
{
    lemma_leading_is_listed(candidates(s));
}

proof fn lemma_leading_is_listed(list: Seq<(TextScript, nat)>)
    ensures
        leading(list) matches Some(x) ==> list.contains(x),
    decreases list.len(),
{
    if list.len() > 0 {
        let head = list.drop_last();
        lemma_leading_is_listed(head);
        assert(list[list.len() - 1] == list.last());
        if leading(list) == leading(head) && leading(head) is Some {
            let x = leading(head)->0;
            let i = choose|i: int| 0 <= i < head.len() && head[i] == x;
            assert(list[i] == x);
        }
    }
}

/// The model is told to stay in the writing system of the text, by its name.
pub proof fn law_guard_names_the_script()
    ensures
        crate::text::has_text(guard_instruction(Some(TextScript::Latin)), "Latin"@),
        crate::text::has_text(guard_instruction(Some(TextScript::Japanese)), "Japanese"@),
        crate::text::has_text(guard_instruction(Some(TextScript::Cjk)), "CJK"@),
        crate::text::has_text(guard_instruction(Some(TextScript::Hangul)), "Hangul"@),
        crate::text::has_text(guard_instruction(Some(TextScript::Cyrillic)), "Cyrillic"@),
        crate::text::has_text(guard_instruction(Some(TextScript::Arabic)), "Arabic"@),
        crate::text::has_text(guard_instruction(Some(TextScript::Devanagari)), "Devanagari"@),
        crate::text::has_text(guard_instruction(Some(TextScript::Thai)), "Thai"@),
        crate::text::has_text(guard_instruction(None), "Do not translate."@),
{
    reveal_strlit("Detected input script: Latin. The output must remain in the same Latin-script language as the input. Do not output Chinese, Japanese, Korean, Cyrillic, Arabic, or another script.");
    reveal_strlit("Detected input language/script: Japanese. The output must remain Japanese. Do not translate it into Chinese, English, Korean, or any other language.");
    reveal_strlit("Detected input script: CJK ideographs. Preserve the same source language and script. Do not switch between Chinese, Japanese, Korean, or another language.");
    reveal_strlit("Detected input script: Korean Hangul. The output must remain Korean Hangul.");
    reveal_strlit("Detected input script: Cyrillic. The output must remain in the same Cyrillic-script language.");
    reveal_strlit("Detected input script: Arabic. The output must remain in the same Arabic-script language.");
    reveal_strlit("Detected input script: Devanagari. The output must remain in the same Devanagari-script language.");
    reveal_strlit("Detected input script: Thai. The output must remain Thai.");
    reveal_strlit("Preserve the input language and script exactly. Do not translate.");
    reveal_strlit("Latin");
    reveal_strlit("Japanese");
    reveal_strlit("CJK");
    reveal_strlit("Hangul");
    reveal_strlit("Cyrillic");
    reveal_strlit("Arabic");
    reveal_strlit("Devanagari");
    reveal_strlit("Thai");
    reveal_strlit("Do not translate.");
    let a = guard_instruction(Some(TextScript::Latin));
    assert(a.subrange(23, 28) =~= "Latin"@);
    assert(crate::text::occurs_at(a, "Latin"@, 23));
    let b = guard_instruction(Some(TextScript::Japanese));
    assert(b.subrange(32, 40) =~= "Japanese"@);
    assert(crate::text::occurs_at(b, "Japanese"@, 32));
    let c = guard_instruction(Some(TextScript::Cjk));
    assert(c.subrange(23, 26) =~= "CJK"@);
    assert(crate::text::occurs_at(c, "CJK"@, 23));
    let d = guard_instruction(Some(TextScript::Hangul));
    assert(d.subrange(30, 36) =~= "Hangul"@);
    assert(crate::text::occurs_at(d, "Hangul"@, 30));
    let e = guard_instruction(Some(TextScript::Cyrillic));
    assert(e.subrange(23, 31) =~= "Cyrillic"@);
    assert(crate::text::occurs_at(e, "Cyrillic"@, 23));
    let f = guard_instruction(Some(TextScript::Arabic));
    assert(f.subrange(23, 29) =~= "Arabic"@);
    assert(crate::text::occurs_at(f, "Arabic"@, 23));
    let g = guard_instruction(Some(TextScript::Devanagari));
    assert(g.subrange(23, 33) =~= "Devanagari"@);
    assert(crate::text::occurs_at(g, "Devanagari"@, 23));
    let h = guard_instruction(Some(TextScript::Thai));
    assert(h.subrange(23, 27) =~= "Thai"@);
    assert(crate::text::occurs_at(h, "Thai"@, 23));
    let k = guard_instruction(None);
    let n = k.len() as int;
    assert(k.subrange(n - 17, n) =~= "Do not translate."@);
    assert(crate::text::occurs_at(k, "Do not translate."@, n - 17));
}

/// What the model is told of the script of a text names that script and asks for no other.
pub proof fn law_script_is_to_be_kept(script: Option<TextScript>)
    ensures
        script == Some(TextScript::Latin) ==> guard_instruction(script) == "Detected input script: Latin. The output must remain in the same Latin-script language as the input. Do not output Chinese, Japanese, Korean, Cyrillic, Arabic, or another script."@,
        script == Some(TextScript::Japanese) ==> guard_instruction(script) == "Detected input language/script: Japanese. The output must remain Japanese. Do not translate it into Chinese, English, Korean, or any other language."@,
        script == Some(TextScript::Cjk) ==> guard_instruction(script) == "Detected input script: CJK ideographs. Preserve the same source language and script. Do not switch between Chinese, Japanese, Korean, or another language."@,
        script == Some(TextScript::Hangul) ==> guard_instruction(script) == "Detected input script: Korean Hangul. The output must remain Korean Hangul."@,
        script == Some(TextScript::Cyrillic) ==> guard_instruction(script) == "Detected input script: Cyrillic. The output must remain in the same Cyrillic-script language."@,
        script == Some(TextScript::Arabic) ==> guard_instruction(script) == "Detected input script: Arabic. The output must remain in the same Arabic-script language."@,
        script == Some(TextScript::Devanagari) ==> guard_instruction(script) == "Detected input script: Devanagari. The output must remain in the same Devanagari-script language."@,
        script == Some(TextScript::Thai) ==> guard_instruction(script) == "Detected input script: Thai. The output must remain Thai."@,
        script is None ==> guard_instruction(script) == "Preserve the input language and script exactly. Do not translate."@,
{
}

/// The characters of each script are those of its blocks.
pub proof fn law_scripts_have_their_blocks(c: char)
    ensures
        ({
            let n = c as u32;
            &&& is_latin(c) <==> 65 <= n <= 90 || 97 <= n <= 122 || 0xC0 <= n <= 0x24F || 0x1E00
                <= n <= 0x1EFF
            &&& is_kana(c) <==> 0x3040 <= n <= 0x30FF
            &&& is_cjk(c) <==> 0x3400 <= n <= 0x4DBF || 0x4E00 <= n <= 0x9FFF
            &&& is_hangul(c) <==> 0x1100 <= n <= 0x11FF || 0xAC00 <= n <= 0xD7AF
            &&& is_cyrillic(c) <==> 0x400 <= n <= 0x4FF
            &&& is_arabic(c) <==> 0x600 <= n <= 0x6FF
            &&& is_devanagari(c) <==> 0x900 <= n <= 0x97F
            &&& is_thai(c) <==> 0xE00 <= n <= 0xE7F
        }),
{
}

/// A text counts as one in another language exactly where both texts have a script and the two
/// differ, whichever of the two comes first.
pub proof fn law_changed_script_is_seen(source: Seq<char>, refined: Seq<char>)
    ensures
        language_changed(source, refined) <==> dominant(source) is Some && dominant(refined) is Some
            && dominant(source) != dominant(refined),
        !language_changed(source, source),
        language_changed(source, refined) == language_changed(refined, source),
{
}

} // verus!
