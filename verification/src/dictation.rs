//! Cleaning of dictated text: filler words, spoken punctuation, and the phrases that speech
//! models make up when nothing was said.

use crate::text::{
    chars_of, copy_chars, equals, is_whitespace, join_chars, replace, text_of, to_lower, trim,
    words,
};
use vstd::prelude::*;

verus! {

/// `s` with each text of `pairs` replaced by its partner, one pair after the other.
pub open spec fn replaced_by(s: Seq<char>, pairs: Seq<(Seq<char>, Seq<char>)>) -> Seq<char>
    decreases pairs.len(),
{
    if pairs.len() == 0 {
        s
    } else {
        crate::text::replaced(
            replaced_by(s, pairs.drop_last()),
            pairs.last().0,
            pairs.last().1,
        )
    }
}

/// The text with each first member of `pairs` replaced by the second, one pair after the other.
fn replace_all(s: &[char], pairs: &[(&str, &str)]) -> (r: Vec<char>)
    requires
        forall|i: int| 0 <= i < pairs@.len() ==> (#[trigger] pairs@[i]).0@.len() > 0,
    ensures
        r@ == replaced_by(s@, pairs@.map_values(|p: (&str, &str)| (p.0@, p.1@))),
{
    let ghost all = pairs@.map_values(|p: (&str, &str)| (p.0@, p.1@));
    let mut out = copy_chars(s);
    let mut i: usize = 0;
    while i < pairs.len()
        invariant
            i <= pairs.len(),
            all == pairs@.map_values(|p: (&str, &str)| (p.0@, p.1@)),
            forall|i: int| 0 <= i < pairs@.len() ==> (#[trigger] pairs@[i]).0@.len() > 0,
            out@ == replaced_by(s@, all.take(i as int)),
        decreases pairs.len() - i,
    {
        let (from, to) = pairs[i];
        assert(pairs@[i as int].0@.len() > 0);
        out = replace(out.as_slice(), from, to);
        assert(all.take(i + 1).drop_last() =~= all.take(i as int));
        assert(all.take(i + 1).last() == (from@, to@));
        i = i + 1;
    }
    assert(all.take(all.len() as int) =~= all);
    out
}

/// The filler words that are taken out, in the order in which they are, each with what replaces
/// it.
pub open spec fn fillers() -> Seq<(Seq<char>, Seq<char>)> {
    seq![
        ("あー、"@, ""@),
        ("あー"@, ""@),
        ("えー、"@, ""@),
        ("えー"@, ""@),
        ("えっと、"@, ""@),
        ("えっと"@, ""@),
        ("そのー、"@, ""@),
        ("そのー"@, ""@),
        ("まあ、"@, ""@),
        ("まぁ、"@, ""@),
        ("まあ"@, ""@),
        ("まぁ"@, ""@),
        ("うーん、"@, ""@),
        ("うーん"@, ""@),
        ("um,"@, ""@),
        ("um"@, ""@),
        ("uh,"@, ""@),
        ("uh"@, ""@),
    ]
}

/// What is left of `s` without the filler words, its words one space apart.
pub open spec fn without_fillers(s: Seq<char>) -> Seq<char> {
    crate::text::joined(crate::text::words_of(replaced_by(s, fillers())), seq![' '])
}

/// The text without filler words, its words one space apart.
pub fn remove_common_fillers(text: &str) -> (r: String)
    ensures
        r@ == without_fillers(text@),
{
    let pairs: [(&str, &str); 18] = [
        ("あー、", ""),
        ("あー", ""),
        ("えー、", ""),
        ("えー", ""),
        ("えっと、", ""),
        ("えっと", ""),
        ("そのー、", ""),
        ("そのー", ""),
        ("まあ、", ""),
        ("まぁ、", ""),
        ("まあ", ""),
        ("まぁ", ""),
        ("うーん、", ""),
        ("うーん", ""),
        ("um,", ""),
        ("um", ""),
        ("uh,", ""),
        ("uh", ""),
    ];
    proof {
        reveal_strlit("あー、");
        reveal_strlit("あー");
        reveal_strlit("えー、");
        reveal_strlit("えー");
        reveal_strlit("えっと、");
        reveal_strlit("えっと");
        reveal_strlit("そのー、");
        reveal_strlit("そのー");
        reveal_strlit("まあ、");
        reveal_strlit("まぁ、");
        reveal_strlit("まあ");
        reveal_strlit("まぁ");
        reveal_strlit("うーん、");
        reveal_strlit("うーん");
        reveal_strlit("um,");
        reveal_strlit("um");
        reveal_strlit("uh,");
        reveal_strlit("uh");
        assert(pairs@.map_values(|p: (&str, &str)| (p.0@, p.1@)) =~= fillers());
    }
    let s = chars_of(text);
    let cleaned = replace_all(s.as_slice(), &pairs);
    let list = words(cleaned.as_slice());
    let out = join_chars(&list, ' ');
    text_of(out.as_slice())
}

/// What is left after the filler words are out begins and ends with a word and has single spaces
/// between its words: trimming it changes nothing.
pub proof fn law_fillers_leave_tidy_text(s: Seq<char>)
    ensures
        crate::text::tidy(without_fillers(s)),
        crate::text::trimmed(without_fillers(s)) == without_fillers(s),
{
    let list = crate::text::words_of(replaced_by(s, fillers()));
    crate::text::lemma_words_of(replaced_by(s, fillers()));
    crate::text::lemma_joined_words(list);
    crate::text::lemma_tidy_trimmed(without_fillers(s));
}

/// The spoken commands with the marks that they stand for, in the order in which they are
/// replaced.
pub open spec fn spoken_commands() -> Seq<(Seq<char>, Seq<char>)> {
    seq![
        ("改行してください"@, "\n"@),
        ("改行"@, "\n"@),
        ("新しい行"@, "\n"@),
        ("段落"@, "\n\n"@),
        ("句点"@, "。"@),
        ("読点"@, "、"@),
        ("丸"@, "。"@),
        ("まる"@, "。"@),
        ("点"@, "、"@),
        ("てん"@, "、"@),
        ("疑問符"@, "？"@),
        ("はてな"@, "？"@),
        ("びっくり"@, "！"@),
        ("感嘆符"@, "！"@),
        ("new paragraph"@, "\n\n"@),
        ("new line"@, "\n"@),
        ("period"@, "."@),
        ("comma"@, ","@),
        ("question mark"@, "?"@),
        ("exclamation mark"@, "!"@),
    ]
}

/// The text with spoken commands turned into the marks that they stand for.
pub fn apply_spoken_commands(text: &str) -> (r: String)
    ensures
        r@ == replaced_by(text@, spoken_commands()),
{
    let pairs: [(&str, &str); 20] = [
        ("改行してください", "\n"),
        ("改行", "\n"),
        ("新しい行", "\n"),
        ("段落", "\n\n"),
        ("句点", "。"),
        ("読点", "、"),
        ("丸", "。"),
        ("まる", "。"),
        ("点", "、"),
        ("てん", "、"),
        ("疑問符", "？"),
        ("はてな", "？"),
        ("びっくり", "！"),
        ("感嘆符", "！"),
        ("new paragraph", "\n\n"),
        ("new line", "\n"),
        ("period", "."),
        ("comma", ","),
        ("question mark", "?"),
        ("exclamation mark", "!"),
    ];
    proof {
        reveal_strlit("改行してください");
        reveal_strlit("改行");
        reveal_strlit("新しい行");
        reveal_strlit("段落");
        reveal_strlit("句点");
        reveal_strlit("読点");
        reveal_strlit("丸");
        reveal_strlit("まる");
        reveal_strlit("点");
        reveal_strlit("てん");
        reveal_strlit("疑問符");
        reveal_strlit("はてな");
        reveal_strlit("びっくり");
        reveal_strlit("感嘆符");
        reveal_strlit("new paragraph");
        reveal_strlit("new line");
        reveal_strlit("period");
        reveal_strlit("comma");
        reveal_strlit("question mark");
        reveal_strlit("exclamation mark");
        assert(pairs@.map_values(|p: (&str, &str)| (p.0@, p.1@)) =~= spoken_commands());
    }
    let s = chars_of(text);
    let out = replace_all(s.as_slice(), &pairs);
    text_of(out.as_slice())
}

/// The characters that do not count when a transcription is held against a known phrase.
pub open spec fn is_phrase_mark(c: char) -> bool {
    ||| crate::text::is_white(c)
    ||| c == '。'
    ||| c == '、'
    ||| c == '.'
    ||| c == ','
    ||| c == '!'
    ||| c == '?'
    ||| c == '！'
    ||| c == '？'
    ||| c == '"'
    ||| c == '\''
    ||| c == '「'
    ||| c == '」'
}

/// `s` without white space and punctuation, in small letters.
pub open spec fn bare_phrase(s: Seq<char>) -> Seq<char> {
    crate::text::lowered(s.filter(|c: char| !is_phrase_mark(c)))
}

/// The phrases that speech models are known to make up out of silence.
pub open spec fn no_speech_phrases() -> Seq<Seq<char>> {
    seq![
        "ご視聴ありがとうございました"@,
        "ご清聴ありがとうございました"@,
        "ご視聴ありがとうございます"@,
        "thankyouforwatching"@,
        "thanksforwatching"@,
    ]
}

/// Whether a text is one that speech models make up where nothing is said.
pub open spec fn is_no_speech(s: Seq<char>) -> bool {
    no_speech_phrases().contains(bare_phrase(crate::text::trimmed(s)))
}

/// Whether a transcription is nothing but a phrase that speech models make up out of silence.
pub fn transcription_looks_like_no_speech_hallucination(text: &str) -> (r: bool)
    ensures
        r == is_no_speech(text@),
{
    let all = chars_of(text);
    let s = trim(all.as_slice());
    let mut kept: Vec<char> = Vec::new();
    let mut i: usize = 0;
    let ghost keep = |c: char| !is_phrase_mark(c);
    proof {
        assert(s@.take(0).filter(keep) =~= Seq::empty()) by {
            reveal(Seq::filter);
        }
    }
    while i < s.len()
        invariant
            i <= s.len(),
            keep == (|c: char| !is_phrase_mark(c)),
            kept@ == s@.take(i as int).filter(keep),
        decreases s.len() - i,
    {
        let ch = s[i];
        proof {
            assert(s@.take(i + 1).drop_last() =~= s@.take(i as int));
            assert(s@.take(i + 1).last() == ch);
            reveal(Seq::filter);
        }
        let mark = is_whitespace(ch) || ch == '。' || ch == '、' || ch == '.' || ch == ',' || ch
            == '!' || ch == '?' || ch == '！' || ch == '？' || ch == '"' || ch == '\'' || ch == '「'
            || ch == '」';
        if !mark {
            kept.push(ch);
        }
        i = i + 1;
    }
    assert(s@.take(s@.len() as int) =~= s@);
    let normalized = to_lower(kept.as_slice());
    let n = normalized.as_slice();
    let r = equals(n, "ご視聴ありがとうございました") || equals(
        n,
        "ご清聴ありがとうございました",
    ) || equals(n, "ご視聴ありがとうございます") || equals(n, "thankyouforwatching")
        || equals(n, "thanksforwatching");
    proof {
        let list = no_speech_phrases();
        assert(list[0] == "ご視聴ありがとうございました"@);
        assert(list[1] == "ご清聴ありがとうございました"@);
        assert(list[2] == "ご視聴ありがとうございます"@);
        assert(list[3] == "thankyouforwatching"@);
        assert(list[4] == "thanksforwatching"@);
    }
    r
}

/// The words of hesitation that are taken out of a text.
pub proof fn law_fillers_are_known()
    ensures
        ({
            let nothing = Seq::<char>::empty();
            &&& fillers().contains(("あー"@, nothing)) && fillers().contains(("あー、"@, nothing))
            &&& fillers().contains(("えー"@, nothing)) && fillers().contains(("えー、"@, nothing))
            &&& fillers().contains(("えっと"@, nothing)) && fillers().contains(("えっと、"@, nothing))
            &&& fillers().contains(("そのー"@, nothing)) && fillers().contains(("そのー、"@, nothing))
            &&& fillers().contains(("まあ"@, nothing)) && fillers().contains(("まあ、"@, nothing))
            &&& fillers().contains(("まぁ"@, nothing)) && fillers().contains(("まぁ、"@, nothing))
            &&& fillers().contains(("うーん"@, nothing)) && fillers().contains(("うーん、"@, nothing))
            &&& fillers().contains(("um"@, nothing)) && fillers().contains(("um,"@, nothing))
            &&& fillers().contains(("uh"@, nothing)) && fillers().contains(("uh,"@, nothing))
            &&& fillers().len() == 18
        }),
{
    reveal_strlit("");
    let list = fillers();
    let nothing = Seq::<char>::empty();
    assert(""@ =~= nothing);
    assert(list[0] == ("あー、"@, nothing) && list[1] == ("あー"@, nothing));
    assert(list[2] == ("えー、"@, nothing) && list[3] == ("えー"@, nothing));
    assert(list[4] == ("えっと、"@, nothing) && list[5] == ("えっと"@, nothing));
    assert(list[6] == ("そのー、"@, nothing) && list[7] == ("そのー"@, nothing));
    assert(list[8] == ("まあ、"@, nothing) && list[9] == ("まぁ、"@, nothing));
    assert(list[10] == ("まあ"@, nothing) && list[11] == ("まぁ"@, nothing));
    assert(list[12] == ("うーん、"@, nothing) && list[13] == ("うーん"@, nothing));
    assert(list[14] == ("um,"@, nothing) && list[15] == ("um"@, nothing));
    assert(list[16] == ("uh,"@, nothing) && list[17] == ("uh"@, nothing));
}

/// Where none of the patterns stands, replacing them changes nothing.
proof fn lemma_nothing_replaced(s: Seq<char>, pairs: Seq<(Seq<char>, Seq<char>)>)
    requires
        forall|i: int|
            0 <= i < pairs.len() ==> (#[trigger] pairs[i]).0.len() > 0 && !crate::text::has_text(
                s,
                pairs[i].0,
            ),
    ensures
        replaced_by(s, pairs) == s,
    decreases pairs.len(),
{
    if pairs.len() > 0 {
        let head = pairs.drop_last();
        assert forall|i: int| 0 <= i < head.len() implies (#[trigger] head[i]).0.len() > 0
            && !crate::text::has_text(s, head[i].0) by {
            assert(head[i] == pairs[i]);
        }
        lemma_nothing_replaced(s, head);
        assert(pairs[pairs.len() - 1] == pairs.last());
        crate::text::lemma_replaced_none(s, pairs.last().0, pairs.last().1);
    }
}

/// A text without words of hesitation keeps all its words: only the white space between them is
/// tidied.
pub proof fn law_other_words_stay(s: Seq<char>)
    requires
        !crate::text::has_text(s, "あー"@),
        !crate::text::has_text(s, "えー"@),
        !crate::text::has_text(s, "えっと"@),
        !crate::text::has_text(s, "そのー"@),
        !crate::text::has_text(s, "まあ"@),
        !crate::text::has_text(s, "まぁ"@),
        !crate::text::has_text(s, "うーん"@),
        !crate::text::has_text(s, "um"@),
        !crate::text::has_text(s, "uh"@),
    ensures
        without_fillers(s) == crate::text::joined(crate::text::words_of(s), seq![' ']),
{
    lemma_longer_absent(s, "あー、"@, "あー"@);
    lemma_longer_absent(s, "えー、"@, "えー"@);
    lemma_longer_absent(s, "えっと、"@, "えっと"@);
    lemma_longer_absent(s, "そのー、"@, "そのー"@);
    lemma_longer_absent(s, "まあ、"@, "まあ"@);
    lemma_longer_absent(s, "まぁ、"@, "まぁ"@);
    lemma_longer_absent(s, "うーん、"@, "うーん"@);
    lemma_longer_absent(s, "um,"@, "um"@);
    lemma_longer_absent(s, "uh,"@, "uh"@);
    lemma_nothing_replaced(s, fillers());
}

/// A word with a comma stands in no text without the word.
proof fn lemma_longer_absent(s: Seq<char>, long: Seq<char>, short: Seq<char>)
    requires
        !crate::text::has_text(s, short),
        long == "あー、"@ && short == "あー"@ || long == "えー、"@ && short == "えー"@ || long
            == "えっと、"@ && short == "えっと"@ || long == "そのー、"@ && short == "そのー"@ || long
            == "まあ、"@ && short == "まあ"@ || long == "まぁ、"@ && short == "まぁ"@ || long == "うーん、"@
            && short == "うーん"@ || long == "um,"@ && short == "um"@ || long == "uh,"@ && short
            == "uh"@,
    ensures
        !crate::text::has_text(s, long),
        long.len() > 0,
        short.len() > 0,
{
    reveal_strlit("あー、");
    reveal_strlit("あー");
    reveal_strlit("えー、");
    reveal_strlit("えー");
    reveal_strlit("えっと、");
    reveal_strlit("えっと");
    reveal_strlit("そのー、");
    reveal_strlit("そのー");
    reveal_strlit("まあ、");
    reveal_strlit("まあ");
    reveal_strlit("まぁ、");
    reveal_strlit("まぁ");
    reveal_strlit("うーん、");
    reveal_strlit("うーん");
    reveal_strlit("um,");
    reveal_strlit("um");
    reveal_strlit("uh,");
    reveal_strlit("uh");
    let n = short.len() as int;
    assert(long.len() == n + 1);
    assert(long.subrange(0, n) =~= short);
    if crate::text::has_text(s, long) {
        crate::text::lemma_subrange_is_part(long, 0, n);
        crate::text::lemma_part_of_part(s, long, short);
    }
}

/// The commands that can be spoken, and the marks that they stand for.
pub proof fn law_spoken_commands_are_known()
    ensures
        ({
            let list = spoken_commands();
            &&& list.len() == 20
            &&& list.contains(("改行してください"@, "\n"@)) && list.contains(("改行"@, "\n"@))
            &&& list.contains(("新しい行"@, "\n"@)) && list.contains(("段落"@, "\n\n"@))
            &&& list.contains(("句点"@, "。"@)) && list.contains(("読点"@, "、"@))
            &&& list.contains(("丸"@, "。"@)) && list.contains(("まる"@, "。"@))
            &&& list.contains(("点"@, "、"@)) && list.contains(("てん"@, "、"@))
            &&& list.contains(("疑問符"@, "？"@)) && list.contains(("はてな"@, "？"@))
            &&& list.contains(("びっくり"@, "！"@)) && list.contains(("感嘆符"@, "！"@))
            &&& list.contains(("new paragraph"@, "\n\n"@)) && list.contains(("new line"@, "\n"@))
            &&& list.contains(("period"@, "."@)) && list.contains(("comma"@, ","@))
            &&& list.contains(("question mark"@, "?"@)) && list.contains(
                ("exclamation mark"@, "!"@),
            )
        }),
{
    let list = spoken_commands();
    assert(list[0] == ("改行してください"@, "\n"@) && list[1] == ("改行"@, "\n"@));
    assert(list[2] == ("新しい行"@, "\n"@) && list[3] == ("段落"@, "\n\n"@));
    assert(list[4] == ("句点"@, "。"@) && list[5] == ("読点"@, "、"@));
    assert(list[6] == ("丸"@, "。"@) && list[7] == ("まる"@, "。"@));
    assert(list[8] == ("点"@, "、"@) && list[9] == ("てん"@, "、"@));
    assert(list[10] == ("疑問符"@, "？"@) && list[11] == ("はてな"@, "？"@));
    assert(list[12] == ("びっくり"@, "！"@) && list[13] == ("感嘆符"@, "！"@));
    assert(list[14] == ("new paragraph"@, "\n\n"@) && list[15] == ("new line"@, "\n"@));
    assert(list[16] == ("period"@, "."@) && list[17] == ("comma"@, ","@));
    assert(list[18] == ("question mark"@, "?"@) && list[19] == ("exclamation mark"@, "!"@));
}

/// What models make up of silence is told by its words alone: white space and marks around and between
/// them, and their case, do not matter.
pub proof fn law_made_up_phrases_are_known(s: Seq<char>)
    ensures
        ({
            let bare = crate::text::lowered(
                crate::text::trimmed(s).filter(
                    |c: char|
                        !(crate::text::is_white(c) || c == '。' || c == '、' || c == '.' || c == ','
                            || c == '!' || c == '?' || c == '！' || c == '？' || c == '"' || c == '\''
                            || c == '「' || c == '」'),
                ),
            );
            is_no_speech(s) <==> (bare == "ご視聴ありがとうございました"@ || bare
                == "ご清聴ありがとうございました"@ || bare == "ご視聴ありがとうございます"@ || bare
                == "thankyouforwatching"@ || bare == "thanksforwatching"@)
        }),
{
    let f = |c: char|
        !(crate::text::is_white(c) || c == '。' || c == '、' || c == '.' || c == ',' || c == '!' || c
            == '?' || c == '！' || c == '？' || c == '"' || c == '\'' || c == '「' || c == '」');
    let g = |c: char| !is_phrase_mark(c);
    assert(f =~= g);
    let w = bare_phrase(crate::text::trimmed(s));
    let list = no_speech_phrases();
    assert(list[0] == "ご視聴ありがとうございました"@ && list[1] == "ご清聴ありがとうございました"@ && list[2]
        == "ご視聴ありがとうございます"@ && list[3] == "thankyouforwatching"@ && list[4]
        == "thanksforwatching"@);
    if list.contains(w) {
        let i = choose|i: int| 0 <= i < list.len() && list[i] == w;
        assert(w == list[i]);
    }
}

/// A text in which one of the patterns stands, and no other does before or after it is replaced, has it
/// replaced by what it stands for.
pub proof fn law_what_stands_is_replaced(
    s: Seq<char>,
    pairs: Seq<(Seq<char>, Seq<char>)>,
    k: int,
)
    requires
        0 <= k < pairs.len(),
        forall|i: int| 0 <= i < pairs.len() ==> (#[trigger] pairs[i]).0.len() > 0,
        forall|i: int| 0 <= i < k ==> !crate::text::has_text(s, (#[trigger] pairs[i]).0),
        forall|i: int|
            k < i < pairs.len() ==> !crate::text::has_text(
                crate::text::replaced(s, pairs[k].0, pairs[k].1),
                (#[trigger] pairs[i]).0,
            ),
    ensures
        replaced_by(s, pairs) == crate::text::replaced(s, pairs[k].0, pairs[k].1),
    decreases pairs.len(),
{
    let head = pairs.drop_last();
    let last = pairs.last();
    assert(pairs[pairs.len() - 1] == last);
    assert forall|i: int| 0 <= i < head.len() implies #[trigger] head[i] == pairs[i] by {}
    if k == pairs.len() - 1 {
        lemma_nothing_replaced(s, head);
    } else {
        assert(head[k] == pairs[k]);
        law_what_stands_is_replaced(s, head, k);
        crate::text::lemma_replaced_none(
            crate::text::replaced(s, pairs[k].0, pairs[k].1),
            last.0,
            last.1,
        );
    }
}

} // verus!
