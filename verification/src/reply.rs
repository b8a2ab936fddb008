//! Reading a model's reply: reasoning blocks, preambles, the JSON object in it, and the title that
//! a note's text gives.

use crate::text::{
    chars_of, clip, contains, contains_any, copy_chars, equals, find, find_filled_line, find_from,
    is_ascii_digit, lines, push_all, rfind, starts_with, text_of, to_lower, trim, trim_char,
    trim_end,
};
use vstd::prelude::*;
use vstd::slice::slice_subrange;

verus! {

// ---------------------------------------------------------------------------
// Reasoning blocks
// ---------------------------------------------------------------------------

/// `s` without its first block from `open_tag` to the next `close_tag`, then without the first of
/// what is left, and so on. Tags are found whatever their case.
pub open spec fn without_blocks(s: Seq<char>, open_tag: Seq<char>, close_tag: Seq<char>) -> Seq<
    char,
>
    decreases s.len(),
{
    let low = crate::text::lowered(s);
    match crate::text::first_at(low, open_tag) {
        Some(a) => match crate::text::first_from(low, close_tag, a) {
            Some(b) => if 0 <= a <= b && b + close_tag.len() <= s.len() && close_tag.len() > 0 {
                without_blocks(s.take(a) + s.skip(b + close_tag.len()), open_tag, close_tag)
            } else {
                s
            },
            None => s,
        },
        None => s,
    }
}

/// Where `tag` stands first, if no closing tag comes after it.
pub open spec fn unclosed_at(low: Seq<char>, tag: Seq<char>) -> Option<int> {
    match crate::text::first_at(low, tag) {
        Some(a) => if crate::text::has_text(low.skip(a), "</"@) {
            None
        } else {
            Some(a)
        },
        None => None,
    }
}

/// The lesser of two positions, where there are any.
pub open spec fn earlier(a: Option<int>, b: Option<int>) -> Option<int> {
    match (a, b) {
        (Some(x), Some(y)) => if x <= y {
            Some(x)
        } else {
            Some(y)
        },
        (Some(x), None) => Some(x),
        (None, y) => y,
    }
}

/// `s` without an opening tag that is never closed. What follows such a tag is the model's inner
/// monologue, up to the final paragraph: where a blank line comes after the tag, the final
/// paragraph is what is left; else it is what stands before the tag.
pub open spec fn without_unclosed(s: Seq<char>) -> Seq<char> {
    let low = crate::text::lowered(s);
    match earlier(unclosed_at(low, "<think>"@), unclosed_at(low, "<thinking>"@)) {
        Some(a) => {
            let body = crate::text::trimmed_end(s);
            match crate::text::last_at(body, "\n\n"@) {
                Some(b) => if b >= a {
                    body.skip(b + "\n\n"@.len())
                } else {
                    s.take(a)
                },
                None => s.take(a),
            }
        },
        None => s,
    }
}

/// Where the answer begins after the last `tag`, if nothing but plain text stands before it.
pub open spec fn after_closer(low: Seq<char>, tag: Seq<char>) -> Option<int> {
    match crate::text::last_at(low, tag) {
        Some(p) => if crate::text::has_text(low.take(p), "<"@) {
            None
        } else {
            Some(p + tag.len())
        },
        None => None,
    }
}

/// `s` from after a closing tag that was never opened.
pub open spec fn without_closer(s: Seq<char>) -> Seq<char> {
    let low = crate::text::lowered(s);
    match after_closer(low, "</think>"@) {
        Some(p) => s.skip(p),
        None => match after_closer(low, "</thinking>"@) {
            Some(p) => s.skip(p),
            None => s,
        },
    }
}

/// The answer in `s`, without the reasoning of the model, trimmed.
pub open spec fn answer(s: Seq<char>) -> Seq<char> {
    let a = without_blocks(s, "<think>"@, "</think>"@);
    let b = without_blocks(a, "<thinking>"@, "</thinking>"@);
    crate::text::trimmed(without_closer(without_unclosed(b)))
}

fn remove_blocks(s: &[char], open_tag: &str, close_tag: &str) -> (r: Vec<char>)
    requires
        close_tag@.len() > 0,
    ensures
        r@ == without_blocks(s@, open_tag@, close_tag@),
{
    let mut out = copy_chars(s);
    let close_len = chars_of(close_tag).len();
    loop
        invariant
            close_len == close_tag@.len(),
            close_len > 0,
            without_blocks(s@, open_tag@, close_tag@) == without_blocks(
                out@,
                open_tag@,
                close_tag@,
            ),
        decreases out@.len(),
    {
        let len: usize = out.len();
        let low = to_lower(out.as_slice());
        match find(low.as_slice(), open_tag) {
            Some(a) => match find_from(low.as_slice(), close_tag, a) {
                Some(b) => {
                    let mut next = copy_chars(slice_subrange(out.as_slice(), 0, a));
                    push_all(
                        &mut next,
                        slice_subrange(out.as_slice(), b + close_len, len),
                    );
                    assert(next@ =~= out@.take(a as int) + out@.skip(b + close_len));
                    out = next;
                },
                None => {
                    return out;
                },
            },
            None => {
                return out;
            },
        }
    }
}

fn find_unclosed(low: &[char], tag: &str) -> (r: Option<usize>)
    ensures
        match r {
            Some(a) => unclosed_at(low@, tag@) == Some(a as int) && a <= low.len(),
            None => unclosed_at(low@, tag@) is None,
        },
{
    match find(low, tag) {
        Some(a) => {
            let rest = slice_subrange(low, a, low.len());
            assert(rest@ =~= low@.skip(a as int));
            if contains(rest, "</") {
                None
            } else {
                Some(a)
            }
        },
        None => None,
    }
}

fn remove_unclosed(s: &[char]) -> (r: Vec<char>)
    ensures
        r@ == without_unclosed(s@),
{
    let low = to_lower(s);
    let first = find_unclosed(low.as_slice(), "<think>");
    let second = find_unclosed(low.as_slice(), "<thinking>");
    let start: Option<usize> = match (first, second) {
        (Some(x), Some(y)) => if x <= y {
            Some(x)
        } else {
            Some(y)
        },
        (Some(x), None) => Some(x),
        (None, y) => y,
    };
    match start {
        Some(a) => {
            proof {
                reveal_strlit("\n\n");
            }
            let body = trim_end(s);
            match rfind(body, "\n\n") {
                Some(b) => if b >= a {
                    assert(body@.skip(b + 2) =~= body@.subrange(b + 2, body@.len() as int));
                    copy_chars(slice_subrange(body, b + 2, body.len()))
                } else {
                    assert(s@.take(a as int) =~= s@.subrange(0, a as int));
                    copy_chars(slice_subrange(s, 0, a))
                },
                None => {
                    assert(s@.take(a as int) =~= s@.subrange(0, a as int));
                    copy_chars(slice_subrange(s, 0, a))
                },
            }
        },
        None => copy_chars(s),
    }
}

fn find_after_closer(low: &[char], tag: &str) -> (r: Option<usize>)
    ensures
        match r {
            Some(p) => after_closer(low@, tag@) == Some(p as int) && p <= low.len(),
            None => after_closer(low@, tag@) is None,
        },
{
    let len: usize = low.len();
    match rfind(low, tag) {
        Some(p) => {
            assert(p + tag@.len() <= len);
            let head = slice_subrange(low, 0, p);
            assert(head@ =~= low@.take(p as int));
            if contains(head, "<") {
                None
            } else {
                Some(p + chars_of(tag).len())
            }
        },
        None => None,
    }
}

fn remove_closer(s: &[char]) -> (r: Vec<char>)
    ensures
        r@ == without_closer(s@),
{
    let low = to_lower(s);
    let start = match find_after_closer(low.as_slice(), "</think>") {
        Some(p) => Some(p),
        None => find_after_closer(low.as_slice(), "</thinking>"),
    };
    match start {
        Some(p) => {
            assert(s@.skip(p as int) =~= s@.subrange(p as int, s@.len() as int));
            copy_chars(slice_subrange(s, p, s.len()))
        },
        None => copy_chars(s),
    }
}

/// Removes the chain of thought that reasoning models emit before their real answer: `<think>`
/// and `<thinking>` blocks in any case, an opening tag without its closing one, and a closing tag
/// without its opening one. Returns a trimmed copy.
pub fn strip_think_blocks(text: &str) -> (r: String)
    ensures
        r@ == answer(text@),
{
    proof {
        reveal_strlit("</think>");
        reveal_strlit("</thinking>");
    }
    let s = chars_of(text);
    let a = remove_blocks(s.as_slice(), "<think>", "</think>");
    let b = remove_blocks(a.as_slice(), "<thinking>", "</thinking>");
    let c = remove_unclosed(b.as_slice());
    let d = remove_closer(c.as_slice());
    text_of(trim(d.as_slice()))
}

/// No block of the tag is left: where the opening tag still stands, the closing tag does not
/// follow it.
pub proof fn law_no_block_is_left(s: Seq<char>, open_tag: Seq<char>, close_tag: Seq<char>)
    requires
        close_tag.len() > 0,
    ensures
        match crate::text::first_at(
            crate::text::lowered(without_blocks(s, open_tag, close_tag)),
            open_tag,
        ) {
            Some(a) => crate::text::first_from(
                crate::text::lowered(without_blocks(s, open_tag, close_tag)),
                close_tag,
                a,
            ) is None,
            None => true,
        },
        without_blocks(s, open_tag, close_tag).len() <= s.len(),
    decreases s.len(),
{
    let low = crate::text::lowered(s);
    crate::text::lemma_first_at(low, open_tag);
    if let Some(a) = crate::text::first_at(low, open_tag) {
        crate::text::lemma_first_from(low, close_tag, a);
        if let Some(b) = crate::text::first_from(low, close_tag, a) {
            law_no_block_is_left(
                s.take(a) + s.skip(b + close_tag.len()),
                open_tag,
                close_tag,
            );
        }
    }
}

/// White space around a text stays around what is left of it without its blocks.
proof fn lemma_blocks_inside(
    u: Seq<char>,
    s: Seq<char>,
    v: Seq<char>,
    open_tag: Seq<char>,
    close_tag: Seq<char>,
)
    requires
        crate::text::all_white(u),
        crate::text::all_white(v),
        crate::text::is_solid(open_tag),
        crate::text::is_solid(close_tag),
    ensures
        without_blocks(u + s + v, open_tag, close_tag) == u + without_blocks(
            s,
            open_tag,
            close_tag,
        ) + v,
    decreases s.len(),
{
    let n = u.len() as int;
    let w = u + s + v;
    let low = crate::text::lowered(s);
    crate::text::lemma_found_shifted(u, s, v, open_tag);
    crate::text::lemma_found_shifted(u, s, v, close_tag);
    crate::text::lemma_first_at(low, open_tag);
    if let Some(a) = crate::text::first_at(low, open_tag) {
        crate::text::lemma_first_from(low, close_tag, a);
        if let Some(b) = crate::text::first_from(low, close_tag, a) {
            let c = close_tag.len() as int;
            let rest = s.take(a) + s.skip(b + c);
            assert(w.take(a + n) + w.skip(b + n + c) =~= u + rest + v);
            lemma_blocks_inside(u, rest, v, open_tag, close_tag);
        }
    }
}

/// White space around a text only shifts a tag that is never closed.
proof fn lemma_unclosed_shifted(u: Seq<char>, s: Seq<char>, v: Seq<char>, tag: Seq<char>)
    requires
        crate::text::all_white(u),
        crate::text::all_white(v),
        crate::text::is_solid(tag),
    ensures
        unclosed_at(crate::text::lowered(u + s + v), tag) == crate::text::shifted(
            unclosed_at(crate::text::lowered(s), tag),
            u.len() as int,
        ),
        unclosed_at(crate::text::lowered(s), tag) matches Some(a) ==> 0 <= a < s.len()
            && !crate::text::is_white(s[a]),
{
    let n = u.len() as int;
    let big = crate::text::lowered(u + s + v);
    let low = crate::text::lowered(s);
    crate::text::lemma_found_shifted(u, s, v, tag);
    crate::text::lemma_first_at(low, tag);
    if let Some(a) = crate::text::first_at(low, tag) {
        assert(low.subrange(a, a + tag.len())[0] == crate::text::lower_char(s[a]));
        reveal_strlit("</");
        let none = Seq::<char>::empty();
        crate::text::lemma_found_inside(none, s.skip(a), v, "</"@);
        assert(big.skip(a + n) =~= crate::text::lowered(none + s.skip(a) + v));
        assert(low.skip(a) =~= crate::text::lowered(s.skip(a)));
    }
}

/// White space around a text stays around what is left of it without an unclosed tag, or goes.
proof fn lemma_unclosed_inside(u: Seq<char>, s: Seq<char>, v: Seq<char>) -> (r: (
    Seq<char>,
    Seq<char>,
))
    requires
        crate::text::all_white(u),
        crate::text::all_white(v),
    ensures
        crate::text::all_white(r.0),
        crate::text::all_white(r.1),
        without_unclosed(u + s + v) == r.0 + without_unclosed(s) + r.1,
{
    let n = u.len() as int;
    let w = u + s + v;
    let low = crate::text::lowered(s);
    let none = Seq::<char>::empty();
    reveal_strlit("<think>");
    reveal_strlit("<thinking>");
    reveal_strlit("\n\n");
    lemma_unclosed_shifted(u, s, v, "<think>"@);
    lemma_unclosed_shifted(u, s, v, "<thinking>"@);
    match earlier(unclosed_at(low, "<think>"@), unclosed_at(low, "<thinking>"@)) {
        Some(a) => {
            let white = crate::text::white();
            let k = crate::text::lemma_drop_trailing(s, white);
            let m = crate::text::lemma_drop_trailing(w, white);
            assert(k > a) by {
                if k <= a {
                    assert(white(s[a]));
                }
            }
            assert(w[n + k - 1] == s[k - 1]);
            assert(m == n + k) by {
                if m < n + k {
                    assert(white(w[n + k - 1]));
                }
                if m > n + k {
                    if m - 1 < n + s.len() {
                        assert(w[m - 1] == s[m - 1 - n]);
                        assert(white(s[m - 1 - n]));
                    } else {
                        assert(w[m - 1] == v[m - 1 - n - s.len()]);
                    }
                }
            }
            let body = s.take(k);
            let whole = w.take(m);
            let gap = "\n\n"@;
            crate::text::lemma_last_at(body, gap);
            crate::text::lemma_last_at(whole, gap);
            assert forall|j: int| n <= j && #[trigger] crate::text::occurs_at(
                whole,
                gap,
                j,
            ) implies crate::text::occurs_at(body, gap, j - n) by {
                assert(body.subrange(j - n, j - n + 2) =~= whole.subrange(j, j + 2));
            }
            if let Some(b) = crate::text::last_at(body, gap) {
                assert(whole.subrange(b + n, b + n + 2) =~= body.subrange(b, b + 2));
                assert(crate::text::occurs_at(whole, gap, b + n));
            }
            assert(w.take(a + n) =~= u + s.take(a) + none);
            match crate::text::last_at(body, gap) {
                Some(b) => if b >= a {
                    assert(whole.skip(b + n + 2) =~= none + body.skip(b + 2) + none);
                    (none, none)
                } else {
                    (u, none)
                },
                None => (u, none),
            }
        },
        None => (u, v),
    }
}

/// White space around a text only shifts where the answer begins after a closing tag.
proof fn lemma_closer_shifted(u: Seq<char>, s: Seq<char>, v: Seq<char>, tag: Seq<char>)
    requires
        crate::text::all_white(u),
        crate::text::all_white(v),
        crate::text::is_solid(tag),
    ensures
        after_closer(crate::text::lowered(u + s + v), tag) == crate::text::shifted(
            after_closer(crate::text::lowered(s), tag),
            u.len() as int,
        ),
        after_closer(crate::text::lowered(s), tag) matches Some(p) ==> 0 <= p <= s.len(),
{
    let n = u.len() as int;
    let big = crate::text::lowered(u + s + v);
    let low = crate::text::lowered(s);
    crate::text::lemma_found_shifted(u, s, v, tag);
    crate::text::lemma_last_at(low, tag);
    if let Some(p) = crate::text::last_at(low, tag) {
        reveal_strlit("<");
        let none = Seq::<char>::empty();
        crate::text::lemma_found_inside(u, s.take(p), none, "<"@);
        assert(big.take(p + n) =~= crate::text::lowered(u + s.take(p) + none));
        assert(low.take(p) =~= crate::text::lowered(s.take(p)));
    }
}

/// White space around a text stays around what is left of it after a closing tag, or goes.
proof fn lemma_closer_inside(u: Seq<char>, s: Seq<char>, v: Seq<char>) -> (r: (Seq<char>, Seq<char>))
    requires
        crate::text::all_white(u),
        crate::text::all_white(v),
    ensures
        crate::text::all_white(r.0),
        crate::text::all_white(r.1),
        without_closer(u + s + v) == r.0 + without_closer(s) + r.1,
{
    let n = u.len() as int;
    let w = u + s + v;
    let low = crate::text::lowered(s);
    let none = Seq::<char>::empty();
    reveal_strlit("</think>");
    reveal_strlit("</thinking>");
    lemma_closer_shifted(u, s, v, "</think>"@);
    lemma_closer_shifted(u, s, v, "</thinking>"@);
    let start = match after_closer(low, "</think>"@) {
        Some(p) => Some(p),
        None => after_closer(low, "</thinking>"@),
    };
    match start {
        Some(p) => {
            assert(w.skip(p + n) =~= none + s.skip(p) + v);
            (none, v)
        },
        None => (u, v),
    }
}

/// White space around a reply does not matter: the answer in it is the same.
pub proof fn law_answer_ignores_white_space_around(u: Seq<char>, s: Seq<char>, v: Seq<char>)
    requires
        crate::text::all_white(u),
        crate::text::all_white(v),
    ensures
        answer(u + s + v) == answer(s),
{
    reveal_strlit("<think>");
    reveal_strlit("<thinking>");
    reveal_strlit("</think>");
    reveal_strlit("</thinking>");
    lemma_blocks_inside(u, s, v, "<think>"@, "</think>"@);
    let a = without_blocks(s, "<think>"@, "</think>"@);
    lemma_blocks_inside(u, a, v, "<thinking>"@, "</thinking>"@);
    let b = without_blocks(a, "<thinking>"@, "</thinking>"@);
    let (u1, v1) = lemma_unclosed_inside(u, b, v);
    let c = without_unclosed(b);
    let (u2, v2) = lemma_closer_inside(u1, c, v1);
    crate::text::lemma_trimmed_around(u2, without_closer(c), v2);
}

/// A reply and the reply trimmed hold the same answer.
pub proof fn law_answer_ignores_trimming(s: Seq<char>)
    ensures
        answer(crate::text::trimmed(s)) == answer(s),
{
    let (u, v) = crate::text::lemma_trimmed_split(s);
    law_answer_ignores_white_space_around(u, crate::text::trimmed(s), v);
}

// ---------------------------------------------------------------------------
// Preambles
// ---------------------------------------------------------------------------

/// The first line of `s`; nothing where `s` is empty.
pub open spec fn first_line(s: Seq<char>) -> Seq<char> {
    if crate::text::lines_of(s).len() > 0 {
        crate::text::lines_of(s)[0]
    } else {
        Seq::empty()
    }
}

/// Whether the first line of a reply announces the answer rather than giving it.
pub open spec fn announces(line: Seq<char>) -> bool {
    let low = crate::text::lowered(line);
    ||| crate::text::has_text(low, "here"@)
    ||| crate::text::has_text(low, "sure"@)
    ||| crate::text::has_text(low, "revised"@)
}

/// `s` without quotation marks around it.
pub open spec fn unquoted(s: Seq<char>) -> Seq<char> {
    crate::text::trimmed(
        crate::text::trimmed_of(
            crate::text::trimmed_of(crate::text::trimmed_of(s, '"'), '「'),
            '」',
        ),
    )
}

/// The answer in `s` without the line that announces it, or else without the quotation marks
/// around it.
pub open spec fn plain_answer(s: Seq<char>) -> Seq<char> {
    let t = crate::text::trimmed(answer(s));
    match crate::text::first_at(t, "\n\n"@) {
        Some(i) => if announces(first_line(t)) {
            crate::text::trimmed(t.skip(i + "\n\n"@.len()))
        } else {
            unquoted(t)
        },
        None => unquoted(t),
    }
}

/// The first line of the text; nothing where the text is empty.
pub fn head_line(s: &[char]) -> (r: Vec<char>)
    ensures
        r@ == first_line(s@),
{
    let list = lines(s);
    assert(crate::text::rows(list@).len() == list@.len());
    if list.len() > 0 {
        assert(crate::text::rows(list@)[0] == list@[0]@);
        copy_chars(list[0].as_slice())
    } else {
        Vec::new()
    }
}

/// The answer in a reply, without reasoning, without the line that announces it and without
/// quotation marks around it.
pub fn strip_llm_preamble(text: &str) -> (r: String)
    ensures
        r@ == plain_answer(text@),
{
    let all = chars_of(strip_think_blocks(text).as_str());
    let t = trim(all.as_slice());
    let len: usize = t.len();
    if let Some(i) = find(t, "\n\n") {
        let head = head_line(t);
        let low = to_lower(head.as_slice());
        if contains(low.as_slice(), "here") || contains(low.as_slice(), "sure") || contains(
            low.as_slice(),
            "revised",
        ) {
            proof {
                reveal_strlit("\n\n");
            }
            assert(t@.skip(i + 2) =~= t@.subrange(i + 2, t@.len() as int));
            return text_of(trim(slice_subrange(t, i + 2, len)));
        }
    }
    text_of(trim(trim_char(trim_char(trim_char(t, '"'), '「'), '」')))
}

// ---------------------------------------------------------------------------
// The JSON object in a reply
// ---------------------------------------------------------------------------

/// Where a reader of JSON stands: how many objects are open, and whether it is inside a string or
/// behind a backslash there.
pub struct JsonState {
    pub depth: int,
    pub in_string: bool,
    pub escape: bool,
}

/// The state after one more character.
pub open spec fn json_step(st: JsonState, c: char) -> JsonState {
    if st.escape {
        JsonState { escape: false, ..st }
    } else if c == '\\' && st.in_string {
        JsonState { escape: true, ..st }
    } else if c == '"' {
        JsonState { in_string: !st.in_string, ..st }
    } else if st.in_string {
        st
    } else if c == '{' {
        JsonState { depth: st.depth + 1, ..st }
    } else if c == '}' {
        JsonState { depth: st.depth - 1, ..st }
    } else {
        st
    }
}

/// The state after the characters of `s`.
pub open spec fn json_state(s: Seq<char>) -> JsonState
    decreases s.len(),
{
    if s.len() == 0 {
        JsonState { depth: 0, in_string: false, escape: false }
    } else {
        json_step(json_state(s.drop_last()), s.last())
    }
}

/// Whether `s` is one whole object: it opens with a brace, and the brace that closes it is its
/// last character.
pub open spec fn is_json_object(s: Seq<char>) -> bool {
    &&& s.len() > 0
    &&& s[0] == '{'
    &&& json_state(s).depth == 0
    &&& forall|k: int| 0 < k < s.len() ==> (#[trigger] json_state(s.take(k))).depth > 0
}

/// Whether `r` is the object that begins at the first brace of `s`.
pub open spec fn is_first_object(s: Seq<char>, r: Seq<char>) -> bool {
    let start = crate::text::next_index(s, '{', 0);
    &&& start + r.len() <= s.len()
    &&& r == s.subrange(start, start + r.len())
    &&& is_json_object(r)
}

/// The object that begins at the first brace of the text, if it ends there.
pub fn extract_json_object<'a>(text: &'a str) -> (r: Option<&'a str>)
    ensures
        match r {
            Some(o) => is_first_object(text@, o@),
            None => forall|o: Seq<char>| !#[trigger] is_first_object(text@, o),
        },
{
    let s = chars_of(text);
    let start = crate::text::index_of(s.as_slice(), '{', 0);
    proof {
        crate::text::lemma_next_index(s@, '{', 0);
    }
    if start == s.len() {
        return None;
    }
    let ghost tail = s@.skip(start as int);
    let mut depth: usize = 0;
    let mut in_string = false;
    let mut escape = false;
    let mut i: usize = start;
    while i < s.len()
        invariant
            start <= i <= s.len(),
            start < s.len(),
            s@ == text@,
            start == crate::text::next_index(s@, '{', 0),
            s@[start as int] == '{',
            tail == s@.skip(start as int),
            depth <= i - start,
            json_state(tail.take(i - start)) == (JsonState {
                depth: depth as int,
                in_string,
                escape,
            }),
            i > start ==> depth > 0,
            forall|k: int| 0 < k <= i - start ==> (#[trigger] json_state(tail.take(k))).depth > 0,
        decreases s.len() - i,
    {
        let ch = s[i];
        let ghost n = i - start;
        proof {
            assert(tail.take(n + 1).drop_last() =~= tail.take(n));
            assert(tail.take(n + 1).last() == ch);
        }
        if escape {
            escape = false;
        } else if ch == '\\' && in_string {
            escape = true;
        } else if ch == '"' {
            in_string = !in_string;
        } else if !in_string {
            if ch == '{' {
                depth = depth + 1;
            } else if ch == '}' {
                depth = depth - 1;
                if depth == 0 {
                    let object = text.substring_char(start, i + 1);
                    proof {
                        let o = object@;
                        assert(o =~= tail.take(n + 1));
                        assert forall|k: int| 0 < k < o.len() implies (#[trigger] json_state(
                            o.take(k),
                        )).depth > 0 by {
                            assert(o.take(k) =~= tail.take(k));
                        }
                    }
                    return Some(object);
                }
            }
        }
        i = i + 1;
    }
    proof {
        assert forall|o: Seq<char>| !#[trigger] is_first_object(text@, o) by {
            if is_first_object(text@, o) {
                assert(o =~= tail.take(o.len() as int));
            }
        }
    }
    None
}

/// At most one text is the first object, so what is extracted is settled by the text alone.
pub proof fn law_first_object_is_unique(s: Seq<char>, a: Seq<char>, b: Seq<char>)
    requires
        is_first_object(s, a),
        is_first_object(s, b),
    ensures
        a == b,
{
    crate::text::lemma_next_index(s, '{', 0);
    if a.len() < b.len() {
        assert(b.take(a.len() as int) =~= a);
    } else if b.len() < a.len() {
        assert(a.take(b.len() as int) =~= b);
    }
}

// ---------------------------------------------------------------------------
// Titles
// ---------------------------------------------------------------------------

/// The marks that may lead a line, in the order in which they are looked for.
pub open spec fn title_marks() -> Seq<Seq<char>> {
    seq![
        "# "@,
        "## "@,
        "### "@,
        "#### "@,
        "##### "@,
        "###### "@,
        "- "@,
        "* "@,
        "> "@,
        "・"@,
        "● "@,
        "■ "@,
    ]
}

/// The length of the first mark of `marks`, from index `i` on, that `s` begins with; zero where it
/// begins with none.
pub open spec fn mark_len(s: Seq<char>, marks: Seq<Seq<char>>, i: int) -> nat
    decreases marks.len() - i,
{
    if i < 0 || i >= marks.len() {
        0
    } else if crate::text::begins(s, marks[i]) {
        marks[i].len()
    } else {
        mark_len(s, marks, i + 1)
    }
}

/// The number of digits that `s` begins with.
pub open spec fn digits_len(s: Seq<char>) -> nat
    decreases s.len(),
{
    if s.len() > 0 && crate::text::is_digit(s[0]) {
        1 + digits_len(s.skip(1))
    } else {
        0
    }
}

/// The length of a list number such as `12. ` that `s` begins with; zero where it begins with none.
pub open spec fn number_len(s: Seq<char>) -> nat {
    let n = digits_len(s);
    if n > 0 && crate::text::occurs_at(s, ". "@, n as int) {
        n + ". "@.len()
    } else {
        0
    }
}

/// The length of the mark or list number that `s` begins with.
pub open spec fn lead_len(s: Seq<char>) -> nat {
    if mark_len(s, title_marks(), 0) > 0 {
        mark_len(s, title_marks(), 0)
    } else {
        number_len(s)
    }
}

/// `s` without the marks and list numbers that it begins with.
pub open spec fn without_leads(s: Seq<char>) -> Seq<char>
    decreases s.len(),
{
    let n = lead_len(s) as int;
    if 0 < n <= s.len() {
        without_leads(s.skip(n))
    } else {
        s
    }
}

/// `s` without white space and quotation marks around it.
pub open spec fn title_core(s: Seq<char>) -> Seq<char> {
    let a = crate::text::trimmed_of(crate::text::trimmed(s), '"');
    let b = crate::text::trimmed_of(crate::text::trimmed_of(a, '\''), '「');
    let c = crate::text::trimmed_of(crate::text::trimmed_of(b, '」'), '『');
    crate::text::trimmed(crate::text::trimmed_of(c, '』'))
}

/// The longest title that is not cut.
pub const MAX_TITLE_CHARS: usize = 40;

/// The title that a text gives: its first filled line, without the marks that lead it and the
/// quotation marks around it, cut after forty characters.
pub open spec fn title_of(s: Seq<char>) -> Option<Seq<char>> {
    match crate::text::first_filled_line(s) {
        Some(line) => {
            let core = title_core(without_leads(line));
            if core.len() == 0 {
                None
            } else {
                Some(crate::text::clipped(core, MAX_TITLE_CHARS as int))
            }
        },
        None => None,
    }
}

fn find_lead(s: &[char]) -> (r: usize)
    ensures
        r == lead_len(s@),
        r <= s.len(),
{
    let marks: [&str; 12] = [
        "# ",
        "## ",
        "### ",
        "#### ",
        "##### ",
        "###### ",
        "- ",
        "* ",
        "> ",
        "・",
        "● ",
        "■ ",
    ];
    let ghost all = title_marks();
    proof {
        assert(crate::text::strs(marks@) =~= all);
        reveal_strlit("# ");
        reveal_strlit("## ");
        reveal_strlit("### ");
        reveal_strlit("#### ");
        reveal_strlit("##### ");
        reveal_strlit("###### ");
        reveal_strlit("- ");
        reveal_strlit("* ");
        reveal_strlit("> ");
        reveal_strlit("・");
        reveal_strlit("● ");
        reveal_strlit("■ ");
    }
    let mut i: usize = 0;
    while i < 12
        invariant
            i <= 12,
            all.len() == 12,
            all == title_marks(),
            crate::text::strs(marks@) == all,
            marks@.len() == 12,
            forall|j: int| 0 <= j < 12 ==> (#[trigger] all[j]).len() > 0,
            mark_len(s@, all, 0) == mark_len(s@, all, i as int),
        decreases 12 - i,
    {
        assert(all[i as int] == marks@[i as int]@);
        if starts_with(s, marks[i]) {
            return chars_of(marks[i]).len();
        }
        i = i + 1;
    }
    let mut n: usize = 0;
    assert(s@.skip(0) =~= s@);
    while n < s.len() && is_ascii_digit(s[n])
        invariant
            n <= s.len(),
            digits_len(s@) == n + digits_len(s@.skip(n as int)),
        decreases s.len() - n,
    {
        assert(s@.skip(n as int).skip(1) =~= s@.skip(n + 1));
        n = n + 1;
    }
    proof {
        reveal_strlit(". ");
    }
    let dot = chars_of(". ");
    if n > 0 && crate::text::matches_at(s, dot.as_slice(), n) {
        n + 2
    } else {
        0
    }
}

/// A title from a note's text: its first line with content, without the Markdown marks, list
/// numbers and quotation marks around it, cut after forty characters. Nothing where no text is
/// left.
pub fn derive_title_from_text(text: &str) -> (r: Option<String>)
    ensures
        crate::text::opt_view(r) == title_of(text@),
{
    let s = chars_of(text);
    let raw = match find_filled_line(s.as_slice()) {
        Some(line) => line,
        None => {
            return None;
        },
    };
    let mut line = copy_chars(raw.as_slice());
    loop
        invariant_except_break
            without_leads(raw@) == without_leads(line@),
        ensures
            line@ == without_leads(raw@),
        decreases line@.len(),
    {
        let n = find_lead(line.as_slice());
        if n == 0 {
            break;
        }
        assert(line@.skip(n as int) =~= line@.subrange(n as int, line@.len() as int));
        line = copy_chars(slice_subrange(line.as_slice(), n, line.len()));
    }
    let a = trim_char(trim(line.as_slice()), '"');
    let b = trim_char(trim_char(a, '\''), '「');
    let c = trim_char(trim_char(b, '」'), '『');
    let core = trim(trim_char(c, '』'));
    if core.len() == 0 {
        return None;
    }
    Some(text_of(clip(core, MAX_TITLE_CHARS).as_slice()))
}

/// A title is never empty and never longer than forty characters and an ellipsis.
pub proof fn law_title_is_short(s: Seq<char>)
    ensures
        title_of(s) matches Some(t) ==> 0 < t.len() <= 41,
{
}

/// Whether a title is a part of a line, whole or cut: cut, it ends with an ellipsis.
pub open spec fn is_title_in(t: Seq<char>, line: Seq<char>) -> bool {
    if t.len() > MAX_TITLE_CHARS {
        t.last() == '…' && crate::text::has_text(line, t.drop_last())
    } else {
        crate::text::has_text(line, t)
    }
}

/// What is left of a line without its leading marks is a part of it.
proof fn lemma_leads_leave_a_part(s: Seq<char>)
    ensures
        crate::text::has_text(s, without_leads(s)),
    decreases s.len(),
{
    let n = lead_len(s) as int;
    if 0 < n <= s.len() {
        let rest = s.skip(n);
        lemma_leads_leave_a_part(rest);
        crate::text::lemma_subrange_is_part(s, n, s.len() as int);
        assert(s.subrange(n, s.len() as int) =~= rest);
        crate::text::lemma_part_of_part(s, rest, without_leads(s));
    } else {
        crate::text::lemma_has_self(s);
    }
}

/// What is left of a line without white space and quotation marks around it is a part of it.
proof fn lemma_core_is_a_part(s: Seq<char>)
    ensures
        crate::text::has_text(s, title_core(s)),
{
    let t = crate::text::trimmed(s);
    let a = crate::text::trimmed_of(t, '"');
    let b = crate::text::trimmed_of(a, '\'');
    let c = crate::text::trimmed_of(b, '「');
    let d = crate::text::trimmed_of(c, '」');
    let e = crate::text::trimmed_of(d, '『');
    let f = crate::text::trimmed_of(e, '』');
    crate::text::lemma_trimmed_is_part(s);
    crate::text::lemma_trimmed_of_is_part(t, '"');
    crate::text::lemma_trimmed_of_is_part(a, '\'');
    crate::text::lemma_trimmed_of_is_part(b, '「');
    crate::text::lemma_trimmed_of_is_part(c, '」');
    crate::text::lemma_trimmed_of_is_part(d, '『');
    crate::text::lemma_trimmed_of_is_part(e, '』');
    crate::text::lemma_trimmed_is_part(f);
    crate::text::lemma_part_of_part(s, t, a);
    crate::text::lemma_part_of_part(s, a, b);
    crate::text::lemma_part_of_part(s, b, c);
    crate::text::lemma_part_of_part(s, c, d);
    crate::text::lemma_part_of_part(s, d, e);
    crate::text::lemma_part_of_part(s, e, f);
    crate::text::lemma_part_of_part(s, f, title_core(s));
}

/// A title is a part of the first line that is not blank, and has no line break in it; one of more
/// than forty characters is cut and has an ellipsis at its end. Blank text has no title.
pub proof fn law_title_is_of_the_first_line(s: Seq<char>)
    ensures
        crate::text::blank(s) ==> title_of(s) is None,
        title_of(s) matches Some(t) ==> exists|k: int| #[trigger]
            crate::text::is_first_filled(s, k) && is_title_in(t, crate::text::lines_of(s)[k]),
        title_of(s) matches Some(t) ==> !t.contains('\n'),
{
    crate::text::lemma_first_filled_line(s);
    if let Some(t) = title_of(s) {
        let first = crate::text::first_filled_line(s)->0;
        let k = choose|k: int| #[trigger]
            crate::text::is_first_filled(s, k) && first == crate::text::trimmed(
                crate::text::lines_of(s)[k],
            );
        let line = crate::text::lines_of(s)[k];
        let bare = without_leads(first);
        let core = title_core(bare);
        crate::text::lemma_trimmed_is_part(line);
        lemma_leads_leave_a_part(first);
        lemma_core_is_a_part(bare);
        crate::text::lemma_part_of_part(line, first, bare);
        crate::text::lemma_part_of_part(line, bare, core);
        crate::text::lemma_lines_from(s, 0);
        let shown = if core.len() > MAX_TITLE_CHARS {
            crate::text::lemma_subrange_is_part(core, 0, MAX_TITLE_CHARS as int);
            assert(core.subrange(0, MAX_TITLE_CHARS as int) =~= t.drop_last());
            crate::text::lemma_part_of_part(line, core, t.drop_last());
            t.drop_last()
        } else {
            t
        };
        assert(is_title_in(t, line));
        let at = choose|i: int| #[trigger] crate::text::occurs_at(line, shown, i);
        assert forall|j: int| 0 <= j < t.len() implies t[j] != '\n' by {
            if j < shown.len() {
                assert(line.subrange(at, at + shown.len())[j] == line[at + j]);
                assert(crate::text::lines_from(s, 0)[k][at + j] != '\n');
            }
        }
    }
}

// ---------------------------------------------------------------------------
// Translations of live captions
// ---------------------------------------------------------------------------

/// What a small model says when it repeats its orders instead of following them, in small letters.
pub open spec fn leaked_markers() -> Seq<Seq<char>> {
    seq![
        "output only"@,
        "translation only"@,
        "translated text only"@,
        "do not explain"@,
        "answer with"@,
        "no notes"@,
        "translator"@,
        "translate live captions"@,
        "translation engine"@,
        "return only"@,
        "source language"@,
        "target language"@,
        "入力言語"@,
        "出力言語"@,
        "翻訳本文のみ"@,
        "出力は"@,
        "前置き"@,
        "見出し"@,
        "引用符"@,
        "追加指示"@,
        "説明は出力"@,
        "条件:"@,
        "入力:"@,
    ]
}

/// Whether a reply cannot be a translation: nothing is in it, or it repeats the orders.
pub open spec fn bad_translation(s: Seq<char>) -> bool {
    let t = crate::text::trimmed(s);
    t.len() == 0 || crate::text::has_any(crate::text::lowered(t), leaked_markers())
}

/// Whether the translation of a live caption must be thrown away.
pub fn live_translation_output_is_invalid(text: &str) -> (r: bool)
    ensures
        r == bad_translation(text@),
{
    let all = chars_of(text);
    let t = trim(all.as_slice());
    if t.len() == 0 {
        return true;
    }
    let low = to_lower(t);
    let markers: [&str; 23] = [
        "output only",
        "translation only",
        "translated text only",
        "do not explain",
        "answer with",
        "no notes",
        "translator",
        "translate live captions",
        "translation engine",
        "return only",
        "source language",
        "target language",
        "入力言語",
        "出力言語",
        "翻訳本文のみ",
        "出力は",
        "前置き",
        "見出し",
        "引用符",
        "追加指示",
        "説明は出力",
        "条件:",
        "入力:",
    ];
    assert(crate::text::strs(markers@) =~= leaked_markers());
    contains_any(low.as_slice(), &markers)
}

/// Leaked orders are found wherever they stand: a text around one that repeats its orders repeats
/// them too. And a blank translation is none.
pub proof fn law_leaks_are_found_anywhere(x: Seq<char>, a: Seq<char>, y: Seq<char>)
    ensures
        crate::text::blank(a) ==> bad_translation(a),
        !crate::text::blank(a) && bad_translation(a) ==> bad_translation(x + a + y),
{
    if !crate::text::blank(a) && bad_translation(a) {
        let w = x + a + y;
        let r = crate::text::lemma_trimmed(a);
        let q = crate::text::lemma_trimmed(w);
        let n = x.len() as int;
        assert(w[n + r.0] == a[r.0]);
        assert(w[n + r.1 - 1] == a[r.1 - 1]);
        assert(q.0 <= n + r.0 && n + r.1 <= q.1);
        let part = crate::text::lowered(crate::text::trimmed(a));
        let whole = crate::text::lowered(crate::text::trimmed(w));
        let from = n + r.0 - q.0;
        crate::text::lemma_subrange_is_part(whole, from, from + part.len());
        assert(whole.subrange(from, from + part.len()) =~= part);
        let i = choose|i: int|
            0 <= i < leaked_markers().len() && crate::text::has_text(
                part,
                #[trigger] leaked_markers()[i],
            );
        crate::text::lemma_part_of_part(whole, part, leaked_markers()[i]);
    }
}

/// The case of ASCII letters does not matter for whether a reply can be a translation.
pub proof fn law_leaks_are_found_in_any_case(a: Seq<char>, b: Seq<char>)
    requires
        crate::text::same_but_for_case(a, b),
    ensures
        bad_translation(a) == bad_translation(b),
{
    crate::text::lemma_same_but_for_case(a, b);
    crate::text::lemma_same_but_for_case(crate::text::trimmed(a), crate::text::trimmed(b));
}

/// The English name of the language with the code `code`; a code that is not known stands for
/// itself.
pub open spec fn language_label(code: Seq<char>) -> Seq<char> {
    let key = crate::text::lowered(crate::text::trimmed(code));
    if key == ""@ || key == "auto"@ {
        "the source language"@
    } else if key == "ja"@ || key == "jp"@ || key == "japanese"@ {
        "Japanese"@
    } else if key == "en"@ || key == "english"@ {
        "English"@
    } else if key == "ko"@ || key == "kr"@ || key == "korean"@ {
        "Korean"@
    } else if key == "zh"@ || key == "cn"@ || key == "chinese"@ {
        "Chinese"@
    } else if key == "fr"@ || key == "french"@ {
        "French"@
    } else if key == "de"@ || key == "german"@ {
        "German"@
    } else if key == "es"@ || key == "spanish"@ {
        "Spanish"@
    } else if key == "it"@ || key == "italian"@ {
        "Italian"@
    } else if key == "pt"@ || key == "portuguese"@ {
        "Portuguese"@
    } else if key == "ru"@ || key == "russian"@ {
        "Russian"@
    } else if key == "ar"@ || key == "arabic"@ {
        "Arabic"@
    } else if key == "hi"@ || key == "hindi"@ {
        "Hindi"@
    } else if key == "id"@ || key == "indonesian"@ {
        "Indonesian"@
    } else if key == "vi"@ || key == "vietnamese"@ {
        "Vietnamese"@
    } else if key == "th"@ || key == "thai"@ {
        "Thai"@
    } else {
        code
    }
}

/// The English name of the language with the code `code`; a code that is not known stands for
/// itself.
pub fn live_language_label<'a>(code: &'a str) -> (r: &'a str)
    ensures
        r@ == language_label(code@),
{
    let all = chars_of(code);
    let low = to_lower(trim(all.as_slice()));
    let key = low.as_slice();
    if equals(key, "") || equals(key, "auto") {
        "the source language"
    } else if equals(key, "ja") || equals(key, "jp") || equals(key, "japanese") {
        "Japanese"
    } else if equals(key, "en") || equals(key, "english") {
        "English"
    } else if equals(key, "ko") || equals(key, "kr") || equals(key, "korean") {
        "Korean"
    } else if equals(key, "zh") || equals(key, "cn") || equals(key, "chinese") {
        "Chinese"
    } else if equals(key, "fr") || equals(key, "french") {
        "French"
    } else if equals(key, "de") || equals(key, "german") {
        "German"
    } else if equals(key, "es") || equals(key, "spanish") {
        "Spanish"
    } else if equals(key, "it") || equals(key, "italian") {
        "Italian"
    } else if equals(key, "pt") || equals(key, "portuguese") {
        "Portuguese"
    } else if equals(key, "ru") || equals(key, "russian") {
        "Russian"
    } else if equals(key, "ar") || equals(key, "arabic") {
        "Arabic"
    } else if equals(key, "hi") || equals(key, "hindi") {
        "Hindi"
    } else if equals(key, "id") || equals(key, "indonesian") {
        "Indonesian"
    } else if equals(key, "vi") || equals(key, "vietnamese") {
        "Vietnamese"
    } else if equals(key, "th") || equals(key, "thai") {
        "Thai"
    } else {
        code
    }
}

// ---------------------------------------------------------------------------
// What is kept of a reply
// ---------------------------------------------------------------------------

/// A pattern that begins with a character that a text does not have stands nowhere in it, in whatever
/// case.
proof fn lemma_absent(s: Seq<char>, pat: Seq<char>)
    requires
        pat.len() > 0,
        pat[0] == '<',
        !s.contains('<'),
    ensures
        !crate::text::has_text(crate::text::lowered(s), pat),
        crate::text::first_at(crate::text::lowered(s), pat) is None,
        crate::text::last_at(crate::text::lowered(s), pat) is None,
{
    let low = crate::text::lowered(s);
    assert forall|i: int| !#[trigger] crate::text::occurs_at(low, pat, i) by {
        if crate::text::occurs_at(low, pat, i) {
            assert(low.subrange(i, i + pat.len())[0] == low[i]);
            assert(low[i] == crate::text::lower_char(s[i]));
            assert(s[i] == '<');
            assert(s.contains(s[i]));
        }
    }
    crate::text::lemma_first_at(low, pat);
    crate::text::lemma_last_at(low, pat);
}

proof fn lemma_tags()
    ensures
        "<think>"@.len() == 7 && "<think>"@[0] == '<',
        "</think>"@.len() == 8 && "</think>"@[0] == '<',
        "<thinking>"@.len() == 10 && "<thinking>"@[0] == '<',
        "</thinking>"@.len() == 11 && "</thinking>"@[0] == '<',
{
    reveal_strlit("<think>");
    reveal_strlit("</think>");
    reveal_strlit("<thinking>");
    reveal_strlit("</thinking>");
}

/// A reply without tags is its own answer.
pub proof fn law_reply_without_reasoning_is_the_answer(s: Seq<char>)
    requires
        !s.contains('<'),
    ensures
        answer(s) == crate::text::trimmed(s),
{
    lemma_tags();
    lemma_absent(s, "<think>"@);
    lemma_absent(s, "</think>"@);
    lemma_absent(s, "<thinking>"@);
    lemma_absent(s, "</thinking>"@);
}

/// A block of reasoning is cut out of a text.
proof fn lemma_block_goes(
    a: Seq<char>,
    x: Seq<char>,
    b: Seq<char>,
    open_tag: Seq<char>,
    close_tag: Seq<char>,
)
    requires
        !a.contains('<'),
        !x.contains('<'),
        !b.contains('<'),
        open_tag.len() > 0,
        close_tag.len() > 1,
        open_tag[0] == '<',
        close_tag[0] == '<',
        close_tag[1] == '/',
        open_tag.len() > 1,
        open_tag[1] != '/',
        forall|d: int| 0 < d < open_tag.len() ==> #[trigger] open_tag[d] != '<',
        crate::text::lowered(open_tag) == open_tag,
        crate::text::lowered(close_tag) == close_tag,
    ensures
        without_blocks(a + open_tag + x + close_tag + b, open_tag, close_tag) == a + b,
{
    let s = a + open_tag + x + close_tag + b;
    let low = crate::text::lowered(s);
    let p = a.len() as int;
    let q = (a.len() + open_tag.len() + x.len()) as int;
    assert forall|d: int| 0 <= d < open_tag.len() implies crate::text::lower_char(
        #[trigger] open_tag[d],
    ) == open_tag[d] by {
        assert(crate::text::lowered(open_tag)[d] == open_tag[d]);
    }
    assert forall|d: int| 0 <= d < close_tag.len() implies crate::text::lower_char(
        #[trigger] close_tag[d],
    ) == close_tag[d] by {
        assert(crate::text::lowered(close_tag)[d] == close_tag[d]);
    }
    assert(low.subrange(p, p + open_tag.len()) =~= open_tag) by {
        assert forall|d: int| 0 <= d < open_tag.len() implies low[p + d] == open_tag[d] by {
            assert(s[p + d] == open_tag[d]);
        }
    }
    assert(low.subrange(q, q + close_tag.len()) =~= close_tag) by {
        assert forall|d: int| 0 <= d < close_tag.len() implies low[q + d] == close_tag[d] by {
            assert(s[q + d] == close_tag[d]);
        }
    }
    assert(crate::text::occurs_at(low, open_tag, p));
    assert(crate::text::occurs_at(low, close_tag, q));
    crate::text::lemma_first_at(low, open_tag);
    crate::text::lemma_first_from(low, close_tag, p);
    let f = crate::text::first_at(low, open_tag)->0;
    assert(f == p) by {
        if f < p {
            assert(low.subrange(f, f + open_tag.len())[0] == low[f]);
            assert(s[f] == a[f]);
            assert(a.contains(a[f]));
        }
    }
    let g = crate::text::first_from(low, close_tag, p)->0;
    assert(g == q) by {
        if g < q {
            assert(low.subrange(g, g + close_tag.len())[0] == low[g]);
            if g < p + open_tag.len() {
                assert(s[g] == open_tag[g - p]);
                if g == p {
                    assert(low.subrange(g, g + close_tag.len())[1] == low[p + 1]);
                    assert(s[p + 1] == open_tag[1]);
                }
            } else {
                assert(s[g] == x[g - p - open_tag.len()]);
                assert(x.contains(x[g - p - open_tag.len()]));
            }
        }
    }
    let rest = s.take(p) + s.skip(q + close_tag.len());
    assert(rest =~= a + b);
    assert(!rest.contains('<')) by {
        if rest.contains('<') {
            let i = choose|i: int| 0 <= i < rest.len() && rest[i] == '<';
            if i < a.len() {
                assert(a.contains(a[i]));
            } else {
                assert(b.contains(b[i - a.len()]));
            }
        }
    }
    lemma_absent(rest, open_tag);
    assert(without_blocks(rest, open_tag, close_tag) == rest);
    assert(without_blocks(s, open_tag, close_tag) == without_blocks(rest, open_tag, close_tag));
}

/// What a model writes between the tags of its reasoning is no part of its answer; what stands before
/// and after them is.
pub proof fn law_reasoning_is_left_out(a: Seq<char>, x: Seq<char>, b: Seq<char>)
    requires
        !a.contains('<'),
        !x.contains('<'),
        !b.contains('<'),
    ensures
        answer(a + "<think>"@ + x + "</think>"@ + b) == crate::text::trimmed(a + b),
        answer(a + "<thinking>"@ + x + "</thinking>"@ + b) == crate::text::trimmed(a + b),
{
    lemma_tags();
    reveal_strlit("<think>");
    reveal_strlit("</think>");
    reveal_strlit("<thinking>");
    reveal_strlit("</thinking>");
    assert(crate::text::lowered("<think>"@) =~= "<think>"@);
    assert(crate::text::lowered("</think>"@) =~= "</think>"@);
    assert(crate::text::lowered("<thinking>"@) =~= "<thinking>"@);
    assert(crate::text::lowered("</thinking>"@) =~= "</thinking>"@);
    lemma_block_goes(a, x, b, "<think>"@, "</think>"@);
    lemma_block_goes(a, x, b, "<thinking>"@, "</thinking>"@);
    let rest = a + b;
    assert(!rest.contains('<')) by {
        if rest.contains('<') {
            let i = choose|i: int| 0 <= i < rest.len() && rest[i] == '<';
            if i < a.len() {
                assert(a.contains(a[i]));
            } else {
                assert(b.contains(b[i - a.len()]));
            }
        }
    }
    lemma_absent(rest, "<think>"@);
    lemma_absent(rest, "</think>"@);
    lemma_absent(rest, "<thinking>"@);
    lemma_absent(rest, "</thinking>"@);
    let s = a + "<thinking>"@ + x + "</thinking>"@ + b;
    lemma_other_tag_is_absent(a, x, b);
    assert(without_blocks(s, "<think>"@, "</think>"@) == s);
}

/// The short tag does not stand where the long one does.
proof fn lemma_other_tag_is_absent(a: Seq<char>, x: Seq<char>, b: Seq<char>)
    requires
        !a.contains('<'),
        !x.contains('<'),
        !b.contains('<'),
    ensures
        crate::text::first_at(
            crate::text::lowered(a + "<thinking>"@ + x + "</thinking>"@ + b),
            "<think>"@,
        ) is None,
{
    reveal_strlit("<think>");
    reveal_strlit("<thinking>");
    reveal_strlit("</thinking>");
    let pat = "<think>"@;
    let o = "<thinking>"@;
    let c = "</thinking>"@;
    let s = a + o + x + c + b;
    let low = crate::text::lowered(s);
    let p = a.len() as int;
    let q = (a.len() + 10 + x.len()) as int;
    assert forall|i: int| !#[trigger] crate::text::occurs_at(low, pat, i) by {
        if crate::text::occurs_at(low, pat, i) {
            let part = low.subrange(i, i + 7);
            assert(part[0] == low[i]);
            assert(part[1] == low[i + 1]);
            assert(part[6] == low[i + 6]);
            assert(s[i] == '<');
            if i < p {
                assert(s[i] == a[i]);
                assert(a.contains(a[i]));
            } else if i < p + 10 {
                assert(s[i] == o[i - p]);
                assert(i == p);
                assert(s[i + 6] == o[6]);
            } else if i < q {
                assert(s[i] == x[i - p - 10]);
                assert(x.contains(x[i - p - 10]));
            } else if i < q + 11 {
                assert(s[i] == c[i - q]);
                assert(i == q);
                assert(s[i + 1] == c[1]);
            } else {
                assert(s[i] == b[i - q - 11]);
                assert(b.contains(b[i - q - 11]));
            }
        }
    }
    crate::text::lemma_first_at(low, pat);
}

/// Nothing is taken from a text that neither begins nor ends with the character.
proof fn lemma_trimmed_of_none(s: Seq<char>, c: char)
    requires
        s.len() == 0 || (s[0] != c && s.last() != c),
    ensures
        crate::text::trimmed_of(s, c) == s,
{
}

/// A reply that is nothing but a text is kept as it stands: one without tags, without quotation marks
/// around it, and without a first line of its own that announces it.
pub proof fn law_plain_reply_is_kept(s: Seq<char>)
    requires
        !s.contains('<'),
        !crate::text::blank(s),
        crate::text::trimmed(s)[0] != '"' && crate::text::trimmed(s)[0] != '「'
            && crate::text::trimmed(s)[0] != '」',
        crate::text::trimmed(s).last() != '"' && crate::text::trimmed(s).last() != '「'
            && crate::text::trimmed(s).last() != '」',
        !crate::text::has_text(crate::text::trimmed(s), "\n\n"@) || ({
            let low = crate::text::lowered(first_line(crate::text::trimmed(s)));
            !crate::text::has_text(low, "here"@) && !crate::text::has_text(low, "sure"@)
                && !crate::text::has_text(low, "revised"@)
        }),
    ensures
        plain_answer(s) == crate::text::trimmed(s),
{
    let t = crate::text::trimmed(s);
    law_reply_without_reasoning_is_the_answer(s);
    crate::text::lemma_trimmed_twice(s);
    lemma_trimmed_of_none(t, '"');
    lemma_trimmed_of_none(t, '「');
    lemma_trimmed_of_none(t, '」');
    crate::text::lemma_first_at(t, "\n\n"@);
}

/// The first line of a text ends with its first line break.
proof fn lemma_first_line_is(line: Seq<char>, rest: Seq<char>)
    requires
        line.len() > 0,
        !line.contains('\n'),
        line.last() != '\r',
    ensures
        first_line(line + seq!['\n'] + rest) == line,
        first_line(line) == line,
{
    let s = line + seq!['\n'] + rest;
    let n = line.len() as int;
    crate::text::lemma_next_index(s, '\n', 0);
    let e = crate::text::next_index(s, '\n', 0);
    assert(s[n] == '\n');
    if e < n {
        assert(s[e] == line[e]);
        assert(line.contains(line[e]));
    }
    assert(e == n);
    assert(s.subrange(0, n) =~= line);
    crate::text::lemma_next_index(line, '\n', 0);
    let f = crate::text::next_index(line, '\n', 0);
    if f < n {
        assert(line.contains(line[f]));
    }
    assert(line.skip(0) =~= line);
}

/// A text of a line, an empty line and a body, trimmed.
proof fn lemma_body_trimmed(line: Seq<char>, body: Seq<char>) -> (tail: Seq<char>)
    requires
        line.len() > 0,
        !crate::text::is_white(line[0]),
        !crate::text::blank(body),
    ensures
        crate::text::trimmed(line + seq!['\n', '\n'] + body) == line + seq!['\n', '\n'] + tail,
        crate::text::trimmed(tail) == crate::text::trimmed(body),
{
    let gap = seq!['\n', '\n'];
    let s = line + gap + body;
    let t = crate::text::trimmed(s);
    let n = line.len() as int;
    let r = crate::text::lemma_trimmed(s);
    let w = crate::text::lemma_trimmed(body);
    assert(s[0] == line[0]);
    assert(s[n + 2 + w.0] == body[w.0]);
    assert(r.0 == 0 && n + 2 + w.0 < r.1);
    let tail = t.skip(n + 2);
    assert(t =~= line + gap + tail);
    let v = body.skip(r.1 - n - 2);
    assert(crate::text::all_white(v)) by {
        assert forall|j: int| 0 <= j < v.len() implies crate::text::is_white(#[trigger] v[j]) by {
            assert(v[j] == s[r.1 + j]);
        }
    }
    crate::text::lemma_trimmed_around(Seq::empty(), tail, v);
    assert(Seq::<char>::empty() + tail + v =~= body);
    tail
}

/// The first empty line of a text that begins with a line and an empty line is that one.
proof fn lemma_first_gap(line: Seq<char>, tail: Seq<char>)
    requires
        !line.contains('\n'),
    ensures
        crate::text::first_at(line + seq!['\n', '\n'] + tail, seq!['\n', '\n']) == Some(
            line.len() as int,
        ),
{
    let gap = seq!['\n', '\n'];
    let t = line + gap + tail;
    let n = line.len() as int;
    assert(t.subrange(n, n + 2) =~= gap);
    assert forall|i: int| 0 <= i < n implies !#[trigger] crate::text::occurs_at(t, gap, i) by {
        if crate::text::occurs_at(t, gap, i) {
            assert(t.subrange(i, i + 2)[0] == t[i]);
            assert(line.contains(line[i]));
        }
    }
    crate::text::lemma_first_at_is(t, gap, n);
}

proof fn lemma_line_before_gap(line: Seq<char>, tail: Seq<char>)
    requires
        line.len() > 0,
        !line.contains('\n'),
        line.last() != '\r',
    ensures
        first_line(line + seq!['\n', '\n'] + tail) == line,
{
    lemma_first_line_is(line, seq!['\n'] + tail);
    assert(line + seq!['\n'] + (seq!['\n'] + tail) =~= line + seq!['\n', '\n'] + tail);
}

/// A first line that announces the answer, with an empty line after it, is no part of the answer.
pub proof fn law_announcement_is_left_out(line: Seq<char>, body: Seq<char>)
    requires
        line.len() > 0,
        !line.contains('\n'),
        !line.contains('<'),
        !body.contains('<'),
        !crate::text::is_white(line[0]),
        line.last() != '\r',
        !crate::text::blank(body),
        crate::text::has_text(crate::text::lowered(line), "here"@) || crate::text::has_text(
            crate::text::lowered(line),
            "sure"@,
        ) || crate::text::has_text(crate::text::lowered(line), "revised"@),
    ensures
        plain_answer(line + "\n\n"@ + body) == crate::text::trimmed(body),
{
    let gap = "\n\n"@;
    let s = line + gap + body;
    let n = line.len() as int;
    assert(gap =~= seq!['\n', '\n']) by {
        reveal_strlit("\n\n");
    }
    assert(!s.contains('<')) by {
        if s.contains('<') {
            let i = choose|i: int| 0 <= i < s.len() && s[i] == '<';
            if i < n {
                assert(line.contains(line[i]));
            } else if i >= n + 2 {
                assert(body.contains(body[i - n - 2]));
            }
        }
    }
    law_reply_without_reasoning_is_the_answer(s);
    crate::text::lemma_trimmed_twice(s);
    let tail = lemma_body_trimmed(line, body);
    lemma_first_gap(line, tail);
    lemma_line_before_gap(line, tail);
    let t = crate::text::trimmed(s);
    assert(t.skip(n + gap.len()) =~= tail);
}

/// Quotation marks around an answer are no part of it.
pub proof fn law_quotation_marks_are_left_out(x: Seq<char>)
    requires
        !x.contains('<'),
        !crate::text::has_text(x, "\n\n"@),
        x.len() > 0,
        crate::text::trimmed(x) == x,
        x[0] != '"' && x[0] != '「' && x[0] != '」',
        x.last() != '"' && x.last() != '「' && x.last() != '」',
    ensures
        plain_answer(seq!['"'] + x + seq!['"']) == x,
        plain_answer(seq!['「'] + x + seq!['」']) == x,
{
    lemma_quoted(x, '"', '"');
    lemma_quoted(x, '「', '」');
    let a = seq!['"'] + x + seq!['"'];
    let b = seq!['「'] + x + seq!['」'];
    lemma_taken_off(x, '"', '"');
    lemma_trimmed_of_none(x, '「');
    lemma_trimmed_of_none(x, '」');
    lemma_trimmed_of_none(b, '"');
    lemma_taken_off_front(x, '「', '」');
    lemma_taken_off_back(x, '」');
}

proof fn lemma_quoted(x: Seq<char>, p: char, q: char)
    requires
        !x.contains('<'),
        !crate::text::has_text(x, "\n\n"@),
        x.len() > 0,
        p == '"' && q == '"' || p == '「' && q == '」',
    ensures
        ({
            let s = seq![p] + x + seq![q];
            answer(s) == s && crate::text::trimmed(s) == s && crate::text::first_at(
                s,
                "\n\n"@,
            ) is None
        }),
{
    let s = seq![p] + x + seq![q];
    reveal_strlit("\n\n");
    assert(!s.contains('<')) by {
        if s.contains('<') {
            let i = choose|i: int| 0 <= i < s.len() && s[i] == '<';
            assert(0 < i < s.len() - 1);
            assert(x.contains(x[i - 1]));
        }
    }
    law_reply_without_reasoning_is_the_answer(s);
    crate::text::lemma_trimmed_is(s, 0, s.len() as int);
    assert(s.subrange(0, s.len() as int) =~= s);
    crate::text::lemma_first_at(s, "\n\n"@);
    assert forall|i: int| !#[trigger] crate::text::occurs_at(s, "\n\n"@, i) by {
        if crate::text::occurs_at(s, "\n\n"@, i) {
            let part = s.subrange(i, i + 2);
            assert(part[0] == s[i] && part[1] == s[i + 1]);
            assert(0 < i && i + 1 < s.len() - 1);
            assert(x.subrange(i - 1, i + 1) =~= part);
            assert(crate::text::occurs_at(x, "\n\n"@, i - 1));
        }
    }
}

proof fn lemma_taken_off(x: Seq<char>, p: char, q: char)
    requires
        x.len() > 0,
        p == q,
        x[0] != p,
        x.last() != q,
    ensures
        crate::text::trimmed_of(seq![p] + x + seq![q], p) == x,
{
    let s = seq![p] + x + seq![q];
    let a = x + seq![q];
    lemma_front_goes(s, p);
    assert(s.skip(1) =~= a);
    lemma_taken_off_back(x, q);
    assert(a[0] == x[0]);
    assert(crate::text::drop_leading(a, crate::text::just(p)) == a);
}

/// One character goes from the front of a text where the next is another.
proof fn lemma_front_goes(s: Seq<char>, p: char)
    requires
        s.len() > 1,
        s[0] == p,
        s[1] != p,
    ensures
        crate::text::drop_leading(s, crate::text::just(p)) == s.skip(1),
{
    let f = crate::text::just(p);
    let n = crate::text::lemma_drop_leading(s, f);
    if n == 0 {
        assert(!f(s[0]));
    }
    if n > 1 {
        assert(f(s[1]));
    }
}

proof fn lemma_taken_off_front(x: Seq<char>, p: char, q: char)
    requires
        x.len() > 0,
        p != q,
        x[0] != p,
    ensures
        crate::text::trimmed_of(seq![p] + x + seq![q], p) == x + seq![q],
{
    let s = seq![p] + x + seq![q];
    let a = x + seq![q];
    lemma_front_goes(s, p);
    assert(s.skip(1) =~= a);
    assert(a.last() == q);
}

proof fn lemma_taken_off_back(x: Seq<char>, q: char)
    requires
        x.len() > 0,
        x[0] != q,
        x.last() != q,
    ensures
        crate::text::trimmed_of(x + seq![q], q) == x,
        crate::text::drop_trailing(x + seq![q], crate::text::just(q)) == x,
{
    let a = x + seq![q];
    let f = crate::text::just(q);
    assert(a[0] == x[0]);
    assert(crate::text::drop_leading(a, f) == a);
    let n = crate::text::lemma_drop_trailing(a, f);
    let m = x.len() as int;
    assert(a[m] == q && a[m - 1] == x.last());
    if n == m + 1 {
        assert(!f(a[m]));
    }
    if n < m {
        assert(f(a[m - 1]));
    }
    assert(a.take(m) =~= x);
}

/// A list of marks has nothing to take off a text that begins with none of them.
proof fn lemma_no_mark(s: Seq<char>, marks: Seq<Seq<char>>, i: int)
    requires
        0 <= i,
        forall|k: int|
            0 <= k < marks.len() ==> (#[trigger] marks[k]).len() > 0 && s.len() > 0 && s[0]
                != marks[k][0],
    ensures
        mark_len(s, marks, i) == 0,
    decreases marks.len() - i,
{
    if i < marks.len() {
        lemma_no_mark(s, marks, i + 1);
        if crate::text::begins(s, marks[i]) {
            assert(s.subrange(0, marks[i].len() as int)[0] == s[0]);
        }
    }
}

/// Whether a character may begin a line that is taken for a title as it stands.
pub open spec fn is_plain_start(c: char) -> bool {
    &&& !crate::text::is_white(c)
    &&& c != '#' && c != '-' && c != '*' && c != '>' && c != '・' && c != '●' && c != '■'
    &&& !('0' <= c && c <= '9')
    &&& c != '"' && c != '\'' && c != '「' && c != '」' && c != '『' && c != '』'
}

/// Whether a character may end a line that is taken for a title as it stands.
pub open spec fn is_plain_end(c: char) -> bool {
    &&& !crate::text::is_white(c)
    &&& c != '"' && c != '\'' && c != '「' && c != '」' && c != '『' && c != '』'
}

proof fn lemma_plain_line(s: Seq<char>)
    requires
        s.len() > 0,
        is_plain_start(s[0]),
        is_plain_end(s.last()),
    ensures
        without_leads(s) == s,
        title_core(s) == s,
{
    reveal_strlit("# ");
    reveal_strlit("## ");
    reveal_strlit("### ");
    reveal_strlit("#### ");
    reveal_strlit("##### ");
    reveal_strlit("###### ");
    reveal_strlit("- ");
    reveal_strlit("* ");
    reveal_strlit("> ");
    reveal_strlit("・");
    reveal_strlit("● ");
    reveal_strlit("■ ");
    lemma_no_mark(s, title_marks(), 0);
    assert(digits_len(s) == 0);
    crate::text::lemma_trimmed_is(s, 0, s.len() as int);
    assert(s.subrange(0, s.len() as int) =~= s);
    lemma_trimmed_of_none(s, '"');
    lemma_trimmed_of_none(s, '\'');
    lemma_trimmed_of_none(s, '「');
    lemma_trimmed_of_none(s, '」');
    lemma_trimmed_of_none(s, '『');
    lemma_trimmed_of_none(s, '』');
}

/// The first line of a text of which it is the first to be taken for a title.
proof fn lemma_first_filled_is(line: Seq<char>, rest: Seq<char>)
    requires
        line.len() > 0,
        !line.contains('\n'),
        !crate::text::is_white(line[0]),
        !crate::text::is_white(line.last()),
    ensures
        crate::text::first_filled_line(line) == Some(line),
        crate::text::first_filled_line(line + seq!['\n'] + rest) == Some(line),
{
    lemma_first_line_is(line, rest);
    crate::text::lemma_trimmed_is(line, 0, line.len() as int);
    assert(line.subrange(0, line.len() as int) =~= line);
    let whole = line + seq!['\n'] + rest;
    assert(crate::text::lines_of(line)[0] == line);
    assert(crate::text::lines_of(whole)[0] == line);
}

/// A plain first line is the title of a text, whatever follows it; of a long one, the first forty
/// characters and an ellipsis are.
pub proof fn law_plain_first_line_is_the_title(line: Seq<char>, rest: Seq<char>)
    requires
        line.len() > 0,
        !line.contains('\n'),
        is_plain_start(line[0]),
        is_plain_end(line.last()),
    ensures
        line.len() <= 40 ==> title_of(line) == Some(line) && title_of(line + seq!['\n'] + rest)
            == Some(line),
        line.len() > 40 ==> title_of(line) == Some(line.take(40).push('…')) && title_of(
            line + seq!['\n'] + rest,
        ) == Some(line.take(40).push('…')),
{
    lemma_first_filled_is(line, rest);
    lemma_plain_line(line);
}

/// What a mark stands before is what begins a text with the mark.
proof fn lemma_begins_like(s: Seq<char>, m: Seq<char>, other: Seq<char>)
    requires
        crate::text::begins(s, m),
        crate::text::begins(s, other),
    ensures
        forall|d: int| 0 <= d < m.len() && d < other.len() ==> #[trigger] m[d] == other[d],
{
    assert forall|d: int| 0 <= d < m.len() && d < other.len() implies #[trigger] m[d]
        == other[d] by {
        assert(s.subrange(0, m.len() as int)[d] == s[d]);
        assert(s.subrange(0, other.len() as int)[d] == s[d]);
    }
}

/// A mark is found where it begins a text and no other mark does.
proof fn lemma_mark_found(s: Seq<char>, marks: Seq<Seq<char>>, k: int, i: int)
    requires
        0 <= i <= k < marks.len(),
        crate::text::begins(s, marks[k]),
        forall|j: int| i <= j < k ==> !crate::text::begins(s, #[trigger] marks[j]),
    ensures
        mark_len(s, marks, i) == marks[k].len(),
    decreases k - i,
{
    if i < k {
        lemma_mark_found(s, marks, k, i + 1);
        assert(!crate::text::begins(s, marks[i]));
    }
}

/// The mark of a heading, of an item or of a quotation before a plain line is no part of the title.
pub proof fn law_marks_are_no_part_of_the_title(m: Seq<char>, x: Seq<char>)
    requires
        m == "# "@ || m == "## "@ || m == "### "@ || m == "#### "@ || m == "##### "@ || m
            == "###### "@ || m == "- "@ || m == "* "@ || m == "> "@ || m == "・"@ || m == "● "@ || m
            == "■ "@,
        x.len() > 0,
        !x.contains('\n'),
        is_plain_start(x[0]),
        is_plain_end(x.last()),
    ensures
        title_of(m + x) == title_of(x),
{
    reveal_strlit("# ");
    reveal_strlit("## ");
    reveal_strlit("### ");
    reveal_strlit("#### ");
    reveal_strlit("##### ");
    reveal_strlit("###### ");
    reveal_strlit("- ");
    reveal_strlit("* ");
    reveal_strlit("> ");
    reveal_strlit("・");
    reveal_strlit("● ");
    reveal_strlit("■ ");
    let s = m + x;
    let marks = title_marks();
    assert(s[0] == m[0]);
    assert(s.last() == x.last());
    assert(!s.contains('\n')) by {
        if s.contains('\n') {
            let i = choose|i: int| 0 <= i < s.len() && s[i] == '\n';
            if i >= m.len() {
                assert(x.contains(x[i - m.len()]));
            }
        }
    }
    lemma_first_filled_is(s, Seq::empty());
    lemma_first_filled_is(x, Seq::empty());
    assert(s.subrange(0, m.len() as int) =~= m);
    let k: int = if m == "# "@ {
        0
    } else if m == "## "@ {
        1
    } else if m == "### "@ {
        2
    } else if m == "#### "@ {
        3
    } else if m == "##### "@ {
        4
    } else if m == "###### "@ {
        5
    } else if m == "- "@ {
        6
    } else if m == "* "@ {
        7
    } else if m == "> "@ {
        8
    } else if m == "・"@ {
        9
    } else if m == "● "@ {
        10
    } else {
        11
    };
    assert(marks[k] == m);
    assert forall|j: int| 0 <= j < k implies !crate::text::begins(s, #[trigger] marks[j]) by {
        if crate::text::begins(s, marks[j]) {
            lemma_begins_like(s, m, marks[j]);
            assert(m[0] == marks[j][0]);
            if k < 6 {
                assert(m[j + 1] == '#');
                assert(marks[j][j + 1] == ' ');
                assert(m[j + 1] == marks[j][j + 1]);
            }
        }
    }
    lemma_mark_found(s, marks, k, 0);
    assert(s.skip(m.len() as int) =~= x);
    lemma_plain_line(x);
    assert(without_leads(s) == without_leads(x));
}

/// The orders of the prompts are told from a translation, each of them: a text with one of them in it
/// is none. A text that has none of them, and is not blank, is.
pub proof fn law_orders_are_no_translation(s: Seq<char>)
    ensures
        ({
            let low = crate::text::lowered(crate::text::trimmed(s));
            let leaks = crate::text::has_text(low, "output only"@) || crate::text::has_text(
                low,
                "translation only"@,
            ) || crate::text::has_text(low, "translated text only"@) || crate::text::has_text(
                low,
                "do not explain"@,
            ) || crate::text::has_text(low, "answer with"@) || crate::text::has_text(
                low,
                "no notes"@,
            ) || crate::text::has_text(low, "translator"@) || crate::text::has_text(
                low,
                "translate live captions"@,
            ) || crate::text::has_text(low, "translation engine"@) || crate::text::has_text(
                low,
                "return only"@,
            ) || crate::text::has_text(low, "source language"@) || crate::text::has_text(
                low,
                "target language"@,
            ) || crate::text::has_text(low, "入力言語"@) || crate::text::has_text(low, "出力言語"@)
                || crate::text::has_text(low, "翻訳本文のみ"@) || crate::text::has_text(low, "出力は"@)
                || crate::text::has_text(low, "前置き"@) || crate::text::has_text(low, "見出し"@)
                || crate::text::has_text(low, "引用符"@) || crate::text::has_text(low, "追加指示"@)
                || crate::text::has_text(low, "説明は出力"@) || crate::text::has_text(low, "条件:"@)
                || crate::text::has_text(low, "入力:"@);
            bad_translation(s) <==> crate::text::blank(s) || leaks
        }),
{
    let low = crate::text::lowered(crate::text::trimmed(s));
    let list = leaked_markers();
    assert(list[0] == "output only"@ && list[1] == "translation only"@ && list[2]
        == "translated text only"@ && list[3] == "do not explain"@ && list[4] == "answer with"@
        && list[5] == "no notes"@ && list[6] == "translator"@ && list[7]
        == "translate live captions"@);
    assert(list[8] == "translation engine"@ && list[9] == "return only"@ && list[10]
        == "source language"@ && list[11] == "target language"@ && list[12] == "入力言語"@ && list[13]
        == "出力言語"@ && list[14] == "翻訳本文のみ"@ && list[15] == "出力は"@);
    assert(list[16] == "前置き"@ && list[17] == "見出し"@ && list[18] == "引用符"@ && list[19]
        == "追加指示"@ && list[20] == "説明は出力"@ && list[21] == "条件:"@ && list[22] == "入力:"@);
    assert(list.len() == 23);
    if crate::text::has_any(low, list) {
        let i = choose|i: int|
            0 <= i < list.len() && crate::text::has_text(low, #[trigger] list[i]);
        assert(crate::text::has_text(low, list[i]));
    }
}

/// Languages go by their English names, whether they are given by their codes or by their names, in
/// whatever case; a language that is not known goes by what is given.
pub proof fn law_languages_go_by_their_names(code: Seq<char>)
    ensures
        ({
            let key = crate::text::lowered(crate::text::trimmed(code));
            let name = language_label(code);
            &&& key == "ja"@ || key == "japanese"@ ==> name == "Japanese"@
            &&& key == "en"@ || key == "english"@ ==> name == "English"@
            &&& key == "ko"@ || key == "korean"@ ==> name == "Korean"@
            &&& key == "zh"@ || key == "chinese"@ ==> name == "Chinese"@
            &&& key == "fr"@ || key == "french"@ ==> name == "French"@
            &&& key == "de"@ || key == "german"@ ==> name == "German"@
            &&& key == "es"@ || key == "spanish"@ ==> name == "Spanish"@
            &&& key == "it"@ || key == "italian"@ ==> name == "Italian"@
            &&& key == "pt"@ || key == "portuguese"@ ==> name == "Portuguese"@
            &&& key == "ru"@ || key == "russian"@ ==> name == "Russian"@
            &&& key == "ar"@ || key == "arabic"@ ==> name == "Arabic"@
            &&& key == "hi"@ || key == "hindi"@ ==> name == "Hindi"@
            &&& key == "id"@ || key == "indonesian"@ ==> name == "Indonesian"@
            &&& key == "vi"@ || key == "vietnamese"@ ==> name == "Vietnamese"@
            &&& key == "th"@ || key == "thai"@ ==> name == "Thai"@
            &&& key == "jp"@ ==> name == "Japanese"@
            &&& key == "kr"@ ==> name == "Korean"@
            &&& key == "cn"@ ==> name == "Chinese"@
            &&& key.len() == 0 || key == "auto"@ ==> name == "the source language"@
        }),
{
    reveal_strlit("");
    reveal_strlit("auto");
    reveal_strlit("ja");
    reveal_strlit("jp");
    reveal_strlit("japanese");
    reveal_strlit("en");
    reveal_strlit("english");
    reveal_strlit("ko");
    reveal_strlit("kr");
    reveal_strlit("korean");
    reveal_strlit("zh");
    reveal_strlit("cn");
    reveal_strlit("chinese");
    reveal_strlit("fr");
    reveal_strlit("french");
    reveal_strlit("de");
    reveal_strlit("german");
    reveal_strlit("es");
    reveal_strlit("spanish");
    reveal_strlit("it");
    reveal_strlit("italian");
    reveal_strlit("pt");
    reveal_strlit("portuguese");
    reveal_strlit("ru");
    reveal_strlit("russian");
    reveal_strlit("ar");
    reveal_strlit("arabic");
    reveal_strlit("hi");
    reveal_strlit("hindi");
    reveal_strlit("id");
    reveal_strlit("indonesian");
    reveal_strlit("vi");
    reveal_strlit("vietnamese");
    reveal_strlit("th");
    reveal_strlit("thai");
    assert("auto"@.len() == 4 && "auto"@[0] == 'a' && "auto"@[1] == 'u');
    assert("ja"@.len() == 2 && "ja"@[0] == 'j' && "ja"@[1] == 'a');
    assert("jp"@.len() == 2 && "jp"@[0] == 'j' && "jp"@[1] == 'p');
    assert("japanese"@.len() == 8 && "japanese"@[0] == 'j' && "japanese"@[1] == 'a');
    assert("en"@.len() == 2 && "en"@[0] == 'e' && "en"@[1] == 'n');
    assert("english"@.len() == 7 && "english"@[0] == 'e' && "english"@[1] == 'n');
    assert("ko"@.len() == 2 && "ko"@[0] == 'k' && "ko"@[1] == 'o');
    assert("kr"@.len() == 2 && "kr"@[0] == 'k' && "kr"@[1] == 'r');
    assert("korean"@.len() == 6 && "korean"@[0] == 'k' && "korean"@[1] == 'o');
    assert("zh"@.len() == 2 && "zh"@[0] == 'z' && "zh"@[1] == 'h');
    assert("cn"@.len() == 2 && "cn"@[0] == 'c' && "cn"@[1] == 'n');
    assert("chinese"@.len() == 7 && "chinese"@[0] == 'c' && "chinese"@[1] == 'h');
    assert("fr"@.len() == 2 && "fr"@[0] == 'f' && "fr"@[1] == 'r');
    assert("french"@.len() == 6 && "french"@[0] == 'f' && "french"@[1] == 'r');
    assert("de"@.len() == 2 && "de"@[0] == 'd' && "de"@[1] == 'e');
    assert("german"@.len() == 6 && "german"@[0] == 'g' && "german"@[1] == 'e');
    assert("es"@.len() == 2 && "es"@[0] == 'e' && "es"@[1] == 's');
    assert("spanish"@.len() == 7 && "spanish"@[0] == 's' && "spanish"@[1] == 'p');
    assert("it"@.len() == 2 && "it"@[0] == 'i' && "it"@[1] == 't');
    assert("italian"@.len() == 7 && "italian"@[0] == 'i' && "italian"@[1] == 't');
    assert("pt"@.len() == 2 && "pt"@[0] == 'p' && "pt"@[1] == 't');
    assert("portuguese"@.len() == 10 && "portuguese"@[0] == 'p' && "portuguese"@[1] == 'o');
    assert("ru"@.len() == 2 && "ru"@[0] == 'r' && "ru"@[1] == 'u');
    assert("russian"@.len() == 7 && "russian"@[0] == 'r' && "russian"@[1] == 'u');
    assert("ar"@.len() == 2 && "ar"@[0] == 'a' && "ar"@[1] == 'r');
    assert("arabic"@.len() == 6 && "arabic"@[0] == 'a' && "arabic"@[1] == 'r');
    assert("hi"@.len() == 2 && "hi"@[0] == 'h' && "hi"@[1] == 'i');
    assert("hindi"@.len() == 5 && "hindi"@[0] == 'h' && "hindi"@[1] == 'i');
    assert("id"@.len() == 2 && "id"@[0] == 'i' && "id"@[1] == 'd');
    assert("indonesian"@.len() == 10 && "indonesian"@[0] == 'i' && "indonesian"@[1] == 'n');
    assert("vi"@.len() == 2 && "vi"@[0] == 'v' && "vi"@[1] == 'i');
    assert("vietnamese"@.len() == 10 && "vietnamese"@[0] == 'v' && "vietnamese"@[1] == 'i');
    assert("th"@.len() == 2 && "th"@[0] == 't' && "th"@[1] == 'h');
    assert("thai"@.len() == 4 && "thai"@[0] == 't' && "thai"@[1] == 'h');
    let key = crate::text::lowered(crate::text::trimmed(code));
    if key.len() == 0 {
        assert(key =~= ""@);
    }
}

/// Braces nest outside strings and count for nothing inside them. A string ends at the next quotation
/// mark that no backslash stands before, and a backslash takes away what the next character means.
pub proof fn law_braces_count_outside_strings(st: JsonState, c: char)
    ensures
        ({
            let next = json_step(st, c);
            &&& st.escape ==> !next.escape && next.depth == st.depth && next.in_string
                == st.in_string
            &&& !st.escape && st.in_string ==> next.depth == st.depth && (next.escape <==> c
                == '\\') && (next.in_string <==> c != '"')
            &&& !st.escape && !st.in_string ==> !next.escape && (next.in_string <==> c == '"')
            &&& !st.escape && !st.in_string && c == '{' ==> next.depth == st.depth + 1
            &&& !st.escape && !st.in_string && c == '}' ==> next.depth == st.depth - 1
            &&& !st.escape && !st.in_string && c != '{' && c != '}' ==> next.depth == st.depth
        }),
{
}

/// An object without strings or objects in it is the one that is found in whatever stands before and
/// after it, where no brace stands before it.
pub proof fn law_plain_object_is_found(pre: Seq<char>, inner: Seq<char>, post: Seq<char>)
    requires
        !pre.contains('{'),
        forall|i: int|
            0 <= i < inner.len() ==> (#[trigger] inner[i]) != '{' && inner[i] != '}' && inner[i]
                != '"',
    ensures
        is_first_object(pre + (seq!['{'] + inner + seq!['}']) + post, seq!['{'] + inner + seq!['}']),
{
    let o = seq!['{'] + inner + seq!['}'];
    let s = pre + o + post;
    crate::text::lemma_next_index(s, '{', 0);
    let start = crate::text::next_index(s, '{', 0);
    assert(s[pre.len() as int] == '{');
    assert(start == pre.len()) by {
        if start < pre.len() {
            assert(s[start] == pre[start]);
            assert(pre.contains(pre[start]));
        }
    }
    assert(s.subrange(start, start + o.len()) =~= o);
    assert forall|k: int| 0 < k < o.len() implies (#[trigger] json_state(o.take(k))) == (JsonState {
        depth: 1,
        in_string: false,
        escape: false,
    }) by {
        lemma_inside_object(o, inner, k);
    }
    let last = o.len() - 1;
    assert(o.drop_last() =~= o.take(last));
    assert(json_state(o.take(last)).depth == 1) by {
        lemma_inside_object(o, inner, last);
    }
}

proof fn lemma_inside_object(o: Seq<char>, inner: Seq<char>, k: int)
    requires
        o == seq!['{'] + inner + seq!['}'],
        0 < k < o.len(),
        forall|i: int|
            0 <= i < inner.len() ==> (#[trigger] inner[i]) != '{' && inner[i] != '}' && inner[i]
                != '"',
    ensures
        json_state(o.take(k)) == (JsonState { depth: 1, in_string: false, escape: false }),
    decreases k,
{
    let part = o.take(k);
    assert(part.drop_last() =~= o.take(k - 1));
    assert(part.last() == o[k - 1]);
    if k == 1 {
        assert(o.take(0) =~= Seq::<char>::empty());
        assert(json_state(Seq::<char>::empty()) == (JsonState {
            depth: 0,
            in_string: false,
            escape: false,
        }));
    } else {
        lemma_inside_object(o, inner, k - 1);
        assert(o[k - 1] == inner[k - 2]);
    }
}

/// What follows the end of a reasoning that was never begun is looked for after the last such end,
/// and only where nothing before it opens a tag. A reasoning that is never ended begins at its first
/// tag, and only where no tag is closed after it.
pub proof fn law_halves_of_reasoning_are_found(low: Seq<char>, tag: Seq<char>)
    ensures
        after_closer(low, tag) matches Some(k) ==> {
            let p = k - tag.len();
            &&& crate::text::occurs_at(low, tag, p)
            &&& forall|j: int| p < j ==> !#[trigger] crate::text::occurs_at(low, tag, j)
            &&& forall|i: int| 0 <= i < p ==> #[trigger] low[i] != '<'
        },
        (after_closer(low, tag) is None && crate::text::has_text(low, tag)) ==> exists|i: int|
            0 <= i < low.len() && #[trigger] low[i] == '<',
        unclosed_at(low, tag) matches Some(a) ==> {
            &&& crate::text::occurs_at(low, tag, a)
            &&& forall|j: int| 0 <= j < a ==> !#[trigger] crate::text::occurs_at(low, tag, j)
            &&& forall|j: int| a <= j < low.len() - 1 ==> !(#[trigger] low[j] == '<' && low[j + 1]
                == '/')
        },
        (unclosed_at(low, tag) is None && crate::text::has_text(low, tag))
            ==> crate::text::has_text(low, "</"@),
{
    reveal_strlit("<");
    reveal_strlit("</");
    crate::text::lemma_last_at(low, tag);
    crate::text::lemma_first_at(low, tag);
    if let Some(p) = crate::text::last_at(low, tag) {
        let head = low.take(p);
        if crate::text::has_text(head, "<"@) {
            let i = choose|i: int| #[trigger] crate::text::occurs_at(head, "<"@, i);
            assert(head.subrange(i, i + 1)[0] == head[i]);
            assert(low[i] == '<');
        } else {
            assert forall|i: int| 0 <= i < p implies #[trigger] low[i] != '<' by {
                if low[i] == '<' {
                    assert(head[i] == '<');
                    assert(head.subrange(i, i + 1) =~= "<"@);
                    assert(crate::text::occurs_at(head, "<"@, i));
                }
            }
        }
    }
    if let Some(a) = crate::text::first_at(low, tag) {
        let tail = low.skip(a);
        if crate::text::has_text(tail, "</"@) {
            let i = choose|i: int| #[trigger] crate::text::occurs_at(tail, "</"@, i);
            assert(low.subrange(a + i, a + i + 2) =~= tail.subrange(i, i + 2));
            assert(crate::text::occurs_at(low, "</"@, a + i));
        } else {
            assert forall|j: int| a <= j < low.len() - 1 implies !(#[trigger] low[j] == '<' && low[j
                + 1] == '/') by {
                if low[j] == '<' && low[j + 1] == '/' {
                    assert(tail[j - a] == '<' && tail[j - a + 1] == '/');
                    assert(tail.subrange(j - a, j - a + 2) =~= "</"@);
                    assert(crate::text::occurs_at(tail, "</"@, j - a));
                }
            }
        }
    }
}

} // verus!
