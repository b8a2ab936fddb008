//! Excerpts of linked notes, as background for a chat model.

use crate::records::LinkedNote;
use crate::storage::Storage;
use crate::text::{
    chars_of, clip, copy_chars, is_blank, join, same, text_of, trim, trim_text,
};
use vstd::prelude::*;
use vstd::slice::slice_subrange;

verus! {

/// The greatest number of characters of linked notes that a model is given.
pub const MAX_LINKED_CONTEXT_CHARS: usize = 4000;

/// The greatest number of characters of one linked note that a model is given.
pub const MAX_PER_LINKED_NOTE_CHARS: usize = 1000;

/// What of a note's text fits: at most a thousand characters and an ellipsis, and at most what
/// remains.
pub open spec fn excerpt(text: Seq<char>, remaining: int) -> Seq<char> {
    let s = crate::text::clipped(crate::text::trimmed(text), MAX_PER_LINKED_NOTE_CHARS as int);
    if s.len() > remaining {
        s.take(remaining)
    } else {
        s
    }
}

/// How a linked note relates to the note at hand.
pub open spec fn relation(n: crate::records::LinkedNoteView) -> Seq<char> {
    match crate::text::filled(n.label) {
        Some(label) => if n.direction == "out"@ {
            "Referenced from this note with label \""@ + label + "\""@
        } else if n.direction == "in"@ {
            "Backlink to this note with label \""@ + label + "\""@
        } else {
            "Related note"@
        },
        None => if n.direction == "out"@ {
            "Linked note"@
        } else if n.direction == "in"@ {
            "Backlink source"@
        } else {
            "Related note"@
        },
    }
}

/// The line that introduces a linked note.
pub open spec fn heading(n: crate::records::LinkedNoteView) -> Seq<char> {
    if crate::text::blank(n.title) {
        "- ["@ + relation(n) + "]"@
    } else {
        "- ["@ + relation(n) + "]"@ + " "@ + crate::text::trimmed(n.title)
    }
}

/// A linked note as the model is given it.
pub open spec fn context_entry(n: crate::records::LinkedNoteView, remaining: int) -> Seq<char> {
    heading(n) + "\n  "@ + excerpt(n.text, remaining)
}

/// What remains after an entry.
pub open spec fn remains(n: crate::records::LinkedNoteView, remaining: int) -> int {
    let used = context_entry(n, remaining).len();
    if used < remaining {
        remaining - used
    } else {
        0
    }
}

/// The linked notes from the `i`th on as the model is given them, while any room remains.
pub open spec fn context_entries(
    list: Seq<crate::records::LinkedNoteView>,
    i: int,
    remaining: int,
) -> Seq<Seq<char>>
    decreases list.len() - i,
{
    if i < 0 || i >= list.len() || remaining <= 0 {
        Seq::empty()
    } else {
        seq![context_entry(list[i], remaining)] + context_entries(
            list,
            i + 1,
            remains(list[i], remaining),
        )
    }
}

/// The background that a model is given from the linked notes; none where there are no links.
pub open spec fn context_of(list: Seq<crate::records::LinkedNoteView>) -> Option<Seq<char>> {
    if list.len() == 0 {
        None
    } else {
        Some(
            "Reference: excerpts from notes manually linked to this note. Use them as background when adjusting the LLM output, but do not copy their content directly.\n"@
                + crate::text::joined(
                context_entries(list, 0, MAX_LINKED_CONTEXT_CHARS as int),
                "\n"@,
            ),
        )
    }
}

/// The background from the notes linked with the note `id`.
pub open spec fn linked_context(v: crate::schema::StorageView, id: Seq<char>) -> Option<Seq<char>> {
    let t = crate::text::trimmed(id);
    if t.len() == 0 {
        None
    } else {
        context_of(crate::storage::linked_notes(v, t))
    }
}

fn relation_text(n: &LinkedNote) -> (r: String)
    ensures
        r@ == relation(n@),
{
    let label = crate::text::fill_owned(&n.label);
    let outward = same(n.direction.as_str(), "out");
    let inward = same(n.direction.as_str(), "in");
    match label {
        Some(l) => if outward {
            let mut out = "Referenced from this note with label \"".to_owned();
            out.append(l.as_str());
            out.append("\"");
            out
        } else if inward {
            let mut out = "Backlink to this note with label \"".to_owned();
            out.append(l.as_str());
            out.append("\"");
            out
        } else {
            "Related note".to_owned()
        },
        None => if outward {
            "Linked note".to_owned()
        } else if inward {
            "Backlink source".to_owned()
        } else {
            "Related note".to_owned()
        },
    }
}

fn entry_text(n: &LinkedNote, remaining: usize) -> (r: String)
    ensures
        r@ == context_entry(n@, remaining as int),
{
    let all = chars_of(n.text.as_str());
    let clipped = clip(trim(all.as_slice()), MAX_PER_LINKED_NOTE_CHARS);
    let snippet = if clipped.len() > remaining {
        let head = slice_subrange(clipped.as_slice(), 0, remaining);
        assert(head@ =~= clipped@.take(remaining as int));
        copy_chars(head)
    } else {
        clipped
    };
    let mut out = "- [".to_owned();
    out.append(relation_text(n).as_str());
    out.append("]");
    if !is_blank(n.title.as_str()) {
        out.append(" ");
        out.append(trim_text(n.title.as_str()).as_str());
    }
    out.append("\n  ");
    out.append(text_of(snippet.as_slice()).as_str());
    out
}

/// The background that a model is given from the linked notes.
pub fn context_from(list: &Vec<LinkedNote>) -> (r: Option<String>)
    ensures
        crate::text::opt_view(r) == context_of(crate::records::views(list@)),
{
    let ghost all = crate::records::views(list@);
    if list.len() == 0 {
        return None;
    }
    let mut lines: Vec<String> = Vec::new();
    let mut remaining: usize = MAX_LINKED_CONTEXT_CHARS;
    let mut i: usize = 0;
    assert(crate::text::texts(lines@) + context_entries(all, 0, 4000) =~= context_entries(
        all,
        0,
        4000,
    ));
    while i < list.len() && remaining > 0
        invariant
            i <= list@.len(),
            all == crate::records::views(list@),
            context_entries(all, 0, 4000) == crate::text::texts(lines@) + context_entries(
                all,
                i as int,
                remaining as int,
            ),
        decreases list.len() - i,
    {
        let ghost before = crate::text::texts(lines@);
        assert(all[i as int] == list@[i as int]@);
        let entry = entry_text(&list[i], remaining);
        let used = chars_of(entry.as_str()).len();
        let ghost e = entry@;
        lines.push(entry);
        proof {
            assert(crate::text::texts(lines@) =~= before.push(e));
            let rest = context_entries(
                all,
                i + 1,
                remains(all[i as int], remaining as int),
            );
            assert(before.push(e) + rest =~= before + (seq![e] + rest));
        }
        if used < remaining {
            remaining = remaining - used;
        } else {
            remaining = 0;
        }
        i = i + 1;
    }
    assert(crate::text::texts(lines@) + Seq::<Seq<char>>::empty() =~= crate::text::texts(lines@));
    let mut out =
        "Reference: excerpts from notes manually linked to this note. Use them as background when adjusting the LLM output, but do not copy their content directly.\n".to_owned();
    out.append(join(&lines, "\n").as_str());
    Some(out)
}

/// The background from the notes linked with the note `note_id`; none where it has no links.
pub fn fetch_linked_context(storage: &Storage, note_id: &str) -> (r: Option<String>)
    ensures
        crate::text::opt_view(r) == linked_context(storage@, note_id@),
{
    let id = trim_text(note_id);
    if id.as_str().is_empty() {
        return None;
    }
    match storage.list_linked_notes(id.as_str()) {
        Ok(list) => context_from(&list),
        Err(_) => None,
    }
}

/// The background for a request, unless it asks for none or names no note.
pub fn linked_context_for(storage: &Storage, note_id: Option<&str>, enabled: bool) -> (r: Option<
    String,
>)
    ensures
        crate::text::opt_view(r) == match note_id {
            Some(id) => if enabled {
                linked_context(storage@, id@)
            } else {
                None
            },
            None => None,
        },
{
    if !enabled {
        return None;
    }
    match note_id {
        Some(id) => fetch_linked_context(storage, id),
        None => None,
    }
}

/// The numbers of characters of the linked notes' texts, in all.
pub open spec fn excerpt_total(
    list: Seq<crate::records::LinkedNoteView>,
    i: int,
    remaining: int,
) -> nat
    decreases list.len() - i,
{
    if i < 0 || i >= list.len() || remaining <= 0 {
        0
    } else {
        excerpt(list[i].text, remaining).len() + excerpt_total(
            list,
            i + 1,
            remains(list[i], remaining),
        )
    }
}

/// However many notes are linked, a model is given no more of their texts than the limit, and of
/// each no more than a thousand characters and an ellipsis.
pub proof fn law_context_is_bounded(
    list: Seq<crate::records::LinkedNoteView>,
    i: int,
    remaining: int,
)
    requires
        0 <= i,
        0 <= remaining,
    ensures
        excerpt_total(list, i, remaining) <= remaining,
        forall|n: crate::records::LinkedNoteView| #[trigger]
            excerpt(n.text, remaining).len() <= MAX_PER_LINKED_NOTE_CHARS + 1,
    decreases list.len() - i,
{
    if i < list.len() && remaining > 0 {
        law_context_is_bounded(list, i + 1, remains(list[i], remaining));
    }
}

/// The texts of linked notes reach the model as they are, trimmed, up to a thousand characters of
/// each; of a longer text the first thousand and an ellipsis do, as far as there is room.
pub proof fn law_excerpts_are_of_the_texts(text: Seq<char>, remaining: int)
    requires
        0 <= remaining,
    ensures
        ({
            let t = crate::text::trimmed(text);
            &&& t.len() <= 1000 && t.len() <= remaining ==> excerpt(text, remaining) == t
            &&& t.len() > 1000 && remaining >= 1001 ==> excerpt(text, remaining) == t.take(1000).push('…')
            &&& excerpt(text, remaining).len() <= remaining
        }),
{
}

/// A linked note is introduced by how it is linked, with the label of the link where it has one, and by
/// its title.
pub proof fn law_linked_notes_are_introduced(n: crate::records::LinkedNoteView, remaining: int)
    requires
        n.direction == "out"@ || n.direction == "in"@,
    ensures
        ({
            let labelled = n.label matches Some(l) && !crate::text::blank(l);
            &&& n.direction == "out"@ && !labelled ==> relation(n) == "Linked note"@
            &&& n.direction == "in"@ && !labelled ==> relation(n) == "Backlink source"@
            &&& n.direction == "out"@ && labelled ==> relation(n)
                == "Referenced from this note with label \""@ + crate::text::trimmed(n.label->0)
                + "\""@
            &&& n.direction == "in"@ && labelled ==> relation(n)
                == "Backlink to this note with label \""@ + crate::text::trimmed(n.label->0)
                + "\""@
            &&& !crate::text::blank(n.title) ==> heading(n) == "- ["@ + relation(n) + "]"@ + " "@
                + crate::text::trimmed(n.title)
            &&& context_entry(n, remaining) == heading(n) + "\n  "@ + excerpt(n.text, remaining)
        }),
{
    reveal_strlit("out");
    reveal_strlit("in");
    assert("out"@.len() == 3 && "in"@.len() == 2);
}

/// The linked notes are given to a model one after the other, the first of them always; each under its
/// heading and with its text.
pub proof fn law_context_holds_the_linked_notes(
    list: Seq<crate::records::LinkedNoteView>,
    k: int,
)
    requires
        list.len() > 0,
        0 <= k < context_entries(list, 0, 4000).len(),
    ensures
        context_of(list) is Some,
        context_entries(list, 0, 4000).len() > 0,
        context_entries(list, 0, 4000).len() <= list.len(),
        crate::text::has_text(context_of(list)->0, heading(list[k]) + "\n  "@),
        k == 0 ==> crate::text::has_text(
            context_of(list)->0,
            heading(list[0]) + "\n  "@ + excerpt(list[0].text, 4000),
        ),
{
    let entries = context_entries(list, 0, 4000);
    lemma_entry(list, 0, 4000, k);
    let lead = "Reference: excerpts from notes manually linked to this note. Use them as background when adjusting the LLM output, but do not copy their content directly.\n"@;
    let body = crate::text::joined(entries, "\n"@);
    let whole = context_of(list)->0;
    crate::text::lemma_joined_has(entries, "\n"@, k);
    crate::text::lemma_has_part(lead, body, Seq::empty(), entries[k]);
    assert(lead + body + Seq::empty() =~= whole);
    let left = choose|left: int| #[trigger] context_entry(list[k], left) == entries[k];
    let head = heading(list[k]) + "\n  "@;
    crate::text::lemma_has_self(head);
    crate::text::lemma_has_part(Seq::empty(), head, excerpt(list[k].text, left), head);
    assert(Seq::empty() + head + excerpt(list[k].text, left) =~= entries[k]);
    crate::text::lemma_part_of_part(whole, entries[k], head);
}

/// The `k`th entry is of the `k`th note.
proof fn lemma_entry(
    list: Seq<crate::records::LinkedNoteView>,
    i: int,
    remaining: int,
    k: int,
)
    requires
        0 <= i,
    ensures
        context_entries(list, i, remaining).len() <= if i <= list.len() {
            list.len() - i
        } else {
            0
        },
        0 <= k < context_entries(list, i, remaining).len() ==> exists|left: int| #[trigger]
            context_entry(list[i + k], left) == context_entries(list, i, remaining)[k],
    decreases list.len() - i,
{
    if i < list.len() && remaining > 0 {
        let rest = remains(list[i], remaining);
        lemma_entry(list, i + 1, rest, k - 1);
        let all = context_entries(list, i, remaining);
        if k == 0 {
            assert(all[0] == context_entry(list[i + k], remaining));
        } else if 0 < k < all.len() {
            assert(all[k] == context_entries(list, i + 1, rest)[k - 1]);
            let left = choose|left: int| #[trigger]
                context_entry(list[i + 1 + (k - 1)], left) == context_entries(
                    list,
                    i + 1,
                    rest,
                )[k - 1];
            assert(context_entry(list[i + k], left) == all[k]);
        }
    }
}

/// The context of a note is made of the notes that it is linked with; without an identifier or without
/// links there is none.
pub proof fn law_context_is_of_the_note(v: crate::schema::StorageView, id: Seq<char>)
    ensures
        crate::text::blank(id) ==> linked_context(v, id) is None,
        !crate::text::blank(id) ==> linked_context(v, id) == context_of(
            crate::storage::linked_notes(v, crate::text::trimmed(id)),
        ),
        context_of(Seq::<crate::records::LinkedNoteView>::empty()) is None,
{
}

} // verus!
