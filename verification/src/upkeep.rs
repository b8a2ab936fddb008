//! What each operation on the store changes, what it leaves as it was, and what is listed.

use crate::records::{
    DraftView, LinkedNoteView, LiveSegmentView, LiveSessionView, NoteLinkView, NoteView,
    ProjectView, TranslationView,
};
use crate::schema::StorageView;
use crate::tables::{Keyed, Paired};
use vstd::prelude::*;

verus! {

// ---------------------------------------------------------------------------
// Changing one row
// ---------------------------------------------------------------------------

/// A change that keeps keys and leaves all rows but that of `id` alone changes that row alone.
proof fn lemma_one_row_changes<M: Keyed>(rows: Seq<M>, g: spec_fn(M) -> M, id: Seq<char>)
    requires
        forall|m: M| (#[trigger] g(m)).key() == m.key(),
        forall|m: M| m.key() != id ==> #[trigger] g(m) == m,
    ensures
        rows.map_values(g).len() == rows.len(),
        crate::tables::row_of(rows.map_values(g), id) == match crate::tables::row_of(rows, id) {
            Some(m) => Some(g(m)),
            None => None,
        },
        forall|k: Seq<char>|
            k != id ==> #[trigger] crate::tables::row_of(rows.map_values(g), k)
                == crate::tables::row_of(rows, k),
        !crate::tables::has_key(rows, id) ==> rows.map_values(g) == rows,
        crate::tables::row_of(rows, id) matches Some(m) ==> m.key() == id,
{
    crate::tables::lemma_change_keys(rows, g);
    crate::tables::lemma_row_of(rows, id);
    assert forall|k: Seq<char>| k != id implies #[trigger] crate::tables::row_of(
        rows.map_values(g),
        k,
    ) == crate::tables::row_of(rows, k) by {
        crate::tables::lemma_row_of(rows, k);
    }
    if !crate::tables::has_key(rows, id) {
        assert forall|i: int| 0 <= i < rows.len() implies #[trigger] rows.map_values(g)[i]
            == rows[i] by {
            assert(rows[i].key() != id);
        }
        assert(rows.map_values(g) =~= rows);
    }
}

/// A note that is edited has the new title, text, metadata and time, and is otherwise as it was.
/// Every other note is as it was.
pub proof fn law_editing_changes_one_note(
    v: StorageView,
    id: Seq<char>,
    title: Seq<char>,
    text: Seq<char>,
    meta: Option<Seq<char>>,
    now: i64,
)
    ensures
        ({
            let after = v.notes.map_values(crate::storage::rewritten(id, title, text, meta, now));
            &&& after.len() == v.notes.len()
            &&& crate::tables::row_of(v.notes, id) matches Some(n) ==> crate::tables::row_of(
                after,
                id,
            ) == Some(
                NoteView {
                    id: n.id,
                    project_id: n.project_id,
                    title,
                    text,
                    source_name: n.source_name,
                    language: n.language,
                    duration: n.duration,
                    meta,
                    parent_id: n.parent_id,
                    position: n.position,
                    created_at: n.created_at,
                    updated_at: now,
                },
            )
            &&& forall|k: Seq<char>|
                k != id ==> #[trigger] crate::tables::row_of(after, k) == crate::tables::row_of(
                    v.notes,
                    k,
                )
            &&& !crate::tables::has_key(v.notes, id) ==> after == v.notes
        }),
{
    lemma_one_row_changes(
        v.notes,
        crate::storage::rewritten(id, title, text, meta, now),
        id,
    );
}

/// A note that is put under another, or under none, is there from then on, and is otherwise as it
/// was. Every other note is as it was.
pub proof fn law_adopting_changes_one_note(
    v: StorageView,
    id: Seq<char>,
    parent: Option<Seq<char>>,
    now: i64,
)
    ensures
        ({
            let after = v.notes.map_values(crate::storage::adopted(id, parent, now));
            &&& after.len() == v.notes.len()
            &&& crate::tables::row_of(v.notes, id) matches Some(n) ==> crate::tables::row_of(
                after,
                id,
            ) == Some(NoteView { parent_id: parent, updated_at: now, ..n })
            &&& forall|k: Seq<char>|
                k != id ==> #[trigger] crate::tables::row_of(after, k) == crate::tables::row_of(
                    v.notes,
                    k,
                )
        }),
{
    lemma_one_row_changes(v.notes, crate::storage::adopted(id, parent, now), id);
}

/// A project that is edited has the new name, description and time, and is otherwise as it was. Every
/// other project is as it was.
pub proof fn law_editing_changes_one_project(
    v: StorageView,
    id: Seq<char>,
    name: Seq<char>,
    description: Option<Seq<char>>,
    now: i64,
)
    ensures
        ({
            let after = v.projects.map_values(
                crate::storage::renamed(id, name, description, now),
            );
            &&& after.len() == v.projects.len()
            &&& crate::tables::row_of(v.projects, id) matches Some(p) ==> crate::tables::row_of(
                after,
                id,
            ) == Some(
                ProjectView {
                    id: p.id,
                    name,
                    description,
                    created_at: p.created_at,
                    updated_at: now,
                },
            )
            &&& forall|k: Seq<char>|
                k != id ==> #[trigger] crate::tables::row_of(after, k) == crate::tables::row_of(
                    v.projects,
                    k,
                )
        }),
{
    lemma_one_row_changes(v.projects, crate::storage::renamed(id, name, description, now), id);
}

/// A draft that is edited has the new title, content and time, and is otherwise as it was. Every other
/// draft is as it was.
pub proof fn law_editing_changes_one_draft(
    v: StorageView,
    id: Seq<char>,
    title: Seq<char>,
    content: Seq<char>,
    now: i64,
)
    ensures
        ({
            let after = v.drafts.map_values(crate::storage::redrafted(id, title, content, now));
            &&& after.len() == v.drafts.len()
            &&& crate::tables::row_of(v.drafts, id) matches Some(d) ==> crate::tables::row_of(
                after,
                id,
            ) == Some(
                DraftView {
                    id: d.id,
                    project_id: d.project_id,
                    title,
                    content,
                    created_at: d.created_at,
                    updated_at: now,
                },
            )
            &&& forall|k: Seq<char>|
                k != id ==> #[trigger] crate::tables::row_of(after, k) == crate::tables::row_of(
                    v.drafts,
                    k,
                )
        }),
{
    lemma_one_row_changes(v.drafts, crate::storage::redrafted(id, title, content, now), id);
}

/// A session that is renamed has the new title and is otherwise as it was. Every other session is as
/// it was.
pub proof fn law_renaming_changes_one_session(v: StorageView, id: Seq<char>, title: Seq<char>)
    ensures
        ({
            let after = v.sessions.map_values(crate::storage::retitled(id, title));
            &&& after.len() == v.sessions.len()
            &&& crate::tables::row_of(v.sessions, id) matches Some(s) ==> crate::tables::row_of(
                after,
                id,
            ) == Some(LiveSessionView { title, ..s })
            &&& forall|k: Seq<char>|
                k != id ==> #[trigger] crate::tables::row_of(after, k) == crate::tables::row_of(
                    v.sessions,
                    k,
                )
        }),
{
    lemma_one_row_changes(v.sessions, crate::storage::retitled(id, title), id);
}

// ---------------------------------------------------------------------------
// Adding a note
// ---------------------------------------------------------------------------

/// A note is refused exactly where its identifier is taken, its project is not there, or the note
/// that it is to stand under is not there.
pub proof fn law_notes_are_refused_for_cause(v: StorageView, note: NoteView)
    ensures
        crate::storage::note_refusal(v, note) is None <==> !crate::tables::has_key(
            v.notes,
            note.id,
        ) && crate::tables::has_key(v.projects, note.project_id) && (note.parent_id matches Some(
            p,
        ) ==> p == note.id || crate::tables::has_key(v.notes, p)),
{
}

/// A note that is added comes on top: the other notes of its project move one place down, and are
/// otherwise as they were. No note of another project changes. The project is as it was but for the
/// time of its last change, and other projects are as they were.
pub proof fn law_added_note_moves_others_down(v: StorageView, note: NoteView, k: Seq<char>)
    requires
        v.wf(),
        crate::storage::note_refusal(v, note) is None,
        crate::storage::can_move_down(v.notes, note.project_id),
    ensures
        ({
            let w = crate::storage::note_added(v, note);
            &&& w.notes.len() == v.notes.len() + 1
            &&& crate::tables::row_of(w.notes, note.id) == Some(NoteView { position: 0, ..note })
            &&& crate::tables::row_of(v.notes, k) matches Some(n) ==> (crate::tables::row_of(
                w.notes,
                k,
            ) matches Some(m) && m == (NoteView { position: m.position, ..n }) && m.position == if n.project_id
                == note.project_id {
                n.position + 1
            } else {
                n.position as int
            })
            &&& k != note.id && crate::tables::row_of(v.notes, k) is None
                ==> crate::tables::row_of(w.notes, k) is None
            &&& crate::tables::row_of(v.projects, k) matches Some(p) ==> crate::tables::row_of(
                w.projects,
                k,
            ) == Some(
                if k == note.project_id {
                    ProjectView { updated_at: note.updated_at, ..p }
                } else {
                    p
                },
            )
            &&& w == (StorageView { notes: w.notes, projects: w.projects, ..v })
        }),
{
    let g = crate::storage::moved_down(note.project_id);
    let moved = v.notes.map_values(g);
    crate::tables::lemma_change_keys(v.notes, g);
    crate::tables::lemma_row_of(v.notes, k);
    crate::tables::lemma_push_key(moved, NoteView { position: 0, ..note });
    lemma_one_row_changes(
        v.projects,
        crate::storage::touched(note.project_id, note.updated_at),
        note.project_id,
    );
    if crate::tables::row_of(v.notes, k) is Some {
        let n = crate::tables::row_of(v.notes, k)->0;
        let i = choose|i: int| 0 <= i < v.notes.len() && v.notes[i] == n;
        assert(v.notes[i].key() == k);
        assert(n.project_id == note.project_id ==> v.notes[i].position < i64::MAX);
    }
}

// ---------------------------------------------------------------------------
// Deleting
// ---------------------------------------------------------------------------

/// The row that is deleted is gone, and every other row is as it was.
proof fn lemma_one_row_goes<M: Keyed>(rows: Seq<M>, id: Seq<char>)
    requires
        crate::tables::unique(rows),
    ensures
        crate::tables::row_of(rows.filter(crate::tables::but(id)), id) is None,
        forall|k: Seq<char>|
            k != id ==> #[trigger] crate::tables::row_of(rows.filter(crate::tables::but(id)), k)
                == crate::tables::row_of(rows, k),
{
    let p = crate::tables::but::<M>(id);
    let left = rows.filter(p);
    assert forall|k: Seq<char>| #[trigger] crate::tables::row_of(left, k) == if k == id {
        None
    } else {
        crate::tables::row_of(rows, k)
    } by {
        crate::tables::lemma_key_filter(rows, p, k);
        crate::tables::lemma_row_of(rows, k);
        crate::tables::lemma_row_of(left, k);
    }
}

/// A translation or a link that is deleted is gone, and the others are as they were.
pub proof fn law_deleting_takes_one_row(v: StorageView, id: Seq<char>, k: Seq<char>)
    requires
        v.wf(),
    ensures
        crate::tables::row_of(v.translations.filter(crate::tables::but(id)), id) is None,
        k != id ==> crate::tables::row_of(v.translations.filter(crate::tables::but(id)), k)
            == crate::tables::row_of(v.translations, k),
        crate::tables::row_of(v.links.filter(crate::tables::but(id)), id) is None,
        k != id ==> crate::tables::row_of(v.links.filter(crate::tables::but(id)), k)
            == crate::tables::row_of(v.links, k),
{
    lemma_one_row_goes(v.translations, id);
    lemma_one_row_goes(v.links, id);
}

/// What is left of a note where its project and, maybe, its parent are gone.
proof fn lemma_settled_row(x: StorageView, k: Seq<char>)
    requires
        crate::tables::unique(x.notes),
    ensures
        ({
            let after = crate::schema::settled_notes(x);
            match crate::tables::row_of(x.notes, k) {
                Some(n) => if crate::tables::has_key(x.projects, n.project_id) {
                    crate::tables::row_of(after, k) == Some(
                        NoteView {
                            parent_id: match n.parent_id {
                                Some(q) => if crate::tables::has_key(after, q) {
                                    Some(q)
                                } else {
                                    None
                                },
                                None => None,
                            },
                            ..n
                        },
                    )
                } else {
                    crate::tables::row_of(after, k) is None
                },
                None => crate::tables::row_of(after, k) is None,
            }
        }),
{
    let p = crate::schema::in_projects(x.projects);
    let kept = x.notes.filter(p);
    let g = crate::schema::with_parent_in(kept);
    crate::tables::lemma_unique_filter(x.notes, p);
    crate::tables::lemma_change_keys(kept, g);
    crate::tables::lemma_key_filter(x.notes, p, k);
    crate::tables::lemma_row_of(kept, k);
    crate::tables::lemma_row_of(x.notes, k);
    if crate::tables::row_of(x.notes, k) is Some {
        let n = crate::tables::row_of(x.notes, k)->0;
        if crate::tables::has_key(x.projects, n.project_id) {
            assert(p(n));
        }
    }
}

/// Deleting a note leaves every other note as it was, but that those under it stand under none. Links
/// between other notes, tags of other notes, other notes in drafts, and all projects, drafts and
/// sessions stay.
pub proof fn law_deleting_a_note_spares_the_rest(v: StorageView, id: Seq<char>)
    requires
        v.wf(),
    ensures
        ({
            let w = crate::storage::note_deleted(v, id);
            &&& forall|k: Seq<char>|
                k != id ==> #[trigger] crate::tables::row_of(w.notes, k)
                    == match crate::tables::row_of(v.notes, k) {
                    Some(n) => Some(
                        NoteView {
                            parent_id: if n.parent_id == Some(id) {
                                None
                            } else {
                                n.parent_id
                            },
                            ..n
                        },
                    ),
                    None => None,
                }
            &&& w.projects == v.projects
            &&& w.drafts == v.drafts
            &&& w.tags == v.tags
            &&& w.sessions == v.sessions
            &&& w.segments == v.segments
            &&& forall|i: int|
                0 <= i < v.links.len() && (#[trigger] v.links[i]).from_note_id != id
                    && v.links[i].to_note_id != id ==> w.links.contains(v.links[i])
            &&& forall|i: int|
                0 <= i < v.note_tags.len() && (#[trigger] v.note_tags[i]).note_id != id
                    ==> w.note_tags.contains(v.note_tags[i])
            &&& forall|i: int|
                0 <= i < v.draft_notes.len() && (#[trigger] v.draft_notes[i]).note_id != id
                    ==> w.draft_notes.contains(v.draft_notes[i])
            &&& forall|i: int|
                0 <= i < v.translations.len() && (#[trigger] v.translations[i]).note_id != Some(id)
                    ==> w.translations[i] == v.translations[i]
        }),
{
    let p = crate::tables::but::<NoteView>(id);
    let x = StorageView { notes: v.notes.filter(p), ..v };
    let w = crate::storage::note_deleted(v, id);
    crate::tables::lemma_unique_filter(v.notes, p);
    lemma_one_row_goes(v.notes, id);
    assert forall|k: Seq<char>| #[trigger] crate::tables::has_key(w.notes, k) == (k != id
        && crate::tables::has_key(v.notes, k)) by {
        lemma_settled_row(x, k);
        crate::tables::lemma_row_of(w.notes, k);
        crate::tables::lemma_row_of(v.notes, k);
        lemma_note_fits(v, k);
    }
    assert forall|k: Seq<char>| k != id implies #[trigger] crate::tables::row_of(w.notes, k)
        == match crate::tables::row_of(v.notes, k) {
        Some(n) => Some(
            NoteView {
                parent_id: if n.parent_id == Some(id) {
                    None
                } else {
                    n.parent_id
                },
                ..n
            },
        ),
        None => None,
    } by {
        lemma_settled_row(x, k);
        lemma_note_fits(v, k);
    }
    lemma_settled_rest(x, v, w);
    crate::tables::lemma_filter(v.links, crate::schema::linked_in(w.notes));
    crate::tables::lemma_filter(v.note_tags, crate::schema::tagged_in(w.notes, w.tags));
    crate::tables::lemma_filter(v.draft_notes, crate::schema::drafted_in(w.drafts, w.notes));
    assert forall|i: int|
        0 <= i < v.links.len() && (#[trigger] v.links[i]).from_note_id != id
            && v.links[i].to_note_id != id implies w.links.contains(v.links[i]) by {
        assert(crate::schema::link_ok(v, v.links[i]));
        assert(crate::schema::linked_in(w.notes)(v.links[i]));
    }
    assert forall|i: int|
        0 <= i < v.note_tags.len() && (#[trigger] v.note_tags[i]).note_id
            != id implies w.note_tags.contains(v.note_tags[i]) by {
        assert(crate::schema::note_tag_ok(v, v.note_tags[i]));
        assert(crate::schema::tagged_in(w.notes, w.tags)(v.note_tags[i]));
    }
    assert forall|i: int|
        0 <= i < v.draft_notes.len() && (#[trigger] v.draft_notes[i]).note_id
            != id implies w.draft_notes.contains(v.draft_notes[i]) by {
        assert(crate::schema::draft_note_ok(v, v.draft_notes[i]));
        assert(crate::schema::drafted_in(w.drafts, w.notes)(v.draft_notes[i]));
    }
    assert forall|i: int|
        0 <= i < v.translations.len() && (#[trigger] v.translations[i]).note_id
            != Some(id) implies w.translations[i] == v.translations[i] by {
        assert(crate::schema::translation_ok(v, v.translations[i]));
        assert(w.translations[i] == crate::schema::with_note_in(w.notes)(v.translations[i]));
    }
}

/// In tables as they must be, the project and the parent of a note are there.
proof fn lemma_note_fits(v: StorageView, k: Seq<char>)
    requires
        v.wf(),
    ensures
        crate::tables::row_of(v.notes, k) matches Some(n) ==> crate::tables::has_key(
            v.projects,
            n.project_id,
        ) && (n.parent_id matches Some(q) ==> crate::tables::has_key(v.notes, q)),
{
    crate::tables::lemma_row_of(v.notes, k);
    if crate::tables::row_of(v.notes, k) is Some {
        let n = crate::tables::row_of(v.notes, k)->0;
        let i = choose|i: int| 0 <= i < v.notes.len() && v.notes[i] == n;
        assert(crate::schema::note_ok(v, v.notes[i]));
    }
}

/// Where only notes are gone, tags, drafts, sessions and captions stay.
proof fn lemma_settled_rest(x: StorageView, v: StorageView, w: StorageView)
    requires
        v.wf(),
        x == (StorageView { notes: x.notes, ..v }),
        w == crate::schema::settled(x),
    ensures
        w.projects == v.projects,
        w.drafts == v.drafts,
        w.tags == v.tags,
        w.sessions == v.sessions,
        w.segments == v.segments,
{
    let a = crate::schema::tags_in(v.projects);
    let b = crate::schema::drafts_in(v.projects);
    let c = crate::schema::segments_in(v.sessions);
    assert forall|i: int| 0 <= i < v.tags.len() implies a(#[trigger] v.tags[i]) by {
        assert(crate::schema::tag_ok(v, v.tags[i]));
    }
    assert forall|i: int| 0 <= i < v.drafts.len() implies b(#[trigger] v.drafts[i]) by {
        assert(crate::schema::draft_ok(v, v.drafts[i]));
    }
    assert forall|i: int| 0 <= i < v.segments.len() implies c(#[trigger] v.segments[i]) by {
        assert(crate::schema::segment_ok(v, v.segments[i]));
    }
    crate::tables::lemma_filter_all(v.tags, a);
    crate::tables::lemma_filter_all(v.drafts, b);
    crate::tables::lemma_filter_all(v.segments, c);
}

/// Deleting a project leaves the notes, the tags and the drafts of every other project, and every
/// session. A note of another project stands under none where its parent is gone.
pub proof fn law_deleting_a_project_spares_the_rest(v: StorageView, id: Seq<char>)
    requires
        v.wf(),
    ensures
        ({
            let w = crate::storage::project_deleted(v, id);
            &&& forall|k: Seq<char>|
                crate::tables::row_of(v.notes, k) matches Some(n) && n.project_id != id ==> (
                #[trigger] crate::tables::row_of(w.notes, k) matches Some(m) && m == (NoteView {
                    parent_id: m.parent_id,
                    ..crate::tables::row_of(v.notes, k)->0
                }))
            &&& forall|i: int|
                0 <= i < v.tags.len() && (#[trigger] v.tags[i]).project_id != id
                    ==> w.tags.contains(v.tags[i])
            &&& forall|i: int|
                0 <= i < v.drafts.len() && (#[trigger] v.drafts[i]).project_id != id
                    ==> w.drafts.contains(v.drafts[i])
            &&& w.sessions == v.sessions
            &&& w.segments == v.segments
            &&& w.translations.len() == v.translations.len()
        }),
{
    let p = crate::tables::but::<ProjectView>(id);
    let x = StorageView { projects: v.projects.filter(p), ..v };
    let w = crate::storage::project_deleted(v, id);
    assert forall|k: Seq<char>| k != id implies #[trigger] crate::tables::has_key(x.projects, k)
        == crate::tables::has_key(v.projects, k) by {
        lemma_one_row_goes(v.projects, id);
        crate::tables::lemma_row_of(x.projects, k);
        crate::tables::lemma_row_of(v.projects, k);
    }
    assert forall|k: Seq<char>|
        crate::tables::row_of(v.notes, k) matches Some(n) && n.project_id != id implies (
    #[trigger] crate::tables::row_of(w.notes, k) matches Some(m) && m == (NoteView {
        parent_id: m.parent_id,
        ..crate::tables::row_of(v.notes, k)->0
    })) by {
        lemma_settled_row(x, k);
        lemma_note_fits(v, k);
    }
    crate::tables::lemma_filter(v.tags, crate::schema::tags_in(x.projects));
    crate::tables::lemma_filter(v.drafts, crate::schema::drafts_in(x.projects));
    assert forall|i: int| 0 <= i < v.tags.len() && (#[trigger] v.tags[i]).project_id
        != id implies w.tags.contains(v.tags[i]) by {
        assert(crate::schema::tag_ok(v, v.tags[i]));
        assert(crate::schema::tags_in(x.projects)(v.tags[i]));
    }
    assert forall|i: int| 0 <= i < v.drafts.len() && (#[trigger] v.drafts[i]).project_id
        != id implies w.drafts.contains(v.drafts[i]) by {
        assert(crate::schema::draft_ok(v, v.drafts[i]));
        assert(crate::schema::drafts_in(x.projects)(v.drafts[i]));
    }
    let c = crate::schema::segments_in(v.sessions);
    assert forall|i: int| 0 <= i < v.segments.len() implies c(#[trigger] v.segments[i]) by {
        assert(crate::schema::segment_ok(v, v.segments[i]));
    }
    crate::tables::lemma_filter_all(v.segments, c);
}

/// Deleting a draft takes the draft and the list of its notes, and nothing else: the notes
/// themselves stay, and so do the other drafts with theirs.
pub proof fn law_deleting_a_draft_spares_the_rest(v: StorageView, id: Seq<char>)
    requires
        v.wf(),
    ensures
        ({
            let w = crate::storage::draft_deleted(v, id);
            &&& crate::tables::row_of(w.drafts, id) is None
            &&& forall|k: Seq<char>|
                k != id ==> #[trigger] crate::tables::row_of(w.drafts, k)
                    == crate::tables::row_of(v.drafts, k)
            &&& forall|i: int|
                0 <= i < w.draft_notes.len() ==> (#[trigger] w.draft_notes[i]).draft_id != id
            &&& forall|i: int|
                0 <= i < v.draft_notes.len() && (#[trigger] v.draft_notes[i]).draft_id != id
                    ==> w.draft_notes.contains(v.draft_notes[i])
            &&& w.notes == v.notes
            &&& w.projects == v.projects
            &&& w.tags == v.tags
            &&& w.links == v.links
            &&& w.sessions == v.sessions
        }),
{
    let p = crate::tables::but::<DraftView>(id);
    let x = StorageView { drafts: v.drafts.filter(p), ..v };
    let w = crate::storage::draft_deleted(v, id);
    lemma_one_row_goes(v.drafts, id);
    crate::schema::lemma_settled_is_same(v);
    let b = crate::schema::drafts_in(v.projects);
    crate::tables::lemma_filter(v.drafts, p);
    assert forall|i: int| 0 <= i < x.drafts.len() implies b(#[trigger] x.drafts[i]) by {
        assert(v.drafts.contains(x.drafts[i]));
        let j = choose|j: int| 0 <= j < v.drafts.len() && v.drafts[j] == x.drafts[i];
        assert(crate::schema::draft_ok(v, v.drafts[j]));
    }
    crate::tables::lemma_filter_all(x.drafts, b);
    assert(w.drafts == x.drafts);
    let q = crate::schema::drafted_in(x.drafts, v.notes);
    crate::tables::lemma_filter(v.draft_notes, q);
    assert forall|k: Seq<char>| #[trigger] crate::tables::has_key(x.drafts, k) == (k != id
        && crate::tables::has_key(v.drafts, k)) by {
        crate::tables::lemma_row_of(x.drafts, k);
        crate::tables::lemma_row_of(v.drafts, k);
    }
    assert forall|i: int| 0 <= i < w.draft_notes.len() implies (#[trigger]
    w.draft_notes[i]).draft_id != id by {
        assert(q(w.draft_notes[i]));
    }
    assert forall|i: int|
        0 <= i < v.draft_notes.len() && (#[trigger] v.draft_notes[i]).draft_id
            != id implies w.draft_notes.contains(v.draft_notes[i]) by {
        assert(crate::schema::draft_note_ok(v, v.draft_notes[i]));
        assert(q(v.draft_notes[i]));
    }
}

/// Deleting a session takes the session and its captions, and nothing else.
pub proof fn law_deleting_a_session_spares_the_rest(v: StorageView, id: Seq<char>)
    requires
        v.wf(),
    ensures
        ({
            let w = crate::storage::session_deleted(v, id);
            &&& crate::tables::row_of(w.sessions, id) is None
            &&& forall|k: Seq<char>|
                k != id ==> #[trigger] crate::tables::row_of(w.sessions, k)
                    == crate::tables::row_of(v.sessions, k)
            &&& forall|i: int|
                0 <= i < w.segments.len() ==> (#[trigger] w.segments[i]).session_id != id
            &&& forall|i: int|
                0 <= i < v.segments.len() && (#[trigger] v.segments[i]).session_id != id
                    ==> w.segments.contains(v.segments[i])
            &&& w == (StorageView { sessions: w.sessions, segments: w.segments, ..v })
        }),
{
    let p = crate::tables::but::<LiveSessionView>(id);
    let x = StorageView { sessions: v.sessions.filter(p), ..v };
    let w = crate::storage::session_deleted(v, id);
    lemma_one_row_goes(v.sessions, id);
    crate::schema::lemma_settled_is_same(v);
    let q = crate::schema::segments_in(x.sessions);
    crate::tables::lemma_filter(v.segments, q);
    assert forall|k: Seq<char>| #[trigger] crate::tables::has_key(x.sessions, k) == (k != id
        && crate::tables::has_key(v.sessions, k)) by {
        crate::tables::lemma_row_of(x.sessions, k);
        crate::tables::lemma_row_of(v.sessions, k);
    }
    assert forall|i: int| 0 <= i < w.segments.len() implies (#[trigger] w.segments[i]).session_id
        != id by {
        assert(q(w.segments[i]));
    }
    assert forall|i: int|
        0 <= i < v.segments.len() && (#[trigger] v.segments[i]).session_id
            != id implies w.segments.contains(v.segments[i]) by {
        assert(crate::schema::segment_ok(v, v.segments[i]));
        assert(q(v.segments[i]));
    }
}

// ---------------------------------------------------------------------------
// What is listed
// ---------------------------------------------------------------------------

/// A sorted selection holds the rows that are selected, as many as there are, in order.
proof fn lemma_listing<A>(rows: Seq<A>, p: spec_fn(A) -> bool, le: spec_fn(A, A) -> bool)
    requires
        crate::tables::is_order(le),
    ensures
        ({
            let list = crate::tables::sorted_by(rows.filter(p), le);
            &&& forall|x: A| #[trigger] list.contains(x) <==> rows.contains(x) && p(x)
            &&& list.to_multiset() == rows.filter(p).to_multiset()
            &&& list.len() == rows.filter(p).len()
            &&& forall|i: int, j: int| 0 <= i < j < list.len() ==> #[trigger] le(list[i], list[j])
        }),
{
    let kept = rows.filter(p);
    let list = crate::tables::sorted_by(kept, le);
    crate::tables::lemma_sorted_by(kept, le);
    crate::tables::lemma_sorted_contains(kept, le);
    crate::tables::lemma_filter(rows, p);
    assert forall|x: A| #[trigger] list.contains(x) <==> rows.contains(x) && p(x) by {
        if kept.contains(x) {
            let i = choose|i: int| 0 <= i < kept.len() && kept[i] == x;
            assert(p(kept[i]));
        }
        if rows.contains(x) && p(x) {
            let i = choose|i: int| 0 <= i < rows.len() && rows[i] == x;
            assert(kept.contains(rows[i]));
        }
    }
}

/// All projects are listed, those last changed first.
pub proof fn law_projects_are_listed_by_change(v: StorageView)
    ensures
        ({
            let list = crate::tables::sorted_by(v.projects, crate::storage::latest_first());
            &&& list.to_multiset() == v.projects.to_multiset()
            &&& list.len() == v.projects.len()
            &&& forall|i: int, j: int|
                0 <= i < j < list.len() ==> (#[trigger] list[i]).updated_at >= (
                #[trigger] list[j]).updated_at
        }),
{
    let le = crate::storage::latest_first();
    let list = crate::tables::sorted_by(v.projects, le);
    crate::tables::lemma_sorted_by(v.projects, le);
    assert forall|i: int, j: int| 0 <= i < j < list.len() implies (#[trigger] list[i]).updated_at
        >= (#[trigger] list[j]).updated_at by {
        assert(le(list[i], list[j]));
    }
}

/// The notes of a project are listed, all of them and no others, by their places; of those at the
/// same place the newer comes first. Each comes with the names of its tags.
pub proof fn law_notes_are_listed_by_place(v: StorageView, project_id: Seq<char>)
    ensures
        ({
            let list = crate::storage::listed_notes(v, project_id);
            let notes = crate::storage::notes_in_order(v, project_id);
            &&& list.len() == notes.len()
            &&& forall|i: int|
                0 <= i < list.len() ==> (#[trigger] list[i]).note == notes[i] && list[i].tags
                    == crate::storage::tag_names(v, notes[i].id)
            &&& forall|n: NoteView| #[trigger]
                notes.contains(n) <==> v.notes.contains(n) && n.project_id == project_id
            &&& notes.to_multiset() == v.notes.filter(
                |n: NoteView| n.project_id == project_id,
            ).to_multiset()
            &&& forall|i: int, j: int|
                0 <= i < j < notes.len() ==> (#[trigger] notes[i]).position < (
                #[trigger] notes[j]).position || notes[i].position == notes[j].position
                    && notes[i].created_at >= notes[j].created_at
        }),
{
    let le = crate::storage::by_place();
    let p = crate::storage::of_project(project_id);
    let notes = crate::storage::notes_in_order(v, project_id);
    lemma_listing(v.notes, p, le);
    assert(p =~= |n: NoteView| n.project_id == project_id);
    assert forall|i: int, j: int| 0 <= i < j < notes.len() implies (#[trigger] notes[i]).position
        < (#[trigger] notes[j]).position || notes[i].position == notes[j].position
        && notes[i].created_at >= notes[j].created_at by {
        assert(le(notes[i], notes[j]));
    }
}

/// The drafts of a project are listed, all of them and no others, those last changed first, each with
/// its notes.
pub proof fn law_drafts_are_listed_by_change(v: StorageView, project_id: Seq<char>)
    ensures
        ({
            let drafts = crate::tables::sorted_by(
                v.drafts.filter(crate::storage::drafts_of(project_id)),
                crate::storage::last_drafted_first(),
            );
            let list = drafts.map_values(crate::storage::with_notes(v));
            &&& forall|i: int|
                0 <= i < list.len() ==> (#[trigger] list[i]).draft == drafts[i] && list[i].note_ids
                    == crate::storage::draft_note_ids(v, drafts[i].id)
            &&& forall|d: DraftView| #[trigger]
                drafts.contains(d) <==> v.drafts.contains(d) && d.project_id == project_id
            &&& drafts.to_multiset() == v.drafts.filter(
                |d: DraftView| d.project_id == project_id,
            ).to_multiset()
            &&& forall|i: int, j: int|
                0 <= i < j < drafts.len() ==> (#[trigger] drafts[i]).updated_at >= (
                #[trigger] drafts[j]).updated_at
        }),
{
    let le = crate::storage::last_drafted_first();
    let p = crate::storage::drafts_of(project_id);
    lemma_listing(v.drafts, p, le);
    assert(p =~= |d: DraftView| d.project_id == project_id);
    let drafts = crate::tables::sorted_by(v.drafts.filter(p), le);
    assert forall|i: int, j: int| 0 <= i < j < drafts.len() implies (#[trigger]
    drafts[i]).updated_at >= (#[trigger] drafts[j]).updated_at by {
        assert(le(drafts[i], drafts[j]));
    }
}

/// The translations of the notes of a project and those of no note are listed with it, the newest
/// first; those of notes of other projects are not. Clearing takes those that are listed, and leaves
/// the others.
pub proof fn law_translations_are_listed_by_age(v: StorageView, project_id: Seq<char>)
    requires
        v.wf(),
    ensures
        ({
            let list = crate::tables::sorted_by(
                v.translations.filter(crate::storage::shown_with(v.notes, project_id)),
                crate::storage::newest_first(),
            );
            let left = v.translations.filter(crate::storage::not_shown_with(v.notes, project_id));
            &&& forall|t: TranslationView|
                v.translations.contains(t) && t.note_id is None ==> #[trigger] list.contains(t)
                    && !left.contains(t)
            &&& forall|t: TranslationView|
                v.translations.contains(t) && (t.note_id matches Some(n) && (crate::tables::row_of(
                    v.notes,
                    n,
                ) matches Some(note) && note.project_id == project_id))
                    ==> #[trigger] list.contains(t) && !left.contains(t)
            &&& forall|t: TranslationView|
                v.translations.contains(t) && (t.note_id matches Some(n) && (crate::tables::row_of(
                    v.notes,
                    n,
                ) matches Some(note) && note.project_id != project_id)) ==> !(
                #[trigger] list.contains(t)) && left.contains(t)
            &&& forall|t: TranslationView| #[trigger]
                list.contains(t) || left.contains(t) ==> v.translations.contains(t)
            &&& forall|i: int, j: int|
                0 <= i < j < list.len() ==> (#[trigger] list[i]).created_at >= (
                #[trigger] list[j]).created_at
        }),
{
    let le = crate::storage::newest_first();
    let p = crate::storage::shown_with(v.notes, project_id);
    let q = crate::storage::not_shown_with(v.notes, project_id);
    lemma_listing(v.translations, p, le);
    lemma_listing(v.translations, q, le);
    let list = crate::tables::sorted_by(v.translations.filter(p), le);
    let left = v.translations.filter(q);
    crate::tables::lemma_sorted_contains(left, le);
    assert forall|t: TranslationView| #[trigger] left.contains(t) <==> v.translations.contains(t)
        && q(t) by {
        assert(crate::tables::sorted_by(left, le).contains(t) == left.contains(t));
    }
    assert forall|i: int, j: int| 0 <= i < j < list.len() implies (#[trigger] list[i]).created_at
        >= (#[trigger] list[j]).created_at by {
        assert(le(list[i], list[j]));
    }
}

/// All sessions are listed with how many captions they have, those last started first.
pub proof fn law_sessions_are_listed_by_start(v: StorageView)
    ensures
        ({
            let counts = v.sessions.map_values(crate::storage::counted(v.segments));
            let list = crate::tables::sorted_by(counts, crate::storage::last_started_first());
            &&& list.to_multiset() == counts.to_multiset()
            &&& counts.len() == v.sessions.len()
            &&& forall|i: int|
                0 <= i < counts.len() ==> #[trigger] counts[i] == (LiveSessionView {
                    segment_count: v.segments.filter(
                        |s: LiveSegmentView| s.session_id == v.sessions[i].id,
                    ).len() as i64,
                    ..v.sessions[i]
                })
            &&& forall|i: int, j: int|
                0 <= i < j < list.len() ==> (#[trigger] list[i]).started_at >= (
                #[trigger] list[j]).started_at
        }),
{
    let le = crate::storage::last_started_first();
    let counts = v.sessions.map_values(crate::storage::counted(v.segments));
    let list = crate::tables::sorted_by(counts, le);
    crate::tables::lemma_sorted_by(counts, le);
    assert forall|i: int| 0 <= i < counts.len() implies #[trigger] counts[i] == (LiveSessionView {
        segment_count: v.segments.filter(
            |s: LiveSegmentView| s.session_id == v.sessions[i].id,
        ).len() as i64,
        ..v.sessions[i]
    }) by {
        assert(crate::storage::of_session(v.sessions[i].id) =~= |s: LiveSegmentView|
            s.session_id == v.sessions[i].id);
    }
    assert forall|i: int, j: int| 0 <= i < j < list.len() implies (#[trigger] list[i]).started_at
        >= (#[trigger] list[j]).started_at by {
        assert(le(list[i], list[j]));
    }
}

/// The captions of a session are read back, all of them and no others, by their numbers.
pub proof fn law_captions_are_read_by_number(v: StorageView, id: Seq<char>)
    ensures
        ({
            let list = crate::tables::sorted_by(
                v.segments.filter(crate::storage::of_session(id)),
                crate::storage::by_sequence(),
            );
            &&& forall|s: LiveSegmentView| #[trigger]
                list.contains(s) <==> v.segments.contains(s) && s.session_id == id
            &&& list.to_multiset() == v.segments.filter(
                |s: LiveSegmentView| s.session_id == id,
            ).to_multiset()
            &&& forall|i: int, j: int|
                0 <= i < j < list.len() ==> (#[trigger] list[i]).sequence <= (
                #[trigger] list[j]).sequence
        }),
{
    let le = crate::storage::by_sequence();
    let p = crate::storage::of_session(id);
    lemma_listing(v.segments, p, le);
    assert(p =~= |s: LiveSegmentView| s.session_id == id);
    let list = crate::tables::sorted_by(v.segments.filter(p), le);
    assert forall|i: int, j: int| 0 <= i < j < list.len() implies (#[trigger] list[i]).sequence
        <= (#[trigger] list[j]).sequence by {
        assert(le(list[i], list[j]));
    }
}

/// The links from notes of a project are listed, all of them and no others, in the order in which they
/// were drawn.
pub proof fn law_links_are_listed_by_age(v: StorageView, project_id: Seq<char>)
    ensures
        ({
            let list = crate::storage::listed_links(v, project_id);
            &&& forall|l: NoteLinkView| #[trigger]
                list.contains(l) <==> v.links.contains(l) && (crate::tables::row_of(
                    v.notes,
                    l.from_note_id,
                ) matches Some(n) && n.project_id == project_id)
            &&& forall|i: int, j: int|
                0 <= i < j < list.len() ==> (#[trigger] list[i]).created_at <= (
                #[trigger] list[j]).created_at
        }),
{
    let le = crate::storage::first_drawn_first();
    let p = crate::storage::links_of(v.notes, project_id);
    lemma_listing(v.links, p, le);
    let list = crate::storage::listed_links(v, project_id);
    assert forall|i: int, j: int| 0 <= i < j < list.len() implies (#[trigger] list[i]).created_at
        <= (#[trigger] list[j]).created_at by {
        assert(le(list[i], list[j]));
    }
}

/// The notes that are asked for by their identifiers come in the order in which they are asked for:
/// where each is asked for once and is there, each comes once, at its place.
pub proof fn law_notes_come_as_asked_for(notes: Seq<NoteView>, ids: Seq<Seq<char>>)
    requires
        ids.no_duplicates(),
        forall|i: int| 0 <= i < ids.len() ==> crate::tables::has_key(notes, #[trigger] ids[i]),
    ensures
        crate::storage::notes_by_ids(notes, ids).len() == ids.len(),
        forall|i: int|
            0 <= i < ids.len() ==> Some(#[trigger] crate::storage::notes_by_ids(notes, ids)[i])
                == crate::tables::row_of(notes, ids[i]) && crate::storage::notes_by_ids(notes, ids)[i].id
                == ids[i],
    decreases ids.len(),
{
    if ids.len() > 0 {
        let head = ids.drop_last();
        assert forall|i: int| 0 <= i < head.len() implies crate::tables::has_key(
            notes,
            #[trigger] head[i],
        ) by {
            assert(head[i] == ids[i]);
        }
        assert(head.no_duplicates()) by {
            assert forall|a: int, b: int|
                0 <= a < head.len() && 0 <= b < head.len() && a != b implies head[a] != head[b] by {
                assert(ids[a] != ids[b]);
            }
        }
        law_notes_come_as_asked_for(notes, head);
        assert(ids[ids.len() - 1] == ids.last());
        if head.contains(ids.last()) {
            let i = choose|i: int| 0 <= i < head.len() && head[i] == ids.last();
            assert(ids[i] == ids[ids.len() - 1]);
        }
        crate::tables::lemma_row_of(notes, ids.last());
        assert forall|i: int| 0 <= i < ids.len() implies Some(
            #[trigger] crate::storage::notes_by_ids(notes, ids)[i],
        ) == crate::tables::row_of(notes, ids[i]) && crate::storage::notes_by_ids(notes, ids)[i].id
            == ids[i] by {
            if i < head.len() {
                assert(crate::storage::notes_by_ids(notes, ids)[i] == crate::storage::notes_by_ids(
                    notes,
                    head,
                )[i]);
            }
        }
    }
}

/// Notes that are not there are left out, and none comes that was not asked for.
pub proof fn law_no_other_notes_come(notes: Seq<NoteView>, ids: Seq<Seq<char>>)
    ensures
        forall|i: int|
            0 <= i < crate::storage::notes_by_ids(notes, ids).len() ==> ids.contains(
                (#[trigger] crate::storage::notes_by_ids(notes, ids)[i]).id,
            ) && notes.contains(crate::storage::notes_by_ids(notes, ids)[i]),
    decreases ids.len(),
{
    if ids.len() > 0 {
        let head = ids.drop_last();
        law_no_other_notes_come(notes, head);
        crate::tables::lemma_row_of(notes, ids.last());
        let all = crate::storage::notes_by_ids(notes, ids);
        assert forall|i: int| 0 <= i < all.len() implies ids.contains((#[trigger] all[i]).id)
            && notes.contains(all[i]) by {
            let before = crate::storage::notes_by_ids(notes, head);
            if i < before.len() {
                assert(all[i] == before[i]);
                let k = choose|k: int| 0 <= k < head.len() && head[k] == before[i].id;
                assert(ids[k] == before[i].id);
            } else {
                assert(ids[ids.len() - 1] == ids.last());
            }
        }
    }
}

// ---------------------------------------------------------------------------
// Links
// ---------------------------------------------------------------------------

/// A link between two notes that are there is drawn as it is asked for, and nothing else changes. It
/// is refused where it leads from a note to itself or one of the notes is not there.
pub proof fn law_link_is_drawn_as_asked_for(v: StorageView, link: NoteLinkView)
    ensures
        ({
            let (w, r) = crate::storage::link_drawn(v, link);
            let known = exists|i: int|
                0 <= i < v.links.len() && (#[trigger] v.links[i]).from_note_id == link.from_note_id
                    && v.links[i].to_note_id == link.to_note_id;
            &&& link.from_note_id != link.to_note_id && crate::tables::has_key(
                v.notes,
                link.from_note_id,
            ) && crate::tables::has_key(v.notes, link.to_note_id) && !known
                && !crate::tables::has_key(v.links, link.id) ==> r == Ok::<
                NoteLinkView,
                Seq<char>,
            >(link) && w == (StorageView { links: v.links.push(link), ..v })
            &&& link.from_note_id == link.to_note_id ==> r is Err && w == v
            &&& !known && !crate::tables::has_key(v.notes, link.from_note_id) ==> r is Err && w == v
            &&& !known && !crate::tables::has_key(v.notes, link.to_note_id) ==> r is Err && w == v
            &&& known && link.from_note_id != link.to_note_id ==> w == v && (r matches Ok(l)
                && l.from_note_id == link.from_note_id && l.to_note_id == link.to_note_id
                && v.links.contains(l))
        }),
{
    crate::tables::lemma_pair_row(v.links, link.from_note_id, link.to_note_id);
    if crate::tables::has_pair(v.links, link.from_note_id, link.to_note_id) {
        let i = choose|i: int|
            0 <= i < v.links.len() && (#[trigger] v.links[i]).pair() == (
                link.from_note_id,
                link.to_note_id,
            );
        assert(v.links[i].from_note_id == link.from_note_id);
    } else {
        assert forall|i: int|
            0 <= i < v.links.len() && (#[trigger] v.links[i]).from_note_id
                == link.from_note_id implies v.links[i].to_note_id != link.to_note_id by {
            assert(v.links[i].pair() != (link.from_note_id, link.to_note_id));
        }
    }
}

/// Each link of a note shows the note at its other end, with its title, its text, the label of the
/// link, and whether it leads there or comes from there; and nothing else is shown.
pub proof fn law_linked_notes_are_at_the_other_end(v: StorageView, note_id: Seq<char>)
    requires
        v.wf(),
    ensures
        ({
            let list = crate::storage::linked_notes(v, note_id);
            &&& forall|k: int|
                0 <= k < v.links.len() && (#[trigger] v.links[k]).from_note_id == note_id ==> (
                crate::tables::row_of(v.notes, v.links[k].to_note_id) matches Some(n)
                    && list.contains(
                    LinkedNoteView {
                        id: n.id,
                        title: n.title,
                        text: n.text,
                        label: v.links[k].label,
                        direction: "out"@,
                    },
                ))
            &&& forall|k: int|
                0 <= k < v.links.len() && (#[trigger] v.links[k]).to_note_id == note_id ==> (
                crate::tables::row_of(v.notes, v.links[k].from_note_id) matches Some(n)
                    && list.contains(
                    LinkedNoteView {
                        id: n.id,
                        title: n.title,
                        text: n.text,
                        label: v.links[k].label,
                        direction: "in"@,
                    },
                ))
            &&& list.len() == v.links.filter(
                |l: NoteLinkView| l.from_note_id == note_id,
            ).len() + v.links.filter(|l: NoteLinkView| l.to_note_id == note_id).len()
        }),
{
    let p = crate::storage::links_from(note_id);
    let q = crate::storage::links_to(note_id);
    let from = v.links.filter(p);
    let to = v.links.filter(q);
    let f = |l: NoteLinkView| crate::storage::linked_note(v.notes, l.to_note_id, l.label, "out"@);
    let g = |l: NoteLinkView| crate::storage::linked_note(v.notes, l.from_note_id, l.label, "in"@);
    let list = crate::storage::linked_notes(v, note_id);
    assert(list == from.map_values(f) + to.map_values(g));
    assert(p =~= |l: NoteLinkView| l.from_note_id == note_id);
    assert(q =~= |l: NoteLinkView| l.to_note_id == note_id);
    crate::tables::lemma_filter(v.links, p);
    crate::tables::lemma_filter(v.links, q);
    assert forall|k: int|
        0 <= k < v.links.len() && (#[trigger] v.links[k]).from_note_id == note_id implies (
    crate::tables::row_of(v.notes, v.links[k].to_note_id) matches Some(n) && list.contains(
        LinkedNoteView {
            id: n.id,
            title: n.title,
            text: n.text,
            label: v.links[k].label,
            direction: "out"@,
        },
    )) by {
        let l = v.links[k];
        assert(crate::schema::link_ok(v, l));
        crate::tables::lemma_row_of(v.notes, l.to_note_id);
        assert(p(l));
        let i = choose|i: int| 0 <= i < from.len() && from[i] == l;
        assert(list[i] == f(from[i]));
    }
    assert forall|k: int|
        0 <= k < v.links.len() && (#[trigger] v.links[k]).to_note_id == note_id implies (
    crate::tables::row_of(v.notes, v.links[k].from_note_id) matches Some(n) && list.contains(
        LinkedNoteView {
            id: n.id,
            title: n.title,
            text: n.text,
            label: v.links[k].label,
            direction: "in"@,
        },
    )) by {
        let l = v.links[k];
        assert(crate::schema::link_ok(v, l));
        crate::tables::lemma_row_of(v.notes, l.from_note_id);
        assert(q(l));
        let i = choose|i: int| 0 <= i < to.len() && to[i] == l;
        assert(list[from.len() + i] == g(to[i]));
    }
}

// ---------------------------------------------------------------------------
// What is owed
// ---------------------------------------------------------------------------

/// A translation is refused exactly where its identifier is taken or its note is not there.
pub proof fn law_translations_are_refused_for_cause(v: StorageView, t: TranslationView)
    ensures
        crate::storage::translation_refusal(v, t) is None <==> !crate::tables::has_key(
            v.translations,
            t.id,
        ) && (t.note_id matches Some(n) ==> crate::tables::has_key(v.notes, n)),
{
}

/// A draft of notes that are there, in a project that is there, is made; it leaves notes and projects
/// as they were.
pub proof fn law_draft_is_made(v: StorageView, draft: DraftView, ids: Seq<Seq<char>>)
    requires
        !crate::tables::has_key(v.drafts, draft.id),
        crate::tables::has_key(v.projects, draft.project_id),
        forall|i: int| 0 <= i < ids.len() ==> crate::tables::has_key(v.notes, #[trigger] ids[i]),
    ensures
        crate::storage::draft_created(v, draft, ids).1 is None,
        crate::storage::draft_created(v, draft, ids).0.drafts == v.drafts.push(draft),
        crate::storage::draft_created(v, draft, ids).0.notes == v.notes,
        crate::storage::draft_created(v, draft, ids).0.projects == v.projects,
{
    let x = StorageView { drafts: v.drafts.push(draft), ..v };
    assert(x.drafts[v.drafts.len() as int].key() == draft.id);
    lemma_draft_notes_are_added(x, draft.id, ids);
}

proof fn lemma_draft_notes_are_added(v: StorageView, draft_id: Seq<char>, ids: Seq<Seq<char>>)
    requires
        crate::tables::has_key(v.drafts, draft_id),
        forall|i: int| 0 <= i < ids.len() ==> crate::tables::has_key(v.notes, #[trigger] ids[i]),
    ensures
        crate::storage::draft_notes_added(v, draft_id, ids).1,
        crate::storage::draft_notes_added(v, draft_id, ids).0 == (StorageView {
            draft_notes: crate::storage::draft_notes_added(v, draft_id, ids).0.draft_notes,
            ..v
        }),
    decreases ids.len(),
{
    if ids.len() > 0 {
        let head = ids.drop_last();
        assert forall|i: int| 0 <= i < head.len() implies crate::tables::has_key(
            v.notes,
            #[trigger] head[i],
        ) by {
            assert(head[i] == ids[i]);
        }
        lemma_draft_notes_are_added(v, draft_id, head);
        assert(ids[ids.len() - 1] == ids.last());
    }
}

/// A database that has projects and knows the places of its notes is opened as it is. One without
/// projects gets one, named "Default". Where places are not known, the notes of a project are placed by
/// their age, the newest on top; nothing else of them changes.
pub proof fn law_opening_adds_what_is_missing(
    v: StorageView,
    has_position: bool,
    id: Seq<char>,
    now: i64,
)
    ensures
        ({
            let w = crate::storage::opened(v, has_position, id, now);
            &&& has_position && v.projects.len() > 0 ==> w == v
            &&& v.projects.len() > 0 ==> w.projects == v.projects
            &&& v.projects.len() == 0 ==> w.projects.len() == 1 && w.projects[0] == (ProjectView {
                id,
                name: "Default"@,
                description: None,
                created_at: now,
                updated_at: now,
            })
            &&& has_position ==> w.notes == v.notes
            &&& w.notes.len() == v.notes.len()
            &&& forall|i: int|
                0 <= i < v.notes.len() ==> #[trigger] w.notes[i] == (NoteView {
                    position: w.notes[i].position,
                    ..v.notes[i]
                })
            &&& !has_position && v.notes.len() <= i64::MAX ==> forall|i: int, j: int|
                0 <= i < v.notes.len() && 0 <= j < v.notes.len() && v.notes[i].project_id
                    == v.notes[j].project_id && v.notes[i].created_at > v.notes[j].created_at ==> (
                #[trigger] w.notes[i]).position < (#[trigger] w.notes[j]).position
            &&& w == (StorageView { notes: w.notes, projects: w.projects, ..v })
        }),
{
    let w = crate::storage::opened(v, has_position, id, now);
    if !has_position && v.notes.len() <= i64::MAX {
        assert forall|i: int, j: int|
            0 <= i < v.notes.len() && 0 <= j < v.notes.len() && v.notes[i].project_id
                == v.notes[j].project_id && v.notes[i].created_at > v.notes[j].created_at implies (
        #[trigger] w.notes[i]).position < (#[trigger] w.notes[j]).position by {
            lemma_newer_count(v.notes, v.notes[i], v.notes[j], i);
            lemma_newer_count(v.notes, v.notes[i], v.notes[j], j);
        }
    }
}

/// More notes are newer than an older note than are newer than a newer one.
proof fn lemma_newer_count(notes: Seq<NoteView>, a: NoteView, b: NoteView, i: int)
    requires
        a.project_id == b.project_id,
        a.created_at > b.created_at,
    ensures
        crate::storage::newer_count(notes, a) <= crate::storage::newer_count(notes, b)
            <= notes.len(),
        0 <= i < notes.len() && notes[i] == a ==> crate::storage::newer_count(notes, a)
            < crate::storage::newer_count(notes, b),
    decreases notes.len(),
{
    if notes.len() > 0 {
        lemma_newer_count(notes.drop_last(), a, b, i);
        if 0 <= i < notes.len() - 1 {
            assert(notes.drop_last()[i] == notes[i]);
        }
    }
}

/// A note can always be taken out from under another, and be put under any note that stands under
/// none. It can be put neither under itself, nor under a note that stands under it, nor under one that
/// is not there.
pub proof fn law_parents_are_refused_for_cause(v: StorageView, id: Seq<char>, p: Seq<char>)
    ensures
        crate::storage::parent_refusal(v, id, None) is None,
        crate::storage::parent_refusal(v, id, Some(id)) is Some,
        p != id && crate::tables::has_key(v.notes, id) && !crate::tables::has_key(v.notes, p)
            ==> crate::storage::parent_refusal(v, id, Some(p)) is Some,
        p != id && (crate::tables::row_of(v.notes, p) matches Some(n) && n.parent_id is None)
            ==> crate::storage::parent_refusal(v, id, Some(p)) is None,
        p != id && (crate::tables::row_of(v.notes, p) matches Some(n) && n.parent_id == Some(id))
            ==> crate::storage::parent_refusal(v, id, Some(p)) is Some,
{
    reveal_with_fuel(crate::storage::chain_refusal, 3);
    crate::tables::lemma_row_of(v.notes, p);
}

/// Tags are given where the identifiers for new ones are free; and giving a note its tags changes
/// tags alone.
pub proof fn law_tags_are_given(
    v: StorageView,
    note: NoteView,
    names: Seq<Seq<char>>,
    ids: Seq<Seq<char>>,
)
    requires
        ids.len() == names.len(),
        ids.no_duplicates(),
        forall|i: int| 0 <= i < ids.len() ==> !crate::tables::has_key(v.tags, #[trigger] ids[i]),
    ensures
        ({
            let (w, ok) = crate::storage::tags_set(v, note, names, ids);
            ok && w == (StorageView { tags: w.tags, note_tags: w.note_tags, ..v })
        }),
{
    let bare = StorageView {
        note_tags: v.note_tags.filter(crate::storage::of_other_notes(note.id)),
        ..v
    };
    lemma_tags_are_given(bare, note.project_id, note.id, names, ids);
}

proof fn lemma_tags_are_given(
    v: StorageView,
    project_id: Seq<char>,
    note_id: Seq<char>,
    names: Seq<Seq<char>>,
    ids: Seq<Seq<char>>,
)
    requires
        names.len() <= ids.len(),
        ids.no_duplicates(),
        forall|i: int| 0 <= i < ids.len() ==> !crate::tables::has_key(v.tags, #[trigger] ids[i]),
    ensures
        ({
            let (w, ok) = crate::storage::tags_given(v, project_id, note_id, names, ids);
            &&& ok
            &&& w == (StorageView { tags: w.tags, note_tags: w.note_tags, ..v })
            &&& forall|i: int|
                names.len() <= i < ids.len() ==> !crate::tables::has_key(w.tags, #[trigger] ids[i])
        }),
    decreases names.len(),
{
    if names.len() > 0 {
        let head = names.drop_last();
        lemma_tags_are_given(v, project_id, note_id, head, ids);
        let w = crate::storage::tags_given(v, project_id, note_id, head, ids).0;
        let name = crate::text::trimmed(names.last());
        let n = names.len() - 1;
        let all = crate::storage::tags_given(v, project_id, note_id, names, ids).0;
        assert(!crate::tables::has_key(w.tags, ids[n]));
        let added = crate::records::TagView { id: ids[n], project_id, name };
        assert forall|i: int| names.len() <= i < ids.len() implies !crate::tables::has_key(
            all.tags,
            #[trigger] ids[i],
        ) by {
            assert(!crate::tables::has_key(w.tags, ids[i]));
            assert(ids[i] != ids[n]);
            if all.tags != w.tags {
                assert(all.tags == w.tags.push(added));
                crate::tables::lemma_push_key(w.tags, added);
            }
        }
    }
}

/// A session is kept with all its captions where their identifiers are free.
pub proof fn law_session_is_kept(
    v: StorageView,
    session: LiveSessionView,
    segments: Seq<LiveSegmentView>,
)
    requires
        !crate::tables::has_key(v.sessions, session.id),
        forall|i: int|
            0 <= i < segments.len() ==> !crate::tables::has_key(
                v.segments,
                (#[trigger] segments[i]).id,
            ),
        forall|i: int, j: int|
            0 <= i < j < segments.len() ==> (#[trigger] segments[i]).id != (#[trigger]
            segments[j]).id,
    ensures
        ({
            let (w, ok) = crate::storage::segments_added(
                crate::storage::session_added(v, session),
                session.id,
                segments,
            );
            &&& ok
            &&& w.sessions == v.sessions.push(LiveSessionView { segment_count: 0, ..session })
            &&& w.segments.len() == v.segments.len() + segments.len()
            &&& forall|i: int|
                0 <= i < v.segments.len() ==> #[trigger] w.segments[i] == v.segments[i]
            &&& forall|i: int|
                0 <= i < segments.len() ==> #[trigger] w.segments[v.segments.len() + i] == (
                LiveSegmentView { session_id: session.id, ..segments[i] })
            &&& w == (StorageView { sessions: w.sessions, segments: w.segments, ..v })
        }),
{
    lemma_segments_are_added(crate::storage::session_added(v, session), session.id, segments);
}

proof fn lemma_segments_are_added(
    v: StorageView,
    session_id: Seq<char>,
    segments: Seq<LiveSegmentView>,
)
    requires
        forall|i: int|
            0 <= i < segments.len() ==> !crate::tables::has_key(
                v.segments,
                (#[trigger] segments[i]).id,
            ),
        forall|i: int, j: int|
            0 <= i < j < segments.len() ==> (#[trigger] segments[i]).id != (#[trigger]
            segments[j]).id,
    ensures
        ({
            let (w, ok) = crate::storage::segments_added(v, session_id, segments);
            &&& ok
            &&& w.segments.len() == v.segments.len() + segments.len()
            &&& forall|i: int|
                0 <= i < v.segments.len() ==> #[trigger] w.segments[i] == v.segments[i]
            &&& forall|i: int|
                0 <= i < segments.len() ==> #[trigger] w.segments[v.segments.len() + i] == (
                LiveSegmentView { session_id, ..segments[i] })
            &&& w == (StorageView { segments: w.segments, ..v })
        }),
    decreases segments.len(),
{
    if segments.len() > 0 {
        let head = segments.drop_last();
        assert forall|i: int| 0 <= i < head.len() implies !crate::tables::has_key(
            v.segments,
            (#[trigger] head[i]).id,
        ) by {
            assert(head[i] == segments[i]);
        }
        assert forall|i: int, j: int| 0 <= i < j < head.len() implies (#[trigger] head[i]).id != (
        #[trigger] head[j]).id by {
            assert(head[i] == segments[i] && head[j] == segments[j]);
        }
        lemma_segments_are_added(v, session_id, head);
        let w = crate::storage::segments_added(v, session_id, head).0;
        let s = segments.last();
        let n = v.segments.len() as int;
        assert(segments[segments.len() - 1] == s);
        if crate::tables::has_key(w.segments, s.id) {
            let k = choose|k: int|
                0 <= k < w.segments.len() && (#[trigger] w.segments[k]).key() == s.id;
            if k < n {
                assert(v.segments[k].key() == s.id);
            } else {
                assert(w.segments[n + (k - n)] == (LiveSegmentView {
                    session_id,
                    ..head[k - n]
                }));
                assert(segments[k - n].id != segments[segments.len() - 1].id);
            }
        }
        let all = crate::storage::segments_added(v, session_id, segments).0;
        assert forall|i: int| 0 <= i < segments.len() implies #[trigger] all.segments[n + i] == (
        LiveSegmentView { session_id, ..segments[i] }) by {
            if i < head.len() {
                assert(all.segments[n + i] == w.segments[n + i]);
            }
        }
    }
}

/// What a refused change is told names the rule that it breaks: an id that is taken already, or a
/// row that is pointed at and not there.
pub proof fn law_refused_rows_say_why(
    v: StorageView,
    note: NoteView,
    t: TranslationView,
    draft: DraftView,
    note_ids: Seq<Seq<char>>,
)
    ensures
        crate::storage::note_refusal(v, note) matches Some(m) ==> m == if crate::tables::has_key(
            v.notes,
            note.id,
        ) {
            "UNIQUE constraint failed: notes.id"@
        } else {
            "FOREIGN KEY constraint failed"@
        },
        crate::storage::translation_refusal(v, t) matches Some(m) ==> m == if crate::tables::has_key(
            v.translations,
            t.id,
        ) {
            "UNIQUE constraint failed: translations.id"@
        } else {
            "FOREIGN KEY constraint failed"@
        },
        crate::storage::draft_created(v, draft, note_ids).1 matches Some(m) ==> m
            == if crate::tables::has_key(v.drafts, draft.id) {
            "UNIQUE constraint failed: drafts.id"@
        } else {
            "FOREIGN KEY constraint failed"@
        },
{
}

/// What a refused link is told names the rule that it breaks: it would join a note to itself, its id
/// is taken, or one of its notes is not there. Nothing is stored then.
pub proof fn law_refused_links_say_why(v: StorageView, link: NoteLinkView)
    ensures
        crate::storage::link_drawn(v, link).1 matches Err(m) ==> {
            &&& crate::storage::link_drawn(v, link).0 == v
            &&& m == if link.from_note_id == link.to_note_id {
                "cannot link a note to itself"@
            } else if crate::tables::has_key(v.links, link.id) {
                "Query returned no rows"@
            } else {
                "FOREIGN KEY constraint failed"@
            }
        },
        link.from_note_id == link.to_note_id ==> crate::storage::link_drawn(v, link).1 is Err,
{
}

/// What a refused parent is told names the rule that it breaks: the note itself, a circle, a chain of
/// more than sixty-four notes, or a parent that is not there.
pub proof fn law_refused_parents_say_why(v: StorageView, id: Seq<char>, p: Seq<char>)
    ensures
        p == id ==> crate::storage::parent_refusal(v, id, Some(p)) == Some(
            "a note cannot be its own parent"@,
        ),
        crate::storage::parent_refusal(v, id, Some(p)) matches Some(m) ==> m
            == "a note cannot be its own parent"@ || m == "cycle detected in parent chain"@ || m
            == "parent chain too deep"@ || m == "FOREIGN KEY constraint failed"@,
        crate::storage::parent_refusal(v, id, None) is None,
        (p != id && crate::storage::parent_of(v.notes, p) == Some(id))
            ==> crate::storage::parent_refusal(v, id, Some(p)) == Some(
            "cycle detected in parent chain"@,
        ),
{
    lemma_chain_words(v.notes, Some(p), id, 0);
    reveal_with_fuel(crate::storage::chain_refusal, 3);
}

proof fn lemma_chain_words(
    notes: Seq<NoteView>,
    cur: Option<Seq<char>>,
    id: Seq<char>,
    depth: nat,
)
    requires
        depth <= 64,
    ensures
        crate::storage::chain_refusal(notes, cur, id, depth) matches Some(m) ==> m
            == "cycle detected in parent chain"@ || m == "parent chain too deep"@,
    decreases 65 - depth,
{
    if let Some(c) = cur {
        if c != id && depth < 64 {
            lemma_chain_words(notes, crate::storage::parent_of(notes, c), id, depth + 1);
        }
    }
}

/// A chain of parents that does not end within sixty-four steps is refused as too deep, and one that
/// comes back to the note as a circle.
pub proof fn law_chains_are_followed(
    notes: Seq<NoteView>,
    chain: Seq<Seq<char>>,
    id: Seq<char>,
    n: int,
)
    requires
        0 <= n < chain.len(),
        n <= 64,
        forall|i: int| 0 <= i < n ==> crate::storage::parent_of(notes, #[trigger] chain[i]) == Some(
            chain[i + 1],
        ),
        forall|i: int| 0 <= i < n ==> #[trigger] chain[i] != id,
    ensures
        chain[n] == id ==> crate::storage::chain_refusal(notes, Some(chain[0]), id, 0) == Some(
            "cycle detected in parent chain"@,
        ),
        n == 64 && chain[n] != id ==> crate::storage::chain_refusal(notes, Some(chain[0]), id, 0)
            == Some("parent chain too deep"@),
        chain[n] != id && n < 64 && crate::storage::parent_of(notes, chain[n]) is None
            ==> crate::storage::chain_refusal(notes, Some(chain[0]), id, 0) is None,
{
    lemma_chain_from(notes, chain, id, n, 0);
}

proof fn lemma_chain_from(
    notes: Seq<NoteView>,
    chain: Seq<Seq<char>>,
    id: Seq<char>,
    n: int,
    d: int,
)
    requires
        0 <= d <= n < chain.len(),
        n <= 64,
        forall|i: int| 0 <= i < n ==> crate::storage::parent_of(notes, #[trigger] chain[i]) == Some(
            chain[i + 1],
        ),
        forall|i: int| 0 <= i < n ==> #[trigger] chain[i] != id,
    ensures
        ({
            let said = crate::storage::chain_refusal(notes, Some(chain[d]), id, d as nat);
            &&& chain[n] == id ==> said == Some("cycle detected in parent chain"@)
            &&& n == 64 && chain[n] != id ==> said == Some("parent chain too deep"@)
            &&& chain[n] != id && n < 64 && crate::storage::parent_of(notes, chain[n]) is None
                ==> said is None
        }),
    decreases n - d,
{
    if d < n {
        lemma_chain_from(notes, chain, id, n, d + 1);
        assert(crate::storage::parent_of(notes, chain[d]) == Some(chain[d + 1]));
    } else if chain[n] != id && n < 64 && crate::storage::parent_of(notes, chain[n]) is None {
        assert(crate::storage::chain_refusal(notes, None, id, (n + 1) as nat) is None);
    }
}

/// Giving a draft its notes leaves the notes of every other draft as they are, and the draft itself
/// with no note that was not asked for, and with all of them where none is lacking.
pub proof fn law_draft_gets_the_notes_asked_for(
    v: StorageView,
    draft_id: Seq<char>,
    note_ids: Seq<Seq<char>>,
)
    ensures
        ({
            let x = StorageView {
                draft_notes: v.draft_notes.filter(crate::storage::of_other_drafts(draft_id)),
                ..v
            };
            let (w, ok) = crate::storage::draft_notes_added(x, draft_id, note_ids);
            &&& forall|i: int|
                0 <= i < v.draft_notes.len() && (#[trigger] v.draft_notes[i]).draft_id != draft_id
                    ==> w.draft_notes.contains(v.draft_notes[i])
            &&& forall|i: int|
                0 <= i < w.draft_notes.len() && (#[trigger] w.draft_notes[i]).draft_id != draft_id
                    ==> v.draft_notes.contains(w.draft_notes[i])
            &&& forall|i: int|
                0 <= i < w.draft_notes.len() && (#[trigger] w.draft_notes[i]).draft_id == draft_id
                    ==> note_ids.contains(w.draft_notes[i].note_id)
            &&& ok ==> forall|k: int|
                0 <= k < note_ids.len() ==> exists|i: int|
                    0 <= i < w.draft_notes.len() && (#[trigger] w.draft_notes[i]).draft_id
                        == draft_id && w.draft_notes[i].note_id == #[trigger] note_ids[k]
            &&& w.drafts == v.drafts && w.notes == v.notes
        }),
{
    let p = crate::storage::of_other_drafts(draft_id);
    let x = StorageView { draft_notes: v.draft_notes.filter(p), ..v };
    let w = crate::storage::draft_notes_added(x, draft_id, note_ids).0;
    crate::tables::lemma_filter(v.draft_notes, p);
    lemma_notes_added(x, draft_id, note_ids);
    assert forall|i: int|
        0 <= i < v.draft_notes.len() && (#[trigger] v.draft_notes[i]).draft_id
            != draft_id implies w.draft_notes.contains(v.draft_notes[i]) by {
        assert(p(v.draft_notes[i]));
        let k = choose|k: int|
            0 <= k < x.draft_notes.len() && x.draft_notes[k] == v.draft_notes[i];
        assert(w.draft_notes[k] == x.draft_notes[k]);
    }
    assert forall|i: int|
        0 <= i < w.draft_notes.len() && (#[trigger] w.draft_notes[i]).draft_id
            != draft_id implies v.draft_notes.contains(w.draft_notes[i]) by {
        assert(w.draft_notes[i] == x.draft_notes[i]);
    }
    assert forall|i: int|
        0 <= i < w.draft_notes.len() && (#[trigger] w.draft_notes[i]).draft_id
            == draft_id implies note_ids.contains(w.draft_notes[i].note_id) by {
        if i < x.draft_notes.len() {
            assert(w.draft_notes[i] == x.draft_notes[i]);
            assert(p(x.draft_notes[i]));
        }
    }
}

proof fn lemma_notes_added(x: StorageView, draft_id: Seq<char>, note_ids: Seq<Seq<char>>)
    ensures
        ({
            let (w, ok) = crate::storage::draft_notes_added(x, draft_id, note_ids);
            &&& w.draft_notes.len() >= x.draft_notes.len()
            &&& forall|i: int|
                0 <= i < x.draft_notes.len() ==> #[trigger] w.draft_notes[i] == x.draft_notes[i]
            &&& forall|i: int|
                x.draft_notes.len() <= i < w.draft_notes.len() ==> (
                #[trigger] w.draft_notes[i]).draft_id == draft_id && note_ids.contains(
                    w.draft_notes[i].note_id,
                )
            &&& ok ==> forall|k: int|
                0 <= k < note_ids.len() ==> exists|i: int|
                    0 <= i < w.draft_notes.len() && (#[trigger] w.draft_notes[i]).draft_id
                        == draft_id && w.draft_notes[i].note_id == #[trigger] note_ids[k]
            &&& w.drafts == x.drafts && w.notes == x.notes
        }),
    decreases note_ids.len(),
{
    if note_ids.len() > 0 {
        let front = note_ids.drop_last();
        let n = front.len() as int;
        lemma_notes_added(x, draft_id, front);
        let (u, before) = crate::storage::draft_notes_added(x, draft_id, front);
        let (w, ok) = crate::storage::draft_notes_added(x, draft_id, note_ids);
        assert(note_ids[n] == note_ids.last());
        assert forall|k: int| 0 <= k < n implies #[trigger] front[k] == note_ids[k] by {}
        assert forall|y: Seq<char>| front.contains(y) implies #[trigger] note_ids.contains(y) by {
            let k = choose|k: int| 0 <= k < front.len() && front[k] == y;
            assert(note_ids[k] == y);
        }
        assert forall|i: int| 0 <= i < u.draft_notes.len() implies #[trigger] w.draft_notes[i]
            == u.draft_notes[i] by {}
        assert forall|i: int|
            x.draft_notes.len() <= i < w.draft_notes.len() implies (
        #[trigger] w.draft_notes[i]).draft_id == draft_id && note_ids.contains(
            w.draft_notes[i].note_id,
        ) by {
            if i < u.draft_notes.len() {
                assert(w.draft_notes[i] == u.draft_notes[i]);
                assert(front.contains(u.draft_notes[i].note_id));
            } else {
                assert(note_ids.contains(note_ids.last()));
            }
        }
        if ok {
            assert forall|k: int| 0 <= k < note_ids.len() implies exists|i: int|
                0 <= i < w.draft_notes.len() && (#[trigger] w.draft_notes[i]).draft_id == draft_id
                    && w.draft_notes[i].note_id == #[trigger] note_ids[k] by {
                if k < n {
                    assert(front[k] == note_ids[k]);
                    let i = choose|i: int|
                        0 <= i < u.draft_notes.len() && (#[trigger] u.draft_notes[i]).draft_id
                            == draft_id && u.draft_notes[i].note_id == front[k];
                    assert(w.draft_notes[i] == u.draft_notes[i]);
                } else if crate::tables::has_pair(u.draft_notes, draft_id, note_ids.last()) {
                    let i = choose|i: int|
                        0 <= i < u.draft_notes.len() && (#[trigger] u.draft_notes[i]).pair() == (
                            draft_id,
                            note_ids.last(),
                        );
                    assert(w.draft_notes[i] == u.draft_notes[i]);
                } else {
                    assert(w.draft_notes[u.draft_notes.len() as int].note_id == note_ids.last());
                }
            }
        }
    }
}

} // verus!
