//! What the store promises beyond a single call: what was written is read back, what was deleted
//! is gone with all that hung on it, notes stand where they were put, and no note is above itself.

use crate::records::{
    DraftNoteView, LiveSegmentView, LiveSessionView, NoteLinkView, NoteTagView, NoteView,
    ProjectView, TagView, TranslationView,
};
use crate::schema::StorageView;
use crate::tables::{Keyed, Paired};
use vstd::prelude::*;

verus! {

// ---------------------------------------------------------------------------
// Sorted tables
// ---------------------------------------------------------------------------

/// What is in order already stays as it is.
pub proof fn lemma_sorted_already<A>(s: Seq<A>, le: spec_fn(A, A) -> bool)
    requires
        crate::tables::in_order(s, le),
    ensures
        crate::tables::sorted_by(s, le) == s,
    decreases s.len(),
{
    if s.len() > 0 {
        let head = s.drop_last();
        assert(crate::tables::in_order(head, le)) by {
            assert forall|i: int, j: int| 0 <= i < j < head.len() implies #[trigger] le(
                head[i],
                head[j],
            ) by {
                assert(le(s[i], s[j]));
            }
        }
        lemma_sorted_already(head, le);
        if head.len() > 0 {
            assert(le(s[s.len() - 2], s[s.len() - 1]));
            assert(head.last() == s[s.len() - 2]);
        }
        assert(head.push(s.last()) =~= s);
    }
}

proof fn lemma_insert_keys<M: crate::tables::Keyed>(
    s: Seq<M>,
    x: M,
    le: spec_fn(M, M) -> bool,
)
    requires
        crate::tables::unique(s),
        !crate::tables::has_key(s, x.key()),
    ensures
        crate::tables::unique(crate::tables::insert_by(s, x, le)),
        forall|k: Seq<char>| #[trigger]
            crate::tables::has_key(crate::tables::insert_by(s, x, le), k)
                <==> crate::tables::has_key(s, k) || x.key() == k,
    decreases s.len(),
{
    if s.len() == 0 || le(s.last(), x) {
        crate::tables::lemma_push_key(s, x);
    } else {
        let head = s.drop_last();
        let last = s.last();
        assert(s =~= head.push(last));
        assert forall|i: int, j: int| 0 <= i < j < head.len() implies (#[trigger] head[i]).key()
            != (#[trigger] head[j]).key() by {
            assert(head[i] == s[i]);
            assert(head[j] == s[j]);
        }
        assert(!crate::tables::has_key(head, last.key())) by {
            if crate::tables::has_key(head, last.key()) {
                let i = choose|i: int|
                    0 <= i < head.len() && (#[trigger] head[i]).key() == last.key();
                assert(s[i].key() != s[s.len() - 1].key());
            }
        }
        crate::tables::lemma_push_key(head, last);
        assert(!crate::tables::has_key(head, x.key()));
        assert(last.key() != x.key());
        lemma_insert_keys(head, x, le);
        let inner = crate::tables::insert_by(head, x, le);
        assert(!crate::tables::has_key(inner, last.key()));
        crate::tables::lemma_push_key(inner, last);
    }
}

/// A sorted table has the keys of the table, each once.
pub proof fn lemma_sorted_keys<M: crate::tables::Keyed>(s: Seq<M>, le: spec_fn(M, M) -> bool)
    requires
        crate::tables::unique(s),
    ensures
        crate::tables::unique(crate::tables::sorted_by(s, le)),
        forall|k: Seq<char>| #[trigger]
            crate::tables::has_key(crate::tables::sorted_by(s, le), k) <==> crate::tables::has_key(
                s,
                k,
            ),
    decreases s.len(),
{
    if s.len() > 0 {
        let head = s.drop_last();
        let last = s.last();
        assert(s =~= head.push(last));
        assert forall|i: int, j: int| 0 <= i < j < head.len() implies (#[trigger] head[i]).key()
            != (#[trigger] head[j]).key() by {
            assert(head[i] == s[i]);
            assert(head[j] == s[j]);
        }
        assert(!crate::tables::has_key(head, last.key())) by {
            if crate::tables::has_key(head, last.key()) {
                let i = choose|i: int|
                    0 <= i < head.len() && (#[trigger] head[i]).key() == last.key();
                assert(s[i].key() != s[s.len() - 1].key());
            }
        }
        crate::tables::lemma_push_key(head, last);
        lemma_sorted_keys(head, le);
        lemma_insert_keys(crate::tables::sorted_by(head, le), last, le);
    }
}

// ---------------------------------------------------------------------------
// Projects
// ---------------------------------------------------------------------------

/// Every project is listed, once, and those last worked on come first.
pub proof fn law_projects_are_listed(v: StorageView)
    ensures
        crate::tables::in_order(
            crate::tables::sorted_by(v.projects, crate::storage::latest_first()),
            crate::storage::latest_first(),
        ),
        crate::tables::sorted_by(v.projects, crate::storage::latest_first()).to_multiset()
            == v.projects.to_multiset(),
{
    crate::tables::lemma_sorted_by(v.projects, crate::storage::latest_first());
}

/// The default project is one of the projects, and none is older.
pub proof fn law_default_project_is_the_oldest(v: StorageView, i: int)
    requires
        0 <= i < v.projects.len(),
    ensures
        ({
            let first = crate::tables::sorted_by(v.projects, crate::storage::oldest_first())[0];
            v.projects.contains(first) && first.created_at <= v.projects[i].created_at
        }),
{
    let le = crate::storage::oldest_first();
    let r = crate::tables::sorted_by(v.projects, le);
    crate::tables::lemma_sorted_by(v.projects, le);
    crate::tables::lemma_sorted_contains(v.projects, le);
    assert(r.contains(r[0]));
    assert(r.contains(v.projects[i]));
    let k = choose|k: int| 0 <= k < r.len() && r[k] == v.projects[i];
    if k > 0 {
        assert(le(r[0], r[k]));
    }
}

/// A project that was made is found as it was made, and no other is touched.
pub proof fn law_project_is_read_back(v: StorageView, p: ProjectView)
    requires
        v.wf(),
        !crate::tables::has_key(v.projects, p.id),
    ensures
        crate::tables::row_of(v.projects.push(p), p.id) == Some(p),
        forall|k: Seq<char>|
            k != p.id ==> #[trigger] crate::tables::row_of(v.projects.push(p), k)
                == crate::tables::row_of(v.projects, k),
{
    crate::tables::lemma_push_key(v.projects, p);
}

/// With a project go its notes, its tags and its drafts, and nothing of them is left anywhere; other
/// projects stay.
pub proof fn law_deleted_project_is_gone(v: StorageView, id: Seq<char>)
    requires
        v.wf(),
    ensures
        ({
            let w = crate::storage::project_deleted(v, id);
            &&& w.wf()
            &&& crate::tables::row_of(w.projects, id) is None
            &&& forall|k: Seq<char>|
                k != id ==> #[trigger] crate::tables::row_of(w.projects, k)
                    == crate::tables::row_of(v.projects, k)
            &&& forall|i: int| 0 <= i < w.notes.len() ==> (#[trigger] w.notes[i]).project_id != id
            &&& forall|i: int| 0 <= i < w.tags.len() ==> (#[trigger] w.tags[i]).project_id != id
            &&& forall|i: int| 0 <= i < w.drafts.len() ==> (#[trigger] w.drafts[i]).project_id
                != id
        }),
{
    let p = crate::tables::but::<ProjectView>(id);
    let x = StorageView { projects: v.projects.filter(p), ..v };
    let w = crate::storage::project_deleted(v, id);
    crate::tables::lemma_unique_filter(v.projects, p);
    crate::schema::lemma_settled_wf(x);
    crate::tables::lemma_row_of(w.projects, id);
    crate::tables::lemma_filter(v.projects, p);
    assert(!crate::tables::has_key(w.projects, id)) by {
        if crate::tables::has_key(w.projects, id) {
            let i = choose|i: int| 0 <= i < w.projects.len() && (#[trigger] w.projects[i]).key() == id;
            assert(p(w.projects[i]));
        }
    }
    assert forall|k: Seq<char>| k != id implies #[trigger] crate::tables::row_of(w.projects, k)
        == crate::tables::row_of(v.projects, k) by {
        crate::tables::lemma_key_filter(v.projects, p, k);
        crate::tables::lemma_row_of(v.projects, k);
        crate::tables::lemma_row_of(w.projects, k);
    }
    assert forall|i: int| 0 <= i < w.notes.len() implies (#[trigger] w.notes[i]).project_id
        != id by {
        assert(crate::schema::note_ok(w, w.notes[i]));
    }
    assert forall|i: int| 0 <= i < w.tags.len() implies (#[trigger] w.tags[i]).project_id != id by {
        assert(crate::schema::tag_ok(w, w.tags[i]));
    }
    assert forall|i: int| 0 <= i < w.drafts.len() implies (#[trigger] w.drafts[i]).project_id
        != id by {
        assert(crate::schema::draft_ok(w, w.drafts[i]));
    }
}

// ---------------------------------------------------------------------------
// Notes
// ---------------------------------------------------------------------------

/// The places of a project's notes are counted from zero.
pub open spec fn places_count_from_zero(v: StorageView, project_id: Seq<char>) -> bool {
    forall|i: int|
        0 <= i < v.notes.len() && (#[trigger] v.notes[i]).project_id == project_id
            ==> v.notes[i].position >= 0
}

/// A note that was added is found as it was added, at the place zero.
pub proof fn law_note_is_read_back(v: StorageView, note: NoteView)
    requires
        v.wf(),
        crate::storage::note_refusal(v, note) is None,
    ensures
        crate::tables::row_of(crate::storage::note_added(v, note).notes, note.id) == Some(
            NoteView { position: 0, ..note },
        ),
{
    let g = crate::storage::moved_down(note.project_id);
    let w = crate::storage::room_made(v, note.project_id);
    crate::tables::lemma_change_keys(v.notes, g);
    crate::tables::lemma_push_key(w.notes, NoteView { position: 0, ..note });
}

/// A note that was added stands at the top of its project.
pub proof fn law_added_note_comes_first(v: StorageView, note: NoteView)
    requires
        v.wf(),
        crate::storage::note_refusal(v, note) is None,
        crate::storage::can_move_down(v.notes, note.project_id),
        places_count_from_zero(v, note.project_id),
    ensures
        ({
            let list = crate::storage::notes_in_order(
                crate::storage::note_added(v, note),
                note.project_id,
            );
            list.len() > 0 && list[0] == (NoteView { position: 0, ..note })
        }),
        places_count_from_zero(crate::storage::note_added(v, note), note.project_id),
{
    let w = crate::storage::note_added(v, note);
    let added = NoteView { position: 0, ..note };
    let p = crate::storage::of_project(note.project_id);
    let le = crate::storage::by_place();
    let kept = w.notes.filter(p);
    let list = crate::storage::notes_in_order(w, note.project_id);
    crate::tables::lemma_filter(w.notes, p);
    crate::tables::lemma_sorted_by(kept, le);
    crate::tables::lemma_sorted_contains(kept, le);
    assert(w.notes[w.notes.len() - 1] == added);
    assert(kept.contains(added));
    assert(list.contains(added));
    let k = choose|k: int| 0 <= k < list.len() && list[k] == added;
    assert(list.contains(list[0]));
    assert(kept.contains(list[0]));
    let j = choose|j: int| 0 <= j < kept.len() && kept[j] == list[0];
    assert(w.notes.contains(kept[j]));
    let i = choose|i: int| 0 <= i < w.notes.len() && w.notes[i] == kept[j];
    if i < v.notes.len() {
        assert(w.notes[i] == crate::storage::moved_down(note.project_id)(v.notes[i]));
        assert(list[0].position >= 1);
        if k > 0 {
            assert(le(list[0], list[k]));
        }
    }
    assert forall|i: int|
        0 <= i < w.notes.len() && (#[trigger] w.notes[i]).project_id
            == note.project_id implies w.notes[i].position >= 0 by {
        if i < v.notes.len() {
            assert(w.notes[i] == crate::storage::moved_down(note.project_id)(v.notes[i]));
        }
    }
}

/// A note that was deleted is gone: no tag, link or draft speaks of it, no note is under it, and no
/// translation belongs to it. The texts of its translations stay.
pub proof fn law_deleted_note_is_gone(v: StorageView, id: Seq<char>)
    requires
        v.wf(),
    ensures
        ({
            let w = crate::storage::note_deleted(v, id);
            &&& w.wf()
            &&& crate::tables::row_of(w.notes, id) is None
            &&& forall|i: int| 0 <= i < w.notes.len() ==> (#[trigger] w.notes[i]).parent_id != Some(
                id,
            )
            &&& forall|i: int| 0 <= i < w.note_tags.len() ==> (#[trigger] w.note_tags[i]).note_id
                != id
            &&& forall|i: int|
                0 <= i < w.draft_notes.len() ==> (#[trigger] w.draft_notes[i]).note_id != id
            &&& forall|i: int|
                0 <= i < w.links.len() ==> (#[trigger] w.links[i]).from_note_id != id
                    && w.links[i].to_note_id != id
            &&& w.translations.len() == v.translations.len()
            &&& forall|i: int|
                0 <= i < w.translations.len() ==> (#[trigger] w.translations[i]).note_id != Some(id)
                    && w.translations[i].translated_text == v.translations[i].translated_text
        }),
{
    let p = crate::tables::but::<NoteView>(id);
    let x = StorageView { notes: v.notes.filter(p), ..v };
    let w = crate::storage::note_deleted(v, id);
    crate::tables::lemma_unique_filter(v.notes, p);
    crate::schema::lemma_settled_wf(x);
    crate::schema::lemma_settled_notes(x);
    crate::tables::lemma_filter(v.notes, p);
    let q = crate::schema::in_projects(v.projects);
    crate::tables::lemma_filter(x.notes, q);
    assert(!crate::tables::has_key(w.notes, id)) by {
        if crate::tables::has_key(w.notes, id) {
            let kept = x.notes.filter(q);
            assert(crate::tables::has_key(kept, id));
            let i = choose|i: int| 0 <= i < kept.len() && (#[trigger] kept[i]).key() == id;
            assert(x.notes.contains(kept[i]));
            let j = choose|j: int| 0 <= j < x.notes.len() && x.notes[j] == kept[i];
            assert(p(x.notes[j]));
        }
    }
    crate::tables::lemma_row_of(w.notes, id);
    assert forall|i: int| 0 <= i < w.notes.len() implies (#[trigger] w.notes[i]).parent_id != Some(
        id,
    ) by {
        assert(crate::schema::note_ok(w, w.notes[i]));
    }
    assert forall|i: int| 0 <= i < w.note_tags.len() implies (#[trigger] w.note_tags[i]).note_id
        != id by {
        assert(crate::schema::note_tag_ok(w, w.note_tags[i]));
    }
    assert forall|i: int| 0 <= i < w.draft_notes.len() implies (#[trigger]
    w.draft_notes[i]).note_id != id by {
        assert(crate::schema::draft_note_ok(w, w.draft_notes[i]));
    }
    assert forall|i: int| 0 <= i < w.links.len() implies (#[trigger] w.links[i]).from_note_id != id
        && w.links[i].to_note_id != id by {
        assert(crate::schema::link_ok(w, w.links[i]));
    }
    assert forall|i: int| 0 <= i < w.translations.len() implies (#[trigger]
    w.translations[i]).note_id != Some(id) && w.translations[i].translated_text
        == v.translations[i].translated_text by {
        assert(crate::schema::translation_ok(w, w.translations[i]));
        assert(w.translations[i] == crate::schema::with_note_in(w.notes)(v.translations[i]));
    }
}

/// Deleting what is not there changes nothing.
pub proof fn law_deleting_nothing_changes_nothing(v: StorageView, id: Seq<char>)
    requires
        v.wf(),
    ensures
        !crate::tables::has_key(v.projects, id) ==> crate::storage::project_deleted(v, id) == v,
        !crate::tables::has_key(v.notes, id) ==> crate::storage::note_deleted(v, id) == v,
        !crate::tables::has_key(v.drafts, id) ==> crate::storage::draft_deleted(v, id) == v,
        !crate::tables::has_key(v.sessions, id) ==> crate::storage::session_deleted(v, id) == v,
{
    crate::schema::lemma_settled_is_same(v);
    if !crate::tables::has_key(v.projects, id) {
        crate::tables::lemma_filter_all(v.projects, crate::tables::but(id));
    }
    if !crate::tables::has_key(v.notes, id) {
        crate::tables::lemma_filter_all(v.notes, crate::tables::but(id));
    }
    if !crate::tables::has_key(v.drafts, id) {
        crate::tables::lemma_filter_all(v.drafts, crate::tables::but(id));
    }
    if !crate::tables::has_key(v.sessions, id) {
        crate::tables::lemma_filter_all(v.sessions, crate::tables::but(id));
    }
}

// ---------------------------------------------------------------------------
// The order that the user chose
// ---------------------------------------------------------------------------

proof fn lemma_reordered_keys(
    notes: Seq<NoteView>,
    project_id: Seq<char>,
    ids: Seq<Seq<char>>,
)
    ensures
        crate::storage::reordered(notes, project_id, ids).len() == notes.len(),
        forall|i: int|
            #![trigger crate::storage::reordered(notes, project_id, ids)[i]]
            0 <= i < notes.len() ==> crate::storage::reordered(notes, project_id, ids)[i]
                == (NoteView {
                position: crate::storage::reordered(notes, project_id, ids)[i].position,
                ..notes[i]
            }),
        forall|i: int, k: int|
            #![trigger crate::storage::reordered(notes, project_id, ids)[i], ids[k]]
            0 <= i < notes.len() && 0 <= k < ids.len() && ids.no_duplicates() && notes[i].id
                == ids[k] && notes[i].project_id == project_id && ids.len() <= i64::MAX
                ==> crate::storage::reordered(notes, project_id, ids)[i].position == k,
        forall|i: int|
            #![trigger crate::storage::reordered(notes, project_id, ids)[i]]
            0 <= i < notes.len() && (notes[i].project_id != project_id || !ids.contains(
                notes[i].id,
            )) ==> crate::storage::reordered(notes, project_id, ids)[i] == notes[i],
    decreases ids.len(),
{
    if ids.len() > 0 {
        let head = ids.drop_last();
        lemma_reordered_keys(notes, project_id, head);
        let before = crate::storage::reordered(notes, project_id, head);
        let after = crate::storage::reordered(notes, project_id, ids);
        let g = crate::storage::placed(project_id, ids.last(), (ids.len() - 1) as i64);
        assert forall|i: int| 0 <= i < notes.len() implies #[trigger] after[i] == (NoteView {
            position: after[i].position,
            ..notes[i]
        }) by {
            assert(after[i] == g(before[i]));
            assert(before[i] == (NoteView { position: before[i].position, ..notes[i] }));
        }
        assert forall|i: int|
            0 <= i < notes.len() && (notes[i].project_id != project_id || !ids.contains(
                notes[i].id,
            )) implies #[trigger] after[i] == notes[i] by {
            assert(after[i] == g(before[i]));
            if notes[i].project_id == project_id {
                assert(ids[ids.len() - 1] == ids.last());
                if head.contains(notes[i].id) {
                    let k = choose|k: int| 0 <= k < head.len() && head[k] == notes[i].id;
                    assert(ids[k] == notes[i].id);
                }
            }
        }
        assert forall|i: int, k: int|
            #![trigger after[i], ids[k]]
            0 <= i < notes.len() && 0 <= k < ids.len() && ids.no_duplicates() && notes[i].id
                == ids[k] && notes[i].project_id == project_id && ids.len()
                <= i64::MAX implies after[i].position == k by {
            assert(after[i] == g(before[i]));
            assert(before[i] == (NoteView { position: before[i].position, ..notes[i] }));
            if k == ids.len() - 1 {
            } else {
                assert(ids[k] != ids[ids.len() - 1]);
                assert(head[k] == ids[k]);
                assert(head.no_duplicates()) by {
                    assert forall|a: int, b: int|
                        0 <= a < head.len() && 0 <= b < head.len() && a != b implies head[a]
                        != head[b] by {
                        assert(ids[a] != ids[b]);
                    }
                }
                assert(before[i].position == k);
            }
        }
    }
}

/// Numbers that go up from one to the next and stay below their count are the numbers from zero
/// on.
proof fn lemma_strictly_up(s: Seq<int>)
    requires
        forall|i: int| 0 <= i < s.len() ==> 0 <= #[trigger] s[i] < s.len(),
        forall|i: int, j: int| 0 <= i < j < s.len() ==> #[trigger] s[i] < #[trigger] s[j],
    ensures
        forall|i: int| 0 <= i < s.len() ==> #[trigger] s[i] == i,
{
    assert forall|i: int| 0 <= i < s.len() implies #[trigger] s[i] == i by {
        lemma_at_least(s, i);
        lemma_at_most(s, i);
    }
}

proof fn lemma_at_least(s: Seq<int>, i: int)
    requires
        forall|i: int| 0 <= i < s.len() ==> 0 <= #[trigger] s[i] < s.len(),
        forall|i: int, j: int| 0 <= i < j < s.len() ==> #[trigger] s[i] < #[trigger] s[j],
        0 <= i < s.len(),
    ensures
        s[i] >= i,
    decreases i,
{
    if i > 0 {
        lemma_at_least(s, i - 1);
        assert(s[i - 1] < s[i]);
    }
}

proof fn lemma_at_most(s: Seq<int>, i: int)
    requires
        forall|i: int| 0 <= i < s.len() ==> 0 <= #[trigger] s[i] < s.len(),
        forall|i: int, j: int| 0 <= i < j < s.len() ==> #[trigger] s[i] < #[trigger] s[j],
        0 <= i < s.len(),
    ensures
        s[i] <= i,
    decreases s.len() - i,
{
    if i < s.len() - 1 {
        lemma_at_most(s, i + 1);
        assert(s[i] < s[i + 1]);
    }
}

/// Putting notes in order changes nothing but their places: the note that is named at index `k` gets
/// the place `k`, and no note of another project, and none that is not named, is touched.
pub proof fn law_reordering_changes_places_alone(
    v: StorageView,
    project_id: Seq<char>,
    ids: Seq<Seq<char>>,
)
    requires
        ids.no_duplicates(),
        ids.len() <= i64::MAX,
    ensures
        ({
            let after = crate::storage::reordered(v.notes, project_id, ids);
            &&& after.len() == v.notes.len()
            &&& forall|i: int|
                0 <= i < v.notes.len() ==> #[trigger] after[i] == (NoteView {
                    position: after[i].position,
                    ..v.notes[i]
                })
            &&& forall|i: int|
                0 <= i < v.notes.len() && (v.notes[i].project_id != project_id || !ids.contains(
                    v.notes[i].id,
                )) ==> #[trigger] after[i] == v.notes[i]
            &&& forall|i: int, k: int|
                0 <= i < v.notes.len() && 0 <= k < ids.len() && v.notes[i].project_id == project_id
                    && v.notes[i].id == ids[k] ==> (#[trigger] after[i]).position == k
                    && #[trigger] ids[k] == after[i].id
        }),
{
    lemma_reordered_keys(v.notes, project_id, ids);
}

/// The notes of a project stand in the order that the user chose: where `ids` names every note of
/// the project once, the notes are listed in that order, and each has its place in it. Nothing else
/// of a note changes, and no note of another project does.
pub proof fn law_reordered_notes_stand_in_order(
    v: StorageView,
    project_id: Seq<char>,
    ids: Seq<Seq<char>>,
)
    requires
        v.wf(),
        ids.no_duplicates(),
        ids.len() <= i64::MAX,
        forall|k: int|
            0 <= k < ids.len() ==> crate::tables::has_key(
                v.notes.filter(crate::storage::of_project(project_id)),
                #[trigger] ids[k],
            ),
        forall|i: int|
            0 <= i < v.notes.len() && (#[trigger] v.notes[i]).project_id == project_id
                ==> ids.contains(v.notes[i].id),
    ensures
        ({
            let w = StorageView {
                notes: crate::storage::reordered(v.notes, project_id, ids),
                ..v
            };
            let list = crate::storage::notes_in_order(w, project_id);
            &&& list.len() == ids.len()
            &&& forall|k: int|
                0 <= k < ids.len() ==> (#[trigger] list[k]).id == ids[k] && list[k].position == k
            &&& w.notes.len() == v.notes.len()
            &&& forall|i: int|
                0 <= i < v.notes.len() ==> #[trigger] w.notes[i] == (NoteView {
                    position: w.notes[i].position,
                    ..v.notes[i]
                })
            &&& forall|i: int|
                0 <= i < v.notes.len() && v.notes[i].project_id != project_id
                    ==> #[trigger] w.notes[i] == v.notes[i]
        }),
{
    let after = crate::storage::reordered(v.notes, project_id, ids);
    let w = StorageView { notes: after, ..v };
    let p = crate::storage::of_project(project_id);
    let le = crate::storage::by_place();
    let kept = after.filter(p);
    let list = crate::tables::sorted_by(kept, le);
    lemma_reordered_keys(v.notes, project_id, ids);
    assert(crate::tables::unique(after)) by {
        assert forall|i: int, j: int| 0 <= i < j < after.len() implies (#[trigger] after[i]).key()
            != (#[trigger] after[j]).key() by {
            assert(v.notes[i].key() != v.notes[j].key());
        }
    }
    crate::tables::lemma_unique_filter(after, p);
    crate::tables::lemma_filter(after, p);
    crate::tables::lemma_sorted_by(kept, le);
    crate::tables::lemma_sorted_contains(kept, le);
    lemma_sorted_keys(kept, le);
    // each listed note is one of `ids`, and stands at its place
    assert forall|k: int| 0 <= k < list.len() implies ids.contains((#[trigger] list[k]).id)
        && 0 <= list[k].position < ids.len() && ids[list[k].position as int] == list[k].id by {
        assert(list.contains(list[k]));
        assert(kept.contains(list[k]));
        let j = choose|j: int| 0 <= j < kept.len() && kept[j] == list[k];
        assert(p(kept[j]) && after.contains(kept[j]));
        let i = choose|i: int| 0 <= i < after.len() && after[i] == kept[j];
        assert(after[i] == (NoteView { position: after[i].position, ..v.notes[i] }));
        assert(v.notes[i].project_id == project_id);
        assert(ids.contains(v.notes[i].id));
        let n = choose|n: int| 0 <= n < ids.len() && ids[n] == v.notes[i].id;
        assert(after[i].position == n);
    }
    // each of `ids` is listed
    assert forall|n: int| 0 <= n < ids.len() implies crate::tables::has_key(
        list,
        #[trigger] ids[n],
    ) by {
        let of = v.notes.filter(p);
        crate::tables::lemma_filter(v.notes, p);
        assert(crate::tables::has_key(of, ids[n]));
        let a = choose|a: int| 0 <= a < of.len() && (#[trigger] of[a]).key() == ids[n];
        assert(p(of[a]) && v.notes.contains(of[a]));
        let i = choose|i: int| 0 <= i < v.notes.len() && v.notes[i] == of[a];
        assert(after[i] == (NoteView { position: after[i].position, ..v.notes[i] }));
        assert(kept.contains(after[i]));
        let j = choose|j: int| 0 <= j < kept.len() && kept[j] == after[i];
        assert(kept[j].key() == ids[n]);
        assert(crate::tables::has_key(kept, ids[n]));
    }
    lemma_same_count(list, ids);
    let places = Seq::new(list.len(), |k: int| list[k].position as int);
    assert forall|i: int| 0 <= i < places.len() implies 0 <= #[trigger] places[i]
        < places.len() by {
        assert(ids.contains(list[i].id));
    }
    assert forall|i: int, j: int| 0 <= i < j < places.len() implies #[trigger] places[i]
        < #[trigger] places[j] by {
        assert(le(list[i], list[j]));
        assert(ids.contains(list[i].id) && ids.contains(list[j].id));
        assert(list[i].key() != list[j].key());
        if places[i] == places[j] {
            assert(ids[list[i].position as int] == list[i].id);
            assert(ids[list[j].position as int] == list[j].id);
        }
    }
    lemma_strictly_up(places);
    assert forall|k: int| 0 <= k < ids.len() implies (#[trigger] list[k]).id == ids[k]
        && list[k].position == k by {
        assert(places[k] == k);
        assert(ids.contains(list[k].id));
    }
}

/// A list of notes that names each of `ids` and nothing else, each once, is as long as `ids`.
proof fn lemma_same_count(list: Seq<NoteView>, ids: Seq<Seq<char>>)
    requires
        crate::tables::unique(list),
        ids.no_duplicates(),
        forall|k: int| 0 <= k < list.len() ==> ids.contains((#[trigger] list[k]).id),
        forall|n: int| 0 <= n < ids.len() ==> crate::tables::has_key(list, #[trigger] ids[n]),
    ensures
        list.len() == ids.len(),
{
    let names = Seq::new(list.len(), |k: int| list[k].id);
    assert(names.no_duplicates()) by {
        assert forall|a: int, b: int|
            0 <= a < names.len() && 0 <= b < names.len() && a != b implies names[a]
            != names[b] by {
            if a < b {
                assert(list[a].key() != list[b].key());
            } else {
                assert(list[b].key() != list[a].key());
            }
        }
    }
    names.unique_seq_to_set();
    ids.unique_seq_to_set();
    assert(names.to_set() =~= ids.to_set()) by {
        assert forall|x: Seq<char>| names.to_set().contains(x) <==> ids.to_set().contains(x) by {
            if names.contains(x) {
                let k = choose|k: int| 0 <= k < names.len() && names[k] == x;
                assert(ids.contains(list[k].id));
            }
            if ids.contains(x) {
                let n = choose|n: int| 0 <= n < ids.len() && ids[n] == x;
                assert(crate::tables::has_key(list, ids[n]));
                let k = choose|k: int| 0 <= k < list.len() && (#[trigger] list[k]).key() == x;
                assert(names[k] == x);
            }
        }
    }
}

// ---------------------------------------------------------------------------
// Parents
// ---------------------------------------------------------------------------

/// Whether the parents above the note `id` come to an end within `n` steps.
pub open spec fn chain_ends(notes: Seq<NoteView>, id: Seq<char>, n: nat) -> bool
    decreases n,
{
    match crate::storage::parent_of(notes, id) {
        None => true,
        Some(p) => n > 0 && chain_ends(notes, p, (n - 1) as nat),
    }
}

/// Whether the parents above the note `id` come to an end.
pub open spec fn ends_somewhere(notes: Seq<NoteView>, id: Seq<char>) -> bool {
    exists|n: nat| #[trigger] chain_ends(notes, id, n)
}

/// Whether no note is above itself: the parents above every note come to an end.
pub open spec fn no_cycles(notes: Seq<NoteView>) -> bool {
    forall|id: Seq<char>| #[trigger] ends_somewhere(notes, id)
}

proof fn lemma_adopted_parent(
    notes: Seq<NoteView>,
    note_id: Seq<char>,
    parent: Option<Seq<char>>,
    now: i64,
    id: Seq<char>,
)
    ensures
        crate::storage::parent_of(
            notes.map_values(crate::storage::adopted(note_id, parent, now)),
            id,
        ) == if id == note_id && crate::tables::has_key(notes, id) {
            parent
        } else {
            crate::storage::parent_of(notes, id)
        },
{
    let g = crate::storage::adopted(note_id, parent, now);
    crate::tables::lemma_change_keys(notes, g);
    crate::tables::lemma_row_of(notes, id);
    assert(crate::tables::row_of(notes.map_values(g), id) == match crate::tables::row_of(
        notes,
        id,
    ) {
        Some(m) => Some(g(m)),
        None => None,
    });
}

proof fn lemma_walked_chain_ends(
    notes: Seq<NoteView>,
    note_id: Seq<char>,
    parent: Option<Seq<char>>,
    now: i64,
    cur: Seq<char>,
    depth: nat,
)
    requires
        depth <= 64,
        crate::storage::chain_refusal(notes, Some(cur), note_id, depth) is None,
    ensures
        chain_ends(
            notes.map_values(crate::storage::adopted(note_id, parent, now)),
            cur,
            (64 - depth) as nat,
        ),
    decreases 64 - depth,
{
    lemma_adopted_parent(notes, note_id, parent, now, cur);
    match crate::storage::parent_of(notes, cur) {
        None => {},
        Some(q) => {
            lemma_walked_chain_ends(notes, note_id, parent, now, q, depth + 1);
        },
    }
}

proof fn lemma_chain_after(
    notes: Seq<NoteView>,
    note_id: Seq<char>,
    parent: Option<Seq<char>>,
    now: i64,
    id: Seq<char>,
    n: nat,
)
    requires
        parent matches Some(p) ==> crate::storage::chain_refusal(notes, parent, note_id, 0) is None,
        chain_ends(notes, id, n),
    ensures
        exists|m: nat| #[trigger]
            chain_ends(
                notes.map_values(crate::storage::adopted(note_id, parent, now)),
                id,
                m,
            ),
    decreases n,
{
    let after = notes.map_values(crate::storage::adopted(note_id, parent, now));
    lemma_adopted_parent(notes, note_id, parent, now, id);
    match crate::storage::parent_of(after, id) {
        None => {
            assert(chain_ends(after, id, 0));
        },
        Some(q) => {
            if id == note_id && crate::tables::has_key(notes, id) {
                lemma_walked_chain_ends(notes, note_id, parent, now, q, 0);
                assert(chain_ends(after, id, 65));
            } else {
                lemma_chain_after(notes, note_id, parent, now, q, (n - 1) as nat);
                let m = choose|m: nat| #[trigger] chain_ends(after, q, m);
                assert(chain_ends(after, id, (m + 1) as nat));
            }
        },
    }
}

/// Putting a note under another never puts a note above itself, at whatever depth.
pub proof fn law_parents_never_go_in_circles(
    v: StorageView,
    note_id: Seq<char>,
    parent: Option<Seq<char>>,
    now: i64,
)
    requires
        v.wf(),
        no_cycles(v.notes),
        crate::storage::parent_refusal(v, note_id, parent) is None,
    ensures
        no_cycles(v.notes.map_values(crate::storage::adopted(note_id, parent, now))),
{
    let after = v.notes.map_values(crate::storage::adopted(note_id, parent, now));
    assert forall|id: Seq<char>| #[trigger] ends_somewhere(after, id) by {
        assert(ends_somewhere(v.notes, id));
        let n = choose|n: nat| #[trigger] chain_ends(v.notes, id, n);
        lemma_chain_after(v.notes, note_id, parent, now, id, n);
    }
}

/// A note that was put under another is under it, and every other note is where it was.
pub proof fn law_parent_is_read_back(
    v: StorageView,
    note_id: Seq<char>,
    parent: Option<Seq<char>>,
    now: i64,
    id: Seq<char>,
)
    requires
        crate::tables::has_key(v.notes, note_id),
    ensures
        crate::storage::parent_of(
            v.notes.map_values(crate::storage::adopted(note_id, parent, now)),
            note_id,
        ) == parent,
        id != note_id ==> crate::storage::parent_of(
            v.notes.map_values(crate::storage::adopted(note_id, parent, now)),
            id,
        ) == crate::storage::parent_of(v.notes, id),
{
    lemma_adopted_parent(v.notes, note_id, parent, now, note_id);
    lemma_adopted_parent(v.notes, note_id, parent, now, id);
}

// ---------------------------------------------------------------------------
// Links
// ---------------------------------------------------------------------------

/// Drawing a link a second time, under whatever identifier and label, gives the first one back and
/// changes nothing.
pub proof fn law_link_is_drawn_once(v: StorageView, a: NoteLinkView, b: NoteLinkView)
    requires
        v.wf(),
        crate::storage::link_drawn(v, a).1 is Ok,
        b.from_note_id == a.from_note_id,
        b.to_note_id == a.to_note_id,
    ensures
        crate::storage::link_drawn(crate::storage::link_drawn(v, a).0, b)
            == crate::storage::link_drawn(v, a),
{
    let w = crate::storage::link_drawn(v, a).0;
    crate::tables::lemma_pair_row(v.links, a.from_note_id, a.to_note_id);
    if crate::tables::pair_row(v.links, a.from_note_id, a.to_note_id) is None {
        assert(w.links[v.links.len() as int] == a);
        crate::tables::lemma_pair_row(w.links, a.from_note_id, a.to_note_id);
        assert(crate::tables::has_pair(w.links, a.from_note_id, a.to_note_id)) by {
            assert(w.links[v.links.len() as int].pair() == (a.from_note_id, a.to_note_id));
        }
        let m = crate::tables::pair_row(w.links, a.from_note_id, a.to_note_id)->0;
        let i = choose|i: int| 0 <= i < w.links.len() && w.links[i] == m;
        if i < v.links.len() {
            assert(v.links[i].pair() == (a.from_note_id, a.to_note_id));
            assert(crate::tables::has_pair(v.links, a.from_note_id, a.to_note_id));
        }
    }
}

/// No link leads from a note to itself, whatever is done with links.
pub open spec fn no_loops(v: StorageView) -> bool {
    forall|i: int|
        0 <= i < v.links.len() ==> (#[trigger] v.links[i]).from_note_id != v.links[i].to_note_id
}

/// A link never leads from a note to itself.
pub proof fn law_links_join_two_notes(v: StorageView, link: NoteLinkView)
    requires
        no_loops(v),
    ensures
        no_loops(crate::storage::link_drawn(v, link).0),
{
}

// ---------------------------------------------------------------------------
// Tags
// ---------------------------------------------------------------------------

/// The texts of `names`, trimmed; blank ones and repetitions left out.
pub open spec fn clean_names(names: Seq<Seq<char>>) -> Seq<Seq<char>>
    decreases names.len(),
{
    if names.len() == 0 {
        Seq::empty()
    } else {
        let head = clean_names(names.drop_last());
        let name = crate::text::trimmed(names.last());
        if name.len() == 0 || head.contains(name) {
            head
        } else {
            head.push(name)
        }
    }
}

/// The rows that say what tags a note has.
pub open spec fn tag_rows(v: StorageView, note_id: Seq<char>) -> Seq<NoteTagView> {
    v.note_tags.filter(crate::storage::of_note(note_id))
}

/// Whether each tag of the note is there and belongs to the project.
pub open spec fn tags_belong(v: StorageView, note_id: Seq<char>, project_id: Seq<char>) -> bool {
    forall|i: int|
        0 <= i < tag_rows(v, note_id).len() ==> (crate::tables::row_of(
            v.tags,
            (#[trigger] tag_rows(v, note_id)[i]).tag_id,
        ) matches Some(t) && t.project_id == project_id)
}

/// What holds while tags are given to a note that had none: it has the tags named so far.
pub open spec fn tags_so_far(
    v: StorageView,
    note_id: Seq<char>,
    project_id: Seq<char>,
    names: Seq<Seq<char>>,
) -> bool {
    &&& crate::tables::unique(v.tags)
    &&& crate::tables::unique_pairs(v.tags)
    &&& tags_belong(v, note_id, project_id)
    &&& crate::storage::names_of(v.tags, tag_rows(v, note_id)) == clean_names(names)
}

proof fn lemma_filter_push<A>(s: Seq<A>, x: A, p: spec_fn(A) -> bool)
    ensures
        s.push(x).filter(p) == if p(x) {
            s.filter(p).push(x)
        } else {
            s.filter(p)
        },
{
    reveal(Seq::filter);
    assert(s.push(x).drop_last() =~= s);
}

proof fn lemma_tag_step(
    v: StorageView,
    note_id: Seq<char>,
    project_id: Seq<char>,
    names: Seq<Seq<char>>,
    name: Seq<char>,
    id: Seq<char>,
)
    requires
        tags_so_far(v, note_id, project_id, names),
        name == crate::text::trimmed(name),
        name.len() > 0,
        crate::storage::tag_for(v, project_id, name, id) is Some,
    ensures
        ({
            let (x, tag_id) = crate::storage::tag_for(v, project_id, name, id)->0;
            let w = crate::storage::tag_given(x, note_id, tag_id);
            let have = clean_names(names);
            &&& crate::tables::unique(w.tags)
            &&& crate::tables::unique_pairs(w.tags)
            &&& tags_belong(w, note_id, project_id)
            &&& crate::storage::names_of(w.tags, tag_rows(w, note_id)) == if have.contains(name) {
                have
            } else {
                have.push(name)
            }
        }),
{
    let (x, tag_id) = crate::storage::tag_for(v, project_id, name, id)->0;
    let w = crate::storage::tag_given(x, note_id, tag_id);
    let have = clean_names(names);
    let rows = tag_rows(v, note_id);
    let fresh = TagView { id, project_id, name };
    crate::tables::lemma_pair_row(v.tags, project_id, name);
    if crate::tables::pair_row(v.tags, project_id, name) is None {
        crate::tables::lemma_push_key(v.tags, fresh);
        crate::tables::lemma_push_pair(v.tags, fresh);
    } else {
        let t = crate::tables::pair_row(v.tags, project_id, name)->0;
        let n = choose|n: int| 0 <= n < v.tags.len() && v.tags[n] == t;
        crate::tables::lemma_row_is(v.tags, n);
    }
    // the tag is the one with the name in the project
    assert(crate::tables::row_of(x.tags, tag_id) matches Some(t) && t.project_id == project_id
        && t.name == name);
    // what the note had it still has under the same names
    assert forall|i: int| 0 <= i < rows.len() implies crate::tables::row_of(
        x.tags,
        (#[trigger] rows[i]).tag_id,
    ) == crate::tables::row_of(v.tags, rows[i].tag_id) && crate::tables::row_of(
        x.tags,
        rows[i].tag_id,
    ) is Some by {
        assert(crate::tables::row_of(v.tags, rows[i].tag_id) is Some);
        crate::tables::lemma_row_of(v.tags, rows[i].tag_id);
    }
    assert(crate::storage::names_of(x.tags, rows) =~= have) by {
        assert forall|i: int| 0 <= i < rows.len() implies crate::storage::names_of(
            x.tags,
            rows,
        )[i] == crate::storage::names_of(v.tags, rows)[i] by {
            assert(crate::tables::row_of(x.tags, rows[i].tag_id) == crate::tables::row_of(
                v.tags,
                rows[i].tag_id,
            ));
        }
        assert(crate::storage::names_of(x.tags, rows) =~= crate::storage::names_of(v.tags, rows));
    }
    let p = crate::storage::of_note(note_id);
    crate::tables::lemma_filter(v.note_tags, p);
    if crate::tables::has_pair(x.note_tags, note_id, tag_id) {
        let k = choose|k: int|
            0 <= k < x.note_tags.len() && (#[trigger] x.note_tags[k]).pair() == (note_id, tag_id);
        assert(p(v.note_tags[k]));
        assert(rows.contains(v.note_tags[k]));
        let i = choose|i: int| 0 <= i < rows.len() && rows[i] == v.note_tags[k];
        assert(crate::storage::names_of(x.tags, rows)[i] == name);
        assert(have.contains(name));
    } else {
        let added = NoteTagView { note_id, tag_id };
        lemma_filter_push(v.note_tags, added, p);
        assert(tag_rows(w, note_id) =~= rows.push(added));
        if have.contains(name) {
            let i = choose|i: int| 0 <= i < have.len() && have[i] == name;
            let t = crate::tables::row_of(x.tags, rows[i].tag_id)->0;
            assert(crate::storage::names_of(x.tags, rows)[i] == name);
            assert(tags_belong(v, note_id, project_id));
            assert(t.pair() == (project_id, name));
            crate::tables::lemma_row_of(x.tags, rows[i].tag_id);
            crate::tables::lemma_row_of(x.tags, tag_id);
            let u = crate::tables::row_of(x.tags, tag_id)->0;
            let a = choose|a: int| 0 <= a < x.tags.len() && x.tags[a] == t;
            let b = choose|b: int| 0 <= b < x.tags.len() && x.tags[b] == u;
            if a < b {
                assert(x.tags[a].pair() != x.tags[b].pair());
            } else if b < a {
                assert(x.tags[b].pair() != x.tags[a].pair());
            }
            assert(rows[i].tag_id == tag_id);
            assert(p(rows[i]) && v.note_tags.contains(rows[i]));
            let k = choose|k: int| 0 <= k < v.note_tags.len() && v.note_tags[k] == rows[i];
            assert(x.note_tags[k].pair() == (note_id, tag_id));
            assert(false);
        }
        assert(crate::storage::names_of(w.tags, rows.push(added)) =~= have.push(name));
    }
}

proof fn lemma_tags_given(
    bare: StorageView,
    note_id: Seq<char>,
    project_id: Seq<char>,
    names: Seq<Seq<char>>,
    ids: Seq<Seq<char>>,
)
    requires
        crate::tables::unique(bare.tags),
        crate::tables::unique_pairs(bare.tags),
        tag_rows(bare, note_id).len() == 0,
        crate::storage::tags_given(bare, project_id, note_id, names, ids).1,
    ensures
        tags_so_far(
            crate::storage::tags_given(bare, project_id, note_id, names, ids).0,
            note_id,
            project_id,
            names,
        ),
    decreases names.len(),
{
    if names.len() == 0 {
        assert(crate::storage::names_of(bare.tags, tag_rows(bare, note_id)) =~= clean_names(
            names,
        ));
    } else {
        let head = names.drop_last();
        lemma_tags_given(bare, note_id, project_id, head, ids);
        let w = crate::storage::tags_given(bare, project_id, note_id, head, ids).0;
        let name = crate::text::trimmed(names.last());
        if name.len() > 0 {
            crate::text::lemma_trimmed_twice(names.last());
            lemma_tag_step(w, note_id, project_id, head, name, ids[names.len() - 1]);
        }
    }
}

/// The tags that a note was given are read back: trimmed, each once, in order.
pub proof fn law_tags_are_read_back(
    v: StorageView,
    note: NoteView,
    names: Seq<Seq<char>>,
    ids: Seq<Seq<char>>,
)
    requires
        v.wf(),
        crate::storage::tags_set(v, note, names, ids).1,
    ensures
        crate::storage::tag_names(crate::storage::tags_set(v, note, names, ids).0, note.id)
            == crate::tables::sorted_by(clean_names(names), crate::storage::by_text()),
{
    let other = crate::storage::of_other_notes(note.id);
    let mine = crate::storage::of_note(note.id);
    let bare = StorageView { note_tags: v.note_tags.filter(other), ..v };
    crate::tables::lemma_filter(v.note_tags, other);
    crate::tables::lemma_filter(bare.note_tags, mine);
    assert(tag_rows(bare, note.id).len() == 0) by {
        let rows = tag_rows(bare, note.id);
        if rows.len() > 0 {
            assert(mine(rows[0]) && bare.note_tags.contains(rows[0]));
            let i = choose|i: int|
                0 <= i < bare.note_tags.len() && bare.note_tags[i] == rows[0];
            assert(other(bare.note_tags[i]));
        }
    }
    lemma_tags_given(bare, note.id, note.project_id, names, ids);
    let w = crate::storage::tags_given(bare, note.project_id, note.id, names, ids).0;
    let rows = tag_rows(w, note.id);
    let p = crate::storage::used_in(w.note_tags);
    let kept = w.tags.filter(p);
    crate::tables::lemma_filter(w.note_tags, mine);
    assert(crate::storage::names_of(kept, rows) =~= crate::storage::names_of(w.tags, rows)) by {
        assert forall|i: int| 0 <= i < rows.len() implies crate::storage::tag_name(
            kept,
            (#[trigger] rows[i]).tag_id,
        ) == crate::storage::tag_name(w.tags, rows[i].tag_id) by {
            assert(crate::tables::row_of(w.tags, rows[i].tag_id) is Some);
            crate::tables::lemma_row_of(w.tags, rows[i].tag_id);
            crate::tables::lemma_key_filter(w.tags, p, rows[i].tag_id);
            assert(w.note_tags.contains(rows[i]));
            let k = choose|k: int| 0 <= k < w.note_tags.len() && w.note_tags[k] == rows[i];
            assert(w.note_tags[k].tag_id == rows[i].tag_id);
            assert(crate::storage::is_used(w.note_tags, rows[i].tag_id));
        }
    }
}

/// What is kept of what was kept already.
proof fn lemma_filter_twice<A>(s: Seq<A>, p: spec_fn(A) -> bool, q: spec_fn(A) -> bool)
    requires
        forall|x: A| #[trigger] q(x) ==> p(x),
    ensures
        s.filter(p).filter(q) == s.filter(q),
    decreases s.len(),
{
    if s.len() > 0 {
        let head = s.drop_last();
        lemma_filter_twice(head, p, q);
        assert(head.push(s.last()) =~= s);
        lemma_filter_push(head, s.last(), p);
        lemma_filter_push(head, s.last(), q);
        lemma_filter_push(head.filter(p), s.last(), q);
    } else {
        reveal(Seq::filter);
    }
}

/// Giving tags to a note leaves those of another note as they are.
proof fn lemma_others_keep_tags(
    v: StorageView,
    project_id: Seq<char>,
    note_id: Seq<char>,
    names: Seq<Seq<char>>,
    ids: Seq<Seq<char>>,
    other: Seq<char>,
)
    requires
        crate::tables::unique(v.tags),
    ensures
        ({
            let w = crate::storage::tags_given(v, project_id, note_id, names, ids).0;
            &&& w.notes == v.notes
            &&& other != note_id ==> tag_rows(w, other) == tag_rows(v, other)
            &&& crate::tables::unique(w.tags)
            &&& forall|k: Seq<char>|
                crate::tables::has_key(v.tags, k) ==> #[trigger] crate::tables::row_of(w.tags, k)
                    == crate::tables::row_of(v.tags, k)
        }),
    decreases names.len(),
{
    if names.len() > 0 {
        let head = names.drop_last();
        lemma_others_keep_tags(v, project_id, note_id, head, ids, other);
        let (w, ok) = crate::storage::tags_given(v, project_id, note_id, head, ids);
        let name = crate::text::trimmed(names.last());
        let id = ids[names.len() - 1];
        if ok && name.len() > 0 {
            if let Some((x, tag_id)) = crate::storage::tag_for(w, project_id, name, id) {
                if crate::tables::pair_row(w.tags, project_id, name) is None {
                    let tag = TagView { id, project_id, name };
                    crate::tables::lemma_push_key(w.tags, tag);
                    assert forall|k: Seq<char>|
                        crate::tables::has_key(v.tags, k) implies #[trigger] crate::tables::row_of(
                        x.tags,
                        k,
                    ) == crate::tables::row_of(v.tags, k) by {
                        crate::tables::lemma_row_of(v.tags, k);
                        crate::tables::lemma_row_of(w.tags, k);
                        assert(crate::tables::row_of(w.tags, k) == crate::tables::row_of(v.tags, k));
                        assert(crate::tables::has_key(w.tags, k));
                    }
                }
                lemma_filter_push(
                    x.note_tags,
                    NoteTagView { note_id, tag_id },
                    crate::storage::of_note(other),
                );
            }
        }
    }
}

/// Setting the tags of a note changes nothing of any other note: each is listed where it was, as it
/// was and with the tags that it had. The note itself is listed where it was, as it was but for its
/// tags.
pub proof fn law_other_notes_keep_their_tags(
    v: StorageView,
    note: NoteView,
    names: Seq<Seq<char>>,
    ids: Seq<Seq<char>>,
    project_id: Seq<char>,
)
    requires
        v.wf(),
    ensures
        ({
            let before = crate::storage::listed_notes(v, project_id);
            let after = crate::storage::listed_notes(
                crate::storage::tags_set(v, note, names, ids).0,
                project_id,
            );
            &&& after.len() == before.len()
            &&& forall|k: int|
                0 <= k < before.len() ==> (#[trigger] after[k]).note == before[k].note && (
                before[k].note.id != note.id ==> after[k] == before[k])
        }),
{
    let w = crate::storage::tags_set(v, note, names, ids).0;
    let before = crate::storage::listed_notes(v, project_id);
    let after = crate::storage::listed_notes(w, project_id);
    lemma_tags_of_other(v, note, names, ids, note.id);
    assert forall|k: int| 0 <= k < before.len() implies (#[trigger] after[k]).note
        == before[k].note && (before[k].note.id != note.id ==> after[k] == before[k]) by {
        if before[k].note.id != note.id {
            lemma_tags_of_other(v, note, names, ids, before[k].note.id);
        }
    }
}

proof fn lemma_tags_of_other(
    v: StorageView,
    note: NoteView,
    names: Seq<Seq<char>>,
    ids: Seq<Seq<char>>,
    other: Seq<char>,
)
    requires
        v.wf(),
    ensures
        crate::storage::tags_set(v, note, names, ids).0.notes == v.notes,
        other != note.id ==> crate::storage::tag_names(
            crate::storage::tags_set(v, note, names, ids).0,
            other,
        ) == crate::storage::tag_names(v, other),
{
    let keep = crate::storage::of_other_notes(note.id);
    let of = crate::storage::of_note(other);
    let bare = StorageView { note_tags: v.note_tags.filter(keep), ..v };
    lemma_others_keep_tags(bare, note.project_id, note.id, names, ids, other);
    if other != note.id {
        lemma_filter_twice(v.note_tags, keep, of);
        let (w, ok) = crate::storage::tags_given(bare, note.project_id, note.id, names, ids);
        let end = crate::storage::tags_set(v, note, names, ids).0;
        let rows = tag_rows(v, other);
        let p = crate::storage::used_in(w.note_tags);
        crate::tables::lemma_filter(v.note_tags, of);
        crate::tables::lemma_filter(w.note_tags, of);
        assert(tag_rows(end, other) == rows);
        assert(crate::storage::names_of(end.tags, rows) =~= crate::storage::names_of(v.tags, rows)) by {
            assert forall|i: int| 0 <= i < rows.len() implies crate::storage::tag_name(
                end.tags,
                (#[trigger] rows[i]).tag_id,
            ) == crate::storage::tag_name(v.tags, rows[i].tag_id) by {
                let id = rows[i].tag_id;
                assert(v.note_tags.contains(rows[i]));
                let k = choose|k: int| 0 <= k < v.note_tags.len() && v.note_tags[k] == rows[i];
                assert(crate::schema::note_tag_ok(v, v.note_tags[k]));
                assert(crate::tables::row_of(w.tags, id) == crate::tables::row_of(v.tags, id));
                if ok {
                    crate::tables::lemma_row_of(v.tags, id);
                    crate::tables::lemma_key_filter(w.tags, p, id);
                    assert(w.note_tags.filter(of)[i] == rows[i]);
                    assert(w.note_tags.contains(rows[i]));
                    let j = choose|j: int| 0 <= j < w.note_tags.len() && w.note_tags[j] == rows[i];
                    assert(w.note_tags[j].tag_id == id);
                    assert(crate::storage::is_used(w.note_tags, id));
                }
            }
        }
    }
}

/// No tag is left that no note has.
pub proof fn law_no_tag_is_left_over(
    v: StorageView,
    note: NoteView,
    names: Seq<Seq<char>>,
    ids: Seq<Seq<char>>,
)
    requires
        crate::storage::tags_set(v, note, names, ids).1,
    ensures
        ({
            let w = crate::storage::tags_set(v, note, names, ids).0;
            forall|i: int|
                0 <= i < w.tags.len() ==> crate::storage::is_used(
                    w.note_tags,
                    (#[trigger] w.tags[i]).id,
                )
        }),
{
    let other = crate::storage::of_other_notes(note.id);
    let bare = StorageView { note_tags: v.note_tags.filter(other), ..v };
    let w = crate::storage::tags_given(bare, note.project_id, note.id, names, ids).0;
    crate::tables::lemma_filter(w.tags, crate::storage::used_in(w.note_tags));
}

// ---------------------------------------------------------------------------
// Live sessions
// ---------------------------------------------------------------------------

/// The captions as they are kept with a session.
pub open spec fn captions_of(session_id: Seq<char>, segments: Seq<LiveSegmentView>) -> Seq<
    LiveSegmentView,
> {
    segments.map_values(|s: LiveSegmentView| LiveSegmentView { session_id, ..s })
}

proof fn lemma_segments_added(
    v: StorageView,
    session_id: Seq<char>,
    segments: Seq<LiveSegmentView>,
)
    requires
        crate::storage::segments_added(v, session_id, segments).1,
    ensures
        crate::storage::segments_added(v, session_id, segments).0 == (StorageView {
            segments: v.segments + captions_of(session_id, segments),
            ..v
        }),
    decreases segments.len(),
{
    if segments.len() == 0 {
        assert(v.segments + captions_of(session_id, segments) =~= v.segments);
    } else {
        let head = segments.drop_last();
        lemma_segments_added(v, session_id, head);
        let w = crate::storage::segments_added(v, session_id, head).0;
        assert(w.segments.push(LiveSegmentView { session_id, ..segments.last() }) =~= v.segments
            + captions_of(session_id, segments)) by {
            assert(captions_of(session_id, segments) =~= captions_of(session_id, head).push(
                LiveSegmentView { session_id, ..segments.last() },
            ));
        }
    }
}

/// A session that was kept is read back with all its captions, in their order, and their number.
pub proof fn law_session_is_read_back(
    v: StorageView,
    session: LiveSessionView,
    segments: Seq<LiveSegmentView>,
)
    requires
        v.wf(),
        !crate::tables::has_key(v.sessions, session.id),
        crate::storage::segments_added(
            crate::storage::session_added(v, session),
            session.id,
            segments,
        ).1,
        crate::tables::in_order(segments, crate::storage::by_sequence()),
    ensures
        ({
            let w = crate::storage::segments_added(
                crate::storage::session_added(v, session),
                session.id,
                segments,
            ).0;
            &&& crate::tables::row_of(w.sessions, session.id) == Some(
                LiveSessionView { segment_count: 0, ..session },
            )
            &&& crate::tables::sorted_by(
                w.segments.filter(crate::storage::of_session(session.id)),
                crate::storage::by_sequence(),
            ) == captions_of(session.id, segments)
            &&& crate::storage::counted(w.segments)(session).segment_count == segments.len() as i64
        }),
{
    let first = crate::storage::session_added(v, session);
    let w = crate::storage::segments_added(first, session.id, segments).0;
    let p = crate::storage::of_session(session.id);
    let captions = captions_of(session.id, segments);
    let le = crate::storage::by_sequence();
    crate::tables::lemma_push_key(
        v.sessions,
        LiveSessionView { segment_count: 0, ..session },
    );
    lemma_segments_added(first, session.id, segments);
    Seq::filter_distributes_over_add(v.segments, captions, p);
    crate::tables::lemma_filter(v.segments, p);
    assert(v.segments.filter(p) =~= Seq::empty()) by {
        let rows = v.segments.filter(p);
        if rows.len() > 0 {
            assert(p(rows[0]) && v.segments.contains(rows[0]));
            let i = choose|i: int| 0 <= i < v.segments.len() && v.segments[i] == rows[0];
            assert(crate::schema::segment_ok(v, v.segments[i]));
        }
    }
    crate::tables::lemma_filter_all(captions, p);
    assert(Seq::<LiveSegmentView>::empty() + captions =~= captions);
    assert(crate::tables::in_order(captions, le)) by {
        assert forall|i: int, j: int| 0 <= i < j < captions.len() implies #[trigger] le(
            captions[i],
            captions[j],
        ) by {
            assert(le(segments[i], segments[j]));
        }
    }
    lemma_sorted_already(captions, le);
}

// ---------------------------------------------------------------------------
// Drafts
// ---------------------------------------------------------------------------

/// `ids` without repetitions.
pub open spec fn each_once(ids: Seq<Seq<char>>) -> Seq<Seq<char>>
    decreases ids.len(),
{
    if ids.len() == 0 {
        Seq::empty()
    } else {
        let head = each_once(ids.drop_last());
        if head.contains(ids.last()) {
            head
        } else {
            head.push(ids.last())
        }
    }
}

/// The rows that say what notes a draft has.
pub open spec fn draft_rows(v: StorageView, draft_id: Seq<char>) -> Seq<DraftNoteView> {
    v.draft_notes.filter(crate::storage::of_draft(draft_id))
}

/// What holds while notes are added to a draft that had none: it has the notes named so far, in
/// their order, at places below the number of names.
pub open spec fn drafted_so_far(v: StorageView, draft_id: Seq<char>, ids: Seq<Seq<char>>) -> bool {
    let rows = draft_rows(v, draft_id);
    &&& rows.map_values(|d: DraftNoteView| d.note_id) == each_once(ids)
    &&& forall|i: int| 0 <= i < rows.len() ==> (#[trigger] rows[i]).position < ids.len()
    &&& crate::tables::in_order(rows, crate::storage::by_draft_place())
}

proof fn lemma_drafted(v: StorageView, draft_id: Seq<char>, ids: Seq<Seq<char>>)
    requires
        draft_rows(v, draft_id).len() == 0,
        ids.len() <= i64::MAX,
        crate::storage::draft_notes_added(v, draft_id, ids).1,
    ensures
        drafted_so_far(crate::storage::draft_notes_added(v, draft_id, ids).0, draft_id, ids),
    decreases ids.len(),
{
    let f = |d: DraftNoteView| d.note_id;
    if ids.len() == 0 {
        assert(draft_rows(v, draft_id).map_values(f) =~= each_once(ids));
    } else {
        let head = ids.drop_last();
        lemma_drafted(v, draft_id, head);
        let w = crate::storage::draft_notes_added(v, draft_id, head).0;
        let x = crate::storage::draft_notes_added(v, draft_id, ids).0;
        let rows = draft_rows(w, draft_id);
        let p = crate::storage::of_draft(draft_id);
        let le = crate::storage::by_draft_place();
        crate::tables::lemma_filter(w.draft_notes, p);
        if crate::tables::has_pair(w.draft_notes, draft_id, ids.last()) {
            let k = choose|k: int|
                0 <= k < w.draft_notes.len() && (#[trigger] w.draft_notes[k]).pair() == (
                    draft_id,
                    ids.last(),
                );
            assert(p(w.draft_notes[k]));
            assert(rows.contains(w.draft_notes[k]));
            let i = choose|i: int| 0 <= i < rows.len() && rows[i] == w.draft_notes[k];
            assert(rows.map_values(f)[i] == ids.last());
            assert(each_once(head).contains(ids.last()));
        } else {
            let added = DraftNoteView {
                draft_id,
                note_id: ids.last(),
                position: (ids.len() - 1) as i64,
            };
            lemma_filter_push(w.draft_notes, added, p);
            assert(draft_rows(x, draft_id) =~= rows.push(added));
            if each_once(head).contains(ids.last()) {
                let i = choose|i: int|
                    0 <= i < each_once(head).len() && each_once(head)[i] == ids.last();
                assert(rows.map_values(f)[i] == rows[i].note_id);
                assert(p(rows[i]) && w.draft_notes.contains(rows[i]));
                let k = choose|k: int| 0 <= k < w.draft_notes.len() && w.draft_notes[k] == rows[i];
                assert(w.draft_notes[k].pair() == (draft_id, ids.last()));
                assert(false);
            }
            assert(rows.push(added).map_values(f) =~= each_once(head).push(ids.last()));
            assert forall|i: int, j: int|
                0 <= i < j < rows.push(added).len() implies #[trigger] le(
                rows.push(added)[i],
                rows.push(added)[j],
            ) by {
                if j < rows.len() {
                    assert(le(rows[i], rows[j]));
                } else {
                    assert(rows[i].position < head.len());
                }
            }
        }
    }
}

/// A draft that was made is read back with the notes that it was made of, in their order, each
/// once.
pub proof fn law_draft_is_read_back(
    v: StorageView,
    draft: crate::records::DraftView,
    ids: Seq<Seq<char>>,
)
    requires
        v.wf(),
        ids.len() <= i64::MAX,
        crate::storage::draft_created(v, draft, ids).1 is None,
    ensures
        ({
            let w = crate::storage::draft_created(v, draft, ids).0;
            &&& crate::tables::row_of(w.drafts, draft.id) == Some(draft)
            &&& crate::storage::draft_note_ids(w, draft.id) == each_once(ids)
        }),
{
    let x = StorageView { drafts: v.drafts.push(draft), ..v };
    let w = crate::storage::draft_created(v, draft, ids).0;
    let p = crate::storage::of_draft(draft.id);
    crate::tables::lemma_push_key(v.drafts, draft);
    crate::tables::lemma_filter(v.draft_notes, p);
    assert(draft_rows(x, draft.id).len() == 0) by {
        let rows = draft_rows(x, draft.id);
        if rows.len() > 0 {
            assert(p(rows[0]) && v.draft_notes.contains(rows[0]));
            let i = choose|i: int| 0 <= i < v.draft_notes.len() && v.draft_notes[i] == rows[0];
            assert(crate::schema::draft_note_ok(v, v.draft_notes[i]));
        }
    }
    lemma_drafted(x, draft.id, ids);
    lemma_sorted_already(draft_rows(w, draft.id), crate::storage::by_draft_place());
    lemma_drafts_kept(x, draft.id, ids);
    assert(crate::storage::draft_note_ids(w, draft.id) =~= each_once(ids));
}

proof fn lemma_drafts_kept(v: StorageView, draft_id: Seq<char>, ids: Seq<Seq<char>>)
    ensures
        crate::storage::draft_notes_added(v, draft_id, ids).0.drafts == v.drafts,
    decreases ids.len(),
{
    if ids.len() > 0 {
        lemma_drafts_kept(v, draft_id, ids.drop_last());
    }
}

// ---------------------------------------------------------------------------
// Translations
// ---------------------------------------------------------------------------

/// A translation that was added is listed with the project of its note, and one of no note with
/// every project; after clearing a project, none is listed with it.
pub proof fn law_translations_are_listed_and_cleared(
    v: StorageView,
    t: TranslationView,
    project_id: Seq<char>,
)
    requires
        v.wf(),
        crate::storage::translation_refusal(v, t) is None,
        crate::storage::shown_with(v.notes, project_id)(t),
    ensures
        crate::tables::sorted_by(
            v.translations.push(t).filter(crate::storage::shown_with(v.notes, project_id)),
            crate::storage::newest_first(),
        ).contains(t),
        v.translations.push(t).filter(
            crate::storage::not_shown_with(v.notes, project_id),
        ).filter(crate::storage::shown_with(v.notes, project_id)).len() == 0,
{
    let all = v.translations.push(t);
    let p = crate::storage::shown_with(v.notes, project_id);
    let q = crate::storage::not_shown_with(v.notes, project_id);
    crate::tables::lemma_filter(all, p);
    assert(all[v.translations.len() as int] == t);
    crate::tables::lemma_sorted_contains(all.filter(p), crate::storage::newest_first());
    crate::tables::lemma_filter(all, q);
    let left = all.filter(q);
    crate::tables::lemma_filter(left, p);
    if left.filter(p).len() > 0 {
        let x = left.filter(p)[0];
        assert(p(x) && left.contains(x));
        let i = choose|i: int| 0 <= i < left.len() && left[i] == x;
        assert(q(left[i]));
    }
}

} // verus!
