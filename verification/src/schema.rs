//! The tables of the notebook, and what holds of them together: keys are unique, and no row refers
//! to one that is not there.

use crate::records::{
    Draft, DraftNote, DraftNoteView, DraftView, LiveSegment, LiveSegmentView, LiveSession,
    LiveSessionView, Note, NoteLink, NoteLinkView, NoteTag, NoteTagView, NoteView, Project,
    ProjectView, Tag, TagView, Translation, TranslationView,
};
use crate::tables::{Keyed, PairRow, Paired, Row};
use vstd::prelude::*;

verus! {

impl Keyed for ProjectView {
    open spec fn key(self) -> Seq<char> {
        self.id
    }
}

impl Row for Project {
    type Model = ProjectView;

    fn key_text(&self) -> (r: &str) {
        self.id.as_str()
    }
}

impl Keyed for NoteView {
    open spec fn key(self) -> Seq<char> {
        self.id
    }
}

impl Row for Note {
    type Model = NoteView;

    fn key_text(&self) -> (r: &str) {
        self.id.as_str()
    }
}

impl Keyed for TagView {
    open spec fn key(self) -> Seq<char> {
        self.id
    }
}

impl Row for Tag {
    type Model = TagView;

    fn key_text(&self) -> (r: &str) {
        self.id.as_str()
    }
}

impl Keyed for DraftView {
    open spec fn key(self) -> Seq<char> {
        self.id
    }
}

impl Row for Draft {
    type Model = DraftView;

    fn key_text(&self) -> (r: &str) {
        self.id.as_str()
    }
}

impl Keyed for NoteLinkView {
    open spec fn key(self) -> Seq<char> {
        self.id
    }
}

impl Row for NoteLink {
    type Model = NoteLinkView;

    fn key_text(&self) -> (r: &str) {
        self.id.as_str()
    }
}

impl Keyed for TranslationView {
    open spec fn key(self) -> Seq<char> {
        self.id
    }
}

impl Row for Translation {
    type Model = TranslationView;

    fn key_text(&self) -> (r: &str) {
        self.id.as_str()
    }
}

impl Keyed for LiveSessionView {
    open spec fn key(self) -> Seq<char> {
        self.id
    }
}

impl Row for LiveSession {
    type Model = LiveSessionView;

    fn key_text(&self) -> (r: &str) {
        self.id.as_str()
    }
}

impl Keyed for LiveSegmentView {
    open spec fn key(self) -> Seq<char> {
        self.id
    }
}

impl Row for LiveSegment {
    type Model = LiveSegmentView;

    fn key_text(&self) -> (r: &str) {
        self.id.as_str()
    }
}

impl Paired for TagView {
    open spec fn pair(self) -> (Seq<char>, Seq<char>) {
        (self.project_id, self.name)
    }
}

impl PairRow for Tag {
    type PairModel = TagView;

    fn left_text(&self) -> (r: &str) {
        self.project_id.as_str()
    }

    fn right_text(&self) -> (r: &str) {
        self.name.as_str()
    }
}

impl Paired for NoteTagView {
    open spec fn pair(self) -> (Seq<char>, Seq<char>) {
        (self.note_id, self.tag_id)
    }
}

impl PairRow for NoteTag {
    type PairModel = NoteTagView;

    fn left_text(&self) -> (r: &str) {
        self.note_id.as_str()
    }

    fn right_text(&self) -> (r: &str) {
        self.tag_id.as_str()
    }
}

impl Paired for DraftNoteView {
    open spec fn pair(self) -> (Seq<char>, Seq<char>) {
        (self.draft_id, self.note_id)
    }
}

impl PairRow for DraftNote {
    type PairModel = DraftNoteView;

    fn left_text(&self) -> (r: &str) {
        self.draft_id.as_str()
    }

    fn right_text(&self) -> (r: &str) {
        self.note_id.as_str()
    }
}

impl Paired for NoteLinkView {
    open spec fn pair(self) -> (Seq<char>, Seq<char>) {
        (self.from_note_id, self.to_note_id)
    }
}

impl PairRow for NoteLink {
    type PairModel = NoteLinkView;

    fn left_text(&self) -> (r: &str) {
        self.from_note_id.as_str()
    }

    fn right_text(&self) -> (r: &str) {
        self.to_note_id.as_str()
    }
}

/// The tables of the notebook.
#[verifier::ext_equal]
pub struct StorageView {
    pub projects: Seq<ProjectView>,
    pub notes: Seq<NoteView>,
    pub tags: Seq<TagView>,
    pub note_tags: Seq<NoteTagView>,
    pub drafts: Seq<DraftView>,
    pub draft_notes: Seq<DraftNoteView>,
    pub links: Seq<NoteLinkView>,
    pub translations: Seq<TranslationView>,
    pub sessions: Seq<LiveSessionView>,
    pub segments: Seq<LiveSegmentView>,
}

// ---------------------------------------------------------------------------
// The conditions
// ---------------------------------------------------------------------------

/// Whether a note's project, and its parent where it has one, are there.
pub open spec fn note_ok(v: StorageView, n: NoteView) -> bool {
    &&& crate::tables::has_key(v.projects, n.project_id)
    &&& n.parent_id matches Some(p) ==> crate::tables::has_key(v.notes, p)
}

pub open spec fn tag_ok(v: StorageView, t: TagView) -> bool {
    crate::tables::has_key(v.projects, t.project_id)
}

pub open spec fn note_tag_ok(v: StorageView, t: NoteTagView) -> bool {
    crate::tables::has_key(v.notes, t.note_id) && crate::tables::has_key(v.tags, t.tag_id)
}

pub open spec fn draft_ok(v: StorageView, d: DraftView) -> bool {
    crate::tables::has_key(v.projects, d.project_id)
}

pub open spec fn draft_note_ok(v: StorageView, d: DraftNoteView) -> bool {
    crate::tables::has_key(v.drafts, d.draft_id) && crate::tables::has_key(v.notes, d.note_id)
}

pub open spec fn link_ok(v: StorageView, l: NoteLinkView) -> bool {
    crate::tables::has_key(v.notes, l.from_note_id) && crate::tables::has_key(v.notes, l.to_note_id)
}

pub open spec fn translation_ok(v: StorageView, t: TranslationView) -> bool {
    t.note_id matches Some(n) ==> crate::tables::has_key(v.notes, n)
}

pub open spec fn segment_ok(v: StorageView, s: LiveSegmentView) -> bool {
    crate::tables::has_key(v.sessions, s.session_id)
}

impl StorageView {
    /// Whether every key is unique, and every pair that must be: the names of tags in a project,
    /// the tags of a note, the notes of a draft, and the links between two notes.
    pub open spec fn keys_ok(self) -> bool {
        &&& crate::tables::unique(self.projects)
        &&& crate::tables::unique(self.notes)
        &&& crate::tables::unique(self.tags)
        &&& crate::tables::unique(self.drafts)
        &&& crate::tables::unique(self.links)
        &&& crate::tables::unique(self.translations)
        &&& crate::tables::unique(self.sessions)
        &&& crate::tables::unique(self.segments)
        &&& crate::tables::unique_pairs(self.tags)
        &&& crate::tables::unique_pairs(self.note_tags)
        &&& crate::tables::unique_pairs(self.draft_notes)
        &&& crate::tables::unique_pairs(self.links)
    }

    /// Whether every row that is referred to is there.
    pub open spec fn refs_ok(self) -> bool {
        &&& forall|i: int| 0 <= i < self.notes.len() ==> note_ok(self, #[trigger] self.notes[i])
        &&& forall|i: int| 0 <= i < self.tags.len() ==> tag_ok(self, #[trigger] self.tags[i])
        &&& forall|i: int|
            0 <= i < self.note_tags.len() ==> note_tag_ok(self, #[trigger] self.note_tags[i])
        &&& forall|i: int| 0 <= i < self.drafts.len() ==> draft_ok(self, #[trigger] self.drafts[i])
        &&& forall|i: int|
            0 <= i < self.draft_notes.len() ==> draft_note_ok(self, #[trigger] self.draft_notes[i])
        &&& forall|i: int| 0 <= i < self.links.len() ==> link_ok(self, #[trigger] self.links[i])
        &&& forall|i: int|
            0 <= i < self.translations.len() ==> translation_ok(
                self,
                #[trigger] self.translations[i],
            )
        &&& forall|i: int|
            0 <= i < self.segments.len() ==> segment_ok(self, #[trigger] self.segments[i])
    }

    /// Whether the tables are as they must be.
    pub open spec fn wf(self) -> bool {
        self.keys_ok() && self.refs_ok()
    }
}

// ---------------------------------------------------------------------------
// What goes with a row that goes
// ---------------------------------------------------------------------------

/// The notes whose project is there.
pub open spec fn in_projects(projects: Seq<ProjectView>) -> spec_fn(NoteView) -> bool {
    |n: NoteView| crate::tables::has_key(projects, n.project_id)
}

/// A note, its parent forgotten where it is not there.
pub open spec fn with_parent_in(notes: Seq<NoteView>) -> spec_fn(NoteView) -> NoteView {
    |n: NoteView|
        match n.parent_id {
            Some(p) => if crate::tables::has_key(notes, p) {
                n
            } else {
                NoteView { parent_id: None, ..n }
            },
            None => n,
        }
}

/// The notes that stay: those whose project is there, with parents that are there.
pub open spec fn settled_notes(v: StorageView) -> Seq<NoteView> {
    let kept = v.notes.filter(in_projects(v.projects));
    kept.map_values(with_parent_in(kept))
}

pub open spec fn tags_in(projects: Seq<ProjectView>) -> spec_fn(TagView) -> bool {
    |t: TagView| crate::tables::has_key(projects, t.project_id)
}

pub open spec fn drafts_in(projects: Seq<ProjectView>) -> spec_fn(DraftView) -> bool {
    |d: DraftView| crate::tables::has_key(projects, d.project_id)
}

pub open spec fn tagged_in(notes: Seq<NoteView>, tags: Seq<TagView>) -> spec_fn(
    NoteTagView,
) -> bool {
    |t: NoteTagView| crate::tables::has_key(notes, t.note_id) && crate::tables::has_key(tags, t.tag_id)
}

pub open spec fn drafted_in(drafts: Seq<DraftView>, notes: Seq<NoteView>) -> spec_fn(
    DraftNoteView,
) -> bool {
    |d: DraftNoteView| crate::tables::has_key(drafts, d.draft_id) && crate::tables::has_key(notes, d.note_id)
}

pub open spec fn linked_in(notes: Seq<NoteView>) -> spec_fn(NoteLinkView) -> bool {
    |l: NoteLinkView| crate::tables::has_key(notes, l.from_note_id) && crate::tables::has_key(notes, l.to_note_id)
}

/// A translation, its note forgotten where it is not there.
pub open spec fn with_note_in(notes: Seq<NoteView>) -> spec_fn(TranslationView) -> TranslationView {
    |t: TranslationView|
        match t.note_id {
            Some(n) => if crate::tables::has_key(notes, n) {
                t
            } else {
                TranslationView { note_id: None, ..t }
            },
            None => t,
        }
}

pub open spec fn segments_in(sessions: Seq<LiveSessionView>) -> spec_fn(LiveSegmentView) -> bool {
    |s: LiveSegmentView| crate::tables::has_key(sessions, s.session_id)
}

/// The tables after rows have gone: what cannot be without a row that is gone goes too, and what
/// can be without it forgets it. Notes, tags and drafts go with their project; the parent of a
/// note and the note of a translation are forgotten; tags, drafts and links lose their notes; and
/// captions go with their session.
pub open spec fn settled(v: StorageView) -> StorageView {
    let notes = settled_notes(v);
    let tags = v.tags.filter(tags_in(v.projects));
    let drafts = v.drafts.filter(drafts_in(v.projects));
    StorageView {
        projects: v.projects,
        notes,
        tags,
        note_tags: v.note_tags.filter(tagged_in(notes, tags)),
        drafts,
        draft_notes: v.draft_notes.filter(drafted_in(drafts, notes)),
        links: v.links.filter(linked_in(notes)),
        translations: v.translations.map_values(with_note_in(notes)),
        sessions: v.sessions,
        segments: v.segments.filter(segments_in(v.sessions)),
    }
}

/// The keys of the notes that stay are those of the notes whose project is there.
pub proof fn lemma_settled_notes(v: StorageView)
    requires
        crate::tables::unique(v.notes),
    ensures
        crate::tables::unique(settled_notes(v)),
        forall|k: Seq<char>| #[trigger]
            crate::tables::has_key(settled_notes(v), k) == crate::tables::has_key(v.notes.filter(in_projects(v.projects)), k),
{
    let kept = v.notes.filter(in_projects(v.projects));
    crate::tables::lemma_unique_filter(v.notes, in_projects(v.projects));
    crate::tables::lemma_change_keys(kept, with_parent_in(kept));
}

/// Settled tables are as they must be.
pub proof fn lemma_settled_wf(v: StorageView)
    requires
        v.keys_ok(),
    ensures
        settled(v).wf(),
{
    let w = settled(v);
    let kept = v.notes.filter(in_projects(v.projects));
    lemma_settled_notes(v);
    crate::tables::lemma_filter(v.notes, in_projects(v.projects));
    crate::tables::lemma_unique_filter(v.tags, tags_in(v.projects));
    crate::tables::lemma_unique_pairs_filter(v.tags, tags_in(v.projects));
    crate::tables::lemma_filter(v.tags, tags_in(v.projects));
    crate::tables::lemma_unique_filter(v.drafts, drafts_in(v.projects));
    crate::tables::lemma_filter(v.drafts, drafts_in(v.projects));
    crate::tables::lemma_unique_pairs_filter(v.note_tags, tagged_in(w.notes, w.tags));
    crate::tables::lemma_filter(v.note_tags, tagged_in(w.notes, w.tags));
    crate::tables::lemma_unique_pairs_filter(v.draft_notes, drafted_in(w.drafts, w.notes));
    crate::tables::lemma_filter(v.draft_notes, drafted_in(w.drafts, w.notes));
    crate::tables::lemma_unique_filter(v.links, linked_in(w.notes));
    crate::tables::lemma_unique_pairs_filter(v.links, linked_in(w.notes));
    crate::tables::lemma_filter(v.links, linked_in(w.notes));
    crate::tables::lemma_change_keys(v.translations, with_note_in(w.notes));
    crate::tables::lemma_unique_filter(v.segments, segments_in(v.sessions));
    crate::tables::lemma_filter(v.segments, segments_in(v.sessions));
    assert forall|i: int| 0 <= i < w.notes.len() implies note_ok(w, #[trigger] w.notes[i]) by {
        assert(w.notes[i] == with_parent_in(kept)(kept[i]));
        assert(in_projects(v.projects)(kept[i]));
    }
    assert forall|i: int| 0 <= i < w.translations.len() implies translation_ok(
        w,
        #[trigger] w.translations[i],
    ) by {
        assert(w.translations[i] == with_note_in(w.notes)(v.translations[i]));
    }
}

/// Tables that are as they must be are settled already.
pub proof fn lemma_settled_is_same(v: StorageView)
    requires
        v.wf(),
    ensures
        settled(v) == v,
{
    let w = settled(v);
    crate::tables::lemma_filter_all(v.notes, in_projects(v.projects));
    assert(w.notes =~= v.notes) by {
        assert forall|i: int| 0 <= i < v.notes.len() implies with_parent_in(v.notes)(
            #[trigger] v.notes[i],
        ) == v.notes[i] by {
            assert(note_ok(v, v.notes[i]));
        }
    }
    crate::tables::lemma_filter_all(v.tags, tags_in(v.projects));
    crate::tables::lemma_filter_all(v.drafts, drafts_in(v.projects));
    crate::tables::lemma_filter_all(v.note_tags, tagged_in(v.notes, v.tags));
    crate::tables::lemma_filter_all(v.draft_notes, drafted_in(v.drafts, v.notes));
    crate::tables::lemma_filter_all(v.links, linked_in(v.notes));
    crate::tables::lemma_filter_all(v.segments, segments_in(v.sessions));
    assert(w.translations =~= v.translations) by {
        assert forall|i: int| 0 <= i < v.translations.len() implies with_note_in(v.notes)(
            #[trigger] v.translations[i],
        ) == v.translations[i] by {
            assert(translation_ok(v, v.translations[i]));
        }
    }
    assert(w =~= v);
}

} // verus!
