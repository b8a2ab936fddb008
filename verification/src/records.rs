//! The records that are kept, each with its mathematical model.

use crate::text::copy_opt;
use vstd::prelude::*;

verus! {

/// A record that can be copied.
pub trait Record: View + Sized {
    /// A copy of the record.
    fn copy(&self) -> (r: Self)
        ensures
            r@ == self@,
    ;
}

/// The models of a list of records.
pub open spec fn views<T: View>(rows: Seq<T>) -> Seq<T::V> {
    rows.map_values(|t: T| t@)
}

/// A copy of a list of records.
pub fn copy_all<T: Record>(rows: &Vec<T>) -> (r: Vec<T>)
    ensures
        views(r@) == views(rows@),
{
    let mut out: Vec<T> = Vec::new();
    let mut i: usize = 0;
    while i < rows.len()
        invariant
            i <= rows.len(),
            out@.len() == i,
            forall|j: int| 0 <= j < i ==> (#[trigger] out@[j])@ == rows@[j]@,
        decreases rows.len() - i,
    {
        out.push(rows[i].copy());
        i = i + 1;
    }
    assert(views(out@) =~= views(rows@));
    out
}

/// A project: a collection of notes.
#[derive(Debug)]
pub struct Project {
    pub id: String,
    pub name: String,
    pub description: Option<String>,
    pub created_at: i64,
    pub updated_at: i64,
}

/// The model of a [`Project`].
#[verifier::ext_equal]
pub struct ProjectView {
    pub id: Seq<char>,
    pub name: Seq<char>,
    pub description: Option<Seq<char>>,
    pub created_at: i64,
    pub updated_at: i64,
}

impl View for Project {
    type V = ProjectView;

    open spec fn view(&self) -> ProjectView {
        ProjectView {
            id: self.id@,
            name: self.name@,
            description: crate::text::opt_view(self.description),
            created_at: self.created_at,
            updated_at: self.updated_at,
        }
    }
}

impl Record for Project {
    fn copy(&self) -> (r: Self) {
        Project {
            id: self.id.clone(),
            name: self.name.clone(),
            description: copy_opt(&self.description),
            created_at: self.created_at,
            updated_at: self.updated_at,
        }
    }
}

impl Clone for Project {
    fn clone(&self) -> (r: Self)
        ensures
            r@ == self@,
    {
        self.copy()
    }
}

/// A note. The duration is that of the recording it came from, in seconds, as the bits of an
/// IEEE 754 double.
#[derive(Debug)]
pub struct Note {
    pub id: String,
    pub project_id: String,
    pub title: String,
    pub text: String,
    pub source_name: Option<String>,
    pub language: Option<String>,
    pub duration: Option<u64>,
    pub meta: Option<String>,
    pub parent_id: Option<String>,
    pub position: i64,
    pub created_at: i64,
    pub updated_at: i64,
}

/// The model of a [`Note`].
#[verifier::ext_equal]
pub struct NoteView {
    pub id: Seq<char>,
    pub project_id: Seq<char>,
    pub title: Seq<char>,
    pub text: Seq<char>,
    pub source_name: Option<Seq<char>>,
    pub language: Option<Seq<char>>,
    pub duration: Option<u64>,
    pub meta: Option<Seq<char>>,
    pub parent_id: Option<Seq<char>>,
    pub position: i64,
    pub created_at: i64,
    pub updated_at: i64,
}

impl View for Note {
    type V = NoteView;

    open spec fn view(&self) -> NoteView {
        NoteView {
            id: self.id@,
            project_id: self.project_id@,
            title: self.title@,
            text: self.text@,
            source_name: crate::text::opt_view(self.source_name),
            language: crate::text::opt_view(self.language),
            duration: self.duration,
            meta: crate::text::opt_view(self.meta),
            parent_id: crate::text::opt_view(self.parent_id),
            position: self.position,
            created_at: self.created_at,
            updated_at: self.updated_at,
        }
    }
}

impl Record for Note {
    fn copy(&self) -> (r: Self) {
        Note {
            id: self.id.clone(),
            project_id: self.project_id.clone(),
            title: self.title.clone(),
            text: self.text.clone(),
            source_name: copy_opt(&self.source_name),
            language: copy_opt(&self.language),
            duration: self.duration,
            meta: copy_opt(&self.meta),
            parent_id: copy_opt(&self.parent_id),
            position: self.position,
            created_at: self.created_at,
            updated_at: self.updated_at,
        }
    }
}

impl Clone for Note {
    fn clone(&self) -> (r: Self)
        ensures
            r@ == self@,
    {
        self.copy()
    }
}

/// A tag of a project.
#[derive(Debug)]
pub struct Tag {
    pub id: String,
    pub project_id: String,
    pub name: String,
}

/// The model of a [`Tag`].
#[verifier::ext_equal]
pub struct TagView {
    pub id: Seq<char>,
    pub project_id: Seq<char>,
    pub name: Seq<char>,
}

impl View for Tag {
    type V = TagView;

    open spec fn view(&self) -> TagView {
        TagView {
            id: self.id@,
            project_id: self.project_id@,
            name: self.name@,
        }
    }
}

impl Record for Tag {
    fn copy(&self) -> (r: Self) {
        Tag {
            id: self.id.clone(),
            project_id: self.project_id.clone(),
            name: self.name.clone(),
        }
    }
}

impl Clone for Tag {
    fn clone(&self) -> (r: Self)
        ensures
            r@ == self@,
    {
        self.copy()
    }
}

/// That a note has a tag.
#[derive(Debug)]
pub struct NoteTag {
    pub note_id: String,
    pub tag_id: String,
}

/// The model of a [`NoteTag`].
#[verifier::ext_equal]
pub struct NoteTagView {
    pub note_id: Seq<char>,
    pub tag_id: Seq<char>,
}

impl View for NoteTag {
    type V = NoteTagView;

    open spec fn view(&self) -> NoteTagView {
        NoteTagView {
            note_id: self.note_id@,
            tag_id: self.tag_id@,
        }
    }
}

impl Record for NoteTag {
    fn copy(&self) -> (r: Self) {
        NoteTag {
            note_id: self.note_id.clone(),
            tag_id: self.tag_id.clone(),
        }
    }
}

impl Clone for NoteTag {
    fn clone(&self) -> (r: Self)
        ensures
            r@ == self@,
    {
        self.copy()
    }
}

/// A finished live captioning session. The number of segments is counted when it is read.
#[derive(Debug)]
pub struct LiveSession {
    pub id: String,
    pub title: String,
    pub started_at: i64,
    pub ended_at: Option<i64>,
    pub source_language: Option<String>,
    pub target_language: Option<String>,
    pub duration_ms: i64,
    pub segment_count: i64,
}

/// The model of a [`LiveSession`].
#[verifier::ext_equal]
pub struct LiveSessionView {
    pub id: Seq<char>,
    pub title: Seq<char>,
    pub started_at: i64,
    pub ended_at: Option<i64>,
    pub source_language: Option<Seq<char>>,
    pub target_language: Option<Seq<char>>,
    pub duration_ms: i64,
    pub segment_count: i64,
}

impl View for LiveSession {
    type V = LiveSessionView;

    open spec fn view(&self) -> LiveSessionView {
        LiveSessionView {
            id: self.id@,
            title: self.title@,
            started_at: self.started_at,
            ended_at: self.ended_at,
            source_language: crate::text::opt_view(self.source_language),
            target_language: crate::text::opt_view(self.target_language),
            duration_ms: self.duration_ms,
            segment_count: self.segment_count,
        }
    }
}

impl Record for LiveSession {
    fn copy(&self) -> (r: Self) {
        LiveSession {
            id: self.id.clone(),
            title: self.title.clone(),
            started_at: self.started_at,
            ended_at: self.ended_at,
            source_language: copy_opt(&self.source_language),
            target_language: copy_opt(&self.target_language),
            duration_ms: self.duration_ms,
            segment_count: self.segment_count,
        }
    }
}

impl Clone for LiveSession {
    fn clone(&self) -> (r: Self)
        ensures
            r@ == self@,
    {
        self.copy()
    }
}

/// One caption of a live session.
#[derive(Debug)]
pub struct LiveSegment {
    pub id: String,
    pub session_id: String,
    pub sequence: i64,
    pub start_ms: i64,
    pub source_text: String,
    pub translated_text: Option<String>,
}

/// The model of a [`LiveSegment`].
#[verifier::ext_equal]
pub struct LiveSegmentView {
    pub id: Seq<char>,
    pub session_id: Seq<char>,
    pub sequence: i64,
    pub start_ms: i64,
    pub source_text: Seq<char>,
    pub translated_text: Option<Seq<char>>,
}

impl View for LiveSegment {
    type V = LiveSegmentView;

    open spec fn view(&self) -> LiveSegmentView {
        LiveSegmentView {
            id: self.id@,
            session_id: self.session_id@,
            sequence: self.sequence,
            start_ms: self.start_ms,
            source_text: self.source_text@,
            translated_text: crate::text::opt_view(self.translated_text),
        }
    }
}

impl Record for LiveSegment {
    fn copy(&self) -> (r: Self) {
        LiveSegment {
            id: self.id.clone(),
            session_id: self.session_id.clone(),
            sequence: self.sequence,
            start_ms: self.start_ms,
            source_text: self.source_text.clone(),
            translated_text: copy_opt(&self.translated_text),
        }
    }
}

impl Clone for LiveSegment {
    fn clone(&self) -> (r: Self)
        ensures
            r@ == self@,
    {
        self.copy()
    }
}

/// A document made of notes.
#[derive(Debug)]
pub struct Draft {
    pub id: String,
    pub project_id: String,
    pub title: String,
    pub content: String,
    pub created_at: i64,
    pub updated_at: i64,
}

/// The model of a [`Draft`].
#[verifier::ext_equal]
pub struct DraftView {
    pub id: Seq<char>,
    pub project_id: Seq<char>,
    pub title: Seq<char>,
    pub content: Seq<char>,
    pub created_at: i64,
    pub updated_at: i64,
}

impl View for Draft {
    type V = DraftView;

    open spec fn view(&self) -> DraftView {
        DraftView {
            id: self.id@,
            project_id: self.project_id@,
            title: self.title@,
            content: self.content@,
            created_at: self.created_at,
            updated_at: self.updated_at,
        }
    }
}

impl Record for Draft {
    fn copy(&self) -> (r: Self) {
        Draft {
            id: self.id.clone(),
            project_id: self.project_id.clone(),
            title: self.title.clone(),
            content: self.content.clone(),
            created_at: self.created_at,
            updated_at: self.updated_at,
        }
    }
}

impl Clone for Draft {
    fn clone(&self) -> (r: Self)
        ensures
            r@ == self@,
    {
        self.copy()
    }
}

/// That a draft was made of a note, and at which place the note stood.
#[derive(Debug)]
pub struct DraftNote {
    pub draft_id: String,
    pub note_id: String,
    pub position: i64,
}

/// The model of a [`DraftNote`].
#[verifier::ext_equal]
pub struct DraftNoteView {
    pub draft_id: Seq<char>,
    pub note_id: Seq<char>,
    pub position: i64,
}

impl View for DraftNote {
    type V = DraftNoteView;

    open spec fn view(&self) -> DraftNoteView {
        DraftNoteView {
            draft_id: self.draft_id@,
            note_id: self.note_id@,
            position: self.position,
        }
    }
}

impl Record for DraftNote {
    fn copy(&self) -> (r: Self) {
        DraftNote {
            draft_id: self.draft_id.clone(),
            note_id: self.note_id.clone(),
            position: self.position,
        }
    }
}

impl Clone for DraftNote {
    fn clone(&self) -> (r: Self)
        ensures
            r@ == self@,
    {
        self.copy()
    }
}

/// A link that the user drew from one note to another.
#[derive(Debug)]
pub struct NoteLink {
    pub id: String,
    pub from_note_id: String,
    pub to_note_id: String,
    pub label: Option<String>,
    pub created_at: i64,
}

/// The model of a [`NoteLink`].
#[verifier::ext_equal]
pub struct NoteLinkView {
    pub id: Seq<char>,
    pub from_note_id: Seq<char>,
    pub to_note_id: Seq<char>,
    pub label: Option<Seq<char>>,
    pub created_at: i64,
}

impl View for NoteLink {
    type V = NoteLinkView;

    open spec fn view(&self) -> NoteLinkView {
        NoteLinkView {
            id: self.id@,
            from_note_id: self.from_note_id@,
            to_note_id: self.to_note_id@,
            label: crate::text::opt_view(self.label),
            created_at: self.created_at,
        }
    }
}

impl Record for NoteLink {
    fn copy(&self) -> (r: Self) {
        NoteLink {
            id: self.id.clone(),
            from_note_id: self.from_note_id.clone(),
            to_note_id: self.to_note_id.clone(),
            label: copy_opt(&self.label),
            created_at: self.created_at,
        }
    }
}

impl Clone for NoteLink {
    fn clone(&self) -> (r: Self)
        ensures
            r@ == self@,
    {
        self.copy()
    }
}

/// A note that is reached by a link, with the label of the link. The direction is `out` where the
/// link leads to this note, and `in` where it comes from it.
#[derive(Debug)]
pub struct LinkedNote {
    pub id: String,
    pub title: String,
    pub text: String,
    pub label: Option<String>,
    pub direction: String,
}

/// The model of a [`LinkedNote`].
#[verifier::ext_equal]
pub struct LinkedNoteView {
    pub id: Seq<char>,
    pub title: Seq<char>,
    pub text: Seq<char>,
    pub label: Option<Seq<char>>,
    pub direction: Seq<char>,
}

impl View for LinkedNote {
    type V = LinkedNoteView;

    open spec fn view(&self) -> LinkedNoteView {
        LinkedNoteView {
            id: self.id@,
            title: self.title@,
            text: self.text@,
            label: crate::text::opt_view(self.label),
            direction: self.direction@,
        }
    }
}

impl Record for LinkedNote {
    fn copy(&self) -> (r: Self) {
        LinkedNote {
            id: self.id.clone(),
            title: self.title.clone(),
            text: self.text.clone(),
            label: copy_opt(&self.label),
            direction: self.direction.clone(),
        }
    }
}

impl Clone for LinkedNote {
    fn clone(&self) -> (r: Self)
        ensures
            r@ == self@,
    {
        self.copy()
    }
}

/// A translation, of a note or of a text that belongs to none.
#[derive(Debug)]
pub struct Translation {
    pub id: String,
    pub note_id: Option<String>,
    pub source_text: String,
    pub translated_text: String,
    pub source_language: Option<String>,
    pub target_language: String,
    pub created_at: i64,
}

/// The model of a [`Translation`].
#[verifier::ext_equal]
pub struct TranslationView {
    pub id: Seq<char>,
    pub note_id: Option<Seq<char>>,
    pub source_text: Seq<char>,
    pub translated_text: Seq<char>,
    pub source_language: Option<Seq<char>>,
    pub target_language: Seq<char>,
    pub created_at: i64,
}

impl View for Translation {
    type V = TranslationView;

    open spec fn view(&self) -> TranslationView {
        TranslationView {
            id: self.id@,
            note_id: crate::text::opt_view(self.note_id),
            source_text: self.source_text@,
            translated_text: self.translated_text@,
            source_language: crate::text::opt_view(self.source_language),
            target_language: self.target_language@,
            created_at: self.created_at,
        }
    }
}

impl Record for Translation {
    fn copy(&self) -> (r: Self) {
        Translation {
            id: self.id.clone(),
            note_id: copy_opt(&self.note_id),
            source_text: self.source_text.clone(),
            translated_text: self.translated_text.clone(),
            source_language: copy_opt(&self.source_language),
            target_language: self.target_language.clone(),
            created_at: self.created_at,
        }
    }
}

impl Clone for Translation {
    fn clone(&self) -> (r: Self)
        ensures
            r@ == self@,
    {
        self.copy()
    }
}

/// A node of the graph of a project. Its kind is `project`, `note` or `tag`.
#[derive(Debug)]
pub struct GraphNode {
    pub id: String,
    pub label: String,
    pub kind: String,
}

/// The model of a [`GraphNode`].
#[verifier::ext_equal]
pub struct GraphNodeView {
    pub id: Seq<char>,
    pub label: Seq<char>,
    pub kind: Seq<char>,
}

impl View for GraphNode {
    type V = GraphNodeView;

    open spec fn view(&self) -> GraphNodeView {
        GraphNodeView {
            id: self.id@,
            label: self.label@,
            kind: self.kind@,
        }
    }
}

impl Record for GraphNode {
    fn copy(&self) -> (r: Self) {
        GraphNode {
            id: self.id.clone(),
            label: self.label.clone(),
            kind: self.kind.clone(),
        }
    }
}

impl Clone for GraphNode {
    fn clone(&self) -> (r: Self)
        ensures
            r@ == self@,
    {
        self.copy()
    }
}

/// An edge of the graph of a project. Its kind is `contains`, `tagged`, `link` or `parent`.
#[derive(Debug)]
pub struct GraphEdge {
    pub source: String,
    pub target: String,
    pub kind: String,
    pub id: Option<String>,
    pub label: Option<String>,
}

/// The model of a [`GraphEdge`].
#[verifier::ext_equal]
pub struct GraphEdgeView {
    pub source: Seq<char>,
    pub target: Seq<char>,
    pub kind: Seq<char>,
    pub id: Option<Seq<char>>,
    pub label: Option<Seq<char>>,
}

impl View for GraphEdge {
    type V = GraphEdgeView;

    open spec fn view(&self) -> GraphEdgeView {
        GraphEdgeView {
            source: self.source@,
            target: self.target@,
            kind: self.kind@,
            id: crate::text::opt_view(self.id),
            label: crate::text::opt_view(self.label),
        }
    }
}

impl Record for GraphEdge {
    fn copy(&self) -> (r: Self) {
        GraphEdge {
            source: self.source.clone(),
            target: self.target.clone(),
            kind: self.kind.clone(),
            id: copy_opt(&self.id),
            label: copy_opt(&self.label),
        }
    }
}

impl Clone for GraphEdge {
    fn clone(&self) -> (r: Self)
        ensures
            r@ == self@,
    {
        self.copy()
    }
}

/// A note with the names of its tags.
#[derive(Debug)]
pub struct NoteWithTags {
    pub note: Note,
    pub tags: Vec<String>,
}

/// The model of a [`NoteWithTags`].
#[verifier::ext_equal]
pub struct NoteWithTagsView {
    pub note: NoteView,
    pub tags: Seq<Seq<char>>,
}

impl View for NoteWithTags {
    type V = NoteWithTagsView;

    open spec fn view(&self) -> NoteWithTagsView {
        NoteWithTagsView { note: self.note@, tags: crate::text::texts(self.tags@) }
    }
}

/// A live session with its captions.
#[derive(Debug)]
pub struct LiveSessionDetail {
    pub session: LiveSession,
    pub segments: Vec<LiveSegment>,
}

/// A draft with the notes that it was made of.
#[derive(Debug)]
pub struct DraftWithNotes {
    pub draft: Draft,
    pub note_ids: Vec<String>,
}

/// The model of a [`DraftWithNotes`].
#[verifier::ext_equal]
pub struct DraftWithNotesView {
    pub draft: DraftView,
    pub note_ids: Seq<Seq<char>>,
}

impl View for DraftWithNotes {
    type V = DraftWithNotesView;

    open spec fn view(&self) -> DraftWithNotesView {
        DraftWithNotesView { draft: self.draft@, note_ids: crate::text::texts(self.note_ids@) }
    }
}

/// The graph of a project.
#[derive(Debug)]
pub struct GraphData {
    pub nodes: Vec<GraphNode>,
    pub edges: Vec<GraphEdge>,
}

/// Why something could not be stored or read.
#[derive(Debug)]
pub struct StoreError(pub String);

impl StoreError {
    /// The error with this message.
    pub fn new(message: &str) -> (r: StoreError)
        ensures
            r.0@ == message@,
    {
        StoreError(message.to_owned())
    }
}

pub type StoreResult<T> = Result<T, StoreError>;

} // verus!
