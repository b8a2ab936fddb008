//! The store of the notebook: projects, notes with their tags and links, drafts, translations and
//! live sessions.
//!
//! The store holds its tables in memory. It is opened on the rows of a database, and what it holds
//! after a change is what the database is to hold.

use crate::ids::{new_id, new_ids, now_ms};
use crate::records::{
    copy_all, Draft, DraftNote, DraftWithNotes, LinkedNote, LiveSegment, LiveSession,
    LiveSessionDetail, Note, NoteLink, NoteTag, NoteWithTags, Project, Record, StoreError,
    StoreResult, Tag, Translation,
};
use crate::tables::{
    all_rows, change_rows, check_unique, check_unique_pairs, contains_key, find_key, find_pair, get_row,
    keep_rows, select_rows, sort_rows,
};
use crate::text::{copy_opt, own_opt, same, text_before, trim_text};
use vstd::prelude::*;

verus! {

/// The rows of a database.
pub struct Tables {
    pub projects: Vec<Project>,
    pub notes: Vec<Note>,
    pub tags: Vec<Tag>,
    pub note_tags: Vec<NoteTag>,
    pub drafts: Vec<Draft>,
    pub draft_notes: Vec<DraftNote>,
    pub links: Vec<NoteLink>,
    pub translations: Vec<Translation>,
    pub sessions: Vec<LiveSession>,
    pub segments: Vec<LiveSegment>,
}

impl View for Tables {
    type V = crate::schema::StorageView;

    open spec fn view(&self) -> crate::schema::StorageView {
        crate::schema::StorageView {
            projects: crate::records::views(self.projects@),
            notes: crate::records::views(self.notes@),
            tags: crate::records::views(self.tags@),
            note_tags: crate::records::views(self.note_tags@),
            drafts: crate::records::views(self.drafts@),
            draft_notes: crate::records::views(self.draft_notes@),
            links: crate::records::views(self.links@),
            translations: crate::records::views(self.translations@),
            sessions: crate::records::views(self.sessions@),
            segments: crate::records::views(self.segments@),
        }
    }
}

/// The store of the notebook.
pub struct Storage {
    tables: Tables,
}

impl View for Storage {
    type V = crate::schema::StorageView;

    closed spec fn view(&self) -> crate::schema::StorageView {
        self.tables@
    }
}

impl Tables {
    /// Takes away what cannot be without rows that are gone.
    fn settle(&mut self)
        requires
            old(self)@.keys_ok(),
        ensures
            final(self)@ == crate::schema::settled(old(self)@),
            final(self)@.wf(),
    {
        let ghost v = self@;
        proof {
            crate::schema::lemma_settled_wf(v);
        }
        let projects = &self.projects;
        let keep = |n: &Note| -> (b: bool)
            ensures
                b == crate::schema::in_projects(crate::records::views(projects@))(n@),
        { contains_key(projects, n.project_id.as_str()) };
        keep_rows(&mut self.notes, keep, Ghost(crate::schema::in_projects(crate::records::views(projects@))));
        let kept = copy_all(&self.notes);
        let change = |n: &Note| -> (r: Note)
            ensures
                r@ == crate::schema::with_parent_in(crate::records::views(kept@))(n@),
        {
            let mut r = n.copy();
            let gone = match &r.parent_id {
                Some(p) => !contains_key(&kept, p.as_str()),
                None => false,
            };
            if gone {
                r.parent_id = None;
            }
            r
        };
        change_rows(&mut self.notes, change, Ghost(crate::schema::with_parent_in(crate::records::views(kept@))));
        let notes = &self.notes;
        let keep = |t: &Tag| -> (b: bool)
            ensures
                b == crate::schema::tags_in(crate::records::views(projects@))(t@),
        { contains_key(projects, t.project_id.as_str()) };
        keep_rows(&mut self.tags, keep, Ghost(crate::schema::tags_in(crate::records::views(projects@))));
        let tags = &self.tags;
        let keep = |t: &NoteTag| -> (b: bool)
            ensures
                b == crate::schema::tagged_in(crate::records::views(notes@), crate::records::views(tags@))(t@),
        { contains_key(notes, t.note_id.as_str()) && contains_key(tags, t.tag_id.as_str()) };
        keep_rows(&mut self.note_tags, keep, Ghost(crate::schema::tagged_in(crate::records::views(notes@), crate::records::views(tags@))));
        let keep = |d: &Draft| -> (b: bool)
            ensures
                b == crate::schema::drafts_in(crate::records::views(projects@))(d@),
        { contains_key(projects, d.project_id.as_str()) };
        keep_rows(&mut self.drafts, keep, Ghost(crate::schema::drafts_in(crate::records::views(projects@))));
        let drafts = &self.drafts;
        let keep = |d: &DraftNote| -> (b: bool)
            ensures
                b == crate::schema::drafted_in(crate::records::views(drafts@), crate::records::views(notes@))(d@),
        {
            contains_key(drafts, d.draft_id.as_str()) && contains_key(
                notes,
                d.note_id.as_str(),
            )
        };
        keep_rows(&mut self.draft_notes, keep, Ghost(crate::schema::drafted_in(crate::records::views(drafts@), crate::records::views(notes@))));
        let keep = |l: &NoteLink| -> (b: bool)
            ensures
                b == crate::schema::linked_in(crate::records::views(notes@))(l@),
        {
            contains_key(notes, l.from_note_id.as_str()) && contains_key(
                notes,
                l.to_note_id.as_str(),
            )
        };
        keep_rows(&mut self.links, keep, Ghost(crate::schema::linked_in(crate::records::views(notes@))));
        let change = |t: &Translation| -> (r: Translation)
            ensures
                r@ == crate::schema::with_note_in(crate::records::views(notes@))(t@),
        {
            let mut r = t.copy();
            let gone = match &r.note_id {
                Some(n) => !contains_key(notes, n.as_str()),
                None => false,
            };
            if gone {
                r.note_id = None;
            }
            r
        };
        change_rows(&mut self.translations, change, Ghost(crate::schema::with_note_in(crate::records::views(notes@))));
        let sessions = &self.sessions;
        let keep = |s: &LiveSegment| -> (b: bool)
            ensures
                b == crate::schema::segments_in(crate::records::views(sessions@))(s@),
        { contains_key(sessions, s.session_id.as_str()) };
        keep_rows(&mut self.segments, keep, Ghost(crate::schema::segments_in(crate::records::views(sessions@))));
        assert(self@ =~= crate::schema::settled(v));
    }
}

// ---------------------------------------------------------------------------
// Facts about changes
// ---------------------------------------------------------------------------

/// Rows stay well referred where no key goes away.
proof fn lemma_refs_grow(v: crate::schema::StorageView, w: crate::schema::StorageView)
    requires
        forall|k: Seq<char>|
            crate::tables::has_key(v.projects, k) ==> #[trigger] crate::tables::has_key(
                w.projects,
                k,
            ),
        forall|k: Seq<char>|
            crate::tables::has_key(v.notes, k) ==> #[trigger] crate::tables::has_key(w.notes, k),
        forall|k: Seq<char>|
            crate::tables::has_key(v.tags, k) ==> #[trigger] crate::tables::has_key(w.tags, k),
        forall|k: Seq<char>|
            crate::tables::has_key(v.drafts, k) ==> #[trigger] crate::tables::has_key(w.drafts, k),
        forall|k: Seq<char>|
            crate::tables::has_key(v.sessions, k) ==> #[trigger] crate::tables::has_key(
                w.sessions,
                k,
            ),
    ensures
        forall|n: crate::records::NoteView|
            crate::schema::note_ok(v, n) ==> #[trigger] crate::schema::note_ok(w, n),
        forall|t: crate::records::TagView|
            crate::schema::tag_ok(v, t) ==> #[trigger] crate::schema::tag_ok(w, t),
        forall|t: crate::records::NoteTagView|
            crate::schema::note_tag_ok(v, t) ==> #[trigger] crate::schema::note_tag_ok(w, t),
        forall|d: crate::records::DraftView|
            crate::schema::draft_ok(v, d) ==> #[trigger] crate::schema::draft_ok(w, d),
        forall|d: crate::records::DraftNoteView|
            crate::schema::draft_note_ok(v, d) ==> #[trigger] crate::schema::draft_note_ok(w, d),
        forall|l: crate::records::NoteLinkView|
            crate::schema::link_ok(v, l) ==> #[trigger] crate::schema::link_ok(w, l),
        forall|t: crate::records::TranslationView|
            crate::schema::translation_ok(v, t) ==> #[trigger] crate::schema::translation_ok(w, t),
        forall|s: crate::records::LiveSegmentView|
            crate::schema::segment_ok(v, s) ==> #[trigger] crate::schema::segment_ok(w, s),
{
}

/// Notes may change in what is no key and no reference.
proof fn lemma_change_notes(
    v: crate::schema::StorageView,
    g: spec_fn(crate::records::NoteView) -> crate::records::NoteView,
)
    requires
        v.wf(),
        forall|n: crate::records::NoteView|
            (#[trigger] g(n)).id == n.id && g(n).project_id == n.project_id && g(n).parent_id
                == n.parent_id,
    ensures
        (crate::schema::StorageView { notes: v.notes.map_values(g), ..v }).wf(),
{
    let w = crate::schema::StorageView { notes: v.notes.map_values(g), ..v };
    crate::tables::lemma_change_keys(v.notes, g);
    lemma_refs_grow(v, w);
    assert forall|i: int| 0 <= i < w.notes.len() implies crate::schema::note_ok(
        w,
        #[trigger] w.notes[i],
    ) by {
        assert(crate::schema::note_ok(v, v.notes[i]));
        assert(w.notes[i] == g(v.notes[i]));
    }
}

/// Projects may change in what is no key.
proof fn lemma_change_projects(
    v: crate::schema::StorageView,
    g: spec_fn(crate::records::ProjectView) -> crate::records::ProjectView,
)
    requires
        v.wf(),
        forall|p: crate::records::ProjectView| (#[trigger] g(p)).id == p.id,
    ensures
        (crate::schema::StorageView { projects: v.projects.map_values(g), ..v }).wf(),
{
    let w = crate::schema::StorageView { projects: v.projects.map_values(g), ..v };
    crate::tables::lemma_change_keys(v.projects, g);
    lemma_refs_grow(v, w);
}

// ---------------------------------------------------------------------------
// Projects
// ---------------------------------------------------------------------------

/// A project as it is made.
pub open spec fn new_project(
    id: Seq<char>,
    name: Seq<char>,
    description: Option<Seq<char>>,
    now: i64,
) -> crate::records::ProjectView {
    crate::records::ProjectView { id, name, description, created_at: now, updated_at: now }
}

/// The change that gives the project `id` another name and description.
pub open spec fn renamed(
    id: Seq<char>,
    name: Seq<char>,
    description: Option<Seq<char>>,
    now: i64,
) -> spec_fn(crate::records::ProjectView) -> crate::records::ProjectView {
    |p: crate::records::ProjectView|
        if p.id == id {
            crate::records::ProjectView { name, description, updated_at: now, ..p }
        } else {
            p
        }
}

/// The change that says when the project `id` was last worked on.
pub open spec fn touched(id: Seq<char>, now: i64) -> spec_fn(
    crate::records::ProjectView,
) -> crate::records::ProjectView {
    |p: crate::records::ProjectView|
        if p.id == id {
            crate::records::ProjectView { updated_at: now, ..p }
        } else {
            p
        }
}

/// The tables without the project `id` and all that goes with it.
pub open spec fn project_deleted(v: crate::schema::StorageView, id: Seq<char>) -> crate::schema::StorageView {
    crate::schema::settled(
        crate::schema::StorageView {
            projects: v.projects.filter(crate::tables::but(id)),
            ..v
        },
    )
}

/// Projects in the order of their last change, the latest first.
pub open spec fn latest_first() -> spec_fn(
    crate::records::ProjectView,
    crate::records::ProjectView,
) -> bool {
    |a: crate::records::ProjectView, b: crate::records::ProjectView| a.updated_at >= b.updated_at
}

/// Projects in the order in which they were made.
pub open spec fn oldest_first() -> spec_fn(
    crate::records::ProjectView,
    crate::records::ProjectView,
) -> bool {
    |a: crate::records::ProjectView, b: crate::records::ProjectView| a.created_at <= b.created_at
}

/// The models of what a method gives, or its message.
pub open spec fn store_view<T: View>(r: StoreResult<T>) -> Result<T::V, Seq<char>> {
    match r {
        Ok(t) => Ok(t@),
        Err(e) => Err(e.0@),
    }
}

impl Storage {
    /// Makes a project with the given identifier at the given time.
    pub fn create_project_with(
        &mut self,
        id: String,
        now: i64,
        name: &str,
        description: Option<&str>,
    ) -> (r: StoreResult<Project>)
        ensures
            store_view(r) == if crate::tables::has_key(old(self)@.projects, id@) {
                Err("UNIQUE constraint failed: projects.id"@)
            } else {
                Ok(new_project(id@, name@, crate::text::opt_str_view(description), now))
            },
            final(self)@ == match r {
                Ok(p) => (crate::schema::StorageView {
                    projects: old(self)@.projects.push(p@),
                    ..old(self)@
                }),
                Err(_) => old(self)@,
            },
            old(self)@.wf() ==> final(self)@.wf(),
    {
        let ghost v = self@;
        if contains_key(&self.tables.projects, id.as_str()) {
            return Err(StoreError::new("UNIQUE constraint failed: projects.id"));
        }
        let project = Project {
            id,
            name: name.to_owned(),
            description: own_opt(description),
            created_at: now,
            updated_at: now,
        };
        self.tables.projects.push(project.copy());
        proof {
            let w = crate::schema::StorageView {
                projects: v.projects.push(project@),
                ..v
            };
            crate::tables::lemma_push_key(v.projects, project@);
            assert(self@ =~= w);
            if v.wf() {
                lemma_refs_grow(v, w);
            }
        }
        Ok(project)
    }

    /// Makes a project.
    pub fn create_project(&mut self, name: &str, description: Option<&str>) -> (r: StoreResult<
        Project,
    >)
        ensures
            match r {
                Ok(p) => crate::ids::is_uuid(p.id@) && !crate::tables::has_key(
                    old(self)@.projects,
                    p.id@,
                ) && p@ == new_project(
                    p.id@,
                    name@,
                    crate::text::opt_str_view(description),
                    p.created_at,
                ) && crate::ids::is_reading(p.created_at) && final(self)@ == (
                crate::schema::StorageView {
                    projects: old(self)@.projects.push(p@),
                    ..old(self)@
                }),
                Err(e) => e.0@ == "UNIQUE constraint failed: projects.id"@ && final(self)@ == old(
                    self,
                )@ && exists|id: Seq<char>|
                    crate::ids::is_uuid(id) && #[trigger] crate::tables::has_key(
                        old(self)@.projects,
                        id,
                    ),
            },
            old(self)@.wf() ==> final(self)@.wf(),
    {
        let id = new_id();
        let now: i64 = now_ms();
        self.create_project_with(id, now, name, description)
    }

    /// Gives a project another name and description at the given time.
    pub fn update_project_at(
        &mut self,
        id: &str,
        name: &str,
        description: Option<&str>,
        now: i64,
    ) -> (r: StoreResult<()>)
        requires
            old(self)@.wf(),
        ensures
            r is Ok,
            final(self)@ == (crate::schema::StorageView {
                projects: old(self)@.projects.map_values(
                    renamed(id@, name@, crate::text::opt_str_view(description), now),
                ),
                ..old(self)@
            }),
            final(self)@.wf(),
    {
        let ghost v = self@;
        let change = |p: &Project| -> (r: Project)
            ensures
                r@ == renamed(id@, name@, crate::text::opt_str_view(description), now)(p@),
        {
            let mut r = p.copy();
            if same(p.id.as_str(), id) {
                r.name = name.to_owned();
                r.description = own_opt(description);
                r.updated_at = now;
            }
            r
        };
        let ghost g = renamed(id@, name@, crate::text::opt_str_view(description), now);
        change_rows(&mut self.tables.projects, change, Ghost(g));
        proof {
            lemma_change_projects(v, g);
            assert(self@ =~= (crate::schema::StorageView {
                projects: v.projects.map_values(g),
                ..v
            }));
        }
        Ok(())
    }

    /// Gives a project another name and description.
    pub fn update_project(&mut self, id: &str, name: &str, description: Option<&str>) -> (r:
        StoreResult<()>)
        requires
            old(self)@.wf(),
        ensures
            r is Ok,
            exists|now: i64|
                crate::ids::is_reading(now) && final(self)@ == (crate::schema::StorageView {
                    projects: old(self)@.projects.map_values(
                        #[trigger] renamed(
                            id@,
                            name@,
                            crate::text::opt_str_view(description),
                            now,
                        ),
                    ),
                    ..old(self)@
                }),
            final(self)@.wf(),
    {
        let now: i64 = now_ms();
        self.update_project_at(id, name, description, now)
    }

    /// Deletes a project with its notes, tags and drafts.
    pub fn delete_project(&mut self, id: &str) -> (r: StoreResult<()>)
        requires
            old(self)@.wf(),
        ensures
            r is Ok,
            final(self)@ == project_deleted(old(self)@, id@),
            final(self)@.wf(),
    {
        let ghost v = self@;
        let keep = |p: &Project| -> (b: bool)
            ensures
                b == crate::tables::but::<crate::records::ProjectView>(id@)(p@),
        { !same(p.id.as_str(), id) };
        keep_rows(&mut self.tables.projects, keep, Ghost(crate::tables::but(id@)));
        proof {
            crate::tables::lemma_unique_filter(v.projects, crate::tables::but(id@));
            assert(self@ =~= (crate::schema::StorageView {
                projects: v.projects.filter(crate::tables::but(id@)),
                ..v
            }));
        }
        self.tables.settle();
        Ok(())
    }

    /// All projects, those last worked on first.
    pub fn list_projects(&self) -> (r: StoreResult<Vec<Project>>)
        ensures
            r matches Ok(list) && crate::records::views(list@) == crate::tables::sorted_by(
                self@.projects,
                latest_first(),
            ),
    {
        let before = |a: &Project, b: &Project| -> (x: bool)
            ensures
                x == latest_first()(a@, b@),
        { a.updated_at >= b.updated_at };
        Ok(sort_rows(copy_all(&self.tables.projects), before, Ghost(latest_first())))
    }

    /// The project with the identifier `id`.
    pub fn get_project(&self, id: &str) -> (r: StoreResult<Option<Project>>)
        ensures
            match r {
                Ok(Some(p)) => crate::tables::row_of(self@.projects, id@) == Some(p@),
                Ok(None) => crate::tables::row_of(self@.projects, id@) is None,
                Err(_) => false,
            },
    {
        Ok(get_row(&self.tables.projects, id))
    }

    /// The identifier of the oldest project.
    pub fn default_project_id(&self) -> (r: StoreResult<String>)
        ensures
            match r {
                Ok(id) => self@.projects.len() > 0 && id@ == crate::tables::sorted_by(
                    self@.projects,
                    oldest_first(),
                )[0].id,
                Err(e) => self@.projects.len() == 0 && e.0@ == "no project exists"@,
            },
    {
        let before = |a: &Project, b: &Project| -> (x: bool)
            ensures
                x == oldest_first()(a@, b@),
        { a.created_at <= b.created_at };
        let list = sort_rows(copy_all(&self.tables.projects), before, Ghost(oldest_first()));
        proof {
            crate::tables::lemma_sorted_by(self@.projects, oldest_first());
            assert(crate::records::views(list@).len() == list@.len());
        }
        if list.len() == 0 {
            Err(StoreError::new("no project exists"))
        } else {
            assert(crate::records::views(list@)[0] == list@[0]@);
            Ok(list[0].id.clone())
        }
    }
}

// ---------------------------------------------------------------------------
// Notes
// ---------------------------------------------------------------------------

/// The change that moves every note of a project one place down.
pub open spec fn moved_down(project_id: Seq<char>) -> spec_fn(
    crate::records::NoteView,
) -> crate::records::NoteView {
    |n: crate::records::NoteView|
        if n.project_id == project_id {
            crate::records::NoteView { position: (n.position + 1) as i64, ..n }
        } else {
            n
        }
}

/// Whether the notes of a project can be moved one place down.
pub open spec fn can_move_down(notes: Seq<crate::records::NoteView>, project_id: Seq<char>) -> bool {
    forall|i: int|
        0 <= i < notes.len() && (#[trigger] notes[i]).project_id == project_id
            ==> notes[i].position < i64::MAX
}

/// Why a note cannot be added, if it cannot.
pub open spec fn note_refusal(
    v: crate::schema::StorageView,
    note: crate::records::NoteView,
) -> Option<Seq<char>> {
    if crate::tables::has_key(v.notes, note.id) {
        Some("UNIQUE constraint failed: notes.id"@)
    } else if !crate::tables::has_key(v.projects, note.project_id) || (note.parent_id matches Some(
        p,
    ) && p != note.id && !crate::tables::has_key(v.notes, p)) {
        Some("FOREIGN KEY constraint failed"@)
    } else {
        None
    }
}

/// The notes with those of a project moved one place down.
pub open spec fn room_made(v: crate::schema::StorageView, project_id: Seq<char>) -> crate::schema::StorageView {
    crate::schema::StorageView { notes: v.notes.map_values(moved_down(project_id)), ..v }
}

/// The tables with `note` at the top of its project.
pub open spec fn note_added(
    v: crate::schema::StorageView,
    note: crate::records::NoteView,
) -> crate::schema::StorageView {
    let w = room_made(v, note.project_id);
    crate::schema::StorageView {
        notes: w.notes.push(crate::records::NoteView { position: 0, ..note }),
        projects: v.projects.map_values(touched(note.project_id, note.updated_at)),
        ..w
    }
}

/// The change that puts the note `id` of a project at the place `position`.
pub open spec fn placed(project_id: Seq<char>, id: Seq<char>, position: i64) -> spec_fn(
    crate::records::NoteView,
) -> crate::records::NoteView {
    |n: crate::records::NoteView|
        if n.id == id && n.project_id == project_id {
            crate::records::NoteView { position, ..n }
        } else {
            n
        }
}

/// The notes with those in `ids` put at their places, one after the other.
pub open spec fn reordered(
    notes: Seq<crate::records::NoteView>,
    project_id: Seq<char>,
    ids: Seq<Seq<char>>,
) -> Seq<crate::records::NoteView>
    decreases ids.len(),
{
    if ids.len() == 0 {
        notes
    } else {
        reordered(notes, project_id, ids.drop_last()).map_values(
            placed(project_id, ids.last(), (ids.len() - 1) as i64),
        )
    }
}

/// The parent of the note `id`, where it has one.
pub open spec fn parent_of(notes: Seq<crate::records::NoteView>, id: Seq<char>) -> Option<
    Seq<char>,
> {
    match crate::tables::row_of(notes, id) {
        Some(n) => n.parent_id,
        None => None,
    }
}

/// How many parents a note may have above it.
pub const MAX_PARENT_DEPTH: usize = 64;

/// Why the note `cur`, that is above `depth` others, or one above it, cannot be above `id`; nothing
/// where all can be.
pub open spec fn chain_refusal(
    notes: Seq<crate::records::NoteView>,
    cur: Option<Seq<char>>,
    id: Seq<char>,
    depth: nat,
) -> Option<Seq<char>>
    decreases 65 - depth,
{
    match cur {
        None => None,
        Some(c) => if c == id {
            Some("cycle detected in parent chain"@)
        } else if depth >= MAX_PARENT_DEPTH {
            Some("parent chain too deep"@)
        } else {
            chain_refusal(notes, parent_of(notes, c), id, depth + 1)
        },
    }
}

/// Why a note cannot get the parent `parent`, if it cannot.
pub open spec fn parent_refusal(
    v: crate::schema::StorageView,
    id: Seq<char>,
    parent: Option<Seq<char>>,
) -> Option<Seq<char>> {
    match parent {
        None => None,
        Some(p) => if p == id {
            Some("a note cannot be its own parent"@)
        } else if chain_refusal(v.notes, parent, id, 0) is Some {
            chain_refusal(v.notes, parent, id, 0)
        } else if crate::tables::has_key(v.notes, id) && !crate::tables::has_key(v.notes, p) {
            Some("FOREIGN KEY constraint failed"@)
        } else {
            None
        },
    }
}

/// The change that puts the note `id` under another parent.
pub open spec fn adopted(id: Seq<char>, parent: Option<Seq<char>>, now: i64) -> spec_fn(
    crate::records::NoteView,
) -> crate::records::NoteView {
    |n: crate::records::NoteView|
        if n.id == id {
            crate::records::NoteView { parent_id: parent, updated_at: now, ..n }
        } else {
            n
        }
}

/// The change that gives the note `id` another title, text and metadata.
pub open spec fn rewritten(
    id: Seq<char>,
    title: Seq<char>,
    text: Seq<char>,
    meta: Option<Seq<char>>,
    now: i64,
) -> spec_fn(crate::records::NoteView) -> crate::records::NoteView {
    |n: crate::records::NoteView|
        if n.id == id {
            crate::records::NoteView { title, text, meta, updated_at: now, ..n }
        } else {
            n
        }
}

/// The tables without the note `id` and all that goes with it.
pub open spec fn note_deleted(v: crate::schema::StorageView, id: Seq<char>) -> crate::schema::StorageView {
    crate::schema::settled(
        crate::schema::StorageView { notes: v.notes.filter(crate::tables::but(id)), ..v },
    )
}

/// The notes of a project.
pub open spec fn of_project(project_id: Seq<char>) -> spec_fn(crate::records::NoteView) -> bool {
    |n: crate::records::NoteView| n.project_id == project_id
}

/// Notes in the order of their places; at the same place the newest first.
pub open spec fn by_place() -> spec_fn(
    crate::records::NoteView,
    crate::records::NoteView,
) -> bool {
    |a: crate::records::NoteView, b: crate::records::NoteView|
        a.position < b.position || (a.position == b.position && a.created_at >= b.created_at)
}

/// The order of texts.
pub open spec fn by_text() -> spec_fn(Seq<char>, Seq<char>) -> bool {
    |a: Seq<char>, b: Seq<char>| crate::text::text_le(a, b)
}

/// Any two texts can be held against each other.
pub proof fn lemma_by_text_is_order()
    ensures
        crate::tables::is_order(by_text()),
{
    let le = by_text();
    assert forall|a: Seq<char>, b: Seq<char>| #[trigger] le(a, b) || le(b, a) by {
        crate::text::lemma_text_le_total(a, b);
    }
    assert forall|a: Seq<char>, b: Seq<char>, c: Seq<char>| #[trigger]
        le(a, b) && #[trigger] le(b, c) implies le(a, c) by {
        crate::text::lemma_text_le_transitive(a, b, c);
    }
}

/// The tags of a note.
pub open spec fn of_note(note_id: Seq<char>) -> spec_fn(crate::records::NoteTagView) -> bool {
    |t: crate::records::NoteTagView| t.note_id == note_id
}

/// The name of the tag `id`.
pub open spec fn tag_name(tags: Seq<crate::records::TagView>, id: Seq<char>) -> Seq<char> {
    match crate::tables::row_of(tags, id) {
        Some(t) => t.name,
        None => Seq::empty(),
    }
}

/// The names of the tags that a list of rows gives.
pub open spec fn names_of(
    tags: Seq<crate::records::TagView>,
    rows: Seq<crate::records::NoteTagView>,
) -> Seq<Seq<char>> {
    Seq::new(rows.len(), |i: int| tag_name(tags, rows[i].tag_id))
}

/// The names of the tags of a note, in order.
pub open spec fn tag_names(v: crate::schema::StorageView, note_id: Seq<char>) -> Seq<Seq<char>> {
    crate::tables::sorted_by(names_of(v.tags, v.note_tags.filter(of_note(note_id))), by_text())
}

/// The notes of a project in their order.
pub open spec fn notes_in_order(v: crate::schema::StorageView, project_id: Seq<char>) -> Seq<
    crate::records::NoteView,
> {
    crate::tables::sorted_by(v.notes.filter(of_project(project_id)), by_place())
}

/// A note with the names of its tags.
pub open spec fn with_tags(v: crate::schema::StorageView) -> spec_fn(
    crate::records::NoteView,
) -> crate::records::NoteWithTagsView {
    |n: crate::records::NoteView|
        crate::records::NoteWithTagsView { note: n, tags: tag_names(v, n.id) }
}

/// The notes of a project in their order, with the names of their tags.
pub open spec fn listed_notes(v: crate::schema::StorageView, project_id: Seq<char>) -> Seq<
    crate::records::NoteWithTagsView,
> {
    notes_in_order(v, project_id).map_values(with_tags(v))
}

/// The notes with the identifiers `ids`, in their order; each once, and none for one that is not
/// there.
pub open spec fn notes_by_ids(
    notes: Seq<crate::records::NoteView>,
    ids: Seq<Seq<char>>,
) -> Seq<crate::records::NoteView>
    decreases ids.len(),
{
    if ids.len() == 0 {
        Seq::empty()
    } else {
        let head = notes_by_ids(notes, ids.drop_last());
        match crate::tables::row_of(notes, ids.last()) {
            Some(n) => if ids.drop_last().contains(ids.last()) {
                head
            } else {
                head.push(n)
            },
            None => head,
        }
    }
}

impl Storage {
    /// Whether there is room for another note at the top of a project.
    pub fn has_room(&self, project_id: &str) -> (r: bool)
        ensures
            r == can_move_down(self@.notes, project_id@),
    {
        let ghost v = self@;
        assert(self.tables.notes@.len() == v.notes.len());
        let mut i: usize = 0;
        while i < self.tables.notes.len()
            invariant
                i <= self.tables.notes@.len(),
                v == self@,
                self.tables.notes@.len() == v.notes.len(),
                forall|j: int|
                    0 <= j < i && (#[trigger] v.notes[j]).project_id == project_id@
                        ==> v.notes[j].position < i64::MAX,
            decreases self.tables.notes.len() - i,
        {
            assert(self.tables.notes@[i as int]@ == v.notes[i as int]);
            if self.tables.notes[i].position == i64::MAX && same(
                self.tables.notes[i].project_id.as_str(),
                project_id,
            ) {
                return false;
            }
            i = i + 1;
        }
        true
    }

    /// Adds a note at the top of its project. The other notes of the project move down before it
    /// is known whether the note can be added.
    pub fn add_note(&mut self, note: &Note) -> (r: StoreResult<()>)
        requires
            old(self)@.wf(),
            can_move_down(old(self)@.notes, note.project_id@),
        ensures
            match r {
                Ok(_) => note_refusal(old(self)@, note@) is None && final(self)@ == note_added(
                    old(self)@,
                    note@,
                ),
                Err(e) => note_refusal(old(self)@, note@) == Some(e.0@) && final(self)@
                    == room_made(old(self)@, note.project_id@),
            },
            final(self)@.wf(),
    {
        let ghost v = self@;
        let mut i: usize = 0;
        assert(self.tables.notes@.len() == v.notes.len());
        while i < self.tables.notes.len()
            invariant
                i <= self.tables.notes@.len(),
                self.tables.notes@.len() == v.notes.len(),
                can_move_down(v.notes, note.project_id@),
                forall|j: int|
                    0 <= j < i ==> (#[trigger] self.tables.notes@[j])@ == moved_down(
                        note.project_id@,
                    )(v.notes[j]),
                forall|j: int|
                    i <= j < v.notes.len() ==> (#[trigger] self.tables.notes@[j])@ == v.notes[j],
                self@ == (crate::schema::StorageView { notes: self@.notes, ..v }),
            decreases self.tables.notes.len() - i,
        {
            assert(self.tables.notes@[i as int]@ == v.notes[i as int]);
            if same(self.tables.notes[i].project_id.as_str(), note.project_id.as_str()) {
                let mut moved = self.tables.notes[i].copy();
                moved.position = moved.position + 1;
                self.tables.notes.set(i, moved);
            }
            i = i + 1;
        }
        assert(self@.notes =~= v.notes.map_values(moved_down(note.project_id@)));
        let ghost w = self@;
        assert(w =~= room_made(v, note.project_id@));
        proof {
            lemma_change_notes(v, moved_down(note.project_id@));
            crate::tables::lemma_change_keys(v.notes, moved_down(note.project_id@));
        }
        if contains_key(&self.tables.notes, note.id.as_str()) {
            return Err(StoreError::new("UNIQUE constraint failed: notes.id"));
        }
        let parent_there = match &note.parent_id {
            Some(p) => same(p.as_str(), note.id.as_str()) || contains_key(
                &self.tables.notes,
                p.as_str(),
            ),
            None => true,
        };
        if !parent_there || !contains_key(&self.tables.projects, note.project_id.as_str()) {
            return Err(StoreError::new("FOREIGN KEY constraint failed"));
        }
        let mut added = note.copy();
        added.position = 0;
        let ghost a = added@;
        assert(a =~= (crate::records::NoteView { position: 0, ..note@ }));
        self.tables.notes.push(added);
        let ghost x = self@;
        proof {
            assert(x =~= (crate::schema::StorageView { notes: w.notes.push(a), ..w }));
            crate::tables::lemma_push_key(w.notes, a);
            lemma_refs_grow(w, x);
            assert forall|i: int| 0 <= i < x.notes.len() implies crate::schema::note_ok(
                x,
                #[trigger] x.notes[i],
            ) by {
                if i < w.notes.len() {
                    assert(x.notes[i] == w.notes[i]);
                    assert(crate::schema::note_ok(w, w.notes[i]));
                } else {
                    assert(crate::tables::has_key(x.notes, a.id));
                }
            }
        }
        let project_id = note.project_id.as_str();
        let now: i64 = note.updated_at;
        let change = |p: &Project| -> (r: Project)
            ensures
                r@ == touched(project_id@, now)(p@),
        {
            let mut r = p.copy();
            if same(p.id.as_str(), project_id) {
                r.updated_at = now;
            }
            r
        };
        change_rows(&mut self.tables.projects, change, Ghost(touched(project_id@, now)));
        proof {
            lemma_change_projects(x, touched(project_id@, now));
            assert(self@ =~= (crate::schema::StorageView {
                projects: x.projects.map_values(touched(project_id@, now)),
                ..x
            }));
            assert(self@ =~= note_added(v, note@));
        }
        Ok(())
    }

    /// Keeps the order of the notes of a project that the user chose: each note of `note_ids` at
    /// its place in the list.
    pub fn reorder_notes(&mut self, project_id: &str, note_ids: &Vec<String>) -> (r: StoreResult<
        (),
    >)
        requires
            old(self)@.wf(),
        ensures
            r is Ok,
            final(self)@ == (crate::schema::StorageView {
                notes: reordered(
                    old(self)@.notes,
                    project_id@,
                    crate::text::texts(note_ids@),
                ),
                ..old(self)@
            }),
            final(self)@.wf(),
    {
        let ghost v = self@;
        let ghost ids = crate::text::texts(note_ids@);
        let mut i: usize = 0;
        while i < note_ids.len()
            invariant
                i <= note_ids@.len(),
                ids == crate::text::texts(note_ids@),
                self@.wf(),
                self@ == (crate::schema::StorageView {
                    notes: reordered(v.notes, project_id@, ids.take(i as int)),
                    ..v
                }),
            decreases note_ids.len() - i,
        {
            let ghost w = self@;
            let id = note_ids[i].as_str();
            let place: i64 = i as i64;
            let change = |n: &Note| -> (r: Note)
                ensures
                    r@ == placed(project_id@, id@, place)(n@),
            {
                let mut r = n.copy();
                if same(n.id.as_str(), id) && same(n.project_id.as_str(), project_id) {
                    r.position = place;
                }
                r
            };
            change_rows(
                &mut self.tables.notes,
                change,
                Ghost(placed(project_id@, id@, place)),
            );
            proof {
                lemma_change_notes(w, placed(project_id@, id@, place));
                assert(ids.take(i + 1).drop_last() =~= ids.take(i as int));
                assert(ids.take(i + 1).last() == id@);
                assert(self@ =~= (crate::schema::StorageView {
                    notes: w.notes.map_values(placed(project_id@, id@, place)),
                    ..w
                }));
            }
            i = i + 1;
        }
        assert(ids.take(ids.len() as int) =~= ids);
        Ok(())
    }

    fn find_parent(&self, id: &str) -> (r: Option<String>)
        ensures
            crate::text::opt_view(r) == parent_of(self@.notes, id@),
    {
        match find_key(&self.tables.notes, id) {
            Some(i) => {
                assert(self@.notes[i as int] == self.tables.notes@[i as int]@);
                copy_opt(&self.tables.notes[i].parent_id)
            },
            None => None,
        }
    }

    /// Puts a note under another, or under none, at the given time. A note cannot be put under
    /// itself or under one that is under it, nor where too many are above it.
    pub fn set_note_parent_at(&mut self, note_id: &str, parent_id: Option<&str>, now: i64) -> (r:
        StoreResult<()>)
        requires
            old(self)@.wf(),
        ensures
            match r {
                Ok(_) => parent_refusal(
                    old(self)@,
                    note_id@,
                    crate::text::opt_str_view(parent_id),
                ) is None && final(self)@ == (crate::schema::StorageView {
                    notes: old(self)@.notes.map_values(
                        adopted(note_id@, crate::text::opt_str_view(parent_id), now),
                    ),
                    ..old(self)@
                }),
                Err(e) => parent_refusal(
                    old(self)@,
                    note_id@,
                    crate::text::opt_str_view(parent_id),
                ) == Some(e.0@) && final(self)@ == old(self)@,
            },
            final(self)@.wf(),
    {
        let ghost v = self@;
        if let Some(p) = parent_id {
            if same(p, note_id) {
                return Err(StoreError::new("a note cannot be its own parent"));
            }
            let mut cur: Option<String> = Some(p.to_owned());
            let mut depth: usize = 0;
            loop
                invariant_except_break
                    depth <= 64,
                    chain_refusal(v.notes, Some(p@), note_id@, 0) == chain_refusal(
                        v.notes,
                        crate::text::opt_view(cur),
                        note_id@,
                        depth as nat,
                    ),
                invariant
                    self@ == v,
                    v.wf(),
                    v == old(self)@,
                    p@ != note_id@,
                    parent_id == Some(p),
                ensures
                    chain_refusal(v.notes, Some(p@), note_id@, 0) is None,
                decreases 65 - depth,
            {
                match cur {
                    None => {
                        break;
                    },
                    Some(id) => {
                        if same(id.as_str(), note_id) {
                            return Err(StoreError::new("cycle detected in parent chain"));
                        }
                        if depth >= MAX_PARENT_DEPTH {
                            return Err(StoreError::new("parent chain too deep"));
                        }
                        depth = depth + 1;
                        cur = self.find_parent(id.as_str());
                    },
                }
            }
            if contains_key(&self.tables.notes, note_id) && !contains_key(&self.tables.notes, p) {
                return Err(StoreError::new("FOREIGN KEY constraint failed"));
            }
        }
        let change = |n: &Note| -> (r: Note)
            ensures
                r@ == adopted(note_id@, crate::text::opt_str_view(parent_id), now)(n@),
        {
            let mut r = n.copy();
            if same(n.id.as_str(), note_id) {
                r.parent_id = own_opt(parent_id);
                r.updated_at = now;
            }
            r
        };
        let ghost g = adopted(note_id@, crate::text::opt_str_view(parent_id), now);
        change_rows(&mut self.tables.notes, change, Ghost(g));
        proof {
            let w = crate::schema::StorageView { notes: v.notes.map_values(g), ..v };
            assert(self@ =~= w);
            crate::tables::lemma_change_keys(v.notes, g);
            lemma_refs_grow(v, w);
            assert forall|i: int| 0 <= i < w.notes.len() implies crate::schema::note_ok(
                w,
                #[trigger] w.notes[i],
            ) by {
                assert(crate::schema::note_ok(v, v.notes[i]));
                assert(w.notes[i] == g(v.notes[i]));
                if v.notes[i].id == note_id@ {
                    assert(crate::tables::has_key(v.notes, note_id@));
                }
            }
        }
        Ok(())
    }

    /// Puts a note under another, or under none.
    pub fn set_note_parent(&mut self, note_id: &str, parent_id: Option<&str>) -> (r: StoreResult<
        (),
    >)
        requires
            old(self)@.wf(),
        ensures
            match r {
                Ok(_) => parent_refusal(
                    old(self)@,
                    note_id@,
                    crate::text::opt_str_view(parent_id),
                ) is None && exists|now: i64|
                    crate::ids::is_reading(now) && final(self)@ == (crate::schema::StorageView {
                        notes: old(self)@.notes.map_values(
                            #[trigger] adopted(
                                note_id@,
                                crate::text::opt_str_view(parent_id),
                                now,
                            ),
                        ),
                        ..old(self)@
                    }),
                Err(e) => parent_refusal(
                    old(self)@,
                    note_id@,
                    crate::text::opt_str_view(parent_id),
                ) == Some(e.0@) && final(self)@ == old(self)@,
            },
            final(self)@.wf(),
    {
        let now: i64 = now_ms();
        self.set_note_parent_at(note_id, parent_id, now)
    }

    /// Gives a note another title, text and metadata at the given time.
    pub fn update_note_at(
        &mut self,
        id: &str,
        title: &str,
        text: &str,
        meta: Option<&str>,
        now: i64,
    ) -> (r: StoreResult<()>)
        requires
            old(self)@.wf(),
        ensures
            r is Ok,
            final(self)@ == (crate::schema::StorageView {
                notes: old(self)@.notes.map_values(
                    rewritten(id@, title@, text@, crate::text::opt_str_view(meta), now),
                ),
                ..old(self)@
            }),
            final(self)@.wf(),
    {
        let ghost v = self@;
        let change = |n: &Note| -> (r: Note)
            ensures
                r@ == rewritten(id@, title@, text@, crate::text::opt_str_view(meta), now)(n@),
        {
            let mut r = n.copy();
            if same(n.id.as_str(), id) {
                r.title = title.to_owned();
                r.text = text.to_owned();
                r.meta = own_opt(meta);
                r.updated_at = now;
            }
            r
        };
        let ghost g = rewritten(id@, title@, text@, crate::text::opt_str_view(meta), now);
        change_rows(&mut self.tables.notes, change, Ghost(g));
        proof {
            lemma_change_notes(v, g);
            assert(self@ =~= (crate::schema::StorageView {
                notes: v.notes.map_values(g),
                ..v
            }));
        }
        Ok(())
    }

    /// Gives a note another title, text and metadata.
    pub fn update_note(&mut self, id: &str, title: &str, text: &str, meta: Option<&str>) -> (r:
        StoreResult<()>)
        requires
            old(self)@.wf(),
        ensures
            r is Ok,
            exists|now: i64|
                crate::ids::is_reading(now) && final(self)@ == (crate::schema::StorageView {
                    notes: old(self)@.notes.map_values(
                        #[trigger] rewritten(
                            id@,
                            title@,
                            text@,
                            crate::text::opt_str_view(meta),
                            now,
                        ),
                    ),
                    ..old(self)@
                }),
            final(self)@.wf(),
    {
        let now: i64 = now_ms();
        self.update_note_at(id, title, text, meta, now)
    }

    /// Deletes a note with its links and its places in drafts.
    pub fn delete_note(&mut self, id: &str) -> (r: StoreResult<()>)
        requires
            old(self)@.wf(),
        ensures
            r is Ok,
            final(self)@ == note_deleted(old(self)@, id@),
            final(self)@.wf(),
    {
        let ghost v = self@;
        let keep = |n: &Note| -> (b: bool)
            ensures
                b == crate::tables::but::<crate::records::NoteView>(id@)(n@),
        { !same(n.id.as_str(), id) };
        keep_rows(&mut self.tables.notes, keep, Ghost(crate::tables::but(id@)));
        proof {
            crate::tables::lemma_unique_filter(v.notes, crate::tables::but(id@));
            assert(self@ =~= (crate::schema::StorageView {
                notes: v.notes.filter(crate::tables::but(id@)),
                ..v
            }));
        }
        self.tables.settle();
        Ok(())
    }

    fn note_tags(&self, note_id: &str) -> (r: Vec<String>)
        ensures
            crate::text::texts(r@) == tag_names(self@, note_id@),
    {
        let keep = |t: &NoteTag| -> (b: bool)
            ensures
                b == of_note(note_id@)(t@),
        { same(t.note_id.as_str(), note_id) };
        let rows = select_rows(&self.tables.note_tags, keep, Ghost(of_note(note_id@)));
        let ghost rv = crate::records::views(rows@);
        let mut names: Vec<String> = Vec::new();
        let mut i: usize = 0;
        while i < rows.len()
            invariant
                i <= rows@.len(),
                rv == crate::records::views(rows@),
                names@.len() == i,
                forall|j: int|
                    0 <= j < i ==> (#[trigger] names@[j])@ == tag_name(
                        self@.tags,
                        rv[j].tag_id,
                    ),
            decreases rows.len() - i,
        {
            assert(rv[i as int] == rows@[i as int]@);
            let name = match find_key(&self.tables.tags, rows[i].tag_id.as_str()) {
                Some(k) => {
                    assert(self@.tags[k as int] == self.tables.tags@[k as int]@);
                    self.tables.tags[k].name.clone()
                },
                None => {
                    let nothing = String::new();
                    assert(nothing@ =~= Seq::empty());
                    nothing
                },
            };
            names.push(name);
            i = i + 1;
        }
        assert(crate::records::views(names@) =~= names_of(self@.tags, rv));
        let before = |a: &String, b: &String| -> (x: bool)
            ensures
                x == by_text()(a@, b@),
        { text_before(a.as_str(), b.as_str()) };
        let sorted = sort_rows(names, before, Ghost(by_text()));
        assert(crate::text::texts(sorted@) =~= crate::records::views(sorted@));
        sorted
    }

    /// The notes of a project in their order, with the names of their tags.
    pub fn list_notes(&self, project_id: &str) -> (r: StoreResult<Vec<NoteWithTags>>)
        ensures
            r matches Ok(list) && crate::records::views(list@) == listed_notes(
                self@,
                project_id@,
            ),
    {
        let keep = |n: &Note| -> (b: bool)
            ensures
                b == of_project(project_id@)(n@),
        { same(n.project_id.as_str(), project_id) };
        let before = |a: &Note, b: &Note| -> (x: bool)
            ensures
                x == by_place()(a@, b@),
        {
            a.position < b.position || (a.position == b.position && a.created_at >= b.created_at)
        };
        let notes = sort_rows(
            select_rows(&self.tables.notes, keep, Ghost(of_project(project_id@))),
            before,
            Ghost(by_place()),
        );
        let ghost nv = crate::records::views(notes@);
        let mut out: Vec<NoteWithTags> = Vec::new();
        let mut i: usize = 0;
        while i < notes.len()
            invariant
                i <= notes@.len(),
                nv == crate::records::views(notes@),
                out@.len() == i,
                forall|j: int| 0 <= j < i ==> (#[trigger] out@[j])@ == with_tags(self@)(nv[j]),
            decreases notes.len() - i,
        {
            assert(nv[i as int] == notes@[i as int]@);
            let tags = self.note_tags(notes[i].id.as_str());
            let entry = NoteWithTags { note: notes[i].copy(), tags };
            out.push(entry);
            i = i + 1;
        }
        assert(crate::records::views(out@) =~= listed_notes(self@, project_id@));
        Ok(out)
    }

    /// The notes with the given identifiers, in the order of the identifiers.
    pub fn get_notes_by_ids(&self, note_ids: &Vec<String>) -> (r: StoreResult<Vec<Note>>)
        ensures
            r matches Ok(list) && crate::records::views(list@) == notes_by_ids(
                self@.notes,
                crate::text::texts(note_ids@),
            ),
    {
        let ghost ids = crate::text::texts(note_ids@);
        let mut out: Vec<Note> = Vec::new();
        let mut i: usize = 0;
        assert(crate::records::views(out@) =~= notes_by_ids(self@.notes, ids.take(0)));
        while i < note_ids.len()
            invariant
                i <= note_ids@.len(),
                ids == crate::text::texts(note_ids@),
                crate::records::views(out@) == notes_by_ids(self@.notes, ids.take(i as int)),
            decreases note_ids.len() - i,
        {
            let ghost before = crate::records::views(out@);
            let ghost head = ids.take(i as int);
            proof {
                assert(ids.take(i + 1).drop_last() =~= head);
                assert(ids.take(i + 1).last() == note_ids@[i as int]@);
            }
            let mut seen = false;
            let mut j: usize = 0;
            while j < i
                invariant
                    j <= i < note_ids@.len(),
                    ids == crate::text::texts(note_ids@),
                    head == ids.take(i as int),
                    seen == head.take(j as int).contains(note_ids@[i as int]@),
                decreases i - j,
            {
                proof {
                    let longer = head.take(j + 1);
                    assert(longer =~= head.take(j as int).push(note_ids@[j as int]@));
                    assert(longer[j as int] == note_ids@[j as int]@);
                    let x = note_ids@[i as int]@;
                    if head.take(j as int).contains(x) {
                        let k = choose|k: int| 0 <= k < j && head.take(j as int)[k] == x;
                        assert(longer[k] == x);
                    }
                    if longer.contains(x) {
                        let k = choose|k: int| 0 <= k < j + 1 && longer[k] == x;
                        if k < j {
                            assert(head.take(j as int)[k] == x);
                        }
                    }
                }
                if same(note_ids[j].as_str(), note_ids[i].as_str()) {
                    seen = true;
                }
                j = j + 1;
            }
            assert(head.take(i as int) =~= head);
            match get_row(&self.tables.notes, note_ids[i].as_str()) {
                Some(n) => {
                    if !seen {
                        let ghost added = n@;
                        out.push(n);
                        assert(crate::records::views(out@) =~= before.push(added));
                    }
                },
                None => {},
            }
            i = i + 1;
        }
        assert(ids.take(ids.len() as int) =~= ids);
        Ok(out)
    }
}

// ---------------------------------------------------------------------------
// Tags
// ---------------------------------------------------------------------------

/// The rows that say what tags other notes have.
pub open spec fn of_other_notes(note_id: Seq<char>) -> spec_fn(crate::records::NoteTagView) -> bool {
    |t: crate::records::NoteTagView| t.note_id != note_id
}

/// Whether any note has the tag `id`.
pub open spec fn is_used(rows: Seq<crate::records::NoteTagView>, id: Seq<char>) -> bool {
    exists|i: int| 0 <= i < rows.len() && (#[trigger] rows[i]).tag_id == id
}

/// The tags that any note has.
pub open spec fn used_in(rows: Seq<crate::records::NoteTagView>) -> spec_fn(
    crate::records::TagView,
) -> bool {
    |t: crate::records::TagView| is_used(rows, t.id)
}

/// The tag with a name in a project: the one that is there, or a new one with the identifier `id`.
/// Nothing where the identifier is taken.
pub open spec fn tag_for(
    v: crate::schema::StorageView,
    project_id: Seq<char>,
    name: Seq<char>,
    id: Seq<char>,
) -> Option<(crate::schema::StorageView, Seq<char>)> {
    match crate::tables::pair_row(v.tags, project_id, name) {
        Some(t) => Some((v, t.id)),
        None => if crate::tables::has_key(v.tags, id) {
            None
        } else {
            Some(
                (
                    crate::schema::StorageView {
                        tags: v.tags.push(crate::records::TagView { id, project_id, name }),
                        ..v
                    },
                    id,
                ),
            )
        },
    }
}

/// The tables with the tag `tag_id` given to a note that may have it already.
pub open spec fn tag_given(
    v: crate::schema::StorageView,
    note_id: Seq<char>,
    tag_id: Seq<char>,
) -> crate::schema::StorageView {
    if crate::tables::has_pair(v.note_tags, note_id, tag_id) {
        v
    } else {
        crate::schema::StorageView {
            note_tags: v.note_tags.push(crate::records::NoteTagView { note_id, tag_id }),
            ..v
        }
    }
}

/// The tables with the tags `names` given to a note, and whether all could be. The `i`th of `ids`
/// is for a new tag with the `i`th name. Blank names are left out.
pub open spec fn tags_given(
    v: crate::schema::StorageView,
    project_id: Seq<char>,
    note_id: Seq<char>,
    names: Seq<Seq<char>>,
    ids: Seq<Seq<char>>,
) -> (crate::schema::StorageView, bool)
    decreases names.len(),
{
    if names.len() == 0 {
        (v, true)
    } else {
        let (w, ok) = tags_given(v, project_id, note_id, names.drop_last(), ids);
        let name = crate::text::trimmed(names.last());
        if !ok || name.len() == 0 {
            (w, ok)
        } else {
            match tag_for(w, project_id, name, ids[names.len() - 1]) {
                Some((x, tag_id)) => (tag_given(x, note_id, tag_id), true),
                None => (w, false),
            }
        }
    }
}

/// The tables with the tags `names` in place of those that a note has, and whether that could be
/// done. Tags that no note has any more are gone.
pub open spec fn tags_set(
    v: crate::schema::StorageView,
    note: crate::records::NoteView,
    names: Seq<Seq<char>>,
    ids: Seq<Seq<char>>,
) -> (crate::schema::StorageView, bool) {
    let bare = crate::schema::StorageView {
        note_tags: v.note_tags.filter(of_other_notes(note.id)),
        ..v
    };
    let (w, ok) = tags_given(bare, note.project_id, note.id, names, ids);
    if ok {
        (crate::schema::StorageView { tags: w.tags.filter(used_in(w.note_tags)), ..w }, true)
    } else {
        (w, false)
    }
}

fn tag_is_used(rows: &Vec<NoteTag>, id: &str) -> (r: bool)
    ensures
        r == is_used(crate::records::views(rows@), id@),
{
    let ghost all = crate::records::views(rows@);
    let mut i: usize = 0;
    while i < rows.len()
        invariant
            i <= rows@.len(),
            all == crate::records::views(rows@),
            forall|j: int| 0 <= j < i ==> (#[trigger] all[j]).tag_id != id@,
        decreases rows.len() - i,
    {
        assert(all[i as int] == rows@[i as int]@);
        if same(rows[i].tag_id.as_str(), id) {
            return true;
        }
        i = i + 1;
    }
    false
}

impl Storage {
    fn give_tag(&mut self, project_id: &str, note_id: &str, name: &str, id: &str) -> (r: bool)
        requires
            old(self)@.wf(),
            crate::tables::has_key(old(self)@.notes, note_id@),
            crate::tables::has_key(old(self)@.projects, project_id@),
        ensures
            match tag_for(old(self)@, project_id@, name@, id@) {
                Some((x, tag_id)) => r && final(self)@ == tag_given(x, note_id@, tag_id),
                None => !r && final(self)@ == old(self)@,
            },
            final(self)@.wf(),
            final(self)@.notes == old(self)@.notes,
            final(self)@.projects == old(self)@.projects,
    {
        let ghost v = self@;
        proof {
            crate::tables::lemma_pair_row(v.tags, project_id@, name@);
        }
        let tag_id = match find_pair(&self.tables.tags, project_id, name) {
            Some(k) => {
                assert(v.tags[k as int] == self.tables.tags@[k as int]@);
                let found = self.tables.tags[k].id.clone();
                assert(crate::tables::has_key(v.tags, found@)) by {
                    assert(v.tags[k as int].id == found@);
                }
                found
            },
            None => {
                if contains_key(&self.tables.tags, id) {
                    return false;
                }
                let tag = Tag {
                    id: id.to_owned(),
                    project_id: project_id.to_owned(),
                    name: name.to_owned(),
                };
                let ghost t = tag@;
                self.tables.tags.push(tag);
                proof {
                    let x = crate::schema::StorageView { tags: v.tags.push(t), ..v };
                    assert(self@ =~= x);
                    crate::tables::lemma_push_key(v.tags, t);
                    crate::tables::lemma_push_pair(v.tags, t);
                    lemma_refs_grow(v, x);
                    assert forall|i: int| 0 <= i < x.tags.len() implies crate::schema::tag_ok(
                        x,
                        #[trigger] x.tags[i],
                    ) by {
                        if i < v.tags.len() {
                            assert(x.tags[i] == v.tags[i]);
                            assert(crate::schema::tag_ok(v, v.tags[i]));
                        }
                    }
                }
                id.to_owned()
            },
        };
        let ghost x = self@;
        if find_pair(&self.tables.note_tags, note_id, tag_id.as_str()).is_none() {
            let row = NoteTag { note_id: note_id.to_owned(), tag_id };
            let ghost t = row@;
            self.tables.note_tags.push(row);
            proof {
                let w = crate::schema::StorageView { note_tags: x.note_tags.push(t), ..x };
                assert(self@ =~= w);
                crate::tables::lemma_push_pair(x.note_tags, t);
                lemma_refs_grow(x, w);
                assert forall|i: int| 0 <= i < w.note_tags.len() implies crate::schema::note_tag_ok(
                    w,
                    #[trigger] w.note_tags[i],
                ) by {
                    if i < x.note_tags.len() {
                        assert(w.note_tags[i] == x.note_tags[i]);
                        assert(crate::schema::note_tag_ok(x, x.note_tags[i]));
                    }
                }
            }
        }
        true
    }

    /// Gives a note the tags `tag_names` in place of those that it has. The `i`th of `ids` is for
    /// a new tag with the `i`th name.
    pub fn set_note_tags_with(
        &mut self,
        note_id: &str,
        tag_names: &Vec<String>,
        ids: &Vec<String>,
    ) -> (r: StoreResult<()>)
        requires
            old(self)@.wf(),
            ids@.len() == tag_names@.len(),
        ensures
            match crate::tables::row_of(old(self)@.notes, note_id@) {
                None => r matches Err(e) && e.0@ == "Query returned no rows"@ && final(self)@
                    == old(self)@,
                Some(note) => {
                    let (w, ok) = tags_set(
                        old(self)@,
                        note,
                        crate::text::texts(tag_names@),
                        crate::text::texts(ids@),
                    );
                    &&& final(self)@ == w
                    &&& r is Ok <==> ok
                    &&& r matches Err(e) ==> e.0@ == "UNIQUE constraint failed: tags.id"@
                },
            },
            final(self)@.wf(),
    {
        let ghost v = self@;
        let ghost names = crate::text::texts(tag_names@);
        let ghost id_texts = crate::text::texts(ids@);
        proof {
            crate::tables::lemma_row_of(v.notes, note_id@);
        }
        let note = match get_row(&self.tables.notes, note_id) {
            Some(n) => n,
            None => {
                return Err(StoreError::new("Query returned no rows"));
            },
        };
        let project_id = note.project_id;
        let ghost note_view = crate::tables::row_of(v.notes, note_id@)->0;
        let keep = |t: &NoteTag| -> (b: bool)
            ensures
                b == of_other_notes(note_id@)(t@),
        { !same(t.note_id.as_str(), note_id) };
        keep_rows(&mut self.tables.note_tags, keep, Ghost(of_other_notes(note_id@)));
        let ghost bare = self@;
        proof {
            assert(bare =~= (crate::schema::StorageView {
                note_tags: v.note_tags.filter(of_other_notes(note_id@)),
                ..v
            }));
            crate::tables::lemma_unique_pairs_filter(v.note_tags, of_other_notes(note_id@));
            crate::tables::lemma_filter(v.note_tags, of_other_notes(note_id@));
            lemma_refs_grow(v, bare);
            assert forall|i: int| 0 <= i < bare.note_tags.len() implies crate::schema::note_tag_ok(
                bare,
                #[trigger] bare.note_tags[i],
            ) by {
                let j = choose|j: int|
                    0 <= j < v.note_tags.len() && v.note_tags[j] == bare.note_tags[i];
                assert(crate::schema::note_tag_ok(v, v.note_tags[j]));
            }
            let n = choose|n: int| 0 <= n < v.notes.len() && v.notes[n] == note_view;
            assert(crate::schema::note_ok(v, v.notes[n]));
        }
        let mut i: usize = 0;
        while i < tag_names.len()
            invariant
                i <= tag_names@.len(),
                ids@.len() == tag_names@.len(),
                names == crate::text::texts(tag_names@),
                id_texts == crate::text::texts(ids@),
                self@.wf(),
                self@.notes == bare.notes,
                self@.projects == bare.projects,
                crate::tables::has_key(bare.notes, note_id@),
                crate::tables::has_key(bare.projects, project_id@),
                project_id@ == note_view.project_id,
                note_view.id == note_id@,
                Some(note_view) == crate::tables::row_of(old(self)@.notes, note_id@),
                bare == (crate::schema::StorageView {
                    note_tags: old(self)@.note_tags.filter(of_other_notes(note_id@)),
                    ..old(self)@
                }),
                (self@, true) == tags_given(
                    bare,
                    project_id@,
                    note_id@,
                    names.take(i as int),
                    id_texts,
                ),
            decreases tag_names.len() - i,
        {
            proof {
                assert(names.take(i + 1).drop_last() =~= names.take(i as int));
                assert(names.take(i + 1).last() == tag_names@[i as int]@);
                assert(id_texts[i as int] == ids@[i as int]@);
            }
            let name = trim_text(tag_names[i].as_str());
            if !name.as_str().is_empty() {
                let done = self.give_tag(
                    project_id.as_str(),
                    note_id,
                    name.as_str(),
                    ids[i].as_str(),
                );
                if !done {
                    proof {
                        lemma_tags_failed(
                            bare,
                            project_id@,
                            note_id@,
                            names,
                            id_texts,
                            i + 1,
                        );
                    }
                    return Err(StoreError::new("UNIQUE constraint failed: tags.id"));
                }
            }
            i = i + 1;
        }
        assert(names.take(names.len() as int) =~= names);
        let ghost w = self@;
        let note_tags = &self.tables.note_tags;
        let keep = |t: &Tag| -> (b: bool)
            ensures
                b == used_in(crate::records::views(note_tags@))(t@),
        { tag_is_used(note_tags, t.id.as_str()) };
        keep_rows(
            &mut self.tables.tags,
            keep,
            Ghost(used_in(crate::records::views(note_tags@))),
        );
        proof {
            let x = crate::schema::StorageView {
                tags: w.tags.filter(used_in(w.note_tags)),
                ..w
            };
            assert(self@ =~= x);
            lemma_unused_tags_go(w);
        }
        Ok(())
    }

    /// Gives a note the tags `tag_names` in place of those that it has. Blank names are left out,
    /// and tags that no note has any more are deleted.
    pub fn set_note_tags(&mut self, note_id: &str, tag_names: &Vec<String>) -> (r: StoreResult<()>)
        requires
            old(self)@.wf(),
        ensures
            match crate::tables::row_of(old(self)@.notes, note_id@) {
                None => r matches Err(e) && e.0@ == "Query returned no rows"@ && final(self)@
                    == old(self)@,
                Some(note) => exists|ids: Seq<Seq<char>>| #[trigger]
                    crate::session::fresh_ids(ids, tag_names@.len()) && {
                        let (w, ok) = tags_set(
                            old(self)@,
                            note,
                            crate::text::texts(tag_names@),
                            ids,
                        );
                        &&& final(self)@ == w
                        &&& r is Ok <==> ok
                        &&& r matches Err(e) ==> e.0@ == "UNIQUE constraint failed: tags.id"@
                    },
            },
            final(self)@.wf(),
    {
        let ids = new_ids(tag_names.len());
        proof {
            let id_texts = crate::text::texts(ids@);
            assert forall|i: int| 0 <= i < tag_names@.len() implies crate::ids::is_uuid(
                #[trigger] id_texts[i],
            ) by {
                assert(id_texts[i] == ids@[i]@);
            }
            assert(crate::session::fresh_ids(id_texts, tag_names@.len()));
        }
        self.set_note_tags_with(note_id, tag_names, &ids)
    }
}

/// Where giving some of the tags failed, giving all of them did.
proof fn lemma_tags_failed(
    v: crate::schema::StorageView,
    project_id: Seq<char>,
    note_id: Seq<char>,
    names: Seq<Seq<char>>,
    ids: Seq<Seq<char>>,
    n: int,
)
    requires
        0 <= n <= names.len(),
        !tags_given(v, project_id, note_id, names.take(n), ids).1,
    ensures
        tags_given(v, project_id, note_id, names, ids) == tags_given(
            v,
            project_id,
            note_id,
            names.take(n),
            ids,
        ),
    decreases names.len() - n,
{
    if n == names.len() {
        assert(names.take(n) =~= names);
    } else {
        assert(names.take(n + 1).drop_last() =~= names.take(n));
        lemma_tags_failed(v, project_id, note_id, names, ids, n + 1);
    }
}

/// Tags that no note has can go.
proof fn lemma_unused_tags_go(v: crate::schema::StorageView)
    requires
        v.wf(),
    ensures
        (crate::schema::StorageView { tags: v.tags.filter(used_in(v.note_tags)), ..v }).wf(),
{
    let p = used_in(v.note_tags);
    let w = crate::schema::StorageView { tags: v.tags.filter(p), ..v };
    crate::tables::lemma_unique_filter(v.tags, p);
    crate::tables::lemma_unique_pairs_filter(v.tags, p);
    crate::tables::lemma_filter(v.tags, p);
    assert forall|i: int| 0 <= i < w.tags.len() implies crate::schema::tag_ok(
        w,
        #[trigger] w.tags[i],
    ) by {
        let j = choose|j: int| 0 <= j < v.tags.len() && v.tags[j] == w.tags[i];
        assert(crate::schema::tag_ok(v, v.tags[j]));
    }
    assert forall|i: int| 0 <= i < w.note_tags.len() implies crate::schema::note_tag_ok(
        w,
        #[trigger] w.note_tags[i],
    ) by {
        let t = v.note_tags[i];
        assert(crate::schema::note_tag_ok(v, t));
        crate::tables::lemma_key_filter(v.tags, p, t.tag_id);
        crate::tables::lemma_row_of(v.tags, t.tag_id);
        assert(is_used(v.note_tags, t.tag_id));
    }
    assert forall|i: int| 0 <= i < w.notes.len() implies crate::schema::note_ok(
        w,
        #[trigger] w.notes[i],
    ) by {
        assert(crate::schema::note_ok(v, v.notes[i]));
    }
    assert forall|i: int| 0 <= i < w.drafts.len() implies crate::schema::draft_ok(
        w,
        #[trigger] w.drafts[i],
    ) by {
        assert(crate::schema::draft_ok(v, v.drafts[i]));
    }
    assert forall|i: int| 0 <= i < w.draft_notes.len() implies crate::schema::draft_note_ok(
        w,
        #[trigger] w.draft_notes[i],
    ) by {
        assert(crate::schema::draft_note_ok(v, v.draft_notes[i]));
    }
    assert forall|i: int| 0 <= i < w.links.len() implies crate::schema::link_ok(
        w,
        #[trigger] w.links[i],
    ) by {
        assert(crate::schema::link_ok(v, v.links[i]));
    }
    assert forall|i: int| 0 <= i < w.translations.len() implies crate::schema::translation_ok(
        w,
        #[trigger] w.translations[i],
    ) by {
        assert(crate::schema::translation_ok(v, v.translations[i]));
    }
    assert forall|i: int| 0 <= i < w.segments.len() implies crate::schema::segment_ok(
        w,
        #[trigger] w.segments[i],
    ) by {
        assert(crate::schema::segment_ok(v, v.segments[i]));
    }
}

// ---------------------------------------------------------------------------
// Translations
// ---------------------------------------------------------------------------

/// Why a translation cannot be added, if it cannot.
pub open spec fn translation_refusal(
    v: crate::schema::StorageView,
    t: crate::records::TranslationView,
) -> Option<Seq<char>> {
    if crate::tables::has_key(v.translations, t.id) {
        Some("UNIQUE constraint failed: translations.id"@)
    } else if !crate::schema::translation_ok(v, t) {
        Some("FOREIGN KEY constraint failed"@)
    } else {
        None
    }
}

/// The translations that are shown with a project: those of its notes, and those of no note.
pub open spec fn shown_with(notes: Seq<crate::records::NoteView>, project_id: Seq<char>) -> spec_fn(
    crate::records::TranslationView,
) -> bool {
    |t: crate::records::TranslationView|
        match t.note_id {
            None => true,
            Some(n) => match crate::tables::row_of(notes, n) {
                Some(note) => note.project_id == project_id,
                None => false,
            },
        }
}

/// The translations that are not shown with a project.
pub open spec fn not_shown_with(
    notes: Seq<crate::records::NoteView>,
    project_id: Seq<char>,
) -> spec_fn(crate::records::TranslationView) -> bool {
    |t: crate::records::TranslationView| !shown_with(notes, project_id)(t)
}

/// Translations in the order in which they were made, the newest first.
pub open spec fn newest_first() -> spec_fn(
    crate::records::TranslationView,
    crate::records::TranslationView,
) -> bool {
    |a: crate::records::TranslationView, b: crate::records::TranslationView|
        a.created_at >= b.created_at
}

fn is_shown_with(notes: &Vec<Note>, project_id: &str, t: &Translation) -> (r: bool)
    ensures
        r == shown_with(crate::records::views(notes@), project_id@)(t@),
{
    match &t.note_id {
        None => true,
        Some(n) => match find_key(notes, n.as_str()) {
            Some(k) => {
                assert(crate::records::views(notes@)[k as int] == notes@[k as int]@);
                same(notes[k].project_id.as_str(), project_id)
            },
            None => false,
        },
    }
}

impl Storage {
    /// Adds a translation.
    pub fn add_translation(&mut self, translation: &Translation) -> (r: StoreResult<()>)
        requires
            old(self)@.wf(),
        ensures
            match r {
                Ok(_) => translation_refusal(old(self)@, translation@) is None && final(self)@ == (
                crate::schema::StorageView {
                    translations: old(self)@.translations.push(translation@),
                    ..old(self)@
                }),
                Err(e) => translation_refusal(old(self)@, translation@) == Some(e.0@) && final(self)@ == old(self)@,
            },
            final(self)@.wf(),
    {
        let ghost v = self@;
        if contains_key(&self.tables.translations, translation.id.as_str()) {
            return Err(StoreError::new("UNIQUE constraint failed: translations.id"));
        }
        let there = match &translation.note_id {
            Some(n) => contains_key(&self.tables.notes, n.as_str()),
            None => true,
        };
        if !there {
            return Err(StoreError::new("FOREIGN KEY constraint failed"));
        }
        self.tables.translations.push(translation.copy());
        proof {
            let w = crate::schema::StorageView {
                translations: v.translations.push(translation@),
                ..v
            };
            assert(self@ =~= w);
            crate::tables::lemma_push_key(v.translations, translation@);
            lemma_refs_grow(v, w);
            assert forall|i: int|
                0 <= i < w.translations.len() implies crate::schema::translation_ok(
                w,
                #[trigger] w.translations[i],
            ) by {
                if i < v.translations.len() {
                    assert(w.translations[i] == v.translations[i]);
                    assert(crate::schema::translation_ok(v, v.translations[i]));
                }
            }
        }
        Ok(())
    }

    /// The translations that are shown with a project, the newest first.
    pub fn list_translations(&self, project_id: &str) -> (r: StoreResult<Vec<Translation>>)
        ensures
            r matches Ok(list) && crate::records::views(list@) == crate::tables::sorted_by(
                self@.translations.filter(shown_with(self@.notes, project_id@)),
                newest_first(),
            ),
    {
        let notes = &self.tables.notes;
        let keep = |t: &Translation| -> (b: bool)
            ensures
                b == shown_with(crate::records::views(notes@), project_id@)(t@),
        { is_shown_with(notes, project_id, t) };
        let before = |a: &Translation, b: &Translation| -> (x: bool)
            ensures
                x == newest_first()(a@, b@),
        { a.created_at >= b.created_at };
        let rows = select_rows(
            &self.tables.translations,
            keep,
            Ghost(shown_with(self@.notes, project_id@)),
        );
        Ok(sort_rows(rows, before, Ghost(newest_first())))
    }

    /// Deletes a translation.
    pub fn delete_translation(&mut self, id: &str) -> (r: StoreResult<()>)
        requires
            old(self)@.wf(),
        ensures
            r is Ok,
            final(self)@ == (crate::schema::StorageView {
                translations: old(self)@.translations.filter(crate::tables::but(id@)),
                ..old(self)@
            }),
            final(self)@.wf(),
    {
        let ghost v = self@;
        let keep = |t: &Translation| -> (b: bool)
            ensures
                b == crate::tables::but::<crate::records::TranslationView>(id@)(t@),
        { !same(t.id.as_str(), id) };
        keep_rows(&mut self.tables.translations, keep, Ghost(crate::tables::but(id@)));
        proof {
            lemma_translations_go(v, crate::tables::but(id@));
            assert(self@ =~= (crate::schema::StorageView {
                translations: v.translations.filter(crate::tables::but(id@)),
                ..v
            }));
        }
        Ok(())
    }

    /// Deletes the translations that are shown with a project.
    pub fn clear_translations(&mut self, project_id: &str) -> (r: StoreResult<()>)
        requires
            old(self)@.wf(),
        ensures
            r is Ok,
            final(self)@ == (crate::schema::StorageView {
                translations: old(self)@.translations.filter(
                    not_shown_with(old(self)@.notes, project_id@),
                ),
                ..old(self)@
            }),
            final(self)@.wf(),
    {
        let ghost v = self@;
        let notes = &self.tables.notes;
        let keep = |t: &Translation| -> (b: bool)
            ensures
                b == not_shown_with(crate::records::views(notes@), project_id@)(t@),
        { !is_shown_with(notes, project_id, t) };
        let ghost p = not_shown_with(v.notes, project_id@);
        keep_rows(&mut self.tables.translations, keep, Ghost(p));
        proof {
            lemma_translations_go(v, p);
            assert(self@ =~= (crate::schema::StorageView {
                translations: v.translations.filter(p),
                ..v
            }));
        }
        Ok(())
    }
}

/// Translations can go.
proof fn lemma_translations_go(
    v: crate::schema::StorageView,
    p: spec_fn(crate::records::TranslationView) -> bool,
)
    requires
        v.wf(),
    ensures
        (crate::schema::StorageView { translations: v.translations.filter(p), ..v }).wf(),
{
    let w = crate::schema::StorageView { translations: v.translations.filter(p), ..v };
    crate::tables::lemma_unique_filter(v.translations, p);
    crate::tables::lemma_filter(v.translations, p);
    lemma_refs_grow(v, w);
    assert forall|i: int| 0 <= i < w.translations.len() implies crate::schema::translation_ok(
        w,
        #[trigger] w.translations[i],
    ) by {
        let j = choose|j: int|
            0 <= j < v.translations.len() && v.translations[j] == w.translations[i];
        assert(crate::schema::translation_ok(v, v.translations[j]));
    }
}

// ---------------------------------------------------------------------------
// Live sessions
// ---------------------------------------------------------------------------

/// The captions of a session.
pub open spec fn of_session(session_id: Seq<char>) -> spec_fn(
    crate::records::LiveSegmentView,
) -> bool {
    |s: crate::records::LiveSegmentView| s.session_id == session_id
}

/// Captions in their order.
pub open spec fn by_sequence() -> spec_fn(
    crate::records::LiveSegmentView,
    crate::records::LiveSegmentView,
) -> bool {
    |a: crate::records::LiveSegmentView, b: crate::records::LiveSegmentView|
        a.sequence <= b.sequence
}

/// Sessions in the order in which they began, the latest first.
pub open spec fn last_started_first() -> spec_fn(
    crate::records::LiveSessionView,
    crate::records::LiveSessionView,
) -> bool {
    |a: crate::records::LiveSessionView, b: crate::records::LiveSessionView|
        a.started_at >= b.started_at
}

/// The tables with the captions `segments` added to a session, up to the first whose identifier is
/// taken, and whether all could be added.
pub open spec fn segments_added(
    v: crate::schema::StorageView,
    session_id: Seq<char>,
    segments: Seq<crate::records::LiveSegmentView>,
) -> (crate::schema::StorageView, bool)
    decreases segments.len(),
{
    if segments.len() == 0 {
        (v, true)
    } else {
        let (w, ok) = segments_added(v, session_id, segments.drop_last());
        let s = segments.last();
        if !ok || crate::tables::has_key(w.segments, s.id) {
            (w, false)
        } else {
            (
                crate::schema::StorageView {
                    segments: w.segments.push(
                        crate::records::LiveSegmentView { session_id, ..s },
                    ),
                    ..w
                },
                true,
            )
        }
    }
}

/// The tables with a session added. The number of its captions is not kept.
pub open spec fn session_added(
    v: crate::schema::StorageView,
    session: crate::records::LiveSessionView,
) -> crate::schema::StorageView {
    crate::schema::StorageView {
        sessions: v.sessions.push(
            crate::records::LiveSessionView { segment_count: 0, ..session },
        ),
        ..v
    }
}

/// A session with the number of its captions.
pub open spec fn counted(segments: Seq<crate::records::LiveSegmentView>) -> spec_fn(
    crate::records::LiveSessionView,
) -> crate::records::LiveSessionView {
    |s: crate::records::LiveSessionView|
        crate::records::LiveSessionView {
            segment_count: segments.filter(of_session(s.id)).len() as i64,
            ..s
        }
}

/// The tables without the session `id` and its captions.
pub open spec fn session_deleted(v: crate::schema::StorageView, id: Seq<char>) -> crate::schema::StorageView {
    crate::schema::settled(
        crate::schema::StorageView { sessions: v.sessions.filter(crate::tables::but(id)), ..v },
    )
}

/// The change that gives the session `id` another title.
pub open spec fn retitled(id: Seq<char>, title: Seq<char>) -> spec_fn(
    crate::records::LiveSessionView,
) -> crate::records::LiveSessionView {
    |s: crate::records::LiveSessionView|
        if s.id == id {
            crate::records::LiveSessionView { title, ..s }
        } else {
            s
        }
}

impl Storage {
    fn segments_of(&self, id: &str) -> (r: Vec<LiveSegment>)
        ensures
            crate::records::views(r@) == self@.segments.filter(of_session(id@)),
    {
        let keep = |s: &LiveSegment| -> (b: bool)
            ensures
                b == of_session(id@)(s@),
        { same(s.session_id.as_str(), id) };
        select_rows(&self.tables.segments, keep, Ghost(of_session(id@)))
    }

    /// Keeps a finished session and its captions. What was added before a caption whose identifier
    /// is taken stays.
    pub fn save_live_session(&mut self, session: &LiveSession, segments: &Vec<LiveSegment>) -> (r:
        StoreResult<()>)
        requires
            old(self)@.wf(),
        ensures
            if crate::tables::has_key(old(self)@.sessions, session.id@) {
                r matches Err(e) && e.0@ == "UNIQUE constraint failed: live_sessions.id"@
                    && final(self)@ == old(self)@
            } else {
                let (w, ok) = segments_added(
                    session_added(old(self)@, session@),
                    session.id@,
                    crate::records::views(segments@),
                );
                &&& final(self)@ == w
                &&& r is Ok <==> ok
                &&& r matches Err(e) ==> e.0@ == "UNIQUE constraint failed: live_segments.id"@
            },
            final(self)@.wf(),
    {
        let ghost v = self@;
        let ghost all = crate::records::views(segments@);
        if contains_key(&self.tables.sessions, session.id.as_str()) {
            return Err(StoreError::new("UNIQUE constraint failed: live_sessions.id"));
        }
        let mut row = session.copy();
        row.segment_count = 0;
        let ghost s = row@;
        assert(s =~= (crate::records::LiveSessionView { segment_count: 0, ..session@ }));
        self.tables.sessions.push(row);
        let ghost first = self@;
        proof {
            assert(first =~= session_added(v, session@));
            crate::tables::lemma_push_key(v.sessions, s);
            lemma_refs_grow(v, first);
            assert(crate::tables::has_key(first.sessions, session.id@));
        }
        let mut i: usize = 0;
        while i < segments.len()
            invariant
                i <= segments@.len(),
                all == crate::records::views(segments@),
                self@.wf(),
                self@.sessions == first.sessions,
                crate::tables::has_key(first.sessions, session.id@),
                first == session_added(old(self)@, session@),
                !crate::tables::has_key(old(self)@.sessions, session.id@),
                (self@, true) == segments_added(first, session.id@, all.take(i as int)),
            decreases segments.len() - i,
        {
            let ghost w = self@;
            proof {
                assert(all.take(i + 1).drop_last() =~= all.take(i as int));
                assert(all.take(i + 1).last() == segments@[i as int]@);
            }
            if contains_key(&self.tables.segments, segments[i].id.as_str()) {
                proof {
                    lemma_segments_failed(first, session.id@, all, i + 1);
                }
                return Err(StoreError::new("UNIQUE constraint failed: live_segments.id"));
            }
            let mut segment = segments[i].copy();
            segment.session_id = session.id.clone();
            let ghost added = segment@;
            self.tables.segments.push(segment);
            proof {
                let x = crate::schema::StorageView { segments: w.segments.push(added), ..w };
                assert(self@ =~= x);
                crate::tables::lemma_push_key(w.segments, added);
                lemma_refs_grow(w, x);
                assert forall|j: int| 0 <= j < x.segments.len() implies crate::schema::segment_ok(
                    x,
                    #[trigger] x.segments[j],
                ) by {
                    if j < w.segments.len() {
                        assert(x.segments[j] == w.segments[j]);
                        assert(crate::schema::segment_ok(w, w.segments[j]));
                    }
                }
            }
            i = i + 1;
        }
        assert(all.take(all.len() as int) =~= all);
        Ok(())
    }

    /// All sessions with the numbers of their captions, the latest first.
    pub fn list_live_sessions(&self) -> (r: StoreResult<Vec<LiveSession>>)
        ensures
            r matches Ok(list) && crate::records::views(list@) == crate::tables::sorted_by(
                self@.sessions.map_values(counted(self@.segments)),
                last_started_first(),
            ),
    {
        let mut rows = copy_all(&self.tables.sessions);
        let ghost v = self@;
        let change = |s: &LiveSession| -> (r: LiveSession)
            ensures
                r@ == counted(self@.segments)(s@),
        {
            let mut r = s.copy();
            let mine = self.segments_of(s.id.as_str());
            assert(crate::records::views(mine@).len() == mine@.len());
            r.segment_count = mine.len() as i64;
            r
        };
        change_rows(&mut rows, change, Ghost(counted(v.segments)));
        let before = |a: &LiveSession, b: &LiveSession| -> (x: bool)
            ensures
                x == last_started_first()(a@, b@),
        { a.started_at >= b.started_at };
        Ok(sort_rows(rows, before, Ghost(last_started_first())))
    }

    /// The session `id` with its captions in their order.
    pub fn get_live_session(&self, id: &str) -> (r: StoreResult<Option<LiveSessionDetail>>)
        ensures
            match r {
                Ok(Some(d)) => crate::tables::row_of(self@.sessions, id@) matches Some(s)
                    && crate::records::views(d.segments@) == crate::tables::sorted_by(
                    self@.segments.filter(of_session(id@)),
                    by_sequence(),
                ) && d.session@ == (crate::records::LiveSessionView {
                    segment_count: d.segments@.len() as i64,
                    ..s
                }),
                Ok(None) => crate::tables::row_of(self@.sessions, id@) is None,
                Err(_) => false,
            },
    {
        match get_row(&self.tables.sessions, id) {
            Some(s) => {
                let before = |a: &LiveSegment, b: &LiveSegment| -> (x: bool)
                    ensures
                        x == by_sequence()(a@, b@),
                { a.sequence <= b.sequence };
                let segments = sort_rows(self.segments_of(id), before, Ghost(by_sequence()));
                let mut session = s;
                session.segment_count = segments.len() as i64;
                Ok(Some(LiveSessionDetail { session, segments }))
            },
            None => Ok(None),
        }
    }

    /// Deletes a session with its captions.
    pub fn delete_live_session(&mut self, id: &str) -> (r: StoreResult<()>)
        requires
            old(self)@.wf(),
        ensures
            r is Ok,
            final(self)@ == session_deleted(old(self)@, id@),
            final(self)@.wf(),
    {
        let ghost v = self@;
        let keep = |s: &LiveSession| -> (b: bool)
            ensures
                b == crate::tables::but::<crate::records::LiveSessionView>(id@)(s@),
        { !same(s.id.as_str(), id) };
        keep_rows(&mut self.tables.sessions, keep, Ghost(crate::tables::but(id@)));
        proof {
            crate::tables::lemma_unique_filter(v.sessions, crate::tables::but(id@));
            assert(self@ =~= (crate::schema::StorageView {
                sessions: v.sessions.filter(crate::tables::but(id@)),
                ..v
            }));
        }
        self.tables.settle();
        Ok(())
    }

    /// Gives a session another title.
    pub fn rename_live_session(&mut self, id: &str, title: &str) -> (r: StoreResult<()>)
        requires
            old(self)@.wf(),
        ensures
            r is Ok,
            final(self)@ == (crate::schema::StorageView {
                sessions: old(self)@.sessions.map_values(retitled(id@, title@)),
                ..old(self)@
            }),
            final(self)@.wf(),
    {
        let ghost v = self@;
        let change = |s: &LiveSession| -> (r: LiveSession)
            ensures
                r@ == retitled(id@, title@)(s@),
        {
            let mut r = s.copy();
            if same(s.id.as_str(), id) {
                r.title = title.to_owned();
            }
            r
        };
        let ghost g = retitled(id@, title@);
        change_rows(&mut self.tables.sessions, change, Ghost(g));
        proof {
            let w = crate::schema::StorageView { sessions: v.sessions.map_values(g), ..v };
            assert(self@ =~= w);
            crate::tables::lemma_change_keys(v.sessions, g);
            lemma_refs_grow(v, w);
        }
        Ok(())
    }
}

/// Where adding some of the captions failed, adding all of them did.
proof fn lemma_segments_failed(
    v: crate::schema::StorageView,
    session_id: Seq<char>,
    segments: Seq<crate::records::LiveSegmentView>,
    n: int,
)
    requires
        0 <= n <= segments.len(),
        !segments_added(v, session_id, segments.take(n)).1,
    ensures
        segments_added(v, session_id, segments) == segments_added(v, session_id, segments.take(n)),
    decreases segments.len() - n,
{
    if n == segments.len() {
        assert(segments.take(n) =~= segments);
    } else {
        assert(segments.take(n + 1).drop_last() =~= segments.take(n));
        lemma_segments_failed(v, session_id, segments, n + 1);
    }
}

// ---------------------------------------------------------------------------
// Drafts
// ---------------------------------------------------------------------------

/// A draft as it is made.
pub open spec fn new_draft(
    id: Seq<char>,
    project_id: Seq<char>,
    title: Seq<char>,
    content: Seq<char>,
    now: i64,
) -> crate::records::DraftView {
    crate::records::DraftView { id, project_id, title, content, created_at: now, updated_at: now }
}

/// The tables with `note_ids` as further notes of a draft, up to the first that is not there, and
/// whether all could be added. A note that the draft has already keeps its place.
pub open spec fn draft_notes_added(
    v: crate::schema::StorageView,
    draft_id: Seq<char>,
    note_ids: Seq<Seq<char>>,
) -> (crate::schema::StorageView, bool)
    decreases note_ids.len(),
{
    if note_ids.len() == 0 {
        (v, true)
    } else {
        let (w, ok) = draft_notes_added(v, draft_id, note_ids.drop_last());
        let note_id = note_ids.last();
        if !ok {
            (w, false)
        } else if crate::tables::has_pair(w.draft_notes, draft_id, note_id) {
            (w, true)
        } else if crate::tables::has_key(w.drafts, draft_id) && crate::tables::has_key(
            w.notes,
            note_id,
        ) {
            (
                crate::schema::StorageView {
                    draft_notes: w.draft_notes.push(
                        crate::records::DraftNoteView {
                            draft_id,
                            note_id,
                            position: (note_ids.len() - 1) as i64,
                        },
                    ),
                    ..w
                },
                true,
            )
        } else {
            (w, false)
        }
    }
}

/// What making a draft comes to: the tables after it, and why it failed, if it did. Where a note is
/// not there, the draft and the notes before it stay.
pub open spec fn draft_created(
    v: crate::schema::StorageView,
    draft: crate::records::DraftView,
    note_ids: Seq<Seq<char>>,
) -> (crate::schema::StorageView, Option<Seq<char>>) {
    if crate::tables::has_key(v.drafts, draft.id) {
        (v, Some("UNIQUE constraint failed: drafts.id"@))
    } else if !crate::tables::has_key(v.projects, draft.project_id) {
        (v, Some("FOREIGN KEY constraint failed"@))
    } else {
        let (w, ok) = draft_notes_added(
            crate::schema::StorageView { drafts: v.drafts.push(draft), ..v },
            draft.id,
            note_ids,
        );
        (
            w,
            if ok {
                None
            } else {
                Some("FOREIGN KEY constraint failed"@)
            },
        )
    }
}

/// The change that gives the draft `id` another title and content.
pub open spec fn redrafted(id: Seq<char>, title: Seq<char>, content: Seq<char>, now: i64) -> spec_fn(
    crate::records::DraftView,
) -> crate::records::DraftView {
    |d: crate::records::DraftView|
        if d.id == id {
            crate::records::DraftView { title, content, updated_at: now, ..d }
        } else {
            d
        }
}

/// The tables without the draft `id` and its list of notes.
pub open spec fn draft_deleted(v: crate::schema::StorageView, id: Seq<char>) -> crate::schema::StorageView {
    crate::schema::settled(
        crate::schema::StorageView { drafts: v.drafts.filter(crate::tables::but(id)), ..v },
    )
}

/// The drafts of a project.
pub open spec fn drafts_of(project_id: Seq<char>) -> spec_fn(crate::records::DraftView) -> bool {
    |d: crate::records::DraftView| d.project_id == project_id
}

/// Drafts in the order of their last change, the latest first.
pub open spec fn last_drafted_first() -> spec_fn(
    crate::records::DraftView,
    crate::records::DraftView,
) -> bool {
    |a: crate::records::DraftView, b: crate::records::DraftView| a.updated_at >= b.updated_at
}

/// The notes of a draft.
pub open spec fn of_draft(draft_id: Seq<char>) -> spec_fn(crate::records::DraftNoteView) -> bool {
    |d: crate::records::DraftNoteView| d.draft_id == draft_id
}

/// The notes of other drafts.
pub open spec fn of_other_drafts(draft_id: Seq<char>) -> spec_fn(
    crate::records::DraftNoteView,
) -> bool {
    |d: crate::records::DraftNoteView| d.draft_id != draft_id
}

/// The notes of drafts in the order of their places.
pub open spec fn by_draft_place() -> spec_fn(
    crate::records::DraftNoteView,
    crate::records::DraftNoteView,
) -> bool {
    |a: crate::records::DraftNoteView, b: crate::records::DraftNoteView| a.position <= b.position
}

/// The identifiers of the notes of a draft, in the order of their places.
pub open spec fn draft_note_ids(v: crate::schema::StorageView, draft_id: Seq<char>) -> Seq<
    Seq<char>,
> {
    crate::tables::sorted_by(v.draft_notes.filter(of_draft(draft_id)), by_draft_place()).map_values(
        |d: crate::records::DraftNoteView| d.note_id,
    )
}

/// A draft with the notes that it was made of.
pub open spec fn with_notes(v: crate::schema::StorageView) -> spec_fn(
    crate::records::DraftView,
) -> crate::records::DraftWithNotesView {
    |d: crate::records::DraftView|
        crate::records::DraftWithNotesView { draft: d, note_ids: draft_note_ids(v, d.id) }
}

/// Where adding some of the notes failed, adding all of them did.
proof fn lemma_draft_notes_failed(
    v: crate::schema::StorageView,
    draft_id: Seq<char>,
    note_ids: Seq<Seq<char>>,
    n: int,
)
    requires
        0 <= n <= note_ids.len(),
        !draft_notes_added(v, draft_id, note_ids.take(n)).1,
    ensures
        draft_notes_added(v, draft_id, note_ids) == draft_notes_added(
            v,
            draft_id,
            note_ids.take(n),
        ),
    decreases note_ids.len() - n,
{
    if n == note_ids.len() {
        assert(note_ids.take(n) =~= note_ids);
    } else {
        assert(note_ids.take(n + 1).drop_last() =~= note_ids.take(n));
        lemma_draft_notes_failed(v, draft_id, note_ids, n + 1);
    }
}

impl Storage {
    fn add_draft_notes(&mut self, draft_id: &str, note_ids: &Vec<String>) -> (r: bool)
        requires
            old(self)@.wf(),
        ensures
            (final(self)@, r) == draft_notes_added(
                old(self)@,
                draft_id@,
                crate::text::texts(note_ids@),
            ),
            final(self)@.wf(),
    {
        let ghost v = self@;
        let ghost ids = crate::text::texts(note_ids@);
        let mut i: usize = 0;
        while i < note_ids.len()
            invariant
                i <= note_ids@.len(),
                ids == crate::text::texts(note_ids@),
                v == old(self)@,
                self@.wf(),
                (self@, true) == draft_notes_added(v, draft_id@, ids.take(i as int)),
            decreases note_ids.len() - i,
        {
            let ghost w = self@;
            proof {
                assert(ids.take(i + 1).drop_last() =~= ids.take(i as int));
                assert(ids.take(i + 1).last() == note_ids@[i as int]@);
            }
            let note_id = note_ids[i].as_str();
            if find_pair(&self.tables.draft_notes, draft_id, note_id).is_none() {
                if !contains_key(&self.tables.drafts, draft_id) || !contains_key(
                    &self.tables.notes,
                    note_id,
                ) {
                    proof {
                        lemma_draft_notes_failed(v, draft_id@, ids, i + 1);
                    }
                    return false;
                }
                let row = DraftNote {
                    draft_id: draft_id.to_owned(),
                    note_id: note_id.to_owned(),
                    position: i as i64,
                };
                let ghost d = row@;
                self.tables.draft_notes.push(row);
                proof {
                    let x = crate::schema::StorageView {
                        draft_notes: w.draft_notes.push(d),
                        ..w
                    };
                    assert(self@ =~= x);
                    crate::tables::lemma_push_pair(w.draft_notes, d);
                    lemma_refs_grow(w, x);
                    assert forall|j: int|
                        0 <= j < x.draft_notes.len() implies crate::schema::draft_note_ok(
                        x,
                        #[trigger] x.draft_notes[j],
                    ) by {
                        if j < w.draft_notes.len() {
                            assert(x.draft_notes[j] == w.draft_notes[j]);
                            assert(crate::schema::draft_note_ok(w, w.draft_notes[j]));
                        }
                    }
                }
            }
            i = i + 1;
        }
        assert(ids.take(ids.len() as int) =~= ids);
        true
    }

    /// Makes a draft with the given identifier at the given time.
    pub fn create_draft_with(
        &mut self,
        id: String,
        now: i64,
        project_id: &str,
        title: &str,
        content: &str,
        note_ids: &Vec<String>,
    ) -> (r: StoreResult<Draft>)
        requires
            old(self)@.wf(),
        ensures
            ({
                let draft = new_draft(id@, project_id@, title@, content@, now);
                let (w, refusal) = draft_created(
                    old(self)@,
                    draft,
                    crate::text::texts(note_ids@),
                );
                &&& final(self)@ == w
                &&& store_view(r) == match refusal {
                    None => Ok(draft),
                    Some(message) => Err(message),
                }
            }),
            final(self)@.wf(),
    {
        let ghost v = self@;
        if contains_key(&self.tables.drafts, id.as_str()) {
            return Err(StoreError::new("UNIQUE constraint failed: drafts.id"));
        }
        if !contains_key(&self.tables.projects, project_id) {
            return Err(StoreError::new("FOREIGN KEY constraint failed"));
        }
        let draft = Draft {
            id,
            project_id: project_id.to_owned(),
            title: title.to_owned(),
            content: content.to_owned(),
            created_at: now,
            updated_at: now,
        };
        self.tables.drafts.push(draft.copy());
        proof {
            let w = crate::schema::StorageView { drafts: v.drafts.push(draft@), ..v };
            assert(self@ =~= w);
            crate::tables::lemma_push_key(v.drafts, draft@);
            lemma_refs_grow(v, w);
            assert forall|i: int| 0 <= i < w.drafts.len() implies crate::schema::draft_ok(
                w,
                #[trigger] w.drafts[i],
            ) by {
                if i < v.drafts.len() {
                    assert(w.drafts[i] == v.drafts[i]);
                    assert(crate::schema::draft_ok(v, v.drafts[i]));
                }
            }
        }
        if self.add_draft_notes(draft.id.as_str(), note_ids) {
            Ok(draft)
        } else {
            Err(StoreError::new("FOREIGN KEY constraint failed"))
        }
    }

    /// Makes a draft of the given notes.
    pub fn create_draft(
        &mut self,
        project_id: &str,
        title: &str,
        content: &str,
        note_ids: &Vec<String>,
    ) -> (r: StoreResult<Draft>)
        requires
            old(self)@.wf(),
        ensures
            exists|id: Seq<char>, now: i64|
                crate::ids::is_uuid(id) && crate::ids::is_reading(now) && {
                    let draft = #[trigger] new_draft(id, project_id@, title@, content@, now);
                    let (w, refusal) = draft_created(
                        old(self)@,
                        draft,
                        crate::text::texts(note_ids@),
                    );
                    &&& final(self)@ == w
                    &&& store_view(r) == match refusal {
                        None => Ok(draft),
                        Some(message) => Err(message),
                    }
                },
            final(self)@.wf(),
    {
        let id = new_id();
        let now: i64 = now_ms();
        let ghost draft = new_draft(id@, project_id@, title@, content@, now);
        self.create_draft_with(id, now, project_id, title, content, note_ids)
    }

    /// Gives a draft another title and content at the given time.
    pub fn update_draft_at(&mut self, id: &str, title: &str, content: &str, now: i64) -> (r:
        StoreResult<()>)
        requires
            old(self)@.wf(),
        ensures
            r is Ok,
            final(self)@ == (crate::schema::StorageView {
                drafts: old(self)@.drafts.map_values(redrafted(id@, title@, content@, now)),
                ..old(self)@
            }),
            final(self)@.wf(),
    {
        let ghost v = self@;
        let change = |d: &Draft| -> (r: Draft)
            ensures
                r@ == redrafted(id@, title@, content@, now)(d@),
        {
            let mut r = d.copy();
            if same(d.id.as_str(), id) {
                r.title = title.to_owned();
                r.content = content.to_owned();
                r.updated_at = now;
            }
            r
        };
        let ghost g = redrafted(id@, title@, content@, now);
        change_rows(&mut self.tables.drafts, change, Ghost(g));
        proof {
            let w = crate::schema::StorageView { drafts: v.drafts.map_values(g), ..v };
            assert(self@ =~= w);
            crate::tables::lemma_change_keys(v.drafts, g);
            lemma_refs_grow(v, w);
            assert forall|i: int| 0 <= i < w.drafts.len() implies crate::schema::draft_ok(
                w,
                #[trigger] w.drafts[i],
            ) by {
                assert(w.drafts[i] == g(v.drafts[i]));
                assert(crate::schema::draft_ok(v, v.drafts[i]));
            }
        }
        Ok(())
    }

    /// Gives a draft another title and content.
    pub fn update_draft(&mut self, id: &str, title: &str, content: &str) -> (r: StoreResult<()>)
        requires
            old(self)@.wf(),
        ensures
            r is Ok,
            exists|now: i64|
                crate::ids::is_reading(now) && final(self)@ == (crate::schema::StorageView {
                    drafts: old(self)@.drafts.map_values(
                        #[trigger] redrafted(id@, title@, content@, now),
                    ),
                    ..old(self)@
                }),
            final(self)@.wf(),
    {
        let now: i64 = now_ms();
        self.update_draft_at(id, title, content, now)
    }

    /// Deletes a draft.
    pub fn delete_draft(&mut self, id: &str) -> (r: StoreResult<()>)
        requires
            old(self)@.wf(),
        ensures
            r is Ok,
            final(self)@ == draft_deleted(old(self)@, id@),
            final(self)@.wf(),
    {
        let ghost v = self@;
        let keep = |d: &Draft| -> (b: bool)
            ensures
                b == crate::tables::but::<crate::records::DraftView>(id@)(d@),
        { !same(d.id.as_str(), id) };
        keep_rows(&mut self.tables.drafts, keep, Ghost(crate::tables::but(id@)));
        proof {
            crate::tables::lemma_unique_filter(v.drafts, crate::tables::but(id@));
            assert(self@ =~= (crate::schema::StorageView {
                drafts: v.drafts.filter(crate::tables::but(id@)),
                ..v
            }));
        }
        self.tables.settle();
        Ok(())
    }

    fn notes_of_draft(&self, draft_id: &str) -> (r: Vec<String>)
        ensures
            crate::text::texts(r@) == draft_note_ids(self@, draft_id@),
    {
        let keep = |d: &DraftNote| -> (b: bool)
            ensures
                b == of_draft(draft_id@)(d@),
        { same(d.draft_id.as_str(), draft_id) };
        let before = |a: &DraftNote, b: &DraftNote| -> (x: bool)
            ensures
                x == by_draft_place()(a@, b@),
        { a.position <= b.position };
        let rows = sort_rows(
            select_rows(&self.tables.draft_notes, keep, Ghost(of_draft(draft_id@))),
            before,
            Ghost(by_draft_place()),
        );
        let ghost rv = crate::records::views(rows@);
        let mut out: Vec<String> = Vec::new();
        let mut i: usize = 0;
        while i < rows.len()
            invariant
                i <= rows@.len(),
                rv == crate::records::views(rows@),
                out@.len() == i,
                forall|j: int| 0 <= j < i ==> (#[trigger] out@[j])@ == rv[j].note_id,
            decreases rows.len() - i,
        {
            assert(rv[i as int] == rows@[i as int]@);
            out.push(rows[i].note_id.clone());
            i = i + 1;
        }
        assert(crate::text::texts(out@) =~= draft_note_ids(self@, draft_id@));
        out
    }

    /// The drafts of a project with their notes, those last worked on first.
    pub fn list_drafts(&self, project_id: &str) -> (r: StoreResult<Vec<DraftWithNotes>>)
        ensures
            r matches Ok(list) && crate::records::views(list@) == crate::tables::sorted_by(
                self@.drafts.filter(drafts_of(project_id@)),
                last_drafted_first(),
            ).map_values(with_notes(self@)),
    {
        let keep = |d: &Draft| -> (b: bool)
            ensures
                b == drafts_of(project_id@)(d@),
        { same(d.project_id.as_str(), project_id) };
        let before = |a: &Draft, b: &Draft| -> (x: bool)
            ensures
                x == last_drafted_first()(a@, b@),
        { a.updated_at >= b.updated_at };
        let drafts = sort_rows(
            select_rows(&self.tables.drafts, keep, Ghost(drafts_of(project_id@))),
            before,
            Ghost(last_drafted_first()),
        );
        let ghost dv = crate::records::views(drafts@);
        let mut out: Vec<DraftWithNotes> = Vec::new();
        let mut i: usize = 0;
        while i < drafts.len()
            invariant
                i <= drafts@.len(),
                dv == crate::records::views(drafts@),
                out@.len() == i,
                forall|j: int| 0 <= j < i ==> (#[trigger] out@[j])@ == with_notes(self@)(dv[j]),
            decreases drafts.len() - i,
        {
            assert(dv[i as int] == drafts@[i as int]@);
            let note_ids = self.notes_of_draft(drafts[i].id.as_str());
            out.push(DraftWithNotes { draft: drafts[i].copy(), note_ids });
            i = i + 1;
        }
        assert(crate::records::views(out@) =~= dv.map_values(with_notes(self@)));
        Ok(out)
    }

    /// The draft `id` with its notes.
    pub fn get_draft(&self, id: &str) -> (r: StoreResult<Option<DraftWithNotes>>)
        ensures
            match r {
                Ok(Some(d)) => crate::tables::row_of(self@.drafts, id@) matches Some(row) && d@
                    == with_notes(self@)(row),
                Ok(None) => crate::tables::row_of(self@.drafts, id@) is None,
                Err(_) => false,
            },
    {
        proof {
            crate::tables::lemma_row_of(self@.drafts, id@);
        }
        match get_row(&self.tables.drafts, id) {
            Some(draft) => {
                let note_ids = self.notes_of_draft(id);
                Ok(Some(DraftWithNotes { draft, note_ids }))
            },
            None => Ok(None),
        }
    }

    /// Gives a draft the notes `note_ids` in place of those that it has. Where a note is not there,
    /// those before it stay.
    pub fn set_draft_notes(&mut self, draft_id: &str, note_ids: &Vec<String>) -> (r: StoreResult<
        (),
    >)
        requires
            old(self)@.wf(),
        ensures
            ({
                let (w, ok) = draft_notes_added(
                    crate::schema::StorageView {
                        draft_notes: old(self)@.draft_notes.filter(of_other_drafts(draft_id@)),
                        ..old(self)@
                    },
                    draft_id@,
                    crate::text::texts(note_ids@),
                );
                &&& final(self)@ == w
                &&& r is Ok <==> ok
                &&& r matches Err(e) ==> e.0@ == "FOREIGN KEY constraint failed"@
            }),
            final(self)@.wf(),
    {
        let ghost v = self@;
        let keep = |d: &DraftNote| -> (b: bool)
            ensures
                b == of_other_drafts(draft_id@)(d@),
        { !same(d.draft_id.as_str(), draft_id) };
        let ghost p = of_other_drafts(draft_id@);
        keep_rows(&mut self.tables.draft_notes, keep, Ghost(p));
        proof {
            let w = crate::schema::StorageView { draft_notes: v.draft_notes.filter(p), ..v };
            assert(self@ =~= w);
            crate::tables::lemma_unique_pairs_filter(v.draft_notes, p);
            crate::tables::lemma_filter(v.draft_notes, p);
            lemma_refs_grow(v, w);
            assert forall|i: int|
                0 <= i < w.draft_notes.len() implies crate::schema::draft_note_ok(
                w,
                #[trigger] w.draft_notes[i],
            ) by {
                let j = choose|j: int|
                    0 <= j < v.draft_notes.len() && v.draft_notes[j] == w.draft_notes[i];
                assert(crate::schema::draft_note_ok(v, v.draft_notes[j]));
            }
        }
        if self.add_draft_notes(draft_id, note_ids) {
            Ok(())
        } else {
            Err(StoreError::new("FOREIGN KEY constraint failed"))
        }
    }
}

// ---------------------------------------------------------------------------
// Links
// ---------------------------------------------------------------------------

/// What drawing a link comes to: the tables after it, and the link, or why there is none. Between
/// two notes there is one link in each direction: where it is there already, it is given back as
/// it is.
pub open spec fn link_drawn(
    v: crate::schema::StorageView,
    link: crate::records::NoteLinkView,
) -> (crate::schema::StorageView, Result<crate::records::NoteLinkView, Seq<char>>) {
    if link.from_note_id == link.to_note_id {
        (v, Err("cannot link a note to itself"@))
    } else {
        match crate::tables::pair_row(v.links, link.from_note_id, link.to_note_id) {
            Some(l) => (v, Ok(l)),
            None => if crate::tables::has_key(v.links, link.id) {
                (v, Err("Query returned no rows"@))
            } else if !crate::schema::link_ok(v, link) {
                (v, Err("FOREIGN KEY constraint failed"@))
            } else {
                (crate::schema::StorageView { links: v.links.push(link), ..v }, Ok(link))
            },
        }
    }
}

/// A link as it is drawn.
pub open spec fn new_link(
    id: Seq<char>,
    from_note_id: Seq<char>,
    to_note_id: Seq<char>,
    label: Option<Seq<char>>,
    now: i64,
) -> crate::records::NoteLinkView {
    crate::records::NoteLinkView { id, from_note_id, to_note_id, label, created_at: now }
}

/// The links from a note.
pub open spec fn links_from(note_id: Seq<char>) -> spec_fn(crate::records::NoteLinkView) -> bool {
    |l: crate::records::NoteLinkView| l.from_note_id == note_id
}

/// The links to a note.
pub open spec fn links_to(note_id: Seq<char>) -> spec_fn(crate::records::NoteLinkView) -> bool {
    |l: crate::records::NoteLinkView| l.to_note_id == note_id
}

/// The note at the other end of a link.
pub open spec fn linked_note(
    notes: Seq<crate::records::NoteView>,
    id: Seq<char>,
    label: Option<Seq<char>>,
    direction: Seq<char>,
) -> crate::records::LinkedNoteView {
    let n = crate::tables::row_of(notes, id);
    crate::records::LinkedNoteView {
        id,
        title: match n {
            Some(n) => n.title,
            None => Seq::empty(),
        },
        text: match n {
            Some(n) => n.text,
            None => Seq::empty(),
        },
        label,
        direction,
    }
}

/// The notes that a note links to, then those that link to it.
pub open spec fn linked_notes(v: crate::schema::StorageView, note_id: Seq<char>) -> Seq<
    crate::records::LinkedNoteView,
> {
    v.links.filter(links_from(note_id)).map_values(
        |l: crate::records::NoteLinkView|
            linked_note(v.notes, l.to_note_id, l.label, "out"@),
    ) + v.links.filter(links_to(note_id)).map_values(
        |l: crate::records::NoteLinkView|
            linked_note(v.notes, l.from_note_id, l.label, "in"@),
    )
}

/// The links from notes of a project.
pub open spec fn links_of(notes: Seq<crate::records::NoteView>, project_id: Seq<char>) -> spec_fn(
    crate::records::NoteLinkView,
) -> bool {
    |l: crate::records::NoteLinkView|
        match crate::tables::row_of(notes, l.from_note_id) {
            Some(n) => n.project_id == project_id,
            None => false,
        }
}

/// Links in the order in which they were drawn.
pub open spec fn first_drawn_first() -> spec_fn(
    crate::records::NoteLinkView,
    crate::records::NoteLinkView,
) -> bool {
    |a: crate::records::NoteLinkView, b: crate::records::NoteLinkView| a.created_at <= b.created_at
}

/// The links from notes of a project, in the order in which they were drawn.
pub open spec fn listed_links(v: crate::schema::StorageView, project_id: Seq<char>) -> Seq<
    crate::records::NoteLinkView,
> {
    crate::tables::sorted_by(v.links.filter(links_of(v.notes, project_id)), first_drawn_first())
}

impl Storage {
    /// Draws a link with the given identifier at the given time.
    pub fn add_note_link_with(
        &mut self,
        id: String,
        now: i64,
        from_note_id: &str,
        to_note_id: &str,
        label: Option<&str>,
    ) -> (r: StoreResult<NoteLink>)
        requires
            old(self)@.wf(),
        ensures
            (final(self)@, store_view(r)) == link_drawn(
                old(self)@,
                new_link(
                    id@,
                    from_note_id@,
                    to_note_id@,
                    crate::text::opt_str_view(label),
                    now,
                ),
            ),
            final(self)@.wf(),
    {
        let ghost v = self@;
        if same(from_note_id, to_note_id) {
            return Err(StoreError::new("cannot link a note to itself"));
        }
        proof {
            crate::tables::lemma_pair_row(v.links, from_note_id@, to_note_id@);
        }
        match find_pair(&self.tables.links, from_note_id, to_note_id) {
            Some(k) => {
                assert(v.links[k as int] == self.tables.links@[k as int]@);
                Ok(self.tables.links[k].copy())
            },
            None => {
                if contains_key(&self.tables.links, id.as_str()) {
                    return Err(StoreError::new("Query returned no rows"));
                }
                if !contains_key(&self.tables.notes, from_note_id) || !contains_key(
                    &self.tables.notes,
                    to_note_id,
                ) {
                    return Err(StoreError::new("FOREIGN KEY constraint failed"));
                }
                let link = NoteLink {
                    id,
                    from_note_id: from_note_id.to_owned(),
                    to_note_id: to_note_id.to_owned(),
                    label: own_opt(label),
                    created_at: now,
                };
                self.tables.links.push(link.copy());
                proof {
                    let w = crate::schema::StorageView { links: v.links.push(link@), ..v };
                    assert(self@ =~= w);
                    crate::tables::lemma_push_key(v.links, link@);
                    crate::tables::lemma_push_pair(v.links, link@);
                    lemma_refs_grow(v, w);
                    assert forall|i: int| 0 <= i < w.links.len() implies crate::schema::link_ok(
                        w,
                        #[trigger] w.links[i],
                    ) by {
                        if i < v.links.len() {
                            assert(w.links[i] == v.links[i]);
                            assert(crate::schema::link_ok(v, v.links[i]));
                        }
                    }
                }
                Ok(link)
            },
        }
    }

    /// Draws a link from one note to another. Where there is one already, it is given back.
    pub fn add_note_link(&mut self, from_note_id: &str, to_note_id: &str, label: Option<&str>) -> (r:
        StoreResult<NoteLink>)
        requires
            old(self)@.wf(),
        ensures
            exists|id: Seq<char>, now: i64|
                crate::ids::is_uuid(id) && crate::ids::is_reading(now) && (
                    final(self)@,
                    store_view(r),
                ) == link_drawn(
                    old(self)@,
                    #[trigger] new_link(
                        id,
                        from_note_id@,
                        to_note_id@,
                        crate::text::opt_str_view(label),
                        now,
                    ),
                ),
            final(self)@.wf(),
    {
        let id = new_id();
        let now: i64 = now_ms();
        let ghost link = new_link(
            id@,
            from_note_id@,
            to_note_id@,
            crate::text::opt_str_view(label),
            now,
        );
        self.add_note_link_with(id, now, from_note_id, to_note_id, label)
    }

    /// Deletes a link.
    pub fn delete_note_link(&mut self, id: &str) -> (r: StoreResult<()>)
        requires
            old(self)@.wf(),
        ensures
            r is Ok,
            final(self)@ == (crate::schema::StorageView {
                links: old(self)@.links.filter(crate::tables::but(id@)),
                ..old(self)@
            }),
            final(self)@.wf(),
    {
        let ghost v = self@;
        let keep = |l: &NoteLink| -> (b: bool)
            ensures
                b == crate::tables::but::<crate::records::NoteLinkView>(id@)(l@),
        { !same(l.id.as_str(), id) };
        let ghost p = crate::tables::but::<crate::records::NoteLinkView>(id@);
        keep_rows(&mut self.tables.links, keep, Ghost(p));
        proof {
            let w = crate::schema::StorageView { links: v.links.filter(p), ..v };
            assert(self@ =~= w);
            crate::tables::lemma_unique_filter(v.links, p);
            crate::tables::lemma_unique_pairs_filter(v.links, p);
            crate::tables::lemma_filter(v.links, p);
            lemma_refs_grow(v, w);
            assert forall|i: int| 0 <= i < w.links.len() implies crate::schema::link_ok(
                w,
                #[trigger] w.links[i],
            ) by {
                let j = choose|j: int| 0 <= j < v.links.len() && v.links[j] == w.links[i];
                assert(crate::schema::link_ok(v, v.links[j]));
            }
        }
        Ok(())
    }

    fn note_at_end(&self, id: &String, label: &Option<String>, direction: &str) -> (r: LinkedNote)
        ensures
            r@ == linked_note(
                self@.notes,
                id@,
                crate::text::opt_view(*label),
                direction@,
            ),
    {
        let mut title = String::new();
        let mut text = String::new();
        assert(title@ =~= Seq::empty());
        assert(text@ =~= Seq::empty());
        if let Some(k) = find_key(&self.tables.notes, id.as_str()) {
            assert(self@.notes[k as int] == self.tables.notes@[k as int]@);
            title = self.tables.notes[k].title.clone();
            text = self.tables.notes[k].text.clone();
        }
        LinkedNote {
            id: id.clone(),
            title,
            text,
            label: copy_opt(label),
            direction: direction.to_owned(),
        }
    }

    /// The notes that a note is linked with, in either direction.
    pub fn list_linked_notes(&self, note_id: &str) -> (r: StoreResult<Vec<LinkedNote>>)
        ensures
            r matches Ok(list) && crate::records::views(list@) == linked_notes(self@, note_id@),
    {
        let from = |l: &NoteLink| -> (b: bool)
            ensures
                b == links_from(note_id@)(l@),
        { same(l.from_note_id.as_str(), note_id) };
        let to = |l: &NoteLink| -> (b: bool)
            ensures
                b == links_to(note_id@)(l@),
        { same(l.to_note_id.as_str(), note_id) };
        let outgoing = select_rows(&self.tables.links, from, Ghost(links_from(note_id@)));
        let incoming = select_rows(&self.tables.links, to, Ghost(links_to(note_id@)));
        let ghost ov = crate::records::views(outgoing@);
        let ghost iv = crate::records::views(incoming@);
        let mut out: Vec<LinkedNote> = Vec::new();
        let mut i: usize = 0;
        while i < outgoing.len()
            invariant
                i <= outgoing@.len(),
                ov == crate::records::views(outgoing@),
                out@.len() == i,
                forall|j: int|
                    0 <= j < i ==> (#[trigger] out@[j])@ == linked_note(
                        self@.notes,
                        ov[j].to_note_id,
                        ov[j].label,
                        "out"@,
                    ),
            decreases outgoing.len() - i,
        {
            assert(ov[i as int] == outgoing@[i as int]@);
            out.push(self.note_at_end(&outgoing[i].to_note_id, &outgoing[i].label, "out"));
            i = i + 1;
        }
        let mut k: usize = 0;
        while k < incoming.len()
            invariant
                k <= incoming@.len(),
                ov == crate::records::views(outgoing@),
                iv == crate::records::views(incoming@),
                out@.len() == ov.len() + k,
                forall|j: int|
                    0 <= j < ov.len() ==> (#[trigger] out@[j])@ == linked_note(
                        self@.notes,
                        ov[j].to_note_id,
                        ov[j].label,
                        "out"@,
                    ),
                forall|j: int|
                    ov.len() <= j < ov.len() + k ==> (#[trigger] out@[j])@ == linked_note(
                        self@.notes,
                        iv[j - ov.len()].from_note_id,
                        iv[j - ov.len()].label,
                        "in"@,
                    ),
            decreases incoming.len() - k,
        {
            assert(iv[k as int] == incoming@[k as int]@);
            out.push(self.note_at_end(&incoming[k].from_note_id, &incoming[k].label, "in"));
            k = k + 1;
        }
        assert(crate::records::views(out@) =~= linked_notes(self@, note_id@));
        Ok(out)
    }

    /// The links from notes of a project, in the order in which they were drawn.
    pub fn list_note_links(&self, project_id: &str) -> (r: StoreResult<Vec<NoteLink>>)
        ensures
            r matches Ok(list) && crate::records::views(list@) == listed_links(
                self@,
                project_id@,
            ),
    {
        let notes = &self.tables.notes;
        let keep = |l: &NoteLink| -> (b: bool)
            ensures
                b == links_of(crate::records::views(notes@), project_id@)(l@),
        {
            match find_key(notes, l.from_note_id.as_str()) {
                Some(k) => {
                    assert(crate::records::views(notes@)[k as int] == notes@[k as int]@);
                    same(notes[k].project_id.as_str(), project_id)
                },
                None => false,
            }
        };
        let before = |a: &NoteLink, b: &NoteLink| -> (x: bool)
            ensures
                x == first_drawn_first()(a@, b@),
        { a.created_at <= b.created_at };
        let rows = select_rows(
            &self.tables.links,
            keep,
            Ghost(links_of(self@.notes, project_id@)),
        );
        Ok(sort_rows(rows, before, Ghost(first_drawn_first())))
    }
}

// ---------------------------------------------------------------------------
// Opening
// ---------------------------------------------------------------------------

/// How many notes of the same project are newer than `n`.
pub open spec fn newer_count(
    notes: Seq<crate::records::NoteView>,
    n: crate::records::NoteView,
) -> nat
    decreases notes.len(),
{
    if notes.len() == 0 {
        0
    } else {
        newer_count(notes.drop_last(), n) + if notes.last().project_id == n.project_id
            && notes.last().created_at > n.created_at {
            1nat
        } else {
            0nat
        }
    }
}

/// A note at the place that its age gives it in its project.
pub open spec fn placed_by_age(notes: Seq<crate::records::NoteView>) -> spec_fn(
    crate::records::NoteView,
) -> crate::records::NoteView {
    |n: crate::records::NoteView|
        crate::records::NoteView { position: newer_count(notes, n) as i64, ..n }
}

/// The tables of a database that knew no places of notes yet: the newest notes come first.
pub open spec fn with_places(v: crate::schema::StorageView) -> crate::schema::StorageView {
    crate::schema::StorageView { notes: v.notes.map_values(placed_by_age(v.notes)), ..v }
}

/// The tables that a store is opened with: with places of notes, and with a project.
pub open spec fn opened(
    v: crate::schema::StorageView,
    has_position: bool,
    id: Seq<char>,
    now: i64,
) -> crate::schema::StorageView {
    let w = if has_position {
        v
    } else {
        with_places(v)
    };
    if w.projects.len() == 0 {
        crate::schema::StorageView {
            projects: w.projects.push(new_project(id, "Default"@, None, now)),
            ..w
        }
    } else {
        w
    }
}

fn count_newer(notes: &Vec<Note>, n: &Note) -> (r: usize)
    ensures
        r == newer_count(crate::records::views(notes@), n@),
{
    let ghost all = crate::records::views(notes@);
    let mut count: usize = 0;
    let mut i: usize = 0;
    while i < notes.len()
        invariant
            i <= notes@.len(),
            count <= i,
            all == crate::records::views(notes@),
            count == newer_count(all.take(i as int), n@),
        decreases notes.len() - i,
    {
        assert(all.take(i + 1).drop_last() =~= all.take(i as int));
        assert(all.take(i + 1).last() == notes@[i as int]@);
        if same(notes[i].project_id.as_str(), n.project_id.as_str()) && notes[i].created_at
            > n.created_at {
            count = count + 1;
        }
        i = i + 1;
    }
    assert(all.take(all.len() as int) =~= all);
    count
}

impl Tables {
    /// Tables without rows.
    pub fn new() -> (r: Tables)
        ensures
            r@.wf(),
            r@.projects.len() == 0,
            r@.notes.len() == 0,
            r@.tags.len() == 0,
            r@.note_tags.len() == 0,
            r@.drafts.len() == 0,
            r@.draft_notes.len() == 0,
            r@.links.len() == 0,
            r@.translations.len() == 0,
            r@.sessions.len() == 0,
            r@.segments.len() == 0,
    {
        Tables {
            projects: Vec::new(),
            notes: Vec::new(),
            tags: Vec::new(),
            note_tags: Vec::new(),
            drafts: Vec::new(),
            draft_notes: Vec::new(),
            links: Vec::new(),
            translations: Vec::new(),
            sessions: Vec::new(),
            segments: Vec::new(),
        }
    }

    fn keys_are_unique(&self) -> (r: bool)
        ensures
            r == self@.keys_ok(),
    {
        check_unique(&self.projects) && check_unique(&self.notes) && check_unique(&self.tags)
            && check_unique(&self.drafts) && check_unique(&self.links) && check_unique(
            &self.translations,
        ) && check_unique(&self.sessions) && check_unique(&self.segments) && check_unique_pairs(
            &self.tags,
        ) && check_unique_pairs(&self.note_tags) && check_unique_pairs(&self.draft_notes)
            && check_unique_pairs(&self.links)
    }

    fn rows_are_there(&self) -> (r: bool)
        ensures
            r == self@.refs_ok(),
    {
        let ghost v = self@;
        let note_ok = |n: &Note| -> (b: bool)
            ensures
                b == crate::schema::note_ok(self@, n@),
        {
            contains_key(&self.projects, n.project_id.as_str()) && match &n.parent_id {
                Some(p) => contains_key(&self.notes, p.as_str()),
                None => true,
            }
        };
        let tag_ok = |t: &Tag| -> (b: bool)
            ensures
                b == crate::schema::tag_ok(self@, t@),
        { contains_key(&self.projects, t.project_id.as_str()) };
        let note_tag_ok = |t: &NoteTag| -> (b: bool)
            ensures
                b == crate::schema::note_tag_ok(self@, t@),
        {
            contains_key(&self.notes, t.note_id.as_str()) && contains_key(
                &self.tags,
                t.tag_id.as_str(),
            )
        };
        let draft_ok = |d: &Draft| -> (b: bool)
            ensures
                b == crate::schema::draft_ok(self@, d@),
        { contains_key(&self.projects, d.project_id.as_str()) };
        let draft_note_ok = |d: &DraftNote| -> (b: bool)
            ensures
                b == crate::schema::draft_note_ok(self@, d@),
        {
            contains_key(&self.drafts, d.draft_id.as_str()) && contains_key(
                &self.notes,
                d.note_id.as_str(),
            )
        };
        let link_ok = |l: &NoteLink| -> (b: bool)
            ensures
                b == crate::schema::link_ok(self@, l@),
        {
            contains_key(&self.notes, l.from_note_id.as_str()) && contains_key(
                &self.notes,
                l.to_note_id.as_str(),
            )
        };
        let translation_ok = |t: &Translation| -> (b: bool)
            ensures
                b == crate::schema::translation_ok(self@, t@),
        {
            match &t.note_id {
                Some(n) => contains_key(&self.notes, n.as_str()),
                None => true,
            }
        };
        let segment_ok = |s: &LiveSegment| -> (b: bool)
            ensures
                b == crate::schema::segment_ok(self@, s@),
        { contains_key(&self.sessions, s.session_id.as_str()) };
        let notes_fit = all_rows(
            &self.notes,
            note_ok,
            Ghost(|x: crate::records::NoteView| crate::schema::note_ok(v, x)),
        );
        assert(notes_fit == forall|i: int|
            0 <= i < v.notes.len() ==> crate::schema::note_ok(v, #[trigger] v.notes[i])) by {
            assert(v.notes == crate::records::views(self.notes@));
            assert(v.notes.len() == self.notes@.len());
        }
        let tags_fit = all_rows(
            &self.tags,
            tag_ok,
            Ghost(|x: crate::records::TagView| crate::schema::tag_ok(v, x)),
        );
        assert(tags_fit == forall|i: int|
            0 <= i < v.tags.len() ==> crate::schema::tag_ok(v, #[trigger] v.tags[i])) by {
            assert(v.tags == crate::records::views(self.tags@));
            assert(v.tags.len() == self.tags@.len());
        }
        let note_tags_fit = all_rows(
            &self.note_tags,
            note_tag_ok,
            Ghost(|x: crate::records::NoteTagView| crate::schema::note_tag_ok(v, x)),
        );
        assert(note_tags_fit == forall|i: int|
            0 <= i < v.note_tags.len() ==> crate::schema::note_tag_ok(v, #[trigger] v.note_tags[i])) by {
            assert(v.note_tags == crate::records::views(self.note_tags@));
            assert(v.note_tags.len() == self.note_tags@.len());
        }
        let drafts_fit = all_rows(
            &self.drafts,
            draft_ok,
            Ghost(|x: crate::records::DraftView| crate::schema::draft_ok(v, x)),
        );
        assert(drafts_fit == forall|i: int|
            0 <= i < v.drafts.len() ==> crate::schema::draft_ok(v, #[trigger] v.drafts[i])) by {
            assert(v.drafts == crate::records::views(self.drafts@));
            assert(v.drafts.len() == self.drafts@.len());
        }
        let draft_notes_fit = all_rows(
            &self.draft_notes,
            draft_note_ok,
            Ghost(|x: crate::records::DraftNoteView| crate::schema::draft_note_ok(v, x)),
        );
        assert(draft_notes_fit == forall|i: int|
            0 <= i < v.draft_notes.len() ==> crate::schema::draft_note_ok(v, #[trigger] v.draft_notes[i])) by {
            assert(v.draft_notes == crate::records::views(self.draft_notes@));
            assert(v.draft_notes.len() == self.draft_notes@.len());
        }
        let links_fit = all_rows(
            &self.links,
            link_ok,
            Ghost(|x: crate::records::NoteLinkView| crate::schema::link_ok(v, x)),
        );
        assert(links_fit == forall|i: int|
            0 <= i < v.links.len() ==> crate::schema::link_ok(v, #[trigger] v.links[i])) by {
            assert(v.links == crate::records::views(self.links@));
            assert(v.links.len() == self.links@.len());
        }
        let translations_fit = all_rows(
            &self.translations,
            translation_ok,
            Ghost(|x: crate::records::TranslationView| crate::schema::translation_ok(v, x)),
        );
        assert(translations_fit == forall|i: int|
            0 <= i < v.translations.len() ==> crate::schema::translation_ok(v, #[trigger] v.translations[i])) by {
            assert(v.translations == crate::records::views(self.translations@));
            assert(v.translations.len() == self.translations@.len());
        }
        let segments_fit = all_rows(
            &self.segments,
            segment_ok,
            Ghost(|x: crate::records::LiveSegmentView| crate::schema::segment_ok(v, x)),
        );
        assert(segments_fit == forall|i: int|
            0 <= i < v.segments.len() ==> crate::schema::segment_ok(v, #[trigger] v.segments[i])) by {
            assert(v.segments == crate::records::views(self.segments@));
            assert(v.segments.len() == self.segments@.len());
        }
        notes_fit && tags_fit && note_tags_fit && drafts_fit && draft_notes_fit && links_fit && translations_fit && segments_fit
    }

    /// Whether the rows are as they must be: keys are unique, and what is referred to is there.
    pub fn is_consistent(&self) -> (r: bool)
        ensures
            r == self@.wf(),
    {
        self.keys_are_unique() && self.rows_are_there()
    }
}

impl Storage {
    /// Opens a store on the rows of a database. `has_position` says whether the database knew the
    /// places of notes. A store always has a project: `id` and `now` are for the one that is made
    /// where there is none. Rows that do not fit together are taken as they are; whether they do is
    /// told by [`Tables::is_consistent`].
    pub fn open_with(tables: Tables, has_position: bool, id: String, now: i64) -> (r: StoreResult<
        Storage,
    >)
        ensures
            r matches Ok(s) && s@ == opened(tables@, has_position, id@, now) && (tables@.wf()
                ==> s@.wf()) && s@.projects.len() > 0,
    {
        let ghost v = tables@;
        let mut store = Storage { tables };
        if !has_position {
            let notes = copy_all(&store.tables.notes);
            let change = |n: &Note| -> (r: Note)
                ensures
                    r@ == placed_by_age(crate::records::views(notes@))(n@),
            {
                let mut r = n.copy();
                r.position = count_newer(&notes, n) as i64;
                r
            };
            let ghost g = placed_by_age(v.notes);
            change_rows(&mut store.tables.notes, change, Ghost(g));
            proof {
                if v.wf() {
                    lemma_change_notes(v, g);
                }
                assert(store@ =~= with_places(v));
            }
        }
        if store.tables.projects.len() == 0 {
            assert(store@.projects.len() == 0);
            match store.create_project_with(id, now, "Default", None) {
                Ok(_) => {},
                Err(e) => {
                    return Err(e);
                },
            }
            assert(store@ =~= opened(v, has_position, id@, now));
        } else {
            assert(store@.projects.len() > 0);
        }
        Ok(store)
    }

    /// Opens a store on the rows of a database.
    pub fn open(tables: Tables, has_position: bool) -> (r: StoreResult<Storage>)
        ensures
            r matches Ok(s) && (tables@.wf() ==> s@.wf()) && s@.projects.len() > 0 && exists|
                id: Seq<char>,
                now: i64,
            | #[trigger]
                new_project(id, "Default"@, None, now).id == id && crate::ids::is_uuid(id)
                    && crate::ids::is_reading(now) && s@ == opened(tables@, has_position, id, now),
    {
        let id = new_id();
        let now: i64 = now_ms();
        assert(new_project(id@, "Default"@, None, now).id == id@);
        Storage::open_with(tables, has_position, id, now)
    }

    /// The store as it is now, to go back to.
    pub fn copy(&self) -> (r: Storage)
        ensures
            r@ == self@,
    {
        let t = &self.tables;
        let r = Storage {
            tables: Tables {
                projects: copy_all(&t.projects),
                notes: copy_all(&t.notes),
                tags: copy_all(&t.tags),
                note_tags: copy_all(&t.note_tags),
                drafts: copy_all(&t.drafts),
                draft_notes: copy_all(&t.draft_notes),
                links: copy_all(&t.links),
                translations: copy_all(&t.translations),
                sessions: copy_all(&t.sessions),
                segments: copy_all(&t.segments),
            },
        };
        assert(r@ =~= self@);
        r
    }

    /// The rows that the database is to hold.
    pub fn tables(&self) -> (r: &Tables)
        ensures
            r@ == self@,
    {
        &self.tables
    }
}

} // verus!
