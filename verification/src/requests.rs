//! What the user asks of projects, notes, links, drafts and translations: what is checked and filled
//! in before anything is stored.

use crate::chat::AppError;
use crate::context::linked_context_for;
use crate::ids::{new_id, new_ids, now_ms};
use crate::process::TranslationRequest;
use crate::records::{
    DraftWithNotes, LiveSessionDetail, Note, NoteLink, StoreError, Translation,
};
use crate::reply::derive_title_from_text;
use crate::storage::Storage;
use crate::text::{
    chars_of, copy_opt, fill, fill_owned, is_blank, same, text_of, trim_text,
};
use vstd::prelude::*;
use vstd::slice::slice_subrange;

verus! {

/// An error of the store, as it is answered with.
pub fn store_error(e: StoreError) -> (r: AppError)
    ensures
        r@ == crate::chat::broken(e.0@),
{
    AppError::internal(e.0.as_str())
}

// ---------------------------------------------------------------------------
// Projects and themes
// ---------------------------------------------------------------------------

/// The name of a project, trimmed.
pub fn project_name(name: &str) -> (r: Result<String, AppError>)
    ensures
        crate::chat::result_view(r) == if crate::text::blank(name@) {
            Err(crate::chat::bad("project name is required"@))
        } else {
            Ok(crate::text::trimmed(name@))
        },
{
    let trimmed = trim_text(name);
    if trimmed.as_str().is_empty() {
        Err(AppError::bad_request("project name is required"))
    } else {
        Ok(trimmed)
    }
}

/// What the user gives for a theme.
pub struct ThemeInput {
    pub name: String,
    pub description: Option<String>,
    pub transcription_prompt: Option<String>,
    pub custom_terms: Option<String>,
    pub custom_instruction: Option<String>,
}

/// A field of a theme, trimmed; none where nothing is left.
pub fn normalize_theme_field(value: Option<String>) -> (r: Option<String>)
    ensures
        crate::text::opt_view(r) == crate::text::filled(crate::text::opt_view(value)),
{
    fill_owned(&value)
}

/// A theme as it is stored: every field trimmed, and a name that is not blank.
pub fn normalize_theme(input: ThemeInput) -> (r: Result<ThemeInput, AppError>)
    ensures
        match r {
            Ok(t) => !crate::text::blank(input.name@) && t.name@ == crate::text::trimmed(
                input.name@,
            ) && crate::text::opt_view(t.description) == crate::text::filled(
                crate::text::opt_view(input.description),
            ) && crate::text::opt_view(t.transcription_prompt) == crate::text::filled(
                crate::text::opt_view(input.transcription_prompt),
            ) && crate::text::opt_view(t.custom_terms) == crate::text::filled(
                crate::text::opt_view(input.custom_terms),
            ) && crate::text::opt_view(t.custom_instruction) == crate::text::filled(
                crate::text::opt_view(input.custom_instruction),
            ),
            Err(e) => crate::text::blank(input.name@) && e@ == crate::chat::bad(
                "theme name is required"@,
            ),
        },
{
    let name = trim_text(input.name.as_str());
    if name.as_str().is_empty() {
        return Err(AppError::bad_request("theme name is required"));
    }
    Ok(
        ThemeInput {
            name,
            description: normalize_theme_field(input.description),
            transcription_prompt: normalize_theme_field(input.transcription_prompt),
            custom_terms: normalize_theme_field(input.custom_terms),
            custom_instruction: normalize_theme_field(input.custom_instruction),
        },
    )
}

// ---------------------------------------------------------------------------
// Notes
// ---------------------------------------------------------------------------

/// What the user gives for a note.
pub struct CreateNoteInput {
    pub project_id: String,
    pub title: String,
    pub text: String,
    pub source_name: Option<String>,
    pub language: Option<String>,
    pub duration: Option<u64>,
    pub meta: Option<String>,
    pub tags: Option<Vec<String>>,
    pub parent_id: Option<String>,
}

/// The title of a note: the one that is given, else one from its text, else the beginning of the
/// text.
pub open spec fn title_for(title: Seq<char>, text: Seq<char>) -> Seq<char> {
    if !crate::text::blank(title) {
        crate::text::trimmed(title)
    } else {
        match crate::reply::title_of(text) {
            Some(t) => t,
            None => if text.len() > 40 {
                text.take(40)
            } else {
                text
            },
        }
    }
}

/// The note that the user asks for.
pub open spec fn note_asked(input: CreateNoteInput, id: Seq<char>, now: i64) -> crate::records::NoteView {
    let text = crate::text::trimmed(input.text@);
    crate::records::NoteView {
        id,
        project_id: input.project_id@,
        title: title_for(input.title@, text),
        text,
        source_name: crate::text::opt_view(input.source_name),
        language: crate::text::opt_view(input.language),
        duration: input.duration,
        meta: crate::text::opt_view(input.meta),
        parent_id: crate::text::filled(crate::text::opt_view(input.parent_id)),
        position: 0,
        created_at: now,
        updated_at: now,
    }
}

/// What giving tags comes to: the tables after it, and why it failed, if it did.
pub open spec fn tags_outcome(
    v: crate::schema::StorageView,
    note_id: Seq<char>,
    names: Seq<Seq<char>>,
    ids: Seq<Seq<char>>,
) -> (crate::schema::StorageView, Option<Seq<char>>) {
    match crate::tables::row_of(v.notes, note_id) {
        None => (v, Some("Query returned no rows"@)),
        Some(note) => {
            let (w, ok) = crate::storage::tags_set(v, note, names, ids);
            (
                w,
                if ok {
                    None
                } else {
                    Some("UNIQUE constraint failed: tags.id"@)
                },
            )
        },
    }
}

/// What giving tags comes to where there may be none to give.
pub open spec fn maybe_tags(
    v: crate::schema::StorageView,
    note_id: Seq<char>,
    names: Option<Seq<Seq<char>>>,
    ids: Seq<Seq<char>>,
) -> (crate::schema::StorageView, Option<Seq<char>>) {
    match names {
        Some(list) => tags_outcome(v, note_id, list, ids),
        None => (v, None),
    }
}

/// What making a note comes to: the tables after it, and the error, if there is one.
pub open spec fn note_made(
    v: crate::schema::StorageView,
    input: CreateNoteInput,
    id: Seq<char>,
    now: i64,
    tag_ids: Seq<Seq<char>>,
) -> (crate::schema::StorageView, Option<crate::chat::ErrorView>) {
    let note = note_asked(input, id, now);
    if crate::text::blank(input.text@) {
        (v, Some(crate::chat::bad("text is required"@)))
    } else {
        match crate::storage::note_refusal(v, note) {
            Some(message) => (
                crate::storage::room_made(v, note.project_id),
                Some(crate::chat::broken(message)),
            ),
            None => {
                let (w, trouble) = maybe_tags(
                    crate::storage::note_added(v, note),
                    id,
                    tag_list(input.tags),
                    tag_ids,
                );
                (
                    w,
                    match trouble {
                        Some(message) => Some(crate::chat::broken(message)),
                        None => None,
                    },
                )
            },
        }
    }
}

/// The model of an optional list of tags.
pub open spec fn tag_list(tags: Option<Vec<String>>) -> Option<Seq<Seq<char>>> {
    match tags {
        Some(list) => Some(crate::text::texts(list@)),
        None => None,
    }
}

/// How many tags there are.
pub open spec fn tag_count(tags: Option<Vec<String>>) -> nat {
    match tags {
        Some(list) => list@.len(),
        None => 0,
    }
}

fn title_or(title: &str, text: &str) -> (r: String)
    ensures
        r@ == title_for(title@, text@),
{
    if !is_blank(title) {
        return trim_text(title);
    }
    match derive_title_from_text(text) {
        Some(t) => t,
        None => {
            let s = chars_of(text);
            if s.len() > 40 {
                let head = slice_subrange(s.as_slice(), 0, 40);
                assert(head@ =~= text@.take(40));
                text_of(head)
            } else {
                text.to_owned()
            }
        },
    }
}

/// The note that the user asks for, with the given identifier at the given time.
pub fn plan_note(input: &CreateNoteInput, id: String, now: i64) -> (r: Result<Note, AppError>)
    ensures
        match r {
            Ok(n) => !crate::text::blank(input.text@) && n@ == note_asked(*input, id@, now),
            Err(e) => crate::text::blank(input.text@) && e@ == crate::chat::bad(
                "text is required"@,
            ),
        },
{
    let text = trim_text(input.text.as_str());
    if text.as_str().is_empty() {
        return Err(AppError::bad_request("text is required"));
    }
    let title = title_or(input.title.as_str(), text.as_str());
    Ok(
        Note {
            id,
            project_id: input.project_id.clone(),
            title,
            text,
            source_name: copy_opt(&input.source_name),
            language: copy_opt(&input.language),
            duration: input.duration,
            meta: copy_opt(&input.meta),
            parent_id: fill_owned(&input.parent_id),
            position: 0,
            created_at: now,
            updated_at: now,
        },
    )
}

fn give_tags(
    storage: &mut Storage,
    note_id: &str,
    tags: &Option<Vec<String>>,
    tag_ids: &Vec<String>,
) -> (r: Result<(), AppError>)
    requires
        old(storage)@.wf(),
        tag_ids@.len() == tag_count(*tags),
    ensures
        final(storage)@.wf(),
        ({
            let (w, trouble) = maybe_tags(
                old(storage)@,
                note_id@,
                tag_list(*tags),
                crate::text::texts(tag_ids@),
            );
            &&& final(storage)@ == w
            &&& match r {
                Ok(_) => trouble is None,
                Err(e) => trouble is Some && e@ == crate::chat::broken(trouble->0),
            }
        }),
{
    if let Some(list) = tags {
        if let Err(e) = storage.set_note_tags_with(note_id, list, tag_ids) {
            return Err(store_error(e));
        }
    }
    Ok(())
}

/// Makes a note with the given identifiers at the given time.
pub fn create_note_with(
    storage: &mut Storage,
    input: &CreateNoteInput,
    id: String,
    now: i64,
    tag_ids: &Vec<String>,
) -> (r: Result<Note, AppError>)
    requires
        old(storage)@.wf(),
        crate::storage::can_move_down(old(storage)@.notes, input.project_id@),
        tag_ids@.len() == tag_count(input.tags),
    ensures
        final(storage)@.wf(),
        ({
            let (w, trouble) = note_made(
                old(storage)@,
                *input,
                id@,
                now,
                crate::text::texts(tag_ids@),
            );
            &&& final(storage)@ == w
            &&& match r {
                Ok(n) => trouble is None && n@ == note_asked(*input, id@, now),
                Err(e) => trouble == Some(e@),
            }
        }),
{
    let note = plan_note(input, id, now)?;
    match storage.add_note(&note) {
        Ok(_) => {},
        Err(e) => {
            return Err(store_error(e));
        },
    }
    give_tags(storage, note.id.as_str(), &input.tags, tag_ids)?;
    Ok(note)
}

fn ids_for(tags: &Option<Vec<String>>) -> (r: Vec<String>)
    ensures
        r@.len() == tag_count(*tags),
        crate::session::fresh_ids(crate::text::texts(r@), tag_count(*tags)),
{
    let n: usize = match tags {
        Some(list) => list.len(),
        None => 0,
    };
    let ids = new_ids(n);
    proof {
        let id_texts = crate::text::texts(ids@);
        assert forall|i: int| 0 <= i < n implies crate::ids::is_uuid(#[trigger] id_texts[i]) by {
            assert(id_texts[i] == ids@[i]@);
        }
    }
    ids
}

/// Makes a note at the top of its project. Its title is the one that is given, else one from its
/// text.
pub fn create_note(storage: &mut Storage, input: &CreateNoteInput) -> (r: Result<Note, AppError>)
    requires
        old(storage)@.wf(),
        crate::storage::can_move_down(old(storage)@.notes, input.project_id@),
    ensures
        final(storage)@.wf(),
        exists|id: Seq<char>, now: i64, tag_ids: Seq<Seq<char>>|
            crate::ids::is_uuid(id) && crate::ids::is_reading(now) && crate::session::fresh_ids(
                tag_ids,
                tag_count(input.tags),
            ) && {
                let (w, trouble) = #[trigger] note_made(old(storage)@, *input, id, now, tag_ids);
                &&& final(storage)@ == w
                &&& match r {
                    Ok(n) => trouble is None && n@ == note_asked(*input, id, now),
                    Err(e) => trouble == Some(e@),
                }
            },
{
    let id = new_id();
    let now: i64 = now_ms();
    let tag_ids = ids_for(&input.tags);
    let ghost made = note_made(old(storage)@, *input, id@, now, crate::text::texts(tag_ids@));
    create_note_with(storage, input, id, now, &tag_ids)
}

/// The title of a note that is changed: the one that is given, else one from its text.
pub open spec fn new_title(title: Seq<char>, text: Seq<char>) -> Seq<char> {
    if !crate::text::blank(title) {
        title
    } else {
        match crate::reply::title_of(text) {
            Some(t) => t,
            None => Seq::empty(),
        }
    }
}

/// What changing a note comes to: the tables after it, and why its tags could not be given, if they
/// could not.
pub open spec fn note_changed(
    v: crate::schema::StorageView,
    id: Seq<char>,
    title: Seq<char>,
    text: Seq<char>,
    meta: Option<Seq<char>>,
    tags: Option<Seq<Seq<char>>>,
    now: i64,
    tag_ids: Seq<Seq<char>>,
) -> (crate::schema::StorageView, Option<Seq<char>>) {
    maybe_tags(
        crate::schema::StorageView {
            notes: v.notes.map_values(
                crate::storage::rewritten(id, new_title(title, text), text, meta, now),
            ),
            ..v
        },
        id,
        tags,
        tag_ids,
    )
}

/// What the user gives for a note that is changed.
pub struct UpdateNoteInput {
    pub title: String,
    pub text: String,
    pub meta: Option<String>,
    pub tags: Option<Vec<String>>,
}

/// Changes a note at the given time, with the given identifiers for new tags.
pub fn update_note_with(
    storage: &mut Storage,
    id: &str,
    input: &UpdateNoteInput,
    now: i64,
    tag_ids: &Vec<String>,
) -> (r: Result<(), AppError>)
    requires
        old(storage)@.wf(),
        tag_ids@.len() == tag_count(input.tags),
    ensures
        final(storage)@.wf(),
        ({
            let (w, trouble) = note_changed(
                old(storage)@,
                id@,
                input.title@,
                input.text@,
                crate::text::opt_view(input.meta),
                tag_list(input.tags),
                now,
                crate::text::texts(tag_ids@),
            );
            &&& final(storage)@ == w
            &&& match r {
                Ok(_) => trouble is None,
                Err(e) => trouble is Some && e@ == crate::chat::broken(trouble->0),
            }
        }),
{
    let title = if is_blank(input.title.as_str()) {
        match derive_title_from_text(input.text.as_str()) {
            Some(t) => t,
            None => {
                let nothing = String::new();
                assert(nothing@ =~= Seq::empty());
                nothing
            },
        }
    } else {
        input.title.clone()
    };
    let meta: Option<&str> = match &input.meta {
        Some(m) => Some(m.as_str()),
        None => None,
    };
    match storage.update_note_at(id, title.as_str(), input.text.as_str(), meta, now) {
        Ok(_) => {},
        Err(e) => {
            return Err(store_error(e));
        },
    }
    give_tags(storage, id, &input.tags, tag_ids)
}

/// Changes a note. Where it is given no title, it gets one from its text.
pub fn update_note(storage: &mut Storage, id: &str, input: &UpdateNoteInput) -> (r: Result<
    (),
    AppError,
>)
    requires
        old(storage)@.wf(),
    ensures
        final(storage)@.wf(),
        exists|now: i64, tag_ids: Seq<Seq<char>>|
            crate::ids::is_reading(now) && crate::session::fresh_ids(
                tag_ids,
                tag_count(input.tags),
            ) && {
                let (w, trouble) = #[trigger] note_changed(
                    old(storage)@,
                    id@,
                    input.title@,
                    input.text@,
                    crate::text::opt_view(input.meta),
                    tag_list(input.tags),
                    now,
                    tag_ids,
                );
                &&& final(storage)@ == w
                &&& match r {
                    Ok(_) => trouble is None,
                    Err(e) => trouble is Some && e@ == crate::chat::broken(trouble->0),
                }
            },
{
    let now: i64 = now_ms();
    let tag_ids = ids_for(&input.tags);
    let ghost changed = note_changed(
        old(storage)@,
        id@,
        input.title@,
        input.text@,
        crate::text::opt_view(input.meta),
        tag_list(input.tags),
        now,
        crate::text::texts(tag_ids@),
    );
    update_note_with(storage, id, input, now, &tag_ids)
}

/// Keeps the order of notes that the user chose.
pub fn reorder_notes(storage: &mut Storage, project_id: &str, note_ids: &Vec<String>) -> (r: Result<
    (),
    AppError,
>)
    requires
        old(storage)@.wf(),
    ensures
        final(storage)@.wf(),
        match r {
            Ok(_) => note_ids@.len() > 0 && final(storage)@ == (crate::schema::StorageView {
                notes: crate::storage::reordered(
                    old(storage)@.notes,
                    project_id@,
                    crate::text::texts(note_ids@),
                ),
                ..old(storage)@
            }),
            Err(e) => note_ids@.len() == 0 && e@ == crate::chat::bad("note_ids is required"@)
                && final(storage)@ == old(storage)@,
        },
{
    if note_ids.len() == 0 {
        return Err(AppError::bad_request("note_ids is required"));
    }
    match storage.reorder_notes(project_id, note_ids) {
        Ok(_) => Ok(()),
        Err(e) => Err(store_error(e)),
    }
}

/// Puts a note under another, or under none where the parent is blank.
pub fn set_note_parent(storage: &mut Storage, id: &str, parent_id: Option<&str>) -> (r: Result<
    (),
    AppError,
>)
    requires
        old(storage)@.wf(),
    ensures
        final(storage)@.wf(),
        ({
            let parent = crate::text::filled(crate::text::opt_str_view(parent_id));
            let refusal = crate::storage::parent_refusal(old(storage)@, id@, parent);
            match r {
                Ok(_) => refusal is None && exists|now: i64|
                    crate::ids::is_reading(now) && final(storage)@ == (crate::schema::StorageView {
                        notes: old(storage)@.notes.map_values(
                            #[trigger] crate::storage::adopted(id@, parent, now),
                        ),
                        ..old(storage)@
                    }),
                Err(e) => refusal is Some && e@ == crate::chat::bad(refusal->0) && final(storage)@
                    == old(storage)@,
            }
        }),
{
    let parent = fill(parent_id);
    let given: Option<&str> = match &parent {
        Some(p) => Some(p.as_str()),
        None => None,
    };
    match storage.set_note_parent(id, given) {
        Ok(_) => Ok(()),
        Err(e) => Err(AppError::bad_request(e.0.as_str())),
    }
}

// ---------------------------------------------------------------------------
// Links
// ---------------------------------------------------------------------------

/// Why a link is not even looked for, if it is not.
pub open spec fn link_refusal(from: Seq<char>, to: Seq<char>) -> Option<crate::chat::ErrorView> {
    if crate::text::blank(from) || crate::text::blank(to) {
        Some(crate::chat::bad("note ids are required"@))
    } else if crate::text::trimmed(from) == crate::text::trimmed(to) {
        Some(crate::chat::bad("cannot link a note to itself"@))
    } else {
        None
    }
}

/// The model of what drawing a link gives.
pub open spec fn link_view(r: Result<NoteLink, AppError>) -> Result<
    crate::records::NoteLinkView,
    crate::chat::ErrorView,
> {
    match r {
        Ok(l) => Ok(l@),
        Err(e) => Err(e@),
    }
}

/// An error of the store in place of its message.
pub open spec fn as_answered<T>(r: Result<T, Seq<char>>) -> Result<T, crate::chat::ErrorView> {
    match r {
        Ok(x) => Ok(x),
        Err(message) => Err(crate::chat::broken(message)),
    }
}

/// Draws a link from one note to another.
pub fn create_note_link(
    storage: &mut Storage,
    from_note_id: &str,
    to_note_id: &str,
    label: Option<&str>,
) -> (r: Result<NoteLink, AppError>)
    requires
        old(storage)@.wf(),
    ensures
        final(storage)@.wf(),
        match link_refusal(from_note_id@, to_note_id@) {
            Some(e) => link_view(r) == Err::<crate::records::NoteLinkView, _>(e) && final(storage)@
                == old(storage)@,
            None => exists|id: Seq<char>, now: i64|
                crate::ids::is_uuid(id) && crate::ids::is_reading(now) && {
                    let (w, made) = crate::storage::link_drawn(
                        old(storage)@,
                        #[trigger] crate::storage::new_link(
                            id,
                            crate::text::trimmed(from_note_id@),
                            crate::text::trimmed(to_note_id@),
                            crate::text::filled(crate::text::opt_str_view(label)),
                            now,
                        ),
                    );
                    &&& final(storage)@ == w
                    &&& link_view(r) == as_answered(made)
                },
        },
{
    let from = trim_text(from_note_id);
    let to = trim_text(to_note_id);
    if from.as_str().is_empty() || to.as_str().is_empty() {
        return Err(AppError::bad_request("note ids are required"));
    }
    if same(from.as_str(), to.as_str()) {
        return Err(AppError::bad_request("cannot link a note to itself"));
    }
    let filled = fill(label);
    let given: Option<&str> = match &filled {
        Some(l) => Some(l.as_str()),
        None => None,
    };
    match storage.add_note_link(from.as_str(), to.as_str(), given) {
        Ok(l) => Ok(l),
        Err(e) => Err(store_error(e)),
    }
}

// ---------------------------------------------------------------------------
// Drafts
// ---------------------------------------------------------------------------

/// The draft `id` with its notes.
pub fn get_draft(storage: &Storage, id: &str) -> (r: Result<DraftWithNotes, AppError>)
    ensures
        match r {
            Ok(d) => crate::tables::row_of(storage@.drafts, id@) matches Some(row) && d@
                == crate::storage::with_notes(storage@)(row),
            Err(e) => crate::tables::row_of(storage@.drafts, id@) is None && e@
                == crate::chat::bad("draft not found"@),
        },
{
    match storage.get_draft(id) {
        Ok(Some(d)) => Ok(d),
        Ok(None) => Err(AppError::bad_request("draft not found")),
        Err(e) => Err(store_error(e)),
    }
}

/// The notes that a draft is made of, in the order that was asked for.
pub fn draft_notes(storage: &Storage, note_ids: &Vec<String>) -> (r: Result<Vec<Note>, AppError>)
    ensures
        ({
            let found = crate::storage::notes_by_ids(
                storage@.notes,
                crate::text::texts(note_ids@),
            );
            match r {
                Ok(list) => note_ids@.len() > 0 && found.len() > 0 && crate::records::views(list@)
                    == found,
                Err(e) => if note_ids@.len() == 0 {
                    e@ == crate::chat::bad("note_ids is required"@)
                } else {
                    found.len() == 0 && e@ == crate::chat::bad("no matching notes found"@)
                },
            }
        }),
{
    if note_ids.len() == 0 {
        return Err(AppError::bad_request("note_ids is required"));
    }
    match storage.get_notes_by_ids(note_ids) {
        Ok(list) => {
            assert(crate::records::views(list@).len() == list@.len());
            if list.len() == 0 {
                Err(AppError::bad_request("no matching notes found"))
            } else {
                Ok(list)
            }
        },
        Err(e) => Err(store_error(e)),
    }
}

/// The titles and texts of notes.
pub open spec fn pairs_of(notes: Seq<crate::records::NoteView>) -> Seq<(Seq<char>, Seq<char>)> {
    notes.map_values(|n: crate::records::NoteView| (n.title, n.text))
}

/// The titles and texts of notes.
pub fn note_pairs(notes: &Vec<Note>) -> (r: Vec<(String, String)>)
    ensures
        crate::draft::note_pairs(r@) == pairs_of(crate::records::views(notes@)),
{
    let mut out: Vec<(String, String)> = Vec::new();
    let mut i: usize = 0;
    while i < notes.len()
        invariant
            i <= notes@.len(),
            out@.len() == i,
            forall|j: int|
                0 <= j < i ==> (#[trigger] out@[j]).0@ == notes@[j]@.title && out@[j].1@
                    == notes@[j]@.text,
        decreases notes.len() - i,
    {
        out.push((notes[i].title.clone(), notes[i].text.clone()));
        i = i + 1;
    }
    assert(crate::draft::note_pairs(out@) =~= pairs_of(crate::records::views(notes@)));
    out
}

/// The title of a draft: the one that is given, else one from the title of its first note.
pub open spec fn draft_title_for(
    title: Option<Seq<char>>,
    notes: Seq<crate::records::NoteView>,
) -> Seq<char> {
    match crate::text::filled(title) {
        Some(t) => t,
        None => if notes.len() == 0 || crate::text::blank(notes[0].title) {
            "Draft"@
        } else {
            "Draft: "@ + notes[0].title
        },
    }
}

/// The title of a draft: the one that is given, else one from the title of its first note.
pub fn draft_title(title: Option<&str>, notes: &Vec<Note>) -> (r: String)
    ensures
        r@ == draft_title_for(crate::text::opt_str_view(title), crate::records::views(notes@)),
{
    match fill(title) {
        Some(t) => t,
        None => {
            assert(crate::records::views(notes@).len() == notes@.len());
            if notes.len() == 0 {
                return "Draft".to_owned();
            }
            assert(crate::records::views(notes@)[0] == notes@[0]@);
            if is_blank(notes[0].title.as_str()) {
                "Draft".to_owned()
            } else {
                let mut t = "Draft: ".to_owned();
                t.append(notes[0].title.as_str());
                t
            }
        },
    }
}

/// Stores a draft that has been written.
pub fn store_draft(
    storage: &mut Storage,
    project_id: &str,
    title: Option<&str>,
    notes: &Vec<Note>,
    note_ids: Vec<String>,
    content: &str,
) -> (r: Result<DraftWithNotes, AppError>)
    requires
        old(storage)@.wf(),
    ensures
        final(storage)@.wf(),
        exists|id: Seq<char>, now: i64|
            crate::ids::is_uuid(id) && crate::ids::is_reading(now) && {
                let draft = #[trigger] crate::storage::new_draft(
                    id,
                    project_id@,
                    draft_title_for(
                        crate::text::opt_str_view(title),
                        crate::records::views(notes@),
                    ),
                    content@,
                    now,
                );
                let (w, refusal) = crate::storage::draft_created(
                    old(storage)@,
                    draft,
                    crate::text::texts(note_ids@),
                );
                &&& final(storage)@ == w
                &&& match r {
                    Ok(d) => refusal is None && d.draft@ == draft && d.note_ids == note_ids,
                    Err(e) => refusal is Some && e@ == crate::chat::broken(refusal->0),
                }
            },
{
    let t = draft_title(title, notes);
    match storage.create_draft(project_id, t.as_str(), content, &note_ids) {
        Ok(draft) => Ok(DraftWithNotes { draft, note_ids }),
        Err(e) => Err(store_error(e)),
    }
}

// ---------------------------------------------------------------------------
// Live sessions
// ---------------------------------------------------------------------------

/// The title of a live session, trimmed.
pub fn session_title(title: &str) -> (r: Result<String, AppError>)
    ensures
        crate::chat::result_view(r) == if crate::text::blank(title@) {
            Err(crate::chat::bad("title is required"@))
        } else {
            Ok(crate::text::trimmed(title@))
        },
{
    let trimmed = trim_text(title);
    if trimmed.as_str().is_empty() {
        Err(AppError::bad_request("title is required"))
    } else {
        Ok(trimmed)
    }
}

/// The live session `id` with its captions.
pub fn get_live_session(storage: &Storage, id: &str) -> (r: Result<LiveSessionDetail, AppError>)
    ensures
        match r {
            Ok(d) => crate::tables::row_of(storage@.sessions, id@) matches Some(s)
                && crate::records::views(d.segments@) == crate::tables::sorted_by(
                storage@.segments.filter(crate::storage::of_session(id@)),
                crate::storage::by_sequence(),
            ) && d.session@ == (crate::records::LiveSessionView {
                segment_count: d.segments@.len() as i64,
                ..s
            }),
            Err(e) => crate::tables::row_of(storage@.sessions, id@) is None && e@
                == crate::chat::bad("session not found"@),
        },
{
    match storage.get_live_session(id) {
        Ok(Some(d)) => Ok(d),
        Ok(None) => Err(AppError::bad_request("session not found")),
        Err(e) => Err(store_error(e)),
    }
}

// ---------------------------------------------------------------------------
// Translations
// ---------------------------------------------------------------------------

/// What the user gives for a translation that is stored.
pub struct CreateTranslationInput {
    pub note_id: Option<String>,
    pub source_text: String,
    pub target_language: String,
    pub source_language: Option<String>,
    pub custom_instruction: Option<String>,
    pub custom_terms: Option<String>,
    pub model: Option<String>,
}

/// The translation that is asked for, and the excerpts of linked notes that go with it.
pub fn plan_translation(storage: &Storage, input: &CreateTranslationInput) -> (r: Result<
    (TranslationRequest, Option<String>),
    AppError,
>)
    ensures
        match r {
            Ok((q, context)) => !crate::text::blank(input.source_text@) && q@ == (
            crate::process::TranslationView {
                text: crate::text::trimmed(input.source_text@),
                source_language: crate::text::opt_view(input.source_language),
                target_language: Some(input.target_language@),
                custom_instruction: crate::text::opt_view(input.custom_instruction),
                custom_terms: crate::text::opt_view(input.custom_terms),
                model: crate::text::opt_view(input.model),
                note_id: crate::text::opt_view(input.note_id),
                use_linked_context: false,
            }) && crate::text::opt_view(context) == match input.note_id {
                Some(id) => crate::context::linked_context(storage@, id@),
                None => None,
            },
            Err(e) => crate::text::blank(input.source_text@) && e@ == crate::chat::bad(
                "source text is required"@,
            ),
        },
{
    let text = trim_text(input.source_text.as_str());
    if text.as_str().is_empty() {
        return Err(AppError::bad_request("source text is required"));
    }
    let note_id: Option<&str> = match &input.note_id {
        Some(id) => Some(id.as_str()),
        None => None,
    };
    let context = linked_context_for(storage, note_id, true);
    Ok(
        (
            TranslationRequest {
                text,
                source_language: copy_opt(&input.source_language),
                target_language: Some(input.target_language.clone()),
                custom_instruction: copy_opt(&input.custom_instruction),
                custom_terms: copy_opt(&input.custom_terms),
                model: copy_opt(&input.model),
                note_id: copy_opt(&input.note_id),
                use_linked_context: false,
            },
            context,
        ),
    )
}

/// A translation as it is stored.
pub open spec fn translation_asked(
    input: CreateTranslationInput,
    translated: Seq<char>,
    id: Seq<char>,
    now: i64,
) -> crate::records::TranslationView {
    crate::records::TranslationView {
        id,
        note_id: crate::text::opt_view(input.note_id),
        source_text: crate::text::trimmed(input.source_text@),
        translated_text: translated,
        source_language: crate::text::opt_view(input.source_language),
        target_language: input.target_language@,
        created_at: now,
    }
}

/// Stores a translation that has been made.
pub fn store_translation(
    storage: &mut Storage,
    input: &CreateTranslationInput,
    translated: String,
) -> (r: Result<Translation, AppError>)
    requires
        old(storage)@.wf(),
    ensures
        final(storage)@.wf(),
        exists|id: Seq<char>, now: i64|
            crate::ids::is_uuid(id) && crate::ids::is_reading(now) && {
                let t = #[trigger] translation_asked(*input, translated@, id, now);
                let refusal = crate::storage::translation_refusal(old(storage)@, t);
                match r {
                    Ok(made) => refusal is None && made@ == t && final(storage)@ == (
                    crate::schema::StorageView {
                        translations: old(storage)@.translations.push(t),
                        ..old(storage)@
                    }),
                    Err(e) => refusal is Some && e@ == crate::chat::broken(refusal->0) && final(
                        storage)@ == old(storage)@,
                }
            },
{
    let id = new_id();
    let now: i64 = now_ms();
    let ghost t = translation_asked(*input, translated@, id@, now);
    let translation = Translation {
        id,
        note_id: copy_opt(&input.note_id),
        source_text: trim_text(input.source_text.as_str()),
        translated_text: translated,
        source_language: copy_opt(&input.source_language),
        target_language: input.target_language.clone(),
        created_at: now,
    };
    assert(translation@ =~= t);
    match storage.add_translation(&translation) {
        Ok(_) => Ok(translation),
        Err(e) => Err(store_error(e)),
    }
}

// ---------------------------------------------------------------------------
// What is asked for is what is stored
// ---------------------------------------------------------------------------

/// A note is stored as it is asked for: in the project that is named, with the text, trimmed, and with
/// what else is given for it. Its title is the one that is given, trimmed.
pub proof fn law_note_is_stored_as_asked_for(
    v: crate::schema::StorageView,
    input: CreateNoteInput,
    id: Seq<char>,
    now: i64,
    tag_ids: Seq<Seq<char>>,
)
    requires
        v.wf(),
        crate::storage::can_move_down(v.notes, input.project_id@),
        !crate::text::blank(input.text@),
        !crate::tables::has_key(v.notes, id),
        crate::tables::has_key(v.projects, input.project_id@),
        input.parent_id matches Some(p) ==> crate::text::blank(p@) || crate::tables::has_key(
            v.notes,
            crate::text::trimmed(p@),
        ),
        input.tags is None,
    ensures
        ({
            let (w, trouble) = note_made(v, input, id, now, tag_ids);
            &&& trouble is None
            &&& w.notes.len() == v.notes.len() + 1
            &&& crate::tables::row_of(w.notes, id) matches Some(n) && n.project_id
                == input.project_id@ && n.text == crate::text::trimmed(input.text@) && (
            !crate::text::blank(input.title@) ==> n.title == crate::text::trimmed(input.title@))
                && n.source_name == crate::text::opt_view(input.source_name) && n.language
                == crate::text::opt_view(input.language) && n.duration == input.duration && n.meta
                == crate::text::opt_view(input.meta) && n.created_at == now && n.updated_at == now
                && n.position == 0 && n.parent_id == match input.parent_id {
                Some(p) => if crate::text::blank(p@) {
                    None
                } else {
                    Some(crate::text::trimmed(p@))
                },
                None => None,
            }
        }),
{
    let note = note_asked(input, id, now);
    crate::promises::law_note_is_read_back(v, note);
}

/// A note without a text is refused as a mistake of the user's, and nothing changes.
pub proof fn law_note_needs_a_text(
    v: crate::schema::StorageView,
    input: CreateNoteInput,
    id: Seq<char>,
    now: i64,
    tag_ids: Seq<Seq<char>>,
)
    requires
        crate::text::blank(input.text@),
    ensures
        note_made(v, input, id, now, tag_ids).0 == v,
        note_made(v, input, id, now, tag_ids).1 matches Some(e) && e.status == 400,
{
}

/// The tags that are given with a note are set on that note; without any, tags stay as they are.
pub proof fn law_given_tags_are_set(
    v: crate::schema::StorageView,
    note_id: Seq<char>,
    names: Seq<Seq<char>>,
    ids: Seq<Seq<char>>,
)
    ensures
        maybe_tags(v, note_id, None, ids) == (v, None::<Seq<char>>),
        crate::tables::row_of(v.notes, note_id) is None ==> maybe_tags(
            v,
            note_id,
            Some(names),
            ids,
        ).0 == v && maybe_tags(v, note_id, Some(names), ids).1 is Some,
        crate::tables::row_of(v.notes, note_id) matches Some(n) ==> maybe_tags(
            v,
            note_id,
            Some(names),
            ids,
        ).0 == crate::storage::tags_set(v, n, names, ids).0 && (maybe_tags(
            v,
            note_id,
            Some(names),
            ids,
        ).1 is None <==> crate::storage::tags_set(v, n, names, ids).1),
{
}

/// A note that is changed has the title that is given, or one from its text where none is, and the
/// text and the metadata that are given. Every other note is as it was.
pub proof fn law_note_is_changed_as_asked_for(
    v: crate::schema::StorageView,
    id: Seq<char>,
    title: Seq<char>,
    text: Seq<char>,
    meta: Option<Seq<char>>,
    now: i64,
    tag_ids: Seq<Seq<char>>,
    k: Seq<char>,
)
    ensures
        ({
            let (w, trouble) = note_changed(v, id, title, text, meta, None, now, tag_ids);
            &&& trouble is None
            &&& crate::tables::row_of(v.notes, id) matches Some(n) ==> (crate::tables::row_of(
                w.notes,
                id,
            ) matches Some(m) && m.text == text && m.meta == meta && m.updated_at == now
                && m.project_id == n.project_id && m.created_at == n.created_at && (
            !crate::text::blank(title) ==> m.title == title) && (crate::text::blank(title) ==> (
            match crate::reply::title_of(text) {
                Some(t) => m.title == t,
                None => m.title.len() == 0,
            })))
            &&& k != id ==> crate::tables::row_of(w.notes, k) == crate::tables::row_of(v.notes, k)
            &&& w == (crate::schema::StorageView { notes: w.notes, ..v })
        }),
{
    crate::upkeep::law_editing_changes_one_note(v, id, new_title(title, text), text, meta, now);
}

/// A note without a title gets one from its text: one that the text has, else its beginning.
pub proof fn law_untitled_note_gets_a_title(title: Seq<char>, text: Seq<char>)
    requires
        crate::text::blank(title),
    ensures
        crate::reply::title_of(text) matches Some(t) ==> title_for(title, text) == t,
        crate::reply::title_of(text) is None ==> title_for(title, text).len() <= 40
            && crate::text::begins(text, title_for(title, text)) && (text.len() <= 40
            ==> title_for(title, text) == text),
{
    if crate::reply::title_of(text) is None {
        let t = title_for(title, text);
        assert(text.subrange(0, t.len() as int) =~= t);
    }
}

/// A link needs two notes: blank identifiers, and the same one twice, are mistakes of the user's.
pub proof fn law_link_needs_two_notes(from: Seq<char>, to: Seq<char>)
    ensures
        link_refusal(from, to) is None <==> !crate::text::blank(from) && !crate::text::blank(to)
            && crate::text::trimmed(from) != crate::text::trimmed(to),
        link_refusal(from, to) matches Some(e) ==> e.status == 400,
{
}

/// A draft goes by the title that is given; without one it is named after its first note.
pub proof fn law_draft_is_titled(
    title: Option<Seq<char>>,
    notes: Seq<crate::records::NoteView>,
)
    ensures
        (title matches Some(t) && !crate::text::blank(t)) ==> draft_title_for(title, notes)
            == crate::text::trimmed(title->0),
        !(title matches Some(t) && !crate::text::blank(t)) && notes.len() > 0
            && !crate::text::blank(notes[0].title) ==> draft_title_for(title, notes) == "Draft: "@
            + notes[0].title,
        !(title matches Some(t) && !crate::text::blank(t)) && (notes.len() == 0
            || crate::text::blank(notes[0].title)) ==> draft_title_for(title, notes) == "Draft"@,
{
}

/// The titles and the texts of the notes of a draft are those of the notes, in their order.
pub proof fn law_pairs_are_titles_and_texts(notes: Seq<crate::records::NoteView>, i: int)
    requires
        0 <= i < notes.len(),
    ensures
        pairs_of(notes).len() == notes.len(),
        pairs_of(notes)[i].0 == notes[i].title,
        pairs_of(notes)[i].1 == notes[i].text,
{
}

/// A translation is stored with the text that was translated, what it was translated to, and the
/// languages, each for what it is.
pub proof fn law_translation_is_stored_as_made(
    input: CreateTranslationInput,
    translated: Seq<char>,
    id: Seq<char>,
    now: i64,
)
    ensures
        ({
            let t = translation_asked(input, translated, id, now);
            &&& t.id == id
            &&& t.created_at == now
            &&& t.source_text == crate::text::trimmed(input.source_text@)
            &&& t.translated_text == translated
            &&& t.target_language == input.target_language@
            &&& t.source_language == match input.source_language {
                Some(l) => Some(l@),
                None => None,
            }
            &&& t.note_id == match input.note_id {
                Some(n) => Some(n@),
                None => None,
            }
        }),
{
}

/// A link that lacks a note, or would join a note to itself, is refused and told which.
pub proof fn law_refused_links_say_why(from: Seq<char>, to: Seq<char>)
    ensures
        link_refusal(from, to) matches Some(e) ==> e.status == 400 && e.message
            == if crate::text::blank(from) || crate::text::blank(to) {
            "note ids are required"@
        } else {
            "cannot link a note to itself"@
        },
{
}

/// A note without a text is refused and told so, whatever else it has, and nothing is stored.
pub proof fn law_refused_notes_say_why(
    v: crate::schema::StorageView,
    input: CreateNoteInput,
    id: Seq<char>,
    now: i64,
    tag_ids: Seq<Seq<char>>,
)
    requires
        crate::text::blank(input.text@),
    ensures
        note_made(v, input, id, now, tag_ids).0 == v,
        note_made(v, input, id, now, tag_ids).1 matches Some(e) && e.status == 400 && e.message
            == "text is required"@,
{
}

/// Tags for a note that is not there are refused and told so, and nothing is stored. Each name that
/// is given counts, and none does where no list is given.
pub proof fn law_tags_need_their_note(
    v: crate::schema::StorageView,
    note_id: Seq<char>,
    names: Seq<Seq<char>>,
    ids: Seq<Seq<char>>,
    tags: Option<Vec<String>>,
)
    ensures
        crate::tables::row_of(v.notes, note_id) is None ==> tags_outcome(v, note_id, names, ids).0
            == v && tags_outcome(v, note_id, names, ids).1 == Some("Query returned no rows"@),
        (crate::tables::row_of(v.notes, note_id) is Some && tags_outcome(v, note_id, names, ids).1
            is Some) ==> tags_outcome(v, note_id, names, ids).1 == Some(
            "UNIQUE constraint failed: tags.id"@,
        ),
        tags is None ==> tag_count(tags) == 0,
        tags matches Some(list) ==> tag_count(tags) == list@.len(),
{
}

} // verus!
