//! The transcription of an upload: what is sent, what is transcribed and corrected, and what is kept
//! as a note.

use crate::audio::{resolve_audio_extension, sanitize_extension};
use crate::chat::{AppError, ChatPlan};
use crate::dictation::transcription_looks_like_no_speech_hallucination;
use crate::ids::{new_id, now_ms};
use crate::process::plan_correct;
use crate::records::Note;
use crate::reply::derive_title_from_text;
use crate::requests::store_error;
use crate::storage::Storage;
use crate::text::{
    chars_of, copy_opt, fill_owned, is_blank, is_one_of, own_opt, rfind, same, text_of, to_lower,
    trim, trim_text,
};
use vstd::prelude::*;
use vstd::slice::slice_subrange;

verus! {

// ---------------------------------------------------------------------------
// The form
// ---------------------------------------------------------------------------

/// What is sent with an upload.
pub struct TranscribeForm {
    pub audio: Option<Vec<u8>>,
    pub audio_extension: Option<String>,
    pub audio_name: Option<String>,
    pub language: Option<String>,
    pub speech_model: Option<String>,
    pub transcription_prompt: Option<String>,
    pub project_id: Option<String>,
    pub parent_id: Option<String>,
    pub save_as_note: bool,
}

/// The model of a [`TranscribeForm`].
#[verifier::ext_equal]
pub struct FormView {
    pub audio: Option<Seq<u8>>,
    pub audio_extension: Option<Seq<char>>,
    pub audio_name: Option<Seq<char>>,
    pub language: Option<Seq<char>>,
    pub speech_model: Option<Seq<char>>,
    pub transcription_prompt: Option<Seq<char>>,
    pub project_id: Option<Seq<char>>,
    pub parent_id: Option<Seq<char>>,
    pub save_as_note: bool,
}

impl View for TranscribeForm {
    type V = FormView;

    open spec fn view(&self) -> FormView {
        FormView {
            audio: match self.audio {
                Some(b) => Some(b@),
                None => None,
            },
            audio_extension: crate::text::opt_view(self.audio_extension),
            audio_name: crate::text::opt_view(self.audio_name),
            language: crate::text::opt_view(self.language),
            speech_model: crate::text::opt_view(self.speech_model),
            transcription_prompt: crate::text::opt_view(self.transcription_prompt),
            project_id: crate::text::opt_view(self.project_id),
            parent_id: crate::text::opt_view(self.parent_id),
            save_as_note: self.save_as_note,
        }
    }
}

/// The form without fields.
pub open spec fn empty_form() -> FormView {
    FormView {
        audio: None,
        audio_extension: None,
        audio_name: None,
        language: None,
        speech_model: None,
        transcription_prompt: None,
        project_id: None,
        parent_id: None,
        save_as_note: false,
    }
}

/// The words that say yes.
pub open spec fn yes_words() -> Seq<Seq<char>> {
    seq!["1"@, "true"@, "yes"@, "on"@]
}

/// Whether a field says yes.
pub open spec fn says_yes(value: Seq<char>) -> bool {
    yes_words().contains(crate::text::lowered(crate::text::trimmed(value)))
}

/// A text, trimmed, or what was there before where it is blank.
pub open spec fn unless_blank(value: Seq<char>, before: Option<Seq<char>>) -> Option<Seq<char>> {
    if crate::text::blank(value) {
        before
    } else {
        Some(crate::text::trimmed(value))
    }
}

/// The form with another text field. Fields that are not known are left aside.
pub open spec fn with_field(f: FormView, name: Seq<char>, value: Seq<char>) -> FormView {
    let trimmed = crate::text::trimmed(value);
    if name == "language"@ {
        FormView { language: Some(trimmed), ..f }
    } else if name == "speech_model"@ {
        FormView { speech_model: Some(trimmed), ..f }
    } else if name == "transcription_prompt"@ {
        FormView { transcription_prompt: Some(trimmed), ..f }
    } else if name == "project_id"@ {
        FormView { project_id: unless_blank(value, f.project_id), ..f }
    } else if name == "parent_id"@ {
        FormView { parent_id: unless_blank(value, f.parent_id), ..f }
    } else if name == "save_as_note"@ {
        FormView { save_as_note: says_yes(value), ..f }
    } else {
        f
    }
}

/// Why a form is refused, if it is.
pub open spec fn form_refusal(audio: Option<Seq<u8>>) -> Option<crate::chat::ErrorView> {
    match audio {
        None => Some(crate::chat::bad("音声ファイルがありません"@)),
        Some(b) => if b.len() == 0 {
            Some(crate::chat::bad("音声ファイルが空です"@))
        } else {
            None
        },
    }
}

fn is_yes(value: &str) -> (r: bool)
    ensures
        r == says_yes(value@),
{
    let s = chars_of(value);
    let low = to_lower(trim(s.as_slice()));
    let list: [&str; 4] = ["1", "true", "yes", "on"];
    assert(crate::text::strs(list@) =~= yes_words());
    is_one_of(low.as_slice(), list.as_slice())
}

impl TranscribeForm {
    /// A form without fields.
    pub fn new() -> (r: TranscribeForm)
        ensures
            r@ == empty_form(),
    {
        TranscribeForm {
            audio: None,
            audio_extension: None,
            audio_name: None,
            language: None,
            speech_model: None,
            transcription_prompt: None,
            project_id: None,
            parent_id: None,
            save_as_note: false,
        }
    }

    /// Takes in a text field. Fields that are not known are left aside.
    pub fn take_field(&mut self, name: &str, value: &str)
        ensures
            final(self)@ == with_field(old(self)@, name@, value@),
    {
        if same(name, "language") {
            self.language = Some(trim_text(value));
        } else if same(name, "speech_model") {
            self.speech_model = Some(trim_text(value));
        } else if same(name, "transcription_prompt") {
            self.transcription_prompt = Some(trim_text(value));
        } else if same(name, "project_id") {
            if !is_blank(value) {
                self.project_id = Some(trim_text(value));
            }
        } else if same(name, "parent_id") {
            if !is_blank(value) {
                self.parent_id = Some(trim_text(value));
            }
        } else if same(name, "save_as_note") {
            self.save_as_note = is_yes(value);
        }
    }

    /// Takes in the audio, with the name and the type of content that it was sent with.
    pub fn take_audio(
        &mut self,
        file_name: Option<&str>,
        content_type: Option<&str>,
        bytes: Vec<u8>,
    )
        ensures
            exists|extension: Seq<char>| #[trigger]
                crate::audio::can_be_kept_under(
                    crate::text::opt_str_view(file_name),
                    crate::text::opt_str_view(content_type),
                    extension,
                ) && final(self)@ == (FormView {
                    audio: Some(bytes@),
                    audio_extension: Some(extension),
                    audio_name: crate::text::opt_str_view(file_name),
                    ..old(self)@
                }),
    {
        let extension = resolve_audio_extension(file_name, content_type);
        let ghost e = extension@;
        self.audio_extension = Some(extension);
        self.audio_name = own_opt(file_name);
        self.audio = Some(bytes);
        assert(self@ =~= (FormView {
            audio: Some(bytes@),
            audio_extension: Some(e),
            audio_name: crate::text::opt_str_view(file_name),
            ..old(self)@
        }));
    }

    /// Whether there is anything to transcribe.
    pub fn check(&self) -> (r: Result<(), AppError>)
        ensures
            match r {
                Ok(_) => form_refusal(self@.audio) is None,
                Err(e) => form_refusal(self@.audio) == Some(e@),
            },
    {
        match &self.audio {
            None => Err(AppError::bad_request("音声ファイルがありません")),
            Some(b) => if b.len() == 0 {
                Err(AppError::bad_request("音声ファイルが空です"))
            } else {
                Ok(())
            },
        }
    }

    /// The extension that the audio is kept under.
    pub fn extension(&self) -> (r: String)
        ensures
            r@ == match self@.audio_extension {
                Some(e) => e,
                None => "webm"@,
            },
    {
        match &self.audio_extension {
            Some(e) => e.clone(),
            None => "webm".to_owned(),
        }
    }
}

/// The name of the file that an upload is kept in while it is transcribed.
pub fn upload_name(process: &str, timestamp: &str, extension: &str) -> (r: String)
    ensures
        r@ == "upload-"@ + process@ + "-"@ + timestamp@ + "."@ + crate::audio::sanitized(
            extension@,
        ),
{
    let mut name = "upload-".to_owned();
    name.append(process);
    name.append("-");
    name.append(timestamp);
    name.append(".");
    name.append(sanitize_extension(extension).as_str());
    name
}

// ---------------------------------------------------------------------------
// What is done with the audio
// ---------------------------------------------------------------------------

/// What is known of how loud the audio is: whether there is nothing to be heard, whether there is
/// little, and how long it is, in seconds, as the bits of a floating point number.
#[derive(Clone, Copy)]
pub struct Loudness {
    pub silent: bool,
    pub low_confidence: bool,
    pub duration: u64,
}

/// What is to be done with audio.
pub enum Listening {
    /// There is nothing to be heard.
    Silence { duration: u64 },
    /// It is to be transcribed.
    Transcribe { language: Option<String>, speech_model: Option<String> },
}

/// A language that is not blank, as it stands.
pub open spec fn named_language(language: Option<Seq<char>>) -> Option<Seq<char>> {
    match language {
        Some(l) => if crate::text::blank(l) {
            None
        } else {
            Some(l)
        },
        None => None,
    }
}

/// What is to be done with the audio, given how loud it is where that is known.
pub fn listen(form: &TranscribeForm, loudness: Option<Loudness>) -> (r: Listening)
    ensures
        match r {
            Listening::Silence { duration } => loudness matches Some(l) && l.silent && duration
                == l.duration,
            Listening::Transcribe { language, speech_model } => !(loudness matches Some(l)
                && l.silent) && crate::text::opt_view(language) == named_language(form@.language)
                && crate::text::opt_view(speech_model) == form@.speech_model,
        },
{
    if let Some(l) = loudness {
        if l.silent {
            return Listening::Silence { duration: l.duration };
        }
    }
    let language = match &form.language {
        Some(l) => if is_blank(l.as_str()) {
            None
        } else {
            Some(l.clone())
        },
        None => None,
    };
    Listening::Transcribe { language, speech_model: copy_opt(&form.speech_model) }
}

/// What a speech model has heard.
pub struct Heard {
    pub text: String,
    pub language: Option<String>,
    pub duration: Option<u64>,
}

/// What is to be done with what was heard.
pub enum Correction {
    /// The text stands.
    Keep(String),
    /// A chat model is to correct it.
    Ask(ChatPlan),
}

/// What is to be done with what was heard: where the user gave a clue, a chat model is to correct
/// it.
pub fn plan_correction(form: &TranscribeForm, heard: &str) -> (r: Correction)
    ensures
        match crate::text::filled(form@.transcription_prompt) {
            None => r matches Correction::Keep(t) && t@ == heard@,
            Some(clue) => match crate::process::correct_question(heard@, clue) {
                None => r matches Correction::Keep(t) && t@ == crate::text::trimmed(heard@),
                Some(plan) => r matches Correction::Ask(p) && p@ == plan,
            },
        },
{
    match fill_owned(&form.transcription_prompt) {
        None => Correction::Keep(heard.to_owned()),
        Some(clue) => match plan_correct(heard, clue.as_str()) {
            None => Correction::Keep(trim_text(heard)),
            Some(plan) => Correction::Ask(plan),
        },
    }
}

// ---------------------------------------------------------------------------
// What is answered and kept
// ---------------------------------------------------------------------------

/// What the user is answered.
pub struct TranscriptionResponse {
    pub text: String,
    pub language: Option<String>,
    pub duration: Option<u64>,
    pub note_id: Option<String>,
    pub project_id: Option<String>,
}

/// The model of a [`TranscriptionResponse`].
#[verifier::ext_equal]
pub struct ResponseView {
    pub text: Seq<char>,
    pub language: Option<Seq<char>>,
    pub duration: Option<u64>,
    pub note_id: Option<Seq<char>>,
    pub project_id: Option<Seq<char>>,
}

impl View for TranscriptionResponse {
    type V = ResponseView;

    open spec fn view(&self) -> ResponseView {
        ResponseView {
            text: self.text@,
            language: crate::text::opt_view(self.language),
            duration: self.duration,
            note_id: crate::text::opt_view(self.note_id),
            project_id: crate::text::opt_view(self.project_id),
        }
    }
}

/// The project that a transcription belongs to: the one that is named, else the oldest one. None
/// where there is no project.
pub open spec fn project_for(v: crate::schema::StorageView, named: Option<Seq<char>>) -> Option<
    Seq<char>,
> {
    match named {
        Some(id) => Some(id),
        None => if v.projects.len() == 0 {
            None
        } else {
            Some(
                crate::tables::sorted_by(v.projects, crate::storage::oldest_first())[0].id,
            )
        },
    }
}

/// The project that a transcription belongs to.
pub fn resolve_project(storage: &Storage, named: &Option<String>) -> (r: Result<String, AppError>)
    ensures
        crate::chat::result_view(r) == match project_for(storage@, crate::text::opt_view(*named)) {
            Some(id) => Ok(id),
            None => Err(crate::chat::broken("no project exists"@)),
        },
{
    match named {
        Some(id) => Ok(id.clone()),
        None => match storage.default_project_id() {
            Ok(id) => Ok(id),
            Err(e) => Err(store_error(e)),
        },
    }
}

/// The answer where there is nothing to be heard.
pub fn answer_silence(storage: &Storage, form: &TranscribeForm, duration: u64) -> (r: Result<
    TranscriptionResponse,
    AppError,
>)
    ensures
        match r {
            Ok(a) => project_for(storage@, form@.project_id) is Some && a@ == (ResponseView {
                text: Seq::empty(),
                language: None,
                duration: Some(duration),
                note_id: None,
                project_id: project_for(storage@, form@.project_id),
            }),
            Err(e) => project_for(storage@, form@.project_id) is None && e@ == crate::chat::broken(
                "no project exists"@,
            ),
        },
{
    let project = resolve_project(storage, &form.project_id)?;
    let nothing = String::new();
    assert(nothing@ =~= Seq::empty());
    Ok(
        TranscriptionResponse {
            text: nothing,
            language: None,
            duration: Some(duration),
            note_id: None,
            project_id: Some(project),
        },
    )
}

/// The text that is answered: nothing, where there is little to be heard and the text is one that
/// models make up of silence.
pub open spec fn heard_text(text: Seq<char>, loudness: Option<Loudness>) -> Seq<char> {
    if crate::dictation::is_no_speech(text) && (loudness matches Some(l) && l.low_confidence) {
        Seq::empty()
    } else {
        text
    }
}

/// The name that a file goes by: without its last extension and without what stands before the last
/// but one full stop.
pub open spec fn stem(name: Seq<char>) -> Seq<char> {
    match crate::text::last_at(name, "."@) {
        Some(k) => {
            let head = name.take(k);
            match crate::text::last_at(head, "."@) {
                Some(j) => head.skip(j + 1),
                None => head,
            }
        },
        None => name,
    }
}

/// The name that the audio was sent under.
pub open spec fn source_name(form: FormView) -> Seq<char> {
    match form.audio_name {
        Some(n) => n,
        None => "audio"@,
    }
}

/// The note that keeps a transcription. Its title is taken from the text, else from the name of the
/// file.
pub open spec fn kept_note(
    form: FormView,
    project_id: Seq<char>,
    text: Seq<char>,
    language: Option<Seq<char>>,
    duration: Option<u64>,
    id: Seq<char>,
    now: i64,
) -> crate::records::NoteView {
    crate::records::NoteView {
        id,
        project_id,
        title: match crate::reply::title_of(text) {
            Some(t) => t,
            None => stem(source_name(form)),
        },
        text,
        source_name: Some(source_name(form)),
        language,
        duration,
        meta: None,
        parent_id: form.parent_id,
        position: 0,
        created_at: now,
        updated_at: now,
    }
}

/// What answering a transcription comes to: the tables after it and the answer. Where the user asks
/// for it and there is a text, it is kept as a note; where that fails, the answer names no note.
pub open spec fn answered(
    v: crate::schema::StorageView,
    form: FormView,
    text: Seq<char>,
    language: Option<Seq<char>>,
    duration: Option<u64>,
    id: Seq<char>,
    now: i64,
) -> (crate::schema::StorageView, Result<ResponseView, crate::chat::ErrorView>) {
    match project_for(v, form.project_id) {
        None => (v, Err(crate::chat::broken("no project exists"@))),
        Some(project) => {
            let note = kept_note(form, project, text, language, duration, id, now);
            let kept = form.save_as_note && !crate::text::blank(text);
            let refused = crate::storage::note_refusal(v, note) is Some;
            (
                if !kept {
                    v
                } else if refused {
                    crate::storage::room_made(v, project)
                } else {
                    crate::storage::note_added(v, note)
                },
                Ok(
                    ResponseView {
                        text,
                        language,
                        duration,
                        note_id: if kept && !refused {
                            Some(id)
                        } else {
                            None
                        },
                        project_id: Some(project),
                    },
                ),
            )
        },
    }
}

/// The model of an answer.
pub open spec fn response_view(r: Result<TranscriptionResponse, AppError>) -> Result<
    ResponseView,
    crate::chat::ErrorView,
> {
    match r {
        Ok(a) => Ok(a@),
        Err(e) => Err(e@),
    }
}

/// Whether there is room for a note in the project that a transcription belongs to.
pub open spec fn can_keep(v: crate::schema::StorageView, named: Option<Seq<char>>) -> bool {
    project_for(v, named) matches Some(p) ==> crate::storage::can_move_down(v.notes, p)
}

/// Whether there is room for a note in the project that a transcription belongs to.
pub fn has_room_for(storage: &Storage, form: &TranscribeForm) -> (r: bool)
    ensures
        r == can_keep(storage@, form@.project_id),
{
    match resolve_project(storage, &form.project_id) {
        Ok(id) => storage.has_room(id.as_str()),
        Err(_) => true,
    }
}

fn file_stem(name: &str) -> (r: String)
    ensures
        r@ == stem(name@),
{
    let s = chars_of(name);
    proof {
        reveal_strlit(".");
    }
    match rfind(s.as_slice(), ".") {
        Some(k) => {
            let head = slice_subrange(s.as_slice(), 0, k);
            assert(head@ =~= name@.take(k as int));
            match rfind(head, ".") {
                Some(j) => {
                    let part = slice_subrange(head, j + 1, k);
                    assert(part@ =~= head@.skip(j + 1));
                    text_of(part)
                },
                None => text_of(head),
            }
        },
        None => name.to_owned(),
    }
}

/// Answers a transcription, and keeps it as a note with the given identifier at the given time where
/// the user asks for it. `text` is what was heard, corrected where that was asked for.
pub fn answer_transcription_with(
    storage: &mut Storage,
    form: &TranscribeForm,
    loudness: Option<Loudness>,
    heard: &Heard,
    text: String,
    id: String,
    now: i64,
) -> (r: Result<TranscriptionResponse, AppError>)
    requires
        old(storage)@.wf(),
        can_keep(old(storage)@, form@.project_id),
    ensures
        final(storage)@.wf(),
        (final(storage)@, response_view(r)) == answered(
            old(storage)@,
            form@,
            heard_text(text@, loudness),
            crate::text::opt_view(heard.language),
            heard.duration,
            id@,
            now,
        ),
{
    let little = match loudness {
        Some(l) => l.low_confidence,
        None => false,
    };
    let text = if little && transcription_looks_like_no_speech_hallucination(text.as_str()) {
        let nothing = String::new();
        assert(nothing@ =~= Seq::empty());
        nothing
    } else {
        text
    };
    let project = resolve_project(storage, &form.project_id)?;
    let mut note_id: Option<String> = None;
    if form.save_as_note && !is_blank(text.as_str()) {
        let name = match &form.audio_name {
            Some(n) => n.clone(),
            None => "audio".to_owned(),
        };
        let title = match derive_title_from_text(text.as_str()) {
            Some(t) => t,
            None => file_stem(name.as_str()),
        };
        let note = Note {
            id,
            project_id: project.clone(),
            title,
            text: text.clone(),
            source_name: Some(name),
            language: copy_opt(&heard.language),
            duration: heard.duration,
            meta: None,
            parent_id: copy_opt(&form.parent_id),
            position: 0,
            created_at: now,
            updated_at: now,
        };
        if storage.add_note(&note).is_ok() {
            note_id = Some(note.id);
        }
    }
    Ok(
        TranscriptionResponse {
            text,
            language: copy_opt(&heard.language),
            duration: heard.duration,
            note_id,
            project_id: Some(project),
        },
    )
}

/// Answers a transcription, and keeps it as a note where the user asks for it.
pub fn answer_transcription(
    storage: &mut Storage,
    form: &TranscribeForm,
    loudness: Option<Loudness>,
    heard: &Heard,
    text: String,
) -> (r: Result<TranscriptionResponse, AppError>)
    requires
        old(storage)@.wf(),
        can_keep(old(storage)@, form@.project_id),
    ensures
        final(storage)@.wf(),
        exists|id: Seq<char>, now: i64|
            crate::ids::is_uuid(id) && crate::ids::is_reading(now) && (
                final(storage)@,
                response_view(r),
            ) == #[trigger] answered(
                old(storage)@,
                form@,
                heard_text(text@, loudness),
                crate::text::opt_view(heard.language),
                heard.duration,
                id,
                now,
            ),
{
    let id = new_id();
    let now: i64 = now_ms();
    let ghost outcome = answered(
        old(storage)@,
        form@,
        heard_text(text@, loudness),
        crate::text::opt_view(heard.language),
        heard.duration,
        id@,
        now,
    );
    answer_transcription_with(storage, form, loudness, heard, text, id, now)
}

/// A transcription is kept only where the user asks for it and anything was heard: without that
/// nothing is stored, and no note is named.
pub proof fn law_nothing_is_kept_unasked(
    v: crate::schema::StorageView,
    form: FormView,
    text: Seq<char>,
    language: Option<Seq<char>>,
    duration: Option<u64>,
    id: Seq<char>,
    now: i64,
)
    requires
        !form.save_as_note || crate::text::blank(text),
    ensures
        answered(v, form, text, language, duration, id, now).0 == v,
        answered(v, form, text, language, duration, id, now).1 matches Ok(a) ==> a.note_id is None
            && a.text == text,
{
}

/// A note that an answer names is stored, with the text of the answer.
pub proof fn law_named_note_is_stored(
    v: crate::schema::StorageView,
    form: FormView,
    text: Seq<char>,
    language: Option<Seq<char>>,
    duration: Option<u64>,
    id: Seq<char>,
    now: i64,
)
    requires
        v.wf(),
        can_keep(v, form.project_id),
    ensures
        ({
            let (w, r) = answered(v, form, text, language, duration, id, now);
            r is Ok && r->Ok_0.note_id is Some ==> (crate::tables::row_of(w.notes, id) matches Some(
                n,
            ) && n.text == text && Some(n.project_id) == r->Ok_0.project_id)
        }),
{
    let (w, r) = answered(v, form, text, language, duration, id, now);
    if let Ok(a) = r {
        if a.note_id is Some {
            let p = project_for(v, form.project_id)->0;
            let note = kept_note(form, p, text, language, duration, id, now);
            crate::promises::law_note_is_read_back(v, note);
        }
    }
}

/// The project that the user chose is the project of the answer, whatever other projects there are.
/// A note that the answer names is the transcription, and stands in that project under the note that
/// the user chose.
pub proof fn law_chosen_project_is_used(
    v: crate::schema::StorageView,
    form: TranscribeForm,
    chosen: String,
    text: Seq<char>,
    language: Option<Seq<char>>,
    duration: Option<u64>,
    id: Seq<char>,
    now: i64,
)
    requires
        v.wf(),
        form.project_id == Some(chosen),
    ensures
        ({
            let (w, r) = answered(v, form@, text, language, duration, id, now);
            r matches Ok(a) && a.project_id == Some(chosen@) && a.text == text && a.language
                == language && a.duration == duration && (a.note_id is Some ==> a.note_id == Some(
                id,
            ) && (crate::tables::row_of(w.notes, id) matches Some(n) && n.project_id == chosen@
                && n.text == text && n.language == language && n.duration == duration && n.position
                == 0 && n.created_at == now && n.updated_at == now && n.meta is None && n.parent_id
                == match form.parent_id {
                Some(parent) => Some(parent@),
                None => None,
            }))
        }),
{
    let (w, r) = answered(v, form@, text, language, duration, id, now);
    let a = r->Ok_0;
    if a.note_id is Some {
        let note = kept_note(form@, chosen@, text, language, duration, id, now);
        crate::promises::law_note_is_read_back(v, note);
    }
}

/// Where the user chose no project, the answer is of a project that is as old as any; without
/// projects there is none to answer with.
pub proof fn law_oldest_project_stands_in(
    v: crate::schema::StorageView,
    form: TranscribeForm,
    text: Seq<char>,
    language: Option<Seq<char>>,
    duration: Option<u64>,
    id: Seq<char>,
    now: i64,
)
    requires
        form.project_id is None,
    ensures
        ({
            let (w, r) = answered(v, form@, text, language, duration, id, now);
            if v.projects.len() == 0 {
                w == v && (r matches Err(e) && e.status == 500)
            } else {
                r matches Ok(a) && exists|k: int|
                    0 <= k < v.projects.len() && a.project_id == Some(
                        (#[trigger] v.projects[k]).id,
                    ) && forall|i: int|
                        0 <= i < v.projects.len() ==> v.projects[k].created_at <= (
                        #[trigger] v.projects[i]).created_at
            }
        }),
{
    if v.projects.len() > 0 {
        let first = crate::tables::sorted_by(v.projects, crate::storage::oldest_first())[0];
        crate::promises::law_default_project_is_the_oldest(v, 0);
        let k = choose|k: int| 0 <= k < v.projects.len() && v.projects[k] == first;
        assert forall|i: int| 0 <= i < v.projects.len() implies v.projects[k].created_at <= (
        #[trigger] v.projects[i]).created_at by {
            crate::promises::law_default_project_is_the_oldest(v, i);
        }
    }
}

/// A transcription that the user wants kept is kept: where there is a text, the chosen project is
/// there, and so is the note that it is to stand under.
pub proof fn law_wanted_note_is_kept(
    v: crate::schema::StorageView,
    form: TranscribeForm,
    chosen: String,
    text: Seq<char>,
    language: Option<Seq<char>>,
    duration: Option<u64>,
    id: Seq<char>,
    now: i64,
)
    requires
        form.project_id == Some(chosen),
        form.save_as_note,
        exists|i: int| 0 <= i < text.len() && !crate::text::is_white(#[trigger] text[i]),
        crate::tables::has_key(v.projects, chosen@),
        !crate::tables::has_key(v.notes, id),
        form.parent_id matches Some(parent) ==> crate::tables::has_key(v.notes, parent@),
    ensures
        answered(v, form@, text, language, duration, id, now).1 matches Ok(a) && a.note_id == Some(
            id,
        ),
        answered(v, form@, text, language, duration, id, now).0.notes.len() == v.notes.len() + 1,
{
    crate::text::lemma_blank(text);
}

/// Each field of the form is taken from the field of its name, trimmed, and changes no other. A
/// project or a note that is left blank changes nothing.
pub proof fn law_fields_go_by_their_names(f: FormView, value: Seq<char>)
    ensures
        with_field(f, "language"@, value) == (FormView {
            language: Some(crate::text::trimmed(value)),
            ..f
        }),
        with_field(f, "speech_model"@, value) == (FormView {
            speech_model: Some(crate::text::trimmed(value)),
            ..f
        }),
        with_field(f, "transcription_prompt"@, value) == (FormView {
            transcription_prompt: Some(crate::text::trimmed(value)),
            ..f
        }),
        crate::text::trimmed(value).len() > 0 ==> with_field(f, "project_id"@, value) == (
        FormView { project_id: Some(crate::text::trimmed(value)), ..f }),
        crate::text::trimmed(value).len() > 0 ==> with_field(f, "parent_id"@, value) == (
        FormView { parent_id: Some(crate::text::trimmed(value)), ..f }),
        crate::text::trimmed(value).len() == 0 ==> with_field(f, "project_id"@, value) == f
            && with_field(f, "parent_id"@, value) == f,
        with_field(f, "save_as_note"@, value) == (FormView {
            save_as_note: {
                let w = crate::text::lowered(crate::text::trimmed(value));
                w == "1"@ || w == "true"@ || w == "yes"@ || w == "on"@
            },
            ..f
        }),
        forall|name: Seq<char>|
            name != "language"@ && name != "speech_model"@ && name != "transcription_prompt"@
                && name != "project_id"@ && name != "parent_id"@ && name != "save_as_note"@
                ==> #[trigger] with_field(f, name, value) == f,
{
    reveal_strlit("language");
    reveal_strlit("speech_model");
    reveal_strlit("transcription_prompt");
    reveal_strlit("project_id");
    reveal_strlit("parent_id");
    reveal_strlit("save_as_note");
    assert("language"@.len() == 8 && "speech_model"@.len() == 12);
    assert("transcription_prompt"@.len() == 20 && "project_id"@.len() == 10);
    assert("parent_id"@.len() == 9 && "save_as_note"@.len() == 12);
    assert("speech_model"@[1] == 'p' && "save_as_note"@[1] == 'a');
    let w = crate::text::lowered(crate::text::trimmed(value));
    let list = yes_words();
    assert(list[0] == "1"@ && list[1] == "true"@ && list[2] == "yes"@ && list[3] == "on"@);
    if list.contains(w) {
        let n = choose|n: int| 0 <= n < list.len() && list[n] == w;
        assert(w == list[n]);
    }
}

/// What was heard is answered as it stands, unless there was hardly anything to be heard; then a text
/// that models make up of silence is answered with nothing.
pub proof fn law_clear_speech_is_answered(text: Seq<char>, loudness: Option<Loudness>)
    ensures
        loudness is None ==> heard_text(text, loudness) == text,
        loudness matches Some(l) && !l.low_confidence ==> heard_text(text, loudness) == text,
        heard_text(text, loudness) == text || heard_text(text, loudness).len() == 0,
        !crate::dictation::is_no_speech(text) ==> heard_text(text, loudness) == text,
        crate::dictation::is_no_speech(text) && (loudness matches Some(l) && l.low_confidence)
            ==> heard_text(text, loudness).len() == 0,
{
}

/// The title of a note without a title in its text is the name of the file without its extension.
pub proof fn law_stem_drops_the_extension(name: Seq<char>, extension: Seq<char>)
    requires
        !name.contains('.'),
        !extension.contains('.'),
    ensures
        stem(name) == name,
        stem(name + "."@ + extension) == name,
{
    reveal_strlit(".");
    let dot = "."@;
    assert(dot =~= seq!['.']);
    let whole = name + dot + extension;
    let k = name.len() as int;
    crate::text::lemma_last_at(name, dot);
    crate::text::lemma_last_at(whole, dot);
    assert forall|i: int| !#[trigger] crate::text::occurs_at(name, dot, i) by {
        if crate::text::occurs_at(name, dot, i) {
            assert(name.subrange(i, i + 1)[0] == '.');
            assert(name.contains(name[i]));
        }
    }
    assert(whole.subrange(k, k + 1) =~= dot);
    assert(crate::text::occurs_at(whole, dot, k));
    assert forall|i: int| i > k implies !#[trigger] crate::text::occurs_at(whole, dot, i) by {
        if crate::text::occurs_at(whole, dot, i) {
            assert(whole.subrange(i, i + 1)[0] == '.');
            assert(whole[i] == extension[i - k - 1]);
            assert(extension.contains(extension[i - k - 1]));
        }
    }
    assert(crate::text::last_at(name, dot) is None);
    assert(crate::text::last_at(whole, dot) == Some(k));
    assert(whole.take(k) =~= name);
}

/// A recording that is lacking or empty is refused and told apart, and any other is taken.
pub proof fn law_lacking_recordings_are_told(audio: Option<Seq<u8>>)
    ensures
        audio is None ==> form_refusal(audio) == Some(
            crate::chat::ErrorView { status: 400, message: "音声ファイルがありません"@ },
        ),
        audio matches Some(b) ==> (b.len() == 0 ==> form_refusal(audio) == Some(
            crate::chat::ErrorView { status: 400, message: "音声ファイルが空です"@ },
        )),
        audio matches Some(b) ==> (b.len() > 0 ==> form_refusal(audio) is None),
{
}

/// A field with something in it replaces what stood before, without the white space round it, and
/// one without leaves it.
pub proof fn law_filled_fields_replace(value: Seq<char>, before: Option<Seq<char>>)
    ensures
        crate::text::blank(value) ==> unless_blank(value, before) == before,
        !crate::text::blank(value) ==> unless_blank(value, before) == Some(
            crate::text::trimmed(value),
        ),
{
}

/// Without a project to keep it in, what was heard is not answered, and nothing is stored.
pub proof fn law_no_project_is_told(
    v: crate::schema::StorageView,
    form: FormView,
    text: Seq<char>,
    language: Option<Seq<char>>,
    duration: Option<u64>,
    id: Seq<char>,
    now: i64,
)
    requires
        form.project_id is None,
        v.projects.len() == 0,
    ensures
        ({
            let (w, r) = answered(v, form, text, language, duration, id, now);
            &&& w == v
            &&& r matches Err(e) && e.status == 500 && e.message == "no project exists"@
        }),
{
}

/// The note that is kept holds what was heard, in the project and under the note that were asked for,
/// under the name of the recording and as new as the request. Its title is one that the text gives,
/// or else the name of the recording without its extension.
pub proof fn law_kept_note_holds_what_was_heard(
    v: crate::schema::StorageView,
    form: FormView,
    chosen: Seq<char>,
    text: Seq<char>,
    language: Option<Seq<char>>,
    duration: Option<u64>,
    id: Seq<char>,
    now: i64,
)
    requires
        v.wf(),
        form.project_id == Some(chosen),
        form.save_as_note,
        !crate::text::blank(text),
        crate::tables::has_key(v.projects, chosen),
        !crate::tables::has_key(v.notes, id),
        form.parent_id matches Some(parent) ==> crate::tables::has_key(v.notes, parent),
    ensures
        ({
            let w = answered(v, form, text, language, duration, id, now).0;
            let name = match form.audio_name {
                Some(n) => n,
                None => "audio"@,
            };
            &&& crate::tables::row_of(w.notes, id) matches Some(n)
            &&& n.project_id == chosen && n.parent_id == form.parent_id
            &&& n.text == text && n.language == language && n.duration == duration
            &&& n.source_name == Some(name)
            &&& n.meta is None && n.position == 0 && n.created_at == now && n.updated_at == now
            &&& crate::reply::title_of(text) matches Some(t) ==> n.title == t
            &&& crate::reply::title_of(text) is None ==> n.title == stem(name)
        }),
        answered(v, form, text, language, duration, id, now).1 matches Ok(a) && a.text == text
            && a.language == language && a.duration == duration && a.note_id == Some(id)
            && a.project_id == Some(chosen),
{
    let note = kept_note(form, chosen, text, language, duration, id, now);
    crate::promises::law_note_is_read_back(v, note);
}

} // verus!
