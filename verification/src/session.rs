//! Running live captioning sessions.

use crate::chat::AppError;
use crate::ids::{new_id, new_ids};
use crate::live::split_live_source_units;
use crate::records::{LiveSegment, LiveSession};
use crate::text::{
    chars_of, copy_opt, fill, fill_owned, is_blank, join, parse_i64, same, text_of, trim, trim_end,
    trim_text,
};
use vstd::prelude::*;

verus! {

// ---------------------------------------------------------------------------
// The state of a session
// ---------------------------------------------------------------------------

/// A running session. What was said and is no whole sentence yet waits in `pending_source_text`.
pub struct LiveSessionState {
    pub id: String,
    pub title: String,
    pub started_at: i64,
    pub source_language: Option<String>,
    pub target_language: Option<String>,
    pub speech_model: Option<String>,
    pub translate_model: Option<String>,
    pub translate: bool,
    pub sequence: i64,
    pub segments: Vec<LiveSegment>,
    pub pending_source_text: String,
    pub pending_start_ms: Option<i64>,
}

/// The model of a [`LiveSessionState`].
#[verifier::ext_equal]
pub struct StateView {
    pub id: Seq<char>,
    pub title: Seq<char>,
    pub started_at: i64,
    pub source_language: Option<Seq<char>>,
    pub target_language: Option<Seq<char>>,
    pub speech_model: Option<Seq<char>>,
    pub translate_model: Option<Seq<char>>,
    pub translate: bool,
    pub sequence: i64,
    pub segments: Seq<crate::records::LiveSegmentView>,
    pub pending: Seq<char>,
    pub pending_start_ms: Option<i64>,
}

impl View for LiveSessionState {
    type V = StateView;

    open spec fn view(&self) -> StateView {
        StateView {
            id: self.id@,
            title: self.title@,
            started_at: self.started_at,
            source_language: crate::text::opt_view(self.source_language),
            target_language: crate::text::opt_view(self.target_language),
            speech_model: crate::text::opt_view(self.speech_model),
            translate_model: crate::text::opt_view(self.translate_model),
            translate: self.translate,
            sequence: self.sequence,
            segments: crate::records::views(self.segments@),
            pending: self.pending_source_text@,
            pending_start_ms: self.pending_start_ms,
        }
    }
}

impl StateView {
    /// The segments of a session are numbered in a row and belong to it, and the next number is
    /// how many there are.
    pub open spec fn wf(self) -> bool {
        &&& self.sequence == self.segments.len()
        &&& forall|i: int|
            0 <= i < self.segments.len() ==> (#[trigger] self.segments[i]).sequence == i
                && self.segments[i].session_id == self.id
    }

    /// The texts of the segments.
    pub open spec fn source_texts(self) -> Seq<Seq<char>> {
        Seq::new(self.segments.len(), |i: int| self.segments[i].source_text)
    }

    /// Everything that was said, without white space: the segments, and what still waits.
    pub open spec fn said(self) -> Seq<char> {
        crate::live::spoken(self.source_texts()) + crate::live::squeezed(self.pending)
    }
}

/// What a session is started with.
pub struct LiveStartRequest {
    pub title: Option<String>,
    pub source_language: Option<String>,
    pub target_language: Option<String>,
    pub speech_model: Option<String>,
    pub translate_model: Option<String>,
    pub translate: Option<bool>,
}

/// A session before its first chunk.
pub open spec fn started(q: LiveStartRequest, id: Seq<char>, now: i64) -> StateView {
    StateView {
        id,
        title: match crate::text::filled(crate::text::opt_view(q.title)) {
            Some(t) => t,
            None => "Live session"@,
        },
        started_at: now,
        source_language: crate::text::filled(crate::text::opt_view(q.source_language)),
        target_language: crate::text::filled(crate::text::opt_view(q.target_language)),
        speech_model: crate::text::filled(crate::text::opt_view(q.speech_model)),
        translate_model: crate::text::filled(crate::text::opt_view(q.translate_model)),
        translate: match q.translate {
            Some(b) => b,
            None => true,
        },
        sequence: 0,
        segments: Seq::empty(),
        pending: Seq::empty(),
        pending_start_ms: None,
    }
}

/// A session with the given identifier.
pub fn live_session_with_id(request: &LiveStartRequest, id: String, now: i64) -> (r:
    LiveSessionState)
    ensures
        r@ == started(*request, id@, now),
        r@.wf(),
{
    let title = match fill_owned(&request.title) {
        Some(t) => t,
        None => "Live session".to_owned(),
    };
    let r = LiveSessionState {
        id,
        title,
        started_at: now,
        source_language: fill_owned(&request.source_language),
        target_language: fill_owned(&request.target_language),
        speech_model: fill_owned(&request.speech_model),
        translate_model: fill_owned(&request.translate_model),
        translate: match request.translate {
            Some(b) => b,
            None => true,
        },
        sequence: 0,
        segments: Vec::new(),
        pending_source_text: String::new(),
        pending_start_ms: None,
    };
    assert(r@ =~= started(*request, id@, now));
    r
}

// ---------------------------------------------------------------------------
// Adding sentences
// ---------------------------------------------------------------------------

/// A segment as it is reported to the client.
#[derive(Debug)]
pub struct LiveChunkSegmentResponse {
    pub sequence: i64,
    pub source_text: String,
    pub translated_text: Option<String>,
    pub elapsed_ms: i64,
}

/// The model of a [`LiveChunkSegmentResponse`].
#[verifier::ext_equal]
pub struct ReportView {
    pub sequence: i64,
    pub source_text: Seq<char>,
    pub translated_text: Option<Seq<char>>,
    pub elapsed_ms: i64,
}

impl View for LiveChunkSegmentResponse {
    type V = ReportView;

    open spec fn view(&self) -> ReportView {
        ReportView {
            sequence: self.sequence,
            source_text: self.source_text@,
            translated_text: crate::text::opt_view(self.translated_text),
            elapsed_ms: self.elapsed_ms,
        }
    }
}

/// The segment that a sentence makes.
pub open spec fn segment_of(
    id: Seq<char>,
    session_id: Seq<char>,
    sequence: int,
    start_ms: i64,
    unit: Seq<char>,
) -> crate::records::LiveSegmentView {
    crate::records::LiveSegmentView {
        id,
        session_id,
        sequence: sequence as i64,
        start_ms,
        source_text: unit,
        translated_text: None,
    }
}

/// The session with the sentences `units` as its next segments.
pub open spec fn pushed(
    v: StateView,
    units: Seq<Seq<char>>,
    ids: Seq<Seq<char>>,
    start_ms: i64,
) -> StateView {
    StateView {
        sequence: (v.sequence + units.len()) as i64,
        segments: v.segments + Seq::new(
            units.len(),
            |k: int| segment_of(ids[k], v.id, v.sequence + k, start_ms, units[k]),
        ),
        ..v
    }
}

/// How the next segments are reported.
pub open spec fn reports(units: Seq<Seq<char>>, sequence: i64, start_ms: i64) -> Seq<ReportView> {
    Seq::new(
        units.len(),
        |k: int|
            ReportView {
                sequence: (sequence + k) as i64,
                source_text: units[k],
                translated_text: None,
                elapsed_ms: start_ms,
            },
    )
}

/// Adds the sentences `units`, one of the identifiers to each, as the next segments.
pub fn push_live_segments(
    session: &mut LiveSessionState,
    units: &Vec<String>,
    ids: &Vec<String>,
    start_ms: i64,
) -> (r: Vec<LiveChunkSegmentResponse>)
    requires
        ids@.len() == units@.len(),
        old(session)@.sequence + units@.len() <= i64::MAX,
    ensures
        final(session)@ == pushed(
            old(session)@,
            crate::text::texts(units@),
            crate::text::texts(ids@),
            start_ms,
        ),
        old(session)@.wf() ==> final(session)@.wf(),
        crate::records::views(r@) == reports(
            crate::text::texts(units@),
            old(session)@.sequence,
            start_ms,
        ),
{
    let ghost before = session@;
    let ghost unit_texts = crate::text::texts(units@);
    let ghost id_texts = crate::text::texts(ids@);
    let mut out: Vec<LiveChunkSegmentResponse> = Vec::new();
    let mut i: usize = 0;
    assert(session@ =~= pushed(before, unit_texts.take(0), id_texts.take(0), start_ms));
    assert(crate::records::views(out@) =~= reports(unit_texts.take(0), before.sequence, start_ms));
    while i < units.len()
        invariant
            i <= units.len(),
            ids@.len() == units@.len(),
            before.sequence + units@.len() <= i64::MAX,
            unit_texts == crate::text::texts(units@),
            id_texts == crate::text::texts(ids@),
            session@ == pushed(
                before,
                unit_texts.take(i as int),
                id_texts.take(i as int),
                start_ms,
            ),
            crate::records::views(out@) == reports(
                unit_texts.take(i as int),
                before.sequence,
                start_ms,
            ),
        decreases units.len() - i,
    {
        let ghost middle = session@;
        let ghost told = crate::records::views(out@);
        let seq: i64 = session.sequence;
        let segment = LiveSegment {
            id: ids[i].clone(),
            session_id: session.id.clone(),
            sequence: seq,
            start_ms,
            source_text: units[i].clone(),
            translated_text: None,
        };
        let ghost added = segment@;
        session.sequence = seq + 1;
        session.segments.push(segment);
        let report = LiveChunkSegmentResponse {
            sequence: seq,
            source_text: units[i].clone(),
            translated_text: None,
            elapsed_ms: start_ms,
        };
        let ghost reported = report@;
        out.push(report);
        proof {
            assert(session@.segments =~= middle.segments.push(added));
            assert(unit_texts.take(i + 1).last() == units@[i as int]@);
            assert(id_texts.take(i + 1).last() == ids@[i as int]@);
            let longer = pushed(
                before,
                unit_texts.take(i + 1),
                id_texts.take(i + 1),
                start_ms,
            );
            assert forall|k: int| 0 <= k < longer.segments.len() implies (#[trigger]
            longer.segments[k]) == session@.segments[k] by {
                let n = before.segments.len();
                if k < n {
                    assert(middle.segments[k] == before.segments[k]);
                } else if k < n + i {
                    assert(unit_texts.take(i + 1)[k - n] == unit_texts.take(i as int)[k - n]);
                    assert(id_texts.take(i + 1)[k - n] == id_texts.take(i as int)[k - n]);
                    assert(middle.segments[k] == longer.segments[k]);
                }
            }
            assert(session@.segments =~= longer.segments);
            assert(session@ =~= longer);
            assert(crate::records::views(out@) =~= told.push(reported));
            let told_longer = reports(unit_texts.take(i + 1), before.sequence, start_ms);
            assert forall|k: int| 0 <= k < told_longer.len() implies (#[trigger] told_longer[k])
                == told.push(reported)[k] by {
                if k < i {
                    assert(unit_texts.take(i + 1)[k] == unit_texts.take(i as int)[k]);
                    assert(told[k] == told_longer[k]);
                }
            }
            assert(told.push(reported) =~= told_longer);
        }
        i = i + 1;
    }
    assert(unit_texts.take(unit_texts.len() as int) =~= unit_texts);
    assert(id_texts.take(id_texts.len() as int) =~= id_texts);
    proof {
        let v = session@;
        if before.wf() {
            assert forall|k: int| 0 <= k < v.segments.len() implies (#[trigger]
            v.segments[k]).sequence == k && v.segments[k].session_id == v.id by {
                if k < before.segments.len() {
                    assert(v.segments[k] == before.segments[k]);
                }
            }
        }
    }
    out
}

/// Whether `ids` are `n` fresh identifiers.
pub open spec fn fresh_ids(ids: Seq<Seq<char>>, n: nat) -> bool {
    &&& ids.len() == n
    &&& forall|i: int| 0 <= i < n ==> crate::ids::is_uuid(#[trigger] ids[i])
}

/// Adds the sentences `units` as the next segments, under fresh identifiers.
pub fn push_live_source_units(
    session: &mut LiveSessionState,
    units: Vec<String>,
    start_ms: i64,
) -> (r: Vec<LiveChunkSegmentResponse>)
    requires
        old(session)@.sequence + units@.len() <= i64::MAX,
    ensures
        exists|ids: Seq<Seq<char>>| #[trigger]
            fresh_ids(ids, units@.len()) && final(session)@ == pushed(
                old(session)@,
                crate::text::texts(units@),
                ids,
                start_ms,
            ),
        old(session)@.wf() ==> final(session)@.wf(),
        crate::records::views(r@) == reports(
            crate::text::texts(units@),
            old(session)@.sequence,
            start_ms,
        ),
{
    let ids = new_ids(units.len());
    let ghost id_texts = crate::text::texts(ids@);
    proof {
        assert forall|i: int| 0 <= i < units@.len() implies crate::ids::is_uuid(
            #[trigger] id_texts[i],
        ) by {
            assert(id_texts[i] == ids@[i]@);
        }
        assert(fresh_ids(id_texts, units@.len()));
    }
    push_live_segments(session, &units, &ids, start_ms)
}

// ---------------------------------------------------------------------------
// A chunk of speech
// ---------------------------------------------------------------------------

/// What waits and the new text, put together.
pub open spec fn combined(pending: Seq<char>, text: Seq<char>) -> Seq<char> {
    if crate::text::blank(pending) {
        crate::text::trimmed(text)
    } else {
        crate::text::trimmed(pending) + " "@ + crate::text::trimmed(text)
    }
}

/// The sentences that are whole with the new text, and what waits after it.
pub open spec fn chunk_split(v: StateView, text: Seq<char>) -> (Seq<Seq<char>>, Seq<char>) {
    if crate::text::blank(text) {
        (Seq::empty(), v.pending)
    } else {
        crate::live::split_units(combined(v.pending, text), false)
    }
}

/// When the sentences of a chunk began: when what waited did, or with the chunk.
pub open spec fn chunk_start(v: StateView, elapsed_ms: i64) -> i64 {
    match v.pending_start_ms {
        Some(n) => n,
        None => elapsed_ms,
    }
}

/// The session after a chunk in which `text` was said.
pub open spec fn chunk_applied(
    v: StateView,
    text: Seq<char>,
    elapsed_ms: i64,
    ids: Seq<Seq<char>>,
) -> StateView {
    if crate::text::blank(text) {
        v
    } else {
        let (units, rest) = chunk_split(v, text);
        StateView {
            pending: rest,
            pending_start_ms: if crate::text::blank(rest) {
                None
            } else if units.len() == 0 {
                Some(chunk_start(v, elapsed_ms))
            } else {
                Some(elapsed_ms)
            },
            ..pushed(v, units, ids, chunk_start(v, elapsed_ms))
        }
    }
}

/// What the client is told of a chunk.
#[derive(Debug)]
pub struct LiveChunkResponse {
    pub sequence: i64,
    pub source_text: String,
    pub translated_text: Option<String>,
    pub elapsed_ms: i64,
    pub segments: Vec<LiveChunkSegmentResponse>,
}

/// Whether `r` is what the client is told of a chunk in which `text` was said: the new segments,
/// the number of the last of them, and their texts on lines of their own; where there is none, the
/// next number and the text itself.
pub open spec fn chunk_answer(
    v: StateView,
    text: Seq<char>,
    elapsed_ms: i64,
    r: LiveChunkResponse,
) -> bool {
    let units = chunk_split(v, text).0;
    &&& r.sequence == if units.len() > 0 {
        v.sequence + units.len() - 1
    } else {
        v.sequence as int
    }
    &&& r.source_text@ == if units.len() > 0 {
        crate::text::joined(units, "\n"@)
    } else {
        crate::text::trimmed(text)
    }
    &&& r.translated_text is None
    &&& r.elapsed_ms == elapsed_ms
    &&& crate::records::views(r.segments@) == reports(
        units,
        v.sequence,
        chunk_start(v, elapsed_ms),
    )
}

/// A chunk makes at most as many sentences as there are characters in what waits and in the chunk,
/// and one.
proof fn lemma_chunk_units(v: StateView, text: Seq<char>)
    ensures
        chunk_split(v, text).0.len() <= v.pending.len() + text.len() + 1,
{
    crate::live::lemma_trimmed_len(v.pending);
    crate::live::lemma_trimmed_len(text);
    crate::live::law_splitting_keeps_every_word(combined(v.pending, text), false);
    reveal_strlit(" ");
}

/// Takes in a chunk of transcribed speech: whole sentences become segments, the rest waits for the
/// next chunk.
pub fn take_chunk(session: &mut LiveSessionState, text: &str, elapsed_ms: i64) -> (r:
    LiveChunkResponse)
    requires
        old(session)@.sequence + chunk_split(old(session)@, text@).0.len() <= i64::MAX,
    ensures
        exists|ids: Seq<Seq<char>>| #[trigger]
            fresh_ids(ids, chunk_split(old(session)@, text@).0.len()) && final(session)@
                == chunk_applied(old(session)@, text@, elapsed_ms, ids),
        old(session)@.wf() ==> final(session)@.wf(),
        chunk_answer(old(session)@, text@, elapsed_ms, r),
{
    let ghost before = session@;
    let source = trim_text(text);
    if source.as_str().is_empty() {
        assert(fresh_ids(Seq::empty(), 0));
        let segments: Vec<LiveChunkSegmentResponse> = Vec::new();
        assert(crate::records::views(segments@) =~= reports(
            Seq::empty(),
            before.sequence,
            chunk_start(before, elapsed_ms),
        ));
        return LiveChunkResponse {
            sequence: session.sequence,
            source_text: source,
            translated_text: None,
            elapsed_ms,
            segments,
        };
    }
    let start: i64 = match session.pending_start_ms {
        Some(n) => n,
        None => elapsed_ms,
    };
    let waiting = trim_text(session.pending_source_text.as_str());
    let whole = if waiting.as_str().is_empty() {
        source.clone()
    } else {
        let mut whole = waiting;
        whole.append(" ");
        whole.append(source.as_str());
        whole
    };
    let (units, rest) = split_live_source_units(whole.as_str(), false);
    proof {
        assert(whole@ == combined(before.pending, text@));
        assert(crate::text::texts(units@) == chunk_split(before, text@).0);
    }
    let count: usize = units.len();
    let ghost unit_texts = crate::text::texts(units@);
    let shown = if count > 0 {
        join(&units, "\n")
    } else {
        source
    };
    let segments = push_live_source_units(session, units, start);
    let ghost ids = choose|ids: Seq<Seq<char>>| #[trigger]
        fresh_ids(ids, unit_texts.len()) && session@ == pushed(before, unit_texts, ids, start);
    let none_left = is_blank(rest.as_str());
    session.pending_source_text = rest;
    session.pending_start_ms = if none_left {
        None
    } else if count == 0 {
        Some(start)
    } else {
        Some(elapsed_ms)
    };
    assert(session@ =~= chunk_applied(before, text@, elapsed_ms, ids));
    let sequence: i64 = if count > 0 {
        session.sequence - 1
    } else {
        session.sequence
    };
    LiveChunkResponse {
        sequence,
        source_text: shown,
        translated_text: None,
        elapsed_ms,
        segments,
    }
}

// ---------------------------------------------------------------------------
// What waits at the end
// ---------------------------------------------------------------------------

/// The sentences of what waits.
pub open spec fn waiting_units(v: StateView) -> Seq<Seq<char>> {
    crate::live::split_units(v.pending, true).0
}

/// The session with what waited as its last segments.
pub open spec fn flushed(v: StateView, ids: Seq<Seq<char>>) -> StateView {
    StateView {
        pending: Seq::empty(),
        pending_start_ms: None,
        ..pushed(
            v,
            waiting_units(v),
            ids,
            match v.pending_start_ms {
                Some(n) => n,
                None => 0,
            },
        )
    }
}

/// Makes segments of what waits.
pub fn flush_live_pending_source(session: &mut LiveSessionState)
    requires
        old(session)@.sequence + waiting_units(old(session)@).len() <= i64::MAX,
    ensures
        exists|ids: Seq<Seq<char>>| #[trigger]
            fresh_ids(ids, waiting_units(old(session)@).len()) && final(session)@ == flushed(
                old(session)@,
                ids,
            ),
        old(session)@.wf() ==> final(session)@.wf(),
{
    let ghost before = session@;
    let start: i64 = match session.pending_start_ms {
        Some(n) => n,
        None => 0,
    };
    let (units, _) = split_live_source_units(session.pending_source_text.as_str(), true);
    assert(crate::text::texts(units@) == waiting_units(before));
    let ghost unit_texts = crate::text::texts(units@);
    let _ = push_live_source_units(session, units, start);
    let ghost ids = choose|ids: Seq<Seq<char>>| #[trigger]
        fresh_ids(ids, unit_texts.len()) && session@ == pushed(before, unit_texts, ids, start);
    session.pending_source_text = String::new();
    session.pending_start_ms = None;
    assert(session@ =~= flushed(before, ids));
}

proof fn lemma_pushed_texts(
    v: StateView,
    units: Seq<Seq<char>>,
    ids: Seq<Seq<char>>,
    start_ms: i64,
)
    ensures
        pushed(v, units, ids, start_ms).source_texts() == v.source_texts() + units,
{
    let w = pushed(v, units, ids, start_ms);
    assert forall|k: int| 0 <= k < w.segments.len() implies w.source_texts()[k] == (
    v.source_texts() + units)[k] by {
        if k < v.segments.len() {
            assert(w.segments[k] == v.segments[k]);
        }
    }
    assert(w.source_texts() =~= v.source_texts() + units);
}

/// Nothing that was said is lost: after a chunk, the segments and what waits hold what they held
/// before and the text of the chunk, but for white space.
pub proof fn law_chunk_keeps_every_word(
    v: StateView,
    text: Seq<char>,
    elapsed_ms: i64,
    ids: Seq<Seq<char>>,
)
    ensures
        chunk_applied(v, text, elapsed_ms, ids).said() == v.said() + crate::live::squeezed(text),
{
    crate::live::lemma_squeezed_trimmed(text);
    crate::live::lemma_squeezed_trimmed(v.pending);
    if crate::text::blank(text) {
        let t = crate::text::trimmed(text);
        assert(t =~= Seq::empty());
        assert(crate::live::squeezed(Seq::<char>::empty()) =~= Seq::<char>::empty()) by {
            reveal_with_fuel(Seq::filter, 1);
        }
        assert(v.said() + Seq::<char>::empty() =~= v.said());
    } else {
        let (units, rest) = chunk_split(v, text);
        let whole = combined(v.pending, text);
        let w = chunk_applied(v, text, elapsed_ms, ids);
        crate::live::law_splitting_keeps_every_word(whole, false);
        lemma_pushed_texts(v, units, ids, chunk_start(v, elapsed_ms));
        assert(w.source_texts() =~= pushed(
            v,
            units,
            ids,
            chunk_start(v, elapsed_ms),
        ).source_texts());
        crate::live::lemma_spoken_append(v.source_texts(), units);
        let a = crate::live::spoken(v.source_texts());
        let b = crate::live::spoken(units);
        let c = crate::live::squeezed(rest);
        assert(a + b + c =~= a + (b + c));
        assert(crate::live::squeezed(whole) == crate::live::squeezed(v.pending)
            + crate::live::squeezed(text)) by {
            if crate::text::blank(v.pending) {
                let p = crate::text::trimmed(v.pending);
                assert(p =~= Seq::empty());
                assert(crate::live::squeezed(Seq::<char>::empty()) =~= Seq::<char>::empty()) by {
                    reveal_with_fuel(Seq::filter, 1);
                }
                assert(Seq::<char>::empty() + crate::live::squeezed(text)
                    =~= crate::live::squeezed(text));
            } else {
                let p = crate::text::trimmed(v.pending);
                let t = crate::text::trimmed(text);
                reveal_strlit(" ");
                assert(" "@ =~= seq![' ']);
                crate::live::lemma_squeezed_append(p, " "@);
                crate::live::lemma_squeezed_append(p + " "@, t);
                crate::live::lemma_squeezed_one(' ');
                assert(crate::live::squeezed(p) + Seq::<char>::empty() =~= crate::live::squeezed(
                    p,
                ));
            }
        }
        assert(a + (crate::live::squeezed(v.pending) + crate::live::squeezed(text)) =~= v.said()
            + crate::live::squeezed(text));
    }
}

/// What waits becomes the next segments, one for each of its sentences, which all began when what
/// waits did; nothing waits any more, and nothing else of the session changes. Doing it again, with
/// whatever identifiers, adds nothing.
pub proof fn law_flush_makes_segments_of_what_waits(
    v: StateView,
    ids: Seq<Seq<char>>,
    more: Seq<Seq<char>>,
)
    requires
        v.sequence + waiting_units(v).len() <= i64::MAX,
    ensures
        ({
            let w = flushed(v, ids);
            let units = waiting_units(v);
            let n = v.segments.len() as int;
            &&& w.pending.len() == 0
            &&& w.pending_start_ms is None
            &&& w.sequence == v.sequence + units.len()
            &&& w.segments.len() == n + units.len()
            &&& forall|i: int| 0 <= i < n ==> #[trigger] w.segments[i] == v.segments[i]
            &&& forall|i: int|
                0 <= i < units.len() ==> #[trigger] w.segments[n + i] == (
                crate::records::LiveSegmentView {
                    id: ids[i],
                    session_id: v.id,
                    sequence: (v.sequence + i) as i64,
                    start_ms: match v.pending_start_ms {
                        Some(start) => start,
                        None => 0,
                    },
                    source_text: units[i],
                    translated_text: None,
                })
            &&& forall|i: int|
                0 <= i < units.len() ==> (#[trigger] w.segments[n + i]).sequence == v.sequence + i
            &&& w == (StateView {
                sequence: w.sequence,
                segments: w.segments,
                pending: w.pending,
                pending_start_ms: w.pending_start_ms,
                ..v
            })
            &&& flushed(w, more) == w
        }),
{
    law_second_flush_changes_nothing(v, ids, more);
}

/// What waits is made segments of once: doing it again, with whatever identifiers, changes nothing.
pub proof fn law_second_flush_changes_nothing(
    v: StateView,
    ids: Seq<Seq<char>>,
    more: Seq<Seq<char>>,
)
    ensures
        flushed(flushed(v, ids), more) == flushed(v, ids),
{
    let w = flushed(v, ids);
    crate::live::law_splitting_keeps_every_word(w.pending, true);
    assert(waiting_units(w).len() == 0);
    assert(flushed(w, more) =~= w);
}

/// Ending a session loses nothing either: what waited becomes segments, and nothing waits.
pub proof fn law_flush_keeps_every_word(v: StateView, ids: Seq<Seq<char>>)
    ensures
        flushed(v, ids).said() == v.said(),
        flushed(v, ids).pending.len() == 0,
{
    let units = waiting_units(v);
    let start: i64 = match v.pending_start_ms {
        Some(n) => n,
        None => 0,
    };
    crate::live::law_splitting_keeps_every_word(v.pending, true);
    lemma_pushed_texts(v, units, ids, start);
    assert(flushed(v, ids).source_texts() =~= pushed(v, units, ids, start).source_texts());
    crate::live::lemma_spoken_append(v.source_texts(), units);
    let rest = crate::live::split_units(v.pending, true).1;
    assert(rest =~= Seq::empty());
    assert(crate::live::squeezed(Seq::<char>::empty()) =~= Seq::<char>::empty()) by {
        reveal_with_fuel(Seq::filter, 1);
    }
    let a = crate::live::spoken(v.source_texts());
    let b = crate::live::spoken(units);
    assert(b + Seq::<char>::empty() =~= b);
    assert(a + b + Seq::<char>::empty() =~= a + b);
}

// ---------------------------------------------------------------------------
// The form of a chunk
// ---------------------------------------------------------------------------

/// The fields of an uploaded chunk, the audio itself left out.
pub struct LiveChunkForm {
    pub session_id: Option<String>,
    pub chunk_start_ms: Option<i64>,
    /// The number of bytes of the audio.
    pub audio_len: Option<usize>,
}

impl LiveChunkForm {
    /// A form without fields.
    pub fn new() -> (r: LiveChunkForm)
        ensures
            r.session_id is None,
            r.chunk_start_ms is None,
            r.audio_len is None,
    {
        LiveChunkForm { session_id: None, chunk_start_ms: None, audio_len: None }
    }

    /// Takes in a text field. Fields that are not known are left aside.
    pub fn take_field(&mut self, name: &str, value: &str)
        ensures
            crate::text::opt_view(final(self).session_id) == if name@ == "session_id"@ {
                Some(crate::text::trimmed(value@))
            } else {
                crate::text::opt_view(old(self).session_id)
            },
            final(self).chunk_start_ms == if name@ != "session_id"@ && name@ == "chunk_start_ms"@ {
                crate::text::number_of(crate::text::trimmed(value@))
            } else {
                old(self).chunk_start_ms
            },
            final(self).audio_len == old(self).audio_len,
    {
        if same(name, "session_id") {
            self.session_id = Some(trim_text(value));
        } else if same(name, "chunk_start_ms") {
            let all = chars_of(value);
            self.chunk_start_ms = parse_i64(trim(all.as_slice()));
        }
    }

    /// Takes in the size of the audio.
    pub fn take_audio(&mut self, len: usize)
        ensures
            final(self).audio_len == Some(len),
            final(self).session_id == old(self).session_id,
            final(self).chunk_start_ms == old(self).chunk_start_ms,
    {
        self.audio_len = Some(len);
    }

    /// The session that the chunk belongs to, where the form is complete.
    pub fn check(&self) -> (r: Result<String, AppError>)
        ensures
            match r {
                Ok(id) => crate::text::opt_view(self.session_id) == Some(id@)
                    && chunk_form_refusal(
                    crate::text::opt_view(self.session_id),
                    self.audio_len,
                ) is None,
                Err(e) => Some(e@) == chunk_form_refusal(
                    crate::text::opt_view(self.session_id),
                    self.audio_len,
                ),
            },
    {
        let id = match &self.session_id {
            Some(id) => if id.as_str().is_empty() {
                return Err(AppError::bad_request("session_id is required"));
            } else {
                id.clone()
            },
            None => {
                return Err(AppError::bad_request("session_id is required"));
            },
        };
        match self.audio_len {
            Some(n) => if n == 0 {
                Err(AppError::bad_request("audio chunk is empty"))
            } else {
                Ok(id)
            },
            None => Err(AppError::bad_request("audio chunk is required")),
        }
    }
}

/// Why the form of a chunk is refused, if it is.
pub open spec fn chunk_form_refusal(session_id: Option<Seq<char>>, audio_len: Option<usize>) -> Option<
    crate::chat::ErrorView,
> {
    if !(session_id matches Some(id) && id.len() > 0) {
        Some(crate::chat::bad("session_id is required"@))
    } else if audio_len is None {
        Some(crate::chat::bad("audio chunk is required"@))
    } else if audio_len == Some(0usize) {
        Some(crate::chat::bad("audio chunk is empty"@))
    } else {
        None
    }
}

// ---------------------------------------------------------------------------
// All running sessions
// ---------------------------------------------------------------------------

/// The running sessions, each under an identifier of its own.
pub struct LiveSessions {
    sessions: Vec<LiveSessionState>,
}

impl View for LiveSessions {
    type V = Seq<StateView>;

    closed spec fn view(&self) -> Seq<StateView> {
        crate::records::views(self.sessions@)
    }
}

/// The sessions are well-formed, and no two have the same identifier.
pub open spec fn sessions_wf(v: Seq<StateView>) -> bool {
    &&& forall|i: int| 0 <= i < v.len() ==> (#[trigger] v[i]).wf()
    &&& forall|i: int, j: int| 0 <= i < j < v.len() ==> (#[trigger] v[i]).id != (#[trigger] v[j]).id
}

/// The place of the session with the identifier `id`, from index `i` on.
pub open spec fn place_from(v: Seq<StateView>, id: Seq<char>, i: int) -> Option<int>
    decreases v.len() - i,
{
    if i < 0 || i >= v.len() {
        None
    } else if v[i].id == id {
        Some(i)
    } else {
        place_from(v, id, i + 1)
    }
}

/// The place of the session with the identifier `id`.
pub open spec fn place_of(v: Seq<StateView>, id: Seq<char>) -> Option<int> {
    place_from(v, id, 0)
}

pub proof fn lemma_place_from(v: Seq<StateView>, id: Seq<char>, i: int)
    requires
        0 <= i,
    ensures
        match place_from(v, id, i) {
            Some(k) => i <= k < v.len() && v[k].id == id,
            None => forall|j: int| i <= j < v.len() ==> (#[trigger] v[j]).id != id,
        },
    decreases v.len() - i,
{
    if i < v.len() && v[i].id != id {
        lemma_place_from(v, id, i + 1);
    }
}

/// The sessions with `s` among them, in place of one with the same identifier.
pub open spec fn inserted(v: Seq<StateView>, s: StateView) -> Seq<StateView> {
    match place_of(v, s.id) {
        Some(k) => v.update(k, s),
        None => v.push(s),
    }
}

/// The index of the segment with the number `sequence`, from index `i` on.
pub open spec fn segment_from(
    segments: Seq<crate::records::LiveSegmentView>,
    sequence: i64,
    i: int,
) -> Option<int>
    decreases segments.len() - i,
{
    if i < 0 || i >= segments.len() {
        None
    } else if segments[i].sequence == sequence {
        Some(i)
    } else {
        segment_from(segments, sequence, i + 1)
    }
}

proof fn lemma_segment_from(
    segments: Seq<crate::records::LiveSegmentView>,
    sequence: i64,
    i: int,
)
    requires
        0 <= i,
    ensures
        match segment_from(segments, sequence, i) {
            Some(k) => i <= k < segments.len() && segments[k].sequence == sequence,
            None => forall|j: int|
                i <= j < segments.len() ==> (#[trigger] segments[j]).sequence != sequence,
        },
    decreases segments.len() - i,
{
    if i < segments.len() && segments[i].sequence != sequence {
        lemma_segment_from(segments, sequence, i + 1);
    }
}

fn find_segment(segments: &Vec<LiveSegment>, sequence: i64) -> (r: Option<usize>)
    ensures
        match r {
            Some(k) => segment_from(crate::records::views(segments@), sequence, 0) == Some(
                k as int,
            ) && k < segments@.len(),
            None => segment_from(crate::records::views(segments@), sequence, 0) is None,
        },
{
    let ghost all = crate::records::views(segments@);
    let mut i: usize = 0;
    while i < segments.len()
        invariant
            i <= segments.len(),
            all == crate::records::views(segments@),
            segment_from(all, sequence, 0) == segment_from(all, sequence, i as int),
        decreases segments.len() - i,
    {
        assert(all[i as int] == segments@[i as int]@);
        if segments[i].sequence == sequence {
            return Some(i);
        }
        i = i + 1;
    }
    None
}

/// What a session is answered with when it starts.
pub struct LiveStartResponse {
    pub session_id: String,
    pub started_at: i64,
}

/// A request to translate a caption. Where several captions are translated as one, the last of
/// `sequences` takes the translation.
pub struct LiveTranslationRequest {
    pub session_id: String,
    pub sequence: i64,
    pub sequences: Option<Vec<i64>>,
    pub source_text: Option<String>,
    pub append: Option<bool>,
}

/// The caption that takes the translation.
pub open spec fn translated_sequence(q: LiveTranslationRequest) -> i64 {
    match q.sequences {
        Some(list) => if list@.len() > 0 {
            list@.last()
        } else {
            q.sequence
        },
        None => q.sequence,
    }
}

/// A caption to be translated.
pub struct LiveTranslationJob {
    pub session_id: String,
    pub sequence: i64,
    pub source_text: String,
    pub source_language: Option<String>,
    pub target_language: String,
    pub model: Option<String>,
}

/// What a request for a translation comes to.
pub enum LiveTranslationStep {
    /// The session asks for no translation, or there is nothing to translate.
    Nothing(i64),
    /// The caption is to be translated.
    Translate(LiveTranslationJob),
}

/// What of the model of a [`LiveTranslationStep`] matters.
pub enum StepView {
    Nothing(i64),
    Translate {
        session_id: Seq<char>,
        sequence: i64,
        source_text: Seq<char>,
        source_language: Option<Seq<char>>,
        target_language: Seq<char>,
        model: Option<Seq<char>>,
    },
}

impl View for LiveTranslationStep {
    type V = StepView;

    open spec fn view(&self) -> StepView {
        match self {
            LiveTranslationStep::Nothing(n) => StepView::Nothing(*n),
            LiveTranslationStep::Translate(job) => StepView::Translate {
                session_id: job.session_id@,
                sequence: job.sequence,
                source_text: job.source_text@,
                source_language: crate::text::opt_view(job.source_language),
                target_language: job.target_language@,
                model: crate::text::opt_view(job.model),
            },
        }
    }
}

/// The text that is translated: the one of the request, or that of the caption.
pub open spec fn text_to_translate(own: Option<Seq<char>>, stored: Seq<char>) -> Seq<char> {
    match crate::text::filled(own) {
        Some(t) => t,
        None => crate::text::trimmed(stored),
    }
}

/// What a request for a translation comes to.
pub open spec fn translation_step(v: Seq<StateView>, q: LiveTranslationRequest) -> Result<
    StepView,
    crate::chat::ErrorView,
> {
    let id = crate::text::trimmed(q.session_id@);
    let sequence = translated_sequence(q);
    if id.len() == 0 {
        Err(crate::chat::bad("session_id is required"@))
    } else {
        match place_of(v, id) {
            None => Err(crate::chat::bad("unknown session_id"@)),
            Some(p) => match segment_from(v[p].segments, sequence, 0) {
                None => Err(crate::chat::bad("unknown live segment"@)),
                Some(k) => {
                    let text = text_to_translate(
                        crate::text::opt_view(q.source_text),
                        v[p].segments[k].source_text,
                    );
                    if !v[p].translate || crate::text::blank(text) {
                        Ok(StepView::Nothing(sequence))
                    } else {
                        match v[p].target_language {
                            None => Ok(StepView::Nothing(sequence)),
                            Some(target) => Ok(
                                StepView::Translate {
                                    session_id: id,
                                    sequence,
                                    source_text: text,
                                    source_language: v[p].source_language,
                                    target_language: target,
                                    model: v[p].translate_model,
                                },
                            ),
                        }
                    }
                },
            },
        }
    }
}

/// The view of what [`LiveSessions::plan_translation`] gives.
pub open spec fn step_result(r: Result<LiveTranslationStep, AppError>) -> Result<
    StepView,
    crate::chat::ErrorView,
> {
    match r {
        Ok(s) => Ok(s@),
        Err(e) => Err(e@),
    }
}

/// A new translation of a caption that already has one: a further line of it, or in its place.
pub open spec fn merged(existing: Option<Seq<char>>, text: Seq<char>, append: bool) -> Seq<char> {
    match existing {
        Some(t) => if append && !crate::text::blank(t) {
            crate::text::trimmed_end(t) + "\n"@ + text
        } else {
            text
        },
        None => text,
    }
}

/// The segment that takes a translation, if it is still there.
pub open spec fn translation_target(v: Seq<StateView>, id: Seq<char>, sequence: i64) -> Option<
    (int, int),
> {
    match place_of(v, id) {
        Some(p) => match segment_from(v[p].segments, sequence, 0) {
            Some(k) => Some((p, k)),
            None => None,
        },
        None => None,
    }
}

/// The sessions with `text` as the translation of a caption.
pub open spec fn translation_taken(
    v: Seq<StateView>,
    id: Seq<char>,
    sequence: i64,
    append: bool,
    text: Seq<char>,
) -> Seq<StateView> {
    match translation_target(v, id, sequence) {
        Some((p, k)) => {
            let segment = v[p].segments[k];
            let next = crate::records::LiveSegmentView {
                translated_text: Some(merged(segment.translated_text, text, append)),
                ..segment
            };
            v.update(p, StateView { segments: v[p].segments.update(k, next), ..v[p] })
        },
        None => v,
    }
}

/// What the client is told: the translation that the caption now has.
pub open spec fn translation_shown(
    v: Seq<StateView>,
    id: Seq<char>,
    sequence: i64,
    append: bool,
    text: Seq<char>,
) -> Seq<char> {
    match translation_target(v, id, sequence) {
        Some((p, k)) => merged(v[p].segments[k].translated_text, text, append),
        None => text,
    }
}

/// A request to end a session.
pub struct LiveStopRequest {
    pub session_id: String,
    pub save: bool,
    pub title: Option<String>,
}

/// A session as it is kept.
pub open spec fn kept_session(
    v: StateView,
    title: Option<Seq<char>>,
    now: i64,
) -> crate::records::LiveSessionView {
    crate::records::LiveSessionView {
        id: v.id,
        title: match crate::text::filled(title) {
            Some(t) => t,
            None => v.title,
        },
        started_at: v.started_at,
        ended_at: Some(now),
        source_language: v.source_language,
        target_language: v.target_language,
        duration_ms: (now - v.started_at) as i64,
        segment_count: v.segments.len() as i64,
    }
}

impl LiveSessions {
    /// No sessions.
    pub fn new() -> (r: LiveSessions)
        ensures
            r@ == Seq::<StateView>::empty(),
            sessions_wf(r@),
    {
        let r = LiveSessions { sessions: Vec::new() };
        assert(r@ =~= Seq::<StateView>::empty());
        r
    }

    fn find(&self, id: &str) -> (r: Option<usize>)
        ensures
            match r {
                Some(k) => place_of(self@, id@) == Some(k as int) && k < self.sessions@.len(),
                None => place_of(self@, id@) is None,
            },
            self@.len() == self.sessions@.len(),
    {
        let mut i: usize = 0;
        while i < self.sessions.len()
            invariant
                i <= self.sessions.len(),
                place_of(self@, id@) == place_from(self@, id@, i as int),
            decreases self.sessions.len() - i,
        {
            assert(self@[i as int] == self.sessions@[i as int]@);
            if same(self.sessions[i].id.as_str(), id) {
                return Some(i);
            }
            i = i + 1;
        }
        None
    }

    /// Puts a session among the running ones, in place of one with the same identifier.
    pub fn insert(&mut self, session: LiveSessionState)
        requires
            sessions_wf(old(self)@),
            session@.wf(),
        ensures
            final(self)@ == inserted(old(self)@, session@),
            sessions_wf(final(self)@),
    {
        let ghost before = self@;
        let ghost s = session@;
        proof {
            lemma_place_from(before, s.id, 0);
        }
        match self.find(session.id.as_str()) {
            Some(k) => {
                self.sessions.set(k, session);
                assert(self@ =~= before.update(k as int, s));
            },
            None => {
                self.sessions.push(session);
                assert(self@ =~= before.push(s));
            },
        }
    }

    /// Starts a session under a fresh identifier.
    pub fn start(&mut self, request: &LiveStartRequest, now: i64) -> (r: LiveStartResponse)
        requires
            sessions_wf(old(self)@),
        ensures
            crate::ids::is_uuid(r.session_id@),
            r.started_at == now,
            final(self)@ == inserted(old(self)@, started(*request, r.session_id@, now)),
            sessions_wf(final(self)@),
    {
        let id = new_id();
        let session = live_session_with_id(request, id.clone(), now);
        self.insert(session);
        LiveStartResponse { session_id: id, started_at: now }
    }

    /// The language and the speech model of a session.
    pub fn chunk_settings(&self, id: &str) -> (r: Result<
        (Option<String>, Option<String>),
        AppError,
    >)
        ensures
            match r {
                Ok((language, model)) => place_of(self@, id@) matches Some(k)
                    && crate::text::opt_view(language) == self@[k].source_language
                    && crate::text::opt_view(model) == self@[k].speech_model,
                Err(e) => place_of(self@, id@) is None && e@ == crate::chat::bad(
                    "unknown session_id"@,
                ),
            },
    {
        match self.find(id) {
            Some(k) => {
                assert(self@[k as int] == self.sessions@[k as int]@);
                Ok(
                    (
                        copy_opt(&self.sessions[k].source_language),
                        copy_opt(&self.sessions[k].speech_model),
                    ),
                )
            },
            None => Err(AppError::bad_request("unknown session_id")),
        }
    }

    /// Takes in a chunk of transcribed speech for a session.
    pub fn take_chunk(&mut self, id: &str, text: &str, elapsed_ms: i64) -> (r: Result<
        LiveChunkResponse,
        AppError,
    >)
        requires
            sessions_wf(old(self)@),
            place_of(old(self)@, id@) matches Some(k) ==> old(self)@[k].segments.len() + old(self)@[k].pending.len() + text@.len() < i64::MAX,
        ensures
            match r {
                Ok(answer) => place_of(old(self)@, id@) matches Some(k) && chunk_answer(
                    old(self)@[k],
                    text@,
                    elapsed_ms,
                    answer,
                ) && exists|ids: Seq<Seq<char>>| #[trigger]
                    fresh_ids(ids, chunk_split(old(self)@[k], text@).0.len()) && final(self)@
                        == old(self)@.update(
                        k,
                        chunk_applied(old(self)@[k], text@, elapsed_ms, ids),
                    ),
                Err(e) => place_of(old(self)@, id@) is None && e@ == crate::chat::bad(
                    "unknown session_id"@,
                ) && final(self)@ == old(self)@,
            },
            sessions_wf(final(self)@),
    {
        let ghost before = self@;
        proof {
            lemma_place_from(before, id@, 0);
        }
        match self.find(id) {
            Some(k) => {
                assert(before[k as int] == self.sessions@[k as int]@);
                proof {
                    assert(before[k as int].wf());
                    lemma_chunk_units(before[k as int], text@);
                }
                let answer = take_chunk(&mut self.sessions[k], text, elapsed_ms);
                let ghost ids = choose|ids: Seq<Seq<char>>| #[trigger]
                    fresh_ids(ids, chunk_split(before[k as int], text@).0.len())
                        && self.sessions@[k as int]@ == chunk_applied(
                        before[k as int],
                        text@,
                        elapsed_ms,
                        ids,
                    );
                assert(self@ =~= before.update(
                    k as int,
                    chunk_applied(before[k as int], text@, elapsed_ms, ids),
                ));
                Ok(answer)
            },
            None => Err(AppError::bad_request("unknown session_id")),
        }
    }

    /// Whether the captions of a session can be counted after a chunk.
    pub fn can_take_chunk(&self, id: &str, text: &str) -> (r: bool)
        ensures
            r == (place_of(self@, id@) matches Some(k) ==> self@[k].segments.len()
                + self@[k].pending.len() + text@.len() < i64::MAX),
    {
        match self.find(id) {
            Some(k) => {
                let session = &self.sessions[k];
                assert(self@[k as int] == session@);
                let said: usize = session.segments.len();
                let waiting: usize = chars_of(session.pending_source_text.as_str()).len();
                let coming: usize = chars_of(text).len();
                assert(session@.segments.len() == said);
                said as u128 + (waiting as u128) + (coming as u128) < i64::MAX as u128
            },
            None => true,
        }
    }

    /// Whether the captions and the time of a session can be counted when it ends.
    pub fn can_stop(&self, id: &str, now: i64) -> (r: bool)
        ensures
            r == (place_of(self@, id@) matches Some(k) ==> self@[k].segments.len()
                + self@[k].pending.len() <= i64::MAX && i64::MIN <= now - self@[k].started_at
                <= i64::MAX),
    {
        match self.find(id) {
            Some(k) => {
                let session = &self.sessions[k];
                assert(self@[k as int] == session@);
                let said: usize = session.segments.len();
                let waiting: usize = chars_of(session.pending_source_text.as_str()).len();
                assert(session@.segments.len() == said);
                said as u128 + (waiting as u128) <= i64::MAX as u128 && now.checked_sub(
                    session.started_at,
                ).is_some()
            },
            None => true,
        }
    }

    /// What a request for a translation comes to.
    pub fn plan_translation(&self, request: &LiveTranslationRequest) -> (r: Result<
        LiveTranslationStep,
        AppError,
    >)
        ensures
            step_result(r) == translation_step(self@, *request),
    {
        let id = trim_text(request.session_id.as_str());
        if id.as_str().is_empty() {
            return Err(AppError::bad_request("session_id is required"));
        }
        let sequence: i64 = match &request.sequences {
            Some(list) => if list.len() > 0 {
                list[list.len() - 1]
            } else {
                request.sequence
            },
            None => request.sequence,
        };
        match self.find(id.as_str()) {
            None => Err(AppError::bad_request("unknown session_id")),
            Some(p) => {
                assert(self@[p as int] == self.sessions@[p as int]@);
                let session = &self.sessions[p];
                match find_segment(&session.segments, sequence) {
                    None => Err(AppError::bad_request("unknown live segment")),
                    Some(k) => {
                        assert(session@.segments[k as int] == session.segments@[k as int]@);
                        let text = match fill_owned(&request.source_text) {
                            Some(t) => t,
                            None => trim_text(session.segments[k].source_text.as_str()),
                        };
                        if !session.translate || is_blank(text.as_str()) {
                            return Ok(LiveTranslationStep::Nothing(sequence));
                        }
                        match &session.target_language {
                            None => Ok(LiveTranslationStep::Nothing(sequence)),
                            Some(target) => Ok(
                                LiveTranslationStep::Translate(
                                    LiveTranslationJob {
                                        session_id: id,
                                        sequence,
                                        source_text: text,
                                        source_language: copy_opt(&session.source_language),
                                        target_language: target.clone(),
                                        model: copy_opt(&session.translate_model),
                                    },
                                ),
                            ),
                        }
                    },
                }
            },
        }
    }

    /// Keeps the translation of a caption, and gives what the client is told. The session or the
    /// caption may be gone by then; the client is told the translation all the same.
    pub fn take_translation(
        &mut self,
        id: &str,
        sequence: i64,
        append: bool,
        text: &str,
    ) -> (r: String)
        requires
            sessions_wf(old(self)@),
        ensures
            r@ == translation_shown(old(self)@, id@, sequence, append, text@),
            final(self)@ == translation_taken(old(self)@, id@, sequence, append, text@),
            sessions_wf(final(self)@),
    {
        let ghost before = self@;
        proof {
            lemma_place_from(before, id@, 0);
        }
        match self.find(id) {
            Some(p) => {
                assert(before[p as int] == self.sessions@[p as int]@);
                match find_segment(&self.sessions[p].segments, sequence) {
                    Some(k) => {
                        proof {
                            lemma_segment_from(before[p as int].segments, sequence, 0);
                        }
                        let ghost segment = before[p as int].segments[k as int];
                        assert(segment == self.sessions@[p as int].segments@[k as int]@);
                        let shown = merge_translation(
                            &self.sessions[p].segments[k].translated_text,
                            text,
                            append,
                        );
                        set_translation(&mut self.sessions[p], k, shown.clone());
                        assert(self@ =~= translation_taken(before, id@, sequence, append, text@));
                        shown
                    },
                    None => text.to_owned(),
                }
            },
            None => text.to_owned(),
        }
    }

    /// Ends a session. Where it is to be saved and anything was said, the session and its captions
    /// are handed back to be kept.
    pub fn stop(&mut self, request: &LiveStopRequest, now: i64) -> (r: Result<
        Option<(LiveSession, Vec<LiveSegment>)>,
        AppError,
    >)
        requires
            sessions_wf(old(self)@),
            place_of(old(self)@, request.session_id@) matches Some(k) ==> old(self)@[k].segments.len() + old(self)@[k].pending.len() <= i64::MAX && i64::MIN <= now
                - old(self)@[k].started_at <= i64::MAX,
        ensures
            match r {
                Ok(None) => place_of(old(self)@, request.session_id@) matches Some(k)
                    && final(self)@ == old(self)@.remove(k) && (!request.save || (
                old(self)@[k].segments.len() == 0 && waiting_units(old(self)@[k]).len() == 0)),
                Ok(Some((session, segments))) => place_of(
                    old(self)@,
                    request.session_id@,
                ) matches Some(k) && final(self)@ == old(self)@.remove(k) && request.save
                    && segments@.len() > 0 && exists|ids: Seq<Seq<char>>| #[trigger]
                    fresh_ids(ids, waiting_units(old(self)@[k]).len())
                        && crate::records::views(segments@) == flushed(
                        old(self)@[k],
                        ids,
                    ).segments && session@ == kept_session(
                        flushed(old(self)@[k], ids),
                        crate::text::opt_view(request.title),
                        now,
                    ),
                Err(e) => place_of(old(self)@, request.session_id@) is None && e@
                    == crate::chat::bad("unknown session_id"@) && final(self)@ == old(self)@,
            },
            sessions_wf(final(self)@),
    {
        let ghost before = self@;
        proof {
            lemma_place_from(before, request.session_id@, 0);
        }
        match self.find(request.session_id.as_str()) {
            None => Err(AppError::bad_request("unknown session_id")),
            Some(k) => {
                assert(before[k as int] == self.sessions@[k as int]@);
                let mut session = self.sessions.remove(k);
                assert(self@ =~= before.remove(k as int));
                proof {
                    let after = self@;
                    assert forall|i: int| 0 <= i < after.len() implies (#[trigger]
                    after[i]).wf() by {
                        if i < k {
                            assert(after[i] == before[i]);
                        } else {
                            assert(after[i] == before[i + 1]);
                        }
                    }
                    assert forall|i: int, j: int| 0 <= i < j < after.len() implies (#[trigger]
                    after[i]).id != (#[trigger] after[j]).id by {
                        let a = if i < k {
                            i
                        } else {
                            i + 1
                        };
                        let b = if j < k {
                            j
                        } else {
                            j + 1
                        };
                        assert(after[i] == before[a]);
                        assert(after[j] == before[b]);
                    }
                }
                if !request.save {
                    return Ok(None);
                }
                proof {
                    assert(before[k as int].wf());
                    crate::live::law_splitting_keeps_every_word(session@.pending, true);
                }
                flush_live_pending_source(&mut session);
                let ghost ids = choose|ids: Seq<Seq<char>>| #[trigger]
                    fresh_ids(ids, waiting_units(before[k as int]).len()) && session@ == flushed(
                        before[k as int],
                        ids,
                    );
                if session.segments.len() == 0 {
                    assert(session@.segments.len() == 0);
                    return Ok(None);
                }
                assert(session@.segments.len() == session.segments@.len());
                let title = match fill_owned(&request.title) {
                    Some(t) => t,
                    None => session.title.clone(),
                };
                let kept = LiveSession {
                    id: session.id.clone(),
                    title,
                    started_at: session.started_at,
                    ended_at: Some(now),
                    source_language: copy_opt(&session.source_language),
                    target_language: copy_opt(&session.target_language),
                    duration_ms: now - session.started_at,
                    segment_count: session.segments.len() as i64,
                };
                assert(kept@ =~= kept_session(
                    session@,
                    crate::text::opt_view(request.title),
                    now,
                ));
                Ok(Some((kept, session.segments)))
            },
        }
    }
}

fn set_translation(session: &mut LiveSessionState, k: usize, text: String)
    requires
        k < old(session).segments@.len(),
    ensures
        final(session)@ == (StateView {
            segments: old(session)@.segments.update(
                k as int,
                (crate::records::LiveSegmentView {
                    translated_text: Some(text@),
                    ..old(session)@.segments[k as int]
                }),
            ),
            ..old(session)@
        }),
{
    let ghost before = session@;
    assert(before.segments[k as int] == session.segments@[k as int]@);
    session.segments[k].translated_text = Some(text);
    assert(session@.segments =~= before.segments.update(
        k as int,
        (crate::records::LiveSegmentView {
            translated_text: Some(text@),
            ..before.segments[k as int]
        }),
    ));
}

fn merge_translation(existing: &Option<String>, text: &str, append: bool) -> (r: String)
    ensures
        r@ == merged(crate::text::opt_view(*existing), text@, append),
{
    match existing {
        Some(t) => if append && !is_blank(t.as_str()) {
            let all = chars_of(t.as_str());
            let mut out = text_of(trim_end(all.as_slice()));
            out.append("\n");
            out.append(text);
            out
        } else {
            text.to_owned()
        },
        None => text.to_owned(),
    }
}

/// What is kept of a translation: the text, trimmed, where anything is in it.
pub fn usable_translation(outcome: Result<String, AppError>) -> (r: Option<String>)
    ensures
        crate::text::opt_view(r) == match outcome {
            Ok(t) => crate::text::filled(Some(t@)),
            Err(_) => None,
        },
{
    match outcome {
        Ok(t) => fill(Some(t.as_str())),
        Err(_) => None,
    }
}

// ---------------------------------------------------------------------------
// What a session is for
// ---------------------------------------------------------------------------

/// A session begins with what the user asked for, and without captions. Without a title it is named
/// "Live session", and its captions are translated unless the user says otherwise.
pub proof fn law_session_begins_as_asked_for(q: LiveStartRequest, id: Seq<char>, now: i64)
    ensures
        ({
            let v = started(q, id, now);
            &&& v.id == id
            &&& v.started_at == now
            &&& v.sequence == 0
            &&& v.segments.len() == 0
            &&& v.pending.len() == 0
            &&& v.pending_start_ms is None
            &&& v.title == match q.title {
                Some(t) => if crate::text::blank(t@) {
                    "Live session"@
                } else {
                    crate::text::trimmed(t@)
                },
                None => "Live session"@,
            }
            &&& q.translate is None ==> v.translate
            &&& q.translate matches Some(b) ==> v.translate == b
            &&& (q.source_language matches Some(l) && !crate::text::blank(l@)) ==> v.source_language
                == Some(crate::text::trimmed(q.source_language->0@))
            &&& (q.target_language matches Some(l) && !crate::text::blank(l@)) ==> v.target_language
                == Some(crate::text::trimmed(q.target_language->0@))
            &&& (q.speech_model matches Some(m) && !crate::text::blank(m@)) ==> v.speech_model
                == Some(crate::text::trimmed(q.speech_model->0@))
            &&& (q.translate_model matches Some(m) && !crate::text::blank(m@)) ==> v.translate_model
                == Some(crate::text::trimmed(q.translate_model->0@))
            &&& q.source_language is None ==> v.source_language is None
            &&& q.target_language is None ==> v.target_language is None
            &&& q.speech_model is None ==> v.speech_model is None
            &&& q.translate_model is None ==> v.translate_model is None
        }),
{
}

/// What waits is put before the new text, with a space between them, and the two are split together;
/// where nothing waits, the new text is split alone. A blank chunk changes nothing.
pub proof fn law_waiting_text_comes_first(v: StateView, text: Seq<char>)
    ensures
        crate::text::blank(text) ==> chunk_split(v, text).0.len() == 0 && chunk_split(v, text).1
            == v.pending,
        !crate::text::blank(text) && crate::text::blank(v.pending) ==> chunk_split(v, text)
            == crate::live::split_units(text, false),
        !crate::text::blank(text) && !crate::text::blank(v.pending) ==> chunk_split(v, text)
            == crate::live::split_units(
            crate::text::trimmed(v.pending) + " "@ + crate::text::trimmed(text),
            false,
        ),
{
    crate::text::lemma_trimmed_twice(text);
}

/// The sentences of a chunk become the next captions: each has its sentence, the next number, and the
/// time at which what waited began, or the chunk where nothing waited. The captions before them stay,
/// the rest waits, and nothing else of the session changes. The client is told of just these captions.
pub proof fn law_chunk_becomes_captions(
    v: StateView,
    text: Seq<char>,
    elapsed_ms: i64,
    ids: Seq<Seq<char>>,
    r: LiveChunkResponse,
)
    requires
        v.sequence + chunk_split(v, text).0.len() <= i64::MAX,
        chunk_answer(v, text, elapsed_ms, r),
    ensures
        ({
            let w = chunk_applied(v, text, elapsed_ms, ids);
            let (units, rest) = chunk_split(v, text);
            let n = v.segments.len() as int;
            let start = match v.pending_start_ms {
                Some(ms) => ms,
                None => elapsed_ms,
            };
            &&& w.segments.len() == n + units.len()
            &&& w.sequence == v.sequence + units.len()
            &&& w.pending == rest
            &&& forall|i: int| 0 <= i < n ==> #[trigger] w.segments[i] == v.segments[i]
            &&& forall|k: int|
                0 <= k < units.len() ==> (#[trigger] w.segments[n + k]).source_text == units[k]
                    && w.segments[n + k].sequence == v.sequence + k && w.segments[n + k].start_ms
                    == start && w.segments[n + k].session_id == v.id && w.segments[n + k].id
                    == ids[k] && w.segments[n + k].translated_text is None
            &&& w == (StateView {
                sequence: w.sequence,
                segments: w.segments,
                pending: w.pending,
                pending_start_ms: w.pending_start_ms,
                ..v
            })
            &&& r.segments@.len() == units.len()
            &&& forall|k: int|
                0 <= k < units.len() ==> (#[trigger] r.segments@[k]).source_text@ == units[k]
                    && r.segments@[k].sequence == v.sequence + k && r.segments@[k].elapsed_ms
                    == start
            &&& units.len() > 0 ==> r.sequence == v.sequence + units.len() - 1
            &&& units.len() == 0 ==> r.sequence == v.sequence && r.source_text@
                == crate::text::trimmed(text)
            &&& r.elapsed_ms == elapsed_ms
        }),
{
    let (units, rest) = chunk_split(v, text);
    let told = crate::records::views(r.segments@);
    let start = chunk_start(v, elapsed_ms);
    assert(told == reports(units, v.sequence, start));
    assert(told.len() == r.segments@.len());
    assert forall|k: int| 0 <= k < units.len() implies (#[trigger] r.segments@[k]).source_text@
        == units[k] && r.segments@[k].sequence == v.sequence + k && r.segments@[k].elapsed_ms
        == start by {
        assert(told[k] == r.segments@[k]@);
    }
    if crate::text::blank(text) {
        assert(v.segments + Seq::<crate::records::LiveSegmentView>::empty() =~= v.segments);
    }
}

/// What waits has waited since it began: since the chunk before where no sentence was ended, and since
/// this chunk where one was. Where nothing waits, no time is kept.
pub proof fn law_waiting_time_is_kept(
    v: StateView,
    text: Seq<char>,
    elapsed_ms: i64,
    ids: Seq<Seq<char>>,
)
    requires
        !crate::text::blank(text),
    ensures
        ({
            let w = chunk_applied(v, text, elapsed_ms, ids);
            let (units, rest) = chunk_split(v, text);
            &&& crate::text::blank(rest) ==> w.pending_start_ms is None
            &&& !crate::text::blank(rest) && units.len() > 0 ==> w.pending_start_ms == Some(
                elapsed_ms,
            )
            &&& !crate::text::blank(rest) && units.len() == 0 && v.pending_start_ms is None
                ==> w.pending_start_ms == Some(elapsed_ms)
            &&& !crate::text::blank(rest) && units.len() == 0 && v.pending_start_ms is Some
                ==> w.pending_start_ms == v.pending_start_ms
        }),
{
}

/// A caption goes from the language of its session into the other, with the model of the
/// session: the text that is asked for, or that of the caption where none is.
pub proof fn law_caption_is_translated_as_asked_for(
    v: Seq<StateView>,
    q: LiveTranslationRequest,
    p: int,
    k: int,
)
    requires
        sessions_wf(v),
        0 <= p < v.len(),
        0 <= k < v[p].segments.len(),
        crate::text::trimmed(q.session_id@).len() > 0,
        v[p].id == crate::text::trimmed(q.session_id@),
        k == match q.sequences {
            Some(list) => if list@.len() > 0 {
                list@.last()
            } else {
                q.sequence
            },
            None => q.sequence,
        },
    ensures
        ({
            let text = match q.source_text {
                Some(t) => if crate::text::blank(t@) {
                    crate::text::trimmed(v[p].segments[k].source_text)
                } else {
                    crate::text::trimmed(t@)
                },
                None => crate::text::trimmed(v[p].segments[k].source_text),
            };
            if v[p].translate && v[p].target_language is Some && text.len() > 0 {
                translation_step(v, q) == Ok::<StepView, crate::chat::ErrorView>(
                    StepView::Translate {
                        session_id: v[p].id,
                        sequence: k as i64,
                        source_text: text,
                        source_language: v[p].source_language,
                        target_language: v[p].target_language->0,
                        model: v[p].translate_model,
                    },
                )
            } else {
                translation_step(v, q) == Ok::<StepView, crate::chat::ErrorView>(
                    StepView::Nothing(k as i64),
                )
            }
        }),
{
    let id = crate::text::trimmed(q.session_id@);
    lemma_place_is(v, id, p);
    lemma_segment_is(v[p], k);
    match q.source_text {
        Some(t) => {
            crate::text::lemma_trimmed_twice(t@);
            crate::text::lemma_trimmed_twice(v[p].segments[k].source_text);
        },
        None => {
            crate::text::lemma_trimmed_twice(v[p].segments[k].source_text);
        },
    }
}

/// A session is found by its identifier.
proof fn lemma_place_is(v: Seq<StateView>, id: Seq<char>, p: int)
    requires
        sessions_wf(v),
        0 <= p < v.len(),
        v[p].id == id,
    ensures
        place_of(v, id) == Some(p),
{
    lemma_place_from(v, id, 0);
    let n = place_of(v, id)->0;
    if n < p {
        assert(v[n].id != v[p].id);
    } else if p < n {
        assert(v[p].id != v[n].id);
    }
}

/// A caption is found by its number.
proof fn lemma_segment_is(s: StateView, k: int)
    requires
        s.wf(),
        0 <= k < s.segments.len(),
    ensures
        k <= i64::MAX,
        segment_from(s.segments, k as i64, 0) == Some(k),
{
    assert(s.segments[k].sequence == k);
    lemma_segment_from(s.segments, k as i64, 0);
    let n = segment_from(s.segments, k as i64, 0)->0;
    assert(s.segments[n].sequence == n);
}

/// A request to translate names a session that is there and a caption that it has; any other is a
/// mistake of the user's.
pub proof fn law_unknown_captions_are_refused(v: Seq<StateView>, q: LiveTranslationRequest)
    ensures
        crate::text::blank(q.session_id@) ==> (translation_step(v, q) matches Err(e) && e.status
            == 400),
        (forall|i: int|
            0 <= i < v.len() ==> (#[trigger] v[i]).id != crate::text::trimmed(q.session_id@)) ==> (
        translation_step(v, q) matches Err(e) && e.status == 400),
{
    lemma_place_from(v, crate::text::trimmed(q.session_id@), 0);
}

/// A translation goes to the caption that it is of, and to no other: after what it has where it is to
/// be appended, in its place else. All other captions and sessions stay as they are.
pub proof fn law_translation_goes_to_its_caption(
    v: Seq<StateView>,
    p: int,
    k: int,
    append: bool,
    text: Seq<char>,
)
    requires
        sessions_wf(v),
        0 <= p < v.len(),
        0 <= k < v[p].segments.len(),
    ensures
        ({
            let w = translation_taken(v, v[p].id, k as i64, append, text);
            let shown = translation_shown(v, v[p].id, k as i64, append, text);
            let before = v[p].segments[k];
            &&& w.len() == v.len()
            &&& forall|i: int| 0 <= i < v.len() && i != p ==> #[trigger] w[i] == v[i]
            &&& w[p].segments.len() == v[p].segments.len()
            &&& forall|i: int|
                0 <= i < v[p].segments.len() && i != k ==> #[trigger] w[p].segments[i]
                    == v[p].segments[i]
            &&& w[p].segments[k] == (crate::records::LiveSegmentView {
                translated_text: Some(shown),
                ..before
            })
            &&& w[p] == (StateView { segments: w[p].segments, ..v[p] })
            &&& !append || before.translated_text is None ==> shown == text
            &&& append && (before.translated_text matches Some(t) && !crate::text::blank(t))
                ==> shown == crate::text::trimmed_end(before.translated_text->0) + "\n"@ + text
        }),
{
    lemma_place_is(v, v[p].id, p);
    lemma_segment_is(v[p], k);
}

/// A session that has ended is kept with its languages, its beginning and its end, how long it took,
/// and how many captions it has, under the title that is given or else its own.
pub proof fn law_ended_session_is_kept_as_it_was(v: StateView, title: Option<Seq<char>>, now: i64)
    requires
        i64::MIN <= now - v.started_at <= i64::MAX,
        v.segments.len() <= i64::MAX,
    ensures
        ({
            let s = kept_session(v, title, now);
            &&& s.id == v.id
            &&& s.started_at == v.started_at
            &&& s.ended_at == Some(now)
            &&& s.duration_ms == now - v.started_at
            &&& s.segment_count == v.segments.len()
            &&& s.source_language == v.source_language
            &&& s.target_language == v.target_language
            &&& (title matches Some(t) && !crate::text::blank(t)) ==> s.title
                == crate::text::trimmed(title->0)
            &&& !(title matches Some(t) && !crate::text::blank(t)) ==> s.title == v.title
        }),
{
}

/// A chunk needs a session and audio: without one of them the request is a mistake of the user's.
pub proof fn law_chunk_needs_a_session_and_audio(
    session_id: Option<Seq<char>>,
    audio_len: Option<usize>,
)
    ensures
        chunk_form_refusal(session_id, audio_len) is None <==> (session_id matches Some(id)
            && id.len() > 0) && (audio_len matches Some(n) && n > 0),
        chunk_form_refusal(session_id, audio_len) matches Some(e) ==> e.status == 400,
{
}

/// A chunk without a session, without audio or with empty audio is refused, in that order, and told
/// what it lacks.
pub proof fn law_lacking_chunks_are_told(session_id: Option<Seq<char>>, audio_len: Option<usize>)
    ensures
        ({
            let refusal = chunk_form_refusal(session_id, audio_len);
            let named = session_id matches Some(id) && id.len() > 0;
            &&& !named ==> (refusal matches Some(e) && e.status == 400 && e.message
                == "session_id is required"@)
            &&& named && audio_len is None ==> (refusal matches Some(e) && e.status == 400
                && e.message == "audio chunk is required"@)
            &&& named && audio_len == Some(0usize) ==> (refusal matches Some(e) && e.status == 400
                && e.message == "audio chunk is empty"@)
            &&& named && (audio_len matches Some(n) && n > 0) ==> refusal is None
        }),
{
}

/// A translation for no session, for an unknown one or for an unknown caption is refused, in that
/// order, and told which.
pub proof fn law_unknown_captions_are_told(v: Seq<StateView>, q: LiveTranslationRequest)
    ensures
        translation_step(v, q) matches Err(e) ==> e.status == 400 && e.message
            == if crate::text::blank(q.session_id@) {
            "session_id is required"@
        } else if place_of(v, crate::text::trimmed(q.session_id@)) is None {
            "unknown session_id"@
        } else {
            "unknown live segment"@
        },
{
}

} // verus!
