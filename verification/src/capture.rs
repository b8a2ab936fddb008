//! The capture of what the machine plays: the samples so far, and whether a capture is running.

use crate::audio::{encode_mono_pcm16_wav, encode_pcm16_bytes};
use crate::ids::now_ms;
use crate::text::same;
use vstd::prelude::*;

verus! {

/// How many samples that were read are kept before they are thrown away.
pub const MAX_READ_SAMPLES: usize = 262_144;

/// The samples of a capture. Those before `read_cursor` have been read.
pub struct CaptureBuffer {
    pub samples: Vec<i16>,
    pub max_samples: Option<usize>,
    pub read_cursor: usize,
}

/// The model of a [`CaptureBuffer`].
#[verifier::ext_equal]
pub struct BufferView {
    pub samples: Seq<i16>,
    pub max_samples: Option<int>,
    pub read_cursor: int,
}

impl View for CaptureBuffer {
    type V = BufferView;

    open spec fn view(&self) -> BufferView {
        BufferView {
            samples: self.samples@,
            max_samples: match self.max_samples {
                Some(n) => Some(n as int),
                None => None,
            },
            read_cursor: self.read_cursor as int,
        }
    }
}

/// What always holds of a capture: no more samples are kept than were asked for, and none was read
/// that was not captured.
pub open spec fn is_buffer(v: BufferView) -> bool {
    &&& 0 <= v.read_cursor <= v.samples.len()
    &&& v.max_samples matches Some(n) ==> v.samples.len() <= n
}

/// The samples that have not been read.
pub open spec fn unread(v: BufferView) -> Seq<i16> {
    v.samples.skip(v.read_cursor)
}

/// Whether there is no room for another sample.
pub open spec fn is_full(v: BufferView) -> bool {
    v.max_samples matches Some(n) && v.samples.len() >= n
}

/// A capture of up to `max_seconds`, or without end.
pub open spec fn fresh_buffer(sample_rate: u32, max_seconds: Option<u32>) -> BufferView {
    BufferView {
        samples: Seq::empty(),
        max_samples: match max_seconds {
            Some(n) => if n > 0 {
                Some(sample_rate * n)
            } else {
                None
            },
            None => None,
        },
        read_cursor: 0,
    }
}

/// A capture with another sample, unless it is full.
pub open spec fn pushed(v: BufferView, sample: i16) -> BufferView {
    if is_full(v) {
        v
    } else {
        BufferView { samples: v.samples.push(sample), ..v }
    }
}

/// A capture with other samples, as far as there is room.
pub open spec fn appended(v: BufferView, samples: Seq<i16>) -> BufferView
    decreases samples.len(),
{
    if samples.len() == 0 {
        v
    } else {
        pushed(appended(v, samples.drop_last()), samples.last())
    }
}

/// A capture all of which has been read. Where that is much, it is thrown away.
pub open spec fn drained(v: BufferView) -> BufferView {
    if v.samples.len() > MAX_READ_SAMPLES {
        BufferView { samples: Seq::empty(), read_cursor: 0, ..v }
    } else {
        BufferView { read_cursor: v.samples.len() as int, ..v }
    }
}

impl CaptureBuffer {
    /// A capture of up to `max_seconds`, or without end.
    pub fn new(sample_rate: u32, max_seconds: Option<u32>) -> (r: CaptureBuffer)
        requires
            max_seconds matches Some(n) ==> sample_rate * n <= usize::MAX,
        ensures
            r@ == fresh_buffer(sample_rate, max_seconds),
            is_buffer(r@),
    {
        let max_samples: Option<usize> = match max_seconds {
            Some(n) => if n > 0 {
                assert(0 <= sample_rate * n) by (nonlinear_arith)
                    requires
                        0 <= sample_rate,
                        0 <= n,
                ;
                Some(sample_rate as usize * n as usize)
            } else {
                None
            },
            None => None,
        };
        CaptureBuffer { samples: Vec::new(), max_samples, read_cursor: 0 }
    }

    /// Takes a sample, unless the capture is full.
    pub fn push(&mut self, sample: i16)
        requires
            is_buffer(old(self)@),
        ensures
            final(self)@ == pushed(old(self)@, sample),
            is_buffer(final(self)@),
    {
        if let Some(n) = self.max_samples {
            if self.samples.len() >= n {
                return;
            }
        }
        self.samples.push(sample);
    }

    /// Takes samples one after the other, as far as there is room.
    pub fn append(&mut self, samples: &[i16])
        requires
            is_buffer(old(self)@),
        ensures
            final(self)@ == appended(old(self)@, samples@),
            is_buffer(final(self)@),
    {
        let ghost before = self@;
        let mut i: usize = 0;
        assert(samples@.take(0) =~= Seq::empty());
        while i < samples.len()
            invariant
                i <= samples@.len(),
                self@ == appended(before, samples@.take(i as int)),
                is_buffer(self@),
            decreases samples.len() - i,
        {
            self.push(samples[i]);
            assert(samples@.take(i + 1).drop_last() =~= samples@.take(i as int));
            assert(samples@.take(i + 1).last() == samples@[i as int]);
            i = i + 1;
        }
        assert(samples@.take(samples@.len() as int) =~= samples@);
    }

    /// The samples since the last time, which have been read from now on.
    pub fn drain_since_last_read(&mut self) -> (r: Vec<i16>)
        requires
            is_buffer(old(self)@),
        ensures
            r@ == unread(old(self)@),
            final(self)@ == drained(old(self)@),
            is_buffer(final(self)@),
    {
        let ghost before = self@;
        let len: usize = self.samples.len();
        let mut chunk: Vec<i16> = Vec::new();
        let mut i: usize = self.read_cursor;
        while i < len
            invariant
                len == self.samples@.len(),
                self@ == before,
                before.read_cursor <= i <= len,
                chunk@ == before.samples.subrange(before.read_cursor, i as int),
            decreases len - i,
        {
            chunk.push(self.samples[i]);
            assert(before.samples.subrange(before.read_cursor, i + 1) =~= before.samples.subrange(
                before.read_cursor,
                i as int,
            ).push(before.samples[i as int]));
            i = i + 1;
        }
        assert(chunk@ =~= unread(before));
        self.read_cursor = len;
        if self.read_cursor > MAX_READ_SAMPLES {
            self.samples = Vec::new();
            self.read_cursor = 0;
        }
        chunk
    }
}

// ---------------------------------------------------------------------------
// Every sample is read once
// ---------------------------------------------------------------------------

/// What can happen to a capture.
pub enum CaptureOp {
    Push(i16),
    Drain,
}

/// The capture after the first `n` of `ops`.
pub open spec fn after(v: BufferView, ops: Seq<CaptureOp>, n: int) -> BufferView
    decreases n,
{
    if n <= 0 || n > ops.len() {
        v
    } else {
        let w = after(v, ops, n - 1);
        match ops[n - 1] {
            CaptureOp::Push(x) => pushed(w, x),
            CaptureOp::Drain => drained(w),
        }
    }
}

/// The samples that the first `n` of `ops` brought and that were taken.
pub open spec fn taken(v: BufferView, ops: Seq<CaptureOp>, n: int) -> Seq<i16>
    decreases n,
{
    if n <= 0 || n > ops.len() {
        Seq::empty()
    } else {
        let head = taken(v, ops, n - 1);
        match ops[n - 1] {
            CaptureOp::Push(x) => if is_full(after(v, ops, n - 1)) {
                head
            } else {
                head.push(x)
            },
            CaptureOp::Drain => head,
        }
    }
}

/// The samples that were read in the first `n` of `ops`.
pub open spec fn delivered(v: BufferView, ops: Seq<CaptureOp>, n: int) -> Seq<i16>
    decreases n,
{
    if n <= 0 || n > ops.len() {
        Seq::empty()
    } else {
        let head = delivered(v, ops, n - 1);
        match ops[n - 1] {
            CaptureOp::Push(_) => head,
            CaptureOp::Drain => head + unread(after(v, ops, n - 1)),
        }
    }
}

/// Whatever happens, what was read and what has not been read yet is, in order, what had not been
/// read at the beginning and what was taken since: no sample is lost and none is read twice.
pub proof fn law_every_sample_is_read_once(v: BufferView, ops: Seq<CaptureOp>, n: int)
    requires
        is_buffer(v),
        0 <= n <= ops.len(),
    ensures
        is_buffer(after(v, ops, n)),
        delivered(v, ops, n) + unread(after(v, ops, n)) == unread(v) + taken(v, ops, n),
    decreases n,
{
    if n == 0 {
        assert(delivered(v, ops, 0) + unread(v) =~= unread(v) + taken(v, ops, 0));
    } else {
        law_every_sample_is_read_once(v, ops, n - 1);
        let w = after(v, ops, n - 1);
        let given = delivered(v, ops, n - 1);
        let got = taken(v, ops, n - 1);
        match ops[n - 1] {
            CaptureOp::Push(x) => {
                if !is_full(w) {
                    assert(unread(pushed(w, x)) =~= unread(w).push(x));
                    assert(given + unread(w).push(x) =~= (given + unread(w)).push(x));
                    assert(unread(v) + got.push(x) =~= (unread(v) + got).push(x));
                }
            },
            CaptureOp::Drain => {
                assert(unread(drained(w)) =~= Seq::empty());
                assert(given + unread(w) + unread(drained(w)) =~= given + unread(w));
            },
        }
    }
}

// ---------------------------------------------------------------------------
// What a capture gives
// ---------------------------------------------------------------------------

/// The samples since the last time, as bytes.
pub struct SystemAudioPcmChunk {
    pub bytes: Vec<u8>,
    pub sample_rate: u32,
    pub sample_count: usize,
}

/// All samples of a capture, as a WAV file.
pub struct SystemAudioWav {
    pub bytes: Vec<u8>,
    pub sample_rate: u32,
    pub sample_count: usize,
}

/// The samples since the last time, as bytes.
pub fn drain_pcm(buffer: &mut CaptureBuffer, sample_rate: u32) -> (r: SystemAudioPcmChunk)
    requires
        is_buffer(old(buffer)@),
    ensures
        r.bytes@ == crate::audio::pcm_bytes(unread(old(buffer)@)),
        r.sample_rate == sample_rate,
        r.sample_count == unread(old(buffer)@).len(),
        final(buffer)@ == drained(old(buffer)@),
        is_buffer(final(buffer)@),
{
    let samples = buffer.drain_since_last_read();
    SystemAudioPcmChunk {
        bytes: encode_pcm16_bytes(samples.as_slice()),
        sample_rate,
        sample_count: samples.len(),
    }
}

/// All samples that are kept, as a WAV file.
pub fn into_wav(buffer: &CaptureBuffer, sample_rate: u32) -> (r: Result<SystemAudioWav, String>)
    requires
        sample_rate * 2 <= u32::MAX,
    ensures
        match r {
            Ok(wav) => buffer@.samples.len() > 0 && 36 + 2 * buffer@.samples.len() <= u32::MAX
                && wav.bytes@ == crate::audio::wav_bytes(sample_rate as int, buffer@.samples)
                && wav.sample_rate == sample_rate && wav.sample_count == buffer@.samples.len(),
            Err(e) => if buffer@.samples.len() == 0 {
                e@ == "PC音声を取得できませんでした。再生中の音声があるか確認してください"@
            } else {
                36 + 2 * buffer@.samples.len() > u32::MAX && e@ == "WAVデータが大きすぎます"@
            },
        },
{
    if buffer.samples.len() == 0 {
        return Err(
            "PC音声を取得できませんでした。再生中の音声があるか確認してください".to_owned(),
        );
    }
    match encode_mono_pcm16_wav(sample_rate, buffer.samples.as_slice()) {
        Ok(bytes) => Ok(SystemAudioWav { bytes, sample_rate, sample_count: buffer.samples.len() }),
        Err(e) => Err(e),
    }
}

// ---------------------------------------------------------------------------
// Whether a capture is running
// ---------------------------------------------------------------------------

/// The milliseconds since the Unix epoch; zero for a clock that stands before it.
pub fn now_millis() -> (r: i64)
    ensures
        crate::ids::is_reading(r),
{
    now_ms()
}

/// Whether what the machine plays can be captured on the system with this name.
pub fn system_audio_supported(system: &str) -> (r: bool)
    ensures
        r == (system@ == "windows"@),
{
    same(system, "windows")
}

/// How long a capture may run, given what was asked for: one second to two hours.
pub fn capture_limit(max_seconds: Option<u32>) -> (r: Option<u32>)
    ensures
        match max_seconds {
            Some(n) => r == Some(
                if n < 1 {
                    1u32
                } else if n > 7200 {
                    7200u32
                } else {
                    n
                },
            ),
            None => r is None,
        },
{
    match max_seconds {
        Some(n) => if n < 1 {
            Some(1)
        } else if n > 7200 {
            Some(7200)
        } else {
            Some(n)
        },
        None => None,
    }
}

/// A capture that is running.
pub struct CaptureInfo {
    pub device_name: String,
    pub sample_rate: u32,
    pub started_at: i64,
}

/// What the user is told of captures.
pub struct SystemAudioCaptureStatus {
    pub supported: bool,
    pub active: bool,
    pub device_name: Option<String>,
    pub sample_rate: Option<u32>,
    pub started_at: Option<i64>,
    pub elapsed_ms: Option<u128>,
}

/// What the user is told of a capture that was started.
pub struct SystemAudioStartResponse {
    pub supported: bool,
    pub active: bool,
    pub device_name: String,
    pub sample_rate: u32,
    pub started_at: i64,
}

/// The capture that is running, if any.
pub struct SystemAudioCaptureManager {
    pub session: Option<CaptureInfo>,
}

impl SystemAudioCaptureManager {
    /// No capture.
    pub fn new() -> (r: SystemAudioCaptureManager)
        ensures
            r.session is None,
    {
        SystemAudioCaptureManager { session: None }
    }

    /// What the user is told of captures.
    pub fn status(&self, supported: bool, elapsed_ms: u128) -> (r: SystemAudioCaptureStatus)
        ensures
            r.supported == supported,
            r.active == self.session is Some,
            match self.session {
                Some(s) => crate::text::opt_view(r.device_name) == Some(s.device_name@)
                    && r.sample_rate == Some(s.sample_rate) && r.started_at == Some(s.started_at)
                    && r.elapsed_ms == Some(elapsed_ms),
                None => r.device_name is None && r.sample_rate is None && r.started_at is None
                    && r.elapsed_ms is None,
            },
    {
        match &self.session {
            Some(s) => SystemAudioCaptureStatus {
                supported,
                active: true,
                device_name: Some(s.device_name.clone()),
                sample_rate: Some(s.sample_rate),
                started_at: Some(s.started_at),
                elapsed_ms: Some(elapsed_ms),
            },
            None => SystemAudioCaptureStatus {
                supported,
                active: false,
                device_name: None,
                sample_rate: None,
                started_at: None,
                elapsed_ms: None,
            },
        }
    }

    /// Whether a capture can be started: none may be running.
    pub fn check_start(&self) -> (r: Result<(), String>)
        ensures
            match r {
                Ok(_) => self.session is None,
                Err(e) => self.session is Some && e@ == "システム音声キャプチャは既に実行中です"@,
            },
    {
        if self.session.is_some() {
            Err("システム音声キャプチャは既に実行中です".to_owned())
        } else {
            Ok(())
        }
    }

    /// Takes note of the capture that was started, unless one is running.
    pub fn start(&mut self, started: Result<CaptureInfo, String>) -> (r: Result<
        SystemAudioStartResponse,
        String,
    >)
        ensures
            match r {
                Ok(a) => old(self).session is None && started is Ok && final(self).session == Some(
                    started->Ok_0,
                ) && a.supported && a.active && a.device_name@ == started->Ok_0.device_name@
                    && a.sample_rate == started->Ok_0.sample_rate && a.started_at
                    == started->Ok_0.started_at,
                Err(e) => *final(self) == *old(self) && if old(self).session is Some {
                    e@ == "システム音声キャプチャは既に実行中です"@
                } else {
                    started matches Err(x) && e@ == x@
                },
            },
    {
        self.check_start()?;
        match started {
            Ok(info) => {
                let r = SystemAudioStartResponse {
                    supported: true,
                    active: true,
                    device_name: info.device_name.clone(),
                    sample_rate: info.sample_rate,
                    started_at: info.started_at,
                };
                self.session = Some(info);
                Ok(r)
            },
            Err(e) => Err(e),
        }
    }

    /// The capture that is running, which goes on.
    pub fn running(&self) -> (r: Result<&CaptureInfo, String>)
        ensures
            match r {
                Ok(s) => self.session == Some(*s),
                Err(e) => self.session is None && e@
                    == "システム音声キャプチャは開始されていません"@,
            },
    {
        match &self.session {
            Some(s) => Ok(s),
            None => Err("システム音声キャプチャは開始されていません".to_owned()),
        }
    }

    /// The capture that was running, which is over from now on.
    pub fn stop(&mut self) -> (r: Result<CaptureInfo, String>)
        ensures
            final(self).session is None,
            match r {
                Ok(s) => old(self).session == Some(s),
                Err(e) => old(self).session is None && e@
                    == "システム音声キャプチャは開始されていません"@,
            },
    {
        match self.session.take() {
            Some(s) => Ok(s),
            None => Err("システム音声キャプチャは開始されていません".to_owned()),
        }
    }

    /// Ends the capture that is running, and says whether there was one.
    pub fn cancel(&mut self) -> (r: bool)
        ensures
            final(self).session is None,
            r == old(self).session is Some,
    {
        self.session.take().is_some()
    }
}

/// A recording holds what comes in, in order, up to the seconds that it may last at its rate, and
/// all of it where no limit is set. What comes in moves no reader.
pub proof fn law_recording_holds_what_comes_in(v: BufferView, samples: Seq<i16>)
    requires
        is_buffer(v),
    ensures
        ({
            let w = appended(v, samples);
            let room = match v.max_samples {
                Some(n) => if n - v.samples.len() < samples.len() {
                    n - v.samples.len()
                } else {
                    samples.len() as int
                },
                None => samples.len() as int,
            };
            &&& w.samples == v.samples + samples.take(room)
            &&& w.read_cursor == v.read_cursor
            &&& w.max_samples == v.max_samples
        }),
    decreases samples.len(),
{
    let w = appended(v, samples);
    if samples.len() == 0 {
        assert(v.samples + samples.take(0) =~= v.samples);
    } else {
        let front = samples.drop_last();
        law_recording_holds_what_comes_in(v, front);
        let room = match v.max_samples {
            Some(n) => if n - v.samples.len() < samples.len() {
                n - v.samples.len()
            } else {
                samples.len() as int
            },
            None => samples.len() as int,
        };
        if room == samples.len() {
            assert(front.take(front.len() as int) =~= front);
            assert(w.samples =~= v.samples + samples.take(room));
        } else {
            assert(front.take(room) =~= samples.take(room));
            assert(w.samples =~= v.samples + samples.take(room));
        }
    }
}

/// A recording that may last some seconds has room for the samples of just that time, and one
/// without a limit, or with none to speak of, has no bound.
pub proof fn law_recording_lasts_as_long_as_asked_for(sample_rate: u32, seconds: u32)
    ensures
        seconds > 0 ==> fresh_buffer(sample_rate, Some(seconds)).max_samples == Some(
            sample_rate * seconds,
        ),
        fresh_buffer(sample_rate, Some(0)).max_samples is None,
        fresh_buffer(sample_rate, None).max_samples is None,
        fresh_buffer(sample_rate, Some(seconds)).samples.len() == 0,
        fresh_buffer(sample_rate, Some(seconds)).read_cursor == 0,
{
}

/// What was read is not read again, and a recording of more than 262,144 samples is let go of once
/// it is read.
pub proof fn law_long_recordings_are_let_go(v: BufferView)
    requires
        is_buffer(v),
    ensures
        drained(v).read_cursor == drained(v).samples.len(),
        v.samples.len() > 262_144 ==> drained(v).samples.len() == 0,
        v.samples.len() <= 262_144 ==> drained(v).samples == v.samples,
        drained(v).max_samples == v.max_samples,
{
}

} // verus!
