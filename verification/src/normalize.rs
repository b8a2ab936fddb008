//! How an upload is turned into a WAV file: packet after packet is read, decoded and written.
//!
//! The decoder and the files are elsewhere. What is to be done next follows from what became of the
//! last step.

use vstd::prelude::*;

verus! {

/// What is waited for.
#[derive(Clone, Copy, Debug, PartialEq, Eq, Structural)]
pub enum NormalizeStage {
    Reading,
    Decoding,
    Creating,
    Writing,
    Finalizing,
    Over,
}

/// What became of the last step.
pub enum NormalizeEvent {
    /// A packet of the track with this number was read.
    Packet(u32),
    /// There are no more packets.
    End,
    /// The decoder would have to begin anew.
    ResetRequired,
    /// The packet was decoded, at this sample rate.
    Decoded(u32),
    /// The packet cannot be decoded.
    Undecodable,
    /// The step is done. For a packet that was written, the number of its samples.
    Done(usize),
    /// The step failed.
    Failed(String),
}

/// The model of a [`NormalizeEvent`].
pub enum NormalizeEventView {
    Packet(u32),
    End,
    ResetRequired,
    Decoded(u32),
    Undecodable,
    Done(nat),
    Failed(Seq<char>),
}

impl View for NormalizeEvent {
    type V = NormalizeEventView;

    open spec fn view(&self) -> NormalizeEventView {
        match self {
            NormalizeEvent::Packet(t) => NormalizeEventView::Packet(*t),
            NormalizeEvent::End => NormalizeEventView::End,
            NormalizeEvent::ResetRequired => NormalizeEventView::ResetRequired,
            NormalizeEvent::Decoded(rate) => NormalizeEventView::Decoded(*rate),
            NormalizeEvent::Undecodable => NormalizeEventView::Undecodable,
            NormalizeEvent::Done(n) => NormalizeEventView::Done(*n as nat),
            NormalizeEvent::Failed(e) => NormalizeEventView::Failed(e@),
        }
    }
}

/// What is to be done next.
pub enum NormalizeAction {
    /// Read the next packet.
    Read,
    /// Decode the packet that was read last.
    Decode,
    /// Create the file, for one channel of 16 bits at this sample rate.
    Create(u32),
    /// Write what was decoded last, its channels mixed into one.
    Write,
    /// Complete the file.
    Finalize,
    /// It is over.
    Finish(Result<(), String>),
}

/// The model of a [`NormalizeAction`].
pub enum NormalizeActionView {
    Read,
    Decode,
    Create(u32),
    Write,
    Finalize,
    Finish(Result<(), Seq<char>>),
}

impl View for NormalizeAction {
    type V = NormalizeActionView;

    open spec fn view(&self) -> NormalizeActionView {
        match self {
            NormalizeAction::Read => NormalizeActionView::Read,
            NormalizeAction::Decode => NormalizeActionView::Decode,
            NormalizeAction::Create(rate) => NormalizeActionView::Create(*rate),
            NormalizeAction::Write => NormalizeActionView::Write,
            NormalizeAction::Finalize => NormalizeActionView::Finalize,
            NormalizeAction::Finish(r) => NormalizeActionView::Finish(
                match r {
                    Ok(_) => Ok(()),
                    Err(e) => Err(e@),
                },
            ),
        }
    }
}

/// A conversion on its way: the number of the track that is converted, whether the file has been
/// created, and how many samples have been written.
pub struct Normalizer {
    pub track_id: u32,
    pub created: bool,
    pub wrote_samples: usize,
    pub stage: NormalizeStage,
}

/// The model of a [`Normalizer`].
#[verifier::ext_equal]
pub struct NormalizerView {
    pub track_id: u32,
    pub created: bool,
    pub wrote_samples: nat,
    pub stage: NormalizeStage,
}

impl View for Normalizer {
    type V = NormalizerView;

    open spec fn view(&self) -> NormalizerView {
        NormalizerView {
            track_id: self.track_id,
            created: self.created,
            wrote_samples: self.wrote_samples as nat,
            stage: self.stage,
        }
    }
}

/// Whether an event can come at a stage. The samples that were written have to be countable.
pub open spec fn can_come(v: NormalizerView, event: NormalizeEventView) -> bool {
    match v.stage {
        NormalizeStage::Reading => event is Packet || event is End || event is ResetRequired
            || event is Failed,
        NormalizeStage::Decoding => event is Decoded || event is Undecodable || event is Failed,
        NormalizeStage::Creating | NormalizeStage::Finalizing => event is Done || event is Failed,
        NormalizeStage::Writing => match event {
            NormalizeEventView::Done(n) => v.wrote_samples + n <= usize::MAX,
            NormalizeEventView::Failed(_) => true,
            _ => false,
        },
        NormalizeStage::Over => false,
    }
}

/// The words before an error of a stage.
pub open spec fn blame(stage: NormalizeStage) -> Seq<char> {
    match stage {
        NormalizeStage::Reading => "音声パケットを読み込めませんでした: "@,
        NormalizeStage::Decoding => "音声をデコードできませんでした: "@,
        NormalizeStage::Creating => "WAVファイルを作成できませんでした: "@,
        NormalizeStage::Writing => "WAVサンプルを書き込めませんでした: "@,
        _ => "WAVファイルを完了できませんでした: "@,
    }
}

/// The conversion at another stage.
pub open spec fn goes_on(
    v: NormalizerView,
    stage: NormalizeStage,
    action: NormalizeActionView,
) -> (NormalizerView, NormalizeActionView) {
    (NormalizerView { stage, ..v }, action)
}

/// The conversion failed.
pub open spec fn gives_up(v: NormalizerView, message: Seq<char>) -> (
    NormalizerView,
    NormalizeActionView,
) {
    goes_on(v, NormalizeStage::Over, NormalizeActionView::Finish(Err(message)))
}

/// What follows an event. Packets of other tracks and packets that cannot be decoded are passed
/// over; the file is created with the first packet that can be.
pub open spec fn normalize_step(v: NormalizerView, event: NormalizeEventView) -> (
    NormalizerView,
    NormalizeActionView,
) {
    match (v.stage, event) {
        (stage, NormalizeEventView::Failed(error)) => gives_up(v, blame(stage) + error),
        (NormalizeStage::Reading, NormalizeEventView::Packet(track)) => if track == v.track_id {
            goes_on(v, NormalizeStage::Decoding, NormalizeActionView::Decode)
        } else {
            goes_on(v, NormalizeStage::Reading, NormalizeActionView::Read)
        },
        (NormalizeStage::Reading, NormalizeEventView::ResetRequired) => gives_up(
            v,
            "音声デコーダのリセットが必要な形式です"@,
        ),
        (NormalizeStage::Reading, _) => if v.created {
            goes_on(v, NormalizeStage::Finalizing, NormalizeActionView::Finalize)
        } else {
            gives_up(v, "音声サンプルを読み込めませんでした"@)
        },
        (NormalizeStage::Decoding, NormalizeEventView::Decoded(rate)) => if v.created {
            goes_on(v, NormalizeStage::Writing, NormalizeActionView::Write)
        } else {
            goes_on(v, NormalizeStage::Creating, NormalizeActionView::Create(rate))
        },
        (NormalizeStage::Decoding, _) => goes_on(
            v,
            NormalizeStage::Reading,
            NormalizeActionView::Read,
        ),
        (NormalizeStage::Creating, _) => goes_on(
            NormalizerView { created: true, ..v },
            NormalizeStage::Writing,
            NormalizeActionView::Write,
        ),
        (NormalizeStage::Writing, NormalizeEventView::Done(n)) => goes_on(
            NormalizerView { wrote_samples: v.wrote_samples + n, ..v },
            NormalizeStage::Reading,
            NormalizeActionView::Read,
        ),
        (_, _) => if v.wrote_samples == 0 {
            gives_up(v, "音声サンプルが空でした"@)
        } else {
            goes_on(v, NormalizeStage::Over, NormalizeActionView::Finish(Ok(())))
        },
    }
}

fn blame_of(stage: NormalizeStage) -> (r: String)
    ensures
        r@ == blame(stage),
{
    match stage {
        NormalizeStage::Reading => "音声パケットを読み込めませんでした: ".to_owned(),
        NormalizeStage::Decoding => "音声をデコードできませんでした: ".to_owned(),
        NormalizeStage::Creating => "WAVファイルを作成できませんでした: ".to_owned(),
        NormalizeStage::Writing => "WAVサンプルを書き込めませんでした: ".to_owned(),
        _ => "WAVファイルを完了できませんでした: ".to_owned(),
    }
}

impl Normalizer {
    /// The conversion of a track. The first thing to be done is to read a packet.
    pub fn new(track_id: u32) -> (r: Normalizer)
        ensures
            r@ == (NormalizerView {
                track_id,
                created: false,
                wrote_samples: 0,
                stage: NormalizeStage::Reading,
            }),
    {
        Normalizer { track_id, created: false, wrote_samples: 0, stage: NormalizeStage::Reading }
    }

    fn go(&mut self, stage: NormalizeStage, action: NormalizeAction) -> (r: NormalizeAction)
        ensures
            (final(self)@, r@) == goes_on(old(self)@, stage, action@),
    {
        self.stage = stage;
        action
    }

    fn give_up(&mut self, message: String) -> (r: NormalizeAction)
        ensures
            (final(self)@, r@) == gives_up(old(self)@, message@),
    {
        self.stage = NormalizeStage::Over;
        NormalizeAction::Finish(Err(message))
    }

    /// Takes what became of the last step, and gives the next one.
    pub fn step(&mut self, event: NormalizeEvent) -> (r: NormalizeAction)
        requires
            can_come(old(self)@, event@),
        ensures
            (final(self)@, r@) == normalize_step(old(self)@, event@),
    {
        match event {
            NormalizeEvent::Failed(error) => {
                let mut message = blame_of(self.stage);
                message.append(error.as_str());
                self.give_up(message)
            },
            NormalizeEvent::Packet(track) => if track == self.track_id {
                self.go(NormalizeStage::Decoding, NormalizeAction::Decode)
            } else {
                self.go(NormalizeStage::Reading, NormalizeAction::Read)
            },
            NormalizeEvent::ResetRequired => self.give_up(
                "音声デコーダのリセットが必要な形式です".to_owned(),
            ),
            NormalizeEvent::End => if self.created {
                self.go(NormalizeStage::Finalizing, NormalizeAction::Finalize)
            } else {
                self.give_up("音声サンプルを読み込めませんでした".to_owned())
            },
            NormalizeEvent::Decoded(rate) => if self.created {
                self.go(NormalizeStage::Writing, NormalizeAction::Write)
            } else {
                self.go(NormalizeStage::Creating, NormalizeAction::Create(rate))
            },
            NormalizeEvent::Undecodable => self.go(NormalizeStage::Reading, NormalizeAction::Read),
            NormalizeEvent::Done(n) => match self.stage {
                NormalizeStage::Creating => {
                    self.created = true;
                    self.go(NormalizeStage::Writing, NormalizeAction::Write)
                },
                NormalizeStage::Writing => {
                    self.wrote_samples = self.wrote_samples + n;
                    self.go(NormalizeStage::Reading, NormalizeAction::Read)
                },
                _ => if self.wrote_samples == 0 {
                    self.give_up("音声サンプルが空でした".to_owned())
                } else {
                    self.go(NormalizeStage::Over, NormalizeAction::Finish(Ok(())))
                },
            },
        }
    }
}

/// What holds of every conversion: samples are only written to a file that was created.
pub open spec fn is_conversion(v: NormalizerView) -> bool {
    &&& v.wrote_samples > 0 || v.stage is Writing || v.stage is Finalizing ==> v.created
}

/// The file is created once, before anything is written to it, and a conversion that ends well has
/// written samples and completed the file.
pub proof fn law_conversion_writes_samples(v: NormalizerView, event: NormalizeEventView)
    requires
        is_conversion(v),
        can_come(v, event),
    ensures
        is_conversion(normalize_step(v, event).0),
        normalize_step(v, event).1 is Create ==> !v.created,
        normalize_step(v, event).1 is Write ==> normalize_step(v, event).0.created,
        normalize_step(v, event).1 == NormalizeActionView::Finish(Ok(())) ==> v.stage is Finalizing
            && v.wrote_samples > 0,
{
}

/// Packets of the chosen track are decoded and others passed over. The file is made at the rate of
/// the first that is decoded, each is written to it, and it is closed where the packets end.
pub proof fn law_conversion_goes_its_way(v: NormalizerView, track: u32, rate: u32, n: nat)
    ensures
        ({
            let next = |stage: NormalizeStage, event: NormalizeEventView|
                normalize_step(NormalizerView { stage, ..v }, event);
            let reading = NormalizeStage::Reading;
            &&& next(reading, NormalizeEventView::Packet(track)).1 == if track == v.track_id {
                NormalizeActionView::Decode
            } else {
                NormalizeActionView::Read
            }
            &&& v.created ==> next(reading, NormalizeEventView::End).1
                == NormalizeActionView::Finalize
            &&& !v.created ==> next(reading, NormalizeEventView::End).1
                == NormalizeActionView::Finish(Err("音声サンプルを読み込めませんでした"@))
            &&& next(reading, NormalizeEventView::ResetRequired).1 == NormalizeActionView::Finish(
                Err("音声デコーダのリセットが必要な形式です"@),
            )
            &&& next(NormalizeStage::Decoding, NormalizeEventView::Decoded(rate)).1 == if v.created {
                NormalizeActionView::Write
            } else {
                NormalizeActionView::Create(rate)
            }
            &&& next(NormalizeStage::Decoding, NormalizeEventView::Undecodable).1
                == NormalizeActionView::Read
            &&& next(NormalizeStage::Creating, NormalizeEventView::Done(n)).1
                == NormalizeActionView::Write
            &&& next(NormalizeStage::Creating, NormalizeEventView::Done(n)).0.created
            &&& next(NormalizeStage::Writing, NormalizeEventView::Done(n)).1
                == NormalizeActionView::Read
            &&& next(NormalizeStage::Writing, NormalizeEventView::Done(n)).0.wrote_samples
                == v.wrote_samples + n
            &&& next(NormalizeStage::Finalizing, NormalizeEventView::Done(n)).1
                == NormalizeActionView::Finish(
                if v.wrote_samples == 0 {
                    Err("音声サンプルが空でした"@)
                } else {
                    Ok(())
                },
            )
        }),
{
}

/// A conversion waits for what it asked for: the stage that it is left in is that of its action. It
/// stays with its track, and only written samples are counted.
pub proof fn law_conversion_waits_for_its_action(v: NormalizerView, event: NormalizeEventView)
    requires
        can_come(v, event),
    ensures
        normalize_step(v, event).0.stage == match normalize_step(v, event).1 {
            NormalizeActionView::Read => NormalizeStage::Reading,
            NormalizeActionView::Decode => NormalizeStage::Decoding,
            NormalizeActionView::Create(_) => NormalizeStage::Creating,
            NormalizeActionView::Write => NormalizeStage::Writing,
            NormalizeActionView::Finalize => NormalizeStage::Finalizing,
            NormalizeActionView::Finish(_) => NormalizeStage::Over,
        },
        normalize_step(v, event).0.track_id == v.track_id,
        v.created ==> normalize_step(v, event).0.created,
        !(v.stage is Writing) ==> normalize_step(v, event).0.wrote_samples == v.wrote_samples,
{
}

/// A step that fails ends the conversion, with what was tried and what went wrong.
pub proof fn law_failed_step_ends_the_conversion(v: NormalizerView, error: Seq<char>)
    ensures
        normalize_step(v, NormalizeEventView::Failed(error)).1 == NormalizeActionView::Finish(
            Err(
                match v.stage {
                    NormalizeStage::Reading => "音声パケットを読み込めませんでした: "@,
                    NormalizeStage::Decoding => "音声をデコードできませんでした: "@,
                    NormalizeStage::Creating => "WAVファイルを作成できませんでした: "@,
                    NormalizeStage::Writing => "WAVサンプルを書き込めませんでした: "@,
                    NormalizeStage::Finalizing | NormalizeStage::Over => "WAVファイルを完了できませんでした: "@,
                } + error,
            ),
        ),
        normalize_step(v, NormalizeEventView::Failed(error)).0.stage is Over,
{
}

} // verus!
