//! The file pipeline: from a video to translated subtitles.
//!
//! A run extracts the audio, has it transcribed, and has the sentences
//! translated one by one. The pipeline decides what is done next; the work
//! itself is done outside, and its outcome is handed back. A run that was
//! interrupted goes on from its checkpoint: neither extraction nor
//! transcription is repeated, and only what lacks a translation is translated.

pub mod realtime;

use crate::asr::{AsrConfig, FileTranscriptionResult, TranscriptionSentence};
use crate::checkpoint::{
    ascending, fold_is_unique, folds_to, has_segment, state_of, unknown_settings, Checkpoint,
    CheckpointFingerprint, CheckpointView, FingerprintView, Fraction, SegmentProgress,
    SegmentStatus,
};
use crate::config::AppConfig;
use crate::error::{error_text, Error};
use crate::subtitle::{SubtitleEntry, SubtitleStatus, TimePoint};
use crate::text::{
    ascii_lowered, cat3, clone_opt_text, from_chars, is_ascii_text, is_space_spec,
    lemma_trim_is_part, lower_chars, lowered, text_eq, texts, trim, trim_spec, trim_start_chars,
    trim_start_spec, trimming_takes_only_space,
};
use crate::translate::{TranslateRequest, TranslateResponse};
use vstd::prelude::*;
use vstd::string::*;

verus! {

/// The step of a run, as it is shown to the user.
#[derive(Debug, Clone, Copy, PartialEq, Eq, Structural)]
pub enum Phase {
    Extracting,
    Transcribing,
    Translating,
    Done,
}

/// The name under which a phase is reported.
pub open spec fn phase_name(p: Phase) -> Seq<char> {
    match p {
        Phase::Extracting => "extracting"@,
        Phase::Transcribing => "transcribing"@,
        Phase::Translating => "translating"@,
        Phase::Done => "done"@,
    }
}

impl Phase {
    /// The name under which this phase is reported.
    pub fn as_str(&self) -> (r: &'static str)
        ensures
            r@ == phase_name(*self),
            *self == Phase::Extracting ==> r@ == "extracting"@,
            *self == Phase::Transcribing ==> r@ == "transcribing"@,
            *self == Phase::Translating ==> r@ == "translating"@,
            *self == Phase::Done ==> r@ == "done"@,
    {
        match self {
            Phase::Extracting => "extracting",
            Phase::Transcribing => "transcribing",
            Phase::Translating => "translating",
            Phase::Done => "done",
        }
    }
}

/// Where a pipeline stands.
#[derive(Debug, PartialEq)]
pub enum PipelineState {
    Idle,
    Processing,
    Paused,
    Completed,
    Exported,
    Failed(String),
}

/// What a [`PipelineState`] says.
pub enum StateView {
    Idle,
    Processing,
    Paused,
    Completed,
    Exported,
    Failed(Seq<char>),
}

impl View for PipelineState {
    type V = StateView;

    open spec fn view(&self) -> StateView {
        match *self {
            PipelineState::Idle => StateView::Idle,
            PipelineState::Processing => StateView::Processing,
            PipelineState::Paused => StateView::Paused,
            PipelineState::Completed => StateView::Completed,
            PipelineState::Exported => StateView::Exported,
            PipelineState::Failed(m) => StateView::Failed(m@),
        }
    }
}

impl Clone for PipelineState {
    fn clone(&self) -> (r: Self)
        ensures
            r == *self,
    {
        match self {
            PipelineState::Idle => PipelineState::Idle,
            PipelineState::Processing => PipelineState::Processing,
            PipelineState::Paused => PipelineState::Paused,
            PipelineState::Completed => PipelineState::Completed,
            PipelineState::Exported => PipelineState::Exported,
            PipelineState::Failed(m) => PipelineState::Failed(m.clone()),
        }
    }
}

/// What the pipeline waits for.
#[derive(Debug, Clone, Copy, PartialEq, Eq, Structural)]
pub enum Stage {
    /// Nothing: no run is under way.
    Rest,
    /// The extracted audio.
    Extracting,
    /// The recognised sentences.
    Transcribing,
    /// The translation of one sentence.
    Translating,
}

/// What is to be done next.
#[derive(Debug)]
pub enum PipelineAction {
    /// Extract the whole audio to a temporary file.
    Extract,
    /// Have the audio file transcribed.
    Transcribe(AsrConfig),
    /// Have a sentence translated.
    Translate(TranslateRequest),
    /// Nothing: the run has ended well, or was paused.
    Finish,
    /// Nothing: the run has failed.
    Fail(Error),
}

/// One decision of the pipeline. What is to be done comes in this order: the
/// temporary audio file is removed, a line is appended to the log, the log is
/// written anew, and the action is taken.
#[derive(Debug)]
pub struct PipelineStep<S> {
    pub remove_audio: bool,
    pub append: Option<SegmentProgress<TimePoint<S>>>,
    pub save: bool,
    pub action: PipelineAction,
}

/// The length of a video.
#[derive(Debug, Clone, Copy)]
pub struct VideoLength {
    pub secs: u64,
    pub nanos: u32,
}

/// The pipeline of one video. `S` is how the caller counts seconds.
pub struct FilePipeline<S> {
    state: PipelineState,
    phase: Phase,
    progress: Fraction,
    entries: Vec<SubtitleEntry<S>>,
    config: AppConfig,
    source_language: String,
    checkpoint: Option<Checkpoint<TimePoint<S>>>,
    stage: Stage,
    sentences: Vec<TranscriptionSentence<TimePoint<S>>>,
    results: Vec<Option<String>>,
    previous: Vec<String>,
    done: usize,
    next: usize,
}

/// What a pipeline knows.
#[verifier::ext_equal]
pub struct PipelineView<S> {
    pub state: StateView,
    pub phase: Phase,
    pub progress: Fraction,
    /// The subtitles of the last run that was completed.
    pub entries: Seq<SubtitleEntry<S>>,
    pub config: AppConfig,
    pub source_language: String,
    pub checkpoint: Option<CheckpointView<TimePoint<S>>>,
    pub stage: Stage,
    /// The sentences of the current run, in order.
    pub sentences: Seq<TranscriptionSentence<TimePoint<S>>>,
    /// The translations of these sentences, as far as there are any.
    pub results: Seq<Option<String>>,
    /// The sentences that were translated, in the order in which that was.
    pub previous: Seq<String>,
}

/// How many sentences have a translation.
pub open spec fn done_count(results: Seq<Option<String>>) -> nat
    decreases results.len(),
{
    if results.len() == 0 {
        0
    } else {
        done_count(results.drop_last()) + (if results.last() is Some {
            1nat
        } else {
            0
        })
    }
}

/// The position of the first sentence without a translation; the number of
/// sentences where there is none.
pub open spec fn first_open(results: Seq<Option<String>>) -> int
    decreases results.len(),
{
    if results.len() == 0 || results[0] is None {
        0
    } else {
        1 + first_open(results.drop_first())
    }
}

/// The texts of the sentences that have a translation, in order.
pub open spec fn done_texts<T>(
    sentences: Seq<TranscriptionSentence<T>>,
    results: Seq<Option<String>>,
) -> Seq<String>
    decreases results.len(),
{
    if results.len() == 0 {
        Seq::empty()
    } else {
        let before = done_texts(sentences, results.drop_last());
        if results.last() is Some {
            before.push(sentences[results.len() - 1].text)
        } else {
            before
        }
    }
}

/// The subtitle of a translated sentence.
pub open spec fn entry_of<S>(
    sentence: TranscriptionSentence<TimePoint<S>>,
    translated: String,
) -> SubtitleEntry<S> {
    SubtitleEntry {
        content_start: sentence.begin_time.seconds,
        content_end: sentence.end_time.seconds,
        wall_start: sentence.begin_time.wall_ms,
        wall_end: sentence.end_time.wall_ms,
        source: sentence.text,
        translated,
        status: SubtitleStatus::Final,
    }
}

/// The subtitles of sentences that all have a translation.
pub open spec fn entries_of<S>(
    sentences: Seq<TranscriptionSentence<TimePoint<S>>>,
    results: Seq<Option<String>>,
) -> Seq<SubtitleEntry<S>> {
    Seq::new(sentences.len(), |i: int| entry_of(sentences[i], results[i]->0))
}

/// The last ten of the texts, latest first.
pub open spec fn context_of(previous: Seq<String>) -> Seq<String> {
    Seq::new(
        if previous.len() < 10 {
            previous.len()
        } else {
            10
        },
        |i: int| previous[previous.len() - 1 - i],
    )
}

/// Whether `r` asks for the translation of the given text after the given ones.
pub open spec fn asks_for(
    r: TranslateRequest,
    text: String,
    source_lang: Seq<char>,
    target_lang: String,
    previous: Seq<String>,
) -> bool {
    &&& r.text == text
    &&& r.source_lang@ == source_lang
    &&& r.target_lang == target_lang
    &&& r.context@ == context_of(previous)
    &&& r.glossary is None
}

/// Whether a run can go on from these sentences: there are some, and of each
/// the text and the times are known.
pub open spec fn usable<T>(segments: Seq<SegmentProgress<T>>) -> bool {
    &&& segments.len() > 0
    &&& forall|i: int|
        0 <= i < segments.len() ==> (#[trigger] segments[i]).source is Some
            && segments[i].start_time is Some && segments[i].end_time is Some
}

/// The sentence that a checkpoint remembers.
pub open spec fn sentence_of<T>(segment: SegmentProgress<T>) -> TranscriptionSentence<T> {
    TranscriptionSentence {
        text: segment.source->0,
        begin_time: segment.start_time->0,
        end_time: segment.end_time->0,
    }
}

/// The translation that a checkpoint remembers.
pub open spec fn result_of<T>(segment: SegmentProgress<T>) -> Option<String> {
    if segment.status == SegmentStatus::Completed {
        segment.translated
    } else {
        None
    }
}

/// The sentences that a checkpoint remembers.
pub open spec fn sentences_of<T>(segments: Seq<SegmentProgress<T>>) -> Seq<
    TranscriptionSentence<T>,
> {
    segments.map_values(|s: SegmentProgress<T>| sentence_of(s))
}

/// The translations that a checkpoint remembers.
pub open spec fn results_of<T>(segments: Seq<SegmentProgress<T>>) -> Seq<Option<String>> {
    segments.map_values(|s: SegmentProgress<T>| result_of(s))
}

/// Whether a checkpoint says of each sentence what the run knows of it.
pub open spec fn mirrors<T>(
    segments: Seq<SegmentProgress<T>>,
    sentences: Seq<TranscriptionSentence<T>>,
    results: Seq<Option<String>>,
) -> bool {
    &&& segments.len() == sentences.len()
    &&& segments.len() == results.len()
    &&& forall|i: int|
        0 <= i < segments.len() ==> {
            &&& (#[trigger] segments[i]).source == Some(sentences[i].text)
            &&& segments[i].start_time == Some(sentences[i].begin_time)
            &&& segments[i].end_time == Some(sentences[i].end_time)
            &&& result_of(segments[i]) == results[i]
        }
}

/// The record of a sentence that was just recognised.
pub open spec fn fresh_segment<T>(i: int, sentence: TranscriptionSentence<T>) -> SegmentProgress<
    T,
> {
    SegmentProgress {
        segment_id: i as usize,
        start_time: Some(sentence.begin_time),
        end_time: Some(sentence.end_time),
        status: SegmentStatus::Pending,
        source: Some(sentence.text),
        translated: None,
        fallback: false,
    }
}

/// The records of sentences that were just recognised.
pub open spec fn fresh_segments<T>(sentences: Seq<TranscriptionSentence<T>>) -> Seq<
    SegmentProgress<T>,
> {
    Seq::new(sentences.len(), |i: int| fresh_segment(i, sentences[i]))
}

/// A pipeline whose sentences are known, once it is seen whether a
/// translation is still missing: it waits for one, or the run is complete.
pub open spec fn settled<S>(m: PipelineView<S>) -> PipelineView<S> {
    if first_open(m.results) < m.results.len() {
        PipelineView { stage: Stage::Translating, ..m }
    } else {
        PipelineView {
            state: StateView::Completed,
            phase: Phase::Done,
            stage: Stage::Rest,
            entries: entries_of(m.sentences, m.results),
            ..m
        }
    }
}

/// What a settled pipeline asks for: the next translation, or that the log of
/// the complete run be written anew.
pub open spec fn settled_step<S>(m: PipelineView<S>, step: PipelineStep<S>) -> bool {
    if m.stage == Stage::Translating {
        &&& !step.save
        &&& step.action matches PipelineAction::Translate(r) && asks_for(
            r,
            m.sentences[first_open(m.results)].text,
            "auto"@,
            m.config.translate.target_lang,
            m.previous,
        )
    } else {
        &&& step.save == (m.checkpoint is Some)
        &&& step.action is Finish
    }
}

/// A pipeline whose run has failed.
pub open spec fn failed<S>(m: PipelineView<S>, message: Seq<char>) -> PipelineView<S> {
    PipelineView { state: StateView::Failed(message), stage: Stage::Rest, ..m }
}

/// A pipeline whose run begins.
pub open spec fn begun<S>(m: PipelineView<S>) -> PipelineView<S> {
    PipelineView { state: StateView::Processing, phase: Phase::Extracting, ..m }
}

/// Whether a video is longer than three hours.
pub open spec fn too_long(length: Option<VideoLength>) -> bool {
    match length {
        Some(l) => l.secs > 10800 || (l.secs == 10800 && l.nanos > 0),
        None => false,
    }
}

/// What is said of a video that is too long.
pub open spec fn too_long_text(hours: Seq<char>) -> Seq<char> {
    "视频时长 "@ + hours + " 小时超过限制（最长 3 小时），请先裁剪后再处理"@
}

/// What is said of an audio file that is too large.
pub open spec fn too_large_text(gigabytes: Seq<char>) -> Seq<char> {
    "提取的音频文件大小 "@ + gigabytes + "GB 超过限制（最大 5GB）"@
}

/// The largest audio file that is uploaded, in bytes.
pub const MAX_AUDIO_BYTES: u64 = 5368709120;

/// Whether the checkpoint of a pipeline lets a run go on.
pub open spec fn can_resume<S>(m: PipelineView<S>) -> bool {
    m.checkpoint is Some && usable(m.checkpoint->0.segments)
}

/// A pipeline that goes on from its checkpoint, before it is settled.
pub open spec fn resumed<S>(m: PipelineView<S>) -> PipelineView<S> {
    let segments = m.checkpoint->0.segments;
    PipelineView {
        state: StateView::Processing,
        phase: Phase::Translating,
        sentences: sentences_of(segments),
        results: results_of(segments),
        previous: done_texts(sentences_of(segments), results_of(segments)),
        progress: (Fraction {
            numer: done_count(results_of(segments)) as usize,
            denom: segments.len() as usize,
        }),
        ..m
    }
}

/// A pipeline whose run was begun: it goes on from its checkpoint where that
/// lets it, and waits for the audio otherwise.
pub open spec fn started<S>(m: PipelineView<S>) -> PipelineView<S> {
    if can_resume(m) {
        settled(resumed(m))
    } else {
        PipelineView { stage: Stage::Extracting, ..begun(m) }
    }
}

/// A pipeline whose audio was transcribed, before it is settled.
pub open spec fn with_sentences<S>(
    m: PipelineView<S>,
    sentences: Seq<TranscriptionSentence<TimePoint<S>>>,
) -> PipelineView<S> {
    PipelineView {
        phase: Phase::Translating,
        sentences,
        results: Seq::new(sentences.len(), |i: int| None),
        previous: Seq::empty(),
        checkpoint: match m.checkpoint {
            Some(c) => Some(CheckpointView { segments: fresh_segments(sentences), ..c }),
            None => None,
        },
        ..m
    }
}

/// The record of a sentence that was just translated.
pub open spec fn completed_segment<T>(
    segment: SegmentProgress<T>,
    translated: String,
) -> SegmentProgress<T> {
    SegmentProgress {
        status: SegmentStatus::Completed,
        translated: Some(translated),
        ..segment
    }
}

/// A pipeline whose current sentence was translated, before it is settled.
pub open spec fn with_result<S>(m: PipelineView<S>, translated: String) -> PipelineView<S> {
    let k = first_open(m.results);
    PipelineView {
        results: m.results.update(k, Some(translated)),
        previous: m.previous.push(m.sentences[k].text),
        progress: (Fraction {
            numer: (done_count(m.results) + 1) as usize,
            denom: m.results.len() as usize,
        }),
        checkpoint: match m.checkpoint {
            Some(c) => Some(
                CheckpointView {
                    segments: c.segments.update(k, completed_segment(c.segments[k], translated)),
                    ..c
                },
            ),
            None => None,
        },
        ..m
    }
}

/// How the file of a pipeline is transcribed.
pub open spec fn is_file_asr_config(c: AsrConfig, config: AppConfig, language: String) -> bool {
    &&& c.provider == config.asr.provider
    &&& c.model == config.asr.file_model
    &&& c.api_key == config.asr.api_key
    &&& c.language == language
    &&& c.workspace_id == config.asr.workspace_id
    &&& !c.diarization
}

/// Whether recognised sentences are void under other settings.
pub open spec fn asr_changed(a: FingerprintView, b: FingerprintView) -> bool {
    a.source_language != b.source_language || a.asr_model != b.asr_model
}

/// Whether translations are void under other settings.
pub open spec fn translation_changed(a: FingerprintView, b: FingerprintView) -> bool {
    a.target_lang != b.target_lang || a.translate_provider != b.translate_provider
        || a.translate_model != b.translate_model
}

/// A sentence whose translation is void.
pub open spec fn untranslated<T>(segment: SegmentProgress<T>) -> SegmentProgress<T> {
    SegmentProgress {
        status: SegmentStatus::Pending,
        translated: None,
        fallback: false,
        ..segment
    }
}

/// What is left of a checkpoint under the given settings.
pub open spec fn reconciled<T>(
    c: CheckpointView<T>,
    fingerprint: CheckpointFingerprint,
) -> CheckpointView<T> {
    if asr_changed(c.fingerprint@, fingerprint@) {
        CheckpointView { fingerprint, segments: Seq::empty(), ..c }
    } else if translation_changed(c.fingerprint@, fingerprint@) {
        CheckpointView {
            fingerprint,
            segments: c.segments.map_values(|s: SegmentProgress<T>| untranslated(s)),
            ..c
        }
    } else {
        c
    }
}

/// The checkpoint that a task begins with: the one that was loaded, less what
/// is void under the current settings, or a new one.
pub open spec fn initial_checkpoint<T>(
    loaded: Option<Checkpoint<T>>,
    task_id: String,
    video_path: String,
    fingerprint: CheckpointFingerprint,
) -> CheckpointView<T> {
    match loaded {
        Some(c) => reconciled(c@, fingerprint),
        None => CheckpointView { task_id, video_path, fingerprint, segments: Seq::empty() },
    }
}

/// Whether the checkpoint that was loaded changes under the current settings.
pub open spec fn checkpoint_changes<T>(
    loaded: Option<Checkpoint<T>>,
    fingerprint: FingerprintView,
) -> bool {
    match loaded {
        Some(c) => asr_changed(c.fingerprint@, fingerprint) || translation_changed(
            c.fingerprint@,
            fingerprint,
        ),
        None => false,
    }
}

/// Whether two fingerprints agree on what the recognised sentences depend on.
fn same_asr(a: &CheckpointFingerprint, b: &CheckpointFingerprint) -> (r: bool)
    ensures
        r == !asr_changed(a@, b@),
{
    text_eq(a.source_language.as_str(), b.source_language.as_str()) && text_eq(
        a.asr_model.as_str(),
        b.asr_model.as_str(),
    )
}

/// Whether two fingerprints agree on what the translations depend on.
fn same_translation(a: &CheckpointFingerprint, b: &CheckpointFingerprint) -> (r: bool)
    ensures
        r == !translation_changed(a@, b@),
{
    text_eq(a.target_lang.as_str(), b.target_lang.as_str()) && text_eq(
        a.translate_provider.as_str(),
        b.translate_provider.as_str(),
    ) && text_eq(a.translate_model.as_str(), b.translate_model.as_str())
}

/// Drops from a checkpoint what is void under the given settings, and tells
/// whether anything was.
pub fn reconcile<T: Copy>(c: &mut Checkpoint<T>, fingerprint: CheckpointFingerprint) -> (r: bool)
    ensures
        final(c)@ == reconciled(old(c)@, fingerprint),
        r == (asr_changed(old(c).fingerprint@, fingerprint@) || translation_changed(
            old(c).fingerprint@,
            fingerprint@,
        )),
        r <==> old(c).fingerprint.source_language@ != fingerprint.source_language@ || old(
            c,
        ).fingerprint.asr_model@ != fingerprint.asr_model@ || old(c).fingerprint.target_lang@
            != fingerprint.target_lang@ || old(c).fingerprint.translate_provider@
            != fingerprint.translate_provider@ || old(c).fingerprint.translate_model@
            != fingerprint.translate_model@,
        !r ==> final(c)@ == old(c)@,
{
    if !same_asr(&c.fingerprint, &fingerprint) {
        c.fingerprint = fingerprint;
        c.segments = Vec::new();
        true
    } else if !same_translation(&c.fingerprint, &fingerprint) {
        let ghost before = c.segments@;
        c.fingerprint = fingerprint;
        let mut fresh: Vec<SegmentProgress<T>> = Vec::new();
        let mut i: usize = 0;
        while i < c.segments.len()
            invariant
                i <= c.segments.len(),
                c.segments@ == before,
                fresh.len() == i,
                forall|j: int| 0 <= j < i ==> (#[trigger] fresh[j]) == untranslated(before[j]),
            decreases c.segments.len() - i,
        {
            let s = &c.segments[i];
            fresh.push(
                SegmentProgress {
                    segment_id: s.segment_id,
                    start_time: s.start_time,
                    end_time: s.end_time,
                    status: SegmentStatus::Pending,
                    source: clone_opt_text(&s.source),
                    translated: None,
                    fallback: false,
                },
            );
            i += 1;
        }
        c.segments = fresh;
        proof {
            assert(c.segments@ =~= before.map_values(|s: SegmentProgress<T>| untranslated(s)));
        }
        true
    } else {
        false
    }
}

/// The last ten of the texts, latest first.
pub fn context(previous: &Vec<String>) -> (r: Vec<String>)
    ensures
        r@ == context_of(previous@),
{
    let n: usize = if previous.len() < 10 {
        previous.len()
    } else {
        10
    };
    let mut out: Vec<String> = Vec::new();
    let mut i: usize = 0;
    while i < n
        invariant
            i <= n <= previous.len(),
            n <= 10,
            out.len() == i,
            forall|j: int| 0 <= j < i ==> (#[trigger] out[j]) == previous[previous.len() - 1 - j],
        decreases n - i,
    {
        out.push(previous[previous.len() - 1 - i].clone());
        i += 1;
    }
    out
}

proof fn lemma_first_open(results: Seq<Option<String>>)
    ensures
        0 <= first_open(results) <= results.len(),
        first_open(results) < results.len() ==> results[first_open(results)] is None,
        forall|i: int| 0 <= i < first_open(results) ==> (#[trigger] results[i]) is Some,
    decreases results.len(),
{
    if results.len() > 0 && results[0] is Some {
        let rest = results.drop_first();
        lemma_first_open(rest);
        assert forall|i: int| 0 <= i < first_open(results) implies (
        #[trigger] results[i]) is Some by {
            if i > 0 {
                assert(rest[i - 1] == results[i]);
            }
        }
    }
}

proof fn lemma_first_open_is(results: Seq<Option<String>>, k: int)
    requires
        0 <= k <= results.len(),
        k < results.len() ==> results[k] is None,
        forall|i: int| 0 <= i < k ==> (#[trigger] results[i]) is Some,
    ensures
        first_open(results) == k,
{
    lemma_first_open(results);
    let f = first_open(results);
    if f < k {
        assert(results[f] is Some);
    } else if k < f {
        assert(results[k] is Some);
    }
}

proof fn lemma_done_count(results: Seq<Option<String>>)
    ensures
        done_count(results) <= results.len(),
    decreases results.len(),
{
    if results.len() > 0 {
        lemma_done_count(results.drop_last());
    }
}

proof fn lemma_done_count_update(results: Seq<Option<String>>, k: int, s: String)
    requires
        0 <= k < results.len(),
        results[k] is None,
    ensures
        done_count(results.update(k, Some(s))) == done_count(results) + 1,
    decreases results.len(),
{
    let after = results.update(k, Some(s));
    if k == results.len() - 1 {
        assert(after.drop_last() =~= results.drop_last());
    } else {
        lemma_done_count_update(results.drop_last(), k, s);
        assert(after.drop_last() =~= results.drop_last().update(k, Some(s)));
    }
}

proof fn lemma_done_count_none(n: nat)
    ensures
        done_count(Seq::new(n, |i: int| None)) == 0,
    decreases n,
{
    let s = Seq::new(n, |i: int| None::<String>);
    if n > 0 {
        lemma_done_count_none((n - 1) as nat);
        assert(s.drop_last() =~= Seq::new((n - 1) as nat, |i: int| None::<String>));
    }
}

impl<S: Copy> View for FilePipeline<S> {
    type V = PipelineView<S>;

    closed spec fn view(&self) -> PipelineView<S> {
        PipelineView {
            state: self.state@,
            phase: self.phase,
            progress: self.progress,
            entries: self.entries@,
            config: self.config,
            source_language: self.source_language,
            checkpoint: match self.checkpoint {
                Some(c) => Some(c@),
                None => None,
            },
            stage: self.stage,
            sentences: self.sentences@,
            results: self.results@,
            previous: self.previous@,
        }
    }
}

impl<S: Copy> FilePipeline<S> {
    /// While sentences are translated, the pipeline knows which is next, and
    /// its checkpoint says of each sentence what the run knows of it.
    pub closed spec fn wf(self) -> bool {
        self.stage == Stage::Translating ==> {
            &&& self.sentences@.len() == self.results@.len()
            &&& self.next == first_open(self.results@)
            &&& self.next < self.results@.len()
            &&& self.done == done_count(self.results@)
            &&& self.checkpoint is Some ==> mirrors(
                self.checkpoint->0.segments@,
                self.sentences@,
                self.results@,
            )
        }
    }

    /// A pipeline for one video.
    pub fn new(config: AppConfig, source_language: String) -> (r: Self)
        ensures
            r.wf(),
            r@ == (PipelineView::<S> {
                state: StateView::Idle,
                phase: Phase::Extracting,
                progress: (Fraction { numer: 0, denom: 1 }),
                entries: Seq::empty(),
                config,
                source_language,
                checkpoint: None,
                stage: Stage::Rest,
                sentences: Seq::empty(),
                results: Seq::empty(),
                previous: Seq::empty(),
            }),
    {
        FilePipeline {
            state: PipelineState::Idle,
            phase: Phase::Extracting,
            progress: Fraction { numer: 0, denom: 1 },
            entries: Vec::new(),
            config,
            source_language,
            checkpoint: None,
            stage: Stage::Rest,
            sentences: Vec::new(),
            results: Vec::new(),
            previous: Vec::new(),
            done: 0,
            next: 0,
        }
    }

    /// Gives the pipeline its checkpoint: the one that was loaded, less what
    /// is void under the current settings, or a new one. Tells whether the
    /// log has to be written anew.
    pub fn init_checkpoint_in(
        &mut self,
        loaded: Option<Checkpoint<TimePoint<S>>>,
        task_id: String,
        video_path: String,
        fingerprint: CheckpointFingerprint,
    ) -> (r: bool)
        requires
            old(self).wf(),
            old(self)@.stage == Stage::Rest,
        ensures
            final(self).wf(),
            final(self)@ == (PipelineView {
                checkpoint: Some(initial_checkpoint(loaded, task_id, video_path, fingerprint)),
                ..old(self)@
            }),
            r == checkpoint_changes(loaded, fingerprint@),
            loaded is None ==> !r && {
                let c = final(self)@.checkpoint->0;
                &&& c.task_id == task_id && c.video_path == video_path
                &&& c.fingerprint == fingerprint && c.segments.len() == 0
            },
            loaded matches Some(c) ==> {
                let after = final(self)@.checkpoint->0;
                &&& after.task_id == c.task_id && after.video_path == c.video_path
                &&& r <==> c.fingerprint.source_language@ != fingerprint.source_language@
                    || c.fingerprint.asr_model@ != fingerprint.asr_model@
                    || c.fingerprint.target_lang@ != fingerprint.target_lang@
                    || c.fingerprint.translate_provider@ != fingerprint.translate_provider@
                    || c.fingerprint.translate_model@ != fingerprint.translate_model@
                &&& !r ==> after == c@
                &&& r ==> after.fingerprint == fingerprint
            },
    {
        match loaded {
            Some(c) => {
                let mut c = c;
                let changed = reconcile(&mut c, fingerprint);
                self.checkpoint = Some(c);
                changed
            },
            None => {
                let c = Checkpoint::new(task_id, video_path, fingerprint);
                proof {
                    assert(c@.segments =~= Seq::empty());
                }
                self.checkpoint = Some(c);
                false
            },
        }
    }

    /// Gives the pipeline its checkpoint, for a task whose settings are not
    /// known.
    pub fn init_checkpoint(
        &mut self,
        loaded: Option<Checkpoint<TimePoint<S>>>,
        task_id: String,
        video_path: String,
    ) -> (r: bool)
        requires
            old(self).wf(),
            old(self)@.stage == Stage::Rest,
        ensures
            final(self).wf(),
            exists|fingerprint: CheckpointFingerprint|
                #![trigger fingerprint@]
                fingerprint@ == unknown_settings() && final(self)@ == (PipelineView {
                    checkpoint: Some(
                        initial_checkpoint(loaded, task_id, video_path, fingerprint),
                    ),
                    ..old(self)@
                }) && r == checkpoint_changes(loaded, fingerprint@),
    {
        let fingerprint = CheckpointFingerprint::default();
        let ghost kept = fingerprint;
        let r = self.init_checkpoint_in(loaded, task_id, video_path, fingerprint);
        proof {
            assert(kept@ == unknown_settings());
        }
        r
    }

    /// Where the pipeline stands.
    pub fn get_state(&self) -> (r: PipelineState)
        ensures
            r@ == self@.state,
    {
        self.state.clone()
    }

    /// The phase of the run.
    pub fn get_phase(&self) -> (r: Phase)
        ensures
            r == self@.phase,
    {
        self.phase
    }

    /// The share of the sentences that have a translation.
    pub fn get_progress(&self) -> (r: Fraction)
        ensures
            r == self@.progress,
    {
        self.progress
    }

    /// The subtitles of the last run that was completed.
    pub fn get_entries(&self) -> (r: Vec<SubtitleEntry<S>>)
        ensures
            r@ == self@.entries,
    {
        let mut out: Vec<SubtitleEntry<S>> = Vec::new();
        let mut i: usize = 0;
        while i < self.entries.len()
            invariant
                i <= self.entries.len(),
                out@ == self.entries@.take(i as int),
            decreases self.entries.len() - i,
        {
            out.push(self.entries[i].clone());
            i += 1;
        }
        out
    }

    /// The checkpoint of the pipeline.
    pub fn checkpoint(&self) -> (r: &Option<Checkpoint<TimePoint<S>>>)
        ensures
            match *r {
                Some(c) => self@.checkpoint == Some(c@),
                None => self@.checkpoint is None,
            },
    {
        &self.checkpoint
    }

    /// Ends the run with an error.
    fn fail(&mut self, message: String, remove_audio: bool, error: Error) -> (r: PipelineStep<S>)
        ensures
            final(self).wf(),
            final(self)@ == failed(old(self)@, message@),
            r.remove_audio == remove_audio,
            r.append is None,
            !r.save,
            r.action == PipelineAction::Fail(error),
    {
        self.state = PipelineState::Failed(message);
        self.stage = Stage::Rest;
        PipelineStep {
            remove_audio,
            append: None,
            save: false,
            action: PipelineAction::Fail(error),
        }
    }

    /// The subtitles of the sentences, once all have a translation.
    fn build_entries(&self) -> (r: Vec<SubtitleEntry<S>>)
        requires
            self.sentences@.len() == self.results@.len(),
            forall|i: int| 0 <= i < self.results@.len() ==> (#[trigger] self.results@[i]) is Some,
        ensures
            r@ == entries_of(self.sentences@, self.results@),
    {
        let mut out: Vec<SubtitleEntry<S>> = Vec::new();
        let mut i: usize = 0;
        while i < self.sentences.len()
            invariant
                i <= self.sentences.len(),
                self.sentences@.len() == self.results@.len(),
                forall|j: int|
                    0 <= j < self.results@.len() ==> (#[trigger] self.results@[j]) is Some,
                out.len() == i,
                forall|j: int|
                    0 <= j < i ==> (#[trigger] out[j]) == entry_of(
                        self.sentences@[j],
                        self.results@[j]->0,
                    ),
            decreases self.sentences.len() - i,
        {
            let s = &self.sentences[i];
            match &self.results[i] {
                Some(t) => out.push(
                    SubtitleEntry {
                        content_start: s.begin_time.seconds,
                        content_end: s.end_time.seconds,
                        wall_start: s.begin_time.wall_ms,
                        wall_end: s.end_time.wall_ms,
                        source: s.text.clone(),
                        translated: t.clone(),
                        status: SubtitleStatus::Final,
                    },
                ),
                None => {},
            }
            i += 1;
        }
        proof {
            assert(out@ =~= entries_of(self.sentences@, self.results@));
        }
        out
    }

    /// Looks for the next sentence without a translation, from `from` on, and
    /// goes on with it or completes the run.
    fn settle(&mut self, from: usize, append: Option<SegmentProgress<TimePoint<S>>>) -> (r:
        PipelineStep<S>)
        requires
            old(self).sentences@.len() == old(self).results@.len(),
            from <= old(self).results@.len(),
            forall|i: int| 0 <= i < from ==> (#[trigger] old(self).results@[i]) is Some,
            old(self).done == done_count(old(self).results@),
            old(self).checkpoint is Some ==> mirrors(
                old(self).checkpoint->0.segments@,
                old(self).sentences@,
                old(self).results@,
            ),
        ensures
            final(self).wf(),
            final(self)@ == settled(old(self)@),
            settled_step(final(self)@, r),
            r.append == append,
            !r.remove_audio,
            r.action is Finish ==> {
                &&& final(self)@.state == StateView::Completed
                &&& final(self)@.entries.len() == final(self)@.sentences.len()
                &&& forall|i: int|
                    0 <= i < final(self)@.entries.len() ==> {
                        let e = #[trigger] final(self)@.entries[i];
                        let s = final(self)@.sentences[i];
                        &&& e.content_start == s.begin_time.seconds
                        &&& e.content_end == s.end_time.seconds
                        &&& e.wall_start == s.begin_time.wall_ms
                        &&& e.wall_end == s.end_time.wall_ms
                        &&& e.source == s.text
                        &&& Some(e.translated) == final(self)@.results[i]
                        &&& e.status == SubtitleStatus::Final
                    }
            },
            r.action matches PipelineAction::Translate(q) ==> {
                let known = final(self)@.previous;
                &&& q.text == final(self)@.sentences[first_open(final(self)@.results)].text
                &&& q.source_lang@ == "auto"@
                &&& q.target_lang == final(self)@.config.translate.target_lang
                &&& q.glossary is None
                &&& q.context@.len() == (if known.len() < 10 {
                    known.len()
                } else {
                    10
                })
                &&& forall|i: int|
                    0 <= i < q.context@.len() ==> #[trigger] q.context@[i] == known[known.len() - 1
                        - i]
            },
    {
        let mut k: usize = from;
        while k < self.results.len() && self.results[k].is_some()
            invariant
                k <= self.results@.len(),
                forall|i: int| 0 <= i < k ==> (#[trigger] self.results@[i]) is Some,
            decreases self.results.len() - k,
        {
            k += 1;
        }
        proof {
            lemma_first_open_is(self.results@, k as int);
        }
        if k < self.results.len() {
            self.next = k;
            self.stage = Stage::Translating;
            let request = TranslateRequest {
                text: self.sentences[k].text.clone(),
                source_lang: "auto".to_owned(),
                target_lang: self.config.translate.target_lang.clone(),
                context: context(&self.previous),
                glossary: None,
            };
            PipelineStep {
                remove_audio: false,
                append,
                save: false,
                action: PipelineAction::Translate(request),
            }
        } else {
            self.entries = self.build_entries();
            self.state = PipelineState::Completed;
            self.phase = Phase::Done;
            self.stage = Stage::Rest;
            PipelineStep {
                remove_audio: false,
                append,
                save: self.checkpoint.is_some(),
                action: PipelineAction::Finish,
            }
        }
    }

    /// Takes the sentences and translations from the checkpoint.
    fn restore(&mut self)
        requires
            can_resume(old(self)@),
        ensures
            final(self)@ == resumed(old(self)@),
            final(self).done == done_count(final(self).results@),
            final(self).sentences@.len() == final(self).results@.len(),
            final(self).checkpoint is Some,
            mirrors(
                final(self).checkpoint->0.segments@,
                final(self).sentences@,
                final(self).results@,
            ),
    {
        let mut sentences: Vec<TranscriptionSentence<TimePoint<S>>> = Vec::new();
        let mut results: Vec<Option<String>> = Vec::new();
        let mut previous: Vec<String> = Vec::new();
        let mut done: usize = 0;
        let ghost segs = self.checkpoint->0.segments@;
        let ghost all_s = sentences_of(segs);
        let ghost all_r = results_of(segs);
        match &self.checkpoint {
            Some(c) => {
                let mut i: usize = 0;
                proof {
                    assert(all_r.take(0) =~= Seq::empty());
                }
                while i < c.segments.len()
                    invariant
                        i <= c.segments.len(),
                        c.segments@ == segs,
                        usable(segs),
                        all_s == sentences_of(segs),
                        all_r == results_of(segs),
                        sentences@ == all_s.take(i as int),
                        results@ == all_r.take(i as int),
                        previous@ == done_texts(all_s, all_r.take(i as int)),
                        done <= i,
                        done == done_count(all_r.take(i as int)),
                    decreases c.segments.len() - i,
                {
                    let seg = &c.segments[i];
                    proof {
                        assert(segs[i as int].source is Some);
                        assert(all_r.take(i + 1).drop_last() =~= all_r.take(i as int));
                        assert(all_r.take(i + 1) =~= all_r.take(i as int).push(all_r[i as int]));
                        assert(all_s.take(i + 1) =~= all_s.take(i as int).push(all_s[i as int]));
                    }
                    let result: Option<String> = if seg.status == SegmentStatus::Completed {
                        clone_opt_text(&seg.translated)
                    } else {
                        None
                    };
                    match (&seg.source, seg.start_time, seg.end_time) {
                        (Some(text), Some(begin), Some(end)) => {
                            if result.is_some() {
                                previous.push(text.clone());
                                done += 1;
                            }
                            sentences.push(
                                TranscriptionSentence {
                                    text: text.clone(),
                                    begin_time: begin,
                                    end_time: end,
                                },
                            );
                            results.push(result);
                        },
                        _ => {},
                    }
                    i += 1;
                }
                proof {
                    assert(all_r.take(all_r.len() as int) =~= all_r);
                    assert(all_s.take(all_s.len() as int) =~= all_s);
                }
            },
            None => {},
        }
        let total: usize = results.len();
        self.state = PipelineState::Processing;
        self.phase = Phase::Translating;
        self.sentences = sentences;
        self.results = results;
        self.previous = previous;
        self.progress = Fraction { numer: done, denom: total };
        self.done = done;
    }

    /// Whether the checkpoint lets a run go on.
    fn is_resumable(&self) -> (r: bool)
        ensures
            r == can_resume(self@),
    {
        match &self.checkpoint {
            Some(c) => {
                if c.segments.len() == 0 {
                    return false;
                }
                let mut i: usize = 0;
                while i < c.segments.len()
                    invariant
                        i <= c.segments.len(),
                        self.checkpoint == Some(*c),
                        forall|j: int|
                            0 <= j < i ==> (#[trigger] c.segments@[j]).source is Some
                                && c.segments@[j].start_time is Some
                                && c.segments@[j].end_time is Some,
                    decreases c.segments.len() - i,
                {
                    let seg = &c.segments[i];
                    if seg.source.is_none() || seg.start_time.is_none() || seg.end_time.is_none() {
                        proof {
                            assert(!usable(c.segments@)) by {
                                assert(c.segments@[i as int] == *seg);
                            }
                        }
                        return false;
                    }
                    i += 1;
                }
                true
            },
            None => false,
        }
    }

    /// Begins a run, given the length of the video where it is known, and that
    /// length in hours as text. A video of more than three hours is refused;
    /// a run whose checkpoint holds the sentences goes on with them.
    pub fn process(&mut self, length: Option<VideoLength>, hours: &str) -> (r: PipelineStep<S>)
        requires
            old(self).wf(),
            old(self)@.stage == Stage::Rest,
        ensures
            final(self).wf(),
            if too_long(length) {
                &&& final(self)@ == failed(begun(old(self)@), too_long_text(hours@))
                &&& r.action matches PipelineAction::Fail(Error::AudioSource(m)) && m@
                    == too_long_text(hours@)
                &&& r.append is None && !r.save && !r.remove_audio
            } else {
                &&& final(self)@ == started(old(self)@)
                &&& r.append is None && !r.remove_audio
                &&& if can_resume(old(self)@) {
                    settled_step(final(self)@, r)
                } else {
                    r.action is Extract && !r.save
                }
            },
            r.action is Finish ==> {
                &&& final(self)@.state == StateView::Completed
                &&& final(self)@.entries.len() == final(self)@.sentences.len()
                &&& forall|i: int|
                    0 <= i < final(self)@.entries.len() ==> {
                        let e = #[trigger] final(self)@.entries[i];
                        let s = final(self)@.sentences[i];
                        &&& e.content_start == s.begin_time.seconds
                        &&& e.content_end == s.end_time.seconds
                        &&& e.wall_start == s.begin_time.wall_ms
                        &&& e.wall_end == s.end_time.wall_ms
                        &&& e.source == s.text
                        &&& Some(e.translated) == final(self)@.results[i]
                        &&& e.status == SubtitleStatus::Final
                    }
            },
            r.action matches PipelineAction::Translate(q) ==> {
                let known = final(self)@.previous;
                &&& q.text == final(self)@.sentences[first_open(final(self)@.results)].text
                &&& q.source_lang@ == "auto"@
                &&& q.target_lang == final(self)@.config.translate.target_lang
                &&& q.glossary is None
                &&& q.context@.len() == (if known.len() < 10 {
                    known.len()
                } else {
                    10
                })
                &&& forall|i: int|
                    0 <= i < q.context@.len() ==> #[trigger] q.context@[i] == known[known.len() - 1
                        - i]
            },
            r.action is Fail <==> length is Some && (length->0.secs > 3 * 60 * 60 || (length->0.secs
                == 3 * 60 * 60 && length->0.nanos > 0)),
            r.action matches PipelineAction::Fail(e) ==> e is AudioSource && e->AudioSource_0@
                == "视频时长 "@ + hours@ + " 小时超过限制（最长 3 小时），请先裁剪后再处理"@,
    {
        let long: bool = match length {
            Some(l) => l.secs > 10800 || (l.secs == 10800 && l.nanos > 0),
            None => false,
        };
        if long {
            self.state = PipelineState::Processing;
            self.phase = Phase::Extracting;
            let text = cat3(
                "视频时长 ",
                hours,
                " 小时超过限制（最长 3 小时），请先裁剪后再处理",
            );
            return self.fail(text.clone(), false, Error::AudioSource(text));
        }
        if self.is_resumable() {
            self.restore();
            return self.settle(0, None);
        }
        self.state = PipelineState::Processing;
        self.phase = Phase::Extracting;
        self.stage = Stage::Extracting;
        PipelineStep {
            remove_audio: false,
            append: None,
            save: false,
            action: PipelineAction::Extract,
        }
    }

    /// The audio was extracted to a file of the given size; `gigabytes` is
    /// that size as text.
    pub fn extracted(&mut self, size: u64, gigabytes: &str) -> (r: PipelineStep<S>)
        requires
            old(self).wf(),
            old(self)@.stage == Stage::Extracting,
        ensures
            final(self).wf(),
            r.append is None && !r.save,
            if size > MAX_AUDIO_BYTES {
                &&& final(self)@ == failed(old(self)@, too_large_text(gigabytes@))
                &&& r.action matches PipelineAction::Fail(Error::AudioSource(m)) && m@
                    == too_large_text(gigabytes@)
                &&& r.remove_audio
            } else {
                &&& final(self)@ == (PipelineView {
                    phase: Phase::Transcribing,
                    stage: Stage::Transcribing,
                    ..old(self)@
                })
                &&& r.action matches PipelineAction::Transcribe(c) && is_file_asr_config(
                    c,
                    old(self)@.config,
                    old(self)@.source_language,
                )
                &&& !r.remove_audio
            },
            r.action is Fail <==> size > 5 * 1024 * 1024 * 1024,
            r.action matches PipelineAction::Fail(e) ==> e is AudioSource && e->AudioSource_0@
                == "提取的音频文件大小 "@ + gigabytes@ + "GB 超过限制（最大 5GB）"@,
            r.action matches PipelineAction::Transcribe(c) ==> {
                &&& c.provider == old(self)@.config.asr.provider
                &&& c.model == old(self)@.config.asr.file_model
                &&& c.api_key == old(self)@.config.asr.api_key
                &&& c.workspace_id == old(self)@.config.asr.workspace_id
                &&& c.language == old(self)@.source_language
                &&& !c.diarization
            },
    {
        if size > MAX_AUDIO_BYTES {
            let text = cat3("提取的音频文件大小 ", gigabytes, "GB 超过限制（最大 5GB）");
            return self.fail(text.clone(), true, Error::AudioSource(text));
        }
        self.phase = Phase::Transcribing;
        self.stage = Stage::Transcribing;
        let asr_config = AsrConfig {
            provider: self.config.asr.provider.clone(),
            model: self.config.asr.file_model.clone(),
            api_key: self.config.asr.api_key.clone(),
            language: self.source_language.clone(),
            workspace_id: clone_opt_text(&self.config.asr.workspace_id),
            diarization: false,
        };
        PipelineStep {
            remove_audio: false,
            append: None,
            save: false,
            action: PipelineAction::Transcribe(asr_config),
        }
    }

    /// The work that the pipeline waits for has failed. The audio file is
    /// removed where there is one.
    pub fn work_failed(&mut self, error: Error) -> (r: PipelineStep<S>)
        requires
            old(self).wf(),
            old(self)@.stage != Stage::Rest,
        ensures
            final(self).wf(),
            final(self)@ == failed(old(self)@, error_text(error)),
            r.append is None && !r.save,
            r.remove_audio == (old(self)@.stage == Stage::Transcribing),
            r.action == PipelineAction::Fail(error),
    {
        let remove: bool = self.stage == Stage::Transcribing;
        let text = error.message();
        self.fail(text, remove, error)
    }

    /// The audio was transcribed. Without any sentence the run fails;
    /// otherwise all sentences are recorded as pending, and the first is
    /// translated.
    pub fn transcribed(&mut self, result: FileTranscriptionResult<TimePoint<S>>) -> (r:
        PipelineStep<S>)
        requires
            old(self).wf(),
            old(self)@.stage == Stage::Transcribing,
        ensures
            final(self).wf(),
            r.append is None,
            r.remove_audio,
            if result.sentences@.len() == 0 {
                &&& final(self)@ == failed(old(self)@, "ASR error: "@ + no_speech_text())
                &&& r.action matches PipelineAction::Fail(Error::Asr(m)) && m@ == no_speech_text()
                &&& !r.save
            } else {
                &&& final(self)@ == settled(with_sentences(old(self)@, result.sentences@))
                &&& final(self)@.stage == Stage::Translating
                &&& r.save == (old(self)@.checkpoint is Some)
                &&& r.action matches PipelineAction::Translate(q) && asks_for(
                    q,
                    result.sentences@[0].text,
                    "auto"@,
                    old(self)@.config.translate.target_lang,
                    Seq::empty(),
                )
            },
            r.action matches PipelineAction::Fail(e) ==> e is Asr && e->Asr_0@
                == "未识别到语音，请检查音频内容或源语言设置"@,
            result.sentences@.len() > 0 ==> {
                &&& final(self)@.sentences == result.sentences@
                &&& final(self)@.results.len() == result.sentences@.len()
                &&& forall|i: int|
                    0 <= i < result.sentences@.len() ==> (
                    #[trigger] final(self)@.results[i]) is None
                &&& r.action matches PipelineAction::Translate(q) && {
                    &&& q.text == result.sentences@[0].text
                    &&& q.source_lang@ == "auto"@
                    &&& q.target_lang == old(self)@.config.translate.target_lang
                    &&& q.glossary is None
                    &&& q.context@.len() == 0
                }
                &&& final(self)@.checkpoint is Some <==> old(self)@.checkpoint is Some
                &&& final(self)@.checkpoint matches Some(c) ==> {
                    &&& c.task_id == old(self)@.checkpoint->0.task_id
                    &&& c.video_path == old(self)@.checkpoint->0.video_path
                    &&& c.fingerprint == old(self)@.checkpoint->0.fingerprint
                    &&& c.segments.len() == result.sentences@.len()
                    &&& forall|i: int|
                        0 <= i < c.segments.len() ==> {
                            let seg = #[trigger] c.segments[i];
                            let s = result.sentences@[i];
                            &&& seg.segment_id == i
                            &&& seg.start_time == Some(s.begin_time)
                            &&& seg.end_time == Some(s.end_time)
                            &&& seg.source == Some(s.text)
                            &&& seg.status == SegmentStatus::Pending
                            &&& seg.translated is None && !seg.fallback
                        }
                }
            },
    {
        if result.sentences.len() == 0 {
            let error = Error::Asr("未识别到语音，请检查音频内容或源语言设置".to_owned());
            let text = error.message();
            return self.fail(text, true, error);
        }
        let ghost all = result.sentences@;
        let mut results: Vec<Option<String>> = Vec::new();
        let mut segments: Vec<SegmentProgress<TimePoint<S>>> = Vec::new();
        let mut i: usize = 0;
        while i < result.sentences.len()
            invariant
                i <= result.sentences.len(),
                result.sentences@ == all,
                results.len() == i,
                forall|j: int| 0 <= j < i ==> (#[trigger] results[j]) is None,
                segments.len() == i,
                forall|j: int|
                    0 <= j < i ==> (#[trigger] segments[j]) == fresh_segment(j, all[j]),
            decreases result.sentences.len() - i,
        {
            let s = &result.sentences[i];
            results.push(None);
            segments.push(
                SegmentProgress {
                    segment_id: i,
                    start_time: Some(s.begin_time),
                    end_time: Some(s.end_time),
                    status: SegmentStatus::Pending,
                    source: Some(s.text.clone()),
                    translated: None,
                    fallback: false,
                },
            );
            i += 1;
        }
        proof {
            assert(segments@ =~= fresh_segments(all));
            assert(results@ =~= Seq::new(all.len(), |i: int| None));
            lemma_done_count_none(all.len());
            lemma_first_open_is(results@, 0);
        }
        self.phase = Phase::Translating;
        self.sentences = result.sentences;
        self.results = results;
        self.previous = Vec::new();
        self.done = 0;
        let saved: bool = match self.checkpoint.take() {
            Some(c) => {
                let mut c = c;
                c.segments = segments;
                self.checkpoint = Some(c);
                true
            },
            None => false,
        };
        proof {
            assert(self@ =~= with_sentences(old(self)@, all));
        }
        let step = self.settle(0, None);
        PipelineStep { remove_audio: true, append: None, save: saved, action: step.action }
    }

    /// The current sentence was translated.
    pub fn translated(&mut self, response: TranslateResponse) -> (r: PipelineStep<S>)
        requires
            old(self).wf(),
            old(self)@.stage == Stage::Translating,
        ensures
            final(self).wf(),
            final(self)@ == settled(with_result(old(self)@, response.translated_text)),
            settled_step(final(self)@, r),
            !r.remove_audio,
            r.append == (match old(self)@.checkpoint {
                Some(c) => Some(
                    completed_segment(
                        c.segments[first_open(old(self)@.results)],
                        response.translated_text,
                    ),
                ),
                None => None,
            }),
            r.action is Finish ==> {
                &&& final(self)@.state == StateView::Completed
                &&& final(self)@.entries.len() == final(self)@.sentences.len()
                &&& forall|i: int|
                    0 <= i < final(self)@.entries.len() ==> {
                        let e = #[trigger] final(self)@.entries[i];
                        let s = final(self)@.sentences[i];
                        &&& e.content_start == s.begin_time.seconds
                        &&& e.content_end == s.end_time.seconds
                        &&& e.wall_start == s.begin_time.wall_ms
                        &&& e.wall_end == s.end_time.wall_ms
                        &&& e.source == s.text
                        &&& Some(e.translated) == final(self)@.results[i]
                        &&& e.status == SubtitleStatus::Final
                    }
            },
            r.action matches PipelineAction::Translate(q) ==> {
                let known = final(self)@.previous;
                &&& q.text == final(self)@.sentences[first_open(final(self)@.results)].text
                &&& q.source_lang@ == "auto"@
                &&& q.target_lang == final(self)@.config.translate.target_lang
                &&& q.glossary is None
                &&& q.context@.len() == (if known.len() < 10 {
                    known.len()
                } else {
                    10
                })
                &&& forall|i: int|
                    0 <= i < q.context@.len() ==> #[trigger] q.context@[i] == known[known.len() - 1
                        - i]
            },
            final(self)@.sentences == old(self)@.sentences,
            final(self)@.results == old(self)@.results.update(
                first_open(old(self)@.results),
                Some(response.translated_text),
            ),
            final(self)@.previous == old(self)@.previous.push(
                old(self)@.sentences[first_open(old(self)@.results)].text,
            ),
            final(self)@.progress.numer == done_count(final(self)@.results),
            final(self)@.progress.denom == final(self)@.results.len(),
            r.append matches Some(line) ==> {
                let s = old(self)@.sentences[first_open(old(self)@.results)];
                &&& line.source == Some(s.text)
                &&& line.start_time == Some(s.begin_time) && line.end_time == Some(s.end_time)
                &&& line.status == SegmentStatus::Completed
                &&& line.translated == Some(response.translated_text)
            },
    {
        let k: usize = self.next;
        let total: usize = self.results.len();
        let text = response.translated_text;
        proof {
            lemma_first_open(self.results@);
            lemma_done_count(self.results@);
            lemma_done_count_update(self.results@, k as int, text);
            lemma_done_count(self.results@.update(k as int, Some(text)));
        }
        let append: Option<SegmentProgress<TimePoint<S>>> = match self.checkpoint.take() {
            Some(c) => {
                let mut c = c;
                let mut seg = c.segments[k].clone();
                seg.status = SegmentStatus::Completed;
                seg.translated = Some(text.clone());
                c.segments[k] = seg.clone();
                self.checkpoint = Some(c);
                Some(seg)
            },
            None => None,
        };
        self.previous.push(self.sentences[k].text.clone());
        self.results[k] = Some(text);
        self.done = self.done + 1;
        self.progress = Fraction { numer: self.done, denom: total };
        proof {
            assert(self@ =~= with_result(old(self)@, text));
        }
        self.settle(k + 1, append)
    }

    /// The run was cancelled: it is paused, and the phase stays as it is. What
    /// was under way is lost, and everything before it is kept.
    pub fn cancelled(&mut self) -> (r: PipelineStep<S>)
        requires
            old(self).wf(),
            old(self)@.stage != Stage::Rest,
        ensures
            final(self).wf(),
            final(self)@ == (PipelineView {
                state: StateView::Paused,
                stage: Stage::Rest,
                ..old(self)@
            }),
            r.append is None && !r.save,
            r.remove_audio == (old(self)@.stage == Stage::Transcribing),
            r.action is Finish,
    {
        let remove: bool = self.stage == Stage::Transcribing;
        self.state = PipelineState::Paused;
        self.stage = Stage::Rest;
        PipelineStep {
            remove_audio: remove,
            append: None,
            save: false,
            action: PipelineAction::Finish,
        }
    }
}

/// What is said of a recording in which nothing was recognised.
pub open spec fn no_speech_text() -> Seq<char> {
    "未识别到语音，请检查音频内容或源语言设置"@
}

impl<S: Copy> FilePipeline<S> {
    /// While sentences are translated, the checkpoint says of each sentence
    /// what the run knows of it.
    pub proof fn checkpoint_mirrors_run(self)
        requires
            self.wf(),
            self@.stage == Stage::Translating,
            self@.checkpoint is Some,
        ensures
            mirrors(self@.checkpoint->0.segments, self@.sentences, self@.results),
            0 <= first_open(self@.results) < self@.results.len(),
    {
        lemma_first_open(self@.results);
    }
}

/// The log keeps up with the run: where the log folds to the checkpoint before
/// a sentence is translated, the log with the line that is then appended folds
/// to the checkpoint after it.
pub proof fn appended_line_keeps_log_in_step<S>(
    m: PipelineView<S>,
    translated: String,
    records: Seq<Option<SegmentProgress<TimePoint<S>>>>,
)
    requires
        m.checkpoint is Some,
        mirrors(m.checkpoint->0.segments, m.sentences, m.results),
        first_open(m.results) < m.results.len(),
        folds_to(records, m.checkpoint->0.segments),
    ensures
        ({
            let line = completed_segment(
                m.checkpoint->0.segments[first_open(m.results)],
                translated,
            );
            folds_to(
                records.push(Some(line)),
                with_result(m, translated).checkpoint->0.segments,
            )
        }),
{
    lemma_first_open(m.results);
    let k = first_open(m.results);
    let before = m.checkpoint->0.segments;
    let line = completed_segment(before[k], translated);
    let after = before.update(k, line);
    let longer = records.push(Some(line));
    assert(longer.drop_last() =~= records);
    assert(state_of(records, before[k].segment_id) == Some(before[k]));
    assert forall|i: int| 0 <= i < after.len() implies state_of(
        longer,
        (#[trigger] after[i]).segment_id,
    ) == Some(after[i]) by {
        assert(state_of(records, before[i].segment_id) == Some(before[i]));
    }
    assert forall|id: usize| #[trigger] state_of(longer, id) is Some implies has_segment(
        after,
        id,
    ) by {
        if id == line.segment_id {
            assert(after[k].segment_id == id);
        } else {
            assert(state_of(records, id) is Some);
            let i = choose|i: int| 0 <= i < before.len() && (#[trigger] before[i]).segment_id == id;
            assert(after[i].segment_id == id);
        }
    }
    assert(ascending(after)) by {
        assert forall|i: int, j: int| 0 <= i < j < after.len() implies (
        #[trigger] after[i]).segment_id < (#[trigger] after[j]).segment_id by {
            assert(before[i].segment_id < before[j].segment_id);
        }
    }
}

/// The sentences that were just recognised stand in the log in ascending
/// order, so that the log that is written for them reads back as it is.
pub proof fn fresh_segments_ascend<T>(sentences: Seq<TranscriptionSentence<T>>)
    requires
        sentences.len() <= usize::MAX,
    ensures
        ascending(fresh_segments(sentences)),
{
}

/// A run that was interrupted goes on as if it had not been: another pipeline
/// that takes over the checkpoint knows the same sentences and translations,
/// and neither extracts nor transcribes the audio again.
pub proof fn resumed_run_knows_the_same<S>(m: PipelineView<S>, other: PipelineView<S>)
    requires
        m.checkpoint is Some,
        mirrors(m.checkpoint->0.segments, m.sentences, m.results),
        m.sentences.len() > 0,
        other.checkpoint is Some,
        other.checkpoint->0.segments == m.checkpoint->0.segments,
    ensures
        can_resume(other),
        resumed(other).sentences == m.sentences,
        resumed(other).results == m.results,
{
    let segments = m.checkpoint->0.segments;
    assert(sentences_of(segments) =~= m.sentences);
    assert(results_of(segments) =~= m.results);
}

/// A run that crashed goes on from its log: where the log had kept up with the
/// run, what is loaded from it lets another pipeline go on with the same
/// sentences and translations.
pub proof fn crashed_run_resumes_from_log<S>(
    m: PipelineView<S>,
    records: Seq<Option<SegmentProgress<TimePoint<S>>>>,
    other: PipelineView<S>,
)
    requires
        m.checkpoint is Some,
        mirrors(m.checkpoint->0.segments, m.sentences, m.results),
        m.sentences.len() > 0,
        folds_to(records, m.checkpoint->0.segments),
        other.checkpoint is Some,
        folds_to(records, other.checkpoint->0.segments),
    ensures
        can_resume(other),
        resumed(other).sentences == m.sentences,
        resumed(other).results == m.results,
{
    fold_is_unique(records, m.checkpoint->0.segments, other.checkpoint->0.segments);
    resumed_run_knows_the_same(m, other);
}

/// A run that had been completed is restored at once: a pipeline that takes
/// over its checkpoint is complete as soon as it begins, with the same
/// subtitles.
pub proof fn completed_run_is_restored<S>(m: PipelineView<S>, other: PipelineView<S>)
    requires
        m.checkpoint is Some,
        mirrors(m.checkpoint->0.segments, m.sentences, m.results),
        m.sentences.len() > 0,
        first_open(m.results) == m.results.len(),
        other.checkpoint is Some,
        other.checkpoint->0.segments == m.checkpoint->0.segments,
    ensures
        settled(resumed(other)).state == StateView::Completed,
        settled(resumed(other)).phase == Phase::Done,
        settled(resumed(other)).entries == entries_of(m.sentences, m.results),
        settled(m).entries == settled(resumed(other)).entries,
{
    resumed_run_knows_the_same(m, other);
}

/// The checkpoint mirrors the run after each translated sentence, the last
/// included.
pub proof fn translation_keeps_mirror<S>(m: PipelineView<S>, translated: String)
    requires
        m.checkpoint is Some,
        mirrors(m.checkpoint->0.segments, m.sentences, m.results),
        first_open(m.results) < m.results.len(),
    ensures
        ({
            let after = with_result(m, translated);
            &&& mirrors(after.checkpoint->0.segments, after.sentences, after.results)
            &&& first_open(after.results) > first_open(m.results)
        }),
{
    lemma_first_open(m.results);
    let k = first_open(m.results);
    let after = with_result(m, translated);
    lemma_first_open(after.results);
    if first_open(after.results) <= k {
        let f = first_open(after.results);
        if f < k {
            assert(m.results[f] is Some);
            assert(after.results[f] == m.results[f]);
        }
    }
}

/// The positions of the sentences without a translation, in order.
pub open spec fn open_positions(results: Seq<Option<String>>) -> Seq<int>
    decreases results.len(),
{
    if results.len() == 0 {
        Seq::empty()
    } else {
        let before = open_positions(results.drop_last());
        if results.last() is None {
            before.push(results.len() - 1)
        } else {
            before
        }
    }
}

/// A pipeline after the given translations came in, one for each request.
pub open spec fn answered<S>(m: PipelineView<S>, answers: Seq<String>) -> PipelineView<S>
    decreases answers.len(),
{
    if answers.len() == 0 {
        m
    } else {
        settled(with_result(answered(m, answers.drop_last()), answers.last()))
    }
}

/// Whether a pipeline that gets the given translations asks for those of the
/// sentences at the given positions, one after the other, and for nothing
/// else. Each time it knows the sentences that were translated before.
pub open spec fn asks_in_order<S>(
    m: PipelineView<S>,
    answers: Seq<String>,
    asked: Seq<int>,
) -> bool {
    &&& asked.len() == answers.len()
    &&& forall|n: int|
        0 <= n < answers.len() ==> {
            let at = #[trigger] answered(m, answers.take(n));
            &&& at.stage == Stage::Translating
            &&& first_open(at.results) == asked[n]
            &&& at.sentences == m.sentences
            &&& at.previous == m.previous + Seq::new(
                n as nat,
                |j: int| m.sentences[asked[j]].text,
            )
        }
}

/// The open positions ascend, and they are those of the sentences without a
/// translation.
pub proof fn open_positions_are_the_open_ones(results: Seq<Option<String>>)
    ensures
        open_positions(results).len() + done_count(results) == results.len(),
        forall|n: int|
            0 <= n < open_positions(results).len() ==> 0 <= #[trigger] open_positions(results)[n]
                < results.len() && results[open_positions(results)[n]] is None,
        forall|n: int, k: int|
            0 <= n < k < open_positions(results).len() ==> #[trigger] open_positions(results)[n]
                < #[trigger] open_positions(results)[k],
        forall|i: int|
            0 <= i < results.len() && (#[trigger] results[i]) is None ==> open_positions(
                results,
            ).contains(i),
    decreases results.len(),
{
    if results.len() > 0 {
        let rest = results.drop_last();
        let before = open_positions(rest);
        let open = open_positions(results);
        open_positions_are_the_open_ones(rest);
        assert forall|n: int| 0 <= n < open.len() implies 0 <= #[trigger] open[n] < results.len()
            && results[open[n]] is None by {
            if n < before.len() {
                assert(open[n] == before[n]);
                assert(rest[before[n]] == results[before[n]]);
            }
        }
        assert forall|n: int, k: int| 0 <= n < k < open.len() implies #[trigger] open[n]
            < #[trigger] open[k] by {
            assert(open[n] == before[n]);
            if k < before.len() {
                assert(open[k] == before[k]);
            }
        }
        assert forall|i: int|
            0 <= i < results.len() && (#[trigger] results[i]) is None implies open.contains(i) by {
            if i < rest.len() {
                assert(rest[i] is None);
                let n = choose|n: int| 0 <= n < before.len() && before[n] == i;
                assert(open[n] == i);
            } else {
                assert(open[open.len() - 1] == i);
            }
        }
    }
}

proof fn lemma_first_open_position(results: Seq<Option<String>>)
    ensures
        open_positions(results).len() == 0 ==> first_open(results) == results.len(),
        open_positions(results).len() > 0 ==> first_open(results) == open_positions(results)[0],
{
    let open = open_positions(results);
    open_positions_are_the_open_ones(results);
    let k: int = if open.len() == 0 {
        results.len() as int
    } else {
        open[0]
    };
    assert forall|i: int| 0 <= i < k implies (#[trigger] results[i]) is Some by {
        if results[i] is None {
            assert(open.contains(i));
            let n = choose|n: int| 0 <= n < open.len() && open[n] == i;
            if n > 0 {
                assert(open[0] < open[n]);
            }
        }
    }
    lemma_first_open_is(results, k);
}

proof fn lemma_open_after_answer(results: Seq<Option<String>>, s: String)
    requires
        open_positions(results).len() > 0,
    ensures
        open_positions(results.update(open_positions(results)[0], Some(s))) == open_positions(
            results,
        ).drop_first(),
    decreases results.len(),
{
    open_positions_are_the_open_ones(results);
    let open = open_positions(results);
    let k = open[0];
    let rest = results.drop_last();
    let before = open_positions(rest);
    let after = results.update(k, Some(s));
    if before.len() == 0 {
        assert(k == results.len() - 1);
        assert(after.drop_last() =~= rest);
        assert(open_positions(after) =~= open.drop_first());
    } else {
        open_positions_are_the_open_ones(rest);
        assert(before[0] == k);
        lemma_open_after_answer(rest, s);
        assert(after.drop_last() =~= rest.update(k, Some(s)));
        assert(open_positions(after) =~= open.drop_first());
    }
}

proof fn lemma_answered<S>(x: PipelineView<S>, answers: Seq<String>)
    requires
        x.sentences.len() == x.results.len(),
        answers.len() <= open_positions(x.results).len(),
        x.checkpoint is Some ==> mirrors(x.checkpoint->0.segments, x.sentences, x.results),
    ensures
        ({
            let open = open_positions(x.results);
            let y = answered(settled(x), answers);
            let n = answers.len() as int;
            &&& y.sentences == x.sentences
            &&& y.results.len() == x.results.len()
            &&& open_positions(y.results) == open.skip(n)
            &&& forall|i: int|
                0 <= i < x.results.len() && (#[trigger] x.results[i]) is Some ==> y.results[i]
                    == x.results[i]
            &&& forall|j: int| 0 <= j < n ==> y.results[#[trigger] open[j]] == Some(answers[j])
            &&& y.previous == x.previous + Seq::new(
                n as nat,
                |j: int| x.sentences[open[j]].text,
            )
            &&& n < open.len() ==> y.stage == Stage::Translating && first_open(y.results)
                == open[n]
            &&& n == open.len() ==> first_open(y.results) == y.results.len() && y.state
                == StateView::Completed && y.phase == Phase::Done && y.stage == Stage::Rest
                && y.entries == entries_of(y.sentences, y.results)
            &&& x.checkpoint is Some <==> y.checkpoint is Some
            &&& x.checkpoint is Some ==> {
                &&& y.checkpoint->0 == (CheckpointView {
                    segments: y.checkpoint->0.segments,
                    ..x.checkpoint->0
                })
                &&& mirrors(y.checkpoint->0.segments, y.sentences, y.results)
            }
        }),
    decreases answers.len(),
{
    let open = open_positions(x.results);
    open_positions_are_the_open_ones(x.results);
    let y = answered(settled(x), answers);
    let n = answers.len() as int;
    if n == 0 {
        assert(open.skip(0) =~= open);
        assert(y.previous =~= x.previous + Seq::new(0, |j: int| x.sentences[open[j]].text));
        lemma_first_open_position(x.results);
    } else {
        let earlier = answers.drop_last();
        lemma_answered(x, earlier);
        let before = answered(settled(x), earlier);
        let k = open[n - 1];
        assert(open.skip(n - 1)[0] == k);
        assert(first_open(before.results) == k);
        lemma_open_after_answer(before.results, answers.last());
        assert(open.skip(n - 1).drop_first() =~= open.skip(n));
        let w = with_result(before, answers.last());
        assert(y == settled(w));
        assert(w.results == before.results.update(k, Some(answers.last())));
        assert forall|i: int|
            0 <= i < x.results.len() && (#[trigger] x.results[i]) is Some implies y.results[i]
            == x.results[i] by {
            assert(x.results[k] is None);
        }
        assert forall|j: int| 0 <= j < n implies y.results[#[trigger] open[j]] == Some(
            answers[j],
        ) by {
            if j < n - 1 {
                assert(open[j] < open[n - 1]);
                assert(before.results[open[j]] == Some(earlier[j]));
            }
        }
        assert(y.previous =~= x.previous + Seq::new(
            n as nat,
            |j: int| x.sentences[open[j]].text,
        ));
        if x.checkpoint is Some {
            translation_keeps_mirror(before, answers.last());
        }
        lemma_first_open_position(w.results);
        if n < open.len() {
            assert(open.skip(n)[0] == open[n]);
        }
    }
}

proof fn lemma_asks_in_order<S>(x: PipelineView<S>, answers: Seq<String>)
    requires
        x.sentences.len() == x.results.len(),
        answers.len() == open_positions(x.results).len(),
        x.checkpoint is Some ==> mirrors(x.checkpoint->0.segments, x.sentences, x.results),
    ensures
        asks_in_order(settled(x), answers, open_positions(x.results)),
{
    let open = open_positions(x.results);
    let m = settled(x);
    assert forall|n: int| 0 <= n < answers.len() implies {
        let at = #[trigger] answered(m, answers.take(n));
        &&& at.stage == Stage::Translating
        &&& first_open(at.results) == open[n]
        &&& at.sentences == m.sentences
        &&& at.previous == m.previous + Seq::new(n as nat, |j: int| m.sentences[open[j]].text)
    } by {
        lemma_answered(x, answers.take(n));
        let at = answered(m, answers.take(n));
        assert(at.previous =~= m.previous + Seq::new(
            n as nat,
            |j: int| m.sentences[open[j]].text,
        ));
    }
}

/// A resumed run as a whole. Each sentence without a translation is asked for
/// once, in order, with the translated ones before it as context; nothing is
/// extracted or transcribed. With the answers the run is complete: what was
/// translated before is kept, and each answer stands where it was asked for.
pub proof fn resumed_run_is_completed<S>(m: PipelineView<S>, answers: Seq<String>)
    requires
        can_resume(m),
        answers.len() == open_positions(results_of(m.checkpoint->0.segments)).len(),
    ensures
        ({
            let segments = m.checkpoint->0.segments;
            let results = results_of(segments);
            let open = open_positions(results);
            let end = answered(started(m), answers);
            &&& asks_in_order(started(m), answers, open)
            &&& started(m).sentences == sentences_of(segments)
            &&& started(m).previous == done_texts(sentences_of(segments), results)
            &&& end.state == StateView::Completed && end.phase == Phase::Done
            &&& end.entries.len() == segments.len()
            &&& forall|i: int|
                0 <= i < segments.len() && result_of(#[trigger] segments[i]) is Some
                    ==> end.entries[i] == entry_of(
                    sentence_of(segments[i]),
                    result_of(segments[i])->0,
                )
            &&& forall|n: int|
                0 <= n < open.len() ==> end.entries[#[trigger] open[n]] == entry_of(
                    sentence_of(segments[open[n]]),
                    answers[n],
                )
            &&& forall|i: int|
                0 <= i < segments.len() ==> {
                    let e = #[trigger] end.entries[i];
                    &&& segments[i].source == Some(e.source)
                    &&& e.content_start == segments[i].start_time->0.seconds
                    &&& e.wall_start == segments[i].start_time->0.wall_ms
                    &&& e.content_end == segments[i].end_time->0.seconds
                    &&& e.wall_end == segments[i].end_time->0.wall_ms
                    &&& segments[i].status == SegmentStatus::Completed
                        && segments[i].translated is Some ==> segments[i].translated == Some(
                        e.translated,
                    )
                }
            &&& forall|n: int|
                0 <= n < open.len() ==> end.entries[#[trigger] open[n]].translated == answers[n]
            &&& end.checkpoint is Some
            &&& mirrors(end.checkpoint->0.segments, end.sentences, end.results)
            &&& end.checkpoint->0.fingerprint == m.checkpoint->0.fingerprint
        }),
{
    let x = resumed(m);
    let segments = m.checkpoint->0.segments;
    let open = open_positions(x.results);
    open_positions_are_the_open_ones(x.results);
    lemma_answered(x, answers);
    lemma_asks_in_order(x, answers);
    let end = answered(settled(x), answers);
    assert forall|i: int|
        0 <= i < segments.len() && result_of(#[trigger] segments[i]) is Some implies end.entries[i]
        == entry_of(sentence_of(segments[i]), result_of(segments[i])->0) by {
        assert(x.results[i] is Some);
    }
    assert forall|n: int| 0 <= n < open.len() implies end.entries[#[trigger] open[n]] == entry_of(
        sentence_of(segments[open[n]]),
        answers[n],
    ) by {
        assert(end.results[open[n]] == Some(answers[n]));
    }
    assert forall|i: int| 0 <= i < segments.len() implies {
        let e = #[trigger] end.entries[i];
        &&& segments[i].source == Some(e.source)
        &&& e.content_start == segments[i].start_time->0.seconds
        &&& e.wall_start == segments[i].start_time->0.wall_ms
        &&& e.content_end == segments[i].end_time->0.seconds
        &&& e.wall_end == segments[i].end_time->0.wall_ms
        &&& segments[i].status == SegmentStatus::Completed && segments[i].translated is Some
            ==> segments[i].translated == Some(e.translated)
    } by {
        assert(segments[i].source is Some);
        assert(end.sentences[i] == sentence_of(segments[i]));
        if segments[i].status == SegmentStatus::Completed && segments[i].translated is Some {
            assert(result_of(segments[i]) is Some);
        }
    }
}

/// A pipeline that waited for its audio, after that was extracted and
/// transcribed.
pub open spec fn heard<S>(
    m: PipelineView<S>,
    sentences: Seq<TranscriptionSentence<TimePoint<S>>>,
) -> PipelineView<S> {
    settled(
        with_sentences(
            PipelineView { phase: Phase::Transcribing, stage: Stage::Transcribing, ..m },
            sentences,
        ),
    )
}

proof fn lemma_all_open(results: Seq<Option<String>>)
    requires
        forall|i: int| 0 <= i < results.len() ==> (#[trigger] results[i]) is None,
    ensures
        open_positions(results) == Seq::new(results.len(), |i: int| i),
    decreases results.len(),
{
    if results.len() > 0 {
        let rest = results.drop_last();
        assert forall|i: int| 0 <= i < rest.len() implies (#[trigger] rest[i]) is None by {
            assert(rest[i] == results[i]);
        }
        lemma_all_open(rest);
    }
    assert(open_positions(results) =~= Seq::new(results.len(), |i: int| i));
}

/// A run under changed settings as a whole, on a task whose sentences were all
/// recorded. The audio is extracted and transcribed exactly where the source
/// language or the recognition model has changed. Either way every sentence is
/// asked for, in order, and translated anew, and the checkpoint that is saved
/// in the end bears the new settings.
pub proof fn run_under_changed_settings<S>(
    m: PipelineView<S>,
    c: CheckpointView<TimePoint<S>>,
    fingerprint: CheckpointFingerprint,
    recognised: Seq<TranscriptionSentence<TimePoint<S>>>,
    answers: Seq<String>,
)
    requires
        m.checkpoint == Some(reconciled(c, fingerprint)),
        usable(c.segments),
        asr_changed(c.fingerprint@, fingerprint@) || translation_changed(
            c.fingerprint@,
            fingerprint@,
        ),
        recognised.len() > 0,
        answers.len() == (if asr_changed(c.fingerprint@, fingerprint@) {
            recognised.len()
        } else {
            c.segments.len()
        }),
    ensures
        ({
            let anew = asr_changed(c.fingerprint@, fingerprint@);
            let sentences = if anew {
                recognised
            } else {
                sentences_of(c.segments)
            };
            let ready = if anew {
                heard(started(m), recognised)
            } else {
                started(m)
            };
            let end = answered(ready, answers);
            &&& started(m).stage == Stage::Extracting <==> anew
            &&& asks_in_order(ready, answers, Seq::new(answers.len(), |i: int| i))
            &&& ready.sentences == sentences
            &&& ready.previous == Seq::<String>::empty()
            &&& end.state == StateView::Completed && end.phase == Phase::Done
            &&& end.entries == Seq::new(
                sentences.len(),
                |i: int| entry_of(sentences[i], answers[i]),
            )
            &&& forall|i: int|
                0 <= i < sentences.len() ==> {
                    let e = #[trigger] end.entries[i];
                    &&& e.source == sentences[i].text && e.translated == answers[i]
                    &&& e.content_start == sentences[i].begin_time.seconds
                    &&& e.wall_start == sentences[i].begin_time.wall_ms
                    &&& e.content_end == sentences[i].end_time.seconds
                    &&& e.wall_end == sentences[i].end_time.wall_ms
                }
            &&& end.checkpoint is Some
            &&& end.checkpoint->0.fingerprint == fingerprint
            &&& mirrors(end.checkpoint->0.segments, end.sentences, end.results)
        }),
{
    changed_settings_void_what_depends_on_them(c, fingerprint);
    let anew = asr_changed(c.fingerprint@, fingerprint@);
    let x = if anew {
        with_sentences(
            PipelineView {
                phase: Phase::Transcribing,
                stage: Stage::Transcribing,
                ..started(m)
            },
            recognised,
        )
    } else {
        resumed(m)
    };
    let open = open_positions(x.results);
    assert(x.results.len() == x.sentences.len() == answers.len());
    assert forall|i: int| 0 <= i < x.results.len() implies (#[trigger] x.results[i]) is None by {
        if !anew {
            let after = reconciled(c, fingerprint);
            assert(results_of(after.segments)[i] is None);
        }
    }
    lemma_all_open(x.results);
    lemma_done_texts_open(x.sentences, x.results);
    lemma_answered(x, answers);
    lemma_asks_in_order(x, answers);
    let end = answered(settled(x), answers);
    assert forall|i: int| 0 <= i < x.sentences.len() implies end.entries[i] == entry_of(
        x.sentences[i],
        answers[i],
    ) by {
        assert(open[i] == i);
        assert(end.results[open[i]] == Some(answers[i]));
    }
    assert(end.entries =~= Seq::new(
        x.sentences.len(),
        |i: int| entry_of(x.sentences[i], answers[i]),
    ));
}

proof fn lemma_done_texts_open<T>(
    sentences: Seq<TranscriptionSentence<T>>,
    results: Seq<Option<String>>,
)
    requires
        forall|i: int| 0 <= i < results.len() ==> (#[trigger] results[i]) is None,
    ensures
        done_texts(sentences, results) == Seq::<String>::empty(),
    decreases results.len(),
{
    if results.len() > 0 {
        let rest = results.drop_last();
        assert forall|i: int| 0 <= i < rest.len() implies (#[trigger] rest[i]) is None by {
            assert(rest[i] == results[i]);
        }
        lemma_done_texts_open(sentences, rest);
    }
}

/// What a pipeline resumes with under changed settings. A change of the source
/// language or the recognition model leaves nothing to go on from. A change of
/// the target language or the translator leaves the sentences and voids every
/// translation. No change leaves everything.
pub proof fn changed_settings_void_what_depends_on_them<T>(
    c: CheckpointView<T>,
    fingerprint: CheckpointFingerprint,
)
    ensures
        ({
            let after = reconciled(c, fingerprint);
            let asr = asr_changed(c.fingerprint@, fingerprint@);
            let translation = translation_changed(c.fingerprint@, fingerprint@);
            &&& asr ==> !usable(after.segments)
            &&& !asr ==> (usable(after.segments) <==> usable(c.segments))
            &&& !asr ==> sentences_of(after.segments) == sentences_of(c.segments)
            &&& !asr && translation ==> forall|i: int|
                0 <= i < after.segments.len() ==> (#[trigger] results_of(
                    after.segments,
                )[i]) is None
            &&& !asr && !translation ==> after == c
            &&& asr || translation ==> after.fingerprint@ == fingerprint@
        }),
{
    let after = reconciled(c, fingerprint);
    if !asr_changed(c.fingerprint@, fingerprint@) {
        assert(sentences_of(after.segments) =~= sentences_of(c.segments));
        if usable(c.segments) {
            assert forall|i: int| 0 <= i < after.segments.len() implies (
            #[trigger] after.segments[i]).source is Some && after.segments[i].start_time is Some
                && after.segments[i].end_time is Some by {
                assert(c.segments[i].source is Some);
            }
        }
        if usable(after.segments) {
            assert forall|i: int| 0 <= i < c.segments.len() implies (
            #[trigger] c.segments[i]).source is Some && c.segments[i].start_time is Some
                && c.segments[i].end_time is Some by {
                assert(after.segments[i].source is Some);
            }
        }
    }
}

/// Whether the last `k` items of `prev` are the first `k` of `next`.
pub open spec fn overlaps(prev: Seq<Seq<char>>, next: Seq<Seq<char>>, k: int) -> bool {
    &&& 0 <= k <= prev.len()
    &&& k <= next.len()
    &&& prev.skip(prev.len() - k) == next.take(k)
}

/// The length of the longest overlap that is not longer than `limit`.
pub open spec fn longest_overlap(
    prev: Seq<Seq<char>>,
    next: Seq<Seq<char>>,
    limit: nat,
) -> nat
    decreases limit,
{
    if limit == 0 || overlaps(prev, next, limit as int) {
        limit
    } else {
        longest_overlap(prev, next, (limit - 1) as nat)
    }
}

/// A text without its first `k` characters and the white space before them.
/// Where nothing is to be cut, the text stays as it is.
pub open spec fn without_front(next: Seq<char>, k: nat) -> Seq<char> {
    if k == 0 {
        next
    } else {
        trim_start_spec(next).skip(k as int)
    }
}

/// The length of the longest overlap that is not longer than `max_overlap`.
/// The characters of the two texts are given one by one, each in lower case.
pub fn overlap_length(prev: &Vec<String>, next: &Vec<String>, max_overlap: usize) -> (r: usize)
    ensures
        r == longest_overlap(texts(prev@), texts(next@), max_overlap as nat),
        r <= next@.len(),
{
    let ghost p = texts(prev@);
    let ghost n = texts(next@);
    let mut k: usize = max_overlap;
    if prev.len() < k {
        proof {
            lemma_overlap_bounded(p, n, k as nat, p.len());
        }
        k = prev.len();
    }
    if next.len() < k {
        proof {
            lemma_overlap_bounded(p, n, k as nat, n.len());
        }
        k = next.len();
    }
    while k > 0
        invariant_except_break
            k <= prev.len(),
            k <= next.len(),
            p == texts(prev@),
            n == texts(next@),
            longest_overlap(p, n, max_overlap as nat) == longest_overlap(p, n, k as nat),
        ensures
            k <= next.len(),
            longest_overlap(p, n, max_overlap as nat) == k,
        decreases k,
    {
        let mut j: usize = 0;
        while j < k && text_eq(prev[prev.len() - k + j].as_str(), next[j].as_str())
            invariant
                j <= k <= prev.len(),
                k <= next.len(),
                p == texts(prev@),
                n == texts(next@),
                forall|i: int|
                    0 <= i < j ==> #[trigger] p.skip(p.len() - k)[i] == n.take(k as int)[i],
            decreases k - j,
        {
            proof {
                assert(p.skip(p.len() - k)[j as int] == n.take(k as int)[j as int]);
            }
            j += 1;
        }
        if j == k {
            proof {
                assert(p.skip(p.len() - k) =~= n.take(k as int));
            }
            break;
        }
        proof {
            assert(p.skip(p.len() - k)[j as int] != n.take(k as int)[j as int]);
        }
        k -= 1;
    }
    k
}

/// Cuts the first `k` characters off a text, and the white space before them.
pub fn cut_front(next: &str, k: usize) -> (r: String)
    requires
        k <= trim_start_spec(next@).len(),
    ensures
        r@ == without_front(next@, k as nat),
{
    if k == 0 {
        return next.to_owned();
    }
    let mut chars = trim_start_chars(next);
    let rest = chars.split_off(k);
    proof {
        assert(rest@ =~= trim_start_spec(next@).skip(k as int));
    }
    from_chars(&rest)
}

/// `next` without what it repeats of the end of `prev`, looking at no more
/// than `max_overlap` characters. Neither case nor white space at either end
/// of the two texts counts; what is cut goes along with the white space before
/// it.
pub fn dedup_overlap(prev: &str, next: &str, max_overlap: usize) -> (r: String)
    ensures
        r@ == without_front(
            next@,
            longest_overlap(
                lowered(trim_spec(prev@)),
                lowered(trim_spec(next@)),
                max_overlap as nat,
            ),
        ),
        is_ascii_text(prev@) && is_ascii_text(next@) ==> r@ == without_front(
            next@,
            longest_overlap(
                ascii_lowered(trim_spec(prev@)),
                ascii_lowered(trim_spec(next@)),
                max_overlap as nat,
            ),
        ),
{
    let p = trim(prev);
    let n = trim(next);
    let prev_lower = lower_chars(p.as_str());
    let next_lower = lower_chars(n.as_str());
    let k: usize = overlap_length(&prev_lower, &next_lower, max_overlap);
    proof {
        lemma_trim_is_part(prev@);
        lemma_trim_is_part(next@);
        assert(texts(next_lower@).len() == next_lower@.len());
        if is_ascii_text(prev@) {
            assert(is_ascii_text(p@));
        }
        if is_ascii_text(next@) {
            assert(is_ascii_text(n@));
        }
    }
    cut_front(next, k)
}

proof fn lemma_overlap_bounded(
    p: Seq<Seq<char>>,
    n: Seq<Seq<char>>,
    limit: nat,
    bound: nat,
)
    requires
        bound <= limit,
        bound == p.len() || bound == n.len(),
    ensures
        longest_overlap(p, n, limit) == longest_overlap(p, n, bound),
    decreases limit,
{
    if limit > bound {
        lemma_overlap_bounded(p, n, (limit - 1) as nat, bound);
    }
}

/// What is taken off is an overlap of at most the given length, and no longer
/// one of that length exists.
pub proof fn overlap_is_longest(prev: Seq<Seq<char>>, next: Seq<Seq<char>>, limit: nat)
    ensures
        longest_overlap(prev, next, limit) <= limit,
        overlaps(prev, next, longest_overlap(prev, next, limit) as int),
        forall|k: int|
            longest_overlap(prev, next, limit) < k <= limit ==> !overlaps(prev, next, k),
        forall|k: int|
            longest_overlap(prev, next, limit) < k <= limit && k <= prev.len() && k <= next.len()
                ==> #[trigger] prev.skip(prev.len() - k) != next.take(k),
    decreases limit,
{
    if limit == 0 {
        assert(prev.skip(prev.len() as int) =~= next.take(0));
    } else if !overlaps(prev, next, limit as int) {
        overlap_is_longest(prev, next, (limit - 1) as nat);
        assert forall|k: int|
            longest_overlap(prev, next, limit) < k <= limit && k <= prev.len() && k
                <= next.len() implies #[trigger] prev.skip(prev.len() - k) != next.take(k) by {
            if k == limit {
                assert(!overlaps(prev, next, k));
            }
        }
    }
}

/// Of what a run has translated, the subtitles say when and what was said and
/// what that means, sentence by sentence: a run in which nothing is open is
/// complete, with these subtitles.
pub proof fn completed_subtitles_match_sentences<S>(m: PipelineView<S>)
    requires
        m.sentences.len() == m.results.len(),
        forall|i: int| 0 <= i < m.results.len() ==> (#[trigger] m.results[i]) is Some,
    ensures
        settled(m).state == StateView::Completed,
        settled(m).phase == Phase::Done,
        settled(m).entries.len() == m.sentences.len(),
        forall|i: int|
            0 <= i < m.sentences.len() ==> {
                let e = #[trigger] settled(m).entries[i];
                let s = m.sentences[i];
                &&& e.content_start == s.begin_time.seconds && e.content_end == s.end_time.seconds
                &&& e.wall_start == s.begin_time.wall_ms && e.wall_end == s.end_time.wall_ms
                &&& e.source == s.text
                &&& Some(e.translated) == m.results[i]
                &&& e.status == SubtitleStatus::Final
            },
{
    lemma_first_open(m.results);
    if first_open(m.results) < m.results.len() {
        assert(m.results[first_open(m.results)] is Some);
    }
}

/// The sentence that is translated next is the first without a translation.
pub proof fn next_sentence_is_the_first_open(results: Seq<Option<String>>)
    ensures
        0 <= first_open(results) <= results.len(),
        first_open(results) < results.len() ==> results[first_open(results)] is None,
        forall|i: int| 0 <= i < first_open(results) ==> (#[trigger] results[i]) is Some,
{
    lemma_first_open(results);
}

/// A translation fills the first open place and no other, in the run and in
/// its checkpoint; the sentence counts as context from then on, and the
/// progress as one further.
pub proof fn translation_fills_one_place<S>(m: PipelineView<S>, text: String)
    requires
        m.sentences.len() == m.results.len(),
        m.results.len() <= usize::MAX,
        first_open(m.results) < m.results.len(),
        m.checkpoint is Some ==> mirrors(m.checkpoint->0.segments, m.sentences, m.results),
    ensures
        ({
            let k = first_open(m.results);
            let after = with_result(m, text);
            &&& after.sentences == m.sentences && after.entries == m.entries
            &&& after.results.len() == m.results.len()
            &&& after.results[k] == Some(text)
            &&& forall|i: int|
                0 <= i < m.results.len() && i != k ==> #[trigger] after.results[i] == m.results[i]
            &&& after.previous.len() == m.previous.len() + 1
            &&& after.previous.last() == m.sentences[k].text
            &&& after.previous.drop_last() == m.previous
            &&& after.progress.numer == done_count(after.results)
            &&& done_count(after.results) == done_count(m.results) + 1
            &&& after.progress.denom == m.sentences.len()
            &&& after.checkpoint is Some <==> m.checkpoint is Some
            &&& m.checkpoint is Some ==> {
                let before = m.checkpoint->0;
                let now = after.checkpoint->0;
                &&& now.task_id == before.task_id && now.video_path == before.video_path
                &&& now.fingerprint == before.fingerprint
                &&& now.segments.len() == before.segments.len()
                &&& forall|i: int|
                    0 <= i < before.segments.len() && i != k ==> #[trigger] now.segments[i]
                        == before.segments[i]
                &&& now.segments[k].status == SegmentStatus::Completed
                &&& now.segments[k].translated == Some(text)
                &&& now.segments[k].segment_id == before.segments[k].segment_id
                &&& now.segments[k].source == Some(m.sentences[k].text)
                &&& now.segments[k].start_time == Some(m.sentences[k].begin_time)
                &&& now.segments[k].end_time == Some(m.sentences[k].end_time)
            }
        }),
{
    let k = first_open(m.results);
    lemma_first_open(m.results);
    lemma_done_count_update(m.results, k, text);
    lemma_done_count(m.results.update(k, Some(text)));
    assert(with_result(m, text).previous.drop_last() =~= m.previous);
    if m.checkpoint is Some {
        assert(m.checkpoint->0.segments[k].source is Some);
    }
}

/// What is known of the sentences before goes along with a request: the one
/// before comes first, and the oldest of more than ten drops out.
pub proof fn context_is_the_latest_ten(previous: Seq<String>, text: String)
    ensures
        context_of(Seq::<String>::empty()).len() == 0,
        context_of(previous).len() <= 10,
        previous.len() < 10 ==> context_of(previous.push(text)) == seq![text] + context_of(
            previous,
        ),
        previous.len() >= 10 ==> context_of(previous.push(text)) == seq![text] + context_of(
            previous,
        ).drop_last(),
{
    let more = context_of(previous.push(text));
    if previous.len() < 10 {
        assert(more =~= seq![text] + context_of(previous));
    } else {
        assert(more =~= seq![text] + context_of(previous).drop_last());
    }
}

/// The checkpoint of sentences that were just recognised says of each what was
/// recognised, under its number, and that it has no translation.
pub proof fn recognised_sentences_are_recorded<T>(sentences: Seq<TranscriptionSentence<T>>)
    requires
        sentences.len() <= usize::MAX,
    ensures
        fresh_segments(sentences).len() == sentences.len(),
        forall|i: int|
            0 <= i < sentences.len() ==> {
                let seg = #[trigger] fresh_segments(sentences)[i];
                &&& seg.segment_id == i
                &&& seg.source == Some(sentences[i].text)
                &&& seg.start_time == Some(sentences[i].begin_time)
                &&& seg.end_time == Some(sentences[i].end_time)
                &&& seg.status == SegmentStatus::Pending
                &&& seg.translated is None && !seg.fallback
            },
        sentences.len() > 0 ==> usable(fresh_segments(sentences)),
        sentences_of(fresh_segments(sentences)) == sentences,
{
    assert(sentences_of(fresh_segments(sentences)) =~= sentences);
}

/// What a run goes on with is what its checkpoint says: the text and the times
/// of each sentence, and the translation of each that was completed.
pub proof fn recorded_sentences_are_restored<T>(segments: Seq<SegmentProgress<T>>)
    requires
        usable(segments),
    ensures
        sentences_of(segments).len() == segments.len(),
        results_of(segments).len() == segments.len(),
        forall|i: int|
            0 <= i < segments.len() ==> {
                let s = #[trigger] sentences_of(segments)[i];
                &&& Some(s.text) == segments[i].source
                &&& Some(s.begin_time) == segments[i].start_time
                &&& Some(s.end_time) == segments[i].end_time
            },
        forall|i: int|
            0 <= i < segments.len() ==> #[trigger] results_of(segments)[i] == (
            if segments[i].status is Completed {
                segments[i].translated
            } else {
                None
            }),
{
    assert forall|i: int| 0 <= i < segments.len() implies {
        let s = #[trigger] sentences_of(segments)[i];
        &&& Some(s.text) == segments[i].source
        &&& Some(s.begin_time) == segments[i].start_time
        &&& Some(s.end_time) == segments[i].end_time
    } by {
        assert(segments[i].source is Some);
    }
}

/// Which settings void what, setting by setting. Another source language or
/// recognition model leaves no sentence. Another target language, translator
/// or translation model leaves every sentence with its times and no
/// translation. Nothing is lost where all five are the same.
pub proof fn each_setting_voids_what_it_shapes<T>(
    c: CheckpointView<T>,
    fingerprint: CheckpointFingerprint,
)
    ensures
        ({
            let was = c.fingerprint;
            let after = reconciled(c, fingerprint);
            let same_speech = was.source_language@ == fingerprint.source_language@
                && was.asr_model@ == fingerprint.asr_model@;
            let same_words = was.target_lang@ == fingerprint.target_lang@
                && was.translate_provider@ == fingerprint.translate_provider@
                && was.translate_model@ == fingerprint.translate_model@;
            &&& after.task_id == c.task_id && after.video_path == c.video_path
            &&& !same_speech ==> after.segments.len() == 0
            &&& same_speech && !same_words ==> after.segments.len() == c.segments.len()
                && forall|i: int|
                0 <= i < c.segments.len() ==> {
                    let seg = #[trigger] after.segments[i];
                    &&& seg.segment_id == c.segments[i].segment_id
                    &&& seg.source == c.segments[i].source
                    &&& seg.start_time == c.segments[i].start_time
                    &&& seg.end_time == c.segments[i].end_time
                    &&& seg.status == SegmentStatus::Pending
                    &&& seg.translated is None && !seg.fallback
                }
            &&& same_speech && same_words ==> after == c
            &&& !(same_speech && same_words) ==> after.fingerprint == fingerprint
        }),
{
}

/// A failure loses nothing that is known: all but the state and what the
/// pipeline waits for is as it was.
pub proof fn failure_keeps_what_is_known<S>(m: PipelineView<S>, message: Seq<char>)
    ensures
        ({
            let after = failed(m, message);
            &&& after.state == StateView::Failed(message) && after.stage == Stage::Rest
            &&& after.phase == m.phase && after.progress == m.progress
            &&& after.entries == m.entries && after.checkpoint == m.checkpoint
            &&& after.sentences == m.sentences && after.results == m.results
            &&& after.previous == m.previous && after.config == m.config
            &&& after.source_language == m.source_language
        }),
{
}

/// A run begins with the audio exactly where its checkpoint does not hold all
/// sentences; neither way anything but how far the run is changes at once.
pub proof fn run_begins_where_it_must<S>(m: PipelineView<S>)
    ensures
        !(m.checkpoint is Some && usable(m.checkpoint->0.segments)) ==> {
            let after = started(m);
            &&& after.state == StateView::Processing && after.phase == Phase::Extracting
            &&& after.stage == Stage::Extracting
            &&& after.checkpoint == m.checkpoint && after.config == m.config
            &&& after.entries == m.entries && after.source_language == m.source_language
        },
        m.checkpoint is Some && usable(m.checkpoint->0.segments) ==> {
            let after = started(m);
            let segments = m.checkpoint->0.segments;
            &&& after.stage == Stage::Translating || after.stage == Stage::Rest
            &&& after.stage == Stage::Rest <==> (forall|i: int|
                0 <= i < segments.len() ==> (#[trigger] segments[i]).status is Completed
                    && segments[i].translated is Some)
            &&& after.stage == Stage::Translating ==> after.state == StateView::Processing
                && after.phase == Phase::Translating
            &&& after.checkpoint == m.checkpoint && after.config == m.config
            &&& after.source_language == m.source_language
            &&& after.sentences.len() == segments.len()
        },
{
    if can_resume(m) {
        let segments = m.checkpoint->0.segments;
        let results = results_of(segments);
        lemma_first_open(results);
        let k = first_open(results);
        if k < results.len() {
            assert(results[k] == result_of(segments[k]));
        } else {
            assert forall|i: int| 0 <= i < segments.len() implies (
            #[trigger] segments[i]).status is Completed && segments[i].translated is Some by {
                assert(results[i] is Some);
            }
        }
    }
}

/// What is cut off a text is what it repeats. Either nothing is repeated, and
/// the text stays as it is; or it is white space, then as many characters as
/// the end of the text before, equal to these but for case, then what is left.
pub proof fn only_repetition_is_cut(prev: Seq<char>, next: Seq<char>, limit: nat)
    ensures
        ({
            let k = longest_overlap(lowered(trim_spec(prev)), lowered(trim_spec(next)), limit);
            let left = without_front(next, k);
            let cut_at = next.len() - k - left.len();
            &&& k <= limit
            &&& k == 0 ==> left == next
            &&& forall|j: int|
                0 < j <= limit && j <= trim_spec(prev).len() && j <= trim_spec(next).len()
                    && #[trigger] lowered(trim_spec(prev)).skip(trim_spec(prev).len() - j)
                    == lowered(trim_spec(next)).take(j) ==> j <= k
            &&& k > 0 ==> {
                &&& 0 <= cut_at
                &&& k <= trim_spec(prev).len()
                &&& left == next.skip(cut_at + k)
                &&& forall|i: int| 0 <= i < cut_at ==> is_space_spec(#[trigger] next[i])
                &&& lowered(next.subrange(cut_at, cut_at + k)) == lowered(
                    trim_spec(prev).skip(trim_spec(prev).len() - k),
                )
            }
        }),
{
    let p = trim_spec(prev);
    let n = trim_spec(next);
    let k = longest_overlap(lowered(p), lowered(n), limit);
    overlap_is_longest(lowered(p), lowered(n), limit);
    trimming_takes_only_space(next);
    let open = trim_start_spec(next);
    if k > 0 {
        let left = without_front(next, k);
        let cut_at = next.len() - k - left.len();
        assert(left =~= next.skip(cut_at + k));
        assert(next.subrange(cut_at, cut_at + k) =~= n.take(k as int));
        assert(lowered(n.take(k as int)) =~= lowered(n).take(k as int));
        assert(lowered(p.skip(p.len() - k)) =~= lowered(p).skip(p.len() - k));
    }
}

/// The progress of a run is the share of its sentences that have a
/// translation: none at first, one more with each translation.
pub proof fn progress_counts_translations(results: Seq<Option<String>>, next: Option<String>)
    ensures
        done_count(Seq::<Option<String>>::empty()) == 0,
        done_count(results.push(next)) == done_count(results) + (if next is Some {
            1nat
        } else {
            0nat
        }),
        done_count(results) <= results.len(),
{
    assert(results.push(next).drop_last() =~= results);
    lemma_done_count(results);
}

/// Looking for the next sentence changes nothing that is known. Where one is
/// open, the pipeline waits for its translation, and nothing else changes.
pub proof fn settling_keeps_what_is_known<S>(m: PipelineView<S>)
    ensures
        settled(m).checkpoint == m.checkpoint && settled(m).sentences == m.sentences,
        settled(m).results == m.results && settled(m).previous == m.previous,
        settled(m).progress == m.progress && settled(m).config == m.config,
        settled(m).source_language == m.source_language,
        (exists|i: int| 0 <= i < m.results.len() && (#[trigger] m.results[i]) is None) ==> {
            &&& settled(m).stage == Stage::Translating && settled(m).state == m.state
            &&& settled(m).phase == m.phase && settled(m).entries == m.entries
        },
{
    lemma_first_open(m.results);
}

/// What a resumed run knows as context are the sentences that have a
/// translation, in order; and its progress is their share.
pub proof fn translated_sentences_are_context<T>(
    sentences: Seq<TranscriptionSentence<T>>,
    results: Seq<Option<String>>,
    next: Option<String>,
)
    requires
        results.len() < sentences.len(),
    ensures
        done_texts(sentences, Seq::empty()).len() == 0,
        next is Some ==> done_texts(sentences, results.push(next)) == done_texts(
            sentences,
            results,
        ).push(sentences[results.len() as int].text),
        next is None ==> done_texts(sentences, results.push(next)) == done_texts(
            sentences,
            results,
        ),
        done_texts(sentences, results).len() == done_count(results),
    decreases results.len(),
{
    assert(results.push(next).drop_last() =~= results);
    if results.len() > 0 {
        translated_sentences_are_context(sentences, results.drop_last(), results.last());
        assert(results.drop_last().push(results.last()) =~= results);
    }
}

/// A resumed run begins with the progress that its checkpoint tells.
pub proof fn resumed_run_shows_its_progress<S>(m: PipelineView<S>)
    requires
        can_resume(m),
        m.checkpoint->0.segments.len() <= usize::MAX,
    ensures
        resumed(m).progress.numer == done_count(results_of(m.checkpoint->0.segments)),
        resumed(m).progress.denom == m.checkpoint->0.segments.len(),
        resumed(m).entries == m.entries && resumed(m).checkpoint == m.checkpoint,
        resumed(m).state == StateView::Processing && resumed(m).phase == Phase::Translating,
{
    lemma_done_count(results_of(m.checkpoint->0.segments));
}

/// A state says what it is.
pub proof fn states_say_what_they_are(message: String)
    ensures
        PipelineState::Idle@ == StateView::Idle,
        PipelineState::Processing@ == StateView::Processing,
        PipelineState::Paused@ == StateView::Paused,
        PipelineState::Completed@ == StateView::Completed,
        PipelineState::Exported@ == StateView::Exported,
        PipelineState::Failed(message)@ == StateView::Failed(message@),
{
}

} // verus!
