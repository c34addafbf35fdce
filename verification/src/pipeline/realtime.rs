//! The realtime pipeline: from captured audio to subtitles while it plays.
//!
//! Capturing, recognition and translation go on side by side. The pipeline
//! decides what each outcome leads to; connections and events are handled
//! outside.

use crate::asr::{AsrConfig, AsrEvent};
use crate::checkpoint::{
    applied_record_keeps_log_in_step, as_records, ascending, folds_to, Checkpoint,
    CheckpointFingerprint, CheckpointView, SegmentProgress, SegmentStatus,
};
use crate::config::{default_config, AppConfig};
use crate::error::{error_text, Error};
use crate::pipeline::{asks_for, context};
use crate::subtitle::{SubtitleEntry, SubtitleStatus, TimePoint};
use crate::text::{cat, clone_opt_text, clone_texts, opt_text};
use crate::translate::{TranslateRequest, TranslateResponse};
use vstd::prelude::*;
use vstd::string::*;

verus! {

/// Where a session stands.
#[derive(Debug, Clone, Copy, PartialEq, Eq, Structural)]
pub enum RealtimeState {
    Idle,
    Connecting,
    Listening,
    Paused,
    Reconnecting,
    Stopped,
    Failed,
}

/// The name under which a state is reported.
pub open spec fn state_name(s: RealtimeState) -> Seq<char> {
    match s {
        RealtimeState::Idle => "idle"@,
        RealtimeState::Connecting => "connecting"@,
        RealtimeState::Listening => "listening"@,
        RealtimeState::Paused => "paused"@,
        RealtimeState::Reconnecting => "reconnecting"@,
        RealtimeState::Stopped => "stopped"@,
        RealtimeState::Failed => "failed"@,
    }
}

impl RealtimeState {
    /// The name under which this state is reported.
    pub fn as_str(&self) -> (r: &'static str)
        ensures
            r@ == state_name(*self),
            *self == RealtimeState::Idle ==> r@ == "idle"@,
            *self == RealtimeState::Connecting ==> r@ == "connecting"@,
            *self == RealtimeState::Listening ==> r@ == "listening"@,
            *self == RealtimeState::Paused ==> r@ == "paused"@,
            *self == RealtimeState::Reconnecting ==> r@ == "reconnecting"@,
            *self == RealtimeState::Stopped ==> r@ == "stopped"@,
            *self == RealtimeState::Failed ==> r@ == "failed"@,
    {
        match self {
            RealtimeState::Idle => "idle",
            RealtimeState::Connecting => "connecting",
            RealtimeState::Listening => "listening",
            RealtimeState::Paused => "paused",
            RealtimeState::Reconnecting => "reconnecting",
            RealtimeState::Stopped => "stopped",
            RealtimeState::Failed => "failed",
        }
    }
}

/// The sentence that is being spoken, as far as it is recognised.
#[derive(Debug)]
pub struct PartialEntry<S> {
    pub source: String,
    pub ts_start: S,
    pub ts_end: S,
}

/// A time of the recogniser: as it was reported, and on the timeline of the
/// whole session.
#[derive(Debug, Clone, Copy)]
pub struct EventTime<S> {
    pub reported: S,
    pub adjusted: TimePoint<S>,
}

/// A sentence to translate.
#[derive(Debug)]
pub struct TranslateJob {
    pub entry_index: usize,
    pub source: String,
}

/// Tells the sentence that is being spoken.
#[derive(Debug)]
pub struct SubtitlePartialEvent<S> {
    pub entry_index: usize,
    pub source: String,
    pub ts_start: S,
    pub ts_end: S,
}

/// Tells a finished sentence.
#[derive(Debug)]
pub struct SubtitleFinalEvent<S> {
    pub entry_index: usize,
    pub entry: SubtitleEntry<S>,
}

/// Tells a translation.
#[derive(Debug)]
pub struct TranslationEvent {
    pub entry_index: usize,
    pub translated: String,
}

/// Tells where a session stands, and after a failure why.
#[derive(Debug)]
pub struct RealtimeStateEvent {
    pub state: RealtimeState,
    pub session_id: Option<String>,
    pub error: Option<String>,
}

impl RealtimeStateEvent {
    /// A session has come to a state.
    pub fn new(state: RealtimeState, session_id: Option<String>) -> (r: Self)
        ensures
            r.state == state,
            r.session_id == session_id,
            r.error is None,
    {
        RealtimeStateEvent { state, session_id, error: None }
    }

    /// A session has failed.
    pub fn failed(message: String, session_id: Option<String>) -> (r: Self)
        ensures
            r.state == RealtimeState::Failed,
            r.session_id == session_id,
            r.error == Some(message),
    {
        RealtimeStateEvent {
            state: RealtimeState::Failed,
            session_id,
            error: Some(message),
        }
    }
}

/// An event for the user interface.
#[derive(Debug)]
pub enum RealtimeEvent<S> {
    Partial(SubtitlePartialEvent<S>),
    Final(SubtitleFinalEvent<S>),
    State(RealtimeStateEvent),
}

/// What recognition leads to. The event is told, the job is queued and the
/// line is appended to the log, in this order.
#[derive(Debug)]
pub struct AsrStep<S> {
    pub emit: Option<RealtimeEvent<S>>,
    pub job: Option<TranslateJob>,
    pub append: Option<SegmentProgress<TimePoint<S>>>,
    /// Tell the recogniser that no more audio comes.
    pub finish: bool,
    /// Recognition is over.
    pub ends: bool,
}

/// What happened to recognition.
#[derive(Debug)]
pub enum AsrInput<S> {
    /// The session was cancelled.
    Cancelled,
    /// Audio was handed on.
    AudioSent,
    /// Audio could not be handed on.
    AudioFailed(Error),
    /// There is no more audio.
    AudioClosed,
    /// The recogniser reports something.
    Event(AsrEvent<EventTime<S>>),
    /// The recogniser can no longer be read.
    StreamFailed(Error),
}

/// What a translation leads to: the event is told, and the line is appended to
/// the log.
#[derive(Debug)]
pub struct TranslateStep<S> {
    pub emit: Option<TranslationEvent>,
    pub append: Option<SegmentProgress<TimePoint<S>>>,
}

/// What stopping a session leads to, in this order: capturing stops, the
/// recogniser is told that no more audio comes, what waits for translation is
/// translated, and the log is written anew.
#[derive(Debug, Clone, Copy, PartialEq, Eq, Structural)]
pub struct StopPlan {
    pub stop_capture: bool,
    pub finish_asr: bool,
    pub drain_translations: bool,
    pub save: bool,
}

/// How long the sentence that is being spoken is not told again, in
/// milliseconds.
pub const PARTIAL_INTERVAL_MS: u64 = 200;

/// The pipeline of one session. `S` is how the caller counts seconds.
pub struct RealtimePipeline<S> {
    state: RealtimeState,
    entries: Vec<SubtitleEntry<S>>,
    partial: Option<PartialEntry<S>>,
    config: AppConfig,
    source_language: String,
    session_id: String,
    capture_target_ids: Vec<String>,
    session_offset_ms: i64,
    connectable: bool,
    checkpoint: Option<Checkpoint<TimePoint<S>>>,
    entry_index: usize,
    previous: Vec<String>,
}

/// What a pipeline knows.
#[verifier::ext_equal]
pub struct RealtimeView<S> {
    pub state: RealtimeState,
    /// The finished sentences.
    pub entries: Seq<SubtitleEntry<S>>,
    /// The sentence that is being spoken.
    pub partial: Option<PartialEntry<S>>,
    pub config: AppConfig,
    pub source_language: String,
    pub session_id: String,
    pub capture_target_ids: Seq<String>,
    /// How far the session had come when it was paused last.
    pub session_offset_ms: i64,
    /// Whether there is something to connect to.
    pub connectable: bool,
    pub checkpoint: Option<CheckpointView<TimePoint<S>>>,
    /// The number of the next sentence.
    pub entry_index: usize,
    /// The sentences that were translated, in order.
    pub previous: Seq<String>,
}

/// How the audio of a session is recognised.
pub open spec fn is_stream_asr_config(c: AsrConfig, config: AppConfig, language: String) -> bool {
    &&& c.provider == config.asr.provider
    &&& c.model == config.asr.realtime_model
    &&& c.api_key == config.asr.api_key
    &&& c.language == language
    &&& c.workspace_id == config.asr.workspace_id
    &&& !c.diarization
}

/// Whether `e` is the subtitle of a finished sentence that has no translation
/// yet.
pub open spec fn is_final_entry<S>(
    e: SubtitleEntry<S>,
    text: String,
    start: TimePoint<S>,
    end: TimePoint<S>,
) -> bool {
    &&& e.content_start == start.seconds
    &&& e.content_end == end.seconds
    &&& e.wall_start == start.wall_ms
    &&& e.wall_end == end.wall_ms
    &&& e.source == text
    &&& e.translated@ == ""@
    &&& e.status == SubtitleStatus::Final
}

/// The line for a finished sentence.
pub open spec fn pending_line<S>(
    index: usize,
    text: String,
    start: TimePoint<S>,
    end: TimePoint<S>,
) -> SegmentProgress<TimePoint<S>> {
    SegmentProgress {
        segment_id: index,
        start_time: Some(start),
        end_time: Some(end),
        status: SegmentStatus::Pending,
        source: Some(text),
        translated: None,
        fallback: false,
    }
}

/// The line for a translation.
pub open spec fn completed_line<S>(index: usize, translated: String) -> SegmentProgress<
    TimePoint<S>,
> {
    SegmentProgress {
        segment_id: index,
        start_time: None,
        end_time: None,
        status: SegmentStatus::Completed,
        source: None,
        translated: Some(translated),
        fallback: false,
    }
}

/// Whether a checkpoint has taken in a line, where there is one.
pub open spec fn took_in<T>(
    before: Option<CheckpointView<T>>,
    line: Option<SegmentProgress<T>>,
    after: Option<CheckpointView<T>>,
) -> bool {
    match before {
        None => line is None && after is None,
        Some(b) => {
            &&& line is Some
            &&& after is Some
            &&& after->0 == (CheckpointView { segments: after->0.segments, ..b })
            &&& folds_to(as_records(b.segments).push(line), after->0.segments)
        },
    }
}

/// Whether an event says that the session has failed, and why.
pub open spec fn is_failure<S>(emit: Option<RealtimeEvent<S>>, text: Seq<char>) -> bool {
    emit matches Some(RealtimeEvent::State(e)) && e.state == RealtimeState::Failed
        && e.session_id is None && opt_text(e.error) == Some(text)
}

impl<S: Copy> View for RealtimePipeline<S> {
    type V = RealtimeView<S>;

    closed spec fn view(&self) -> RealtimeView<S> {
        RealtimeView {
            state: self.state,
            entries: self.entries@,
            partial: self.partial,
            config: self.config,
            source_language: self.source_language,
            session_id: self.session_id,
            capture_target_ids: self.capture_target_ids@,
            session_offset_ms: self.session_offset_ms,
            connectable: self.connectable,
            checkpoint: match self.checkpoint {
                Some(c) => Some(c@),
                None => None,
            },
            entry_index: self.entry_index,
            previous: self.previous@,
        }
    }
}

impl<S: Copy> RealtimePipeline<S> {
    /// Sentences are numbered no further than there are subtitles, and the
    /// sentences of the checkpoint are in order.
    pub closed spec fn wf(self) -> bool {
        &&& self.entry_index <= self.entries@.len()
        &&& self.checkpoint is Some ==> ascending(self.checkpoint->0.segments@)
    }

    /// A pipeline for one session.
    pub fn new(
        config: AppConfig,
        source_language: String,
        session_id: String,
        capture_target_ids: Vec<String>,
    ) -> (r: Self)
        ensures
            r.wf(),
            r@ == (RealtimeView::<S> {
                state: RealtimeState::Idle,
                entries: Seq::empty(),
                partial: None,
                config,
                source_language,
                session_id,
                capture_target_ids: capture_target_ids@,
                session_offset_ms: 0,
                connectable: true,
                checkpoint: None,
                entry_index: 0,
                previous: Seq::empty(),
            }),
    {
        RealtimePipeline {
            state: RealtimeState::Idle,
            entries: Vec::new(),
            partial: None,
            config,
            source_language,
            session_id,
            capture_target_ids,
            session_offset_ms: 0,
            connectable: true,
            checkpoint: None,
            entry_index: 0,
            previous: Vec::new(),
        }
    }

    /// A pipeline that has nothing to connect to.
    pub fn new_for_test() -> (r: Self)
        ensures
            r.wf(),
            r@.state == RealtimeState::Idle,
            r@.entries.len() == 0,
            r@.partial is None,
            r@.config@ == default_config(),
            r@.source_language@ == "auto"@,
            r@.session_id@ == "test-session"@,
            r@.capture_target_ids.len() == 0,
            r@.session_offset_ms == 0,
            !r@.connectable,
            r@.checkpoint is None,
            r@.entry_index == 0,
            r@.previous.len() == 0,
    {
        RealtimePipeline {
            state: RealtimeState::Idle,
            entries: Vec::new(),
            partial: None,
            config: AppConfig::default(),
            source_language: "auto".to_owned(),
            session_id: "test-session".to_owned(),
            capture_target_ids: Vec::new(),
            session_offset_ms: 0,
            connectable: false,
            checkpoint: None,
            entry_index: 0,
            previous: Vec::new(),
        }
    }

    /// Where the session stands.
    pub fn get_state(&self) -> (r: RealtimeState)
        ensures
            r == self@.state,
    {
        self.state
    }

    /// The finished sentences.
    pub fn entries(&self) -> (r: &Vec<SubtitleEntry<S>>)
        ensures
            r@ == self@.entries,
    {
        &self.entries
    }

    /// The sentence that is being spoken.
    pub fn partial(&self) -> (r: &Option<PartialEntry<S>>)
        ensures
            *r == self@.partial,
    {
        &self.partial
    }

    /// The id of the session.
    pub fn session_id(&self) -> (r: &str)
        ensures
            r@ == self@.session_id@,
    {
        self.session_id.as_str()
    }

    /// How far the session had come when it was paused last. The times of the
    /// recogniser are moved by it.
    pub fn session_offset_ms(&self) -> (r: i64)
        ensures
            r == self@.session_offset_ms,
    {
        self.session_offset_ms
    }

    /// The checkpoint of the session.
    pub fn checkpoint(&self) -> (r: &Option<Checkpoint<TimePoint<S>>>)
        ensures
            match *r {
                Some(c) => self@.checkpoint == Some(c@),
                None => self@.checkpoint is None,
            },
    {
        &self.checkpoint
    }

    /// Gives the session its checkpoint: the one that was loaded, or a new
    /// one. A new one is written at once: a log whose first line is not that
    /// of its task cannot be read. Tells whether it has to be.
    pub fn init_checkpoint_in(
        &mut self,
        loaded: Option<Checkpoint<TimePoint<S>>>,
        fingerprint: CheckpointFingerprint,
    ) -> (r: bool)
        requires
            old(self).wf(),
            loaded is Some ==> ascending(loaded->0.segments@),
        ensures
            final(self).wf(),
            r == (loaded is None),
            final(self)@.checkpoint is Some,
            final(self)@ == (RealtimeView { checkpoint: final(self)@.checkpoint, ..old(self)@ }),
            match loaded {
                Some(c) => final(self)@.checkpoint->0 == c@,
                None => {
                    &&& final(self)@.checkpoint->0.task_id == old(self)@.session_id
                    &&& final(self)@.checkpoint->0.video_path@ == "realtime://"@ + old(
                        self,
                    )@.session_id@
                    &&& final(self)@.checkpoint->0.fingerprint == fingerprint
                    &&& final(self)@.checkpoint->0.segments.len() == 0
                },
            },
    {
        match loaded {
            Some(c) => {
                self.checkpoint = Some(c);
                false
            },
            None => {
                let path = cat("realtime://", self.session_id.as_str());
                self.checkpoint = Some(
                    Checkpoint::new(self.session_id.clone(), path, fingerprint),
                );
                true
            },
        }
    }

    fn asr_config(&self) -> (r: AsrConfig)
        ensures
            is_stream_asr_config(r, self@.config, self@.source_language),
    {
        AsrConfig {
            provider: self.config.asr.provider.clone(),
            model: self.config.asr.realtime_model.clone(),
            api_key: self.config.asr.api_key.clone(),
            language: self.source_language.clone(),
            workspace_id: clone_opt_text(&self.config.asr.workspace_id),
            diarization: false,
        }
    }

    /// Begins the session: tells what recogniser to connect to. Only a session
    /// that was not begun or was stopped can begin.
    pub fn start(&mut self) -> (r: Result<AsrConfig, Error>)
        requires
            old(self).wf(),
        ensures
            final(self).wf(),
            if old(self)@.state != RealtimeState::Idle && old(self)@.state
                != RealtimeState::Stopped {
                &&& final(self)@ == old(self)@
                &&& r matches Err(e) && e is AudioSource && e->AudioSource_0@
                    == "Session already running"@
            } else if !old(self)@.connectable {
                &&& final(self)@ == (RealtimeView { state: RealtimeState::Failed, ..old(self)@ })
                &&& r matches Err(e) && e is Asr && e->Asr_0@ == "ASR provider not initialized"@
            } else {
                &&& final(self)@ == (RealtimeView {
                    state: RealtimeState::Connecting,
                    ..old(self)@
                })
                &&& r matches Ok(c) && is_stream_asr_config(
                    c,
                    old(self)@.config,
                    old(self)@.source_language,
                )
            },
            r matches Ok(c) ==> {
                &&& c.provider == old(self)@.config.asr.provider
                &&& c.model == old(self)@.config.asr.realtime_model
                &&& c.api_key == old(self)@.config.asr.api_key
                &&& c.workspace_id == old(self)@.config.asr.workspace_id
                &&& c.language == old(self)@.source_language
                &&& !c.diarization
            },
    {
        if self.state != RealtimeState::Idle && self.state != RealtimeState::Stopped {
            return Err(Error::AudioSource("Session already running".to_owned()));
        }
        if !self.connectable {
            self.state = RealtimeState::Failed;
            return Err(Error::Asr("ASR provider not initialized".to_owned()));
        }
        self.state = RealtimeState::Connecting;
        Ok(self.asr_config())
    }

    /// The recogniser was connected to, or could not be. A session that cannot
    /// connect has failed, so that another can begin; otherwise capturing
    /// begins, with these targets.
    pub fn connect_streams(&mut self, outcome: Result<(), Error>) -> (r: Result<
        Vec<String>,
        Error,
    >)
        requires
            old(self).wf(),
            old(self)@.state == RealtimeState::Connecting,
        ensures
            final(self).wf(),
            match outcome {
                Ok(()) => {
                    &&& final(self)@ == old(self)@
                    &&& r matches Ok(ids) && ids@ == old(self)@.capture_target_ids
                },
                Err(e) => {
                    &&& final(self)@ == (RealtimeView {
                        state: RealtimeState::Failed,
                        ..old(self)@
                    })
                    &&& permits_session(final(self)@.state)
                    &&& r == Err::<Vec<String>, Error>(e)
                },
            },
    {
        match outcome {
            Ok(()) => Ok(clone_texts(&self.capture_target_ids)),
            Err(e) => {
                self.state = RealtimeState::Failed;
                Err(e)
            },
        }
    }

    /// Capturing has begun, or could not. Where it has, the session listens,
    /// and numbers its sentences from the beginning; otherwise it stays as it
    /// is, and whoever began it counts it as failed.
    pub fn capture_started(&mut self, outcome: Result<(), Error>) -> (r: Result<
        RealtimeStateEvent,
        Error,
    >)
        requires
            old(self).wf(),
            old(self)@.state == RealtimeState::Connecting,
        ensures
            final(self).wf(),
            match outcome {
                Ok(()) => {
                    &&& final(self)@ == (RealtimeView {
                        state: RealtimeState::Listening,
                        entry_index: 0,
                        previous: Seq::empty(),
                        ..old(self)@
                    })
                    &&& r matches Ok(e) && e.state == RealtimeState::Listening && e.session_id
                        == Some(old(self)@.session_id) && e.error is None
                },
                Err(e) => {
                    &&& final(self)@ == old(self)@
                    &&& r == Err::<RealtimeStateEvent, Error>(e)
                },
            },
    {
        match outcome {
            Ok(()) => {
                self.state = RealtimeState::Listening;
                self.entry_index = 0;
                self.previous = Vec::new();
                proof {
                    assert(self.previous@ =~= Seq::empty());
                }
                Ok(
                    RealtimeStateEvent::new(
                        RealtimeState::Listening,
                        Some(self.session_id.clone()),
                    ),
                )
            },
            Err(e) => Err(e),
        }
    }

    /// Pauses the session, and remembers how far it has come.
    pub fn pause(&mut self) -> (r: Result<(), Error>)
        requires
            old(self).wf(),
        ensures
            final(self).wf(),
            if old(self)@.state != RealtimeState::Listening {
                &&& final(self)@ == old(self)@
                &&& r matches Err(e) && e is AudioSource && e->AudioSource_0@ == "Not listening"@
            } else {
                &&& final(self)@ == (RealtimeView {
                    state: RealtimeState::Paused,
                    session_offset_ms: if old(self)@.entries.len() > 0 {
                        old(self)@.entries.last().wall_end
                    } else {
                        old(self)@.session_offset_ms
                    },
                    ..old(self)@
                })
                &&& r is Ok
            },
    {
        if self.state != RealtimeState::Listening {
            return Err(Error::AudioSource("Not listening".to_owned()));
        }
        self.state = RealtimeState::Paused;
        let n: usize = self.entries.len();
        if n > 0 {
            self.session_offset_ms = self.entries[n - 1].wall_end;
        }
        Ok(())
    }

    /// Takes up a paused session: tells what recogniser to connect to.
    pub fn resume(&mut self) -> (r: Result<AsrConfig, Error>)
        requires
            old(self).wf(),
        ensures
            final(self).wf(),
            if old(self)@.state != RealtimeState::Paused {
                &&& final(self)@ == old(self)@
                &&& r matches Err(e) && e is AudioSource && e->AudioSource_0@ == "Not paused"@
            } else {
                &&& final(self)@ == (RealtimeView {
                    state: RealtimeState::Reconnecting,
                    ..old(self)@
                })
                &&& if old(self)@.connectable {
                    r matches Ok(c) && is_stream_asr_config(
                        c,
                        old(self)@.config,
                        old(self)@.source_language,
                    )
                } else {
                    r matches Err(e) && e is Asr && e->Asr_0@ == "ASR provider not initialized"@
                }
            },
            r matches Ok(c) ==> {
                &&& c.provider == old(self)@.config.asr.provider
                &&& c.model == old(self)@.config.asr.realtime_model
                &&& c.api_key == old(self)@.config.asr.api_key
                &&& c.workspace_id == old(self)@.config.asr.workspace_id
                &&& c.language == old(self)@.source_language
                &&& !c.diarization
            },
    {
        if self.state != RealtimeState::Paused {
            return Err(Error::AudioSource("Not paused".to_owned()));
        }
        self.state = RealtimeState::Reconnecting;
        if !self.connectable {
            return Err(Error::Asr("ASR provider not initialized".to_owned()));
        }
        Ok(self.asr_config())
    }

    /// The recogniser was connected to again and capturing goes on, or one of
    /// them failed. A session that cannot go on stays as it is.
    pub fn reconnected(&mut self, outcome: Result<(), Error>) -> (r: Result<(), Error>)
        requires
            old(self).wf(),
            old(self)@.state == RealtimeState::Reconnecting,
        ensures
            final(self).wf(),
            r == outcome,
            final(self)@ == (RealtimeView {
                state: if outcome is Ok {
                    RealtimeState::Listening
                } else {
                    RealtimeState::Reconnecting
                },
                ..old(self)@
            }),
    {
        if outcome.is_ok() {
            self.state = RealtimeState::Listening;
        }
        outcome
    }

    /// Stops the session. To stop a session again does nothing.
    pub fn stop(&mut self) -> (r: StopPlan)
        requires
            old(self).wf(),
        ensures
            final(self).wf(),
            final(self)@ == (RealtimeView { state: RealtimeState::Stopped, ..old(self)@ }),
            if old(self)@.state == RealtimeState::Stopped {
                r == (StopPlan {
                    stop_capture: false,
                    finish_asr: false,
                    drain_translations: false,
                    save: false,
                })
            } else {
                r == (StopPlan {
                    stop_capture: true,
                    finish_asr: true,
                    drain_translations: true,
                    save: old(self)@.checkpoint is Some,
                })
            },
    {
        if self.state == RealtimeState::Stopped {
            return StopPlan {
                stop_capture: false,
                finish_asr: false,
                drain_translations: false,
                save: false,
            };
        }
        self.state = RealtimeState::Stopped;
        StopPlan {
            stop_capture: true,
            finish_asr: true,
            drain_translations: true,
            save: self.checkpoint.is_some(),
        }
    }

    /// Folds a line into the checkpoint, where there is one, and gives the
    /// line for the log.
    fn record(&mut self, line: SegmentProgress<TimePoint<S>>) -> (r: Option<
        SegmentProgress<TimePoint<S>>,
    >)
        requires
            old(self).wf(),
        ensures
            final(self).wf(),
            final(self)@ == (RealtimeView { checkpoint: final(self)@.checkpoint, ..old(self)@ }),
            took_in(old(self)@.checkpoint, r, final(self)@.checkpoint),
            r is Some ==> r->0 == line,
            r is Some <==> old(self)@.checkpoint is Some,
    {
        match self.checkpoint.take() {
            Some(c) => {
                let mut c = c;
                c.apply(line.clone());
                self.checkpoint = Some(c);
                Some(line)
            },
            None => None,
        }
    }

    /// Ends recognition with a failure.
    fn fail(&mut self, message: String) -> (r: AsrStep<S>)
        requires
            old(self).wf(),
        ensures
            final(self).wf(),
            final(self)@ == (RealtimeView { state: RealtimeState::Failed, ..old(self)@ }),
            is_failure(r.emit, message@),
            r.job is None,
            r.append is None,
            !r.finish,
            r.ends,
    {
        self.state = RealtimeState::Failed;
        AsrStep {
            emit: Some(RealtimeEvent::State(RealtimeStateEvent::failed(message, None))),
            job: None,
            append: None,
            finish: false,
            ends: true,
        }
    }

    /// The recogniser reports the sentence that is being spoken. It is told
    /// where nothing was told for two hundred milliseconds.
    pub fn on_partial(
        &mut self,
        text: String,
        start: EventTime<S>,
        end: EventTime<S>,
        millis_since_told: u64,
    ) -> (r: AsrStep<S>)
        requires
            old(self).wf(),
        ensures
            final(self).wf(),
            final(self)@ == (RealtimeView {
                partial: Some(
                    PartialEntry {
                        source: text,
                        ts_start: start.adjusted.seconds,
                        ts_end: end.adjusted.seconds,
                    },
                ),
                ..old(self)@
            }),
            r.job is None && r.append is None && !r.finish && !r.ends,
            if millis_since_told >= PARTIAL_INTERVAL_MS {
                r.emit == Some(
                    RealtimeEvent::Partial(
                        SubtitlePartialEvent {
                            entry_index: old(self)@.entry_index,
                            source: text,
                            ts_start: start.reported,
                            ts_end: end.reported,
                        },
                    ),
                )
            } else {
                r.emit is None
            },
            r.emit is Some <==> millis_since_told >= 200,
    {
        self.partial = Some(
            PartialEntry {
                source: text.clone(),
                ts_start: start.adjusted.seconds,
                ts_end: end.adjusted.seconds,
            },
        );
        let emit: Option<RealtimeEvent<S>> = if millis_since_told >= PARTIAL_INTERVAL_MS {
            Some(
                RealtimeEvent::Partial(
                    SubtitlePartialEvent {
                        entry_index: self.entry_index,
                        source: text,
                        ts_start: start.reported,
                        ts_end: end.reported,
                    },
                ),
            )
        } else {
            None
        };
        AsrStep { emit, job: None, append: None, finish: false, ends: false }
    }

    /// The recogniser reports a finished sentence. It becomes a subtitle, is
    /// told, queued for translation and recorded.
    pub fn on_final(&mut self, text: String, start: TimePoint<S>, end: TimePoint<S>) -> (r:
        AsrStep<S>)
        requires
            old(self).wf(),
        ensures
            final(self).wf(),
            final(self)@ == (RealtimeView {
                entries: final(self)@.entries,
                partial: None,
                checkpoint: final(self)@.checkpoint,
                entry_index: (old(self)@.entry_index + 1) as usize,
                ..old(self)@
            }),
            old(self)@.entry_index < usize::MAX,
            final(self)@.entries == old(self)@.entries.push(final(self)@.entries.last()),
            is_final_entry(final(self)@.entries.last(), text, start, end),
            r.emit == Some(
                RealtimeEvent::Final(
                    SubtitleFinalEvent {
                        entry_index: old(self)@.entry_index,
                        entry: final(self)@.entries.last(),
                    },
                ),
            ),
            r.job == Some(TranslateJob { entry_index: old(self)@.entry_index, source: text }),
            r.append == (if old(self)@.checkpoint is Some {
                Some(pending_line(old(self)@.entry_index, text, start, end))
            } else {
                None
            }),
            took_in(old(self)@.checkpoint, r.append, final(self)@.checkpoint),
            !r.finish && !r.ends,
            ({
                let e = final(self)@.entries.last();
                &&& e.content_start == start.seconds && e.content_end == end.seconds
                &&& e.wall_start == start.wall_ms && e.wall_end == end.wall_ms
                &&& e.source == text
                &&& e.translated@.len() == 0
                &&& e.status == SubtitleStatus::Final
            }),
            r.append matches Some(line) ==> {
                &&& line.segment_id == old(self)@.entry_index
                &&& line.start_time == Some(start) && line.end_time == Some(end)
                &&& line.source == Some(text)
                &&& line.status == SegmentStatus::Pending && line.translated is None
                &&& !line.fallback
            },
    {
        proof {
            reveal_strlit("");
        }
        let index: usize = self.entry_index;
        let entry = SubtitleEntry {
            content_start: start.seconds,
            content_end: end.seconds,
            wall_start: start.wall_ms,
            wall_end: end.wall_ms,
            source: text.clone(),
            translated: "".to_owned(),
            status: SubtitleStatus::Final,
        };
        self.entries.push(entry.clone());
        proof {
            assert(self.entries@.len() == self.entries.len());
        }
        self.partial = None;
        self.entry_index = index + 1;
        let line = SegmentProgress {
            segment_id: index,
            start_time: Some(start),
            end_time: Some(end),
            status: SegmentStatus::Pending,
            source: Some(text.clone()),
            translated: None,
            fallback: false,
        };
        let append = self.record(line);
        AsrStep {
            emit: Some(RealtimeEvent::Final(SubtitleFinalEvent { entry_index: index, entry })),
            job: Some(TranslateJob { entry_index: index, source: text }),
            append,
            finish: false,
            ends: false,
        }
    }

    /// What happened to recognition is taken in. `millis_since_told` is how
    /// long ago the sentence that is being spoken was told last.
    pub fn on_asr(&mut self, input: AsrInput<S>, millis_since_told: u64) -> (r: AsrStep<S>)
        requires
            old(self).wf(),
        ensures
            final(self).wf(),
            match input {
                AsrInput::Cancelled => {
                    &&& final(self)@ == old(self)@
                    &&& r.emit is None && r.job is None && r.append is None && r.finish && r.ends
                },
                AsrInput::AudioSent => {
                    &&& final(self)@ == old(self)@
                    &&& r.emit is None && r.job is None && r.append is None && !r.finish && !r.ends
                },
                AsrInput::AudioFailed(e) => {
                    &&& final(self)@ == (RealtimeView {
                        state: RealtimeState::Failed,
                        ..old(self)@
                    })
                    &&& is_failure(r.emit, "ASR send error: "@ + error_text(e))
                    &&& r.job is None && r.append is None && !r.finish && r.ends
                },
                AsrInput::AudioClosed => {
                    &&& final(self)@ == old(self)@
                    &&& r.emit is None && r.job is None && r.append is None && r.finish && !r.ends
                },
                AsrInput::Event(AsrEvent::Partial { text, ts_start, ts_end }) => {
                    &&& final(self)@ == (RealtimeView {
                        partial: Some(
                            PartialEntry {
                                source: text,
                                ts_start: ts_start.adjusted.seconds,
                                ts_end: ts_end.adjusted.seconds,
                            },
                        ),
                        ..old(self)@
                    })
                    &&& r.job is None && r.append is None && !r.finish && !r.ends
                    &&& if millis_since_told >= PARTIAL_INTERVAL_MS {
                        r.emit == Some(
                            RealtimeEvent::Partial(
                                SubtitlePartialEvent {
                                    entry_index: old(self)@.entry_index,
                                    source: text,
                                    ts_start: ts_start.reported,
                                    ts_end: ts_end.reported,
                                },
                            ),
                        )
                    } else {
                        r.emit is None
                    }
                },
                AsrInput::Event(AsrEvent::Final { text, ts_start, ts_end }) => {
                    &&& old(self)@.entry_index < usize::MAX
                    &&& final(self)@ == (RealtimeView {
                        entries: final(self)@.entries,
                        partial: None,
                        checkpoint: final(self)@.checkpoint,
                        entry_index: (old(self)@.entry_index + 1) as usize,
                        ..old(self)@
                    })
                    &&& final(self)@.entries == old(self)@.entries.push(
                        final(self)@.entries.last(),
                    )
                    &&& is_final_entry(
                        final(self)@.entries.last(),
                        text,
                        ts_start.adjusted,
                        ts_end.adjusted,
                    )
                    &&& r.emit == Some(
                        RealtimeEvent::Final(
                            SubtitleFinalEvent {
                                entry_index: old(self)@.entry_index,
                                entry: final(self)@.entries.last(),
                            },
                        ),
                    )
                    &&& r.job == Some(
                        TranslateJob { entry_index: old(self)@.entry_index, source: text },
                    )
                    &&& r.append == (if old(self)@.checkpoint is Some {
                        Some(
                            pending_line(
                                old(self)@.entry_index,
                                text,
                                ts_start.adjusted,
                                ts_end.adjusted,
                            ),
                        )
                    } else {
                        None
                    })
                    &&& took_in(old(self)@.checkpoint, r.append, final(self)@.checkpoint)
                    &&& !r.finish && !r.ends
                },
                AsrInput::Event(AsrEvent::Error { code, message }) => {
                    &&& final(self)@ == (RealtimeView {
                        state: RealtimeState::Failed,
                        ..old(self)@
                    })
                    &&& is_failure(r.emit, "ASR error: "@ + message@)
                    &&& r.job is None && r.append is None && !r.finish && r.ends
                },
                AsrInput::Event(AsrEvent::EndOfStream) => {
                    &&& final(self)@ == old(self)@
                    &&& r.emit is None && r.job is None && r.append is None && !r.finish && r.ends
                },
                AsrInput::StreamFailed(e) => {
                    &&& final(self)@ == (RealtimeView {
                        state: RealtimeState::Failed,
                        ..old(self)@
                    })
                    &&& is_failure(r.emit, error_text(e))
                    &&& r.job is None && r.append is None && !r.finish && r.ends
                },
            },
            input matches AsrInput::Event(AsrEvent::Partial { text, ts_start, ts_end }) ==> (
            r.emit is Some <==> millis_since_told >= 200),
            input matches AsrInput::Event(AsrEvent::Final { text, ts_start, ts_end }) ==> {
                let e = final(self)@.entries.last();
                &&& e.content_start == ts_start.adjusted.seconds
                &&& e.content_end == ts_end.adjusted.seconds
                &&& e.wall_start == ts_start.adjusted.wall_ms
                &&& e.wall_end == ts_end.adjusted.wall_ms
                &&& e.source == text
                &&& e.translated@.len() == 0
                &&& e.status == SubtitleStatus::Final
                &&& r.append matches Some(line) ==> {
                    &&& line.segment_id == old(self)@.entry_index
                    &&& line.start_time == Some(ts_start.adjusted)
                    &&& line.end_time == Some(ts_end.adjusted)
                    &&& line.source == Some(text)
                    &&& line.status == SegmentStatus::Pending && line.translated is None
                    &&& !line.fallback
                }
            },
            r.emit matches Some(RealtimeEvent::State(e)) ==> e.state == RealtimeState::Failed
                && e.session_id is None && e.error is Some && r.ends && final(self)@.state
                == RealtimeState::Failed,
    {
        match input {
            AsrInput::Cancelled => AsrStep {
                emit: None,
                job: None,
                append: None,
                finish: true,
                ends: true,
            },
            AsrInput::AudioSent => AsrStep {
                emit: None,
                job: None,
                append: None,
                finish: false,
                ends: false,
            },
            AsrInput::AudioFailed(e) => {
                let cause = e.message();
                self.fail(cat("ASR send error: ", cause.as_str()))
            },
            AsrInput::AudioClosed => AsrStep {
                emit: None,
                job: None,
                append: None,
                finish: true,
                ends: false,
            },
            AsrInput::Event(event) => match event {
                AsrEvent::Partial { text, ts_start, ts_end } => self.on_partial(
                    text,
                    ts_start,
                    ts_end,
                    millis_since_told,
                ),
                AsrEvent::Final { text, ts_start, ts_end } => self.on_final(
                    text,
                    ts_start.adjusted,
                    ts_end.adjusted,
                ),
                AsrEvent::Error { code: _, message } => self.fail(
                    cat("ASR error: ", message.as_str()),
                ),
                AsrEvent::EndOfStream => AsrStep {
                    emit: None,
                    job: None,
                    append: None,
                    finish: false,
                    ends: true,
                },
            },
            AsrInput::StreamFailed(e) => self.fail(e.message()),
        }
    }

    /// The request for the translation of a sentence.
    pub fn translate_request(&self, job: &TranslateJob) -> (r: TranslateRequest)
        ensures
            asks_for(
                r,
                job.source,
                self@.source_language@,
                self@.config.translate.target_lang,
                self@.previous,
            ),
            r.text == job.source,
            r.source_lang == self@.source_language,
            r.target_lang == self@.config.translate.target_lang,
            r.glossary is None,
            r.context@.len() == (if self@.previous.len() < 10 {
                self@.previous.len()
            } else {
                10
            }),
            forall|i: int|
                0 <= i < r.context@.len() ==> #[trigger] r.context@[i]
                    == self@.previous[self@.previous.len() - 1 - i],
    {
        TranslateRequest {
            text: job.source.clone(),
            source_lang: self.source_language.clone(),
            target_lang: self.config.translate.target_lang.clone(),
            context: context(&self.previous),
            glossary: None,
        }
    }

    /// Gives a subtitle its translation, where there is such a subtitle.
    fn set_translation(&mut self, index: usize, text: String)
        requires
            old(self).wf(),
        ensures
            final(self).wf(),
            final(self)@ == (RealtimeView {
                entries: with_translation(old(self)@.entries, index as int, text),
                ..old(self)@
            }),
    {
        if index < self.entries.len() {
            let mut e = self.entries[index].clone();
            e.translated = text;
            self.entries[index] = e;
        }
        proof {
            assert(self.entries@ =~= with_translation(old(self).entries@, index as int, text));
        }
    }

    /// A sentence was translated: its subtitle gets the translation, which is
    /// told and recorded, and the sentence counts as context from now on.
    pub fn translated(&mut self, job: TranslateJob, response: TranslateResponse) -> (r:
        TranslateStep<S>)
        requires
            old(self).wf(),
        ensures
            final(self).wf(),
            final(self)@ == (RealtimeView {
                entries: with_translation(
                    old(self)@.entries,
                    job.entry_index as int,
                    response.translated_text,
                ),
                checkpoint: final(self)@.checkpoint,
                previous: old(self)@.previous.push(job.source),
                ..old(self)@
            }),
            r.emit == Some(
                TranslationEvent {
                    entry_index: job.entry_index,
                    translated: response.translated_text,
                },
            ),
            r.append == (if old(self)@.checkpoint is Some {
                Some(completed_line::<S>(job.entry_index, response.translated_text))
            } else {
                None
            }),
            took_in(old(self)@.checkpoint, r.append, final(self)@.checkpoint),
            final(self)@.entries.len() == old(self)@.entries.len(),
            forall|i: int|
                0 <= i < old(self)@.entries.len() ==> {
                    let before = old(self)@.entries[i];
                    let after = #[trigger] final(self)@.entries[i];
                    &&& after.source == before.source && after.status == before.status
                    &&& after.content_start == before.content_start && after.content_end
                        == before.content_end
                    &&& after.wall_start == before.wall_start && after.wall_end == before.wall_end
                    &&& after.translated == (if i == job.entry_index {
                        response.translated_text
                    } else {
                        before.translated
                    })
                },
            r.append matches Some(line) ==> {
                &&& line.segment_id == job.entry_index
                &&& line.translated == Some(response.translated_text)
                &&& line.status == SegmentStatus::Completed && !line.fallback
                &&& line.source is None && line.start_time is None && line.end_time is None
            },
    {
        let text = response.translated_text;
        self.set_translation(job.entry_index, text.clone());
        let line = SegmentProgress {
            segment_id: job.entry_index,
            start_time: None,
            end_time: None,
            status: SegmentStatus::Completed,
            source: None,
            translated: Some(text.clone()),
            fallback: false,
        };
        let append = self.record(line);
        self.previous.push(job.source);
        TranslateStep {
            emit: Some(TranslationEvent { entry_index: job.entry_index, translated: text }),
            append,
        }
    }

    /// A sentence could not be translated. Its subtitle says so; nothing is
    /// recorded, and the session goes on.
    pub fn translation_failed(&mut self, job: TranslateJob) -> (r: TranslateStep<S>)
        requires
            old(self).wf(),
        ensures
            final(self).wf(),
            r.emit is None,
            r.append is None,
            exists|text: String| #[trigger]
                text@ == "[翻译失败]"@ && final(self)@ == (RealtimeView {
                    entries: with_translation(old(self)@.entries, job.entry_index as int, text),
                    ..old(self)@
                }),
    {
        let text = "[翻译失败]".to_owned();
        let ghost kept = text;
        self.set_translation(job.entry_index, text);
        proof {
            assert(kept@ == "[翻译失败]"@);
        }
        TranslateStep { emit: None, append: None }
    }
}

/// The subtitles, of which one gets a translation where it is there.
pub open spec fn with_translation<S>(
    entries: Seq<SubtitleEntry<S>>,
    index: int,
    text: String,
) -> Seq<SubtitleEntry<S>> {
    if 0 <= index < entries.len() {
        entries.update(index, SubtitleEntry { translated: text, ..entries[index] })
    } else {
        entries
    }
}

/// The log keeps up with the session: where the log folds to the checkpoint,
/// the log with the line that a step appends folds to the checkpoint after
/// that step.
pub proof fn recorded_line_keeps_log_in_step<T>(
    records: Seq<Option<SegmentProgress<T>>>,
    before: CheckpointView<T>,
    line: SegmentProgress<T>,
    after: Option<CheckpointView<T>>,
)
    requires
        folds_to(records, before.segments),
        took_in(Some(before), Some(line), after),
    ensures
        after is Some,
        folds_to(records.push(Some(line)), after->0.segments),
{
    applied_record_keeps_log_in_step(records, before.segments, line, after->0.segments);
}

/// Whether another session can begin while one is in this state.
pub open spec fn permits_session(state: RealtimeState) -> bool {
    state == RealtimeState::Idle || state == RealtimeState::Stopped || state
        == RealtimeState::Failed
}

/// Whether a session in this state is stopped when the window is closed.
pub fn is_active(state: RealtimeState) -> (r: bool)
    ensures
        r == (state == RealtimeState::Listening || state == RealtimeState::Paused || state
            == RealtimeState::Connecting),
{
    match state {
        RealtimeState::Listening => true,
        RealtimeState::Paused => true,
        RealtimeState::Connecting => true,
        _ => false,
    }
}

/// What a failed session tells is that it has failed, and why, of no session
/// in particular.
pub proof fn failure_says_why<S>(emit: Option<RealtimeEvent<S>>, text: Seq<char>)
    requires
        is_failure(emit, text),
    ensures
        emit matches Some(RealtimeEvent::State(e)) && e.state == RealtimeState::Failed
            && e.session_id is None && e.error is Some && e.error->0@ == text,
{
}

/// A translation changes the subtitle that it is for and no other, and of that
/// one nothing but the translation. One for a subtitle that is not there
/// changes nothing.
pub proof fn translation_changes_one_subtitle<S>(
    entries: Seq<SubtitleEntry<S>>,
    index: int,
    text: String,
)
    ensures
        with_translation(entries, index, text).len() == entries.len(),
        forall|i: int|
            0 <= i < entries.len() && i != index ==> #[trigger] with_translation(
                entries,
                index,
                text,
            )[i] == entries[i],
        0 <= index < entries.len() ==> {
            let e = with_translation(entries, index, text)[index];
            &&& e.translated == text
            &&& e.source == entries[index].source && e.status == entries[index].status
            &&& e.content_start == entries[index].content_start
            &&& e.content_end == entries[index].content_end
            &&& e.wall_start == entries[index].wall_start
            &&& e.wall_end == entries[index].wall_end
        },
{
}

/// No second session begins while one connects, listens, is paused or
/// reconnects.
pub proof fn sessions_exclude_each_other(state: RealtimeState)
    ensures
        !permits_session(state) <==> (state is Connecting || state is Listening || state is Paused
            || state is Reconnecting),
{
}

} // verus!
