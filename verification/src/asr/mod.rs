//! Speech recognition: what is asked of a recogniser and what it reports.

pub mod dashscope;
pub mod dashscope_filetrans;

pub use dashscope::DashScopeAsrProvider;
pub use dashscope_filetrans::DashScopeFileTransProvider;

use crate::text::clone_opt_text;
use vstd::prelude::*;

verus! {

/// What a streaming recogniser reports. `T` is a point in time.
#[derive(Debug, PartialEq)]
pub enum AsrEvent<T> {
    /// The text of the current sentence so far.
    Partial { text: String, ts_start: T, ts_end: T },
    /// The text of a finished sentence.
    Final { text: String, ts_start: T, ts_end: T },
    /// The recogniser has failed.
    Error { code: String, message: String },
    /// There will be no more events.
    EndOfStream,
}

/// How a recogniser is set up for one recording or session.
#[derive(Debug)]
pub struct AsrConfig {
    pub provider: String,
    pub model: String,
    pub api_key: String,
    pub language: String,
    pub workspace_id: Option<String>,
    /// Whether speakers are told apart. Only file transcription heeds it.
    pub diarization: bool,
}

impl Clone for AsrConfig {
    fn clone(&self) -> (r: Self)
        ensures
            r == *self,
    {
        AsrConfig {
            provider: self.provider.clone(),
            model: self.model.clone(),
            api_key: self.api_key.clone(),
            language: self.language.clone(),
            workspace_id: clone_opt_text(&self.workspace_id),
            diarization: self.diarization,
        }
    }
}

/// One recognised sentence of a file.
#[derive(Debug)]
pub struct TranscriptionSentence<T> {
    pub text: String,
    pub begin_time: T,
    pub end_time: T,
}

/// The sentences of a file, in order.
#[derive(Debug)]
pub struct FileTranscriptionResult<T> {
    pub sentences: Vec<TranscriptionSentence<T>>,
}

} // verus!
