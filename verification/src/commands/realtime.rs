//! What the user interface asks of realtime sessions, and what it is told.

use crate::audio::capture::{kind_name, CaptureTarget};
use crate::checkpoint::{CheckpointFingerprint, FingerprintView};
use crate::config::AppConfig;
use crate::error::{error_text, Error};
use crate::pipeline::realtime::{permits_session, state_name, RealtimeState};
use crate::text::{cat, clone_opt_text};
use vstd::prelude::*;
use vstd::string::*;

verus! {

/// How a session stands, as it is shown.
#[derive(Debug)]
pub struct RealtimeStateInfo {
    pub state: String,
    pub session_id: Option<String>,
    pub entry_count: usize,
    pub error: Option<String>,
}

/// Something that can be captured, as it is shown.
#[derive(Debug)]
pub struct CaptureTargetInfo {
    pub id: String,
    pub name: String,
    pub kind: String,
    pub icon_path: Option<String>,
}

/// Whether a session can begin. One that has failed is no obstacle.
pub fn start_realtime_session(current: RealtimeState) -> (r: Result<(), String>)
    ensures
        match r {
            Ok(()) => permits_session(current),
            Err(e) => !permits_session(current) && e@ == "已有活跃的实时会话"@,
        },
        r is Ok <==> current is Idle || current is Stopped || current is Failed,
{
    match current {
        RealtimeState::Idle => Ok(()),
        RealtimeState::Stopped => Ok(()),
        RealtimeState::Failed => Ok(()),
        _ => Err("已有活跃的实时会话".to_owned()),
    }
}

/// How a session stands for the user, given how its pipeline stands. One whose
/// start has failed counts as failed until it is stopped.
pub open spec fn session_state_of(pipeline: RealtimeState, start_failed: bool) -> RealtimeState {
    if start_failed && pipeline != RealtimeState::Stopped {
        RealtimeState::Failed
    } else {
        pipeline
    }
}

/// How a session stands for the user, given how its pipeline stands.
pub fn session_state(pipeline: RealtimeState, start_failed: bool) -> (r: RealtimeState)
    ensures
        r == session_state_of(pipeline, start_failed),
        !start_failed ==> r == pipeline,
        pipeline is Stopped ==> r is Stopped,
        start_failed && !(pipeline is Stopped) ==> r is Failed,
{
    if start_failed && pipeline != RealtimeState::Stopped {
        RealtimeState::Failed
    } else {
        pipeline
    }
}

/// A session whose start has failed does not stand in the way of another,
/// wherever its pipeline stopped.
pub proof fn failed_start_permits_another(pipeline: RealtimeState)
    ensures
        permits_session(session_state_of(pipeline, true)),
{
}

/// The id of a session that begins at the given time, written as date and
/// time of day.
pub fn session_id_at(timestamp: &str) -> (r: String)
    ensures
        r@ == "realtime-"@ + timestamp@,
{
    cat("realtime-", timestamp)
}

/// Whether a text ends in a date and a time of day: the year, in four digits
/// at least, the month and the day, a hyphen, and hours, minutes and seconds.
pub open spec fn is_timestamp(t: Seq<char>) -> bool {
    &&& t.len() >= 15
    &&& t[t.len() - 7] == '-'
    &&& forall|i: int|
        t.len() - 15 <= i < t.len() && i != t.len() - 7 ==> '0' <= #[trigger] t[i] <= '9'
}

/// `chrono::Local::now`, formatted as date and time of day. A year of more than
/// four digits has a sign in front. Which time it is cannot be foretold.
#[verifier::external_body]
fn local_timestamp() -> (r: String)
    ensures
        is_timestamp(r@),
{
    chrono::Local::now().format("%Y%m%d-%H%M%S").to_string()
}

/// The id of a session that begins now.
pub fn new_session_id() -> (r: String)
    ensures
        exists|timestamp: String|
            is_timestamp(timestamp@) && r@ == "realtime-"@ + #[trigger] timestamp@,
{
    let timestamp = local_timestamp();
    session_id_at(timestamp.as_str())
}

/// What is told where capturing cannot begin.
pub fn capture_failure(error: &Error) -> (r: String)
    ensures
        r@ == "音频采集启动失败："@ + error_text(*error),
{
    let cause = error.message();
    cat("音频采集启动失败：", cause.as_str())
}

/// The settings that the results of a session depend on.
pub fn session_fingerprint(config: &AppConfig, source_language: &str) -> (r: CheckpointFingerprint)
    ensures
        r@ == (FingerprintView {
            source_language: source_language@,
            target_lang: config.translate.target_lang@,
            translate_provider: config.translate.provider@,
            translate_model: config.translate.model@,
            asr_model: config.asr.realtime_model@,
        }),
        r.source_language@ == source_language@,
        r.target_lang == config.translate.target_lang,
        r.translate_provider == config.translate.provider,
        r.translate_model == config.translate.model,
        r.asr_model == config.asr.realtime_model,
{
    CheckpointFingerprint {
        source_language: source_language.to_owned(),
        target_lang: config.translate.target_lang.clone(),
        translate_provider: config.translate.provider.clone(),
        translate_model: config.translate.model.clone(),
        asr_model: config.asr.realtime_model.clone(),
    }
}

/// What is shown of a session. Why it failed is shown only where it has.
pub fn get_realtime_state(
    state: RealtimeState,
    session_id: &Option<String>,
    entry_count: usize,
    last_error: &Option<String>,
) -> (r: RealtimeStateInfo)
    ensures
        r.state@ == state_name(state),
        r.session_id == *session_id,
        r.entry_count == entry_count,
        r.error == (if state == RealtimeState::Failed {
            *last_error
        } else {
            None
        }),
        state is Idle ==> r.state@ == "idle"@,
        state is Connecting ==> r.state@ == "connecting"@,
        state is Listening ==> r.state@ == "listening"@,
        state is Paused ==> r.state@ == "paused"@,
        state is Reconnecting ==> r.state@ == "reconnecting"@,
        state is Stopped ==> r.state@ == "stopped"@,
        state is Failed ==> r.state@ == "failed"@,
{
    let error: Option<String> = if state == RealtimeState::Failed {
        clone_opt_text(last_error)
    } else {
        None
    };
    RealtimeStateInfo {
        state: state.as_str().to_owned(),
        session_id: clone_opt_text(session_id),
        entry_count,
        error,
    }
}

/// Whether `i` shows the target `t`.
pub open spec fn shows_target(i: CaptureTargetInfo, t: CaptureTarget) -> bool {
    &&& i.id == t.id
    &&& i.name == t.name
    &&& i.kind@ == kind_name(t.kind)
    &&& i.icon_path == t.icon_path
}

/// What is shown of everything that can be captured.
pub fn list_capture_targets(targets: &Vec<CaptureTarget>) -> (r: Vec<CaptureTargetInfo>)
    ensures
        r@.len() == targets@.len(),
        forall|i: int| 0 <= i < r@.len() ==> shows_target(#[trigger] r@[i], targets@[i]),
        forall|i: int|
            0 <= i < r@.len() ==> {
                let shown = #[trigger] r@[i];
                &&& shown.id == targets@[i].id && shown.name == targets@[i].name
                &&& shown.icon_path == targets@[i].icon_path
                &&& targets@[i].kind is SystemAudio ==> shown.kind@ == "system_audio"@
                &&& targets@[i].kind is Microphone ==> shown.kind@ == "microphone"@
            },
{
    let mut out: Vec<CaptureTargetInfo> = Vec::new();
    let mut i: usize = 0;
    while i < targets.len()
        invariant
            i <= targets.len(),
            out.len() == i,
            forall|j: int| 0 <= j < i ==> shows_target(#[trigger] out@[j], targets@[j]),
        decreases targets.len() - i,
    {
        let t = &targets[i];
        out.push(
            CaptureTargetInfo {
                id: t.id.clone(),
                name: t.name.clone(),
                kind: t.kind.as_str().to_owned(),
                icon_path: clone_opt_text(&t.icon_path),
            },
        );
        i += 1;
    }
    out
}

} // verus!
