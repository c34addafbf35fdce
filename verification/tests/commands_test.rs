use pick_up_sound_text::audio::capture::list_microphone_targets;
use pick_up_sound_text::checkpoint::{
    Checkpoint, CheckpointFingerprint, Fraction, SegmentProgress, SegmentStatus,
};
use pick_up_sound_text::commands::realtime::{
    capture_failure, get_realtime_state, list_capture_targets, new_session_id,
    session_fingerprint, session_id_at, session_state, start_realtime_session,
};
use pick_up_sound_text::commands::{
    build_translate_provider, export_subtitle, file_fingerprint, get_processing_progress,
    get_task_status, is_running, list_recent_tasks, recent_task, test_asr_connection,
    test_translate_connection, ExportFormat, RecentTask, TaskState,
};
use pick_up_sound_text::config::{AppConfig, OssConfig};
use pick_up_sound_text::error::Error;
use pick_up_sound_text::pipeline::realtime::RealtimeState;
use pick_up_sound_text::pipeline::{Phase, PipelineState};

#[test]
fn progress_is_shown_by_state() {
    let half = Fraction { numer: 1, denom: 2 };
    let whole = Fraction { numer: 1, denom: 1 };
    let info = get_processing_progress(None, Some(Phase::Done));
    assert_eq!((info.state.as_str(), info.phase.as_str()), ("idle", "idle"));
    assert_eq!(info.progress, Fraction { numer: 0, denom: 1 });
    let cases = [
        (PipelineState::Idle, "idle", half),
        (PipelineState::Processing, "processing", half),
        (PipelineState::Paused, "paused", half),
        (PipelineState::Completed, "completed", whole),
        (PipelineState::Exported, "exported", whole),
    ];
    for (state, name, progress) in cases {
        let info = get_processing_progress(Some((&state, half)), Some(Phase::Translating));
        assert_eq!(info.state, name);
        assert_eq!(info.progress, progress);
        assert_eq!(info.error, None);
        assert_eq!(info.phase, "translating");
    }
    let info = get_processing_progress(Some((&PipelineState::Failed("e".to_string()), half)), None);
    assert_eq!(info.state, "failed");
    assert_eq!(info.error.as_deref(), Some("e"));
    assert_eq!(info.phase, "idle");
    assert_eq!(info.progress, half);
}

fn segment(id: usize, status: SegmentStatus) -> SegmentProgress<f64> {
    SegmentProgress {
        segment_id: id,
        start_time: Some(0.0),
        end_time: Some(1.0),
        status,
        source: Some("s".to_string()),
        translated: None,
        fallback: false,
    }
}

fn checkpoint(config: &AppConfig, statuses: &[SegmentStatus]) -> Checkpoint<f64> {
    let mut cp = Checkpoint::new(
        "t".to_string(),
        "/v/a.mp4".to_string(),
        file_fingerprint(config, "ja"),
    );
    cp.segments = statuses.iter().enumerate().map(|(i, s)| segment(i, *s)).collect();
    cp
}

#[test]
fn tasks_are_offered_under_their_settings() {
    let config = AppConfig::default();
    let status = get_task_status::<f64>(&None, &config);
    assert_eq!(status.state, TaskState::Fresh);

    let half = [SegmentStatus::Completed, SegmentStatus::Pending];
    let status = get_task_status(&Some(checkpoint(&config, &half)), &config);
    assert_eq!(status.state, TaskState::Translating);
    assert_eq!(status.percent, Fraction { numer: 1, denom: 2 });
    assert_eq!(status.source_language.as_deref(), Some("ja"));

    let status = get_task_status(&Some(checkpoint(&config, &[SegmentStatus::Completed])), &config);
    assert_eq!(status.state, TaskState::Completed);
    assert_eq!(status.percent, Fraction { numer: 1, denom: 1 });

    let status = get_task_status(&Some(checkpoint(&config, &[])), &config);
    assert_eq!(status.state, TaskState::Fresh);
    assert_eq!(status.source_language, None);

    let mut other = AppConfig::default();
    other.translate.target_lang = "en".to_string();
    assert_eq!(get_task_status(&Some(checkpoint(&config, &half)), &other).state, TaskState::Fresh);
    let mut other = AppConfig::default();
    other.asr.file_model = "x".to_string();
    assert_eq!(get_task_status(&Some(checkpoint(&config, &half)), &other).state, TaskState::Fresh);
    let mut other = AppConfig::default();
    other.translate.provider = "kimi".to_string();
    assert_eq!(get_task_status(&Some(checkpoint(&config, &half)), &other).state, TaskState::Fresh);
    let mut other = AppConfig::default();
    other.translate.model = "x".to_string();
    assert_eq!(get_task_status(&Some(checkpoint(&config, &half)), &other).state, TaskState::Fresh);
}

fn task(id: &str, video: &str, modified_at: u64) -> RecentTask {
    RecentTask {
        task_id: id.to_string(),
        video_path: video.to_string(),
        file_name: video.to_string(),
        modified_at,
        state: TaskState::Fresh,
        percent: Fraction { numer: 0, denom: 1 },
    }
}

fn ids(tasks: &[RecentTask]) -> Vec<&str> {
    tasks.iter().map(|t| t.task_id.as_str()).collect()
}

#[test]
fn recent_tasks_are_one_per_video_latest_first() {
    let shown = list_recent_tasks(&vec![
        task("1", "a", 5),
        task("2", "b", 9),
        task("3", "a", 7),
        task("4", "c", 9),
        task("5", "b", 9),
    ]);
    assert_eq!(ids(&shown), vec!["2", "4", "3"]);
    assert!(list_recent_tasks(&vec![]).is_empty());
}

#[test]
fn eight_recent_tasks_are_shown() {
    let all: Vec<RecentTask> =
        (0..12u64).map(|i| task(&format!("{i}"), &format!("v{i}"), i)).collect();
    let shown = list_recent_tasks(&all);
    assert_eq!(ids(&shown), vec!["11", "10", "9", "8", "7", "6", "5", "4"]);
}

#[test]
fn a_task_without_a_video_is_not_shown() {
    let config = AppConfig::default();
    let mut cp = checkpoint(&config, &[SegmentStatus::Completed, SegmentStatus::Pending]);
    let t = recent_task(&cp, "a.mp4".to_string(), 3).unwrap();
    assert_eq!(t.task_id, "t");
    assert_eq!(t.video_path, "/v/a.mp4");
    assert_eq!(t.file_name, "a.mp4");
    assert_eq!(t.modified_at, 3);
    assert_eq!(t.state, TaskState::Translating);
    assert_eq!(t.percent, Fraction { numer: 1, denom: 2 });
    cp.video_path = "".to_string();
    assert!(recent_task(&cp, "".to_string(), 3).is_none());
}

#[test]
fn subtitles_are_exported_in_two_formats() {
    let srt = export_subtitle("srt").unwrap();
    assert_eq!(srt.format, ExportFormat::Srt);
    assert_eq!(srt.extension, "srt");
    assert_eq!(srt.title, "Save SRT subtitle");
    assert_eq!(srt.file_name, "output.srt");
    assert_eq!(srt.filter_name, "SRT Subtitle");
    let vtt = export_subtitle("vtt").unwrap();
    assert_eq!(vtt.format, ExportFormat::Vtt);
    assert_eq!(vtt.title, "Save VTT subtitle");
    assert_eq!(vtt.filter_name, "VTT Subtitle");
    assert_eq!(export_subtitle("ass").unwrap_err(), "Unsupported format: ass");
}

#[test]
fn settings_of_recognition_are_checked_in_order() {
    let mut c = AppConfig::default();
    assert_eq!(test_asr_connection(&c).unwrap_err(), "ASR API Key 未配置");
    c.asr.api_key = "k".to_string();
    assert_eq!(test_asr_connection(&c).unwrap_err(), "ASR Workspace ID 未配置（北京区域必填）");
    c.asr.workspace_id = Some("w".to_string());
    assert_eq!(
        test_asr_connection(&c).unwrap_err(),
        "OSS 配置未设置（文件转写需要 OSS 托管音频）"
    );
    let oss = |secret: &str| {
        Some(OssConfig {
            endpoint: "e".to_string(),
            bucket: "b".to_string(),
            access_key_id: "i".to_string(),
            access_key_secret: secret.to_string(),
            path_prefix: None,
        })
    };
    c.oss = oss("");
    assert_eq!(test_asr_connection(&c).unwrap_err(), "OSS 配置不完整");
    c.oss = oss("s");
    assert_eq!(
        test_asr_connection(&c).unwrap(),
        "ASR 配置验证通过（API Key、Workspace ID、OSS 配置已设置）"
    );
}

#[test]
fn translators_are_built_from_the_settings() {
    let mut c = AppConfig::default();
    c.translate.provider = "kimi".to_string();
    c.translate.model = "m".to_string();
    c.translate.api_key = "k".to_string();
    let p = build_translate_provider(&c, 30);
    assert_eq!(p.base_url, "https://api.moonshot.cn/v1");
    assert_eq!(p.model, "m");
    assert_eq!(p.api_key, "k");
    assert_eq!(p.timeout_secs, 30);
    assert_eq!(test_translate_connection(&Ok(())).unwrap(), "翻译连接成功");
    assert_eq!(
        test_translate_connection(&Err(Error::Translate("x".to_string()))).unwrap_err(),
        "翻译连接失败: Translation error: x"
    );
}

#[test]
fn fingerprints_hold_the_settings() {
    let c = AppConfig::default();
    let f: CheckpointFingerprint = file_fingerprint(&c, "ja");
    assert_eq!(f.source_language, "ja");
    assert_eq!(f.target_lang, "zh");
    assert_eq!(f.translate_provider, "openai");
    assert_eq!(f.translate_model, "gpt-3.5-turbo");
    assert_eq!(f.asr_model, "qwen-audio-3.0-asr-flash-filetrans");
    assert_eq!(session_fingerprint(&c, "ja").asr_model, "qwen-audio-3.0-asr-flash-streaming");
}

#[test]
fn only_the_running_video_is_stopped() {
    assert!(is_running(&Some("/a".to_string()), "/a"));
    assert!(!is_running(&Some("/a".to_string()), "/b"));
    assert!(!is_running(&None, "/a"));
}

#[test]
fn one_session_at_a_time() {
    for state in [RealtimeState::Idle, RealtimeState::Stopped, RealtimeState::Failed] {
        assert!(start_realtime_session(state).is_ok());
    }
    for state in [
        RealtimeState::Connecting,
        RealtimeState::Listening,
        RealtimeState::Paused,
        RealtimeState::Reconnecting,
    ] {
        assert_eq!(start_realtime_session(state).unwrap_err(), "已有活跃的实时会话");
    }
}

#[test]
fn sessions_are_named_by_time() {
    assert_eq!(session_id_at("20260101-120000"), "realtime-20260101-120000");
    let id = new_session_id();
    let stamp: Vec<char> = id.strip_prefix("realtime-").unwrap().chars().collect();
    assert!(stamp.len() >= 15);
    for (i, c) in stamp.iter().rev().take(15).enumerate() {
        assert!(if i == 6 { *c == '-' } else { c.is_ascii_digit() });
    }
    assert_eq!(id.len(), "realtime-20260101-120000".len());
    assert!(id.starts_with("realtime-2"));
    assert_eq!(
        capture_failure(&Error::AudioSource("x".to_string())),
        "音频采集启动失败：Audio source error: x"
    );
}

#[test]
fn sessions_are_shown_by_state() {
    let error = Some("e".to_string());
    let info = get_realtime_state(RealtimeState::Failed, &Some("s".to_string()), 3, &error);
    assert_eq!(info.state, "failed");
    assert_eq!(info.session_id.as_deref(), Some("s"));
    assert_eq!(info.entry_count, 3);
    assert_eq!(info.error.as_deref(), Some("e"));
    let info = get_realtime_state(RealtimeState::Paused, &None, 0, &error);
    assert_eq!(info.state, "paused");
    assert_eq!(info.error, None);
}

#[test]
fn capture_targets_are_shown() {
    let infos = list_capture_targets(&list_microphone_targets(&vec!["m".to_string()]));
    assert_eq!(infos.len(), 1);
    assert_eq!(infos[0].id, "mic:m");
    assert_eq!(infos[0].name, "m");
    assert_eq!(infos[0].kind, "microphone");
    assert_eq!(infos[0].icon_path, None);
}

#[test]
fn a_session_whose_start_failed_permits_another() {
    let state = session_state(RealtimeState::Connecting, true);
    assert_eq!(state, RealtimeState::Failed);
    assert!(start_realtime_session(state).is_ok());
    let state = session_state(RealtimeState::Connecting, false);
    assert_eq!(state, RealtimeState::Connecting);
    assert!(start_realtime_session(state).is_err());
    assert_eq!(session_state(RealtimeState::Stopped, true), RealtimeState::Stopped);
}
