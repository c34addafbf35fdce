use pick_up_sound_text::asr::{FileTranscriptionResult, TranscriptionSentence};
use pick_up_sound_text::checkpoint::{CheckpointFingerprint, Fraction};
use pick_up_sound_text::config::AppConfig;
use pick_up_sound_text::error::Error;
use pick_up_sound_text::pipeline::{
    context, cut_front, dedup_overlap, overlap_length, FilePipeline, Phase, PipelineAction,
    PipelineState, VideoLength, MAX_AUDIO_BYTES,
};
use pick_up_sound_text::subtitle::{SubtitleStatus, TimePoint};
use pick_up_sound_text::translate::TranslateResponse;

#[test]
fn dedup_no_overlap() {
    assert_eq!(dedup_overlap("hello", "world", 10), "world");
}

#[test]
fn dedup_with_overlap() {
    assert_eq!(dedup_overlap("hello world", "world again", 10), " again");
}

#[test]
fn dedup_respects_max_overlap() {
    assert_eq!(dedup_overlap("hello world", "world again", 3), "world again");
}

#[test]
fn dedup_empty_inputs() {
    assert_eq!(dedup_overlap("", "abc", 10), "abc");
    assert_eq!(dedup_overlap("abc", "", 10), "");
}

#[test]
fn dedup_case_insensitive() {
    assert_eq!(dedup_overlap("Hello World", "world again", 10), " again");
}

#[test]
fn dedup_takes_the_longest_overlap() {
    assert_eq!(dedup_overlap("abab", "ababc", 10), "c");
    assert_eq!(dedup_overlap("abab", "ababc", 3), "abc");
    assert_eq!(dedup_overlap("abc", "abc", 0), "abc");
    assert_eq!(dedup_overlap("你好 世界  \n", "世界再见", 10), "再见");
    assert_eq!(dedup_overlap("   ", " x", 10), " x");
}

#[test]
fn test_pipeline_state_transitions() {
    assert_eq!(PipelineState::Idle, PipelineState::Idle);
    assert_ne!(PipelineState::Idle, PipelineState::Processing);
}

fn at(seconds: f64) -> TimePoint<f64> {
    TimePoint { seconds, wall_ms: (seconds * 1000.0) as i64 }
}

fn sentence(text: &str, begin: f64, end: f64) -> TranscriptionSentence<TimePoint<f64>> {
    TranscriptionSentence { text: text.to_string(), begin_time: at(begin), end_time: at(end) }
}

fn ten_seconds() -> Option<VideoLength> {
    Some(VideoLength { secs: 10, nanos: 0 })
}

#[test]
fn test_pipeline_process_with_mock() {
    let mut pipeline = FilePipeline::new(AppConfig::default(), "auto".to_string());
    assert_eq!(pipeline.get_state(), PipelineState::Idle);

    let step = pipeline.process(ten_seconds(), "0.0");
    assert!(matches!(step.action, PipelineAction::Extract));
    assert_eq!(pipeline.get_state(), PipelineState::Processing);
    let step = pipeline.extracted(4, "0.0");
    match step.action {
        PipelineAction::Transcribe(c) => {
            assert_eq!(c.provider, "dashscope");
            assert_eq!(c.model, "qwen-audio-3.0-asr-flash-filetrans");
            assert_eq!(c.language, "auto");
            assert_eq!(c.workspace_id, None);
            assert!(!c.diarization);
        }
        other => panic!("{:?}", other),
    }
    let step = pipeline.transcribed(FileTranscriptionResult {
        sentences: vec![sentence("hello world", 0.0, 1.0)],
    });
    assert!(step.remove_audio);
    let request = match step.action {
        PipelineAction::Translate(r) => r,
        other => panic!("{:?}", other),
    };
    assert_eq!(request.source_lang, "auto");
    assert_eq!(request.target_lang, "zh");
    assert!(request.context.is_empty());
    assert!(request.glossary.is_none());
    let step = pipeline.translated(TranslateResponse {
        translated_text: format!("[Translated] {}", request.text),
    });
    assert!(matches!(step.action, PipelineAction::Finish));
    assert_eq!(pipeline.get_state(), PipelineState::Completed);

    let entries = pipeline.get_entries();
    assert_eq!(entries.len(), 1);
    assert_eq!(entries[0].source, "hello world");
    assert_eq!(entries[0].translated, "[Translated] hello world");
    assert_eq!(entries[0].status, SubtitleStatus::Final);
    assert_eq!(entries[0].content_start, 0.0);
    assert_eq!(entries[0].content_end, 1.0);
    assert_eq!(entries[0].wall_start, 0);
    assert_eq!(entries[0].wall_end, 1000);
}

#[test]
fn phases_have_names() {
    assert_eq!(Phase::Extracting.as_str(), "extracting");
    assert_eq!(Phase::Transcribing.as_str(), "transcribing");
    assert_eq!(Phase::Translating.as_str(), "translating");
    assert_eq!(Phase::Done.as_str(), "done");
}

#[test]
fn videos_of_more_than_three_hours_are_refused() {
    let text = "视频时长 3.5 小时超过限制（最长 3 小时），请先裁剪后再处理";
    let mut p: FilePipeline<f64> = FilePipeline::new(AppConfig::default(), "auto".to_string());
    let step = p.process(Some(VideoLength { secs: 10800, nanos: 1 }), "3.5");
    match step.action {
        PipelineAction::Fail(Error::AudioSource(m)) => assert_eq!(m, text),
        other => panic!("{:?}", other),
    }
    assert_eq!(p.get_state(), PipelineState::Failed(text.to_string()));

    let step = p.process(Some(VideoLength { secs: 10800, nanos: 0 }), "3.0");
    assert!(matches!(step.action, PipelineAction::Extract));
}

#[test]
fn audio_of_more_than_five_gigabytes_is_refused() {
    let mut p: FilePipeline<f64> = FilePipeline::new(AppConfig::default(), "auto".to_string());
    p.process(None, "");
    let step = p.extracted(MAX_AUDIO_BYTES + 1, "5.1");
    assert!(step.remove_audio);
    match step.action {
        PipelineAction::Fail(Error::AudioSource(m)) => {
            assert_eq!(m, "提取的音频文件大小 5.1GB 超过限制（最大 5GB）")
        }
        other => panic!("{:?}", other),
    }
    p.process(None, "");
    assert!(matches!(p.extracted(MAX_AUDIO_BYTES, "5.0").action, PipelineAction::Transcribe(_)));
}

#[test]
fn failed_work_fails_the_run() {
    let mut p: FilePipeline<f64> = FilePipeline::new(AppConfig::default(), "auto".to_string());
    p.process(None, "");
    let step = p.work_failed(Error::AudioSource("ffmpeg audio extraction failed".to_string()));
    assert!(!step.remove_audio);
    assert!(matches!(step.action, PipelineAction::Fail(Error::AudioSource(_))));
    assert_eq!(
        p.get_state(),
        PipelineState::Failed("Audio source error: ffmpeg audio extraction failed".to_string())
    );
    p.process(None, "");
    p.extracted(1, "");
    assert!(p.work_failed(Error::Asr("x".to_string())).remove_audio);
    assert_eq!(p.get_state(), PipelineState::Failed("ASR error: x".to_string()));
}

#[test]
fn the_context_is_the_last_ten_latest_first() {
    let texts: Vec<String> = (0..13).map(|i| format!("s{i}")).collect();
    let c = context(&texts);
    assert_eq!(c.len(), 10);
    assert_eq!(c[0], "s12");
    assert_eq!(c[9], "s3");
    assert!(context(&vec![]).is_empty());
}

#[test]
fn a_new_checkpoint_needs_no_writing() {
    let mut p: FilePipeline<f64> = FilePipeline::new(AppConfig::default(), "auto".to_string());
    assert!(p.checkpoint().is_none());
    let save = p.init_checkpoint_in(
        None,
        "t".to_string(),
        "/v.mp4".to_string(),
        CheckpointFingerprint::default(),
    );
    assert!(!save);
    assert_eq!(p.checkpoint().as_ref().unwrap().task_id, "t");
    assert_eq!(p.get_progress(), Fraction { numer: 0, denom: 1 });
}

#[test]
fn a_task_with_unknown_settings_keeps_what_fits_them() {
    let mut p: FilePipeline<f64> = FilePipeline::new(AppConfig::default(), "auto".to_string());
    assert!(!p.init_checkpoint(None, "t".to_string(), "/v.mp4".to_string()));
    assert_eq!(p.checkpoint().as_ref().unwrap().fingerprint.target_lang, "");
    assert!(p.checkpoint().as_ref().unwrap().segments.is_empty());
}

#[test]
fn dedup_heeds_no_case_of_any_script() {
    assert_eq!(dedup_overlap("É", "é!", 10), "!");
    assert_eq!(dedup_overlap("ПРИВЕТ МИР", "мир снова", 10), " снова");
    assert_eq!(dedup_overlap("Ünder", "öder", 10), "öder");
}

#[test]
fn dedup_heeds_no_space_at_the_ends() {
    assert_eq!(dedup_overlap("hello world  ", "  world again", 10), " again");
    assert_eq!(dedup_overlap("  world", "world ", 10), " ");
    assert_eq!(dedup_overlap("hello", "  world", 10), "  world");
    assert_eq!(dedup_overlap("   ", "  abc", 10), "  abc");
    assert_eq!(dedup_overlap("world", "  world", 3), "  world");
}

#[test]
fn overlaps_are_found_among_lowered_characters() {
    let chars = |s: &str| s.chars().map(|c| c.to_string()).collect::<Vec<String>>();
    assert_eq!(overlap_length(&chars("abab"), &chars("ababc"), 10), 4);
    assert_eq!(overlap_length(&chars("abab"), &chars("ababc"), 3), 2);
    assert_eq!(overlap_length(&chars("ab"), &chars("xb"), 10), 0);
    assert_eq!(overlap_length(&chars(""), &chars("x"), 10), 0);
    assert_eq!(cut_front("  world again", 5), " again");
    assert_eq!(cut_front("  world again", 0), "  world again");
}
