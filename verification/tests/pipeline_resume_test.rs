use pick_up_sound_text::asr::{FileTranscriptionResult, TranscriptionSentence};
use pick_up_sound_text::checkpoint::{
    split_log, Checkpoint, CheckpointFingerprint, CheckpointMeta, SegmentProgress, SegmentStatus,
};
use pick_up_sound_text::config::AppConfig;
use pick_up_sound_text::error::Error;
use pick_up_sound_text::pipeline::{
    FilePipeline, Phase, PipelineAction, PipelineState, PipelineStep, VideoLength,
};
use pick_up_sound_text::subtitle::TimePoint;
use pick_up_sound_text::translate::TranslateResponse;
use serde_json::Value;

type Time = TimePoint<f64>;

fn at(seconds: f64) -> Time {
    TimePoint { seconds, wall_ms: (seconds * 1000.0) as i64 }
}

fn fp(source_language: &str, target_lang: &str) -> CheckpointFingerprint {
    CheckpointFingerprint {
        source_language: source_language.to_string(),
        target_lang: target_lang.to_string(),
        translate_provider: "openai".to_string(),
        translate_model: "gpt-3.5-turbo".to_string(),
        asr_model: "qwen-audio-3.0-asr-flash-filetrans".to_string(),
    }
}

fn sentences(n: usize) -> Vec<TranscriptionSentence<Time>> {
    (0..n)
        .map(|i| TranscriptionSentence {
            text: format!("s{i}"),
            begin_time: at(i as f64),
            end_time: at(i as f64 + 1.0),
        })
        .collect()
}

fn segment_line(s: &SegmentProgress<Time>) -> String {
    let mut m = serde_json::Map::new();
    m.insert("segment_id".to_string(), Value::from(s.segment_id));
    if let Some(t) = s.start_time {
        m.insert("start_time".to_string(), Value::from(t.seconds));
    }
    if let Some(t) = s.end_time {
        m.insert("end_time".to_string(), Value::from(t.seconds));
    }
    let status = match s.status {
        SegmentStatus::Pending => "Pending",
        SegmentStatus::Completed => "Completed",
    };
    m.insert("status".to_string(), Value::from(status));
    if let Some(t) = &s.source {
        m.insert("source".to_string(), Value::from(t.as_str()));
    }
    if let Some(t) = &s.translated {
        m.insert("translated".to_string(), Value::from(t.as_str()));
    }
    Value::Object(m).to_string()
}

fn read_segment(line: &str) -> Option<SegmentProgress<Time>> {
    let v: Value = serde_json::from_str(line).ok()?;
    let text = |key: &str| v.get(key).and_then(|t| t.as_str()).map(|t| t.to_string());
    Some(SegmentProgress {
        segment_id: v.get("segment_id")?.as_u64()? as usize,
        start_time: v.get("start_time").and_then(|t| t.as_f64()).map(at),
        end_time: v.get("end_time").and_then(|t| t.as_f64()).map(at),
        status: match v.get("status")?.as_str()? {
            "Pending" => SegmentStatus::Pending,
            "Completed" => SegmentStatus::Completed,
            _ => return None,
        },
        source: text("source"),
        translated: text("translated"),
        fallback: false,
    })
}

fn meta_line(m: &CheckpointMeta) -> String {
    let parts = [
        m.task_id.as_str(),
        m.video_path.as_str(),
        m.fingerprint.source_language.as_str(),
        m.fingerprint.target_lang.as_str(),
        m.fingerprint.translate_provider.as_str(),
        m.fingerprint.translate_model.as_str(),
        m.fingerprint.asr_model.as_str(),
    ];
    Value::from(parts.to_vec()).to_string()
}

fn read_meta(line: &str) -> Option<CheckpointMeta> {
    let v: Value = serde_json::from_str(line).ok()?;
    let text = |i: usize| v.get(i).and_then(|t| t.as_str()).map(|t| t.to_string());
    Some(CheckpointMeta {
        task_id: text(0)?,
        video_path: text(1)?,
        fingerprint: CheckpointFingerprint {
            source_language: text(2)?,
            target_lang: text(3)?,
            translate_provider: text(4)?,
            translate_model: text(5)?,
            asr_model: text(6)?,
        },
    })
}

/// The log of a task, as a file would hold it.
#[derive(Default)]
struct Disk {
    log: Option<String>,
}

impl Disk {
    fn load(&self) -> Option<Checkpoint<Time>> {
        let log = split_log(self.log.as_ref()?)?;
        let records = log.records.iter().map(|l| read_segment(l)).collect();
        Checkpoint::load(read_meta(&log.meta), records)
    }

    fn save(&mut self, cp: &Checkpoint<Time>) {
        let lines: Vec<String> = cp.segments.iter().map(segment_line).collect();
        self.log = Some(cp.save(&meta_line(&cp.meta()), &lines));
    }

    fn append(&mut self, s: &SegmentProgress<Time>) {
        let text = Checkpoint::<Time>::append_updates(&vec![segment_line(s)]);
        self.log.get_or_insert_with(String::new).push_str(&text);
    }
}

/// Where a run is cancelled.
#[derive(Clone, Copy, PartialEq)]
enum Cancel {
    Never,
    Extract,
    Asr,
    Translate(usize),
}

#[derive(Default)]
struct Counts {
    extract: usize,
    asr: usize,
    texts: Vec<String>,
    contexts: Vec<Vec<String>>,
}

fn build(disk: &mut Disk, fingerprint: CheckpointFingerprint) -> FilePipeline<f64> {
    let language = fingerprint.source_language.clone();
    let mut p = FilePipeline::new(AppConfig::default(), language);
    let save = p.init_checkpoint_in(
        disk.load(),
        "t".to_string(),
        "/tmp/resume_test_video.mp4".to_string(),
        fingerprint,
    );
    if save {
        disk.save(p.checkpoint().as_ref().unwrap());
    }
    p
}

fn run(
    p: &mut FilePipeline<f64>,
    disk: &mut Disk,
    asr: usize,
    fail_on: Option<usize>,
    cancel: Cancel,
) -> (Result<(), Error>, Counts) {
    let mut counts = Counts::default();
    let mut step: PipelineStep<f64> = p.process(Some(VideoLength { secs: 600, nanos: 0 }), "0.2");
    loop {
        if let Some(s) = &step.append {
            disk.append(s);
        }
        if step.save {
            disk.save(p.checkpoint().as_ref().unwrap());
        }
        step = match step.action {
            PipelineAction::Extract => {
                counts.extract += 1;
                if cancel == Cancel::Extract {
                    p.cancelled()
                } else {
                    p.extracted(4, "0.0")
                }
            }
            PipelineAction::Transcribe(_) => {
                counts.asr += 1;
                if cancel == Cancel::Asr {
                    p.cancelled()
                } else {
                    p.transcribed(FileTranscriptionResult { sentences: sentences(asr) })
                }
            }
            PipelineAction::Translate(r) => {
                let n = counts.texts.len();
                counts.texts.push(r.text.clone());
                counts.contexts.push(r.context.clone());
                if cancel == Cancel::Translate(n) {
                    p.cancelled()
                } else if fail_on == Some(n) {
                    p.work_failed(Error::Translate("mock 翻译失败".to_string()))
                } else {
                    p.translated(TranslateResponse { translated_text: format!("[T] {}", r.text) })
                }
            }
            PipelineAction::Finish => return (Ok(()), counts),
            PipelineAction::Fail(e) => return (Err(e), counts),
        };
    }
}

fn percent(p: &FilePipeline<f64>) -> i64 {
    let f = p.get_progress();
    (f.numer as f64 / f.denom as f64 * 100.0).round() as i64
}

#[test]
fn fresh_run_persists_completed_checkpoint() {
    let mut disk = Disk::default();
    let mut p = build(&mut disk, fp("auto", "zh"));
    let (result, counts) = run(&mut p, &mut disk, 5, None, Cancel::Never);
    assert!(result.is_ok());
    assert_eq!(p.get_state(), PipelineState::Completed);
    assert_eq!(p.get_phase(), Phase::Done);
    assert_eq!(counts.asr, 1);

    let cp = disk.load().unwrap();
    assert_eq!(cp.segments.len(), 5);
    assert!(cp.is_all_completed());
    assert_eq!(cp.segments[3].source.as_deref(), Some("s3"));
    assert_eq!(cp.segments[3].translated.as_deref(), Some("[T] s3"));
    let content = disk.log.unwrap();
    assert_eq!(content.lines().filter(|l| !l.trim().is_empty()).count(), 6);
}

#[test]
fn mid_run_failure_keeps_completed_sentences_on_disk() {
    let mut disk = Disk::default();
    let mut p = build(&mut disk, fp("auto", "zh"));
    let (result, _) = run(&mut p, &mut disk, 5, Some(2), Cancel::Never);
    assert!(result.is_err());

    let cp = disk.load().unwrap();
    assert_eq!(cp.completed_count(), 2);
    assert_eq!(cp.segments[2].status, SegmentStatus::Pending);
}

#[test]
fn resume_skips_asr_and_translates_rest() {
    let mut disk = Disk::default();
    let mut p1 = build(&mut disk, fp("auto", "zh"));
    let (result, counts1) = run(&mut p1, &mut disk, 5, Some(2), Cancel::Never);
    assert!(result.is_err());
    assert_eq!(counts1.asr, 1);

    let mut p2 = build(&mut disk, fp("auto", "zh"));
    let (result, counts2) = run(&mut p2, &mut disk, 5, None, Cancel::Never);
    assert!(result.is_ok());
    assert_eq!(counts2.asr, 0);
    assert_eq!(counts2.extract, 0);
    assert_eq!(counts2.texts, vec!["s2", "s3", "s4"]);
    assert_eq!(percent(&p2), 100);

    let entries = p2.get_entries();
    assert_eq!(entries.len(), 5);
    assert_eq!(entries[2].translated, "[T] s2");
    assert_eq!(entries[4].translated, "[T] s4");
    assert_eq!(entries[0].translated, "[T] s0");
}

#[test]
fn all_completed_restores_instantly_without_api_calls() {
    let mut disk = Disk::default();
    let mut p1 = build(&mut disk, fp("auto", "zh"));
    assert!(run(&mut p1, &mut disk, 4, None, Cancel::Never).0.is_ok());

    let mut p2 = build(&mut disk, fp("auto", "zh"));
    let (result, counts) = run(&mut p2, &mut disk, 4, None, Cancel::Never);
    assert!(result.is_ok());
    assert_eq!(counts.asr, 0);
    assert_eq!(counts.extract, 0);
    assert!(counts.texts.is_empty());
    assert_eq!(p2.get_state(), PipelineState::Completed);
    let entries = p2.get_entries();
    assert_eq!(entries.len(), 4);
    assert_eq!(entries[3].translated, "[T] s3");
}

#[test]
fn target_lang_change_keeps_asr_retranslates_all() {
    let mut disk = Disk::default();
    let mut p1 = build(&mut disk, fp("auto", "zh"));
    assert!(run(&mut p1, &mut disk, 4, None, Cancel::Never).0.is_ok());

    let mut p2 = build(&mut disk, fp("auto", "en"));
    let (result, counts) = run(&mut p2, &mut disk, 4, None, Cancel::Never);
    assert!(result.is_ok());
    assert_eq!(counts.asr, 0);
    assert_eq!(counts.extract, 0);
    assert_eq!(counts.texts.len(), 4);
    assert_eq!(disk.load().unwrap().fingerprint.target_lang, "en");
}

#[test]
fn source_language_change_reruns_asr() {
    let mut disk = Disk::default();
    let mut p1 = build(&mut disk, fp("auto", "zh"));
    assert!(run(&mut p1, &mut disk, 4, None, Cancel::Never).0.is_ok());

    let mut p2 = build(&mut disk, fp("ja", "zh"));
    let (result, counts) = run(&mut p2, &mut disk, 4, None, Cancel::Never);
    assert!(result.is_ok());
    assert_eq!(counts.asr, 1);
    assert_eq!(counts.texts.len(), 4);
}

#[test]
fn zero_sentence_asr_fails_clearly() {
    let mut disk = Disk::default();
    let mut p = build(&mut disk, fp("auto", "zh"));
    let (result, counts) = run(&mut p, &mut disk, 0, None, Cancel::Never);
    let err = result.unwrap_err();
    assert!(err.message().contains("未识别到语音"));
    match p.get_state() {
        PipelineState::Failed(msg) => assert!(msg.contains("未识别到语音")),
        other => panic!("{:?}", other),
    }
    assert!(counts.texts.is_empty());
}

#[test]
fn pause_during_translate_parks_state_and_keeps_checkpoint() {
    let mut disk = Disk::default();
    let mut p = build(&mut disk, fp("auto", "zh"));
    let (result, counts) = run(&mut p, &mut disk, 5, None, Cancel::Translate(2));
    assert!(result.is_ok());
    assert_eq!(p.get_state(), PipelineState::Paused);
    assert_eq!(percent(&p), 40);
    let f = p.get_progress();
    assert_eq!(f.numer as f64 / f.denom as f64, 0.4);

    let cp = disk.load().unwrap();
    assert_eq!(cp.completed_count(), 2);
    assert_eq!(cp.segments.len(), 5);
    assert_eq!(cp.segments[2].status, SegmentStatus::Pending);
    assert_eq!(counts.texts.len(), 3);
}

#[test]
fn pause_during_asr_returns_paused_without_persisting_sentences() {
    let mut disk = Disk::default();
    let mut p = build(&mut disk, fp("auto", "zh"));
    let (result, counts) = run(&mut p, &mut disk, 5, None, Cancel::Asr);
    assert!(result.is_ok());
    assert_eq!(p.get_state(), PipelineState::Paused);
    assert_eq!(p.get_phase(), Phase::Transcribing);
    assert_eq!(counts.asr, 1);
    let persisted = disk.load();
    assert!(persisted.as_ref().map(|c| c.segments.is_empty()).unwrap_or(true));
}

#[test]
fn pause_during_extract_returns_paused() {
    let mut disk = Disk::default();
    let mut p = build(&mut disk, fp("auto", "zh"));
    let (result, counts) = run(&mut p, &mut disk, 5, None, Cancel::Extract);
    assert!(result.is_ok());
    assert_eq!(p.get_state(), PipelineState::Paused);
    assert_eq!(p.get_phase(), Phase::Extracting);
    assert_eq!(counts.extract, 1);
    assert_eq!(counts.asr, 0);
}

#[test]
fn resume_after_pause_completes_without_asr_rerun() {
    let mut disk = Disk::default();
    let mut p1 = build(&mut disk, fp("auto", "zh"));
    assert!(run(&mut p1, &mut disk, 5, None, Cancel::Translate(2)).0.is_ok());
    assert_eq!(p1.get_state(), PipelineState::Paused);

    let mut p2 = build(&mut disk, fp("auto", "zh"));
    let (result, counts) = run(&mut p2, &mut disk, 5, None, Cancel::Never);
    assert!(result.is_ok());
    assert_eq!(p2.get_state(), PipelineState::Completed);
    assert_eq!(counts.asr, 0);
    assert_eq!(counts.extract, 0);
    assert_eq!(counts.texts, vec!["s2", "s3", "s4"]);
    let entries = p2.get_entries();
    assert_eq!(entries.len(), 5);
    assert_eq!(entries[2].translated, "[T] s2");
}

#[test]
fn resume_seeds_translation_context_from_checkpoint() {
    let mut disk = Disk::default();
    let mut p1 = build(&mut disk, fp("auto", "zh"));
    assert!(run(&mut p1, &mut disk, 5, Some(2), Cancel::Never).0.is_err());

    let mut p2 = build(&mut disk, fp("auto", "zh"));
    let (result, counts) = run(&mut p2, &mut disk, 5, None, Cancel::Never);
    assert!(result.is_ok());
    assert!(!counts.contexts.is_empty());
    let first = &counts.contexts[0];
    assert!(first.contains(&"s0".to_string()) && first.contains(&"s1".to_string()));
    assert_eq!(first, &vec!["s1".to_string(), "s0".to_string()]);
}

#[test]
fn a_torn_line_costs_one_sentence_only() {
    let mut disk = Disk::default();
    let mut p1 = build(&mut disk, fp("auto", "zh"));
    assert!(run(&mut p1, &mut disk, 3, Some(2), Cancel::Never).0.is_err());
    let log = disk.log.as_mut().unwrap();
    let cut = log.len() - 5;
    log.truncate(cut);
    assert_eq!(disk.load().unwrap().completed_count(), 1);

    let mut p2 = build(&mut disk, fp("auto", "zh"));
    let (result, counts) = run(&mut p2, &mut disk, 3, None, Cancel::Never);
    assert!(result.is_ok());
    assert_eq!(counts.asr, 0);
    assert_eq!(counts.texts, vec!["s1", "s2"]);
    assert!(disk.load().unwrap().is_all_completed());
}

#[test]
fn a_paused_pipeline_goes_on_by_itself() {
    let mut disk = Disk::default();
    let mut p = build(&mut disk, fp("auto", "zh"));
    assert!(run(&mut p, &mut disk, 4, None, Cancel::Translate(1)).0.is_ok());
    let (result, counts) = run(&mut p, &mut disk, 4, None, Cancel::Never);
    assert!(result.is_ok());
    assert_eq!(counts.extract, 0);
    assert_eq!(counts.texts, vec!["s1", "s2", "s3"]);
    assert_eq!(p.get_entries().len(), 4);
}
