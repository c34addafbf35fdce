use pick_up_sound_text::asr::AsrEvent;
use pick_up_sound_text::checkpoint::{
    split_log, Checkpoint, CheckpointFingerprint, CheckpointMeta, SegmentProgress, SegmentStatus,
};
use pick_up_sound_text::commands::realtime::start_realtime_session;
use pick_up_sound_text::config::AppConfig;
use pick_up_sound_text::error::Error;
use pick_up_sound_text::pipeline::realtime::{
    is_active, AsrInput, EventTime, PartialEntry, RealtimeEvent, RealtimePipeline, RealtimeState,
    RealtimeStateEvent, StopPlan, TranslateJob,
};
use pick_up_sound_text::subtitle::{SubtitleStatus, TimePoint};
use pick_up_sound_text::translate::TranslateResponse;
use serde_json::Value;

type Time = TimePoint<f64>;

fn at(seconds: f64) -> Time {
    TimePoint { seconds, wall_ms: (seconds * 1000.0) as i64 }
}

fn time(p: &RealtimePipeline<f64>, seconds: f64) -> EventTime<f64> {
    EventTime {
        reported: seconds,
        adjusted: at(seconds + p.session_offset_ms() as f64 / 1000.0),
    }
}

fn pipeline(session: &str) -> RealtimePipeline<f64> {
    RealtimePipeline::new(
        AppConfig::default(),
        "en".to_string(),
        session.to_string(),
        vec!["mic:a".to_string()],
    )
}

fn listening() -> RealtimePipeline<f64> {
    let mut p = pipeline("s1");
    p.start().unwrap();
    p.connect_streams(Ok(())).unwrap();
    p.capture_started(Ok(())).unwrap();
    p
}

fn fingerprint() -> CheckpointFingerprint {
    CheckpointFingerprint {
        source_language: "en".to_string(),
        target_lang: "zh".to_string(),
        translate_provider: "openai".to_string(),
        translate_model: "gpt-3.5-turbo".to_string(),
        asr_model: "qwen-audio-3.0-asr-flash".to_string(),
    }
}

#[test]
fn realtime_state_serialization() {
    assert_eq!(RealtimeState::Listening.as_str(), "listening");
    assert_eq!(RealtimeState::Failed.as_str(), "failed");
    let event = RealtimeStateEvent::failed("boom".to_string(), Some("s1".to_string()));
    assert_eq!(event.state.as_str(), "failed");
    assert_eq!(event.error.as_deref(), Some("boom"));
    assert_eq!(event.session_id.as_deref(), Some("s1"));
}

#[test]
fn realtime_state_info_serialization() {
    let state = RealtimeState::Listening;
    assert_eq!(Value::from(state.as_str()).to_string(), "\"listening\"");
}

#[test]
fn partial_entry_creation() {
    let partial = PartialEntry { source: "hello".to_string(), ts_start: 1.0, ts_end: 2.0 };
    assert_eq!(partial.source, "hello");
}

#[test]
fn realtime_pipeline_initial_state() {
    let pipeline: RealtimePipeline<f64> = RealtimePipeline::new_for_test();
    assert_eq!(pipeline.get_state(), RealtimeState::Idle);
}

#[test]
fn realtime_pipeline_initial_state_is_idle() {
    let pipeline: RealtimePipeline<f64> = RealtimePipeline::new_for_test();
    assert_eq!(pipeline.get_state(), RealtimeState::Idle);
    assert_eq!(pipeline.session_id(), "test-session");
}

#[test]
fn realtime_state_transitions_from_idle() {
    let mut pipeline: RealtimePipeline<f64> = RealtimePipeline::new_for_test();
    assert!(pipeline.pause().is_err());
    assert!(pipeline.resume().is_err());
    pipeline.stop();
    assert_eq!(pipeline.get_state(), RealtimeState::Stopped);
}

#[test]
fn realtime_state_transitions() {
    let mut pipeline: RealtimePipeline<f64> = RealtimePipeline::new_for_test();
    match pipeline.pause() {
        Err(Error::AudioSource(m)) => assert_eq!(m, "Not listening"),
        other => panic!("{:?}", other),
    }
    match pipeline.resume() {
        Err(Error::AudioSource(m)) => assert_eq!(m, "Not paused"),
        Ok(_) => panic!("expected an error"),
        Err(other) => panic!("{:?}", other),
    }
    pipeline.stop();
    assert_eq!(pipeline.get_state(), RealtimeState::Stopped);
    let again = pipeline.stop();
    assert_eq!(
        again,
        StopPlan { stop_capture: false, finish_asr: false, drain_translations: false, save: false }
    );
}

#[test]
fn failed_connect_marks_pipeline_failed_not_connecting() {
    let mut pipeline = pipeline("s1");
    pipeline.start().unwrap();
    assert_eq!(pipeline.get_state(), RealtimeState::Connecting);
    let outcome = pipeline
        .connect_streams(Err(Error::Asr("401 unauthorized (simulated missing api key)".to_string())));
    assert!(outcome.is_err());
    assert_eq!(pipeline.get_state(), RealtimeState::Failed);
    assert!(start_realtime_session(pipeline.get_state()).is_ok());
}

#[test]
fn sessions_connect_and_listen() {
    let mut p = pipeline("s1");
    let config = p.start().unwrap();
    assert_eq!(config.model, "qwen-audio-3.0-asr-flash-streaming");
    assert_eq!(config.language, "en");
    match p.start() {
        Err(Error::AudioSource(m)) => assert_eq!(m, "Session already running"),
        _ => panic!("expected an error"),
    }
    assert_eq!(p.connect_streams(Ok(())).unwrap(), vec!["mic:a"]);
    let event = p.capture_started(Ok(())).unwrap();
    assert_eq!(event.state, RealtimeState::Listening);
    assert_eq!(event.session_id.as_deref(), Some("s1"));
    assert!(event.error.is_none());

    let mut q = pipeline("s2");
    q.start().unwrap();
    q.connect_streams(Ok(())).unwrap();
    assert!(q.capture_started(Err(Error::AudioSource("x".to_string()))).is_err());
    assert_eq!(q.get_state(), RealtimeState::Connecting);

    let mut r: RealtimePipeline<f64> = RealtimePipeline::new_for_test();
    match r.start() {
        Err(Error::Asr(m)) => assert_eq!(m, "ASR provider not initialized"),
        _ => panic!("expected an error"),
    }
}

#[test]
fn realtime_pipeline_processes_audio_to_subtitles() {
    let mut p = listening();
    let start = time(&p, 0.0);
    let end = time(&p, 0.5);
    let step = p.on_asr(
        AsrInput::Event(AsrEvent::Partial {
            text: "hello".to_string(),
            ts_start: start,
            ts_end: end,
        }),
        250,
    );
    match step.emit {
        Some(RealtimeEvent::Partial(e)) => {
            assert_eq!(e.entry_index, 0);
            assert_eq!(e.source, "hello");
            assert_eq!(e.ts_end, 0.5);
        }
        other => panic!("{:?}", other),
    }
    assert_eq!(p.partial().as_ref().unwrap().source, "hello");

    let end = time(&p, 1.0);
    let step = p.on_asr(
        AsrInput::Event(AsrEvent::Final {
            text: "hello world".to_string(),
            ts_start: start,
            ts_end: end,
        }),
        0,
    );
    assert!(p.partial().is_none());
    assert_eq!(p.entries().len(), 1);
    assert_eq!(p.entries()[0].source, "hello world");
    assert_eq!(p.entries()[0].translated, "");
    assert_eq!(p.entries()[0].status, SubtitleStatus::Final);
    assert_eq!(p.entries()[0].wall_end, 1000);
    match &step.emit {
        Some(RealtimeEvent::Final(e)) => {
            assert_eq!(e.entry_index, 0);
            assert_eq!(e.entry.source, "hello world");
        }
        other => panic!("{:?}", other),
    }
    assert!(step.append.is_none());
    let job = step.job.unwrap();
    let request = p.translate_request(&job);
    assert_eq!(request.text, "hello world");
    assert_eq!(request.source_lang, "en");
    assert_eq!(request.target_lang, "zh");
    assert!(request.context.is_empty());
    let step = p.translated(
        job,
        TranslateResponse { translated_text: format!("[译] {}", request.text) },
    );
    assert_eq!(step.emit.unwrap().translated, "[译] hello world");
    assert_eq!(p.entries()[0].translated, "[译] hello world");

    let step = p.on_asr(AsrInput::Event(AsrEvent::EndOfStream), 0);
    assert!(step.ends);
    assert_eq!(p.get_state(), RealtimeState::Listening);
}

#[test]
fn partial_sentences_are_told_every_two_hundred_milliseconds() {
    let mut p = listening();
    let t = time(&p, 0.0);
    let partial = |text: &str| {
        AsrInput::Event(AsrEvent::Partial { text: text.to_string(), ts_start: t, ts_end: t })
    };
    assert!(p.on_asr(partial("a"), 199).emit.is_none());
    assert_eq!(p.partial().as_ref().unwrap().source, "a");
    assert!(p.on_asr(partial("b"), 200).emit.is_some());
}

#[test]
fn a_session_that_cannot_go_on_stays_as_it_is() {
    let mut p = listening();
    p.pause().unwrap();
    p.resume().unwrap();
    assert!(p.reconnected(Err(Error::Asr("x".to_string()))).is_err());
    assert_eq!(p.get_state(), RealtimeState::Reconnecting);
    p.stop();
    assert_eq!(p.get_state(), RealtimeState::Stopped);
}

#[test]
fn a_resumed_session_goes_on_where_it_paused() {
    let mut p = listening();
    assert_eq!(p.session_offset_ms(), 0);
    let (a, b) = (time(&p, 1.0), time(&p, 2.5));
    p.on_final("x".to_string(), a.adjusted, b.adjusted);
    p.pause().unwrap();
    assert_eq!(p.get_state(), RealtimeState::Paused);
    assert_eq!(p.session_offset_ms(), 2500);
    assert_eq!(p.resume().unwrap().language, "en");
    assert_eq!(p.get_state(), RealtimeState::Reconnecting);
    assert!(p.reconnected(Ok(())).is_ok());
    assert_eq!(p.get_state(), RealtimeState::Listening);

    let (a, b) = (time(&p, 0.5), time(&p, 1.0));
    let step = p.on_asr(
        AsrInput::Event(AsrEvent::Partial { text: "y".to_string(), ts_start: a, ts_end: b }),
        500,
    );
    assert_eq!(p.partial().as_ref().unwrap().ts_start, 3.0);
    match step.emit {
        Some(RealtimeEvent::Partial(e)) => assert_eq!(e.ts_start, 0.5),
        other => panic!("{:?}", other),
    }
    p.on_final("y".to_string(), a.adjusted, b.adjusted);
    assert_eq!(p.entries()[1].content_start, 3.0);
    assert_eq!(p.entries()[1].wall_end, 3500);
}

fn error_of(emit: Option<RealtimeEvent<f64>>) -> String {
    match emit {
        Some(RealtimeEvent::State(e)) => {
            assert_eq!(e.state, RealtimeState::Failed);
            assert!(e.session_id.is_none());
            e.error.unwrap()
        }
        other => panic!("{:?}", other),
    }
}

#[test]
fn recognition_fails_the_session() {
    let mut p = listening();
    let step = p.on_asr(AsrInput::AudioFailed(Error::Asr("gone".to_string())), 0);
    assert!(step.ends);
    assert_eq!(error_of(step.emit), "ASR send error: ASR error: gone");
    assert_eq!(p.get_state(), RealtimeState::Failed);

    let mut p = listening();
    let step = p.on_asr(
        AsrInput::Event(AsrEvent::Error { code: "E".to_string(), message: "quota".to_string() }),
        0,
    );
    assert_eq!(error_of(step.emit), "ASR error: quota");

    let mut p = listening();
    let step = p.on_asr(AsrInput::StreamFailed(Error::Asr("closed".to_string())), 0);
    assert_eq!(error_of(step.emit), "ASR error: closed");
}

#[test]
fn recognition_ends_with_the_audio() {
    let mut p = listening();
    let step = p.on_asr(AsrInput::AudioSent, 0);
    assert!(!step.finish && !step.ends && step.emit.is_none());
    let step = p.on_asr(AsrInput::AudioClosed, 0);
    assert!(step.finish && !step.ends);
    let step = p.on_asr(AsrInput::Cancelled, 0);
    assert!(step.finish && step.ends);
    assert_eq!(p.get_state(), RealtimeState::Listening);
}

#[test]
fn failed_translations_are_marked_and_are_no_context() {
    let mut p = listening();
    for i in 0..3 {
        p.on_final(format!("s{i}"), at(i as f64), at(i as f64 + 1.0));
    }
    let job = |i: usize| TranslateJob { entry_index: i, source: format!("s{i}") };
    p.translated(job(0), TranslateResponse { translated_text: "t0".to_string() });
    let step = p.translation_failed(job(1));
    assert!(step.emit.is_none() && step.append.is_none());
    assert_eq!(p.entries()[1].translated, "[翻译失败]");
    assert_eq!(p.translate_request(&job(2)).context, vec!["s0"]);
    p.translated(job(9), TranslateResponse { translated_text: "t9".to_string() });
    assert_eq!(p.entries().len(), 3);
    assert_eq!(p.entries()[0].translated, "t0");
}

fn segment_line(s: &SegmentProgress<Time>) -> String {
    let mut m = serde_json::Map::new();
    m.insert("id".to_string(), Value::from(s.segment_id));
    m.insert("start".to_string(), Value::from(s.start_time.map(|t| t.seconds)));
    m.insert("end".to_string(), Value::from(s.end_time.map(|t| t.seconds)));
    m.insert("done".to_string(), Value::from(s.status == SegmentStatus::Completed));
    m.insert("source".to_string(), Value::from(s.source.clone()));
    m.insert("translated".to_string(), Value::from(s.translated.clone()));
    Value::Object(m).to_string()
}

fn read_segment(line: &str) -> Option<SegmentProgress<Time>> {
    let v: Value = serde_json::from_str(line).ok()?;
    let text = |key: &str| v[key].as_str().map(|t| t.to_string());
    Some(SegmentProgress {
        segment_id: v["id"].as_u64()? as usize,
        start_time: v["start"].as_f64().map(at),
        end_time: v["end"].as_f64().map(at),
        status: if v["done"].as_bool()? {
            SegmentStatus::Completed
        } else {
            SegmentStatus::Pending
        },
        source: text("source"),
        translated: text("translated"),
        fallback: false,
    })
}

fn save(cp: &Checkpoint<Time>) -> String {
    let meta: CheckpointMeta = cp.meta();
    let line = Value::from(vec![meta.task_id, meta.video_path]).to_string();
    let lines: Vec<String> = cp.segments.iter().map(segment_line).collect();
    cp.save(&line, &lines)
}

fn load(content: &str) -> Option<Checkpoint<Time>> {
    let log = split_log(content)?;
    let v: Value = serde_json::from_str(&log.meta).ok()?;
    let meta = Some(CheckpointMeta {
        task_id: v[0].as_str()?.to_string(),
        video_path: v[1].as_str()?.to_string(),
        fingerprint: fingerprint(),
    });
    Checkpoint::load(meta, log.records.iter().map(|l| read_segment(l)).collect())
}

fn append(content: &mut String, s: &SegmentProgress<Time>) {
    content.push_str(&Checkpoint::<Time>::append_updates(&vec![segment_line(s)]));
}

#[test]
fn realtime_checkpoint_save_and_load() {
    let mut p = pipeline("realtime-test-001");
    assert!(p.init_checkpoint_in(None, fingerprint()));
    let mut content = save(p.checkpoint().as_ref().unwrap());
    append(
        &mut content,
        &SegmentProgress {
            segment_id: 0,
            start_time: Some(at(0.0)),
            end_time: Some(at(1.0)),
            status: SegmentStatus::Pending,
            source: Some("hello".to_string()),
            translated: None,
            fallback: false,
        },
    );
    let cp = load(&content).unwrap();
    assert_eq!(cp.task_id, "realtime-test-001");
    assert_eq!(cp.video_path, "realtime://realtime-test-001");
    assert_eq!(cp.segments.len(), 1);
    assert_eq!(cp.segments[0].source.as_deref(), Some("hello"));
}

#[test]
fn realtime_checkpoint_with_segments() {
    let mut p = pipeline("realtime-test-002");
    p.init_checkpoint_in(None, fingerprint());
    let cp: Checkpoint<Time> = Checkpoint::new(
        "realtime-test-002".to_string(),
        "realtime://realtime-test-002".to_string(),
        fingerprint(),
    );
    let mut content = save(&cp);
    append(
        &mut content,
        &SegmentProgress {
            segment_id: 0,
            start_time: Some(at(0.0)),
            end_time: Some(at(1.5)),
            status: SegmentStatus::Pending,
            source: Some("hello world".to_string()),
            translated: None,
            fallback: false,
        },
    );
    let loaded = load(&content).unwrap();
    assert_eq!(loaded.segments.len(), 1);
    assert_eq!(loaded.segments[0].source.as_deref(), Some("hello world"));
    assert_eq!(loaded.segments[0].status, SegmentStatus::Pending);
    let mut q = pipeline("realtime-test-002");
    assert!(!q.init_checkpoint_in(Some(loaded), fingerprint()));
}

#[test]
fn the_log_keeps_up_with_the_session() {
    let mut p = listening();
    assert!(p.init_checkpoint_in(None, fingerprint()));
    let mut content = save(p.checkpoint().as_ref().unwrap());
    let mut jobs = vec![];
    for i in 0..2 {
        let step = p.on_final(format!("s{i}"), at(i as f64), at(i as f64 + 1.0));
        append(&mut content, &step.append.unwrap());
        jobs.push(step.job.unwrap());
    }
    let first = jobs.remove(0);
    let step = p.translated(first, TranslateResponse { translated_text: "t0".to_string() });
    append(&mut content, &step.append.unwrap());

    let cp = load(&content).unwrap();
    assert_eq!(cp.completed_count(), 1);
    assert_eq!(cp.segments[0].source.as_deref(), Some("s0"));
    assert_eq!(cp.segments[0].translated.as_deref(), Some("t0"));
    assert_eq!(cp.segments[0].end_time.unwrap().seconds, 1.0);
    assert_eq!(cp.segments[1].status, SegmentStatus::Pending);

    assert!(p.stop().save);
    let saved = load(&save(p.checkpoint().as_ref().unwrap())).unwrap();
    assert_eq!(saved.segments.len(), 2);
    assert_eq!(saved.segments[0].translated.as_deref(), Some("t0"));
}

#[test]
fn active_sessions_are_stopped_with_the_window() {
    assert!(is_active(RealtimeState::Listening));
    assert!(is_active(RealtimeState::Paused));
    assert!(is_active(RealtimeState::Connecting));
    assert!(!is_active(RealtimeState::Reconnecting));
    assert!(!is_active(RealtimeState::Idle));
    assert!(!is_active(RealtimeState::Stopped));
    assert!(!is_active(RealtimeState::Failed));
}
