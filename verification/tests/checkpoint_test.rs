use pick_up_sound_text::checkpoint::{
    compute_task_id, fold_into, fold_log, split_log, Checkpoint, CheckpointFingerprint,
    CheckpointMeta, Fraction, SegmentProgress, SegmentStatus,
};
use serde_json::Value;

fn fp(source_language: &str, target_lang: &str) -> CheckpointFingerprint {
    CheckpointFingerprint {
        source_language: source_language.to_string(),
        target_lang: target_lang.to_string(),
        translate_provider: "openai".to_string(),
        translate_model: "gpt-3.5-turbo".to_string(),
        asr_model: "qwen-audio-3.0-asr-flash-filetrans".to_string(),
    }
}

fn pending(id: usize, source: &str) -> SegmentProgress<f64> {
    SegmentProgress {
        segment_id: id,
        start_time: Some(id as f64),
        end_time: Some(id as f64 + 1.0),
        status: SegmentStatus::Pending,
        source: Some(source.to_string()),
        translated: None,
        fallback: false,
    }
}

fn completed_update(id: usize, translated: &str) -> SegmentProgress<f64> {
    SegmentProgress {
        segment_id: id,
        start_time: None,
        end_time: None,
        status: SegmentStatus::Completed,
        source: None,
        translated: Some(translated.to_string()),
        fallback: false,
    }
}

fn segment_line(s: &SegmentProgress<f64>) -> String {
    let mut m = serde_json::Map::new();
    m.insert("segment_id".to_string(), Value::from(s.segment_id));
    if let Some(t) = s.start_time {
        m.insert("start_time".to_string(), Value::from(t));
    }
    if let Some(t) = s.end_time {
        m.insert("end_time".to_string(), Value::from(t));
    }
    let status = match s.status {
        SegmentStatus::Pending => "Pending",
        SegmentStatus::Completed => "Completed",
    };
    m.insert("status".to_string(), Value::from(status));
    if let Some(t) = &s.source {
        m.insert("source".to_string(), Value::from(t.as_str()));
    }
    if let Some(t) = &s.translated {
        m.insert("translated".to_string(), Value::from(t.as_str()));
    }
    Value::Object(m).to_string()
}

fn read_segment(line: &str) -> Option<SegmentProgress<f64>> {
    let v: Value = serde_json::from_str(line).ok()?;
    let text = |key: &str| v.get(key).and_then(|t| t.as_str()).map(|t| t.to_string());
    Some(SegmentProgress {
        segment_id: v.get("segment_id")?.as_u64()? as usize,
        start_time: v.get("start_time").and_then(|t| t.as_f64()),
        end_time: v.get("end_time").and_then(|t| t.as_f64()),
        status: match v.get("status")?.as_str()? {
            "Pending" => SegmentStatus::Pending,
            "Completed" => SegmentStatus::Completed,
            _ => return None,
        },
        source: text("source"),
        translated: text("translated"),
        fallback: false,
    })
}

fn meta_line(m: &CheckpointMeta) -> String {
    let mut f = serde_json::Map::new();
    let fp = &m.fingerprint;
    f.insert("source_language".to_string(), Value::from(fp.source_language.as_str()));
    f.insert("target_lang".to_string(), Value::from(fp.target_lang.as_str()));
    f.insert("translate_provider".to_string(), Value::from(fp.translate_provider.as_str()));
    f.insert("translate_model".to_string(), Value::from(fp.translate_model.as_str()));
    f.insert("asr_model".to_string(), Value::from(fp.asr_model.as_str()));
    let mut o = serde_json::Map::new();
    o.insert("task_id".to_string(), Value::from(m.task_id.as_str()));
    o.insert("video_path".to_string(), Value::from(m.video_path.as_str()));
    o.insert("fingerprint".to_string(), Value::Object(f));
    Value::Object(o).to_string()
}

fn read_meta(line: &str) -> Option<CheckpointMeta> {
    let v: Value = serde_json::from_str(line).ok()?;
    let f = v.get("fingerprint")?;
    let text = |key: &str| f.get(key).and_then(|t| t.as_str()).unwrap_or("").to_string();
    Some(CheckpointMeta {
        task_id: v.get("task_id")?.as_str()?.to_string(),
        video_path: v.get("video_path")?.as_str()?.to_string(),
        fingerprint: CheckpointFingerprint {
            source_language: text("source_language"),
            target_lang: text("target_lang"),
            translate_provider: text("translate_provider"),
            translate_model: text("translate_model"),
            asr_model: text("asr_model"),
        },
    })
}

fn save(cp: &Checkpoint<f64>) -> String {
    let lines: Vec<String> = cp.segments.iter().map(segment_line).collect();
    cp.save(&meta_line(&cp.meta()), &lines)
}

fn load(content: &str) -> Option<Checkpoint<f64>> {
    let log = split_log(content)?;
    let records = log.records.iter().map(|l| read_segment(l)).collect();
    Checkpoint::load(read_meta(&log.meta), records)
}

fn append(content: &mut String, updates: &[SegmentProgress<f64>]) {
    let lines: Vec<String> = updates.iter().map(segment_line).collect();
    content.push_str(&Checkpoint::<f64>::append_updates(&lines));
}

#[test]
fn fold_keeps_first_times_and_latest_status() {
    let mut existing = SegmentProgress {
        segment_id: 0,
        start_time: Some(1.0),
        end_time: Some(2.0),
        status: SegmentStatus::Pending,
        source: Some("src".into()),
        translated: None,
        fallback: false,
    };
    let next = SegmentProgress {
        segment_id: 0,
        start_time: None,
        end_time: None,
        status: SegmentStatus::Completed,
        source: None,
        translated: Some("译文".into()),
        fallback: false,
    };
    fold_into(&mut existing, next);
    assert_eq!(existing.start_time, Some(1.0));
    assert_eq!(existing.source.as_deref(), Some("src"));
    assert_eq!(existing.status, SegmentStatus::Completed);
    assert_eq!(existing.translated.as_deref(), Some("译文"));
}

#[test]
fn test_save_load_roundtrip() {
    let mut cp = Checkpoint::new("t1".into(), "/v/movie.mp4".into(), fp("auto", "zh"));
    cp.segments = vec![pending(0, "konnichiwa"), pending(1, "sayonara")];
    cp.segments[0].status = SegmentStatus::Completed;
    cp.segments[0].translated = Some("你好".into());
    let content = save(&cp);

    let loaded = load(&content).unwrap();
    assert_eq!(loaded.task_id, "t1");
    assert_eq!(loaded.video_path, "/v/movie.mp4");
    assert_eq!(loaded.fingerprint.source_language, "auto");
    assert_eq!(loaded.fingerprint.target_lang, "zh");
    assert_eq!(loaded.fingerprint.translate_provider, "openai");
    assert_eq!(loaded.fingerprint.translate_model, "gpt-3.5-turbo");
    assert_eq!(loaded.fingerprint.asr_model, "qwen-audio-3.0-asr-flash-filetrans");
    assert_eq!(loaded.segments.len(), 2);
    assert_eq!(loaded.segments[0].status, SegmentStatus::Completed);
    assert_eq!(loaded.segments[0].translated.as_deref(), Some("你好"));
    assert_eq!(loaded.segments[0].source.as_deref(), Some("konnichiwa"));
    assert_eq!(loaded.segments[1].status, SegmentStatus::Pending);
}

#[test]
fn test_fold_update_line_overrides_pending_line() {
    let mut content = String::from(
        "{\"task_id\":\"t1\",\"video_path\":\"/v/m.mp4\",\"fingerprint\":{\"source_language\":\"auto\",\"target_lang\":\"zh\",\"translate_provider\":\"openai\",\"translate_model\":\"gpt\",\"asr_model\":\"qwen\"}}\n",
    );
    append(&mut content, &[pending(0, "hello")]);
    append(&mut content, &[completed_update(0, "你好")]);

    let loaded = load(&content).unwrap();
    assert_eq!(loaded.segments.len(), 1);
    let seg = &loaded.segments[0];
    assert_eq!(seg.status, SegmentStatus::Completed);
    assert_eq!(seg.translated.as_deref(), Some("你好"));
    assert_eq!(seg.source.as_deref(), Some("hello"));
    assert_eq!(seg.start_time, Some(0.0));
}

#[test]
fn test_corrupt_tail_line_skipped() {
    let mut content = String::from(
        "{\"task_id\":\"t1\",\"video_path\":\"/v/m.mp4\",\"fingerprint\":{\"source_language\":\"auto\",\"target_lang\":\"zh\",\"translate_provider\":\"\",\"translate_model\":\"\",\"asr_model\":\"\"}}\n",
    );
    append(&mut content, &[pending(0, "ok")]);
    content.push_str("{{torn write\n");

    let loaded = load(&content).unwrap();
    assert_eq!(loaded.segments.len(), 1);
    assert_eq!(loaded.segments[0].source.as_deref(), Some("ok"));
}

#[test]
fn test_corrupt_meta_is_no_checkpoint() {
    assert!(load("not json at all\n").is_none());
    assert!(load("").is_none());
    assert!(load("  \n\t\n").is_none());
}

#[test]
fn test_save_compacts_updates() {
    let mut content = String::from(
        "{\"task_id\":\"t1\",\"video_path\":\"/v/m.mp4\",\"fingerprint\":{\"source_language\":\"auto\",\"target_lang\":\"zh\",\"translate_provider\":\"\",\"translate_model\":\"\",\"asr_model\":\"\"}}\n",
    );
    append(&mut content, &[pending(0, "a")]);
    append(&mut content, &[completed_update(0, "A")]);

    let cp = load(&content).unwrap();
    let content = save(&cp);
    let n = content.lines().filter(|l| !l.trim().is_empty()).count();
    assert_eq!(n, 2);
}

#[test]
fn test_helpers() {
    let mut cp = Checkpoint::new("t".into(), "/v/m.mp4".into(), fp("auto", "zh"));
    assert!(!cp.is_all_completed());
    assert_eq!(cp.percent(), Fraction { numer: 0, denom: 1 });
    cp.segments = vec![pending(0, "a"), pending(1, "b")];
    cp.segments[0].status = SegmentStatus::Completed;
    cp.segments[0].translated = Some("A".into());
    assert_eq!(cp.completed_count(), 1);
    assert!(!cp.is_all_completed());
    let p = cp.percent();
    assert!((p.numer as f64 / p.denom as f64 - 0.5).abs() < 1e-9);
    cp.segments[1].status = SegmentStatus::Completed;
    cp.segments[1].translated = Some("B".into());
    assert!(cp.is_all_completed());
    let p = cp.percent();
    assert!((p.numer as f64 / p.denom as f64 - 1.0).abs() < 1e-9);
}

#[test]
fn test_task_id_stable_and_sensitive() {
    let id1 = compute_task_id("/v/video.mp4", 100, 1_700_000_000_000_000_000);
    let id1b = compute_task_id("/v/video.mp4", 100, 1_700_000_000_000_000_000);
    assert_eq!(id1, id1b);

    let id2 = compute_task_id("/v/video.mp4", 101, 1_700_000_000_000_000_000);
    assert_ne!(id1, id2);

    let id3 = compute_task_id("/v/video.mp4", 101, 1_700_003_600_000_000_000);
    assert_ne!(id2, id3);
    assert_ne!(id1, compute_task_id("/v/other.mp4", 100, 1_700_000_000_000_000_000));
}

#[test]
fn task_id_is_the_fnv_hash_of_path_size_and_time() {
    let mut bytes = "/v/影片.mp4".as_bytes().to_vec();
    bytes.extend_from_slice(&123_456_789u64.to_le_bytes());
    bytes.extend_from_slice(&1_700_000_000_123_456_789u128.to_le_bytes());
    let mut hash: u64 = 0xcbf29ce484222325;
    for b in bytes {
        hash ^= b as u64;
        hash = hash.wrapping_mul(0x100000001b3);
    }
    assert_eq!(
        compute_task_id("/v/影片.mp4", 123_456_789, 1_700_000_000_123_456_789),
        format!("{:x}", hash)
    );
}

#[test]
fn test_append_updates_appends_lines() {
    let mut cp = Checkpoint::new("t".into(), "/v/m.mp4".into(), fp("auto", "zh"));
    cp.segments = vec![pending(0, "a")];
    let mut content = save(&cp);

    append(&mut content, &[completed_update(0, "A")]);
    let loaded = load(&content).unwrap();
    assert_eq!(loaded.segments[0].status, SegmentStatus::Completed);
    assert_eq!(loaded.segments[0].translated.as_deref(), Some("A"));
}

#[test]
fn folding_orders_by_id_and_skips_unreadable_records() {
    let folded = fold_log(vec![
        Some(pending(7, "g")),
        None,
        Some(pending(2, "b")),
        Some(completed_update(7, "G")),
        Some(pending(4, "d")),
    ]);
    let ids: Vec<usize> = folded.iter().map(|s| s.segment_id).collect();
    assert_eq!(ids, vec![2, 4, 7]);
    assert_eq!(folded[2].status, SegmentStatus::Completed);
    assert_eq!(folded[2].source.as_deref(), Some("g"));
    assert_eq!(folded[2].translated.as_deref(), Some("G"));
    assert_eq!(folded[0].status, SegmentStatus::Pending);
}

#[test]
fn applying_a_record_is_reading_the_longer_log() {
    let mut cp = Checkpoint::new("t".into(), "/v/m.mp4".into(), fp("auto", "zh"));
    cp.apply(pending(3, "c"));
    cp.apply(pending(1, "a"));
    cp.apply(completed_update(3, "C"));
    assert_eq!(cp.segments.len(), 2);
    assert_eq!(cp.segments[0].segment_id, 1);
    assert_eq!(cp.segments[1].segment_id, 3);
    assert_eq!(cp.segments[1].source.as_deref(), Some("c"));
    assert_eq!(cp.segments[1].translated.as_deref(), Some("C"));
    assert_eq!(cp.completed_count(), 1);
}

#[test]
fn a_log_splits_into_the_lines_it_was_written_from() {
    let mut cp = Checkpoint::new("t".into(), "p".into(), fp("a", "b"));
    cp.segments = vec![pending(0, "x"), pending(1, "y")];
    let text = cp.save("meta", &vec!["one".to_string(), "two".to_string()]);
    assert_eq!(text, "meta\none\ntwo\n");
    let log = split_log(&text).unwrap();
    assert_eq!(log.meta, "meta");
    assert_eq!(log.records, vec!["one", "two"]);

    let crlf = split_log("m\r\n\r\n a \r\nb").unwrap();
    assert_eq!(crlf.meta, "m");
    assert_eq!(crlf.records, vec![" a ", "b"]);
}

#[test]
fn a_default_fingerprint_is_empty() {
    let f = CheckpointFingerprint::default();
    assert_eq!(f.source_language, "");
    assert_eq!(f.target_lang, "");
    assert_eq!(f.translate_provider, "");
    assert_eq!(f.translate_model, "");
    assert_eq!(f.asr_model, "");
}

#[test]
fn small_changes_give_other_task_ids() {
    let id = compute_task_id("/v/m.mp4", 100, 5_000);
    assert_ne!(id, compute_task_id("/v/m.mp4", 101, 5_000));
    assert_ne!(id, compute_task_id("/v/m.mp4", 100, 5_001));
    assert_ne!(id, compute_task_id("/v/n.mp4", 100, 5_000));
    assert_eq!(id, compute_task_id("/v/m.mp4", 100, 5_000));
}
