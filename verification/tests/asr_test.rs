use pick_up_sound_text::asr::dashscope::{
    bearer, finish_task, finish_task_message, on_frame, on_message, reading_ends, run_task,
    run_task_message, stream_url, StreamFrame, StreamSignal,
};
use pick_up_sound_text::asr::dashscope_filetrans::{
    build_submit_parameters, poll_outcome, read_result, submit_body, task_id_of, FileTransAction,
    FileTransStage, FileTransTask, PollOutcome,
};
use pick_up_sound_text::asr::{
    AsrConfig, AsrEvent, DashScopeAsrProvider, DashScopeFileTransProvider,
};
use pick_up_sound_text::config::OssConfig;
use pick_up_sound_text::error::Error;
use pick_up_sound_text::http::HttpReply;
use pick_up_sound_text::json::{parse_json, write_json, Json};
use serde_json::Value;

fn config() -> AsrConfig {
    AsrConfig {
        provider: "dashscope".to_string(),
        model: "paraformer-realtime-v2".to_string(),
        api_key: " test_key \n".to_string(),
        language: "auto".to_string(),
        workspace_id: None,
        diarization: false,
    }
}

fn value(j: &Json) -> Value {
    serde_json::from_str(&write_json(j)).unwrap()
}

fn doc(text: &str) -> Json {
    parse_json(text).unwrap()
}

fn asr_error(e: Error) -> String {
    match e {
        Error::Asr(m) => m,
        other => panic!("{:?}", other),
    }
}

#[test]
fn submit_parameters_omit_diarization_when_off() {
    let p = value(&build_submit_parameters("zh", false));
    assert!(p.get("diarization_enabled").is_none());
    assert_eq!(p["language_hints"][0], "zh");
    assert_eq!(p["channel_id"][0], 0);
}

#[test]
fn submit_parameters_enable_diarization_when_on() {
    let p = value(&build_submit_parameters("auto", true));
    assert_eq!(p["diarization_enabled"], true);
    assert_eq!(p["language_hints"][0], "auto");
}

#[test]
fn streams_have_an_address_per_workspace() {
    assert_eq!(stream_url(&None), "wss://dashscope.aliyuncs.com/api-ws/v1/inference");
    assert_eq!(
        stream_url(&Some("ws1".to_string())),
        "wss://ws1.cn-beijing.maas.aliyuncs.com/api-ws/v1/inference"
    );
    assert_eq!(bearer("  key\n"), "Bearer key");
}

#[test]
fn a_task_begins_with_its_parameters() {
    let mut c = config();
    let v = value(&run_task("id-1", &c));
    assert_eq!(v["header"]["action"], "run-task");
    assert_eq!(v["header"]["task_id"], "id-1");
    assert_eq!(v["header"]["streaming"], "duplex");
    assert_eq!(v["payload"]["task_group"], "audio");
    assert_eq!(v["payload"]["task"], "asr");
    assert_eq!(v["payload"]["function"], "recognition");
    assert_eq!(v["payload"]["model"], "paraformer-realtime-v2");
    assert!(v["payload"]["input"].as_object().unwrap().is_empty());
    let p = &v["payload"]["parameters"];
    assert_eq!(p["format"], "pcm");
    assert_eq!(p["sample_rate"], 16000);
    assert_eq!(p["semantic_punctuation_enabled"], false);
    assert_eq!(p["max_sentence_silence"], 1300);
    assert_eq!(p["heartbeat"], true);
    assert!(p.get("language_hints").is_none());

    c.language = "".to_string();
    assert!(value(&run_task("x", &c))["payload"]["parameters"].get("language_hints").is_none());
    c.language = "ja".to_string();
    assert_eq!(value(&run_task("x", &c))["payload"]["parameters"]["language_hints"][0], "ja");
    assert_eq!(run_task_message("x", &c), write_json(&run_task("x", &c)));
}

#[test]
fn a_task_ends_with_a_message() {
    let v = value(&finish_task("id-2"));
    assert_eq!(v["header"]["action"], "finish-task");
    assert_eq!(v["header"]["task_id"], "id-2");
    assert!(v["payload"]["input"].as_object().unwrap().is_empty());
    assert_eq!(
        finish_task_message("id-2"),
        "{\"header\":{\"action\":\"finish-task\",\"streaming\":\"duplex\",\"task_id\":\"id-2\"},\"payload\":{\"input\":{}}}"
    );
}

#[test]
fn a_stream_begins_under_a_fresh_id() {
    let a = DashScopeAsrProvider.start_stream(&config());
    let b = DashScopeAsrProvider.start_stream(&config());
    assert_eq!(a.task_id.len(), 36);
    for (i, c) in a.task_id.chars().enumerate() {
        match i {
            8 | 13 | 18 | 23 => assert_eq!(c, '-'),
            14 => assert_eq!(c, '4'),
            _ => assert!(c.is_ascii_digit() || ('a'..='f').contains(&c)),
        }
    }
    assert_ne!(a.task_id, b.task_id);
    assert_eq!(a.authorization, "Bearer test_key");
    assert_eq!(a.url, "wss://dashscope.aliyuncs.com/api-ws/v1/inference");
    assert_eq!(a.run_task, run_task_message(&a.task_id, &config()));
}

fn signal(text: &str) -> StreamSignal {
    on_frame(&StreamFrame::Text(text.to_string())).unwrap()
}

#[test]
fn results_become_events() {
    let partial = "{\"header\":{\"event\":\"result-generated\"},\"payload\":{\"output\":{\"sentence\":{\"text\":\"he\",\"begin_time\":100,\"end_time\":null,\"sentence_end\":false}}}}";
    match signal(partial) {
        StreamSignal::Event(AsrEvent::Partial { text, ts_start, ts_end }) => {
            assert_eq!(text, "he");
            assert_eq!(ts_start.as_deref(), Some("100"));
            assert_eq!(ts_end, None);
        }
        other => panic!("{:?}", other),
    }
    let last = "{\"header\":{\"event\":\"result-generated\"},\"payload\":{\"output\":{\"sentence\":{\"text\":\"hello\",\"begin_time\":100.5,\"end_time\":900,\"sentence_end\":true}}}}";
    match signal(last) {
        StreamSignal::Event(AsrEvent::Final { text, ts_start, ts_end }) => {
            assert_eq!(text, "hello");
            assert_eq!(ts_start.unwrap().parse::<f64>().unwrap() / 1000.0, 0.1005);
            assert_eq!(ts_end.unwrap().parse::<f64>().unwrap() / 1000.0, 0.9);
        }
        other => panic!("{:?}", other),
    }
}

#[test]
fn other_messages_of_the_service() {
    assert!(matches!(signal("{\"header\":{\"event\":\"task-started\"}}"), StreamSignal::Nothing));
    assert!(matches!(signal("{\"header\":{}}"), StreamSignal::Nothing));
    assert!(matches!(signal("no document"), StreamSignal::Nothing));
    assert!(matches!(
        signal("{\"header\":{\"event\":\"result-generated\"},\"payload\":{}}"),
        StreamSignal::Nothing
    ));
    assert!(matches!(
        signal("{\"header\":{\"event\":\"result-generated\"},\"payload\":{\"output\":{\"sentence\":{\"text\":\"x\"}}}}"),
        StreamSignal::Broken
    ));
    assert!(matches!(
        signal("{\"header\":{\"event\":\"task-finished\"}}"),
        StreamSignal::Last(AsrEvent::EndOfStream)
    ));
    match signal("{\"header\":{\"event\":\"task-failed\",\"error_code\":\"E1\",\"error_message\":\"bad\"}}") {
        StreamSignal::Last(AsrEvent::Error { code, message }) => {
            assert_eq!(code, "E1");
            assert_eq!(message, "bad");
        }
        other => panic!("{:?}", other),
    }
    match on_message(&doc("{\"header\":{\"event\":\"task-failed\"}}")) {
        StreamSignal::Last(AsrEvent::Error { code, message }) => {
            assert_eq!(code, "UNKNOWN");
            assert_eq!(message, "Unknown error");
        }
        other => panic!("{:?}", other),
    }
}

#[test]
fn frames_end_the_stream() {
    let closed = on_frame(&StreamFrame::Close);
    assert!(matches!(closed, Ok(StreamSignal::Last(AsrEvent::EndOfStream))));
    assert!(reading_ends(&closed));
    let failed = on_frame(&StreamFrame::Failure("reset".to_string()));
    assert!(reading_ends(&failed));
    assert_eq!(asr_error(failed.unwrap_err()), "WebSocket error: reset");
    let other = on_frame(&StreamFrame::Other);
    assert!(!reading_ends(&other));
    assert!(matches!(other, Ok(StreamSignal::Nothing)));
    assert!(reading_ends(&Ok(StreamSignal::Broken)));
}

fn oss() -> OssConfig {
    OssConfig {
        endpoint: "e".to_string(),
        bucket: "b".to_string(),
        access_key_id: "i".to_string(),
        access_key_secret: "s".to_string(),
        path_prefix: None,
    }
}

fn begin() -> FileTransTask {
    let mut c = config();
    c.workspace_id = Some("ws".to_string());
    c.language = "zh".to_string();
    let provider = DashScopeFileTransProvider { oss_config: Some(oss()) };
    let (task, action) = provider.transcribe_file(c, "/tmp/a.wav").unwrap();
    match action {
        FileTransAction::Upload { object_name } => assert_eq!(object_name, task.object_name),
        other => panic!("{:?}", other),
    }
    task
}

#[test]
fn transcription_needs_a_workspace_and_a_store() {
    let provider = DashScopeFileTransProvider { oss_config: None };
    assert_eq!(
        asr_error(provider.transcribe_file(config(), "/a").unwrap_err()),
        "Workspace ID is required for file transcription"
    );
    let mut c = config();
    c.workspace_id = Some("ws".to_string());
    assert_eq!(
        asr_error(provider.transcribe_file(c, "/a").unwrap_err()),
        "OSS config is required for file transcription"
    );
}

fn body(text: &str) -> HttpReply {
    HttpReply::Body(text.to_string())
}

#[test]
fn a_transcription_runs_from_upload_to_result() {
    let mut task = begin();
    match task.uploaded("https://oss/a.wav") {
        FileTransAction::Submit { url, authorization, body } => {
            assert_eq!(
                url,
                "https://ws.cn-beijing.maas.aliyuncs.com/api/v1/services/audio/asr/transcription"
            );
            assert_eq!(authorization, "Bearer test_key");
            let v: Value = serde_json::from_str(&body).unwrap();
            assert_eq!(v["model"], "paraformer-realtime-v2");
            assert_eq!(v["input"]["file_urls"][0], "https://oss/a.wav");
            assert_eq!(v["parameters"]["language_hints"][0], "zh");
        }
        other => panic!("{:?}", other),
    }
    match task.replied(&body("{\"output\":{\"task_id\":\"T1\"}}")) {
        FileTransAction::Poll { url, authorization, delay_secs } => {
            assert_eq!(delay_secs, 2);
            assert_eq!(url, "https://ws.cn-beijing.maas.aliyuncs.com/api/v1/tasks/T1");
            assert_eq!(authorization, "Bearer test_key");
        }
        other => panic!("{:?}", other),
    }
    match task.replied(&body("{\"output\":{\"task_status\":\"RUNNING\"}}")) {
        FileTransAction::Poll { url, .. } => {
            assert_eq!(url, "https://ws.cn-beijing.maas.aliyuncs.com/api/v1/tasks/T1")
        }
        other => panic!("{:?}", other),
    }
    match task.replied(&body(
        "{\"output\":{\"task_status\":\"SUCCEEDED\",\"results\":[{\"transcription_url\":\"https://r\"}]}}",
    )) {
        FileTransAction::Download { url } => assert_eq!(url, "https://r"),
        other => panic!("{:?}", other),
    }
    let name = task.object_name.clone();
    match task.replied(&body(
        "{\"transcripts\":[{\"sentences\":[{\"text\":\"a\",\"begin_time\":0,\"end_time\":1500},{\"end_time\":\"x\"}]},{},{\"sentences\":[{\"text\":\"b\"}]}]}",
    )) {
        FileTransAction::Done { object_name, result } => {
            assert_eq!(object_name, name);
            let texts: Vec<&str> = result.sentences.iter().map(|s| s.text.as_str()).collect();
            assert_eq!(texts, vec!["a", "", "b"]);
            assert_eq!(result.sentences[0].begin_time.as_deref(), Some("0"));
            assert_eq!(result.sentences[0].end_time.as_deref(), Some("1500"));
            assert_eq!(result.sentences[1].begin_time, None);
            assert_eq!(result.sentences[1].end_time, None);
        }
        other => panic!("{:?}", other),
    }
    assert_eq!(task.stage, FileTransStage::Over);
}

fn failure(action: FileTransAction) -> String {
    match action {
        FileTransAction::Fail(e) => asr_error(e),
        other => panic!("{:?}", other),
    }
}

#[test]
fn a_transcription_fails_at_each_step() {
    let mut task = begin();
    assert_eq!(failure(task.upload_failed(Error::Asr("no".to_string()))), "no");

    let mut task = begin();
    task.uploaded("u");
    assert_eq!(
        failure(task.replied(&HttpReply::Unsent("down".to_string()))),
        "Failed to submit task: down"
    );
    let mut task = begin();
    task.uploaded("u");
    assert_eq!(
        failure(task.replied(&HttpReply::Refused {
            status: "401 Unauthorized".to_string(),
            body: Some("bad key".to_string())
        })),
        "Submit task failed 401 Unauthorized: bad key"
    );
    let mut task = begin();
    task.uploaded("u");
    assert_eq!(
        failure(task.replied(&body("<html>"))),
        "Failed to parse submit response: error decoding response body"
    );
    let mut task = begin();
    task.uploaded("u");
    assert_eq!(failure(task.replied(&body("{}"))), "No task_id in submit response");

    let polling = || {
        let mut task = begin();
        task.uploaded("u");
        task.replied(&body("{\"output\":{\"task_id\":\"T1\"}}"));
        task
    };
    assert_eq!(
        failure(polling().replied(&HttpReply::Refused {
            status: "500 Internal Server Error".to_string(),
            body: None
        })),
        "Query task failed 500 Internal Server Error: Unknown error"
    );
    assert_eq!(
        failure(polling().replied(&HttpReply::Unread("cut".to_string()))),
        "Failed to parse query response: cut"
    );
    assert_eq!(
        failure(polling().replied(&body("{\"output\":{\"task_status\":\"FAILED\",\"message\":\"m\"}}"))),
        "Transcription failed: m"
    );
    assert_eq!(failure(polling().replied(&body("{}"))), "Transcription failed: Unknown error");
    assert_eq!(
        failure(polling().replied(&body("{\"output\":{\"task_status\":\"SUCCEEDED\",\"results\":[]}}"))),
        "No transcription_url in response"
    );

    let downloading = || {
        let mut task = polling();
        task.replied(&body(
            "{\"output\":{\"task_status\":\"SUCCEEDED\",\"results\":[{\"transcription_url\":\"r\"}]}}",
        ));
        task
    };
    assert_eq!(
        failure(downloading().replied(&HttpReply::Unsent("x".to_string()))),
        "Failed to download result: x"
    );
    assert_eq!(
        failure(downloading().replied(&HttpReply::Refused {
            status: "404 Not Found".to_string(),
            body: None
        })),
        "Download result failed 404 Not Found: Unknown error"
    );
    assert_eq!(
        failure(downloading().replied(&body("?"))),
        "Failed to parse result JSON: error decoding response body"
    );
}

#[test]
fn documents_of_the_service_are_read() {
    assert_eq!(task_id_of(&doc("{\"output\":{\"task_id\":\"T\"}}")).unwrap(), "T");
    assert!(task_id_of(&doc("{\"output\":{\"task_id\":5}}")).is_err());
    assert!(matches!(
        poll_outcome(&doc("{\"output\":{\"task_status\":\"PENDING\"}}")),
        PollOutcome::Again
    ));
    assert!(read_result(&doc("{\"transcripts\":{}}")).sentences.is_empty());
    assert!(read_result(&doc("[]")).sentences.is_empty());
    let mut c = config();
    c.diarization = true;
    assert_eq!(value(&submit_body(&c, "u"))["parameters"]["diarization_enabled"], true);
}
