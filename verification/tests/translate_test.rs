use pick_up_sound_text::error::{Error, TransportFailure};
use pick_up_sound_text::http::HttpReply;
use pick_up_sound_text::json::{parse_json, write_json};
use pick_up_sound_text::translate::openai::{
    on_test_reply, on_translate_reply, prompt, read_translation, OpenAiCompatibleProvider, Retry,
    Sending, TestReply, CONNECT_TIMEOUT_SECS, MAX_ATTEMPTS,
};
use pick_up_sound_text::translate::TranslateRequest;
use serde_json::Value;

fn provider() -> OpenAiCompatibleProvider {
    OpenAiCompatibleProvider {
        base_url: "https://api.openai.com/v1".to_string(),
        model: "gpt-3.5-turbo".to_string(),
        api_key: "test_key".to_string(),
        timeout_secs: 60,
    }
}

fn request(context: Vec<String>) -> TranslateRequest {
    TranslateRequest {
        text: "Hello".to_string(),
        source_lang: "en".to_string(),
        target_lang: "zh".to_string(),
        context,
        glossary: None,
    }
}

fn failed() -> TransportFailure {
    TransportFailure {
        message: "error sending request".to_string(),
        timeout: true,
        connect: false,
        causes: vec!["operation timed out".to_string()],
    }
}

fn text(e: Error) -> String {
    match e {
        Error::Translate(m) => m,
        other => panic!("{:?}", other),
    }
}

#[test]
fn prompts_carry_the_context() {
    assert_eq!(prompt(&request(vec![])), ["Translate", " from en to zh:\n\nHello"].concat());
    assert_eq!(
        prompt(&request(vec!["b".to_string(), "a".to_string()])),
        ["Previous context:\nb\na\n\nTranslate", " from en to zh:\n\nHello"].concat()
    );
}

#[test]
fn requests_hold_the_conversation() {
    let v: Value =
        serde_json::from_str(&write_json(&provider().translate_body(&request(vec![])))).unwrap();
    assert_eq!(v["model"], "gpt-3.5-turbo");
    assert_eq!(v["temperature"].as_f64(), Some(0.3));
    assert_eq!(v["max_tokens"], 500);
    let messages = v["messages"].as_array().unwrap();
    assert_eq!(messages.len(), 6);
    let roles: Vec<&str> = messages.iter().map(|m| m["role"].as_str().unwrap()).collect();
    assert_eq!(roles, vec!["system", "user", "assistant", "user", "assistant", "user"]);
    assert!(messages[0]["content"].as_str().unwrap().starts_with(
        "You are a professional subtitle translator. Translate the given text naturally"
    ));
    assert_eq!(
        messages[1]["content"],
        ["Translate", " from en to zh:\n\nWe have main engine start, 4, 3, 2, 1."].concat()
    );
    assert_eq!(messages[2]["content"], "主发动机启动，4、3、2、1。");
    assert_eq!(messages[4]["content"], "你有你的机器人技术，而我只想在太空中大显身手。");
    assert_eq!(messages[5]["content"], ["Translate", " from en to zh:\n\nHello"].concat());
}

#[test]
fn translations_begin_with_a_request() {
    let (chat, _, sending) = provider().translate(&request(vec![]));
    assert_eq!(chat.url, "https://api.openai.com/v1/chat/completions");
    assert_eq!(chat.authorization, "Bearer test_key");
    assert_eq!(chat.body, write_json(&provider().translate_body(&request(vec![]))));
    assert_eq!(sending, Sending { delay_secs: 0, no_proxy: false });
    assert_eq!(CONNECT_TIMEOUT_SECS, 10);
}

#[test]
fn unanswered_requests_are_sent_three_times() {
    assert_eq!(MAX_ATTEMPTS, 3);
    let (_, call, _) = provider().translate(&request(vec![]));
    let (call, retry) = call.unanswered(&failed());
    match retry {
        Retry::Again(s) => assert_eq!(s, Sending { delay_secs: 2, no_proxy: false }),
        other => panic!("{:?}", other),
    }
    let (call, retry) = call.unanswered(&failed());
    match retry {
        Retry::Again(s) => assert_eq!(s, Sending { delay_secs: 5, no_proxy: true }),
        other => panic!("{:?}", other),
    }
    let (_, retry) = call.unanswered(&failed());
    match retry {
        Retry::GiveUp(e) => assert_eq!(
            text(e),
            "HTTP request failed after 3 attempts: error sending request [timeout: operation timed out]"
        ),
        other => panic!("{:?}", other),
    }
}

#[test]
fn replies_hold_a_translation_or_an_error() {
    let reply = |t: &str| on_translate_reply(&HttpReply::Body(t.to_string()));
    assert_eq!(
        reply("{\"choices\":[{\"message\":{\"content\":\"你好\"}}]}").unwrap().translated_text,
        "你好"
    );
    assert_eq!(text(reply("{\"choices\":[]}").unwrap_err()), "Invalid response format");
    assert_eq!(
        text(reply("oops").unwrap_err()),
        "Failed to parse response: error decoding response body"
    );
    assert_eq!(
        text(
            on_translate_reply(&HttpReply::Refused {
                status: "429 Too Many Requests".to_string(),
                body: Some("slow".to_string())
            })
            .unwrap_err()
        ),
        "API error 429 Too Many Requests: slow"
    );
    assert_eq!(
        text(on_translate_reply(&HttpReply::Unread("cut".to_string())).unwrap_err()),
        "Failed to parse response: cut"
    );
    let j = parse_json("{\"choices\":[{\"message\":{\"content\":null}}]}").unwrap();
    assert!(read_translation(&j).is_err());
}

#[test]
fn connections_are_tested() {
    let chat = provider().test_connection();
    let v: Value = serde_json::from_str(&chat.body).unwrap();
    assert_eq!(v["messages"][0]["content"], "hi");
    assert_eq!(v["messages"][0]["role"], "user");
    assert_eq!(v["max_tokens"], 1);
    assert_eq!(v["model"], "gpt-3.5-turbo");
    assert_eq!(chat.body, write_json(&provider().test_body()));
    assert!(on_test_reply(&TestReply::Accepted).is_ok());
    assert_eq!(
        text(on_test_reply(&TestReply::Unsent(failed())).unwrap_err()),
        "Connection test failed: error sending request [timeout: operation timed out]"
    );
    assert_eq!(
        text(
            on_test_reply(&TestReply::Refused { status: "401 Unauthorized".to_string(), body: None })
                .unwrap_err()
        ),
        "API error 401 Unauthorized: Unknown error"
    );
}
