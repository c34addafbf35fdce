//! Streaming recognition with DashScope: the messages of its web socket.

use crate::asr::{AsrConfig, AsrEvent};
use crate::error::Error;
use crate::json::{
    array_of, as_text, field, has_member, json_parse, lemma_member_skips, no_members, parse_json,
    str_or, text_or, write_json, written, Json, JsonView, ObjectBuilder,
};
use crate::text::{cat, cat3, opt_text, text_eq, trim, trim_spec};
use vstd::prelude::*;
use vstd::string::*;

verus! {

/// The streaming recogniser of DashScope.
#[derive(Debug, Clone, Copy)]
pub struct DashScopeAsrProvider;

/// The address of the web socket. A workspace has an address of its own.
pub open spec fn stream_url_text(workspace_id: Option<Seq<char>>) -> Seq<char> {
    match workspace_id {
        Some(w) => "wss://"@ + w + ".cn-beijing.maas.aliyuncs.com/api-ws/v1/inference"@,
        None => "wss://dashscope.aliyuncs.com/api-ws/v1/inference"@,
    }
}

/// The address of the web socket.
pub fn stream_url(workspace_id: &Option<String>) -> (r: String)
    ensures
        r@ == stream_url_text(opt_text(*workspace_id)),
        *workspace_id matches Some(w) ==> r@ == "wss://"@ + w@
            + ".cn-beijing.maas.aliyuncs.com/api-ws/v1/inference"@,
        *workspace_id is None ==> r@ == "wss://dashscope.aliyuncs.com/api-ws/v1/inference"@,
{
    match workspace_id {
        Some(w) => cat3(
            "wss://",
            w.as_str(),
            ".cn-beijing.maas.aliyuncs.com/api-ws/v1/inference",
        ),
        None => "wss://dashscope.aliyuncs.com/api-ws/v1/inference".to_owned(),
    }
}

/// The authorisation header for an API key; white space around the key does
/// not count.
pub fn bearer(api_key: &str) -> (r: String)
    ensures
        r@ == "Bearer "@ + trim_spec(api_key@),
{
    let key = trim(api_key);
    cat("Bearer ", key.as_str())
}

/// The parameters of a streaming task. The language is only hinted at where it
/// is known.
pub open spec fn stream_parameters(language: Seq<char>) -> JsonView {
    let base = no_members()
        .push(("format"@, JsonView::Str("pcm"@)))
        .push(("sample_rate"@, JsonView::Number("16000"@)))
        .push(("semantic_punctuation_enabled"@, JsonView::Bool(false)))
        .push(("max_sentence_silence"@, JsonView::Number("1300"@)))
        .push(("heartbeat"@, JsonView::Bool(true)));
    JsonView::Obj(
        if language != "auto"@ && language.len() > 0 {
            base.push(("language_hints"@, JsonView::Arr(seq![JsonView::Str(language)])))
        } else {
            base
        },
    )
}

/// The header of a message to the service.
pub open spec fn message_header(action: Seq<char>, task_id: Seq<char>) -> JsonView {
    JsonView::Obj(
        no_members()
            .push(("action"@, JsonView::Str(action)))
            .push(("task_id"@, JsonView::Str(task_id)))
            .push(("streaming"@, JsonView::Str("duplex"@))),
    )
}

/// The message that begins a task.
pub open spec fn run_task_document(
    task_id: Seq<char>,
    model: Seq<char>,
    language: Seq<char>,
) -> JsonView {
    JsonView::Obj(
        no_members().push(("header"@, message_header("run-task"@, task_id))).push((
                "payload"@,
                JsonView::Obj(
                    no_members()
                        .push(("task_group"@, JsonView::Str("audio"@)))
                        .push(("task"@, JsonView::Str("asr"@)))
                        .push(("function"@, JsonView::Str("recognition"@)))
                        .push(("model"@, JsonView::Str(model)))
                        .push(("input"@, JsonView::Obj(no_members())))
                        .push(("parameters"@, stream_parameters(language))),
                ),
            )),
    )
}

/// The message that ends a task.
pub open spec fn finish_task_document(task_id: Seq<char>) -> JsonView {
    JsonView::Obj(
        no_members()
            .push(("header"@, message_header("finish-task"@, task_id)))
            .push(("payload"@, JsonView::Obj(no_members().push(("input"@, JsonView::Obj(no_members())))))),
    )
}

fn header(action: &str, task_id: &str) -> (r: Json)
    ensures
        r.model() == message_header(action@, task_id@),
{
    ObjectBuilder::new().with_text("action", action).with_text("task_id", task_id).with_text(
        "streaming",
        "duplex",
    ).build()
}

fn parameters(language: &str) -> (r: Json)
    ensures
        r.model() == stream_parameters(language@),
{
    let base = ObjectBuilder::new().with_text("format", "pcm").with(
        "sample_rate",
        Json::Number("16000".to_owned()),
    ).with("semantic_punctuation_enabled", Json::Bool(false)).with(
        "max_sentence_silence",
        Json::Number("1300".to_owned()),
    ).with("heartbeat", Json::Bool(true));
    if !text_eq(language, "auto") && !language.is_empty() {
        let hints = array_of(Json::Str(language.to_owned()));
        base.with("language_hints", hints).build()
    } else {
        base.build()
    }
}

/// The message that begins a task.
pub fn run_task(task_id: &str, config: &AsrConfig) -> (r: Json)
    ensures
        r.model() == run_task_document(task_id@, config.model@, config.language@),
{
    let payload = ObjectBuilder::new().with_text("task_group", "audio").with_text(
        "task",
        "asr",
    ).with_text("function", "recognition").with_text("model", config.model.as_str()).with(
        "input",
        ObjectBuilder::new().build(),
    ).with("parameters", parameters(config.language.as_str())).build();
    ObjectBuilder::new().with("header", header("run-task", task_id)).with(
        "payload",
        payload,
    ).build()
}

/// The text of the message that begins a task.
pub fn run_task_message(task_id: &str, config: &AsrConfig) -> (r: String)
    ensures
        r@ == written(run_task_document(task_id@, config.model@, config.language@)),
{
    write_json(&run_task(task_id, config))
}

/// The message that ends a task.
pub fn finish_task(task_id: &str) -> (r: Json)
    ensures
        r.model() == finish_task_document(task_id@),
{
    let payload = ObjectBuilder::new().with("input", ObjectBuilder::new().build()).build();
    ObjectBuilder::new().with("header", header("finish-task", task_id)).with(
        "payload",
        payload,
    ).build()
}

/// The text of the message that ends a task.
pub fn finish_task_message(task_id: &str) -> (r: String)
    ensures
        r@ == written(finish_task_document(task_id@)),
{
    write_json(&finish_task(task_id))
}

/// Whether a text is a random UUID: thirty-six characters, hyphens at four
/// places, the version at one, and lower-case hexadecimal digits elsewhere.
pub open spec fn is_task_id(id: Seq<char>) -> bool {
    &&& id.len() == 36
    &&& id[8] == '-' && id[13] == '-' && id[18] == '-' && id[23] == '-'
    &&& id[14] == '4'
    &&& forall|i: int|
        0 <= i < 36 && i != 8 && i != 13 && i != 18 && i != 23 ==> '0' <= #[trigger] id[i] <= '9'
            || 'a' <= id[i] <= 'f'
}

/// `uuid::Uuid::new_v4`, written with hyphens: a fresh random id. Which one it
/// is cannot be foretold.
#[verifier::external_body]
fn new_task_id() -> (r: String)
    ensures
        is_task_id(r@),
{
    uuid::Uuid::new_v4().to_string()
}

/// What a stream begins with: where to connect, as whom, and the first
/// message.
#[derive(Debug)]
pub struct StreamStart {
    pub url: String,
    pub authorization: String,
    pub task_id: String,
    pub run_task: String,
}

impl DashScopeAsrProvider {
    /// Begins a stream under a fresh task id.
    pub fn start_stream(&self, config: &AsrConfig) -> (r: StreamStart)
        ensures
            r.url@ == stream_url_text(opt_text(config.workspace_id)),
            r.authorization@ == "Bearer "@ + trim_spec(config.api_key@),
            is_task_id(r.task_id@),
            r.run_task@ == written(
                run_task_document(r.task_id@, config.model@, config.language@),
            ),
    {
        let task_id = new_task_id();
        let run_task = run_task_message(task_id.as_str(), config);
        StreamStart {
            url: stream_url(&config.workspace_id),
            authorization: bearer(config.api_key.as_str()),
            task_id,
            run_task,
        }
    }
}

/// A streaming task hints at its language exactly where the language is given
/// and is not to be found out.
pub proof fn language_is_hinted_where_known(language: Seq<char>)
    ensures
        has_member(stream_parameters(language), "language_hints"@) <==> language != "auto"@
            && language.len() > 0,
        has_member(stream_parameters(language), "language_hints"@) ==> field(
            stream_parameters(language),
            "language_hints"@,
        ) == JsonView::Arr(seq![JsonView::Str(language)]),
{
    reveal_strlit("format");
    reveal_strlit("sample_rate");
    reveal_strlit("semantic_punctuation_enabled");
    reveal_strlit("max_sentence_silence");
    reveal_strlit("heartbeat");
    reveal_strlit("language_hints");
    let m = stream_parameters(language)->Obj_0;
    let key = "language_hints"@;
    assert(m[0].0.len() == 6 && m[1].0.len() == 11 && m[2].0.len() == 28 && m[3].0.len() == 20
        && m[4].0.len() == 9 && key.len() == 14);
    lemma_member_skips(m, key, 5);
    if m.len() > 5 {
        assert(m.skip(5)[0].0 == key);
    } else {
        assert(m.skip(5).len() == 0);
    }
}

/// A time as the service reports it: the text of a number of milliseconds,
/// where there is one.
pub type ReportedTime = Option<String>;

/// What a message of the service amounts to.
#[derive(Debug)]
pub enum StreamSignal {
    /// Nothing that concerns the caller.
    Nothing,
    /// An event; more may follow.
    Event(AsrEvent<ReportedTime>),
    /// An event after which nothing more is read.
    Last(AsrEvent<ReportedTime>),
    /// A result that lacks a part; nothing more is read.
    Broken,
}

/// What an event says.
pub enum EventView {
    Partial { text: Seq<char>, start: Option<Seq<char>>, end: Option<Seq<char>> },
    Final { text: Seq<char>, start: Option<Seq<char>>, end: Option<Seq<char>> },
    Error { code: Seq<char>, message: Seq<char> },
    EndOfStream,
}

/// What an event says.
pub open spec fn event_view(e: AsrEvent<ReportedTime>) -> EventView {
    match e {
        AsrEvent::Partial { text, ts_start, ts_end } => EventView::Partial {
            text: text@,
            start: opt_text(ts_start),
            end: opt_text(ts_end),
        },
        AsrEvent::Final { text, ts_start, ts_end } => EventView::Final {
            text: text@,
            start: opt_text(ts_start),
            end: opt_text(ts_end),
        },
        AsrEvent::Error { code, message } => EventView::Error { code: code@, message: message@ },
        AsrEvent::EndOfStream => EventView::EndOfStream,
    }
}

/// What a [`StreamSignal`] says.
pub enum SignalView {
    Nothing,
    Event(EventView),
    Last(EventView),
    Broken,
}

impl View for StreamSignal {
    type V = SignalView;

    open spec fn view(&self) -> SignalView {
        match *self {
            StreamSignal::Nothing => SignalView::Nothing,
            StreamSignal::Event(e) => SignalView::Event(event_view(e)),
            StreamSignal::Last(e) => SignalView::Last(event_view(e)),
            StreamSignal::Broken => SignalView::Broken,
        }
    }
}

/// The text of a number; nothing where the document is none.
pub open spec fn number_text(v: JsonView) -> Option<Seq<char>> {
    match v {
        JsonView::Number(s) => Some(s),
        _ => None,
    }
}

/// What a recognised sentence amounts to. All its parts have to be there,
/// though they may be null; a sentence that is not said to have ended has not.
pub open spec fn sentence_signal(s: JsonView) -> SignalView {
    if !(has_member(s, "text"@) && has_member(s, "begin_time"@) && has_member(s, "end_time"@)
        && has_member(s, "sentence_end"@)) {
        SignalView::Broken
    } else {
        let text = text_or(field(s, "text"@), ""@);
        let start = number_text(field(s, "begin_time"@));
        let end = number_text(field(s, "end_time"@));
        if field(s, "sentence_end"@) == JsonView::Bool(true) {
            SignalView::Event(EventView::Final { text, start, end })
        } else {
            SignalView::Event(EventView::Partial { text, start, end })
        }
    }
}

/// What a message of the service amounts to.
pub open spec fn message_signal(v: JsonView) -> SignalView {
    let head = field(v, "header"@);
    match as_text(field(head, "event"@)) {
        None => SignalView::Nothing,
        Some(event) => if event == "result-generated"@ {
            let sentence = field(field(field(v, "payload"@), "output"@), "sentence"@);
            if sentence is Obj {
                sentence_signal(sentence)
            } else {
                SignalView::Nothing
            }
        } else if event == "task-finished"@ {
            SignalView::Last(EventView::EndOfStream)
        } else if event == "task-failed"@ {
            SignalView::Last(
                EventView::Error {
                    code: text_or(field(head, "error_code"@), "UNKNOWN"@),
                    message: text_or(field(head, "error_message"@), "Unknown error"@),
                },
            )
        } else {
            SignalView::Nothing
        },
    }
}

/// The text of an optional number.
fn number_of(j: &Json) -> (r: Option<String>)
    ensures
        opt_text(r) == number_text(j.model()),
{
    j.as_number()
}

fn on_sentence(s: &Json) -> (r: StreamSignal)
    ensures
        r@ == sentence_signal(s.model()),
{
    match (s.get("text"), s.get("begin_time"), s.get("end_time"), s.get("sentence_end")) {
        (Some(text), Some(begin), Some(end), Some(ended)) => {
            let text = str_or(Some(text), "");
            let ts_start = number_of(begin);
            let ts_end = number_of(end);
            let is_end: bool = match ended.as_bool() {
                Some(b) => b,
                None => false,
            };
            if is_end {
                StreamSignal::Event(AsrEvent::Final { text, ts_start, ts_end })
            } else {
                StreamSignal::Event(AsrEvent::Partial { text, ts_start, ts_end })
            }
        },
        _ => StreamSignal::Broken,
    }
}

/// What a message of the service amounts to.
pub fn on_message(j: &Json) -> (r: StreamSignal)
    ensures
        r@ == message_signal(j.model()),
{
    let event = match j.get2("header", "event") {
        Some(e) => match e.as_str() {
            Some(s) => s,
            None => {
                return StreamSignal::Nothing;
            },
        },
        None => {
            return StreamSignal::Nothing;
        },
    };
    if text_eq(event.as_str(), "result-generated") {
        match j.get2("payload", "output") {
            Some(output) => match output.get("sentence") {
                Some(s) => if s.is_object() {
                    on_sentence(s)
                } else {
                    StreamSignal::Nothing
                },
                None => StreamSignal::Nothing,
            },
            None => StreamSignal::Nothing,
        }
    } else if text_eq(event.as_str(), "task-finished") {
        StreamSignal::Last(AsrEvent::EndOfStream)
    } else if text_eq(event.as_str(), "task-failed") {
        let code = str_or(j.get2("header", "error_code"), "UNKNOWN");
        let message = str_or(j.get2("header", "error_message"), "Unknown error");
        StreamSignal::Last(AsrEvent::Error { code, message })
    } else {
        StreamSignal::Nothing
    }
}

/// What came in on the web socket.
#[derive(Debug)]
pub enum StreamFrame {
    /// A text message.
    Text(String),
    /// The socket was closed.
    Close,
    /// The socket failed, for the reason given.
    Failure(String),
    /// Anything else.
    Other,
}

/// Takes in one frame of the web socket. A text that is no document does not
/// count; a socket that was closed has no more events.
pub fn on_frame(frame: &StreamFrame) -> (r: Result<StreamSignal, Error>)
    ensures
        match *frame {
            StreamFrame::Text(t) => r is Ok && r->Ok_0@ == (match json_parse(t@) {
                Ok(v) => message_signal(v),
                Err(_) => SignalView::Nothing,
            }),
            StreamFrame::Close => r is Ok && r->Ok_0@ == SignalView::Last(EventView::EndOfStream),
            StreamFrame::Failure(e) => r is Err && r->Err_0 is Asr && r->Err_0->Asr_0@
                == "WebSocket error: "@ + e@,
            StreamFrame::Other => r is Ok && r->Ok_0@ == SignalView::Nothing,
        },
{
    match frame {
        StreamFrame::Text(t) => match parse_json(t.as_str()) {
            Ok(j) => Ok(on_message(&j)),
            Err(_) => Ok(StreamSignal::Nothing),
        },
        StreamFrame::Close => Ok(StreamSignal::Last(AsrEvent::EndOfStream)),
        StreamFrame::Failure(e) => Err(Error::Asr(cat("WebSocket error: ", e.as_str()))),
        StreamFrame::Other => Ok(StreamSignal::Nothing),
    }
}

/// After the last event, and after a failure, nothing more is read; after any
/// other frame reading goes on.
pub fn reading_ends(outcome: &Result<StreamSignal, Error>) -> (r: bool)
    ensures
        r == (match *outcome {
            Ok(s) => s is Last || s is Broken,
            Err(_) => true,
        }),
{
    match outcome {
        Ok(StreamSignal::Nothing) => false,
        Ok(StreamSignal::Event(_)) => false,
        Ok(StreamSignal::Last(_)) => true,
        Ok(StreamSignal::Broken) => true,
        Err(_) => true,
    }
}

proof fn lemma_header_fields(action: Seq<char>, task_id: Seq<char>)
    ensures
        field(message_header(action, task_id), "action"@) == JsonView::Str(action),
        field(message_header(action, task_id), "task_id"@) == JsonView::Str(task_id),
        field(message_header(action, task_id), "streaming"@) == JsonView::Str("duplex"@),
{
    reveal_strlit("action");
    reveal_strlit("task_id");
    reveal_strlit("streaming");
    let m = message_header(action, task_id)->Obj_0;
    assert(m[0].0.len() == 6 && m[1].0.len() == 7 && m[2].0.len() == 9);
    lemma_member_skips(m, "task_id"@, 1);
    lemma_member_skips(m, "streaming"@, 2);
    assert(m.skip(1)[0].0 == "task_id"@);
    assert(m.skip(2)[0].0 == "streaming"@);
}

/// The parameters of a stream describe its audio: sixteen thousand samples a
/// second, uncompressed, sentences told apart by silence.
pub proof fn stream_audio_is_described(language: Seq<char>)
    ensures
        ({
            let p = stream_parameters(language);
            &&& field(p, "format"@) == JsonView::Str("pcm"@)
            &&& field(p, "sample_rate"@) == JsonView::Number("16000"@)
            &&& field(p, "semantic_punctuation_enabled"@) == JsonView::Bool(false)
            &&& field(p, "max_sentence_silence"@) == JsonView::Number("1300"@)
            &&& field(p, "heartbeat"@) == JsonView::Bool(true)
        }),
{
    reveal_strlit("format");
    reveal_strlit("sample_rate");
    reveal_strlit("semantic_punctuation_enabled");
    reveal_strlit("max_sentence_silence");
    reveal_strlit("heartbeat");
    let m = stream_parameters(language)->Obj_0;
    assert(m[0].0.len() == 6 && m[1].0.len() == 11 && m[2].0.len() == 28 && m[3].0.len() == 20
        && m[4].0.len() == 9);
    lemma_member_skips(m, "sample_rate"@, 1);
    lemma_member_skips(m, "semantic_punctuation_enabled"@, 2);
    lemma_member_skips(m, "max_sentence_silence"@, 3);
    lemma_member_skips(m, "heartbeat"@, 4);
    assert(m.skip(1)[0].0 == "sample_rate"@);
    assert(m.skip(2)[0].0 == "semantic_punctuation_enabled"@);
    assert(m.skip(3)[0].0 == "max_sentence_silence"@);
    assert(m.skip(4)[0].0 == "heartbeat"@);
}

/// The message that begins a task names the task and the model, and asks for
/// speech recognition with the parameters of the language.
pub proof fn first_message_names_task_and_model(
    task_id: Seq<char>,
    model: Seq<char>,
    language: Seq<char>,
)
    ensures
        ({
            let d = run_task_document(task_id, model, language);
            let payload = field(d, "payload"@);
            &&& field(field(d, "header"@), "action"@) == JsonView::Str("run-task"@)
            &&& field(field(d, "header"@), "task_id"@) == JsonView::Str(task_id)
            &&& field(field(d, "header"@), "streaming"@) == JsonView::Str("duplex"@)
            &&& field(payload, "task_group"@) == JsonView::Str("audio"@)
            &&& field(payload, "task"@) == JsonView::Str("asr"@)
            &&& field(payload, "function"@) == JsonView::Str("recognition"@)
            &&& field(payload, "model"@) == JsonView::Str(model)
            &&& field(payload, "input"@) == JsonView::Obj(no_members())
            &&& field(payload, "parameters"@) == stream_parameters(language)
        }),
{
    reveal_strlit("header");
    reveal_strlit("payload");
    reveal_strlit("task_group");
    reveal_strlit("task");
    reveal_strlit("function");
    reveal_strlit("model");
    reveal_strlit("input");
    reveal_strlit("parameters");
    lemma_header_fields("run-task"@, task_id);
    let d = run_task_document(task_id, model, language);
    let m = d->Obj_0;
    assert(m[0].0.len() == 6 && m[1].0.len() == 7);
    lemma_member_skips(m, "payload"@, 1);
    assert(m.skip(1)[0].0 == "payload"@);
    let p = m[1].1->Obj_0;
    assert(p[0].0.len() == 10 && p[1].0.len() == 4 && p[2].0.len() == 8 && p[3].0.len() == 5
        && p[4].0.len() == 5 && p[5].0.len() == 10);
    assert("task_group"@[0] != "parameters"@[0]);
    lemma_member_skips(p, "task"@, 1);
    lemma_member_skips(p, "function"@, 2);
    lemma_member_skips(p, "model"@, 3);
    assert("model"@[0] != "input"@[0]);
    lemma_member_skips(p, "input"@, 4);
    assert(p.skip(4)[0].0 == "input"@);
    lemma_member_skips(p, "parameters"@, 5);
    assert(p.skip(1)[0].0 == "task"@);
    assert(p.skip(2)[0].0 == "function"@);
    assert(p.skip(3)[0].0 == "model"@);
    assert(p.skip(5)[0].0 == "parameters"@);
}

/// The message that ends a task names the task.
pub proof fn last_message_names_task(task_id: Seq<char>)
    ensures
        ({
            let head = field(finish_task_document(task_id), "header"@);
            let payload = field(finish_task_document(task_id), "payload"@);
            &&& field(payload, "input"@) == JsonView::Obj(no_members())
            &&& field(head, "action"@) == JsonView::Str("finish-task"@)
            &&& field(head, "task_id"@) == JsonView::Str(task_id)
            &&& field(head, "streaming"@) == JsonView::Str("duplex"@)
        }),
{
    reveal_strlit("header");
    reveal_strlit("payload");
    lemma_header_fields("finish-task"@, task_id);
    let m = finish_task_document(task_id)->Obj_0;
    assert(m[0].0.len() == 6 && m[1].0.len() == 7);
    lemma_member_skips(m, "payload"@, 1);
    assert(m.skip(1)[0].0 == "payload"@);
    assert(m[1].1->Obj_0[0].0 == "input"@);
}

/// An event says what it holds, part by part.
pub proof fn events_say_what_they_hold(
    text: String,
    ts_start: ReportedTime,
    ts_end: ReportedTime,
    code: String,
    message: String,
)
    ensures
        event_view(AsrEvent::Final { text, ts_start, ts_end }) == (EventView::Final {
            text: text@,
            start: opt_text(ts_start),
            end: opt_text(ts_end),
        }),
        event_view(AsrEvent::Partial { text, ts_start, ts_end }) == (EventView::Partial {
            text: text@,
            start: opt_text(ts_start),
            end: opt_text(ts_end),
        }),
        event_view(AsrEvent::Error { code, message }) == (EventView::Error {
            code: code@,
            message: message@,
        }),
        event_view(AsrEvent::<ReportedTime>::EndOfStream) == EventView::EndOfStream,
{
}

/// A message of the service with a header of the given members.
pub open spec fn message_with(
    head: Seq<(Seq<char>, JsonView)>,
    payload: JsonView,
) -> JsonView {
    JsonView::Obj(
        no_members().push(("header"@, JsonView::Obj(head))).push(("payload"@, payload)),
    )
}

proof fn lemma_message_parts(head: Seq<(Seq<char>, JsonView)>, payload: JsonView)
    ensures
        field(message_with(head, payload), "header"@) == JsonView::Obj(head),
        field(message_with(head, payload), "payload"@) == payload,
{
    reveal_strlit("header");
    reveal_strlit("payload");
    let m = message_with(head, payload)->Obj_0;
    assert(m[0].0.len() == 6 && m[1].0.len() == 7);
    lemma_member_skips(m, "payload"@, 1);
    assert(m.skip(1)[0].0 == "payload"@);
}

/// A result of the service is told with its text and its times, as finished
/// exactly where the service says that the sentence has ended.
pub proof fn recognised_sentence_is_told(
    text: Seq<char>,
    begin: Seq<char>,
    end: Seq<char>,
    ended: bool,
)
    ensures
        ({
            let sentence = JsonView::Obj(
                no_members()
                    .push(("text"@, JsonView::Str(text)))
                    .push(("begin_time"@, JsonView::Number(begin)))
                    .push(("end_time"@, JsonView::Number(end)))
                    .push(("sentence_end"@, JsonView::Bool(ended))),
            );
            let output = JsonView::Obj(no_members().push(("sentence"@, sentence)));
            let signal = message_signal(
                message_with(
                    no_members().push(("event"@, JsonView::Str("result-generated"@))),
                    JsonView::Obj(no_members().push(("output"@, output))),
                ),
            );
            &&& ended ==> signal == SignalView::Event(
                EventView::Final { text, start: Some(begin), end: Some(end) },
            )
            &&& !ended ==> signal == SignalView::Event(
                EventView::Partial { text, start: Some(begin), end: Some(end) },
            )
        }),
{
    reveal_strlit("text");
    reveal_strlit("begin_time");
    reveal_strlit("end_time");
    reveal_strlit("sentence_end");
    let m = no_members()
        .push(("text"@, JsonView::Str(text)))
        .push(("begin_time"@, JsonView::Number(begin)))
        .push(("end_time"@, JsonView::Number(end)))
        .push(("sentence_end"@, JsonView::Bool(ended)));
    let sentence = JsonView::Obj(m);
    assert(m[0].0.len() == 4 && m[1].0.len() == 10 && m[2].0.len() == 8 && m[3].0.len() == 12);
    lemma_member_skips(m, "begin_time"@, 1);
    lemma_member_skips(m, "end_time"@, 2);
    lemma_member_skips(m, "sentence_end"@, 3);
    assert(m.skip(1)[0].0 == "begin_time"@);
    assert(m.skip(2)[0].0 == "end_time"@);
    assert(m.skip(3)[0].0 == "sentence_end"@);
    let output = JsonView::Obj(no_members().push(("sentence"@, sentence)));
    assert(output->Obj_0[0].0 == "sentence"@);
    let payload = JsonView::Obj(no_members().push(("output"@, output)));
    assert(payload->Obj_0[0].0 == "output"@);
    let head = no_members().push(("event"@, JsonView::Str("result-generated"@)));
    assert(head[0].0 == "event"@);
    lemma_message_parts(head, payload);
}

/// A failure of the service is told with its code and its message, the end of
/// a task as the end of the stream, and nothing is read after either. A result
/// without a sentence, and any other event, does not count.
pub proof fn failure_and_end_are_told(
    code: Seq<char>,
    message: Seq<char>,
    other: Seq<char>,
    payload: JsonView,
)
    ensures
        message_signal(
            message_with(
                no_members()
                    .push(("event"@, JsonView::Str("task-failed"@)))
                    .push(("error_code"@, JsonView::Str(code)))
                    .push(("error_message"@, JsonView::Str(message))),
                payload,
            ),
        ) == SignalView::Last(EventView::Error { code, message }),
        message_signal(
            message_with(
                no_members().push(("event"@, JsonView::Str("task-finished"@))),
                payload,
            ),
        ) == SignalView::Last(EventView::EndOfStream),
        other != "result-generated"@ && other != "task-finished"@ && other != "task-failed"@
            ==> message_signal(
            message_with(no_members().push(("event"@, JsonView::Str(other))), payload),
        ) == SignalView::Nothing,
{
    reveal_strlit("event");
    reveal_strlit("error_code");
    reveal_strlit("error_message");
    reveal_strlit("result-generated");
    reveal_strlit("task-finished");
    reveal_strlit("task-failed");
    assert("result-generated"@.len() == 16 && "task-finished"@.len() == 13
        && "task-failed"@.len() == 11);
    let failed = no_members()
        .push(("event"@, JsonView::Str("task-failed"@)))
        .push(("error_code"@, JsonView::Str(code)))
        .push(("error_message"@, JsonView::Str(message)));
    assert(failed[0].0.len() == 5 && failed[1].0.len() == 10 && failed[2].0.len() == 13);
    lemma_member_skips(failed, "error_code"@, 1);
    lemma_member_skips(failed, "error_message"@, 2);
    assert(failed.skip(1)[0].0 == "error_code"@);
    assert(failed.skip(2)[0].0 == "error_message"@);
    lemma_message_parts(failed, payload);
    let finished = no_members().push(("event"@, JsonView::Str("task-finished"@)));
    assert(finished[0].0 == "event"@);
    lemma_message_parts(finished, payload);
    let unknown = no_members().push(("event"@, JsonView::Str(other)));
    assert(unknown[0].0 == "event"@);
    lemma_message_parts(unknown, payload);
}

/// A result that lacks one of its parts is broken; one whose text or times are
/// null has an empty text or no times.
pub proof fn incomplete_results_are_broken(s: JsonView, ended: bool)
    ensures
        !has_member(s, "text"@) || !has_member(s, "begin_time"@) || !has_member(s, "end_time"@)
            || !has_member(s, "sentence_end"@) ==> sentence_signal(s) == SignalView::Broken,
        sentence_signal(
            JsonView::Obj(
                no_members()
                    .push(("text"@, JsonView::Null))
                    .push(("begin_time"@, JsonView::Null))
                    .push(("end_time"@, JsonView::Null))
                    .push(("sentence_end"@, JsonView::Bool(ended))),
            ),
        ) == SignalView::Event(
            if ended {
                EventView::Final { text: ""@, start: None, end: None }
            } else {
                EventView::Partial { text: ""@, start: None, end: None }
            },
        ),
{
    reveal_strlit("text");
    reveal_strlit("begin_time");
    reveal_strlit("end_time");
    reveal_strlit("sentence_end");
    let m = no_members()
        .push(("text"@, JsonView::Null))
        .push(("begin_time"@, JsonView::Null))
        .push(("end_time"@, JsonView::Null))
        .push(("sentence_end"@, JsonView::Bool(ended)));
    assert(m[0].0.len() == 4 && m[1].0.len() == 10 && m[2].0.len() == 8 && m[3].0.len() == 12);
    lemma_member_skips(m, "begin_time"@, 1);
    lemma_member_skips(m, "end_time"@, 2);
    lemma_member_skips(m, "sentence_end"@, 3);
    assert(m.skip(1)[0].0 == "begin_time"@);
    assert(m.skip(2)[0].0 == "end_time"@);
    assert(m.skip(3)[0].0 == "sentence_end"@);
}

/// A failure that the service does not explain is told as an unknown one.
pub proof fn unexplained_failure_is_unknown(payload: JsonView)
    ensures
        message_signal(
            message_with(
                no_members().push(("event"@, JsonView::Str("task-failed"@))),
                payload,
            ),
        ) == SignalView::Last(
            EventView::Error { code: "UNKNOWN"@, message: "Unknown error"@ },
        ),
        message_signal(message_with(no_members(), payload)) == SignalView::Nothing,
{
    reveal_strlit("event");
    reveal_strlit("error_code");
    reveal_strlit("error_message");
    reveal_strlit("result-generated");
    reveal_strlit("task-finished");
    reveal_strlit("task-failed");
    assert("result-generated"@.len() == 16 && "task-finished"@.len() == 13
        && "task-failed"@.len() == 11);
    let head = no_members().push(("event"@, JsonView::Str("task-failed"@)));
    assert(head[0].0.len() == 5 && "error_code"@.len() == 10 && "error_message"@.len() == 13);
    lemma_member_skips(head, "error_code"@, 1);
    lemma_member_skips(head, "error_message"@, 1);
    assert(head.skip(1).len() == 0);
    lemma_message_parts(head, payload);
    lemma_message_parts(no_members(), payload);
}

/// A signal says what it holds.
pub proof fn signals_say_what_they_hold(e: AsrEvent<ReportedTime>)
    ensures
        StreamSignal::Nothing@ == SignalView::Nothing,
        StreamSignal::Event(e)@ == SignalView::Event(event_view(e)),
        StreamSignal::Last(e)@ == SignalView::Last(event_view(e)),
        StreamSignal::Broken@ == SignalView::Broken,
{
}

} // verus!
