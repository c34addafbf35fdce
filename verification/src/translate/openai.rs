//! Translation by a chat model behind an interface like OpenAI's.

use crate::error::{transport_error, transport_text, Error, TransportFailure};
use crate::http::{refusal, refusal_text, reply_document, reply_json, HttpReply};
use crate::json::{
    array, array_of, as_text, element, field, lemma_member_skips, models, no_members,
    write_json, written, Json, JsonView, ObjectBuilder,
};
use crate::text::{
    cat, cat3, decimal, join, join_spec, lemma_join_regroups, opt_text, texts, u64_to_decimal,
};
use crate::translate::{TranslateRequest, TranslateResponse};
use vstd::prelude::*;
use vstd::string::*;

verus! {

/// How often a request is sent before it is given up.
pub const MAX_ATTEMPTS: u32 = 3;

/// How long to wait for a connection, in seconds.
pub const CONNECT_TIMEOUT_SECS: u64 = 10;

/// A chat model that translates.
#[derive(Debug)]
pub struct OpenAiCompatibleProvider {
    pub base_url: String,
    pub model: String,
    pub api_key: String,
    pub timeout_secs: u64,
}

/// One message of a conversation.
pub open spec fn chat_message(role: Seq<char>, content: Seq<char>) -> JsonView {
    JsonView::Obj(
        no_members().push(("role"@, JsonView::Str(role))).push(
            ("content"@, JsonView::Str(content)),
        ),
    )
}

/// What the model is told of its task.
pub open spec fn system_prompt() -> Seq<char> {
    "You are a professional subtitle translator. Translate the given text naturally and accurately, preserving the tone, style, and context. Avoid literal word-for-word translation. Focus on conveying the meaning in fluent, idiomatic target language."@
}

/// What the model is told of the sentences before the one to translate.
pub open spec fn context_prompt(context: Seq<Seq<char>>) -> Seq<char> {
    if context.len() == 0 {
        ""@
    } else {
        "Previous context:\n"@ + join_spec(context, "\n"@) + "\n\n"@
    }
}

/// The order to translate between two languages.
pub open spec fn order_text(source_lang: Seq<char>, target_lang: Seq<char>) -> Seq<char> {
    "Translate"@ + " from "@ + source_lang + (" to "@ + target_lang + ":\n\n"@)
}

/// What the model is asked.
pub open spec fn translate_prompt(
    context: Seq<Seq<char>>,
    source_lang: Seq<char>,
    target_lang: Seq<char>,
    text: Seq<char>,
) -> Seq<char> {
    context_prompt(context) + order_text(source_lang, target_lang) + text
}

/// The conversation: the task, two examples, and the request.
pub open spec fn conversation(prompt: Seq<char>) -> Seq<JsonView> {
    seq![
        chat_message("system"@, system_prompt()),
        chat_message(
            "user"@,
            order_text("en"@, "zh"@) + "We have main engine start, 4, 3, 2, 1."@,
        ),
        chat_message("assistant"@, "主发动机启动，4、3、2、1。"@),
        chat_message(
            "user"@,
            order_text("en"@, "zh"@)
                + "You have your robotics, and I just want to be awesome in space."@,
        ),
        chat_message(
            "assistant"@,
            "你有你的机器人技术，而我只想在太空中大显身手。"@,
        ),
        chat_message("user"@, prompt),
    ]
}

/// The body of a request for a translation.
pub open spec fn translate_document(model: Seq<char>, prompt: Seq<char>) -> JsonView {
    JsonView::Obj(
        no_members()
            .push(("model"@, JsonView::Str(model)))
            .push(("messages"@, JsonView::Arr(conversation(prompt))))
            .push(("temperature"@, JsonView::Number("0.3"@)))
            .push(("max_tokens"@, JsonView::Number("500"@))),
    )
}

/// The body of a request that only tests the connection.
pub open spec fn test_document(model: Seq<char>) -> JsonView {
    JsonView::Obj(
        no_members()
            .push(("model"@, JsonView::Str(model)))
            .push(("messages"@, JsonView::Arr(seq![chat_message("user"@, "hi"@)])))
            .push(("max_tokens"@, JsonView::Number("1"@))),
    )
}

fn message(role: &str, content: &str) -> (r: Json)
    ensures
        r.model() == chat_message(role@, content@),
{
    ObjectBuilder::new().with_text("role", role).with_text("content", content).build()
}

fn order(source_lang: &str, target_lang: &str) -> (r: String)
    ensures
        r@ == order_text(source_lang@, target_lang@),
{
    let target = cat3(" to ", target_lang, ":\n\n");
    let source = cat3("Translate", " from ", source_lang);
    cat(source.as_str(), target.as_str())
}

/// What the model is asked for a request.
pub fn prompt(req: &TranslateRequest) -> (r: String)
    ensures
        r@ == translate_prompt(
            texts(req.context@),
            req.source_lang@,
            req.target_lang@,
            req.text@,
        ),
        req.context@.len() == 0 ==> r@ == "Translate"@ + " from "@ + req.source_lang@ + " to "@
            + req.target_lang@ + ":\n\n"@ + req.text@,
{
    proof {
        prompt_names_the_request(
            texts(req.context@),
            req.source_lang@,
            req.target_lang@,
            req.text@,
        );
    }
    let context = if req.context.len() == 0 {
        "".to_owned()
    } else {
        let joined = join(&req.context, "\n");
        cat3("Previous context:\n", joined.as_str(), "\n\n")
    };
    let order = order(req.source_lang.as_str(), req.target_lang.as_str());
    cat3(context.as_str(), order.as_str(), req.text.as_str())
}

/// A request to the service: a body that is posted to an address.
#[derive(Debug)]
pub struct ChatRequest {
    pub url: String,
    pub authorization: String,
    pub body: String,
}

impl OpenAiCompatibleProvider {
    fn chat_request(&self, body: &Json) -> (r: ChatRequest)
        ensures
            r.url@ == self.base_url@ + "/chat/completions"@,
            r.authorization@ == "Bearer "@ + self.api_key@,
            r.body@ == written(body.model()),
    {
        ChatRequest {
            url: cat(self.base_url.as_str(), "/chat/completions"),
            authorization: cat("Bearer ", self.api_key.as_str()),
            body: write_json(body),
        }
    }

    /// The body of the request for a translation.
    pub fn translate_body(&self, req: &TranslateRequest) -> (r: Json)
        ensures
            r.model() == translate_document(
                self.model@,
                translate_prompt(
                    texts(req.context@),
                    req.source_lang@,
                    req.target_lang@,
                    req.text@,
                ),
            ),
    {
        let question = prompt(req);
        let example = order("en", "zh");
        let first = cat(example.as_str(), "We have main engine start, 4, 3, 2, 1.");
        let second = cat(
            example.as_str(),
            "You have your robotics, and I just want to be awesome in space.",
        );
        let mut list: Vec<Json> = Vec::new();
        list.push(
            message(
                "system",
                "You are a professional subtitle translator. Translate the given text naturally and accurately, preserving the tone, style, and context. Avoid literal word-for-word translation. Focus on conveying the meaning in fluent, idiomatic target language.",
            ),
        );
        list.push(message("user", first.as_str()));
        list.push(message("assistant", "主发动机启动，4、3、2、1。"));
        list.push(message("user", second.as_str()));
        list.push(
            message("assistant", "你有你的机器人技术，而我只想在太空中大显身手。"),
        );
        list.push(message("user", question.as_str()));
        proof {
            assert(models(list@) =~= conversation(question@));
        }
        ObjectBuilder::new().with_text("model", self.model.as_str()).with(
            "messages",
            array(list),
        ).with("temperature", Json::Number("0.3".to_owned())).with(
            "max_tokens",
            Json::Number("500".to_owned()),
        ).build()
    }

    /// Begins a translation: the request, and how it is sent first.
    pub fn translate(&self, req: &TranslateRequest) -> (r: (ChatRequest, TranslateCall, Sending))
        ensures
            r.0.url@ == self.base_url@ + "/chat/completions"@,
            r.0.authorization@ == "Bearer "@ + self.api_key@,
            r.0.body@ == written(
                translate_document(
                    self.model@,
                    translate_prompt(
                        texts(req.context@),
                        req.source_lang@,
                        req.target_lang@,
                        req.text@,
                    ),
                ),
            ),
            r.1.attempt() == 1,
            r.2 == (Sending { delay_secs: 0, no_proxy: false }),
    {
        let body = self.translate_body(req);
        (
            self.chat_request(&body),
            TranslateCall { attempt: 1 },
            Sending { delay_secs: 0, no_proxy: false },
        )
    }

    /// The body of the request that only tests the connection.
    pub fn test_body(&self) -> (r: Json)
        ensures
            r.model() == test_document(self.model@),
    {
        ObjectBuilder::new().with_text("model", self.model.as_str()).with(
            "messages",
            array_of(message("user", "hi")),
        ).with("max_tokens", Json::Number("1".to_owned())).build()
    }

    /// The request that only tests the connection.
    pub fn test_connection(&self) -> (r: ChatRequest)
        ensures
            r.url@ == self.base_url@ + "/chat/completions"@,
            r.authorization@ == "Bearer "@ + self.api_key@,
            r.body@ == written(test_document(self.model@)),
    {
        let body = self.test_body();
        self.chat_request(&body)
    }
}

/// How a request is sent: after a pause, and past the system's proxy or not.
#[derive(Debug, Clone, Copy, PartialEq, Eq, Structural)]
pub struct Sending {
    pub delay_secs: u64,
    pub no_proxy: bool,
}

/// A translation under way: how often its request was sent.
#[derive(Debug)]
pub struct TranslateCall {
    attempt: u32,
}

/// What follows a request that was not answered.
#[derive(Debug)]
pub enum Retry {
    /// It is sent again.
    Again(Sending),
    /// It is given up.
    GiveUp(Error),
}

impl TranslateCall {
    /// How often the request was sent.
    pub closed spec fn attempt(self) -> int {
        self.attempt as int
    }

    #[verifier::type_invariant]
    closed spec fn inv(self) -> bool {
        1 <= self.attempt <= MAX_ATTEMPTS
    }

    /// The request was not answered. It is sent again after two seconds, then
    /// once more after five, past the system's proxy; after that it is given
    /// up.
    pub fn unanswered(self, failure: &TransportFailure) -> (r: (TranslateCall, Retry))
        ensures
            1 <= self.attempt() <= MAX_ATTEMPTS,
            if self.attempt() < MAX_ATTEMPTS {
                &&& r.0.attempt() == self.attempt() + 1
                &&& r.1 matches Retry::Again(s) && s.delay_secs == (if self.attempt() == 1 {
                    2int
                } else {
                    5
                }) && s.no_proxy == (r.0.attempt() == MAX_ATTEMPTS)
            } else {
                &&& r.0.attempt() == self.attempt()
                &&& r.1 matches Retry::GiveUp(e) && e is Translate && e->Translate_0@
                    == "HTTP request failed after "@ + decimal(self.attempt()) + " attempts: "@
                    + transport_text(*failure)
            },
            1 <= self.attempt() <= 3,
            self.attempt() == 1 ==> r.0.attempt() == 2 && r.1 == Retry::Again(
                Sending { delay_secs: 2, no_proxy: false },
            ),
            self.attempt() == 2 ==> r.0.attempt() == 3 && r.1 == Retry::Again(
                Sending { delay_secs: 5, no_proxy: true },
            ),
            self.attempt() == 3 ==> r.1 is GiveUp,
    {
        proof {
            use_type_invariant(&self);
        }
        let attempt: u32 = self.attempt;
        if attempt < MAX_ATTEMPTS {
            let delay: u64 = if attempt == 1 {
                2
            } else {
                5
            };
            let again: u32 = attempt + 1;
            (
                TranslateCall { attempt: again },
                Retry::Again(Sending { delay_secs: delay, no_proxy: again == MAX_ATTEMPTS }),
            )
        } else {
            let count = u64_to_decimal(attempt as u64);
            let head = cat3("HTTP request failed after ", count.as_str(), " attempts: ");
            let cause = transport_error(failure);
            (self, Retry::GiveUp(Error::Translate(cat(head.as_str(), cause.as_str()))))
        }
    }
}

/// The translation in an answer of the service.
pub open spec fn translation_in(v: JsonView) -> Option<Seq<char>> {
    as_text(field(field(element(field(v, "choices"@), 0), "message"@), "content"@))
}

/// The translation in an answer of the service.
pub fn read_translation(j: &Json) -> (r: Result<TranslateResponse, Error>)
    ensures
        match r {
            Ok(t) => translation_in(j.model()) == Some(t.translated_text@),
            Err(e) => translation_in(j.model()) is None && e is Translate && e->Translate_0@
                == "Invalid response format"@,
        },
{
    let content: Option<String> = match j.get("choices") {
        Some(choices) => match choices.at(0) {
            Some(first) => match first.get2("message", "content") {
                Some(c) => c.as_str(),
                None => None,
            },
            None => None,
        },
        None => None,
    };
    match content {
        Some(translated_text) => Ok(TranslateResponse { translated_text }),
        None => Err(Error::Translate("Invalid response format".to_owned())),
    }
}

/// What the reply to a request for a translation amounts to.
pub open spec fn translate_outcome(reply: HttpReply) -> Result<Seq<char>, Seq<char>> {
    match reply_document(reply, ""@, "API error "@, "Failed to parse response: "@) {
        Err(e) => Err(e),
        Ok(v) => match translation_in(v) {
            Some(t) => Ok(t),
            None => Err("Invalid response format"@),
        },
    }
}

/// Takes in the reply to a request for a translation. A refusal is reported as
/// it is; the request is not sent again.
pub fn on_translate_reply(reply: &HttpReply) -> (r: Result<TranslateResponse, Error>)
    ensures
        match r {
            Ok(t) => translate_outcome(*reply) == Ok::<Seq<char>, Seq<char>>(t.translated_text@),
            Err(e) => e is Translate && translate_outcome(*reply) == Err::<Seq<char>, Seq<char>>(
                e->Translate_0@,
            ),
        },
{
    match reply_json(reply, "", "API error ", "Failed to parse response: ") {
        Ok(j) => read_translation(&j),
        Err(e) => Err(Error::Translate(e)),
    }
}

/// What became of a test of the connection.
#[derive(Debug)]
pub enum TestReply {
    /// The request was not answered.
    Unsent(TransportFailure),
    /// The service refused it.
    Refused { status: String, body: Option<String> },
    /// The service accepted it.
    Accepted,
}

/// Takes in what became of a test of the connection. It is well where the
/// service accepts the request; what it answers does not count.
pub fn on_test_reply(reply: &TestReply) -> (r: Result<(), Error>)
    ensures
        match *reply {
            TestReply::Unsent(f) => r is Err && r->Err_0 is Translate && r->Err_0->Translate_0@
                == "Connection test failed: "@ + transport_text(f),
            TestReply::Refused { status, body } => r is Err && r->Err_0 is Translate
                && r->Err_0->Translate_0@ == refusal_text("API error "@, status@, opt_text(body)),
            TestReply::Accepted => r is Ok,
        },
{
    match reply {
        TestReply::Unsent(f) => {
            let cause = transport_error(f);
            Err(Error::Translate(cat("Connection test failed: ", cause.as_str())))
        },
        TestReply::Refused { status, body } => Err(
            Error::Translate(refusal("API error ", status.as_str(), body)),
        ),
        TestReply::Accepted => Ok(()),
    }
}

/// What the model is asked names both languages and the text of the request,
/// after the sentences before it where there are any.
pub proof fn prompt_names_the_request(
    context: Seq<Seq<char>>,
    source_lang: Seq<char>,
    target_lang: Seq<char>,
    text: Seq<char>,
)
    ensures
        context.len() == 0 ==> translate_prompt(context, source_lang, target_lang, text)
            == "Translate"@ + " from "@ + source_lang + " to "@ + target_lang + ":\n\n"@ + text,
        context.len() > 0 ==> translate_prompt(context, source_lang, target_lang, text)
            == "Previous context:\n"@ + join_spec(context, "\n"@) + "\n\n"@ + "Translate"@
            + " from "@ + source_lang + " to "@ + target_lang + ":\n\n"@ + text,
{
    reveal_strlit("");
    lemma_prompt_regroups(context, source_lang, target_lang, text);
    assert(""@ + "Translate"@ =~= "Translate"@);
}

proof fn lemma_middle_differs(front: Seq<char>, a: Seq<char>, b: Seq<char>, end: Seq<char>)
    requires
        front + a + end == front + b + end,
    ensures
        a == b,
{
    let s = front + a + end;
    let t = front + b + end;
    assert(s.len() == t.len());
    assert(s.subrange(front.len() as int, (front.len() + a.len()) as int) =~= a);
    assert(t.subrange(front.len() as int, (front.len() + b.len()) as int) =~= b);
}

/// Two requests that differ in the source language alone, in the target
/// language alone, or in the text alone are asked in different words.
pub proof fn prompts_tell_requests_apart(
    context: Seq<Seq<char>>,
    source_lang: Seq<char>,
    target_lang: Seq<char>,
    text: Seq<char>,
    other: Seq<char>,
)
    ensures
        other != target_lang ==> translate_prompt(context, source_lang, target_lang, text)
            != translate_prompt(context, source_lang, other, text),
        other != source_lang ==> translate_prompt(context, source_lang, target_lang, text)
            != translate_prompt(context, other, target_lang, text),
        other != text ==> translate_prompt(context, source_lang, target_lang, text)
            != translate_prompt(context, source_lang, target_lang, other),
{
    let c = context_prompt(context);
    let start = c + "Translate"@ + " from "@;
    let none = Seq::<char>::empty();
    lemma_prompt_regroups(context, source_lang, target_lang, text);
    lemma_prompt_regroups(context, source_lang, other, text);
    lemma_prompt_regroups(context, other, target_lang, text);
    lemma_prompt_regroups(context, source_lang, target_lang, other);
    let p = translate_prompt(context, source_lang, target_lang, text);
    let after_target = ":\n\n"@ + text;
    let front = start + source_lang + " to "@;
    lemma_join_regroups(front + target_lang, ":\n\n"@, text);
    lemma_join_regroups(front + other, ":\n\n"@, text);
    if p == translate_prompt(context, source_lang, other, text) {
        lemma_middle_differs(front, target_lang, other, after_target);
    }
    let after_source = " to "@ + (target_lang + after_target);
    let with_other = start + other + " to "@;
    lemma_join_regroups(front, target_lang, after_target);
    lemma_join_regroups(start + source_lang, " to "@, target_lang + after_target);
    lemma_join_regroups(with_other + target_lang, ":\n\n"@, text);
    lemma_join_regroups(with_other, target_lang, after_target);
    lemma_join_regroups(start + other, " to "@, target_lang + after_target);
    if p == translate_prompt(context, other, target_lang, text) {
        lemma_middle_differs(start, source_lang, other, after_source);
    }
    if p == translate_prompt(context, source_lang, target_lang, other) {
        let asked = front + target_lang + ":\n\n"@;
        assert(asked + text + none =~= asked + text);
        assert(asked + other + none =~= asked + other);
        lemma_middle_differs(asked, text, other, none);
    }
}

proof fn lemma_prompt_regroups(
    context: Seq<Seq<char>>,
    source_lang: Seq<char>,
    target_lang: Seq<char>,
    text: Seq<char>,
)
    ensures
        translate_prompt(context, source_lang, target_lang, text) == context_prompt(context)
            + "Translate"@ + " from "@ + source_lang + " to "@ + target_lang + ":\n\n"@ + text,
{
    let c = context_prompt(context);
    let verb = "Translate"@;
    let from = " from "@;
    let to = " to "@;
    let end = ":\n\n"@;
    lemma_join_regroups(c, verb + from + source_lang, to + target_lang + end);
    lemma_join_regroups(c, verb + from, source_lang);
    lemma_join_regroups(c, verb, from);
    let start = c + verb + from + source_lang;
    lemma_join_regroups(start, to + target_lang, end);
    lemma_join_regroups(start, to, target_lang);
}

proof fn lemma_message_fields(role: Seq<char>, content: Seq<char>)
    ensures
        field(chat_message(role, content), "role"@) == JsonView::Str(role),
        field(chat_message(role, content), "content"@) == JsonView::Str(content),
{
    reveal_strlit("role");
    reveal_strlit("content");
    let m = chat_message(role, content)->Obj_0;
    assert(m[0].0.len() == 4 && m[1].0.len() == 7);
    lemma_member_skips(m, "content"@, 1);
    assert(m.skip(1)[0].0 == "content"@);
}

/// The body of a request names the model, and its conversation begins with the
/// task, goes on with examples, each with its answer, and ends with the prompt
/// as what the user says. The answer is kept short and close.
pub proof fn translate_body_carries_the_prompt(model: Seq<char>, prompt: Seq<char>)
    ensures
        ({
            let d = translate_document(model, prompt);
            let messages = field(d, "messages"@)->Arr_0;
            &&& field(d, "model"@) == JsonView::Str(model)
            &&& field(d, "messages"@) is Arr
            &&& messages.len() == 6
            &&& field(messages[0], "role"@) == JsonView::Str("system"@)
            &&& field(messages[1], "role"@) == JsonView::Str("user"@)
            &&& field(messages[2], "role"@) == JsonView::Str("assistant"@)
            &&& field(messages[3], "role"@) == JsonView::Str("user"@)
            &&& field(messages[4], "role"@) == JsonView::Str("assistant"@)
            &&& field(messages[5], "role"@) == JsonView::Str("user"@)
            &&& field(messages[0], "content"@) == JsonView::Str(
                "You are a professional subtitle translator. Translate the given text naturally and accurately, preserving the tone, style, and context. Avoid literal word-for-word translation. Focus on conveying the meaning in fluent, idiomatic target language."@,
            )
            &&& field(messages[1], "content"@) == JsonView::Str(
                translate_prompt(
                    Seq::empty(),
                    "en"@,
                    "zh"@,
                    "We have main engine start, 4, 3, 2, 1."@,
                ),
            )
            &&& field(messages[2], "content"@) == JsonView::Str("主发动机启动，4、3、2、1。"@)
            &&& field(messages[3], "content"@) == JsonView::Str(
                translate_prompt(
                    Seq::empty(),
                    "en"@,
                    "zh"@,
                    "You have your robotics, and I just want to be awesome in space."@,
                ),
            )
            &&& field(messages[4], "content"@) == JsonView::Str(
                "你有你的机器人技术，而我只想在太空中大显身手。"@,
            )
            &&& field(messages[5], "content"@) == JsonView::Str(prompt)
            &&& field(d, "temperature"@) == JsonView::Number("0.3"@)
            &&& field(d, "max_tokens"@) == JsonView::Number("500"@)
        }),
{
    reveal_strlit("model");
    reveal_strlit("messages");
    reveal_strlit("temperature");
    reveal_strlit("max_tokens");
    let m = translate_document(model, prompt)->Obj_0;
    assert(m[0].0.len() == 5 && m[1].0.len() == 8 && m[2].0.len() == 11 && m[3].0.len() == 10);
    lemma_member_skips(m, "messages"@, 1);
    lemma_member_skips(m, "temperature"@, 2);
    lemma_member_skips(m, "max_tokens"@, 3);
    assert(m.skip(1)[0].0 == "messages"@);
    assert(m.skip(2)[0].0 == "temperature"@);
    assert(m.skip(3)[0].0 == "max_tokens"@);
    let c = conversation(prompt);
    reveal_strlit("");
    assert(""@ + order_text("en"@, "zh"@) =~= order_text("en"@, "zh"@));
    lemma_message_fields("system"@, system_prompt());
    lemma_message_fields("user"@, prompt);
    lemma_message_fields(
        "user"@,
        order_text("en"@, "zh"@) + "We have main engine start, 4, 3, 2, 1."@,
    );
    lemma_message_fields(
        "user"@,
        order_text("en"@, "zh"@)
            + "You have your robotics, and I just want to be awesome in space."@,
    );
    lemma_message_fields("assistant"@, "主发动机启动，4、3、2、1。"@);
    lemma_message_fields(
        "assistant"@,
        "你有你的机器人技术，而我只想在太空中大显身手。"@,
    );
    assert(c.len() == 6);
}

/// The body of a test of the connection names the model, says one thing as the
/// user, and asks for the shortest answer.
pub proof fn test_body_is_short(model: Seq<char>)
    ensures
        ({
            let d = test_document(model);
            let messages = field(d, "messages"@)->Arr_0;
            &&& field(d, "model"@) == JsonView::Str(model)
            &&& field(d, "messages"@) is Arr
            &&& messages.len() == 1
            &&& field(messages[0], "role"@) == JsonView::Str("user"@)
            &&& field(messages[0], "content"@) == JsonView::Str("hi"@)
            &&& field(d, "max_tokens"@) == JsonView::Number("1"@)
        }),
{
    reveal_strlit("model");
    reveal_strlit("messages");
    reveal_strlit("max_tokens");
    let m = test_document(model)->Obj_0;
    assert(m[0].0.len() == 5 && m[1].0.len() == 8 && m[2].0.len() == 10);
    lemma_member_skips(m, "messages"@, 1);
    lemma_member_skips(m, "max_tokens"@, 2);
    assert(m.skip(1)[0].0 == "messages"@);
    assert(m.skip(2)[0].0 == "max_tokens"@);
    lemma_message_fields("user"@, "hi"@);
}

/// The translation that a service puts into the first choice of its answer is
/// the one that is read, whatever choices follow.
pub proof fn first_choice_is_read(text: Seq<char>, others: Seq<JsonView>)
    ensures
        ({
            let message = JsonView::Obj(no_members().push(("content"@, JsonView::Str(text))));
            let choice = JsonView::Obj(no_members().push(("message"@, message)));
            let answer = JsonView::Obj(
                no_members().push(("choices"@, JsonView::Arr(seq![choice] + others))),
            );
            translation_in(answer) == Some(text)
        }),
{
    let message = JsonView::Obj(no_members().push(("content"@, JsonView::Str(text))));
    let choice = JsonView::Obj(no_members().push(("message"@, message)));
    let list = JsonView::Arr(seq![choice] + others);
    let answer = JsonView::Obj(no_members().push(("choices"@, list)));
    assert(answer->Obj_0[0].0 == "choices"@);
    assert(choice->Obj_0[0].0 == "message"@);
    assert(message->Obj_0[0].0 == "content"@);
    assert(field(answer, "choices"@) == list);
    assert(element(list, 0) == choice);
    assert(field(choice, "message"@) == message);
}

/// What the reply to a request for a translation amounts to where the service
/// gives none: the cause, behind words that tell a refusal from an answer that
/// cannot be read.
pub proof fn failures_name_their_cause(e: String, status: String, body: String)
    ensures
        translate_outcome(HttpReply::Unsent(e)) == Err::<Seq<char>, Seq<char>>(e@),
        translate_outcome(HttpReply::Refused { status, body: Some(body) }) == Err::<
            Seq<char>,
            Seq<char>,
        >("API error "@ + status@ + ": "@ + body@),
        translate_outcome(HttpReply::Refused { status, body: None }) == Err::<
            Seq<char>,
            Seq<char>,
        >("API error "@ + status@ + ": "@ + "Unknown error"@),
        translate_outcome(HttpReply::Unread(e)) == Err::<Seq<char>, Seq<char>>(
            "Failed to parse response: "@ + e@,
        ),
{
    reveal_strlit("");
    assert(""@ + e@ =~= e@);
}

} // verus!
