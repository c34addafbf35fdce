//! File transcription with DashScope: the audio is uploaded, a task is
//! submitted, its state is polled, and its result is downloaded.

use crate::asr::dashscope::{bearer, number_text};
use crate::asr::{AsrConfig, FileTranscriptionResult, TranscriptionSentence};
use crate::config::OssConfig;
use crate::error::Error;
use crate::http::{reply_document, reply_json, HttpReply};
use crate::json::{
    array_of, as_text, element, field, has_member, lemma_member_skips, no_members, str_or,
    text_or, write_json, written, Json, JsonView, ObjectBuilder,
};
use crate::text::{cat, cat3, opt_text, text_eq, trim_spec};
use crate::wav_name::{path_hash, wav_name, wav_name_text};
use vstd::prelude::*;
use vstd::string::*;

verus! {

/// The file transcription of DashScope, with the store that audio files are
/// uploaded to.
#[derive(Debug)]
pub struct DashScopeFileTransProvider {
    pub oss_config: Option<OssConfig>,
}

/// The parameters of a task. Telling speakers apart is only mentioned where it
/// is asked for.
pub open spec fn submit_parameters(language: Seq<char>, diarization: bool) -> JsonView {
    let base = no_members()
        .push(("channel_id"@, JsonView::Arr(seq![JsonView::Number("0"@)])))
        .push(("language_hints"@, JsonView::Arr(seq![JsonView::Str(language)])));
    JsonView::Obj(
        if diarization {
            base.push(("diarization_enabled"@, JsonView::Bool(true)))
        } else {
            base
        },
    )
}

/// The parameters of a task.
pub fn build_submit_parameters(language: &str, diarization: bool) -> (r: Json)
    ensures
        r.model() == submit_parameters(language@, diarization),
{
    let channel = array_of(Json::Number("0".to_owned()));
    let hints = array_of(Json::Str(language.to_owned()));
    let base = ObjectBuilder::new().with("channel_id", channel).with("language_hints", hints);
    if diarization {
        base.with("diarization_enabled", Json::Bool(true)).build()
    } else {
        base.build()
    }
}

/// The parameters of a task mention telling speakers apart exactly where it is
/// asked for, and always hint at the language.
pub proof fn diarization_is_mentioned_where_asked_for(language: Seq<char>, diarization: bool)
    ensures
        has_member(submit_parameters(language, diarization), "diarization_enabled"@)
            <==> diarization,
        diarization ==> field(
            submit_parameters(language, diarization),
            "diarization_enabled"@,
        ) == JsonView::Bool(true),
        field(submit_parameters(language, diarization), "channel_id"@) == JsonView::Arr(
            seq![JsonView::Number("0"@)],
        ),
        field(submit_parameters(language, diarization), "language_hints"@) == JsonView::Arr(
            seq![JsonView::Str(language)],
        ),
{
    reveal_strlit("channel_id");
    reveal_strlit("language_hints");
    reveal_strlit("diarization_enabled");
    let m = submit_parameters(language, diarization)->Obj_0;
    assert(m[0].0.len() == 10 && m[1].0.len() == 14 && "diarization_enabled"@.len() == 19);
    lemma_member_skips(m, "diarization_enabled"@, 2);
    lemma_member_skips(m, "language_hints"@, 1);
    assert(m.skip(1)[0].0 == "language_hints"@);
    if diarization {
        assert(m.skip(2)[0].0 == "diarization_enabled"@);
    } else {
        assert(m.skip(2).len() == 0);
    }
}

/// The request that submits a task.
pub open spec fn submit_document(
    model: Seq<char>,
    file_url: Seq<char>,
    language: Seq<char>,
    diarization: bool,
) -> JsonView {
    JsonView::Obj(
        no_members().push(("model"@, JsonView::Str(model))).push((
                "input"@,
                JsonView::Obj(
                    no_members()
                        .push(("file_urls"@, JsonView::Arr(seq![JsonView::Str(file_url)]))),
                ),
            )).push(("parameters"@, submit_parameters(language, diarization))),
    )
}

/// The request that submits a task.
pub fn submit_body(config: &AsrConfig, file_url: &str) -> (r: Json)
    ensures
        r.model() == submit_document(
            config.model@,
            file_url@,
            config.language@,
            config.diarization,
        ),
{
    let urls = array_of(Json::Str(file_url.to_owned()));
    let input = ObjectBuilder::new().with("file_urls", urls).build();
    ObjectBuilder::new().with_text("model", config.model.as_str()).with("input", input).with(
        "parameters",
        build_submit_parameters(config.language.as_str(), config.diarization),
    ).build()
}

/// The task that a submission was given.
pub open spec fn submitted_task(v: JsonView) -> Option<Seq<char>> {
    as_text(field(field(v, "output"@), "task_id"@))
}

/// The task that a submission was given.
pub fn task_id_of(j: &Json) -> (r: Result<String, Error>)
    ensures
        match r {
            Ok(id) => submitted_task(j.model()) == Some(id@),
            Err(e) => submitted_task(j.model()) is None && e is Asr && e->Asr_0@
                == "No task_id in submit response"@,
        },
{
    match j.get2("output", "task_id") {
        Some(t) => match t.as_str() {
            Some(s) => Ok(s),
            None => Err(Error::Asr("No task_id in submit response".to_owned())),
        },
        None => Err(Error::Asr("No task_id in submit response".to_owned())),
    }
}

/// How a task stands.
#[derive(Debug)]
pub enum PollOutcome {
    /// Its result lies at the given address.
    Ready(String),
    /// It has failed.
    Failed(Error),
    /// It is still under way.
    Again,
}

/// How a task stands, by what the service says of it.
pub enum PollView {
    Ready(Seq<char>),
    Failed(Seq<char>),
    Again,
}

impl View for PollOutcome {
    type V = PollView;

    open spec fn view(&self) -> PollView {
        match *self {
            PollOutcome::Ready(url) => PollView::Ready(url@),
            PollOutcome::Failed(e) => PollView::Failed(e->Asr_0@),
            PollOutcome::Again => PollView::Again,
        }
    }
}

/// How a task stands, by what the service says of it. Where no status is
/// given, the task has failed.
pub open spec fn task_state(v: JsonView) -> PollView {
    let output = field(v, "output"@);
    let status = text_or(field(output, "task_status"@), "UNKNOWN"@);
    if status == "SUCCEEDED"@ {
        match as_text(field(element(field(output, "results"@), 0), "transcription_url"@)) {
            Some(url) => PollView::Ready(url),
            None => PollView::Failed("No transcription_url in response"@),
        }
    } else if status == "FAILED"@ || status == "UNKNOWN"@ {
        PollView::Failed(
            "Transcription failed: "@ + text_or(field(output, "message"@), "Unknown error"@),
        )
    } else {
        PollView::Again
    }
}

/// How a task stands, by what the service says of it.
pub fn poll_outcome(j: &Json) -> (r: PollOutcome)
    ensures
        r@ == task_state(j.model()),
        r matches PollOutcome::Failed(e) ==> e is Asr,
{
    let status = str_or(j.get2("output", "task_status"), "UNKNOWN");
    if text_eq(status.as_str(), "SUCCEEDED") {
        let url: Option<String> = match j.get2("output", "results") {
            Some(results) => match results.at(0) {
                Some(first) => match first.get("transcription_url") {
                    Some(u) => u.as_str(),
                    None => None,
                },
                None => None,
            },
            None => None,
        };
        match url {
            Some(u) => PollOutcome::Ready(u),
            None => PollOutcome::Failed(
                Error::Asr("No transcription_url in response".to_owned()),
            ),
        }
    } else if text_eq(status.as_str(), "FAILED") || text_eq(status.as_str(), "UNKNOWN") {
        let message = str_or(j.get2("output", "message"), "Unknown error");
        PollOutcome::Failed(Error::Asr(cat("Transcription failed: ", message.as_str())))
    } else {
        PollOutcome::Again
    }
}

/// A sentence as the service reports it; times are the texts of numbers of
/// milliseconds, where there are any.
pub struct SentenceView {
    pub text: Seq<char>,
    pub begin: Option<Seq<char>>,
    pub end: Option<Seq<char>>,
}

/// What a recognised sentence says.
pub open spec fn sentence_view(s: TranscriptionSentence<Option<String>>) -> SentenceView {
    SentenceView { text: s.text@, begin: opt_text(s.begin_time), end: opt_text(s.end_time) }
}

/// What recognised sentences say.
pub open spec fn sentence_views(v: Seq<TranscriptionSentence<Option<String>>>) -> Seq<
    SentenceView,
> {
    v.map_values(|s: TranscriptionSentence<Option<String>>| sentence_view(s))
}

/// The sentence in a document.
pub open spec fn sentence_in(v: JsonView) -> SentenceView {
    SentenceView {
        text: text_or(field(v, "text"@), ""@),
        begin: number_text(field(v, "begin_time"@)),
        end: number_text(field(v, "end_time"@)),
    }
}

/// The elements of a document that is an array.
pub open spec fn elements(v: JsonView) -> Seq<JsonView> {
    match v {
        JsonView::Arr(a) => a,
        _ => Seq::empty(),
    }
}

/// The sentences of the transcripts, one transcript after the other.
pub open spec fn sentences_in(transcripts: Seq<JsonView>) -> Seq<SentenceView>
    decreases transcripts.len(),
{
    if transcripts.len() == 0 {
        Seq::empty()
    } else {
        sentences_in(transcripts.drop_last()) + elements(
            field(transcripts.last(), "sentences"@),
        ).map_values(|s: JsonView| sentence_in(s))
    }
}

fn number_at(s: &Json, key: &str) -> (r: Option<String>)
    ensures
        opt_text(r) == number_text(field(s.model(), key@)),
{
    match s.get(key) {
        Some(n) => n.as_number(),
        None => None,
    }
}

fn read_sentence(s: &Json) -> (r: TranscriptionSentence<Option<String>>)
    ensures
        sentence_view(r) == sentence_in(s.model()),
{
    TranscriptionSentence {
        text: str_or(s.get("text"), ""),
        begin_time: number_at(s, "begin_time"),
        end_time: number_at(s, "end_time"),
    }
}

/// Adds the sentences of one transcript.
fn read_transcript(transcript: &Json, out: &mut Vec<TranscriptionSentence<Option<String>>>)
    ensures
        sentence_views(final(out)@) == sentence_views(old(out)@) + elements(
            field(transcript.model(), "sentences"@),
        ).map_values(|s: JsonView| sentence_in(s)),
{
    let ghost start = out@;
    let ghost list = elements(field(transcript.model(), "sentences"@));
    let ghost all = list.map_values(|s: JsonView| sentence_in(s));
    let sents: &Json = match transcript.get("sentences") {
        Some(s) => s,
        None => {
            proof {
                assert(sentence_views(out@) + all =~= sentence_views(out@));
            }
            return;
        },
    };
    let n: usize = match sents.array_len() {
        Some(n) => n,
        None => {
            proof {
                assert(sentence_views(out@) + all =~= sentence_views(out@));
            }
            return;
        },
    };
    let mut i: usize = 0;
    proof {
        assert(sentence_views(start) + all.take(0) =~= sentence_views(start));
    }
    while i < n
        invariant
            i <= n,
            n == list.len(),
            sents.model() is Arr,
            sents.model()->Arr_0 == list,
            all == list.map_values(|s: JsonView| sentence_in(s)),
            sentence_views(out@) == sentence_views(start) + all.take(i as int),
        decreases n - i,
    {
        match sents.at(i) {
            Some(s) => {
                let ghost before = out@;
                let sentence = read_sentence(s);
                out.push(sentence);
                proof {
                    assert(sentence_views(out@) =~= sentence_views(before).push(
                        sentence_view(sentence),
                    ));
                    assert(all.take(i + 1) =~= all.take(i as int).push(all[i as int]));
                    assert(sentence_views(out@) =~= sentence_views(start) + all.take(i + 1));
                }
            },
            None => {},
        }
        i += 1;
    }
    proof {
        assert(all.take(n as int) =~= all);
    }
}

/// Reads the sentences of a result.
pub fn read_result(j: &Json) -> (r: FileTranscriptionResult<Option<String>>)
    ensures
        sentence_views(r.sentences@) == sentences_in(elements(field(j.model(), "transcripts"@))),
{
    let mut out: Vec<TranscriptionSentence<Option<String>>> = Vec::new();
    let ghost list = elements(field(j.model(), "transcripts"@));
    proof {
        assert(sentence_views(out@) =~= sentences_in(list.take(0)));
    }
    match j.get("transcripts") {
        Some(transcripts) => match transcripts.array_len() {
            Some(n) => {
                let mut i: usize = 0;
                while i < n
                    invariant
                        i <= n,
                        n == list.len(),
                        transcripts.model() is Arr,
                        transcripts.model()->Arr_0 == list,
                        sentence_views(out@) == sentences_in(list.take(i as int)),
                    decreases n - i,
                {
                    match transcripts.at(i) {
                        Some(t) => {
                            read_transcript(t, &mut out);
                            proof {
                                assert(list.take(i + 1).drop_last() =~= list.take(i as int));
                            }
                        },
                        None => {},
                    }
                    i += 1;
                }
                proof {
                    assert(list.take(n as int) =~= list);
                }
            },
            None => {
                proof {
                    assert(list.take(0) =~= list);
                }
            },
        },
        None => {
            proof {
                assert(list.take(0) =~= list);
            }
        },
    }
    FileTranscriptionResult { sentences: out }
}

/// How long is waited before it is asked how a task stands, in seconds.
pub const POLL_DELAY_SECS: u64 = 2;

/// What is to be done next.
#[derive(Debug)]
pub enum FileTransAction {
    /// Upload the audio file under this name.
    Upload { object_name: String },
    /// Submit the task: post this body to this address.
    Submit { url: String, authorization: String, body: String },
    /// Wait, then ask this address how the task stands.
    Poll { url: String, authorization: String, delay_secs: u64 },
    /// Download the result from this address.
    Download { url: String },
    /// Delete the uploaded file; the result is there.
    Done { object_name: String, result: FileTranscriptionResult<Option<String>> },
    /// The transcription has failed.
    Fail(Error),
}

/// What a transcription waits for.
#[derive(Debug, Clone, Copy, PartialEq, Eq, Structural)]
pub enum FileTransStage {
    Uploading,
    Submitting,
    Polling,
    Downloading,
    Over,
}

/// One transcription.
#[derive(Debug)]
pub struct FileTransTask {
    pub config: AsrConfig,
    pub base_url: String,
    pub object_name: String,
    pub query_url: String,
    pub stage: FileTransStage,
}

/// The address of the service for a workspace.
pub open spec fn base_url_text(workspace_id: Seq<char>) -> Seq<char> {
    "https://"@ + workspace_id + ".cn-beijing.maas.aliyuncs.com/api/v1"@
}

/// Whether an error is the given one of recognition.
pub open spec fn is_asr_error(e: Error, text: Seq<char>) -> bool {
    e is Asr && e->Asr_0@ == text
}

impl FileTransTask {
    /// Fails the transcription.
    fn fail(&mut self, error: Error) -> (r: FileTransAction)
        ensures
            *final(self) == (FileTransTask { stage: FileTransStage::Over, ..*old(self) }),
            r == FileTransAction::Fail(error),
    {
        self.stage = FileTransStage::Over;
        FileTransAction::Fail(error)
    }

    /// The audio file was uploaded and can be read at the given address.
    pub fn uploaded(&mut self, file_url: &str) -> (r: FileTransAction)
        requires
            old(self).stage == FileTransStage::Uploading,
        ensures
            *final(self) == (FileTransTask { stage: FileTransStage::Submitting, ..*old(self) }),
            r matches FileTransAction::Submit { url, authorization, body } && url@ == old(
                self,
            ).base_url@ + "/services/audio/asr/transcription"@ && authorization@ == "Bearer "@
                + trim_spec(old(self).config.api_key@) && body@ == written(
                submit_document(
                    old(self).config.model@,
                    file_url@,
                    old(self).config.language@,
                    old(self).config.diarization,
                ),
            ),
    {
        self.stage = FileTransStage::Submitting;
        let body = submit_body(&self.config, file_url);
        FileTransAction::Submit {
            url: cat(self.base_url.as_str(), "/services/audio/asr/transcription"),
            authorization: bearer(self.config.api_key.as_str()),
            body: write_json(&body),
        }
    }

    /// The upload failed.
    pub fn upload_failed(&mut self, error: Error) -> (r: FileTransAction)
        requires
            old(self).stage == FileTransStage::Uploading,
        ensures
            *final(self) == (FileTransTask { stage: FileTransStage::Over, ..*old(self) }),
            r == FileTransAction::Fail(error),
    {
        self.fail(error)
    }

    /// The service has answered the submission with a document.
    pub fn on_submit_document(&mut self, j: &Json) -> (r: FileTransAction)
        requires
            old(self).stage == FileTransStage::Submitting,
        ensures
            match submitted_task(j.model()) {
                Some(id) => {
                    &&& final(self).stage == FileTransStage::Polling
                    &&& final(self).query_url@ == old(self).base_url@ + "/tasks/"@ + id
                    &&& *final(self) == (FileTransTask {
                        stage: FileTransStage::Polling,
                        query_url: final(self).query_url,
                        ..*old(self)
                    })
                    &&& r matches FileTransAction::Poll { url, authorization, delay_secs }
                        && delay_secs == POLL_DELAY_SECS && url@
                        == old(self).base_url@ + "/tasks/"@ + id && authorization@ == "Bearer "@
                        + trim_spec(old(self).config.api_key@)
                },
                None => {
                    &&& *final(self) == (FileTransTask {
                        stage: FileTransStage::Over,
                        ..*old(self)
                    })
                    &&& r matches FileTransAction::Fail(e) && is_asr_error(
                        e,
                        "No task_id in submit response"@,
                    )
                },
            },
            r matches FileTransAction::Poll { url, authorization, delay_secs } ==> delay_secs == 2,
    {
        match task_id_of(j) {
            Ok(id) => {
                let url = cat3(self.base_url.as_str(), "/tasks/", id.as_str());
                self.query_url = url.clone();
                self.stage = FileTransStage::Polling;
                FileTransAction::Poll {
                    url,
                    authorization: bearer(self.config.api_key.as_str()),
                    delay_secs: POLL_DELAY_SECS,
                }
            },
            Err(e) => self.fail(e),
        }
    }

    /// The service has answered the question how the task stands with a
    /// document.
    pub fn on_poll_document(&mut self, j: &Json) -> (r: FileTransAction)
        requires
            old(self).stage == FileTransStage::Polling,
        ensures
            match task_state(j.model()) {
                PollView::Ready(address) => {
                    &&& *final(self) == (FileTransTask {
                        stage: FileTransStage::Downloading,
                        ..*old(self)
                    })
                    &&& r matches FileTransAction::Download { url } && url@ == address
                },
                PollView::Failed(text) => {
                    &&& *final(self) == (FileTransTask {
                        stage: FileTransStage::Over,
                        ..*old(self)
                    })
                    &&& r matches FileTransAction::Fail(e) && is_asr_error(e, text)
                },
                PollView::Again => {
                    &&& *final(self) == *old(self)
                    &&& r matches FileTransAction::Poll { url, authorization, delay_secs }
                        && delay_secs == POLL_DELAY_SECS && url@
                        == old(self).query_url@ && authorization@ == "Bearer "@ + trim_spec(
                        old(self).config.api_key@,
                    )
                },
            },
            r matches FileTransAction::Poll { url, authorization, delay_secs } ==> delay_secs == 2,
    {
        match poll_outcome(j) {
            PollOutcome::Ready(url) => {
                self.stage = FileTransStage::Downloading;
                FileTransAction::Download { url }
            },
            PollOutcome::Failed(e) => self.fail(e),
            PollOutcome::Again => FileTransAction::Poll {
                url: self.query_url.clone(),
                authorization: bearer(self.config.api_key.as_str()),
                delay_secs: POLL_DELAY_SECS,
            },
        }
    }

    /// The result was downloaded. The uploaded file is not needed any more.
    pub fn on_result_document(&mut self, j: &Json) -> (r: FileTransAction)
        requires
            old(self).stage == FileTransStage::Downloading,
        ensures
            *final(self) == (FileTransTask { stage: FileTransStage::Over, ..*old(self) }),
            r matches FileTransAction::Done { object_name, result } && object_name == old(
                self,
            ).object_name && sentence_views(result.sentences@) == sentences_in(
                elements(field(j.model(), "transcripts"@)),
            ),
    {
        self.stage = FileTransStage::Over;
        FileTransAction::Done { object_name: self.object_name.clone(), result: read_result(j) }
    }
}

/// The words for a request of the given stage that was not answered.
pub open spec fn unsent_words(stage: FileTransStage) -> Seq<char> {
    match stage {
        FileTransStage::Submitting => "Failed to submit task: "@,
        FileTransStage::Polling => "Failed to query task: "@,
        _ => "Failed to download result: "@,
    }
}

/// The words for a request of the given stage that was refused.
pub open spec fn refused_words(stage: FileTransStage) -> Seq<char> {
    match stage {
        FileTransStage::Submitting => "Submit task failed "@,
        FileTransStage::Polling => "Query task failed "@,
        _ => "Download result failed "@,
    }
}

/// The words for an answer of the given stage that could not be read.
pub open spec fn unread_words(stage: FileTransStage) -> Seq<char> {
    match stage {
        FileTransStage::Submitting => "Failed to parse submit response: "@,
        FileTransStage::Polling => "Failed to parse query response: "@,
        _ => "Failed to parse result JSON: "@,
    }
}

/// What a reply to the request of the given stage holds.
pub open spec fn stage_reply(stage: FileTransStage, reply: HttpReply) -> Result<
    JsonView,
    Seq<char>,
> {
    reply_document(reply, unsent_words(stage), refused_words(stage), unread_words(stage))
}

/// Whether a transcription waits for a reply of the service.
pub open spec fn awaits_reply(stage: FileTransStage) -> bool {
    stage == FileTransStage::Submitting || stage == FileTransStage::Polling || stage
        == FileTransStage::Downloading
}

impl FileTransTask {
    /// The service has replied, or failed to. A document is taken in according
    /// to what the task waits for; anything else fails the transcription.
    pub fn replied(&mut self, reply: &HttpReply) -> (r: FileTransAction)
        requires
            awaits_reply(old(self).stage),
        ensures
            match stage_reply(old(self).stage, *reply) {
                Err(text) => {
                    &&& *final(self) == (FileTransTask {
                        stage: FileTransStage::Over,
                        ..*old(self)
                    })
                    &&& r matches FileTransAction::Fail(e) && is_asr_error(e, text)
                },
                Ok(v) => match old(self).stage {
                    FileTransStage::Submitting => match submitted_task(v) {
                        Some(id) => {
                            &&& *final(self) == (FileTransTask {
                                stage: FileTransStage::Polling,
                                query_url: final(self).query_url,
                                ..*old(self)
                            })
                            &&& final(self).query_url@ == old(self).base_url@ + "/tasks/"@ + id
                            &&& r matches FileTransAction::Poll { url, authorization, delay_secs }
                                && delay_secs == POLL_DELAY_SECS && url@ == final(self).query_url@
                                && authorization@ == "Bearer "@ + trim_spec(
                                old(self).config.api_key@,
                            )
                        },
                        None => {
                            &&& *final(self) == (FileTransTask {
                                stage: FileTransStage::Over,
                                ..*old(self)
                            })
                            &&& r matches FileTransAction::Fail(e) && is_asr_error(
                                e,
                                "No task_id in submit response"@,
                            )
                        },
                    },
                    FileTransStage::Polling => match task_state(v) {
                        PollView::Ready(address) => {
                            &&& *final(self) == (FileTransTask {
                                stage: FileTransStage::Downloading,
                                ..*old(self)
                            })
                            &&& r matches FileTransAction::Download { url } && url@ == address
                        },
                        PollView::Failed(text) => {
                            &&& *final(self) == (FileTransTask {
                                stage: FileTransStage::Over,
                                ..*old(self)
                            })
                            &&& r matches FileTransAction::Fail(e) && is_asr_error(e, text)
                        },
                        PollView::Again => {
                            &&& *final(self) == *old(self)
                            &&& r matches FileTransAction::Poll { url, authorization, delay_secs }
                                && delay_secs == POLL_DELAY_SECS && url@ == old(self).query_url@
                                && authorization@ == "Bearer "@ + trim_spec(
                                old(self).config.api_key@,
                            )
                        },
                    },
                    _ => {
                        &&& *final(self) == (FileTransTask {
                            stage: FileTransStage::Over,
                            ..*old(self)
                        })
                        &&& r matches FileTransAction::Done { object_name, result } && object_name
                            == old(self).object_name && sentence_views(result.sentences@)
                            == sentences_in(elements(field(v, "transcripts"@)))
                    },
                },
            },
            r matches FileTransAction::Poll { url, authorization, delay_secs } ==> delay_secs == 2,
            r matches FileTransAction::Fail(e) ==> e is Asr && final(self).stage
                == FileTransStage::Over,
            *reply matches HttpReply::Unsent(cause) ==> r matches FileTransAction::Fail(e)
                && e is Asr && e->Asr_0@ == (match old(self).stage {
                FileTransStage::Submitting => "Failed to submit task: "@,
                FileTransStage::Polling => "Failed to query task: "@,
                _ => "Failed to download result: "@,
            }) + cause@,
            *reply matches HttpReply::Refused { status, body: Some(text) }
                ==> r matches FileTransAction::Fail(e) && e is Asr && e->Asr_0@ == (
            match old(self).stage {
                FileTransStage::Submitting => "Submit task failed "@,
                FileTransStage::Polling => "Query task failed "@,
                _ => "Download result failed "@,
            }) + status@ + ": "@ + text@,
            *reply matches HttpReply::Unread(cause) ==> r matches FileTransAction::Fail(e)
                && e is Asr && e->Asr_0@ == (match old(self).stage {
                FileTransStage::Submitting => "Failed to parse submit response: "@,
                FileTransStage::Polling => "Failed to parse query response: "@,
                _ => "Failed to parse result JSON: "@,
            }) + cause@,
    {
        let stage: FileTransStage = self.stage;
        let document = match stage {
            FileTransStage::Submitting => reply_json(
                reply,
                "Failed to submit task: ",
                "Submit task failed ",
                "Failed to parse submit response: ",
            ),
            FileTransStage::Polling => reply_json(
                reply,
                "Failed to query task: ",
                "Query task failed ",
                "Failed to parse query response: ",
            ),
            _ => reply_json(
                reply,
                "Failed to download result: ",
                "Download result failed ",
                "Failed to parse result JSON: ",
            ),
        };
        match document {
            Err(text) => self.fail(Error::Asr(text)),
            Ok(j) => match stage {
                FileTransStage::Submitting => self.on_submit_document(&j),
                FileTransStage::Polling => self.on_poll_document(&j),
                _ => self.on_result_document(&j),
            },
        }
    }
}

/// The name under which an audio file is uploaded. It depends on the path
/// alone: a transcription that is paused leaves its upload behind, and the
/// next one of the same file replaces it.
pub fn oss_object_name(audio_path: &str) -> (r: String)
    ensures
        r@ == wav_name_text(path_hash(audio_path@)),
{
    wav_name(audio_path)
}

impl DashScopeFileTransProvider {
    /// Begins the transcription of an audio file. A workspace and an object
    /// store have to be set up.
    pub fn transcribe_file(&self, config: AsrConfig, audio_path: &str) -> (r: Result<
        (FileTransTask, FileTransAction),
        Error,
    >)
        ensures
            match r {
                Err(e) => is_asr_error(
                    e,
                    if config.workspace_id is None {
                        "Workspace ID is required for file transcription"@
                    } else {
                        "OSS config is required for file transcription"@
                    },
                ) && (config.workspace_id is None || self.oss_config is None),
                Ok((task, action)) => {
                    let name = wav_name_text(path_hash(audio_path@));
                    &&& config.workspace_id is Some
                    &&& self.oss_config is Some
                    &&& task.config == config
                    &&& task.base_url@ == base_url_text(config.workspace_id->0@)
                    &&& task.base_url@ == "https://"@ + config.workspace_id->0@
                        + ".cn-beijing.maas.aliyuncs.com/api/v1"@
                    &&& task.object_name@ == name
                    &&& task.query_url@ == ""@
                    &&& task.stage == FileTransStage::Uploading
                    &&& action matches FileTransAction::Upload { object_name } && object_name@
                        == name
                },
            },
    {
        let base_url = match &config.workspace_id {
            Some(w) => cat3("https://", w.as_str(), ".cn-beijing.maas.aliyuncs.com/api/v1"),
            None => {
                return Err(
                    Error::Asr("Workspace ID is required for file transcription".to_owned()),
                );
            },
        };
        if self.oss_config.is_none() {
            return Err(Error::Asr("OSS config is required for file transcription".to_owned()));
        }
        let object_name = oss_object_name(audio_path);
        let action = FileTransAction::Upload { object_name: object_name.clone() };
        Ok(
            (
                FileTransTask {
                    config,
                    base_url,
                    object_name,
                    query_url: "".to_owned(),
                    stage: FileTransStage::Uploading,
                },
                action,
            ),
        )
    }
}

/// The request that submits a task names the model and the one file, and
/// carries the parameters.
pub proof fn submission_names_model_and_file(
    model: Seq<char>,
    file_url: Seq<char>,
    language: Seq<char>,
    diarization: bool,
)
    ensures
        ({
            let d = submit_document(model, file_url, language, diarization);
            &&& field(d, "model"@) == JsonView::Str(model)
            &&& field(field(d, "input"@), "file_urls"@) == JsonView::Arr(
                seq![JsonView::Str(file_url)],
            )
            &&& field(d, "parameters"@) == submit_parameters(language, diarization)
        }),
{
    reveal_strlit("model");
    reveal_strlit("input");
    reveal_strlit("parameters");
    let m = submit_document(model, file_url, language, diarization)->Obj_0;
    assert(m[0].0.len() == 5 && m[1].0.len() == 5 && m[2].0.len() == 10);
    assert("model"@[0] != "input"@[0]);
    lemma_member_skips(m, "input"@, 1);
    lemma_member_skips(m, "parameters"@, 2);
    assert(m.skip(1)[0].0 == "input"@);
    assert(m.skip(2)[0].0 == "parameters"@);
    assert(m[1].1->Obj_0[0].0 == "file_urls"@);
}

/// The id that the service gives a task is the one that is polled for.
pub proof fn submitted_id_is_read(id: Seq<char>)
    ensures
        submitted_task(
            JsonView::Obj(
                no_members().push((
                    "output"@,
                    JsonView::Obj(no_members().push(("task_id"@, JsonView::Str(id)))),
                )),
            ),
        ) == Some(id),
{
    let output = JsonView::Obj(no_members().push(("task_id"@, JsonView::Str(id))));
    let v = JsonView::Obj(no_members().push(("output"@, output)));
    assert(output->Obj_0[0].0 == "task_id"@);
    assert(v->Obj_0[0].0 == "output"@);
    assert(field(v, "output"@) == output);
}

/// What the service says of a task: one that has succeeded is ready at the
/// address of its first result, one that has failed has failed for the reason
/// given, and one of any other status is asked for again.
pub proof fn task_status_decides(
    url: Seq<char>,
    others: Seq<JsonView>,
    message: Seq<char>,
    status: Seq<char>,
)
    ensures
        ({
            let result = JsonView::Obj(
                no_members().push(("transcription_url"@, JsonView::Str(url))),
            );
            let output = JsonView::Obj(
                no_members()
                    .push(("task_status"@, JsonView::Str("SUCCEEDED"@)))
                    .push(("results"@, JsonView::Arr(seq![result] + others))),
            );
            task_state(JsonView::Obj(no_members().push(("output"@, output)))) == PollView::Ready(
                url,
            )
        }),
        ({
            let output = JsonView::Obj(
                no_members()
                    .push(("task_status"@, JsonView::Str("FAILED"@)))
                    .push(("message"@, JsonView::Str(message))),
            );
            task_state(JsonView::Obj(no_members().push(("output"@, output)))) == PollView::Failed(
                "Transcription failed: "@ + message,
            )
        }),
        status != "SUCCEEDED"@ && status != "FAILED"@ && status != "UNKNOWN"@ ==> ({
            let output = JsonView::Obj(
                no_members().push(("task_status"@, JsonView::Str(status))),
            );
            task_state(JsonView::Obj(no_members().push(("output"@, output)))) == PollView::Again
        }),
{
    reveal_strlit("task_status");
    reveal_strlit("results");
    reveal_strlit("message");
    reveal_strlit("SUCCEEDED");
    reveal_strlit("FAILED");
    assert("SUCCEEDED"@.len() == 9 && "FAILED"@.len() == 6);
    let result = JsonView::Obj(no_members().push(("transcription_url"@, JsonView::Str(url))));
    assert(result->Obj_0[0].0 == "transcription_url"@);
    let list = JsonView::Arr(seq![result] + others);
    assert(element(list, 0) == result);
    let done = no_members()
        .push(("task_status"@, JsonView::Str("SUCCEEDED"@)))
        .push(("results"@, list));
    assert(done[0].0.len() == 11 && done[1].0.len() == 7);
    lemma_member_skips(done, "results"@, 1);
    assert(done.skip(1)[0].0 == "results"@);
    lemma_output_is_read(JsonView::Obj(done));
    let lost = no_members()
        .push(("task_status"@, JsonView::Str("FAILED"@)))
        .push(("message"@, JsonView::Str(message)));
    assert(lost[0].0.len() == 11 && lost[1].0.len() == 7);
    lemma_member_skips(lost, "message"@, 1);
    assert(lost.skip(1)[0].0 == "message"@);
    lemma_output_is_read(JsonView::Obj(lost));
    let open = no_members().push(("task_status"@, JsonView::Str(status)));
    assert(open[0].0 == "task_status"@);
    lemma_output_is_read(JsonView::Obj(open));
}

proof fn lemma_output_is_read(output: JsonView)
    ensures
        field(JsonView::Obj(no_members().push(("output"@, output))), "output"@) == output,
{
    assert(no_members().push(("output"@, output))[0].0 == "output"@);
}

/// A recognised sentence says what it holds, part by part.
pub proof fn sentences_say_what_they_hold(s: TranscriptionSentence<Option<String>>)
    ensures
        sentence_view(s).text == s.text@,
        sentence_view(s).begin == opt_text(s.begin_time),
        sentence_view(s).end == opt_text(s.end_time),
{
}

/// A sentence of a result is read with its text and its times.
pub proof fn sentence_is_read(text: Seq<char>, begin: Seq<char>, end: Seq<char>)
    ensures
        ({
            let s = sentence_in(
                JsonView::Obj(
                    no_members()
                        .push(("text"@, JsonView::Str(text)))
                        .push(("begin_time"@, JsonView::Number(begin)))
                        .push(("end_time"@, JsonView::Number(end))),
                ),
            );
            s.text == text && s.begin == Some(begin) && s.end == Some(end)
        }),
{
    reveal_strlit("text");
    reveal_strlit("begin_time");
    reveal_strlit("end_time");
    let m = no_members()
        .push(("text"@, JsonView::Str(text)))
        .push(("begin_time"@, JsonView::Number(begin)))
        .push(("end_time"@, JsonView::Number(end)));
    assert(m[0].0.len() == 4 && m[1].0.len() == 10 && m[2].0.len() == 8);
    lemma_member_skips(m, "begin_time"@, 1);
    lemma_member_skips(m, "end_time"@, 2);
    assert(m.skip(1)[0].0 == "begin_time"@);
    assert(m.skip(2)[0].0 == "end_time"@);
}

/// Every sentence of every transcript is read, in order: one more transcript
/// adds its sentences at the end, each as it stands.
pub proof fn transcripts_are_read_in_order(transcripts: Seq<JsonView>, sentences: Seq<JsonView>)
    ensures
        ({
            let next = JsonView::Obj(
                no_members().push(("sentences"@, JsonView::Arr(sentences))),
            );
            let before = sentences_in(transcripts);
            let after = sentences_in(transcripts.push(next));
            &&& sentences_in(Seq::<JsonView>::empty()).len() == 0
            &&& after.len() == before.len() + sentences.len()
            &&& after.take(before.len() as int) == before
            &&& forall|i: int|
                0 <= i < sentences.len() ==> after[before.len() + i] == sentence_in(
                    #[trigger] sentences[i],
                )
        }),
{
    let next = JsonView::Obj(no_members().push(("sentences"@, JsonView::Arr(sentences))));
    assert(next->Obj_0[0].0 == "sentences"@);
    assert(transcripts.push(next).drop_last() =~= transcripts);
    let before = sentences_in(transcripts);
    let after = sentences_in(transcripts.push(next));
    assert(after.take(before.len() as int) =~= before);
}

/// A task without a status has failed, as has one that succeeded without a
/// result; and a failure that is not explained is an unknown one.
pub proof fn unexplained_states_are_failures()
    ensures
        task_state(JsonView::Null) == PollView::Failed(
            "Transcription failed: "@ + "Unknown error"@,
        ),
        task_state(
            JsonView::Obj(
                no_members().push((
                    "output"@,
                    JsonView::Obj(
                        no_members().push(("task_status"@, JsonView::Str("SUCCEEDED"@))),
                    ),
                )),
            ),
        ) == PollView::Failed("No transcription_url in response"@),
        submitted_task(JsonView::Null) is None,
{
    reveal_strlit("task_status");
    reveal_strlit("results");
    reveal_strlit("SUCCEEDED");
    reveal_strlit("UNKNOWN");
    assert("SUCCEEDED"@.len() == 9 && "UNKNOWN"@.len() == 7);
    let done = no_members().push(("task_status"@, JsonView::Str("SUCCEEDED"@)));
    assert(done[0].0.len() == 11 && "results"@.len() == 7);
    lemma_member_skips(done, "results"@, 1);
    assert(done.skip(1).len() == 0);
    lemma_output_is_read(JsonView::Obj(done));
}

/// A reply is awaited after the submission, while the task is polled for, and
/// while the result is downloaded; and an outcome says what it holds.
pub proof fn replies_are_awaited_in_between(stage: FileTransStage, url: String, e: Error)
    ensures
        awaits_reply(stage) <==> !(stage is Uploading) && !(stage is Over),
        PollOutcome::Ready(url)@ == PollView::Ready(url@),
        e is Asr ==> PollOutcome::Failed(e)@ == PollView::Failed(e->Asr_0@),
        PollOutcome::Again@ == PollView::Again,
{
}

/// What recognised sentences say is said by each, in order.
pub proof fn sentences_are_said_in_order(
    list: Seq<TranscriptionSentence<Option<String>>>,
    i: int,
)
    requires
        0 <= i < list.len(),
    ensures
        sentence_views(list).len() == list.len(),
        sentence_views(list)[i].text == list[i].text@,
        sentence_views(list)[i].begin == opt_text(list[i].begin_time),
        sentence_views(list)[i].end == opt_text(list[i].end_time),
{
}

} // verus!
