//! Errors of the library, and the wording of transport failures.

use crate::text::{cat, cat3, join, join_spec, lemma_join_regroups, texts};
use vstd::prelude::*;

verus! {

/// What went wrong, by area, with the details as text.
#[derive(Debug)]
pub enum Error {
    Io(String),
    Serialization(String),
    AudioSource(String),
    Asr(String),
    Translate(String),
    Config(String),
}

/// The prefix that the message of an error begins with.
pub open spec fn error_prefix(e: Error) -> Seq<char> {
    match e {
        Error::Io(_) => "IO error: "@,
        Error::Serialization(_) => "Serialization error: "@,
        Error::AudioSource(_) => "Audio source error: "@,
        Error::Asr(_) => "ASR error: "@,
        Error::Translate(_) => "Translation error: "@,
        Error::Config(_) => "Configuration error: "@,
    }
}

/// The details of an error.
pub open spec fn error_detail(e: Error) -> Seq<char> {
    match e {
        Error::Io(m) => m@,
        Error::Serialization(m) => m@,
        Error::AudioSource(m) => m@,
        Error::Asr(m) => m@,
        Error::Translate(m) => m@,
        Error::Config(m) => m@,
    }
}

/// The message that is shown for an error.
pub open spec fn error_text(e: Error) -> Seq<char> {
    error_prefix(e) + error_detail(e)
}

impl Error {
    /// The message that is shown for this error.
    pub fn message(&self) -> (r: String)
        ensures
            r@ == error_text(*self),
            *self matches Error::Io(m) ==> r@ == "IO error: "@ + m@,
            *self matches Error::Serialization(m) ==> r@ == "Serialization error: "@ + m@,
            *self matches Error::AudioSource(m) ==> r@ == "Audio source error: "@ + m@,
            *self matches Error::Asr(m) ==> r@ == "ASR error: "@ + m@,
            *self matches Error::Translate(m) ==> r@ == "Translation error: "@ + m@,
            *self matches Error::Config(m) ==> r@ == "Configuration error: "@ + m@,
    {
        match self {
            Error::Io(m) => cat("IO error: ", m.as_str()),
            Error::Serialization(m) => cat("Serialization error: ", m.as_str()),
            Error::AudioSource(m) => cat("Audio source error: ", m.as_str()),
            Error::Asr(m) => cat("ASR error: ", m.as_str()),
            Error::Translate(m) => cat("Translation error: ", m.as_str()),
            Error::Config(m) => cat("Configuration error: ", m.as_str()),
        }
    }
}

/// The causes below an error as one line, outermost first.
pub fn error_causes(causes: &Vec<String>) -> (r: String)
    ensures
        r@ == join_spec(texts(causes@), " → "@),
{
    join(causes, " → ")
}

/// What is known of a failed transfer: the error's own message, how it is
/// classified, and the messages of the causes below it, outermost first.
#[derive(Debug)]
pub struct TransportFailure {
    pub message: String,
    pub timeout: bool,
    pub connect: bool,
    pub causes: Vec<String>,
}

/// The class of a failed transfer. A timeout counts before a failed connect.
pub open spec fn transport_kind(timeout: bool, connect: bool) -> Seq<char> {
    if timeout {
        "timeout"@
    } else if connect {
        "connect"@
    } else {
        "transport"@
    }
}

/// The line that is shown for a failed transfer: its message, its class and,
/// where there are any, its causes.
pub open spec fn transport_text(f: TransportFailure) -> Seq<char> {
    let kind = transport_kind(f.timeout, f.connect);
    let causes = join_spec(texts(f.causes@), " → "@);
    if causes.len() == 0 {
        f.message@ + " ["@ + kind + "]"@
    } else {
        f.message@ + " ["@ + kind + ": "@ + causes + "]"@
    }
}

/// The line that is shown for a failed transfer.
pub fn transport_error(f: &TransportFailure) -> (r: String)
    ensures
        r@ == transport_text(*f),
        f.timeout && f.causes@.len() == 0 ==> r@ == f.message@ + " ["@ + "timeout"@ + "]"@,
        !f.timeout && f.connect && f.causes@.len() == 0 ==> r@ == f.message@ + " ["@ + "connect"@
            + "]"@,
        !f.timeout && !f.connect && f.causes@.len() == 0 ==> r@ == f.message@ + " ["@
            + "transport"@ + "]"@,
{
    proof {
        transport_text_tells_all(*f);
    }
    let kind: &str = if f.timeout {
        "timeout"
    } else if f.connect {
        "connect"
    } else {
        "transport"
    };
    let causes = error_causes(&f.causes);
    let head = cat3(f.message.as_str(), " [", kind);
    if causes.as_str().is_empty() {
        cat(head.as_str(), "]")
    } else {
        let tail = cat3(": ", causes.as_str(), "]");
        let r = cat(head.as_str(), tail.as_str());
        proof {
            assert(r@ =~= transport_text(*f));
        }
        r
    }
}

/// What is shown for a failed transfer tells its message, then in brackets
/// whether it was a timeout or no connection, then the causes where there are
/// any.
pub proof fn transport_text_tells_all(f: TransportFailure)
    ensures
        ({
            let causes = join_spec(texts(f.causes@), " → "@);
            let end = if causes.len() == 0 {
                "]"@
            } else {
                ": "@ + causes + "]"@
            };
            &&& f.causes@.len() == 0 ==> causes.len() == 0
            &&& f.timeout ==> transport_text(f) == f.message@ + " ["@ + "timeout"@ + end
            &&& !f.timeout && f.connect ==> transport_text(f) == f.message@ + " ["@ + "connect"@
                + end
            &&& !f.timeout && !f.connect ==> transport_text(f) == f.message@ + " ["@
                + "transport"@ + end
        }),
{
    let causes = join_spec(texts(f.causes@), " → "@);
    if causes.len() > 0 {
        let head = f.message@ + " ["@ + transport_kind(f.timeout, f.connect);
        lemma_join_regroups(head, ": "@ + causes, "]"@);
        lemma_join_regroups(head, ": "@, causes);
    }
}

/// Every error is shown with its details behind words that tell its area.
pub proof fn messages_tell_the_area(m: String)
    ensures
        error_text(Error::Io(m)) == "IO error: "@ + m@,
        error_text(Error::Serialization(m)) == "Serialization error: "@ + m@,
        error_text(Error::AudioSource(m)) == "Audio source error: "@ + m@,
        error_text(Error::Asr(m)) == "ASR error: "@ + m@,
        error_text(Error::Translate(m)) == "Translation error: "@ + m@,
        error_text(Error::Config(m)) == "Configuration error: "@ + m@,
{
}

} // verus!
