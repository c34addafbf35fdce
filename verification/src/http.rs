//! Replies of HTTP services.

use crate::json::{json_parse, parse_json, Json, JsonView};
use crate::text::{cat, cat3, opt_text};
use vstd::prelude::*;

verus! {

/// What became of a request to a service.
#[derive(Debug)]
pub enum HttpReply {
    /// The request was not answered, for the reason given.
    Unsent(String),
    /// The service refused it, with a status and, where it could be read, a
    /// text.
    Refused { status: String, body: Option<String> },
    /// The service accepted it, but its answer could not be read, for the
    /// reason given.
    Unread(String),
    /// The service accepted it and answered.
    Body(String),
}

/// The text of a refusal.
pub open spec fn refusal_text(prefix: Seq<char>, status: Seq<char>, body: Option<Seq<char>>) -> Seq<
    char,
> {
    prefix + status + ": "@ + (match body {
        Some(b) => b,
        None => "Unknown error"@,
    })
}

/// The document that a service answered with, or what is reported instead:
/// the given words for a request that was not answered, for a refusal, or for
/// an answer that is no document, followed by the details.
pub open spec fn reply_document(
    reply: HttpReply,
    unsent: Seq<char>,
    refused: Seq<char>,
    unread: Seq<char>,
) -> Result<JsonView, Seq<char>> {
    match reply {
        HttpReply::Unsent(e) => Err(unsent + e@),
        HttpReply::Refused { status, body } => Err(refusal_text(refused, status@, opt_text(body))),
        HttpReply::Unread(e) => Err(unread + e@),
        HttpReply::Body(text) => match json_parse(text@) {
            Ok(v) => Ok(v),
            Err(_) => Err(unread + "error decoding response body"@),
        },
    }
}

/// The text of a refusal.
pub fn refusal(prefix: &str, status: &str, body: &Option<String>) -> (r: String)
    ensures
        r@ == refusal_text(prefix@, status@, opt_text(*body)),
        *body matches Some(b) ==> r@ == prefix@ + status@ + ": "@ + b@,
        *body is None ==> r@ == prefix@ + status@ + ": "@ + "Unknown error"@,
{
    let head = cat3(prefix, status, ": ");
    match body {
        Some(b) => cat(head.as_str(), b.as_str()),
        None => cat(head.as_str(), "Unknown error"),
    }
}

/// Reads the document that a service answered with.
pub fn reply_json(reply: &HttpReply, unsent: &str, refused: &str, unread: &str) -> (r: Result<
    Json,
    String,
>)
    ensures
        match r {
            Ok(j) => reply_document(*reply, unsent@, refused@, unread@) == Ok::<
                JsonView,
                Seq<char>,
            >(j.model()),
            Err(e) => reply_document(*reply, unsent@, refused@, unread@) == Err::<
                JsonView,
                Seq<char>,
            >(e@),
        },
{
    match reply {
        HttpReply::Unsent(e) => Err(cat(unsent, e.as_str())),
        HttpReply::Refused { status, body } => Err(refusal(refused, status.as_str(), body)),
        HttpReply::Unread(e) => Err(cat(unread, e.as_str())),
        HttpReply::Body(text) => match parse_json(text.as_str()) {
            Ok(j) => Ok(j),
            Err(_) => Err(cat(unread, "error decoding response body")),
        },
    }
}

/// What is reported of a reply that brings no document is its cause, behind
/// the words for where it failed; and only a body that is no document, or no
/// body at all, is reported.
pub proof fn reports_tell_where_it_failed(
    cause: String,
    status: String,
    body: String,
    unsent: Seq<char>,
    refused: Seq<char>,
    unread: Seq<char>,
)
    ensures
        reply_document(HttpReply::Unsent(cause), unsent, refused, unread) == Err::<
            JsonView,
            Seq<char>,
        >(unsent + cause@),
        reply_document(HttpReply::Unread(cause), unsent, refused, unread) == Err::<
            JsonView,
            Seq<char>,
        >(unread + cause@),
        reply_document(
            HttpReply::Refused { status, body: Some(body) },
            unsent,
            refused,
            unread,
        ) == Err::<JsonView, Seq<char>>(refused + status@ + ": "@ + body@),
        reply_document(HttpReply::Refused { status, body: None }, unsent, refused, unread)
            == Err::<JsonView, Seq<char>>(refused + status@ + ": "@ + "Unknown error"@),
        json_parse(body@) is Ok ==> reply_document(
            HttpReply::Body(body),
            unsent,
            refused,
            unread,
        ) == Ok::<JsonView, Seq<char>>(json_parse(body@)->Ok_0),
        json_parse(body@) is Err ==> reply_document(
            HttpReply::Body(body),
            unsent,
            refused,
            unread,
        ) == Err::<JsonView, Seq<char>>(unread + "error decoding response body"@),
{
}

} // verus!
