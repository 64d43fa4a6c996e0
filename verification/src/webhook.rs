use vstd::prelude::*;

use crate::markdown::chars::find_char_in;
use crate::markdown::chars::lemma_find_char;
use crate::model::Message;
use crate::model::ParsedMessage;
use crate::text::chars_of;
use crate::text::decimal;
use crate::text::push_char;
use crate::text::push_decimal;
use crate::text::starts_with;
use crate::validate::message_violation;
use crate::validate::validate;
use crate::validate::violation_text;
use crate::validate::ValidationError;

verus! {

/// The query parameter that makes the webhook answer with the created message.
pub const WAIT_PARAM: &'static str = "wait=true";

/// An HTTP request ready to be sent to a webhook.
#[derive(Debug, Clone, PartialEq, Eq)]
pub struct WebhookRequest {
    pub method: &'static str,
    pub url: String,
    pub headers: Vec<(&'static str, String)>,
    pub body: String,
}

/// Why a message could not be sent.
#[derive(Debug, Clone, PartialEq, Eq)]
pub enum SendError {
    InvalidUrl { url: String },
    Validation(ValidationError),
    Transport(String),
    Discord { status: u16, body: String },
}

/// The outcome of a delivered request: its status and, when the webhook was asked
/// to wait, the id of the created message.
#[derive(Debug, Clone, PartialEq, Eq)]
pub struct SendResult {
    pub status: u16,
    pub message_id: Option<String>,
}

/// The compact JSON text of a value, as `serde_json` writes it.
pub uninterp spec fn json_text(value: serde_json::Value) -> Seq<char>;

/// The string under the key `id` of the JSON object a text holds; `None` when the
/// text is not JSON, not an object, or has no string `id`.
pub uninterp spec fn json_id_string(text: Seq<char>) -> Option<Seq<char>>;

/// Rust's debug notation of a string: quoted, with escapes.
pub uninterp spec fn debug_quoted(text: Seq<char>) -> Seq<char>;

/// Writes a JSON value as compact text: `Display` of `serde_json::Value`, whose
/// output depends on the value alone.
#[verifier::external_body]
fn write_json(value: &serde_json::Value) -> (s: String)
    ensures
        s@ == json_text(*value),
{
    value.to_string()
}

/// Reads the string `id` of a JSON object text: `serde_json::from_str` into a
/// `Value`, then `Value::get("id")`, kept only when it is a JSON string.
#[verifier::external_body]
fn read_json_id(text: &str) -> (r: Option<String>)
    ensures
        match r {
            Some(s) => json_id_string(text@) == Some(s@),
            None => json_id_string(text@) is None,
        },
{
    let value: serde_json::Value = match serde_json::from_str(text) {
        Ok(v) => v,
        Err(_) => return None,
    };
    match value.get("id") {
        Some(serde_json::Value::String(s)) => Some(s.clone()),
        _ => None,
    }
}

/// Formats a string with `{:?}`.
#[verifier::external_body]
fn debug_string(text: &str) -> (s: String)
    ensures
        s@ == debug_quoted(text@),
{
    format!("{text:?}")
}

/// A URL with an `http://` or `https://` scheme.
pub open spec fn http_url(url: Seq<char>) -> bool {
    "http://"@.is_prefix_of(url) || "https://"@.is_prefix_of(url)
}

/// The URL a request goes to: with `wait=true` appended as a further query
/// parameter when asked to wait.
pub open spec fn target_url(url: Seq<char>, wait: bool) -> Seq<char> {
    if wait {
        url.push(
            if url.contains('?') {
                '&'
            } else {
                '?'
            },
        ) + WAIT_PARAM@
    } else {
        url
    }
}

/// A JSON `POST` of `body` to `url`.
pub open spec fn json_post(r: WebhookRequest, url: Seq<char>, body: Seq<char>) -> bool {
    &&& r.method@ == "POST"@
    &&& r.url@ == url
    &&& r.headers@.len() == 1
    &&& r.headers@[0].0@ == "Content-Type"@
    &&& r.headers@[0].1@ == "application/json"@
    &&& r.body@ == body
}

/// Builds the JSON `POST` of `body_json` to a webhook, with `wait=true` when asked.
/// Fails on a URL without an http(s) scheme.
pub fn build_request(webhook_url: &str, body_json: &str, wait: bool) -> (r: Result<
    WebhookRequest,
    SendError,
>)
    ensures
        match r {
            Ok(req) => http_url(webhook_url@) && json_post(
                req,
                target_url(webhook_url@, wait),
                body_json@,
            ),
            Err(SendError::InvalidUrl { url }) => !http_url(webhook_url@) && url@ == webhook_url@,
            Err(_) => false,
        },
{
    let chars = chars_of(webhook_url);
    if !starts_with(&chars, "http://") && !starts_with(&chars, "https://") {
        return Err(SendError::InvalidUrl { url: String::from_str(webhook_url) });
    }
    let mut url = String::from_str(webhook_url);
    if wait {
        proof {
            lemma_find_char(webhook_url@, '?');
        }
        assert(chars@.subrange(0, chars@.len() as int) =~= chars@);
        let has_query = find_char_in(&chars, 0, chars.len(), '?').is_some();
        assert(has_query == webhook_url@.contains('?'));
        push_char(&mut url, if has_query { '&' } else { '?' });
        url.append(WAIT_PARAM);
    }
    let headers = vec![("Content-Type", String::from_str("application/json"))];
    let req = WebhookRequest {
        method: "POST",
        url,
        headers,
        body: String::from_str(body_json),
    };
    proof {
        reveal_strlit("POST");
    }
    Ok(req)
}

/// Validates a message and builds the request that carries `body_json`.
pub fn prepare_json(webhook_url: &str, message: &Message, body_json: &str, wait: bool) -> (r:
    Result<WebhookRequest, SendError>)
    ensures
        match r {
            Ok(req) => message_violation(*message) is None && http_url(webhook_url@) && json_post(
                req,
                target_url(webhook_url@, wait),
                body_json@,
            ),
            Err(SendError::Validation(e)) => message_violation(*message) == Some(e@),
            Err(SendError::InvalidUrl { url }) => message_violation(*message) is None && !http_url(
                webhook_url@,
            ) && url@ == webhook_url@,
            Err(_) => false,
        },
{
    match validate(message) {
        Err(e) => Err(SendError::Validation(e)),
        Ok(()) => build_request(webhook_url, body_json, wait),
    }
}

/// Validates a parsed message and builds the request that forwards its canonical
/// payload verbatim.
pub fn prepare(webhook_url: &str, parsed: &ParsedMessage, wait: bool) -> (r: Result<
    WebhookRequest,
    SendError,
>)
    ensures
        match r {
            Ok(req) => message_violation(parsed.message) is None && http_url(webhook_url@)
                && json_post(req, target_url(webhook_url@, wait), json_text(parsed.canonical)),
            Err(SendError::Validation(e)) => message_violation(parsed.message) == Some(e@),
            Err(SendError::InvalidUrl { url }) => message_violation(parsed.message) is None
                && !http_url(webhook_url@) && url@ == webhook_url@,
            Err(_) => false,
        },
{
    let body = write_json(&parsed.canonical);
    prepare_json(webhook_url, &parsed.message, body.as_str(), wait)
}

/// The id of the created message in a webhook's answer, when it holds one.
pub fn extract_message_id(response_body: &str) -> (r: Option<String>)
    ensures
        match r {
            Some(s) => json_id_string(response_body@) == Some(s@),
            None => json_id_string(response_body@) is None,
        },
{
    read_json_id(response_body)
}

/// A 2xx status.
pub open spec fn success_status(status: u16) -> bool {
    200 <= status < 300
}

/// Maps a webhook's answer: success with the created message's id on a 2xx
/// status, the status and body as an error otherwise.
pub fn map_send_response(status: u16, body: String) -> (r: Result<SendResult, SendError>)
    ensures
        match r {
            Ok(res) => success_status(status) && res.status == status && match res.message_id {
                Some(id) => json_id_string(body@) == Some(id@),
                None => json_id_string(body@) is None,
            },
            Err(SendError::Discord { status: s, body: b }) => !success_status(status) && s
                == status && b@ == body@,
            Err(_) => false,
        },
{
    if 200 <= status && status < 300 {
        let message_id = extract_message_id(body.as_str());
        Ok(SendResult { status, message_id })
    } else {
        Err(SendError::Discord { status, body })
    }
}

/// The message a send error reads as.
pub open spec fn send_error_text(e: SendError) -> Seq<char> {
    match e {
        SendError::InvalidUrl { url } => "invalid webhook URL "@ + debug_quoted(url@)
            + ": must be an http(s) URL"@,
        SendError::Validation(v) => "message failed validation: "@ + violation_text(v@),
        SendError::Transport(t) => "webhook request failed: "@ + t@,
        SendError::Discord { status, body } => "Discord returned "@ + decimal(status as nat)
            + ": "@ + body@,
    }
}

impl SendError {
    /// The error message.
    pub fn to_string(&self) -> (s: String)
        ensures
            s@ == send_error_text(*self),
    {
        let mut s = String::new();
        match self {
            SendError::InvalidUrl { url } => {
                s.append("invalid webhook URL ");
                let quoted = debug_string(url.as_str());
                s.append(quoted.as_str());
                s.append(": must be an http(s) URL");
            },
            SendError::Validation(v) => {
                s.append("message failed validation: ");
                let text = v.to_string();
                s.append(text.as_str());
            },
            SendError::Transport(t) => {
                s.append("webhook request failed: ");
                s.append(t.as_str());
            },
            SendError::Discord { status, body } => {
                s.append("Discord returned ");
                push_decimal(&mut s, *status as u64);
                s.append(": ");
                s.append(body.as_str());
            },
        }
        assert(s@ =~= send_error_text(*self));
        s
    }
}

} // verus!
