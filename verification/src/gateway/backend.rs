//! Provider-independent gateway backend boundary.

use vstd::prelude::*;
use vstd::string::*;

use crate::json::{Json, JsonView};
use crate::providers::anthropic;
use crate::providers::error;
use crate::providers::types;
use crate::text;

verus! {

/// A request passed from the client-facing HTTP layer to the provider
/// backend. The JSON body remains opaque so provider adapters can preserve
/// fields added by newer clients.
#[derive(Debug, PartialEq)]
pub struct BackendRequest {
    pub model: String,
    pub body: Json,
    /// Client headers from the allowlist that must be forwarded upstream
    /// (currently only `anthropic-beta`).
    pub forward_headers: Vec<(String, String)>,
}

pub struct BackendRequestView {
    pub model: Seq<char>,
    pub body: JsonView,
    pub forward_headers: Seq<(Seq<char>, Seq<char>)>,
}

impl View for BackendRequest {
    type V = BackendRequestView;

    open spec fn view(&self) -> BackendRequestView {
        BackendRequestView {
            model: self.model@,
            body: self.body@,
            forward_headers: types::headers_view(self.forward_headers@),
        }
    }
}

impl Clone for BackendRequest {
    fn clone(&self) -> (r: BackendRequest)
        ensures
            r@ == self@,
    {
        BackendRequest {
            model: self.model.clone(),
            body: self.body.clone(),
            forward_headers: anthropic::clone_headers(&self.forward_headers),
        }
    }
}

/// A model exposed by Switchyard's local catalog.
#[derive(Debug, Clone, PartialEq, Eq)]
pub struct ModelInfo {
    pub id: String,
    pub object: &'static str,
    pub created: u64,
    pub owned_by: &'static str,
}

impl ModelInfo {
    pub fn new(id: &str) -> (r: ModelInfo)
        ensures
            r.id@ == id@,
            r.object@ == "model"@,
            r.created == 0,
            r.owned_by@ == "switchyard"@,
    {
        ModelInfo { id: id.to_owned(), object: "model", created: 0, owned_by: "switchyard" }
    }
}

// ---------------------------------------------------------------------------
// Errors
// ---------------------------------------------------------------------------

/// Errors returned by the provider backend.
#[derive(Debug, PartialEq, Eq)]
pub enum BackendError {
    InvalidRequest(String),
    ModelUnavailable(String),
    Upstream { status: u16, code: String, message: String },
    Unavailable(String),
    Internal(String),
}

pub enum BackendErrorView {
    InvalidRequest(Seq<char>),
    ModelUnavailable(Seq<char>),
    Upstream { status: u16, code: Seq<char>, message: Seq<char> },
    Unavailable(Seq<char>),
    Internal(Seq<char>),
}

impl View for BackendError {
    type V = BackendErrorView;

    open spec fn view(&self) -> BackendErrorView {
        match *self {
            BackendError::InvalidRequest(m) => BackendErrorView::InvalidRequest(m@),
            BackendError::ModelUnavailable(m) => BackendErrorView::ModelUnavailable(m@),
            BackendError::Upstream { status, code, message } => BackendErrorView::Upstream {
                status,
                code: code@,
                message: message@,
            },
            BackendError::Unavailable(m) => BackendErrorView::Unavailable(m@),
            BackendError::Internal(m) => BackendErrorView::Internal(m@),
        }
    }
}

impl Clone for BackendError {
    fn clone(&self) -> (r: BackendError)
        ensures
            r@ == self@,
    {
        match self {
            BackendError::InvalidRequest(m) => BackendError::InvalidRequest(m.clone()),
            BackendError::ModelUnavailable(m) => BackendError::ModelUnavailable(m.clone()),
            BackendError::Upstream { status, code, message } => BackendError::Upstream {
                status: *status,
                code: code.clone(),
                message: message.clone(),
            },
            BackendError::Unavailable(m) => BackendError::Unavailable(m.clone()),
            BackendError::Internal(m) => BackendError::Internal(m.clone()),
        }
    }
}

/// An upstream error with its message sanitized.
pub open spec fn upstream_view(status: u16, code: Seq<char>, message: Seq<char>) -> BackendErrorView {
    BackendErrorView::Upstream { status, code, message: sanitized(message) }
}

impl BackendErrorView {
    pub open spec fn status_code(self) -> u16 {
        match self {
            BackendErrorView::InvalidRequest(_) => 400,
            BackendErrorView::ModelUnavailable(_) => 404,
            BackendErrorView::Upstream { status, .. } => status,
            BackendErrorView::Unavailable(_) => 502,
            BackendErrorView::Internal(_) => 500,
        }
    }

    pub open spec fn anthropic_type(self) -> Seq<char> {
        match self {
            BackendErrorView::InvalidRequest(_) => "invalid_request_error"@,
            BackendErrorView::ModelUnavailable(_) => "not_found_error"@,
            BackendErrorView::Upstream { code, .. } => error::normalized_code(code),
            BackendErrorView::Unavailable(_) => "api_error"@,
            BackendErrorView::Internal(_) => "api_error"@,
        }
    }

    /// What clients get to read. What happened inside is not told.
    pub open spec fn public_message(self) -> Seq<char> {
        match self {
            BackendErrorView::InvalidRequest(m) => m,
            BackendErrorView::ModelUnavailable(m) => m,
            BackendErrorView::Upstream { message, .. } => sanitized(message),
            BackendErrorView::Unavailable(_) => "upstream provider unavailable"@,
            BackendErrorView::Internal(_) => "internal gateway error"@,
        }
    }

    /// The error in words, for logs.
    pub open spec fn display(self) -> Seq<char> {
        match self {
            BackendErrorView::InvalidRequest(m) => "invalid request: "@ + m,
            BackendErrorView::ModelUnavailable(m) => "model unavailable: "@ + m,
            BackendErrorView::Upstream { status, code, message } => "upstream error: status="@
                + text::decimal(status as nat) + " code="@ + code + " message="@ + message,
            BackendErrorView::Unavailable(m) => "upstream unavailable: "@ + m,
            BackendErrorView::Internal(m) => "internal backend error: "@ + m,
        }
    }
}

impl BackendError {
    pub fn upstream(status: u16, code: &str, message: &str) -> (r: BackendError)
        ensures
            r@ == upstream_view(status, code@, message@),
    {
        BackendError::Upstream {
            status,
            code: code.to_owned(),
            message: sanitize_message(message),
        }
    }

    pub fn status_code(&self) -> (r: u16)
        ensures
            r == self@.status_code(),
    {
        match self {
            BackendError::InvalidRequest(_) => 400,
            BackendError::ModelUnavailable(_) => 404,
            BackendError::Upstream { status, .. } => *status,
            BackendError::Unavailable(_) => 502,
            BackendError::Internal(_) => 500,
        }
    }

    pub fn anthropic_type(&self) -> (r: &'static str)
        ensures
            r@ == self@.anthropic_type(),
    {
        match self {
            BackendError::InvalidRequest(_) => "invalid_request_error",
            BackendError::ModelUnavailable(_) => "not_found_error",
            BackendError::Upstream { code, .. } => error::normalize_code(code.as_str()),
            BackendError::Unavailable(_) => "api_error",
            BackendError::Internal(_) => "api_error",
        }
    }

    pub fn public_message(&self) -> (r: String)
        ensures
            r@ == self@.public_message(),
    {
        match self {
            BackendError::InvalidRequest(m) => m.clone(),
            BackendError::ModelUnavailable(m) => m.clone(),
            BackendError::Upstream { message, .. } => sanitize_message(message.as_str()),
            BackendError::Unavailable(_) => "upstream provider unavailable".to_owned(),
            BackendError::Internal(_) => "internal gateway error".to_owned(),
        }
    }

    /// The error in words, for logs.
    pub fn to_string(&self) -> (r: String)
        ensures
            r@ == self@.display(),
    {
        match self {
            BackendError::InvalidRequest(m) => text::concat2("invalid request: ", m.as_str()),
            BackendError::ModelUnavailable(m) => text::concat2("model unavailable: ", m.as_str()),
            BackendError::Upstream { status, code, message } => {
                let number = text::decimal_text(*status as u128);
                let mut r = text::concat3("upstream error: status=", number.as_str(), " code=");
                r.append(code.as_str());
                r.append(" message=");
                r.append(message.as_str());
                r
            },
            BackendError::Unavailable(m) => text::concat2("upstream unavailable: ", m.as_str()),
            BackendError::Internal(m) => text::concat2("internal backend error: ", m.as_str()),
        }
    }
}

/// Every error has a type that clients know.
pub proof fn law_error_types_known(e: BackendErrorView)
    ensures
        error::known_error_type(e.anthropic_type()),
{
}

/// What clients read of a failure of the provider's connection or of the
/// gateway does not depend on its details.
pub proof fn law_internal_details_hidden(a: Seq<char>, b: Seq<char>)
    ensures
        BackendErrorView::Unavailable(a).public_message() == BackendErrorView::Unavailable(
            b,
        ).public_message(),
        BackendErrorView::Internal(a).public_message() == BackendErrorView::Internal(
            b,
        ).public_message(),
{
}

// ---------------------------------------------------------------------------
// Sanitizing
// ---------------------------------------------------------------------------

/// Whether a word looks like a secret: it begins, in any case of letters, like
/// an API key or an assignment of one.
pub open spec fn secret_word(word: Seq<char>) -> bool {
    let low = text::lowered(word);
    ||| "sk-"@.is_prefix_of(low)
    ||| "token="@.is_prefix_of(low)
    ||| "api_key="@.is_prefix_of(low)
    ||| "apikey="@.is_prefix_of(low)
    ||| "bearer="@.is_prefix_of(low)
}

pub open spec fn masked_word(word: Seq<char>) -> Seq<char> {
    if secret_word(word) {
        "[REDACTED]"@
    } else {
        word
    }
}

pub open spec fn masked_words(words: Seq<Seq<char>>) -> Seq<Seq<char>> {
    words.map_values(|w: Seq<char>| masked_word(w))
}

/// A message with single spaces between its words and the secrets among them
/// replaced.
pub open spec fn sanitized(message: Seq<char>) -> Seq<char> {
    text::joined(masked_words(text::words(message)), " "@)
}

fn looks_secret(word: &str) -> (r: bool)
    ensures
        r == secret_word(word@),
{
    let lower = text::to_lower(word);
    let low = lower.as_str();
    text::starts_with(low, "sk-") || text::starts_with(low, "token=") || text::starts_with(
        low,
        "api_key=",
    ) || text::starts_with(low, "apikey=") || text::starts_with(low, "bearer=")
}

pub fn sanitize_message(message: &str) -> (r: String)
    ensures
        r@ == sanitized(message@),
{
    let words = text::split_words(message);
    let mut out: Vec<String> = Vec::new();
    let mut i: usize = 0;
    while i < words.len()
        invariant
            i <= words@.len(),
            out@.len() == i,
            forall|j: int| 0 <= j < i ==> (#[trigger] out@[j])@ == masked_word(words@[j]@),
        decreases words@.len() - i,
    {
        if looks_secret(words[i].as_str()) {
            out.push("[REDACTED]".to_owned());
        } else {
            out.push(words[i].clone());
        }
        i = i + 1;
    }
    assert(text::views(out@) =~= masked_words(text::views(words@)));
    text::join(&out, " ")
}

/// The replacement is no secret itself.
pub(crate) proof fn lemma_mark_is_public()
    ensures
        !secret_word("[REDACTED]"@),
        text::plain_word("[REDACTED]"@),
{
    reveal_strlit("[REDACTED]");
    reveal_strlit("sk-");
    reveal_strlit("token=");
    reveal_strlit("api_key=");
    reveal_strlit("apikey=");
    reveal_strlit("bearer=");
    let low = text::lowered("[REDACTED]"@);
    assert(low[0] == '[');
    assert("sk-"@[0] == 's' && "token="@[0] == 't' && "api_key="@[0] == 'a');
    assert("apikey="@[0] == 'a' && "bearer="@[0] == 'b');
}

/// No word of a sanitized message looks like a secret.
pub proof fn law_sanitized_holds_no_secrets(message: Seq<char>)
    ensures
        forall|k: int|
            0 <= k < text::words(sanitized(message)).len() ==> !secret_word(
                #[trigger] text::words(sanitized(message))[k],
            ),
{
    let before = text::words(message);
    let masked = masked_words(before);
    lemma_mark_is_public();
    text::lemma_words_plain(message);
    assert forall|k: int| 0 <= k < masked.len() implies text::plain_word(#[trigger] masked[k]) by {
        assert(text::plain_word(before[k]));
    }
    text::lemma_words_of_joined(masked);
    assert forall|k: int| 0 <= k < masked.len() implies !secret_word(#[trigger] masked[k]) by {
        assert(masked[k] == masked_word(before[k]));
    }
}

/// Sanitizing twice is sanitizing once.
pub proof fn law_sanitizing_is_idempotent(message: Seq<char>)
    ensures
        sanitized(sanitized(message)) == sanitized(message),
{
    let before = text::words(message);
    let masked = masked_words(before);
    lemma_mark_is_public();
    text::lemma_words_plain(message);
    assert forall|k: int| 0 <= k < masked.len() implies text::plain_word(#[trigger] masked[k]) by {
        assert(text::plain_word(before[k]));
    }
    text::lemma_words_of_joined(masked);
    assert(masked_words(masked) =~= masked);
}

} // verus!
