//! Normalized error types and upstream-error mapping.
//!
//! All provider errors are normalized into a typed [`ProviderError`]. The
//! gateway can translate these into Anthropic-compatible error envelopes
//! without inspecting provider-specific strings.

use vstd::prelude::*;
use vstd::string::*;

use crate::json;
use crate::json::{Json, JsonView};
use crate::providers::decode;
use crate::providers::stream;
use crate::providers::types::{AnthropicErrorBody, AnthropicErrorDetail};
use crate::text;

verus! {

/// Details extracted from a non-2xx upstream response.
#[derive(Debug, Clone, PartialEq, Eq)]
pub struct UpstreamErrorDetails {
    /// HTTP status code.
    pub status: u16,
    /// Normalized error type (e.g. `invalid_request_error`).
    pub code: String,
    /// Human-readable message (sanitized, no headers/secrets).
    pub message: String,
    /// Provider that produced the error (for routing diagnostics).
    pub provider_id: Option<String>,
}

/// Normalized provider errors.
#[derive(Debug, PartialEq, Eq)]
pub enum ProviderError {
    Config(String),
    AuthMissing { env_var: String, reason: String },
    ProviderNotFound(String),
    ModelNotFound { provider: String, model: String },
    Timeout { provider: String, timeout_ms: u64 },
    Transport { provider: String, message: String },
    Parse(String),
    Upstream { status: u16, code: String, message: String, provider_id: Option<String> },
    Stream { provider: String, message: String },
}

pub enum ProviderErrorView {
    Config(Seq<char>),
    AuthMissing { env_var: Seq<char>, reason: Seq<char> },
    ProviderNotFound(Seq<char>),
    ModelNotFound { provider: Seq<char>, model: Seq<char> },
    Timeout { provider: Seq<char>, timeout_ms: u64 },
    Transport { provider: Seq<char>, message: Seq<char> },
    Parse(Seq<char>),
    Upstream {
        status: u16,
        code: Seq<char>,
        message: Seq<char>,
        provider_id: Option<Seq<char>>,
    },
    Stream { provider: Seq<char>, message: Seq<char> },
}

impl View for ProviderError {
    type V = ProviderErrorView;

    open spec fn view(&self) -> ProviderErrorView {
        match *self {
            ProviderError::Config(message) => ProviderErrorView::Config(message@),
            ProviderError::AuthMissing { env_var, reason } => ProviderErrorView::AuthMissing {
                env_var: env_var@,
                reason: reason@,
            },
            ProviderError::ProviderNotFound(id) => ProviderErrorView::ProviderNotFound(id@),
            ProviderError::ModelNotFound { provider, model } => ProviderErrorView::ModelNotFound {
                provider: provider@,
                model: model@,
            },
            ProviderError::Timeout { provider, timeout_ms } => ProviderErrorView::Timeout {
                provider: provider@,
                timeout_ms,
            },
            ProviderError::Transport { provider, message } => ProviderErrorView::Transport {
                provider: provider@,
                message: message@,
            },
            ProviderError::Parse(message) => ProviderErrorView::Parse(message@),
            ProviderError::Upstream { status, code, message, provider_id } =>
            ProviderErrorView::Upstream {
                status,
                code: code@,
                message: message@,
                provider_id: decode::text_view(provider_id),
            },
            ProviderError::Stream { provider, message } => ProviderErrorView::Stream {
                provider: provider@,
                message: message@,
            },
        }
    }
}

/// The error types that Anthropic clients know.
pub open spec fn known_error_type(code: Seq<char>) -> bool {
    ||| code == "invalid_request_error"@
    ||| code == "authentication_error"@
    ||| code == "permission_error"@
    ||| code == "not_found_error"@
    ||| code == "rate_limit_error"@
    ||| code == "api_error"@
    ||| code == "overloaded_error"@
}

/// An upstream error code, or `api_error` where clients would not know it.
pub open spec fn normalized_code(code: Seq<char>) -> Seq<char> {
    if known_error_type(code) {
        code
    } else {
        "api_error"@
    }
}

pub(crate) fn normalize_code(code: &str) -> (r: &'static str)
    ensures
        r@ == normalized_code(code@),
{
    if text::same(code, "invalid_request_error") {
        "invalid_request_error"
    } else if text::same(code, "authentication_error") {
        "authentication_error"
    } else if text::same(code, "permission_error") {
        "permission_error"
    } else if text::same(code, "not_found_error") {
        "not_found_error"
    } else if text::same(code, "rate_limit_error") {
        "rate_limit_error"
    } else if text::same(code, "overloaded_error") {
        "overloaded_error"
    } else {
        "api_error"
    }
}

impl ProviderErrorView {
    pub open spec fn http_status(self) -> u16 {
        match self {
            ProviderErrorView::Config(_) => 500,
            ProviderErrorView::AuthMissing { .. } => 500,
            ProviderErrorView::ProviderNotFound(_) => 404,
            ProviderErrorView::ModelNotFound { .. } => 404,
            ProviderErrorView::Timeout { .. } => 504,
            ProviderErrorView::Transport { .. } => 502,
            ProviderErrorView::Parse(_) => 502,
            ProviderErrorView::Upstream { status, .. } => status,
            ProviderErrorView::Stream { .. } => 502,
        }
    }

    pub open spec fn anthropic_type(self) -> Seq<char> {
        match self {
            ProviderErrorView::AuthMissing { .. } => "authentication_error"@,
            ProviderErrorView::ProviderNotFound(_) => "not_found_error"@,
            ProviderErrorView::ModelNotFound { .. } => "not_found_error"@,
            ProviderErrorView::Upstream { code, .. } => normalized_code(code),
            _ => "api_error"@,
        }
    }

    /// The error in words.
    pub open spec fn display(self) -> Seq<char> {
        match self {
            ProviderErrorView::Config(message) => "configuration error: "@ + message,
            ProviderErrorView::AuthMissing { env_var, reason } => "missing credential: env_var="@
                + env_var + ": "@ + reason,
            ProviderErrorView::ProviderNotFound(id) => "provider not found: "@ + id,
            ProviderErrorView::ModelNotFound { provider, model } => "model not found: provider="@
                + provider + " model="@ + model,
            ProviderErrorView::Timeout { provider, timeout_ms } => "timeout after "@
                + text::decimal(timeout_ms as nat) + "ms for provider "@ + provider,
            ProviderErrorView::Transport { provider, message } =>
            "transport error for provider "@ + provider + ": "@ + message,
            ProviderErrorView::Parse(message) => "parse error: "@ + message,
            ProviderErrorView::Upstream { status, code, message, .. } => "upstream error: status="@
                + text::decimal(status as nat) + " code="@ + code + " message="@ + message,
            ProviderErrorView::Stream { provider, message } => "stream error for provider "@
                + provider + ": "@ + message,
        }
    }
}

fn labelled(a: &str, b: &str, c: &str, d: &str) -> (r: String)
    ensures
        r@ == a@ + b@ + c@ + d@,
{
    let mut r = a.to_owned();
    r.append(b);
    r.append(c);
    r.append(d);
    r
}

impl ProviderError {
    /// HTTP status that the gateway should return for this error.
    pub fn http_status(&self) -> (r: u16)
        ensures
            r == self@.http_status(),
    {
        match self {
            ProviderError::Config(_) => 500,
            ProviderError::AuthMissing { .. } => 500,
            ProviderError::ProviderNotFound(_) => 404,
            ProviderError::ModelNotFound { .. } => 404,
            ProviderError::Timeout { .. } => 504,
            ProviderError::Transport { .. } => 502,
            ProviderError::Parse(_) => 502,
            ProviderError::Upstream { status, .. } => *status,
            ProviderError::Stream { .. } => 502,
        }
    }

    /// Normalized Anthropic error `type` string.
    pub fn anthropic_type(&self) -> (r: &'static str)
        ensures
            r@ == self@.anthropic_type(),
    {
        match self {
            ProviderError::AuthMissing { .. } => "authentication_error",
            ProviderError::ProviderNotFound(_) => "not_found_error",
            ProviderError::ModelNotFound { .. } => "not_found_error",
            ProviderError::Upstream { code, .. } => normalize_code(code.as_str()),
            _ => "api_error",
        }
    }

    /// The error in words.
    pub fn to_string(&self) -> (r: String)
        ensures
            r@ == self@.display(),
    {
        match self {
            ProviderError::Config(message) => text::concat2(
                "configuration error: ",
                message.as_str(),
            ),
            ProviderError::AuthMissing { env_var, reason } => labelled(
                "missing credential: env_var=",
                env_var.as_str(),
                ": ",
                reason.as_str(),
            ),
            ProviderError::ProviderNotFound(id) => text::concat2(
                "provider not found: ",
                id.as_str(),
            ),
            ProviderError::ModelNotFound { provider, model } => labelled(
                "model not found: provider=",
                provider.as_str(),
                " model=",
                model.as_str(),
            ),
            ProviderError::Timeout { provider, timeout_ms } => {
                let ms = text::decimal_text(*timeout_ms as u128);
                labelled("timeout after ", ms.as_str(), "ms for provider ", provider.as_str())
            },
            ProviderError::Transport { provider, message } => labelled(
                "transport error for provider ",
                provider.as_str(),
                ": ",
                message.as_str(),
            ),
            ProviderError::Parse(message) => text::concat2("parse error: ", message.as_str()),
            ProviderError::Upstream { status, code, message, .. } => {
                let number = text::decimal_text(*status as u128);
                let mut r = labelled(
                    "upstream error: status=",
                    number.as_str(),
                    " code=",
                    code.as_str(),
                );
                r.append(" message=");
                r.append(message.as_str());
                r
            },
            ProviderError::Stream { provider, message } => labelled(
                "stream error for provider ",
                provider.as_str(),
                ": ",
                message.as_str(),
            ),
        }
    }

    /// Convert into an Anthropic-compatible error body.
    pub fn into_anthropic_body(self) -> (r: AnthropicErrorBody)
        ensures
            r.kind@ == "error"@,
            match self@ {
                ProviderErrorView::Upstream { code, message, .. } => r.error.kind@ == code
                    && r.error.message@ == message,
                other => r.error.kind@ == other.anthropic_type() && r.error.message@
                    == other.display(),
            },
    {
        match self {
            ProviderError::Upstream { code, message, .. } => AnthropicErrorBody {
                kind: "error".to_owned(),
                error: AnthropicErrorDetail { kind: code, message },
            },
            other => AnthropicErrorBody {
                kind: "error".to_owned(),
                error: AnthropicErrorDetail {
                    kind: other.anthropic_type().to_owned(),
                    message: other.to_string(),
                },
            },
        }
    }

    /// Create an upstream error from the raw response: its bytes as JSON, if
    /// they are JSON, and as text.
    pub fn upstream_from_parts(
        provider_id: Option<String>,
        status: u16,
        parsed: Option<&Json>,
        raw_text: &str,
        fallback_message: String,
    ) -> (r: ProviderError)
        ensures
            r@ == upstream_error(
                decode::text_view(provider_id),
                status,
                match parsed {
                    Some(v) => Some(v@),
                    None => None,
                },
                raw_text@,
                fallback_message@,
            ),
    {
        if let Some(v) = parsed {
            if let Some(err) = v.get("error") {
                let code = match err.get_str("type") {
                    Some(code) => code.to_owned(),
                    None => "api_error".to_owned(),
                };
                let message = match err.get_str("message") {
                    Some(message) => message.to_owned(),
                    None => fallback_message,
                };
                return ProviderError::Upstream { status, code, message, provider_id };
            }
            if let Some(message) = v.get_str("message") {
                return ProviderError::Upstream {
                    status,
                    code: "api_error".to_owned(),
                    message: message.to_owned(),
                    provider_id,
                };
            }
        }
        let snippet = sanitize_text_snippet(raw_text);
        let message = if snippet.as_str().is_empty() {
            fallback_message
        } else {
            snippet
        };
        ProviderError::Upstream {
            status,
            code: map_status_to_code(status).to_owned(),
            message,
            provider_id,
        }
    }

    /// Create an upstream error from raw response bytes, attempting to parse
    /// an Anthropic error envelope before falling back to raw text.
    pub fn upstream_from_body(
        provider_id: Option<String>,
        status: u16,
        body: &[u8],
        fallback_message: String,
    ) -> (r: ProviderError)
        ensures
            r@ == upstream_error(
                decode::text_view(provider_id),
                status,
                match json::json_parse_bytes(body@) {
                    Ok(v) => Some(v),
                    Err(_) => None,
                },
                stream::utf8_lossy(body@),
                fallback_message@,
            ),
            stream::text_kept(body@),
    {
        let raw_text = stream::decode_lossy(body);
        match Json::parse_bytes(body) {
            Ok(v) => ProviderError::upstream_from_parts(
                provider_id,
                status,
                Some(&v),
                raw_text.as_str(),
                fallback_message,
            ),
            Err(_) => ProviderError::upstream_from_parts(
                provider_id,
                status,
                None,
                raw_text.as_str(),
                fallback_message,
            ),
        }
    }
}

/// The error of an upstream response. An `error` object gives its type and
/// message; a lone `message` is taken as it is; and of anything else a
/// cleaned snippet is shown, or where that is empty the fallback.
pub open spec fn upstream_error(
    provider_id: Option<Seq<char>>,
    status: u16,
    parsed: Option<JsonView>,
    raw_text: Seq<char>,
    fallback: Seq<char>,
) -> ProviderErrorView {
    let member = |key: Seq<char>| match parsed {
        Some(v) => v.get(key),
        None => None,
    };
    match member("error"@) {
        Some(err) => ProviderErrorView::Upstream {
            status,
            code: match err.get_text("type"@) {
                Some(code) => code,
                None => "api_error"@,
            },
            message: match err.get_text("message"@) {
                Some(message) => message,
                None => fallback,
            },
            provider_id,
        },
        None => match member("message"@) {
            Some(JsonView::Text(message)) => ProviderErrorView::Upstream {
                status,
                code: "api_error"@,
                message,
                provider_id,
            },
            _ => ProviderErrorView::Upstream {
                status,
                code: code_of_status(status),
                message: if snippet(raw_text).len() == 0 {
                    fallback
                } else {
                    snippet(raw_text)
                },
                provider_id,
            },
        },
    }
}

pub open spec fn code_of_status(status: u16) -> Seq<char> {
    if status == 400 {
        "invalid_request_error"@
    } else if status == 401 {
        "authentication_error"@
    } else if status == 403 {
        "permission_error"@
    } else if status == 404 {
        "not_found_error"@
    } else if status == 429 {
        "rate_limit_error"@
    } else if status == 529 {
        "overloaded_error"@
    } else {
        "api_error"@
    }
}

pub fn map_status_to_code(status: u16) -> (r: &'static str)
    ensures
        r@ == code_of_status(status),
{
    match status {
        400 => "invalid_request_error",
        401 => "authentication_error",
        403 => "permission_error",
        404 => "not_found_error",
        429 => "rate_limit_error",
        529 => "overloaded_error",
        _ => "api_error",
    }
}

/// Every code that a status is given is one that clients know.
pub proof fn law_status_codes_known(status: u16)
    ensures
        known_error_type(code_of_status(status)),
{
}

// ---------------------------------------------------------------------------
// Snippets of foreign text
// ---------------------------------------------------------------------------

/// The most bytes of a response body that an error shows.
pub const SNIPPET_BYTES: u32 = 500;

/// Whether a line looks like a header with a credential.
pub open spec fn mentions_credential(line: Seq<char>) -> bool {
    let low = text::lowered(line);
    ||| text::contains(low, "authorization"@)
    ||| text::contains(low, "x-api-key"@)
    ||| text::contains(low, "bearer"@)
}

/// The lines that may be shown.
pub open spec fn public_lines(lines: Seq<Seq<char>>) -> Seq<Seq<char>>
    decreases lines.len(),
{
    if lines.len() == 0 {
        Seq::empty()
    } else if mentions_credential(lines.last()) {
        public_lines(lines.drop_last())
    } else {
        public_lines(lines.drop_last()).push(lines.last())
    }
}

/// `s`, cut behind the last character that ends within the limit, with an
/// ellipsis where something was cut.
pub open spec fn shortened(s: Seq<char>) -> Seq<char> {
    if text::utf8_len(s) > SNIPPET_BYTES {
        s.take(text::fitting(s, SNIPPET_BYTES as nat) as int).push('\u{2026}')
    } else {
        s
    }
}

/// What an error shows of a response body: its beginning on one line, without
/// the lines that look like credentials.
pub open spec fn snippet(s: Seq<char>) -> Seq<char> {
    text::trimmed(
        text::joined(public_lines(text::lines(shortened(text::trimmed(s)))), " "@),
    )
}

fn looks_like_credential(line: &str) -> (r: bool)
    ensures
        r == mentions_credential(line@),
{
    let low = text::to_lower(line);
    text::has(low.as_str(), "authorization") || text::has(low.as_str(), "x-api-key") || text::has(
        low.as_str(),
        "bearer",
    )
}

fn sanitize_text_snippet(s: &str) -> (r: String)
    ensures
        r@ == snippet(s@),
{
    let t = text::trim(s);
    let v = text::chars_of(t);
    let n: usize = text::count_fitting(&v, SNIPPET_BYTES);
    proof {
        text::lemma_fitting(v@, SNIPPET_BYTES as nat);
    }
    let mut short = text::text_of(&v, 0, n);
    if n < v.len() {
        short.push('\u{2026}');
    }
    proof {
        assert(v@.subrange(0, n as int) =~= v@.take(n as int));
        if n == v@.len() {
            assert(v@.take(n as int) =~= v@);
        }
        assert(short@ == shortened(t@));
    }
    let lines = text::split_lines(short.as_str());
    let ghost all = text::views(lines@);
    let mut kept: Vec<String> = Vec::new();
    let mut i: usize = 0;
    assert(text::views(kept@) =~= Seq::<Seq<char>>::empty());
    while i < lines.len()
        invariant
            i <= lines@.len(),
            all == text::views(lines@),
            text::views(kept@) == public_lines(all.take(i as int)),
        decreases lines@.len() - i,
    {
        assert(all.take(i + 1).drop_last() =~= all.take(i as int));
        assert(all.take(i + 1).last() == lines@[i as int]@);
        if !looks_like_credential(lines[i].as_str()) {
            let ghost before = kept@;
            let line = lines[i].clone();
            kept.push(line);
            assert(text::views(kept@) =~= text::views(before).push(line@));
        }
        i = i + 1;
    }
    assert(all.take(i as int) =~= all);
    let one_line = text::join(&kept, " ");
    text::trim(one_line.as_str()).to_owned()
}

/// What an error shows of a response body.
pub fn sanitize_body_snippet(body: &[u8]) -> (r: String)
    ensures
        r@ == snippet(stream::utf8_lossy(body@)),
        stream::text_kept(body@),
{
    let raw_text = stream::decode_lossy(body);
    sanitize_text_snippet(raw_text.as_str())
}

/// A word without a space stands in two texts with a space between them only
/// where it stands in one of them.
proof fn lemma_word_across_space(a: Seq<char>, b: Seq<char>, p: Seq<char>)
    requires
        p.len() > 0,
        forall|i: int| 0 <= i < p.len() ==> #[trigger] p[i] != ' ',
        text::contains(a.push(' ') + b, p),
    ensures
        text::contains(a, p) || text::contains(b, p),
{
    let s = a.push(' ') + b;
    let i = choose|i: int| text::occurs_at(s, p, i);
    let part = s.subrange(i, i + p.len());
    if i + p.len() <= a.len() {
        assert(a.subrange(i, i + p.len()) =~= part);
        assert(text::occurs_at(a, p, i));
    } else if i > a.len() {
        let j = i - a.len() - 1;
        assert(b.subrange(j, j + p.len()) =~= part);
        assert(text::occurs_at(b, p, j));
    } else {
        assert(part[a.len() - i] == s[a.len() as int]);
        assert(p[a.len() - i] == ' ');
    }
}

proof fn lemma_lowered_concat(a: Seq<char>, b: Seq<char>)
    ensures
        text::lowered(a + " "@ + b) == text::lowered(a).push(' ') + text::lowered(b),
{
    reveal_strlit(" ");
    assert(text::lowered(a + " "@ + b) =~= text::lowered(a).push(' ') + text::lowered(b));
}

proof fn lemma_public_lines(lines: Seq<Seq<char>>)
    ensures
        forall|k: int|
            0 <= k < public_lines(lines).len() ==> !mentions_credential(
                #[trigger] public_lines(lines)[k],
            ),
    decreases lines.len(),
{
    if lines.len() > 0 {
        let front = public_lines(lines.drop_last());
        lemma_public_lines(lines.drop_last());
        assert forall|k: int| 0 <= k < public_lines(lines).len() implies !mentions_credential(
            #[trigger] public_lines(lines)[k],
        ) by {
            if k < front.len() {
                assert(public_lines(lines)[k] == front[k]);
            }
        }
    }
}

/// Joining lines that do not mention a word on one line does not bring it
/// about.
proof fn lemma_joined_hides(lines: Seq<Seq<char>>, p: Seq<char>)
    requires
        p.len() > 0,
        forall|i: int| 0 <= i < p.len() ==> #[trigger] p[i] != ' ',
        forall|k: int|
            0 <= k < lines.len() ==> !text::contains(text::lowered(#[trigger] lines[k]), p),
    ensures
        !text::contains(text::lowered(text::joined(lines, " "@)), p),
    decreases lines.len(),
{
    let all = text::joined(lines, " "@);
    if lines.len() == 0 {
        if text::contains(text::lowered(all), p) {
            let i = choose|i: int| text::occurs_at(text::lowered(all), p, i);
            assert(i + p.len() <= 0);
        }
    } else if lines.len() > 1 {
        let front = lines.drop_last();
        assert forall|k: int| 0 <= k < front.len() implies !text::contains(
            text::lowered(#[trigger] front[k]),
            p,
        ) by {
            assert(front[k] == lines[k]);
        }
        lemma_joined_hides(front, p);
        let last = lines.last();
        assert(!text::contains(text::lowered(lines[lines.len() - 1]), p));
        lemma_lowered_concat(text::joined(front, " "@), last);
        if text::contains(text::lowered(all), p) {
            lemma_word_across_space(
                text::lowered(text::joined(front, " "@)),
                text::lowered(last),
                p,
            );
        }
    } else {
        assert(!text::contains(text::lowered(lines[0]), p));
    }
}

proof fn lemma_trim_hides(s: Seq<char>, p: Seq<char>)
    requires
        !text::contains(text::lowered(s), p),
    ensures
        !text::contains(text::lowered(text::trimmed(s)), p),
{
    text::lemma_trimmed_start(s);
    let t = text::trimmed_start(s);
    text::lemma_trimmed_end(t);
    let u = text::trimmed(s);
    let from = s.len() - t.len();
    if text::contains(text::lowered(u), p) {
        assert(text::lowered(u) =~= text::lowered(s).subrange(from, from + u.len()));
        text::lemma_contains_part(text::lowered(s), from, from + u.len(), p);
    }
}

/// No error shows a header with a credential out of a response body: the
/// snippet mentions none of the words that mark one, in any case of letters.
pub proof fn law_snippet_hides_credentials(s: Seq<char>)
    ensures
        !mentions_credential(snippet(s)),
{
    let lines = public_lines(text::lines(shortened(text::trimmed(s))));
    lemma_public_lines(text::lines(shortened(text::trimmed(s))));
    reveal_strlit("authorization");
    reveal_strlit("x-api-key");
    reveal_strlit("bearer");
    assert forall|k: int| 0 <= k < lines.len() implies !text::contains(
        text::lowered(#[trigger] lines[k]),
        "authorization"@,
    ) && !text::contains(text::lowered(lines[k]), "x-api-key"@) && !text::contains(
        text::lowered(lines[k]),
        "bearer"@,
    ) by {
        assert(!mentions_credential(lines[k]));
    }
    let one_line = text::joined(lines, " "@);
    lemma_joined_hides(lines, "authorization"@);
    lemma_joined_hides(lines, "x-api-key"@);
    lemma_joined_hides(lines, "bearer"@);
    lemma_trim_hides(one_line, "authorization"@);
    lemma_trim_hides(one_line, "x-api-key"@);
    lemma_trim_hides(one_line, "bearer"@);
}

/// The bytes of lines, with one more for the end of each.
spec fn bytes_of(lines: Seq<Seq<char>>) -> nat
    decreases lines.len(),
{
    if lines.len() == 0 {
        0
    } else {
        bytes_of(lines.drop_last()) + text::utf8_len(lines.last()) + 1
    }
}

proof fn lemma_bytes_of_first(first: Seq<char>, rest: Seq<Seq<char>>)
    ensures
        bytes_of(seq![first] + rest) == text::utf8_len(first) + 1 + bytes_of(rest),
    decreases rest.len(),
{
    let all = seq![first] + rest;
    if rest.len() == 0 {
        assert(all.drop_last() =~= Seq::<Seq<char>>::empty());
        assert(all.last() == first);
        assert(bytes_of(all.drop_last()) == 0 && bytes_of(rest) == 0);
    } else {
        assert(all.last() == rest.last());
        lemma_bytes_of_first(first, rest.drop_last());
        assert(all.drop_last() =~= seq![first] + rest.drop_last());
    }
}

proof fn lemma_bytes_of_lines(s: Seq<char>)
    ensures
        bytes_of(text::lines(s)) <= text::utf8_len(s) + 1,
    decreases s.len(),
{
    if s.len() > 0 {
        let i = text::first_of(s, '\n') as int;
        if i >= s.len() {
            assert(text::lines(s).drop_last() =~= Seq::<Seq<char>>::empty());
            assert(text::lines(s).last() == s);
            assert(bytes_of(text::lines(s).drop_last()) == 0);
        } else {
            let line = text::without_cr(s.take(i));
            let rest = s.skip(i + 1);
            lemma_bytes_of_lines(rest);
            lemma_bytes_of_first(line, text::lines(rest));
            assert(line =~= s.take(i).subrange(0, line.len() as int));
            text::lemma_utf8_len_part(s.take(i), 0, line.len() as int);
            text::lemma_utf8_len_concat(s.take(i), s.skip(i));
            assert(s.take(i) + s.skip(i) =~= s);
            assert(s.skip(i).skip(1) =~= rest);
            assert(text::utf8_len(s.skip(i)) >= 1 + text::utf8_len(rest));
        }
    }
}

proof fn lemma_bytes_of_public(lines: Seq<Seq<char>>)
    ensures
        bytes_of(public_lines(lines)) <= bytes_of(lines),
    decreases lines.len(),
{
    if lines.len() > 0 {
        let front = lines.drop_last();
        lemma_bytes_of_public(front);
        let kept = public_lines(front);
        assert(kept.push(lines.last()).drop_last() =~= kept);
    }
}

proof fn lemma_bytes_of_joined(lines: Seq<Seq<char>>)
    ensures
        lines.len() > 0 ==> text::utf8_len(text::joined(lines, " "@)) + 1 == bytes_of(lines),
        lines.len() == 0 ==> text::utf8_len(text::joined(lines, " "@)) == 0,
    decreases lines.len(),
{
    if lines.len() == 1 {
        assert(bytes_of(lines.drop_last()) == 0);
    } else if lines.len() > 1 {
        let front = lines.drop_last();
        lemma_bytes_of_joined(front);
        reveal_strlit(" ");
        assert(text::utf8_len(" "@) == 1) by {
            reveal_with_fuel(text::utf8_len, 2);
        }
        text::lemma_utf8_len_concat(text::joined(front, " "@), " "@);
        text::lemma_utf8_len_concat(text::joined(front, " "@) + " "@, lines.last());
    }
}

/// A snippet is short, and has no white space around it: it takes the bytes of
/// the limit at most, with those of the ellipsis.
pub proof fn law_snippet_is_short(s: Seq<char>)
    ensures
        text::utf8_len(snippet(s)) <= SNIPPET_BYTES + 3,
        text::trimmed(snippet(s)) == snippet(s),
{
    let t = text::trimmed(s);
    let short = shortened(t);
    if text::utf8_len(t) > SNIPPET_BYTES {
        let head = t.take(text::fitting(t, SNIPPET_BYTES as nat) as int);
        text::lemma_fitting(t, SNIPPET_BYTES as nat);
        text::lemma_utf8_len_concat(head, seq!['\u{2026}']);
        assert(head.push('\u{2026}') =~= head + seq!['\u{2026}']);
        assert(text::utf8_len(seq!['\u{2026}']) == 3) by {
            reveal_with_fuel(text::utf8_len, 2);
        }
    }
    assert(text::utf8_len(short) <= SNIPPET_BYTES + 3);
    lemma_bytes_of_lines(short);
    lemma_bytes_of_public(text::lines(short));
    let lines = public_lines(text::lines(short));
    lemma_bytes_of_joined(lines);
    let one_line = text::joined(lines, " "@);
    text::lemma_trimmed_start(one_line);
    let u = text::trimmed_start(one_line);
    text::lemma_trimmed_end(u);
    let from = one_line.len() - u.len();
    assert(snippet(s) =~= one_line.subrange(from, from + snippet(s).len()));
    text::lemma_utf8_len_part(one_line, from, from + snippet(s).len());
    if snippet(s).len() > 0 {
        assert(snippet(s)[0] == u[0]);
    }
    text::lemma_trimmed_fixed(snippet(s));
}

} // verus!
