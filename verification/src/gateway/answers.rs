//! What clients are told, of a success and of a failure.

use vstd::prelude::*;
use vstd::string::*;

use crate::gateway::backend;
use crate::gateway::backend::{BackendErrorView, ModelInfo};
use crate::gateway::http;
use crate::gateway::provider_backend;
use crate::json::JsonView;
use crate::providers::error;
use crate::providers::error::ProviderErrorView;
use crate::providers::wire;
use crate::text;

verus! {

// ---------------------------------------------------------------------------
// Errors
// ---------------------------------------------------------------------------

/// The status of an answer tells whose mistake it was: the client's, for a bad
/// request or a model that is not there; the upstream's, which keeps its own
/// status where that is one of HTTP; or the gateway's.
pub proof fn law_errors_have_their_status(e: BackendErrorView, request_id: Seq<char>)
    ensures
        ({
            let status = http::error_reply_view(e, request_id).status;
            match e {
                BackendErrorView::InvalidRequest(_) => status == 400,
                BackendErrorView::ModelUnavailable(_) => status == 404,
                BackendErrorView::Unavailable(_) => status == 502,
                BackendErrorView::Internal(_) => status == 500,
                BackendErrorView::Upstream { status: own, .. } => if 100 <= own <= 999 {
                    status == own
                } else {
                    status == 502
                },
            }
        }),
{
}

/// The error types that clients know; an upstream error with one keeps it.
pub open spec fn client_error_type(code: Seq<char>) -> bool {
    code == "invalid_request_error"@ || code == "authentication_error"@ || code
        == "permission_error"@ || code == "not_found_error"@ || code == "rate_limit_error"@ || code
        == "api_error"@ || code == "overloaded_error"@
}

proof fn lemma_reply_names()
    ensures
        "type"@ != "request_id"@ && "type"@ != "error"@ && "type"@ != "message"@ && "request_id"@
            != "error"@,
{
    reveal_strlit("type");
    reveal_strlit("request_id");
    reveal_strlit("error");
    reveal_strlit("message");
    assert("type"@.len() == 4 && "request_id"@.len() == 10);
    assert("error"@.len() == 5 && "message"@.len() == 7);
}

/// `v` is an error for clients of the given type and message.
pub open spec fn tells_error(v: JsonView, kind: Seq<char>, message: Seq<char>) -> bool {
    &&& wire::has_text(v, "type"@, "error"@)
    &&& exists|detail: JsonView| #[trigger]
        wire::has(v, "error"@, detail) && wire::has_text(detail, "type"@, kind) && wire::has_text(
            detail,
            "message"@,
            message,
        )
}

/// An answer of failure tells the type that fits the error, and its id.
pub proof fn law_errors_have_their_type(e: BackendErrorView, request_id: Seq<char>)
    ensures
        ({
            let body = http::error_reply_view(e, request_id).body;
            let message = e.public_message();
            &&& wire::has_text(body, "request_id"@, request_id)
            &&& match e {
                BackendErrorView::InvalidRequest(_) => tells_error(
                    body,
                    "invalid_request_error"@,
                    message,
                ),
                BackendErrorView::ModelUnavailable(_) => tells_error(
                    body,
                    "not_found_error"@,
                    message,
                ),
                BackendErrorView::Unavailable(_) => tells_error(body, "api_error"@, message),
                BackendErrorView::Internal(_) => tells_error(body, "api_error"@, message),
                BackendErrorView::Upstream { code, .. } => if client_error_type(code) {
                    tells_error(body, code, message)
                } else {
                    tells_error(body, "api_error"@, message)
                },
            }
        }),
{
    lemma_reply_names();
    let body = http::error_reply_view(e, request_id).body;
    let detail = body->Object_0["error"@];
    assert(wire::has(body, "error"@, detail));
    assert(wire::has_text(detail, "type"@, e.anthropic_type()));
    assert(wire::has_text(detail, "message"@, e.public_message()));
}

/// In the middle of a stream an error is told in the same words.
pub proof fn law_stream_errors_tell_the_same(e: BackendErrorView)
    ensures
        tells_error(http::error_event(e), e.anthropic_type(), e.public_message()),
        http::event_name(http::error_event(e)) == "error"@,
{
    lemma_reply_names();
    let event = http::error_event(e);
    let detail = event->Object_0["error"@];
    assert(wire::has(event, "error"@, detail));
    assert(wire::has_text(detail, "type"@, e.anthropic_type()));
    assert(wire::has_text(detail, "message"@, e.public_message()));
}

/// A client reads what was wrong with its request or its model; of what
/// happened inside it reads nothing.
pub proof fn law_errors_have_their_message(m: Seq<char>)
    ensures
        BackendErrorView::InvalidRequest(m).public_message() == m,
        BackendErrorView::ModelUnavailable(m).public_message() == m,
        BackendErrorView::Unavailable(m).public_message() == "upstream provider unavailable"@,
        BackendErrorView::Internal(m).public_message() == "internal gateway error"@,
{
}

/// A word that begins like a secret, in letters of either case.
pub open spec fn begins_like_a_secret(word: Seq<char>) -> bool {
    let low = text::lowered(word);
    "sk-"@.is_prefix_of(low) || "token="@.is_prefix_of(low) || "api_key="@.is_prefix_of(low)
        || "apikey="@.is_prefix_of(low) || "bearer="@.is_prefix_of(low)
}

/// Of an upstream message a client reads every word in its place, those that
/// begin like a secret replaced.
pub proof fn law_upstream_words_are_shown(status: u16, code: Seq<char>, message: Seq<char>, i: int)
    requires
        0 <= i < text::words(message).len(),
    ensures
        ({
            let e = BackendErrorView::Upstream { status, code, message };
            let shown = text::words(e.public_message());
            let word = text::words(message)[i];
            &&& shown.len() == text::words(message).len()
            &&& begins_like_a_secret(word) ==> shown[i] == "[REDACTED]"@
            &&& !begins_like_a_secret(word) ==> shown[i] == word
        }),
{
    let before = text::words(message);
    let masked = backend::masked_words(before);
    backend::lemma_mark_is_public();
    text::lemma_words_plain(message);
    assert forall|k: int| 0 <= k < masked.len() implies text::plain_word(#[trigger] masked[k]) by {
        assert(text::plain_word(before[k]));
    }
    text::lemma_words_of_joined(masked);
}

/// An answer carries its id as a header where the id is one to 128 printable
/// characters, as each id is that was chosen for a request.
pub proof fn law_answers_carry_their_id(e: BackendErrorView, request_id: Seq<char>)
    requires
        1 <= request_id.len() <= 128,
        forall|i: int| 0 <= i < request_id.len() ==> ' ' <= #[trigger] request_id[i] <= '~',
    ensures
        http::valid_request_id(request_id),
        http::error_reply_view(e, request_id).request_id == Some(request_id),
        http::auth_error_view(request_id).request_id == Some(request_id),
{
    assert forall|i: int| 0 <= i < request_id.len() implies http::id_char(
        #[trigger] request_id[i],
    ) by {}
    http::law_request_ids_are_header_values(request_id);
}

/// An id with any other character, an empty one and a longer one is not taken
/// from a client.
pub proof fn law_odd_ids_are_not_taken(value: Seq<char>, i: int)
    requires
        value.len() == 0 || value.len() > 128 || 0 <= i < value.len() && (value[i] < ' ' || value[i]
            > '~'),
    ensures
        !http::valid_request_id(value),
{
    if http::valid_request_id(value) {
        assert(http::id_char(value[i]));
    }
}

/// A request that is not authorized is told so with the status for it.
pub proof fn law_the_unauthorized_are_told(request_id: Seq<char>)
    ensures
        http::auth_error_view(request_id).status == 401,
        wire::has_text(http::auth_error_view(request_id).body, "request_id"@, request_id),
        tells_error(
            http::auth_error_view(request_id).body,
            "authentication_error"@,
            "missing or invalid bearer token"@,
        ),
{
    lemma_reply_names();
    let body = http::auth_error_view(request_id).body;
    let detail = body->Object_0["error"@];
    assert(wire::has(body, "error"@, detail));
    assert(wire::has_text(detail, "type"@, "authentication_error"@));
    assert(wire::has_text(detail, "message"@, "missing or invalid bearer token"@));
}

/// Without a token to require every request passes; with one, an API request
/// passes only where its header begins with `Bearer` and a space.
pub proof fn law_bearer_is_required(
    token: Seq<char>,
    path: Seq<char>,
    header: Option<Seq<char>>,
)
    ensures
        http::authorized(None, path, header),
        "/v1/"@.is_prefix_of(path) && http::authorized(Some(token), path, header) ==> (
        header matches Some(h) && "Bearer "@.is_prefix_of(h)),
{
}

// ---------------------------------------------------------------------------
// Failures of providers
// ---------------------------------------------------------------------------

/// What a failure of a provider is answered with: a bad request, a missing
/// credential, a model that is not there, an upstream that cannot be reached,
/// an answer that cannot be read, or the upstream's own error.
pub proof fn law_provider_failures_are_answered(e: ProviderErrorView)
    ensures
        ({
            let g = provider_backend::gateway_error(e);
            match e {
                ProviderErrorView::Config(m) => g == BackendErrorView::InvalidRequest(m),
                ProviderErrorView::AuthMissing { .. } => g.status_code() == 401
                    && g.anthropic_type() == "authentication_error"@,
                ProviderErrorView::ProviderNotFound(_) => g is ModelUnavailable,
                ProviderErrorView::ModelNotFound { .. } => g is ModelUnavailable,
                ProviderErrorView::Timeout { .. } => g is Unavailable,
                ProviderErrorView::Transport { .. } => g is Unavailable,
                ProviderErrorView::Stream { .. } => g is Unavailable,
                ProviderErrorView::Parse(_) => g is Internal,
                ProviderErrorView::Upstream { status, code, message, .. } => (
                g matches BackendErrorView::Upstream { status: s, code: c, message: m } && s
                    == status && c == code && m == BackendErrorView::Upstream {
                    status,
                    code,
                    message,
                }.public_message()),
            }
        }),
{
}

/// The status that a provider error has by itself.
pub proof fn law_provider_errors_have_their_status(e: ProviderErrorView)
    ensures
        match e {
            ProviderErrorView::Config(_) => e.http_status() == 500,
            ProviderErrorView::AuthMissing { .. } => e.http_status() == 500 && e.anthropic_type()
                == "authentication_error"@,
            ProviderErrorView::ProviderNotFound(_) => e.http_status() == 404 && e.anthropic_type()
                == "not_found_error"@,
            ProviderErrorView::ModelNotFound { .. } => e.http_status() == 404
                && e.anthropic_type() == "not_found_error"@,
            ProviderErrorView::Timeout { .. } => e.http_status() == 504 && e.anthropic_type()
                == "api_error"@,
            ProviderErrorView::Transport { .. } => e.http_status() == 502 && e.anthropic_type()
                == "api_error"@,
            ProviderErrorView::Parse(_) => e.http_status() == 502 && e.anthropic_type()
                == "api_error"@,
            ProviderErrorView::Stream { .. } => e.http_status() == 502 && e.anthropic_type()
                == "api_error"@,
            ProviderErrorView::Upstream { status, code, .. } => e.http_status() == status && (
            if client_error_type(code) {
                e.anthropic_type() == code
            } else {
                e.anthropic_type() == "api_error"@
            }),
        },
{
}

/// The error of an upstream response is what its JSON says under `error`: the
/// type and the message there.
pub proof fn law_upstream_errors_are_read(
    provider: Option<Seq<char>>,
    status: u16,
    v: JsonView,
    err: JsonView,
    code: Seq<char>,
    message: Seq<char>,
    raw: Seq<char>,
    fallback: Seq<char>,
    odd: JsonView,
)
    requires
        wire::has(v, "error"@, err),
        !(odd is Text),
    ensures
        error::upstream_error(
            provider,
            status,
            Some(v),
            raw,
            fallback,
        ) matches ProviderErrorView::Upstream {
            status: s,
            code: c,
            message: m,
            provider_id,
        } && {
            &&& s == status && provider_id == provider
            &&& wire::has_text(err, "type"@, code) ==> c == code
            &&& wire::lacks(err, "type"@) || wire::has(err, "type"@, odd) ==> c == "api_error"@
            &&& wire::has_text(err, "message"@, message) ==> m == message
            &&& wire::lacks(err, "message"@) || wire::has(err, "message"@, odd) ==> m == fallback
        },
{
}

/// Where the JSON has no `error` but a message, that is the message.
pub proof fn law_upstream_messages_are_read(
    provider: Option<Seq<char>>,
    status: u16,
    v: JsonView,
    message: Seq<char>,
    raw: Seq<char>,
    fallback: Seq<char>,
)
    requires
        wire::lacks(v, "error"@),
        wire::has_text(v, "message"@, message),
    ensures
        error::upstream_error(provider, status, Some(v), raw, fallback) == (
        ProviderErrorView::Upstream {
            status,
            code: "api_error"@,
            message,
            provider_id: provider,
        }),
{
}

/// Where the response is no JSON, or says neither, its status tells the type,
/// and a piece of its text is the message, if there is any.
pub proof fn law_upstream_text_is_shown(
    provider: Option<Seq<char>>,
    status: u16,
    parsed: Option<JsonView>,
    raw: Seq<char>,
    fallback: Seq<char>,
)
    requires
        parsed matches Some(v) ==> wire::lacks(v, "error"@) && (wire::lacks(v, "message"@) || !(
        v->Object_0["message"@] is Text)),
    ensures
        error::upstream_error(
            provider,
            status,
            parsed,
            raw,
            fallback,
        ) matches ProviderErrorView::Upstream {
            status: s,
            code,
            message,
            provider_id,
        } && {
            &&& s == status && provider_id == provider
            &&& message == (if error::snippet(raw).len() == 0 {
                fallback
            } else {
                error::snippet(raw)
            })
            &&& if status == 400 {
                code == "invalid_request_error"@
            } else if status == 401 {
                code == "authentication_error"@
            } else if status == 403 {
                code == "permission_error"@
            } else if status == 404 {
                code == "not_found_error"@
            } else if status == 429 {
                code == "rate_limit_error"@
            } else if status == 529 {
                code == "overloaded_error"@
            } else {
                code == "api_error"@
            }
        },
{
}

/// The piece that is shown of a text of one line, not too long and without a
/// mention of credentials, is the text without the white space around it.
pub proof fn law_plain_text_is_shown(s: Seq<char>)
    requires
        text::utf8_len(text::trimmed(s)) <= 500,
        forall|i: int| 0 <= i < s.len() ==> #[trigger] s[i] != '\n',
        !text::contains(text::lowered(text::trimmed(s)), "authorization"@),
        !text::contains(text::lowered(text::trimmed(s)), "x-api-key"@),
        !text::contains(text::lowered(text::trimmed(s)), "bearer"@),
    ensures
        error::snippet(s) == text::trimmed(s),
{
    let t = text::trimmed(s);
    text::lemma_trimmed_start(s);
    let u = text::trimmed_start(s);
    text::lemma_trimmed_end(u);
    let lines = text::lines(t);
    if t.len() > 0 {
        assert forall|i: int| 0 <= i < t.len() implies #[trigger] t[i] != '\n' by {
            assert(t[i] == u[i]);
            assert(u[i] == s[s.len() - u.len() + i]);
        }
        text::lemma_first_of(t, '\n');
        assert(lines =~= seq![t]);
        assert(lines.drop_last() =~= Seq::<Seq<char>>::empty());
        reveal_with_fuel(error::public_lines, 2);
        assert(error::public_lines(lines) =~= seq![t]);
        assert(u[0] == t[0]);
        text::lemma_trimmed_fixed(t);
    } else {
        assert(lines =~= Seq::<Seq<char>>::empty());
        assert(error::public_lines(lines) =~= Seq::<Seq<char>>::empty());
        text::lemma_trimmed_fixed(t);
        assert(error::snippet(s) =~= t);
    }
}

/// What is shown of a text mentions no credential and is not long, whatever
/// the text.
pub proof fn law_shown_text_is_harmless(s: Seq<char>)
    ensures
        !text::contains(text::lowered(error::snippet(s)), "authorization"@),
        !text::contains(text::lowered(error::snippet(s)), "x-api-key"@),
        !text::contains(text::lowered(error::snippet(s)), "bearer"@),
        text::utf8_len(error::snippet(s)) <= 503,
{
    error::law_snippet_hides_credentials(s);
    error::law_snippet_is_short(s);
}

// ---------------------------------------------------------------------------
// Other answers
// ---------------------------------------------------------------------------

/// The health check answers that all is well.
pub proof fn law_health_is_ok()
    ensures
        wire::has_text(http::health_view(), "status"@, "ok"@),
{
}

proof fn lemma_model_names()
    ensures
        "id"@ != "object"@ && "id"@ != "created"@ && "id"@ != "owned_by"@ && "object"@
            != "created"@ && "object"@ != "owned_by"@ && "created"@ != "owned_by"@ && "object"@
            != "data"@,
{
    reveal_strlit("id");
    reveal_strlit("object");
    reveal_strlit("created");
    reveal_strlit("owned_by");
    reveal_strlit("data");
    assert("id"@.len() == 2 && "object"@.len() == 6 && "created"@.len() == 7);
    assert("owned_by"@.len() == 8 && "data"@.len() == 4);
}

/// The list of models has one entry for each model, in their order, with each
/// part under its name.
pub proof fn law_models_are_listed(models: Seq<ModelInfo>, i: int)
    requires
        0 <= i < models.len(),
    ensures
        wire::has_text(http::model_list(models), "object"@, "list"@),
        exists|data: Seq<JsonView>|
            {
                &&& #[trigger] wire::has(http::model_list(models), "data"@, JsonView::Array(data))
                &&& data.len() == models.len()
                &&& wire::has_text(data[i], "id"@, models[i].id@)
                &&& wire::has_text(data[i], "object"@, models[i].object@)
                &&& wire::has_integer(data[i], "created"@, models[i].created as int)
                &&& wire::has_text(data[i], "owned_by"@, models[i].owned_by@)
            },
{
    lemma_model_names();
    let data = models.map_values(|m: ModelInfo| http::model_json(m));
    assert(data[i] == http::model_json(models[i]));
    assert(wire::has(http::model_list(models), "data"@, JsonView::Array(data)));
}

/// An event is named after its type, and is a message where it has none.
pub proof fn law_events_are_named(event: JsonView, name: Seq<char>)
    ensures
        wire::has_text(event, "type"@, name) ==> http::event_name(event) == name,
        wire::lacks(event, "type"@) ==> http::event_name(event) == "message"@,
{
}

/// A request that is not accepted is told what is wrong with it.
pub proof fn law_refused_requests_are_told_why(body: JsonView, why: Seq<char>)
    ensures
        !(body is Object) ==> http::request_parts(body) == Err::<(Seq<char>, bool), BackendErrorView>(
            BackendErrorView::InvalidRequest("request body must be a JSON object"@),
        ),
        body is Object && (wire::lacks(body, "model"@) || !(body->Object_0["model"@] is Text))
            ==> http::request_parts(body) == Err::<(Seq<char>, bool), BackendErrorView>(
            BackendErrorView::InvalidRequest("model is required"@),
        ),
        http::request_parts(body) is Ok && body is Object ==> !wire::lacks(body, "model"@),
        http::accepted(Err(why), None) == Err::<(backend::BackendRequestView, bool), BackendErrorView>(
            BackendErrorView::InvalidRequest("invalid JSON request: "@ + why),
        ),
{
}

/// A request whose `stream` is no boolean is told so, where its model is in
/// order.
pub proof fn law_odd_streams_are_told(body: JsonView, model: Seq<char>, v: JsonView)
    requires
        wire::has_text(body, "model"@, model),
        text::trimmed(model).len() > 0,
        wire::has(body, "stream"@, v),
        !(v is Bool),
    ensures
        http::request_parts(body) == Err::<(Seq<char>, bool), BackendErrorView>(
            BackendErrorView::InvalidRequest("stream must be a boolean"@),
        ),
{
}

/// An error of an upstream.
pub open spec fn upstream(status: u16, code: Seq<char>, message: Seq<char>) -> BackendErrorView {
    BackendErrorView::Upstream { status, code, message }
}

/// A missing provider or model is told by its name, and a missing credential
/// by what is missing.
pub proof fn law_missing_things_are_named(
    provider: Seq<char>,
    model: Seq<char>,
    env_var: Seq<char>,
    reason: Seq<char>,
)
    ensures
        provider_backend::gateway_error(ProviderErrorView::ProviderNotFound(provider))
            == BackendErrorView::ModelUnavailable(provider),
        ({
            let g = provider_backend::gateway_error(
                ProviderErrorView::ModelNotFound { provider, model },
            );
            g matches BackendErrorView::ModelUnavailable(m) && text::contains(m, provider)
                && text::contains(m, model)
        }),
        ({
            let g = provider_backend::gateway_error(
                ProviderErrorView::AuthMissing { env_var, reason },
            );
            g matches BackendErrorView::Upstream { message, .. } && message == upstream(
                401,
                "authentication_error"@,
                reason,
            ).public_message()
        }),
{
    let a = "provider="@;
    let b = " model="@;
    let m = a + provider + b + model;
    assert(m.subrange(a.len() as int, (a.len() + provider.len()) as int) =~= provider);
    assert(text::occurs_at(m, provider, a.len() as int));
    let n = a.len() + provider.len() + b.len();
    assert(m.subrange(n as int, (n + model.len()) as int) =~= model);
    assert(text::occurs_at(m, model, n as int));
}

/// A message of words with one space between them, none of which begins like a
/// secret, is shown as it is.
pub proof fn law_plain_messages_are_shown(status: u16, code: Seq<char>, words: Seq<Seq<char>>)
    requires
        forall|i: int|
            0 <= i < words.len() ==> text::plain_word(#[trigger] words[i])
                && !begins_like_a_secret(words[i]),
    ensures
        upstream(status, code, text::joined(words, " "@)).public_message() == text::joined(
            words,
            " "@,
        ),
{
    text::lemma_words_of_joined(words);
    assert(backend::masked_words(words) =~= words);
}

/// Of a text that is too long to be shown whole its beginning is shown, as much
/// as fits into 500 bytes, and a mark that it goes on.
pub proof fn law_long_text_is_cut(s: Seq<char>)
    requires
        text::utf8_len(text::trimmed(s)) > 500,
        forall|i: int| 0 <= i < s.len() ==> #[trigger] s[i] != '\n',
        !text::contains(text::lowered(text::trimmed(s)), "authorization"@),
        !text::contains(text::lowered(text::trimmed(s)), "x-api-key"@),
        !text::contains(text::lowered(text::trimmed(s)), "bearer"@),
    ensures
        exists|n: int|
            0 <= n < text::trimmed(s).len() && error::snippet(s) == (#[trigger] text::trimmed(
                s,
            ).take(n)).push('\u{2026}') && text::utf8_len(text::trimmed(s).take(n)) <= 500
                && text::utf8_len(text::trimmed(s).take(n + 1)) > 500,
{
    let t = text::trimmed(s);
    text::lemma_trimmed_start(s);
    let u = text::trimmed_start(s);
    text::lemma_trimmed_end(u);
    let n = text::fitting(t, 500) as int;
    text::lemma_fitting(t, 500);
    lemma_fitting_is_most(t, 500);
    let short = t.take(n).push('\u{2026}');
    assert(error::shortened(t) == short);
    assert forall|i: int| 0 <= i < short.len() implies #[trigger] short[i] != '\n' by {
        if i < n {
            assert(short[i] == t[i]);
            assert(t[i] == u[i]);
            assert(u[i] == s[s.len() - u.len() + i]);
        }
    }
    text::lemma_first_of(short, '\n');
    let lines = text::lines(short);
    assert(lines =~= seq![short]);
    reveal_strlit("authorization");
    reveal_strlit("x-api-key");
    reveal_strlit("bearer");
    lemma_cut_hides(t, n, "authorization"@);
    lemma_cut_hides(t, n, "x-api-key"@);
    lemma_cut_hides(t, n, "bearer"@);
    assert(lines.drop_last() =~= Seq::<Seq<char>>::empty());
    reveal_with_fuel(error::public_lines, 2);
    assert(error::public_lines(lines) =~= seq![short]);
    assert(t.len() > 0);
    assert(u[0] == t[0]);
    assert(short[0] == (if n > 0 {
        t[0]
    } else {
        '\u{2026}'
    }));
    text::lemma_trimmed_fixed(short);
    assert(error::snippet(s) == t.take(n).push('\u{2026}'));
}

proof fn lemma_fitting_is_most(s: Seq<char>, limit: nat)
    requires
        text::utf8_len(s) > limit,
    ensures
        text::fitting(s, limit) < s.len(),
        text::utf8_len(s.take(text::fitting(s, limit) as int + 1)) > limit,
    decreases s.len(),
{
    text::lemma_fitting(s, limit);
    let n = text::fitting(s, limit) as int;
    let one = s.take(n + 1);
    if text::utf8_width(s[0]) > limit {
        assert(one[0] == s[0]);
    } else {
        let rest = s.skip(1);
        lemma_fitting_is_most(rest, (limit - text::utf8_width(s[0])) as nat);
        assert(one[0] == s[0]);
        assert(one.skip(1) =~= rest.take(n));
    }
}

proof fn lemma_cut_hides(t: Seq<char>, n: int, p: Seq<char>)
    requires
        0 <= n <= t.len(),
        p.len() > 0,
        forall|i: int| 0 <= i < p.len() ==> #[trigger] p[i] != '\u{2026}',
        !text::contains(text::lowered(t), p),
    ensures
        !text::contains(text::lowered(t.take(n).push('\u{2026}')), p),
{
    let short = t.take(n).push('\u{2026}');
    let low = text::lowered(short);
    if text::contains(low, p) {
        let i = choose|i: int| #[trigger] text::occurs_at(low, p, i);
        if i + p.len() > n {
            let part = low.subrange(i, i + p.len());
            assert(part[n - i] == low[n]);
            assert(low[n] == '\u{2026}');
        } else {
            assert(text::lowered(t).subrange(i, i + p.len()) =~= low.subrange(i, i + p.len()));
            assert(text::occurs_at(text::lowered(t), p, i));
        }
    }
}

/// An id that no header can carry is not sent as one.
pub proof fn law_odd_ids_are_no_headers(e: BackendErrorView, request_id: Seq<char>, i: int)
    requires
        0 <= i < request_id.len(),
        request_id[i] == '\n' || request_id[i] == '\r',
    ensures
        http::error_reply_view(e, request_id).request_id is None,
        http::auth_error_view(request_id).request_id is None,
{
}

} // verus!
