//! Client-facing Anthropic Messages HTTP surface.
//!
//! What a request is answered with is worked out here, from the parts of the
//! request to the parts of the response. Receiving and sending are left to the
//! caller.

use vstd::prelude::*;
use vstd::string::*;

use crate::gateway::backend;
use crate::gateway::backend::{
    BackendError, BackendErrorView, BackendRequest, BackendRequestView, ModelInfo,
};
use crate::gateway::telemetry::UsageSnapshotRow;
use crate::json;
use crate::json::{Json, JsonMap, JsonNumber, JsonView};
use crate::providers::anthropic;
use crate::providers::stream;
use crate::providers::stream::{SseEventView, StreamEventView};
use crate::providers::types;
use crate::text;

verus! {

// ---------------------------------------------------------------------------
// Request ids
// ---------------------------------------------------------------------------

/// A printable ASCII character or a space.
pub open spec fn id_char(c: char) -> bool {
    ' ' <= c <= '~'
}

/// What a client may give as the id of its request: one to 128 printable ASCII
/// characters or spaces.
pub open spec fn valid_request_id(value: Seq<char>) -> bool {
    1 <= value.len() <= 128 && forall|i: int| 0 <= i < value.len() ==> id_char(#[trigger] value[i])
}

pub fn is_valid_request_id(value: &str) -> (r: bool)
    ensures
        r == valid_request_id(value@),
{
    let v = text::chars_of(value);
    if v.len() == 0 || v.len() > 128 {
        return false;
    }
    let mut i: usize = 0;
    while i < v.len()
        invariant
            i <= v@.len(),
            v@ == value@,
            forall|j: int| 0 <= j < i ==> id_char(#[trigger] value@[j]),
        decreases v@.len() - i,
    {
        let c = v[i];
        if !(' ' <= c && c <= '~') {
            assert(!id_char(value@[i as int]));
            return false;
        }
        i = i + 1;
    }
    true
}

/// The text of a UUID: 36 characters, hyphens after the 8th, 12th, 16th and
/// 20th hexadecimal digit.
pub open spec fn uuid_text(s: Seq<char>) -> bool {
    s.len() == 36 && forall|i: int|
        0 <= i < 36 ==> {
            let c = #[trigger] s[i];
            if i == 8 || i == 13 || i == 18 || i == 23 {
                c == '-'
            } else {
                '0' <= c <= '9' || 'a' <= c <= 'f'
            }
        }
}

/// `uuid::Uuid::new_v4` and its text. Which UUID it is depends on chance; its
/// text has the form of one.
#[verifier::external_body]
fn new_uuid() -> (r: String)
    ensures
        uuid_text(r@),
{
    uuid::Uuid::new_v4().to_string()
}

/// The id of a request: the one that its header gives, if that is valid, and
/// else a new one.
pub fn choose_request_id(header: Option<&str>) -> (r: String)
    ensures
        valid_request_id(r@),
        match header {
            Some(h) => if valid_request_id(h@) {
                r@ == h@
            } else {
                uuid_text(r@)
            },
            None => uuid_text(r@),
        },
{
    if let Some(h) = header {
        if is_valid_request_id(h) {
            return h.to_owned();
        }
    }
    let r = new_uuid();
    assert forall|i: int| 0 <= i < r@.len() implies id_char(#[trigger] r@[i]) by {}
    r
}

/// The id of a request can be sent back as a header.
pub proof fn law_request_ids_are_header_values(id: Seq<char>)
    requires
        valid_request_id(id),
    ensures
        anthropic::header_value_ok(id),
{
    assert forall|i: int| 0 <= i < id.len() implies (#[trigger] id[i]) == '\t' || id[i] as u32 >= 32
        && id[i] as u32 != 127 by {
        assert(id_char(id[i]));
    }
}

// ---------------------------------------------------------------------------
// Authorization
// ---------------------------------------------------------------------------

/// The byte at an index, or 0 beyond the end.
pub open spec fn byte_at(s: Seq<u8>, i: int) -> u8 {
    if 0 <= i < s.len() {
        s[i]
    } else {
        0
    }
}

/// Equality as the comparison in constant time sees it: the lengths agree in
/// their low eight bits, and the bytes agree, where beyond its end a text
/// counts as zeros.
pub open spec fn equal_in_constant_time(a: Seq<u8>, b: Seq<u8>) -> bool {
    a.len() % 256 == b.len() % 256 && forall|i: int| #[trigger]
        byte_at(a, i) == byte_at(b, i)
}

/// Compare without telling by the time taken where a difference is.
pub fn constant_time_eq(a: &[u8], b: &[u8]) -> (r: bool)
    ensures
        r == equal_in_constant_time(a@, b@),
{
    let la: u8 = (a.len() % 256) as u8;
    let lb: u8 = (b.len() % 256) as u8;
    let mut result: u8 = la ^ lb;
    assert(result == 0 <==> la == lb) by (bit_vector)
        requires
            result == la ^ lb,
    ;
    let max_len: usize = if a.len() > b.len() {
        a.len()
    } else {
        b.len()
    };
    let mut i: usize = 0;
    while i < max_len
        invariant
            i <= max_len,
            max_len >= a@.len(),
            max_len >= b@.len(),
            la == a@.len() % 256,
            lb == b@.len() % 256,
            result == 0 <==> (la == lb && forall|j: int|
                0 <= j < i ==> #[trigger] byte_at(a@, j) == byte_at(b@, j)),
        decreases max_len - i,
    {
        let x: u8 = if i < a.len() {
            a[i]
        } else {
            0
        };
        let y: u8 = if i < b.len() {
            b[i]
        } else {
            0
        };
        let before: u8 = result;
        result = before | (x ^ y);
        assert(result == 0 <==> before == 0 && x == y) by (bit_vector)
            requires
                result == before | (x ^ y),
        ;
        assert(byte_at(a@, i as int) == x && byte_at(b@, i as int) == y);
        i = i + 1;
    }
    proof {
        if result == 0 {
            assert forall|j: int| #[trigger] byte_at(a@, j) == byte_at(b@, j) by {}
        }
    }
    result == 0
}

/// For texts that do not end in a zero byte the comparison is equality.
pub proof fn law_constant_time_equality(a: Seq<u8>, b: Seq<u8>)
    requires
        a.len() > 0 ==> a.last() != 0,
        b.len() > 0 ==> b.last() != 0,
    ensures
        equal_in_constant_time(a, b) <==> a == b,
{
    if equal_in_constant_time(a, b) {
        if a.len() > b.len() {
            assert(byte_at(a, a.len() - 1) == byte_at(b, a.len() - 1));
        }
        if b.len() > a.len() {
            assert(byte_at(a, b.len() - 1) == byte_at(b, b.len() - 1));
        }
        assert forall|i: int| 0 <= i < a.len() implies a[i] == b[i] by {
            assert(byte_at(a, i) == byte_at(b, i));
        }
        assert(a =~= b);
    }
}

/// Whether a request may pass: always without a token to require and outside
/// the API routes, and else with the token in its `Authorization` header.
pub open spec fn authorized(
    expected: Option<Seq<char>>,
    path: Seq<char>,
    header: Option<Seq<char>>,
) -> bool {
    match expected {
        None => true,
        Some(token) => !"/v1/"@.is_prefix_of(path) || match header {
            None => false,
            Some(h) => "Bearer "@.is_prefix_of(h) && equal_in_constant_time(
                vstd::utf8::encode_utf8(h.skip("Bearer "@.len() as int)),
                vstd::utf8::encode_utf8(token),
            ),
        },
    }
}

/// Decide whether a request may pass. `header` is its `Authorization` header,
/// where that is visible ASCII.
pub fn is_authorized(expected: Option<&str>, path: &str, header: Option<&str>) -> (r: bool)
    ensures
        r == authorized(
            match expected {
                Some(t) => Some(t@),
                None => None,
            },
            path@,
            match header {
                Some(h) => Some(h@),
                None => None,
            },
        ),
{
    let token = match expected {
        Some(token) => token,
        None => return true,
    };
    if !text::starts_with(path, "/v1/") {
        return true;
    }
    match header {
        None => false,
        Some(h) => match text::strip_prefix(h, "Bearer ") {
            Some(provided) => constant_time_eq(provided.as_bytes(), token.as_bytes()),
            None => false,
        },
    }
}

/// With a token required, a request to an API route passes exactly with
/// `Bearer` and the token in its header (neither text ending in a zero byte).
pub proof fn law_only_the_token_opens_the_api(
    token: Seq<char>,
    path: Seq<char>,
    provided: Seq<char>,
)
    requires
        "/v1/"@.is_prefix_of(path),
        ({
            let t = vstd::utf8::encode_utf8(token);
            let p = vstd::utf8::encode_utf8(provided);
            (t.len() > 0 ==> t.last() != 0) && (p.len() > 0 ==> p.last() != 0)
        }),
    ensures
        authorized(Some(token), path, Some("Bearer "@ + provided)) <==> provided == token,
        !authorized(Some(token), path, None),
{
    let h = "Bearer "@ + provided;
    assert("Bearer "@.is_prefix_of(h)) by {
        assert(h.subrange(0, "Bearer "@.len() as int) =~= "Bearer "@);
    }
    assert(h.skip("Bearer "@.len() as int) =~= provided);
    law_constant_time_equality(
        vstd::utf8::encode_utf8(provided),
        vstd::utf8::encode_utf8(token),
    );
    vstd::utf8::encode_utf8_decode_utf8(provided);
    vstd::utf8::encode_utf8_decode_utf8(token);
}

/// Health and metrics stay open.
pub proof fn law_other_routes_stay_open(
    expected: Option<Seq<char>>,
    path: Seq<char>,
    header: Option<Seq<char>>,
)
    requires
        !"/v1/"@.is_prefix_of(path),
    ensures
        authorized(expected, path, header),
{
}

// ---------------------------------------------------------------------------
// Requests
// ---------------------------------------------------------------------------

/// The model of a request without surrounding white space, and whether its
/// answer is to be streamed.
pub open spec fn request_parts(body: JsonView) -> Result<(Seq<char>, bool), BackendErrorView> {
    match body {
        JsonView::Object(_) => match body.get_text("model"@) {
            Some(model) => if text::trimmed(model).len() > 0 {
                match body.get("stream"@) {
                    None => Ok((text::trimmed(model), false)),
                    Some(JsonView::Bool(b)) => Ok((text::trimmed(model), b)),
                    Some(_) => Err(
                        BackendErrorView::InvalidRequest("stream must be a boolean"@),
                    ),
                }
            } else {
                Err(BackendErrorView::InvalidRequest("model is required"@))
            },
            None => Err(BackendErrorView::InvalidRequest("model is required"@)),
        },
        _ => Err(BackendErrorView::InvalidRequest("request body must be a JSON object"@)),
    }
}

pub fn validate_request(body: &Json) -> (r: Result<(String, bool), BackendError>)
    ensures
        match r {
            Ok((model, streaming)) => request_parts(body@) == Ok::<
                (Seq<char>, bool),
                BackendErrorView,
            >((model@, streaming)),
            Err(e) => request_parts(body@) == Err::<(Seq<char>, bool), BackendErrorView>(e@),
        },
        r matches Ok((_, streaming)) ==> (streaming <==> body@.get("stream"@) == Some(
            JsonView::Bool(true),
        )),
{
    match body {
        Json::Object(_) => {},
        _ => return Err(
            BackendError::InvalidRequest("request body must be a JSON object".to_owned()),
        ),
    }
    let model = match body.get_str("model") {
        Some(model) => text::trim(model),
        None => return Err(BackendError::InvalidRequest("model is required".to_owned())),
    };
    if model.is_empty() {
        return Err(BackendError::InvalidRequest("model is required".to_owned()));
    }
    let streaming: bool = match body.get("stream") {
        None => false,
        Some(Json::Bool(b)) => *b,
        Some(_) => return Err(
            BackendError::InvalidRequest("stream must be a boolean".to_owned()),
        ),
    };
    Ok((model.to_owned(), streaming))
}

/// The allowlisted client headers: `anthropic-beta` and no other.
pub open spec fn forwarded(beta: Option<Seq<char>>) -> Seq<(Seq<char>, Seq<char>)> {
    match beta {
        Some(value) => seq![("anthropic-beta"@, value)],
        None => Seq::empty(),
    }
}

/// Extract the allowlisted client headers for upstream forwarding. `beta` is
/// the `anthropic-beta` header, where it is visible ASCII.
pub fn extract_forward_headers(beta: Option<&str>) -> (r: Vec<(String, String)>)
    ensures
        types::headers_view(r@) == forwarded(
            match beta {
                Some(s) => Some(s@),
                None => None,
            },
        ),
{
    let mut forward: Vec<(String, String)> = Vec::new();
    if let Some(s) = beta {
        forward.push(("anthropic-beta".to_owned(), s.to_owned()));
        assert(types::headers_view(forward@) =~= seq![("anthropic-beta"@, s@)]);
    } else {
        assert(types::headers_view(forward@) =~= Seq::<(Seq<char>, Seq<char>)>::empty());
    }
    forward
}

/// A request for the backend, and whether its answer is streamed; or the error
/// that answers it. `payload` is the parsed body or why it could not be parsed.
pub open spec fn accepted(
    payload: Result<JsonView, Seq<char>>,
    beta: Option<Seq<char>>,
) -> Result<(BackendRequestView, bool), BackendErrorView> {
    match payload {
        Err(why) => Err(BackendErrorView::InvalidRequest("invalid JSON request: "@ + why)),
        Ok(body) => match request_parts(body) {
            Err(e) => Err(e),
            Ok((model, streaming)) => Ok(
                (
                    BackendRequestView { model, body, forward_headers: forwarded(beta) },
                    streaming,
                ),
            ),
        },
    }
}

/// Check a message request and make the backend's request of it.
pub fn accept_message(payload: Result<Json, String>, beta: Option<&str>) -> (r: Result<
    (BackendRequest, bool),
    BackendError,
>)
    ensures
        ({
            let goal = accepted(
                match payload {
                    Ok(v) => Ok(v@),
                    Err(why) => Err(why@),
                },
                match beta {
                    Some(s) => Some(s@),
                    None => None,
                },
            );
            match r {
                Ok((request, streaming)) => goal == Ok::<
                    (BackendRequestView, bool),
                    BackendErrorView,
                >((request@, streaming)),
                Err(e) => goal == Err::<(BackendRequestView, bool), BackendErrorView>(e@),
            }
        }),
{
    let body = match payload {
        Ok(body) => body,
        Err(why) => return Err(
            BackendError::InvalidRequest(
                text::concat2("invalid JSON request: ", why.as_str()),
            ),
        ),
    };
    match validate_request(&body) {
        Err(e) => Err(e),
        Ok((model, streaming)) => Ok(
            (
                BackendRequest { model, body, forward_headers: extract_forward_headers(beta) },
                streaming,
            ),
        ),
    }
}

/// `body` is an object whose member `name` holds `value`.
pub open spec fn body_has(body: JsonView, name: Seq<char>, value: JsonView) -> bool {
    body matches JsonView::Object(m) && m.contains_key(name) && m[name] == value
}

/// `body` is an object without a member `name`.
pub open spec fn body_lacks(body: JsonView, name: Seq<char>) -> bool {
    body matches JsonView::Object(m) && !m.contains_key(name)
}

/// A request is accepted exactly where its body is an object that names a
/// model, more than white space, and whose `stream`, if it has one, is a
/// boolean.
pub proof fn law_accepted_requests_name_a_model(body: JsonView, beta: Option<Seq<char>>)
    ensures
        accepted(Ok(body), beta) is Ok <==> {
            &&& exists|model: Seq<char>| #[trigger]
                body_has(body, "model"@, JsonView::Text(model)) && exists|i: int|
                    0 <= i < model.len() && !text::whitespace(#[trigger] model[i])
            &&& body_lacks(body, "stream"@) || body_has(body, "stream"@, JsonView::Bool(true))
                || body_has(body, "stream"@, JsonView::Bool(false))
        },
{
    if let Some(model) = body.get_text("model"@) {
        assert(body_has(body, "model"@, JsonView::Text(model)));
        lemma_not_blank(model);
        assert forall|other: Seq<char>| #[trigger]
            body_has(body, "model"@, JsonView::Text(other)) implies other == model by {}
    }
}

proof fn lemma_not_blank(s: Seq<char>)
    ensures
        text::trimmed(s).len() > 0 <==> exists|i: int|
            0 <= i < s.len() && !text::whitespace(#[trigger] s[i]),
{
    text::lemma_trimmed_start(s);
    let t = text::trimmed_start(s);
    text::lemma_trimmed_end(t);
    if text::trimmed(s).len() > 0 {
        assert(t.len() > 0);
        assert(!text::whitespace(s[s.len() - t.len()])) by {
            assert(t[0] == s[s.len() - t.len()]);
        }
    } else {
        assert forall|i: int| 0 <= i < s.len() implies text::whitespace(#[trigger] s[i]) by {
            if i >= s.len() - t.len() {
                assert(s[i] == t[i - (s.len() - t.len())]);
            }
        }
    }
}

/// An accepted request is streamed exactly where its body has a member
/// `stream` and that member is true.
pub proof fn law_streamed_on_demand(body: JsonView, beta: Option<Seq<char>>)
    requires
        accepted(Ok(body), beta) is Ok,
    ensures
        (accepted(Ok(body), beta)->Ok_0).1 <==> body_has(body, "stream"@, JsonView::Bool(true)),
{
}

/// An accepted request is for the model that its body names, without the white
/// space around it.
pub proof fn law_model_is_the_named_one(
    body: JsonView,
    beta: Option<Seq<char>>,
    before: Seq<char>,
    model: Seq<char>,
    after: Seq<char>,
)
    requires
        accepted(Ok(body), beta) is Ok,
        body_has(body, "model"@, JsonView::Text(before + model + after)),
        forall|i: int| 0 <= i < before.len() ==> text::whitespace(#[trigger] before[i]),
        forall|i: int| 0 <= i < after.len() ==> text::whitespace(#[trigger] after[i]),
        model.len() > 0,
        !text::whitespace(model[0]),
        !text::whitespace(model.last()),
    ensures
        (accepted(Ok(body), beta)->Ok_0).0.model == model,
{
    text::lemma_trimmed_parts(before, model, after);
}

/// Of a client's headers `anthropic-beta` is forwarded, as it is, and no other.
pub proof fn law_only_beta_is_forwarded(body: JsonView, beta: Option<Seq<char>>)
    requires
        accepted(Ok(body), beta) is Ok,
    ensures
        ({
            let sent = (accepted(Ok(body), beta)->Ok_0).0.forward_headers;
            match beta {
                Some(value) => sent.len() == 1 && sent[0] == ("anthropic-beta"@, value),
                None => sent.len() == 0,
            }
        }),
{
}

/// A body that could not be parsed, and one that is not accepted, is the
/// client's mistake.
pub proof fn law_bad_requests_are_the_clients(
    payload: Result<JsonView, Seq<char>>,
    beta: Option<Seq<char>>,
)
    ensures
        payload is Err ==> accepted(payload, beta) is Err,
        accepted(payload, beta) matches Err(e) ==> e is InvalidRequest && error_reply_view(
            e,
            Seq::empty(),
        ).status == 400 && e.anthropic_type() == "invalid_request_error"@,
{
}

/// The body reaches the backend as the client sent it.
pub proof fn law_body_is_untouched(body: JsonView, beta: Option<Seq<char>>)
    requires
        accepted(Ok(body), beta) is Ok,
    ensures
        (accepted(Ok(body), beta)->Ok_0).0.body == body,
{
}

// ---------------------------------------------------------------------------
// Responses
// ---------------------------------------------------------------------------

/// A response with a JSON body.
#[derive(Debug, PartialEq)]
pub struct Reply {
    pub status: u16,
    pub body: Json,
    /// The `x-request-id` header, where the id can be one.
    pub request_id: Option<String>,
}

pub struct ReplyView {
    pub status: u16,
    pub body: JsonView,
    pub request_id: Option<Seq<char>>,
}

impl View for Reply {
    type V = ReplyView;

    open spec fn view(&self) -> ReplyView {
        ReplyView {
            status: self.status,
            body: self.body@,
            request_id: types::optional_view(self.request_id),
        }
    }
}

/// An error envelope with the id of the request.
pub open spec fn error_envelope(
    request_id: Seq<char>,
    kind: Seq<char>,
    message: Seq<char>,
) -> JsonView {
    JsonView::Object(
        types::typed("error"@, Map::empty()).insert(
            "request_id"@,
            JsonView::Text(request_id),
        ).insert(
            "error"@,
            JsonView::Object(
                types::typed(kind, Map::empty()).insert("message"@, JsonView::Text(message)),
            ),
        ),
    )
}

fn error_detail(kind: &str, message: String) -> (r: Json)
    ensures
        r@ == JsonView::Object(
            types::typed(kind@, Map::empty()).insert("message"@, JsonView::Text(message@)),
        ),
{
    let mut m = types::object_with_type(kind, &JsonMap::new());
    m.insert("message".to_owned(), Json::Text(message));
    Json::object(m)
}

fn error_envelope_json(request_id: &str, kind: &str, message: String) -> (r: Json)
    ensures
        r@ == error_envelope(request_id@, kind@, message@),
{
    let mut m = types::object_with_type("error", &JsonMap::new());
    m.insert("request_id".to_owned(), Json::text(request_id));
    m.insert("error".to_owned(), error_detail(kind, message));
    Json::object(m)
}

/// A status that HTTP has a place for, or 502.
pub open spec fn http_status(status: u16) -> u16 {
    if 100 <= status <= 999 {
        status
    } else {
        502
    }
}

/// The answer to a request that failed.
pub open spec fn error_reply_view(e: BackendErrorView, request_id: Seq<char>) -> ReplyView {
    ReplyView {
        status: http_status(e.status_code()),
        body: error_envelope(request_id, e.anthropic_type(), e.public_message()),
        request_id: if anthropic::header_value_ok(request_id) {
            Some(request_id)
        } else {
            None
        },
    }
}

pub fn error_reply(error: &BackendError, request_id: &str) -> (r: Reply)
    ensures
        r@ == error_reply_view(error@, request_id@),
{
    let status: u16 = error.status_code();
    Reply {
        status: if 100 <= status && status <= 999 {
            status
        } else {
            502
        },
        body: error_envelope_json(request_id, error.anthropic_type(), error.public_message()),
        request_id: if anthropic::header_value(request_id) {
            Some(request_id.to_owned())
        } else {
            None
        },
    }
}

proof fn lemma_auth_message_is_clean()
    ensures
        backend::sanitized("missing or invalid bearer token"@) == "missing or invalid bearer token"@,
{
    reveal_strlit("missing or invalid bearer token");
    reveal_strlit("missing");
    reveal_strlit("or");
    reveal_strlit("invalid");
    reveal_strlit("bearer");
    reveal_strlit("token");
    reveal_strlit(" ");
    reveal_strlit("sk-");
    reveal_strlit("token=");
    reveal_strlit("api_key=");
    reveal_strlit("apikey=");
    reveal_strlit("bearer=");
    let parts = seq!["missing"@, "or"@, "invalid"@, "bearer"@, "token"@];
    assert forall|i: int| 0 <= i < parts.len() implies text::plain_word(#[trigger] parts[i])
        && !backend::secret_word(parts[i]) by {
        let w = parts[i];
        let low = text::lowered(w);
        assert(i == 0 || i == 1 || i == 2 || i == 3 || i == 4);
        assert(low[0] == w[0]);
        assert("sk-"@[0] == 's' && "token="@.len() == 6 && "api_key="@.len() == 8);
        assert("apikey="@[0] == 'a' && "bearer="@.len() == 7 && "bearer="@[0] == 'b');
        assert("token="@[0] == 't');
    }
    let p1 = seq!["missing"@];
    let p2 = seq!["missing"@, "or"@];
    let p3 = seq!["missing"@, "or"@, "invalid"@];
    let p4 = seq!["missing"@, "or"@, "invalid"@, "bearer"@];
    assert(p2.drop_last() =~= p1);
    assert(p3.drop_last() =~= p2);
    assert(p4.drop_last() =~= p3);
    assert(parts.drop_last() =~= p4);
    let j1 = text::joined(p1, " "@);
    let j2 = text::joined(p2, " "@);
    let j3 = text::joined(p3, " "@);
    let j4 = text::joined(p4, " "@);
    assert(text::joined(parts, " "@) =~= "missing or invalid bearer token"@);
    text::lemma_words_of_joined(parts);
    assert(backend::masked_words(parts) =~= parts);
}

/// The answer to a request that is not authorized.
pub open spec fn auth_error_view(request_id: Seq<char>) -> ReplyView {
    ReplyView {
        status: 401,
        body: error_envelope(
            request_id,
            "authentication_error"@,
            "missing or invalid bearer token"@,
        ),
        request_id: if request_id.len() > 0 && anthropic::header_value_ok(request_id) {
            Some(request_id)
        } else {
            None
        },
    }
}

pub fn auth_error_reply(request_id: &str) -> (r: Reply)
    ensures
        r@ == auth_error_view(request_id@),
{
    let error = BackendError::upstream(
        401,
        "authentication_error",
        "missing or invalid bearer token",
    );
    proof {
        lemma_auth_message_is_clean();
    }
    Reply {
        status: 401,
        body: error_envelope_json(request_id, "authentication_error", error.public_message()),
        request_id: if !request_id.is_empty() && anthropic::header_value(request_id) {
            Some(request_id.to_owned())
        } else {
            None
        },
    }
}

/// A refused request is answered with its status, an error type that clients
/// know, and its id.
pub proof fn law_refusals_are_well_formed(e: BackendErrorView, request_id: Seq<char>)
    ensures
        100 <= error_reply_view(e, request_id).status <= 999,
        error_reply_view(e, request_id).body.get_text("type"@) == Some("error"@),
        error_reply_view(e, request_id).body.get_text("request_id"@) == Some(request_id),
        error_reply_view(e, request_id).body.get("error"@) matches Some(detail)
            && detail.get_text("type"@) == Some(e.anthropic_type()) && detail.get_text("message"@)
            == Some(e.public_message()),
{
    reveal_strlit("type");
    reveal_strlit("request_id");
    reveal_strlit("error");
    reveal_strlit("message");
    assert("type"@.len() == 4 && "request_id"@.len() == 10);
    assert("error"@.len() == 5 && "message"@.len() == 7);
}

/// The body of the health check.
pub open spec fn health_view() -> JsonView {
    JsonView::Object(
        Map::<Seq<char>, JsonView>::empty().insert("status"@, JsonView::Text("ok"@)),
    )
}

pub fn health_body() -> (r: Json)
    ensures
        r@ == health_view(),
{
    let mut m = JsonMap::new();
    m.insert("status".to_owned(), Json::text("ok"));
    Json::object(m)
}

pub open spec fn model_json(m: ModelInfo) -> JsonView {
    JsonView::Object(
        Map::<Seq<char>, JsonView>::empty().insert("id"@, JsonView::Text(m.id@)).insert(
            "object"@,
            JsonView::Text(m.object@),
        ).insert("created"@, types::number(m.created as int)).insert(
            "owned_by"@,
            JsonView::Text(m.owned_by@),
        ),
    )
}

/// The body of the model list.
pub open spec fn model_list(models: Seq<ModelInfo>) -> JsonView {
    JsonView::Object(
        Map::<Seq<char>, JsonView>::empty().insert("object"@, JsonView::Text("list"@)).insert(
            "data"@,
            JsonView::Array(models.map_values(|m: ModelInfo| model_json(m))),
        ),
    )
}

pub fn model_list_body(models: &Vec<ModelInfo>) -> (r: Json)
    ensures
        r@ == model_list(models@),
{
    let ghost all = models@.map_values(|m: ModelInfo| model_json(m));
    let mut data: Vec<Json> = Vec::new();
    let mut i: usize = 0;
    while i < models.len()
        invariant
            i <= models@.len(),
            all == models@.map_values(|m: ModelInfo| model_json(m)),
            json::items_view(data@) == all.take(i as int),
        decreases models@.len() - i,
    {
        let m = &models[i];
        let mut o = JsonMap::new();
        o.insert("id".to_owned(), Json::Text(m.id.clone()));
        o.insert("object".to_owned(), Json::text(m.object));
        o.insert("created".to_owned(), Json::Number(JsonNumber::Unsigned(m.created)));
        o.insert("owned_by".to_owned(), Json::text(m.owned_by));
        let item = Json::object(o);
        proof {
            json::lemma_items_push(data@, item);
            assert(item@ == model_json(*m));
            assert(all.take(i + 1) =~= all.take(i as int).push(all[i as int]));
        }
        data.push(item);
        i = i + 1;
    }
    assert(all.take(i as int) =~= all);
    let mut list = JsonMap::new();
    list.insert("object".to_owned(), Json::text("list"));
    list.insert("data".to_owned(), Json::Array(data));
    Json::object(list)
}

pub open spec fn usage_row_json(row: UsageSnapshotRow) -> JsonView {
    JsonView::Object(
        Map::<Seq<char>, JsonView>::empty().insert("provider"@, JsonView::Text(row.provider@)).insert(
            "model"@,
            JsonView::Text(row.model@),
        ).insert("day"@, JsonView::Text(row.day@)).insert(
            "requests"@,
            types::number(row.requests as int),
        ).insert("errors"@, types::number(row.errors as int)).insert(
            "input_tokens"@,
            types::number(row.input_tokens as int),
        ).insert("output_tokens"@, types::number(row.output_tokens as int)),
    )
}

fn counter(n: u64) -> (r: Json)
    ensures
        r@ == types::number(n as int),
{
    Json::Number(JsonNumber::Unsigned(n))
}

/// The body of the usage report.
pub fn usage_body(rows: &Vec<UsageSnapshotRow>) -> (r: Json)
    ensures
        r@ == JsonView::Array(rows@.map_values(|row: UsageSnapshotRow| usage_row_json(row))),
{
    let ghost all = rows@.map_values(|row: UsageSnapshotRow| usage_row_json(row));
    let mut data: Vec<Json> = Vec::new();
    let mut i: usize = 0;
    while i < rows.len()
        invariant
            i <= rows@.len(),
            all == rows@.map_values(|row: UsageSnapshotRow| usage_row_json(row)),
            json::items_view(data@) == all.take(i as int),
        decreases rows@.len() - i,
    {
        let row = &rows[i];
        let mut o = JsonMap::new();
        o.insert("provider".to_owned(), Json::Text(row.provider.clone()));
        o.insert("model".to_owned(), Json::Text(row.model.clone()));
        o.insert("day".to_owned(), Json::Text(row.day.clone()));
        o.insert("requests".to_owned(), counter(row.requests));
        o.insert("errors".to_owned(), counter(row.errors));
        o.insert("input_tokens".to_owned(), counter(row.input_tokens));
        o.insert("output_tokens".to_owned(), counter(row.output_tokens));
        let item = Json::object(o);
        proof {
            json::lemma_items_push(data@, item);
            assert(item@ == usage_row_json(*row));
            assert(all.take(i + 1) =~= all.take(i as int).push(all[i as int]));
        }
        data.push(item);
        i = i + 1;
    }
    assert(all.take(i as int) =~= all);
    Json::Array(data)
}

// ---------------------------------------------------------------------------
// Event streams
// ---------------------------------------------------------------------------

/// The event that tells a client of an error in the stream.
pub open spec fn error_event(e: BackendErrorView) -> JsonView {
    JsonView::Object(
        types::typed("error"@, Map::empty()).insert(
            "error"@,
            JsonView::Object(
                types::typed(e.anthropic_type(), Map::empty()).insert(
                    "message"@,
                    JsonView::Text(e.public_message()),
                ),
            ),
        ),
    )
}

pub fn error_event_json(error: &BackendError) -> (r: Json)
    ensures
        r@ == error_event(error@),
{
    let mut m = types::object_with_type("error", &JsonMap::new());
    m.insert("error".to_owned(), error_detail(error.anthropic_type(), error.public_message()));
    Json::object(m)
}

/// The name of an event: its type, or `message`.
pub open spec fn event_name(event: JsonView) -> Seq<char> {
    match event.get_text("type"@) {
        Some(name) => name,
        None => "message"@,
    }
}

/// What is sent where an event cannot be written.
pub open spec fn unwritable_event() -> Seq<char> {
    "{\"type\":\"error\",\"error\":{\"type\":\"api_error\",\"message\":\"failed to encode stream event\"}}"@
}

/// One SSE frame.
pub open spec fn frame(name: Seq<char>, data: Seq<char>) -> Seq<char> {
    "event: "@ + name + "\ndata: "@ + data + "\n\n"@
}

/// The frame of an event.
pub open spec fn encoded(event: JsonView) -> Seq<char> {
    frame(
        event_name(event),
        match json::json_text(event) {
            Ok(data) => data,
            Err(_) => unwritable_event(),
        },
    )
}

/// Put a name and data into an SSE frame.
pub fn make_frame(name: &str, data: &str) -> (r: String)
    ensures
        r@ == frame(name@, data@),
{
    let mut r = text::concat3("event: ", name, "\ndata: ");
    r.append(data);
    r.append("\n\n");
    r
}

/// A client reads out of a text exactly one event, with the given name, and
/// its data spells the given value.
pub open spec fn delivers(text: Seq<char>, name: Seq<char>, event: JsonView) -> bool {
    exists|data: Seq<char>| #[trigger]
        json::spells(data, event) && stream::sse_events(text) == seq![
            SseEventView { event: Some(name), data },
        ]
}

/// Write an event as an SSE frame. A client that reads the frame gets the event
/// back, where the type is one word.
pub fn encode_event(event: &Json) -> (r: String)
    ensures
        r@ == encoded(event@),
        json::json_text(event@) is Ok && text::plain_word(event_name(event@)) ==> delivers(
            r@,
            event_name(event@),
            event@,
        ),
{
    let name = match event.get_str("type") {
        Some(name) => name,
        None => "message",
    };
    match event.to_text() {
        Ok(data) => {
            proof {
                if text::plain_word(name@) {
                    assert forall|i: int| 0 <= i < data@.len() implies (#[trigger] data@[i]) != '\n'
                        && data@[i] != '\r' by {}
                    law_frame_is_one_event(name@, data@);
                    assert(json::spells(data@, event@));
                }
            }
            make_frame(name, data.as_str())
        },
        Err(_) => make_frame(
            name,
            "{\"type\":\"error\",\"error\":{\"type\":\"api_error\",\"message\":\"failed to encode stream event\"}}",
        ),
    }
}

proof fn lemma_one_line(l: Seq<char>)
    requires
        forall|i: int| 0 <= i < l.len() ==> #[trigger] l[i] != '\n',
    ensures
        text::lines(l + seq!['\n']) == seq![text::without_cr(l)],
{
    let s = l + seq!['\n'];
    assert forall|i: int| 0 <= i < l.len() implies #[trigger] s[i] != '\n' by {
        assert(s[i] == l[i]);
    }
    text::lemma_first_of_at(s, '\n', l.len() as int);
    assert(s.take(l.len() as int) =~= l);
    assert(s.skip(l.len() as int + 1) =~= Seq::<char>::empty());
    assert(text::lines(Seq::<char>::empty()) == Seq::<Seq<char>>::empty());
    assert(text::lines(s) =~= seq![text::without_cr(l)]);
}

/// A frame holds exactly one event: a parser reads back its name and its data,
/// where the name is one word on its own and the data has no line break.
pub proof fn law_frame_is_one_event(name: Seq<char>, data: Seq<char>)
    requires
        text::plain_word(name),
        forall|i: int| 0 <= i < data.len() ==> #[trigger] data[i] != '\n' && data[i] != '\r',
    ensures
        stream::sse_events(frame(name, data)) == seq![SseEventView { event: Some(name), data }],
{
    reveal(stream::sse_events);
    reveal_strlit("event: ");
    reveal_strlit("\ndata: ");
    reveal_strlit("\n\n");
    reveal_strlit("event:");
    reveal_strlit("data:");
    reveal_strlit("data: ");
    let l1 = "event: "@ + name;
    let l2 = "data: "@ + data;
    let a = l1 + seq!['\n'];
    let b = l2 + seq!['\n'];
    let c = seq!['\n'];
    let s = frame(name, data);
    assert(s =~= a + (b + c));
    assert forall|i: int| 0 <= i < l1.len() implies #[trigger] l1[i] != '\n' by {
        if i >= 7 {
            assert(l1[i] == name[i - 7]);
            assert(!text::whitespace(name[i - 7]));
        } else {
            assert(l1[i] == "event: "@[i]);
        }
    }
    assert forall|i: int| 0 <= i < l2.len() implies #[trigger] l2[i] != '\n' by {
        if i >= 6 {
            assert(l2[i] == data[i - 6]);
        } else {
            assert(l2[i] == "data: "@[i]);
        }
    }
    lemma_one_line(l1);
    lemma_one_line(l2);
    text::lemma_lines_ending(false);
    text::lemma_lines_concat(a, b + c);
    text::lemma_lines_concat(b, c);
    assert(l1.last() == name.last());
    assert(!text::whitespace(name[name.len() - 1]));
    assert(text::without_cr(l1) == l1);
    if data.len() > 0 {
        assert(l2.last() == data[data.len() - 1]);
    } else {
        assert(l2.last() == "data: "@[5]);
    }
    assert(text::without_cr(l2) == l2);
    let empty = Seq::<char>::empty();
    let lines = seq![l1, l2, empty];
    assert(text::lines(s) =~= lines);
    lemma_three_lines(name, data, l1, l2);
}

/// The three lines of a frame make one event.
proof fn lemma_three_lines(name: Seq<char>, data: Seq<char>, l1: Seq<char>, l2: Seq<char>)
    requires
        text::plain_word(name),
        forall|i: int| 0 <= i < data.len() ==> #[trigger] data[i] != '\n' && data[i] != '\r',
        l1 == "event: "@ + name,
        l2 == "data: "@ + data,
    ensures
        stream::sse_finish(
            stream::sse_run(
                stream::sse_start(),
                seq![l1, l2, Seq::<char>::empty()],
            ),
        ) == seq![SseEventView { event: Some(name), data }],
{
    reveal_strlit("event: ");
    reveal_strlit("event:");
    reveal_strlit("data:");
    reveal_strlit("data: ");
    let empty = Seq::<char>::empty();
    let st0 = stream::sse_start();
    let r1 = seq![l1];
    let r2 = seq![l1, l2];
    let r3 = seq![l1, l2, empty];
    assert(r1.drop_last() =~= Seq::<Seq<char>>::empty());
    assert(r2.drop_last() =~= r1);
    assert(r3.drop_last() =~= r2);
    let st1 = stream::sse_run(st0, r1);
    let st2 = stream::sse_run(st0, r2);
    let st3 = stream::sse_run(st0, r3);
    assert(stream::sse_run(st0, Seq::<Seq<char>>::empty()) == st0);
    assert(st1 == stream::sse_step(st0, l1));
    assert(st2 == stream::sse_step(st1, l2));
    assert(st3 == stream::sse_step(st2, empty));
    assert("event:"@.is_prefix_of(l1)) by {
        assert(l1.subrange(0, 6) =~= "event:"@);
    }
    let rest1 = l1.skip(6);
    assert(rest1 =~= seq![' '] + name);
    assert(rest1[0] == ' ');
    assert(rest1.skip(1) =~= name);
    assert(!text::whitespace(name[0]));
    assert(!text::whitespace(name[name.len() - 1]));
    assert(text::trimmed_start(rest1) == text::trimmed_start(name));
    assert(text::trimmed(rest1) == name);
    assert(st1.event == Some(name));
    assert(!"event:"@.is_prefix_of(l2)) by {
        assert(l2[0] == "data: "@[0]);
        if "event:"@.is_prefix_of(l2) {
            assert("event:"@[0] == l2[0]);
        }
    }
    assert("data:"@.is_prefix_of(l2)) by {
        assert(l2.subrange(0, 5) =~= "data:"@);
    }
    let rest2 = l2.skip(5);
    assert(rest2 =~= seq![' '] + data);
    assert(rest2[0] == ' ');
    assert(stream::data_chunk(rest2) =~= data);
    assert(st2.data =~= data);
    assert(st2.event == Some(name));
    assert(text::trimmed_end_of(data, '\n') == data) by {
        if data.len() > 0 {
            assert(data[data.len() - 1] != '\n');
        }
    }
    assert(st3.done =~= seq![SseEventView { event: Some(name), data }]);
}

proof fn lemma_word(s: Seq<char>)
    requires
        s.len() > 0,
        text::all_from(s, |c: char| !text::whitespace(c), 0),
    ensures
        text::plain_word(s),
{
    text::lemma_all_from(s, |c: char| !text::whitespace(c), 0);
}

proof fn lemma_event_names_are_words()
    ensures
        text::plain_word("message_start"@),
        text::plain_word("content_block_start"@),
        text::plain_word("content_block_delta"@),
        text::plain_word("content_block_stop"@),
        text::plain_word("message_delta"@),
        text::plain_word("message_stop"@),
        text::plain_word("ping"@),
        text::plain_word("error"@),
{
    reveal_with_fuel(text::all_from, 20);
    reveal_strlit("message_start");
    lemma_word("message_start"@);
    reveal_strlit("content_block_start");
    lemma_word("content_block_start"@);
    reveal_strlit("content_block_delta");
    lemma_word("content_block_delta"@);
    reveal_strlit("content_block_stop");
    lemma_word("content_block_stop"@);
    reveal_strlit("message_delta");
    lemma_word("message_delta"@);
    reveal_strlit("message_stop");
    lemma_word("message_stop"@);
    reveal_strlit("ping");
    lemma_word("ping"@);
    reveal_strlit("error");
    lemma_word("error"@);
}

/// The frames of a stream reach the client: the name of every normalized event,
/// and of the event for an error, is one word.
pub proof fn law_stream_events_are_deliverable(e: StreamEventView, error: BackendErrorView)
    ensures
        text::plain_word(event_name(stream::stream_event_json(e))),
        text::plain_word(event_name(error_event(error))),
        event_name(error_event(error)) == "error"@,
{
    lemma_event_names_are_words();
    stream::law_stream_event_has_type(e);
    reveal_strlit("type");
    reveal_strlit("error");
    assert("type"@.len() == 4 && "error"@.len() == 5);
}

} // verus!
