use switchyard::gateway::backend::sanitize_message;
use switchyard::gateway::calendar::day_from_secs;
use switchyard::gateway::fallback::{
    first_fallback, is_fallback_eligible, next_fallback, retarget, FallbackStep,
};
use switchyard::gateway::http::{
    accept_message, auth_error_reply, choose_request_id, constant_time_eq, encode_event,
    error_event_json, error_reply, extract_forward_headers, health_body, is_authorized,
    is_valid_request_id, make_frame, model_list_body, usage_body, validate_request,
};
use switchyard::gateway::provider_backend::{map_provider_error, parse_request, split_model_id};
use switchyard::gateway::runtime::Host;
use switchyard::gateway::telemetry::{
    extract_complete_usage, parse_route, stream_refusal, Histogram, StreamAccount, TelemetryState,
};
use switchyard::gateway::{
    BackendError, BackendRequest, FallbackBackend, ListenConfig, ModelInfo, ProviderBackend,
};
use switchyard::json::Json;
use switchyard::providers::stream::parse_sse_buffer;
use switchyard::providers::{
    AnthropicAdapter, AuthConfig, ProviderAdapter, ProviderError, ProviderRegistry, SseEvent,
};
use switchyard::sorted::{key_of, SortedMap};

fn json(text: &str) -> Json {
    Json::parse(text).expect("json")
}

fn request(model: &str) -> BackendRequest {
    BackendRequest {
        model: model.to_string(),
        body: json(
            r#"{"model":"x","max_tokens":64,"messages":[{"role":"user","content":"hello"}]}"#,
        ),
        forward_headers: vec![("anthropic-beta".to_string(), "b".to_string())],
    }
}

fn backend(models: Vec<&str>) -> ProviderBackend<AnthropicAdapter> {
    let mut registry = ProviderRegistry::new();
    let adapter =
        AnthropicAdapter::new("alpha", "http://127.0.0.1:9", AuthConfig::NoAuth, 1000)
            .expect("adapter");
    let models: Vec<String> = models.into_iter().map(|m| m.to_string()).collect();
    let default = models.first().cloned();
    registry
        .register_adapter(adapter, models, default)
        .expect("register adapter");
    ProviderBackend::new(registry)
}

fn nanos(millis: u64) -> u64 {
    millis * 1_000_000
}

// ---------------------------------------------------------------------------
// Listening
// ---------------------------------------------------------------------------

#[test]
fn defaults_to_loopback_for_wsl_safety() {
    assert_eq!(
        ListenConfig::default().socket_addr().to_string(),
        "127.0.0.1:3456"
    );
}

#[test]
fn loopback_without_token_is_allowed() {
    let listen = ListenConfig::default();
    assert!(listen.validate(false).is_ok());
}

#[test]
fn non_loopback_without_token_is_refused() {
    let listen = ListenConfig::new(Host::V4(0, 0, 0, 0), 3456);
    assert!(listen.validate(false).is_err());
}

#[test]
fn non_loopback_with_token_is_allowed() {
    let listen = ListenConfig::new(Host::V4(0, 0, 0, 0), 3456);
    assert!(listen.validate(true).is_ok());
}

#[test]
fn loopback_is_known_in_both_families() {
    assert!(Host::V4(127, 8, 8, 8).is_loopback());
    assert!(!Host::V4(128, 0, 0, 1).is_loopback());
    assert!(Host::V6(0, 0, 0, 0, 0, 0, 0, 1).is_loopback());
    assert!(!Host::V6(0, 0, 0, 0, 0, 0, 0, 2).is_loopback());
}

#[test]
fn addresses_are_shown_in_their_short_form() {
    let shown = |host: Host| ListenConfig::new(host, 3456).socket_addr().to_string();
    assert_eq!(shown(Host::V6(0, 0, 0, 0, 0, 0, 0, 0)), "[::]:3456");
    assert_eq!(shown(Host::V6(0, 0, 0, 0, 0, 0, 0, 1)), "[::1]:3456");
    assert_eq!(
        shown(Host::V6(0xfe80, 0, 0, 0, 1, 0, 0, 0x2b)),
        "[fe80::1:0:0:2b]:3456"
    );
    assert_eq!(shown(Host::V6(1, 0, 2, 3, 0, 4, 5, 6)), "[1:0:2:3:0:4:5:6]:3456");
    assert_eq!(
        shown(Host::V6(0x2001, 0xdb8, 1, 0, 0, 4, 5, 0xffff)),
        "[2001:db8:1::4:5:ffff]:3456"
    );
    assert_eq!(shown(Host::V6(1, 2, 3, 4, 5, 6, 0, 0)), "[1:2:3:4:5:6::]:3456");
    assert_eq!(
        shown(Host::V6(0, 0, 0, 0, 0, 0xffff, 0xc0a8, 0x0105)),
        "[::ffff:192.168.1.5]:3456"
    );
    assert_eq!(Host::V6(1, 0, 0, 2, 3, 0, 0, 4).to_string(), "1::2:3:0:0:4");
    assert_eq!(shown(Host::V4(10, 0, 200, 3)), "10.0.200.3:3456");
}

// ---------------------------------------------------------------------------
// Telemetry
// ---------------------------------------------------------------------------

#[test]
fn day_from_known_epoch() {
    // 2024-01-01 00:00:00 UTC = 1704067200
    assert_eq!(day_from_secs(1704067200), "2024-01-01");
    // 2024-06-15 12:00:00 UTC = 1718452800
    assert_eq!(day_from_secs(1718452800), "2024-06-15");
    // Unix epoch
    assert_eq!(day_from_secs(0), "1970-01-01");
}

#[test]
fn leap_days_are_known() {
    assert_eq!(day_from_secs(951_782_400), "2000-02-29");
    assert_eq!(day_from_secs(951_868_800), "2000-03-01");
    assert_eq!(day_from_secs(4_107_542_399), "2100-02-28");
    assert_eq!(day_from_secs(4_107_542_400), "2100-03-01");
    assert_eq!(day_from_secs(86_399), "1970-01-01");
    assert_eq!(day_from_secs(86_400), "1970-01-02");
}

#[test]
fn later_days_have_greater_texts() {
    let days: Vec<String> = [0u64, 86_400, 951_782_400, 4_107_542_400, 253_402_300_799]
        .iter()
        .map(|secs| day_from_secs(*secs))
        .collect();
    assert_eq!(days[4], "9999-12-31");
    for day in &days {
        assert_eq!(day.len(), 10);
    }
    for i in 1..days.len() {
        assert!(days[i - 1] < days[i]);
    }
    assert_eq!(day_from_secs(253_402_300_800), "10000-01-01");
}

#[test]
fn parse_route_splits_provider_model() {
    assert_eq!(
        parse_route("kimi/kimi-k3[1m]"),
        ("kimi".to_string(), "kimi-k3[1m]".to_string())
    );
    assert_eq!(
        parse_route("noslash"),
        ("unknown".to_string(), "noslash".to_string())
    );
}

#[test]
fn extract_usage_from_response() {
    let value = json(r#"{"type":"message","usage":{"input_tokens":100,"output_tokens":50}}"#);
    assert_eq!(extract_complete_usage(&value), (100, 50));
}

#[test]
fn extract_usage_missing_fields() {
    let value = json(r#"{"type":"message"}"#);
    assert_eq!(extract_complete_usage(&value), (0, 0));
}

#[test]
fn histogram_buckets_correct() {
    let mut h = Histogram::default();
    h.observe(nanos(50)); // ≤0.1
    h.observe(nanos(300)); // ≤0.5
    h.observe(nanos(800)); // ≤1
    h.observe(nanos(1500)); // ≤2
    assert_eq!(h.b01, 1);
    assert_eq!(h.b05, 2); // 0.05 + 0.3
    assert_eq!(h.b1, 3); // + 0.8
    assert_eq!(h.b2, 4); // + 1.5
    assert_eq!(h.count, 4);
    assert_eq!(h.sum, 2_650_000_000);
}

#[test]
fn buckets_hold_their_bounds() {
    let mut h = Histogram::default();
    h.observe(nanos(100));
    h.observe(nanos(300_000) + 1);
    assert_eq!(h.b01, 1);
    assert_eq!(h.b300, 1);
    assert_eq!(h.count, 2);
}

#[test]
fn requests_are_counted_by_provider_model_and_day() {
    let mut state = TelemetryState::new();
    assert!(state.can_record("p", "m", "2024-01-01", true, 3, 4, Some(nanos(1500))));
    state.record_complete("p", "m", "2024-01-01", true, 3, 4, Some(nanos(1500)));
    state.record_complete("p", "m", "2024-01-01", false, 0, 0, None);
    state.record_complete("a", "m", "2024-01-02", true, 1, 1, None);
    let rows = state.usage_snapshot();
    assert_eq!(rows.len(), 2);
    assert_eq!((rows[0].provider.as_str(), rows[0].requests), ("a", 1));
    assert_eq!((rows[1].provider.as_str(), rows[1].requests), ("p", 2));
    assert_eq!((rows[1].errors, rows[1].input_tokens, rows[1].output_tokens), (1, 3, 4));
    assert_eq!(
        usage_body(&rows).to_text().expect("text"),
        concat_rows()
    );
    assert!(!state.can_record("p", "m", "2024-01-01", true, u64::MAX, 0, None));
}

fn concat_rows() -> String {
    let row = |p: &str, day: &str, e: u64, i: u64, o: u64, r: u64| {
        format!(
            "{{\"day\":\"{}\",\"errors\":{},\"input_tokens\":{},\"model\":\"m\",\"output_tokens\":{},\"provider\":\"{}\",\"requests\":{}}}",
            day, e, i, o, p, r
        )
    };
    format!(
        "[{},{}]",
        row("a", "2024-01-02", 0, 1, 1, 1),
        row("p", "2024-01-01", 1, 3, 4, 2)
    )
}

#[test]
fn metrics_are_exposed_as_text() {
    let mut state = TelemetryState::new();
    state.record_complete("p", "m", "2024-01-01", true, 3, 4, Some(nanos(1500)));
    state.record_complete("p", "m", "2024-01-01", false, 0, 0, None);
    let text = state.metrics_text();
    for line in [
        "switchyard_requests_total{provider=\"p\",model=\"m\",class=\"ok\"} 1\n",
        "switchyard_requests_total{provider=\"p\",model=\"m\",class=\"error\"} 1\n",
        "switchyard_tokens_total{provider=\"p\",model=\"m\",kind=\"input\"} 3\n",
        "switchyard_tokens_total{provider=\"p\",model=\"m\",kind=\"output\"} 4\n",
    ] {
        assert!(text.contains(line), "{} in {}", line, text);
    }
    assert!(text.contains("le=\"2\"} 1\n"), "{}", text);
    assert!(text.contains("le=\"1\"} 0\n"), "{}", text);
    assert!(text.contains("le=\"+Inf\"} 1\n"), "{}", text);
    assert!(text.contains("_sum{provider=\"p\",model=\"m\"} 1.5\n"), "{}", text);
}

#[test]
fn streams_are_accounted_for_once() {
    let mut account = StreamAccount::new("p/m");
    let start = json(
        r#"{"type":"message_start","message":{"usage":{"input_tokens":10,"output_tokens":0}}}"#,
    );
    assert!(account.can_take(&start));
    assert!(account.on_event(&start));
    let delta = json(r#"{"type":"message_delta","usage":{"output_tokens":12}}"#);
    assert!(!account.on_event(&delta));
    account.on_error();
    let mut state = TelemetryState::new();
    assert!(account.can_commit(&state, "2024-01-01"));
    account.commit(&mut state, "2024-01-01");
    let rows = state.usage_snapshot();
    assert_eq!(rows.len(), 1);
    assert_eq!((rows[0].input_tokens, rows[0].output_tokens), (10, 12));
    assert_eq!((rows[0].requests, rows[0].errors), (1, 1));
}

#[test]
fn usage_is_the_sum_of_what_was_recorded() {
    let mut state = TelemetryState::new();
    for n in 1..=4u64 {
        state.record_complete("p", "m", "2024-01-01", n != 3, n, 10 * n, None);
        state.record_complete("p", "other", "2024-01-01", true, 100, 100, None);
    }
    let rows = state.usage_snapshot();
    assert_eq!((rows[0].requests, rows[0].errors), (4, 1));
    assert_eq!((rows[0].input_tokens, rows[0].output_tokens), (10, 100));
}

#[test]
fn a_stream_adds_up_its_items() {
    let mut account = StreamAccount::new("p/m");
    account.on_error();
    assert!(account.first_event);
    let start = json(r#"{"type":"message_start","message":{"usage":{"input_tokens":10}}}"#);
    assert!(account.on_event(&start));
    assert!(!account.on_event(&start));
    for n in [9, 5] {
        let delta = format!(r#"{{"type":"message_delta","usage":{{"output_tokens":{}}}}}"#, n);
        assert!(!account.on_event(&json(&delta)));
    }
    assert_eq!((account.input_tokens, account.output_tokens), (20, 5));
    assert!(account.had_error);
    assert_eq!(
        stream_refusal(),
        BackendError::Unavailable("stream creation failed".to_string())
    );
}

#[test]
fn responses_are_recorded_with_their_usage() {
    let mut state = TelemetryState::new();
    let value = json(r#"{"usage":{"input_tokens":5,"output_tokens":6}}"#);
    assert!(state.record_response("p/m", "2024-01-01", Some(&value), nanos(10)));
    assert!(state.record_response("p/m", "2024-01-01", None, nanos(10)));
    let rows = state.usage_snapshot();
    assert_eq!((rows[0].requests, rows[0].errors), (2, 1));
    assert_eq!((rows[0].input_tokens, rows[0].output_tokens), (5, 6));
}

// ---------------------------------------------------------------------------
// Backend errors
// ---------------------------------------------------------------------------

#[test]
fn backend_errors_have_statuses_types_and_messages() {
    let e = BackendError::upstream(429, "rate_limit_error", "busy; token=sk-secret-value");
    assert_eq!(e.status_code(), 429);
    assert_eq!(e.anthropic_type(), "rate_limit_error");
    assert_eq!(e.public_message(), "busy; [REDACTED]");
    let e = BackendError::Unavailable("secret".to_string());
    assert_eq!((e.status_code(), e.anthropic_type()), (502, "api_error"));
    assert_eq!(e.public_message(), "upstream provider unavailable");
    let e = BackendError::Internal("secret".to_string());
    assert_eq!((e.status_code(), e.anthropic_type()), (500, "api_error"));
    assert_eq!(e.public_message(), "internal gateway error");
    let e = BackendError::ModelUnavailable("m".to_string());
    assert_eq!((e.status_code(), e.anthropic_type()), (404, "not_found_error"));
    assert_eq!(e.to_string(), "model unavailable: m");
    let e = BackendError::InvalidRequest("m".to_string());
    assert_eq!((e.status_code(), e.anthropic_type()), (400, "invalid_request_error"));
    assert_eq!(
        BackendError::upstream(418, "novel", "m").anthropic_type(),
        "api_error"
    );
}

#[test]
fn sanitizing_twice_changes_nothing() {
    let once = sanitize_message("a  SK-key\tTOKEN=x api_key=y\nApiKey=z bearer=w  end");
    assert_eq!(
        once,
        "a [REDACTED] [REDACTED] [REDACTED] [REDACTED] [REDACTED] end"
    );
    assert_eq!(sanitize_message(&once), once);
    assert_eq!(sanitize_message("risk-y stays"), "risk-y stays");
}

// ---------------------------------------------------------------------------
// Routing
// ---------------------------------------------------------------------------

#[test]
fn models_are_listed_with_their_provider() {
    let b = backend(vec!["model-one"]);
    let models = b.models();
    assert_eq!(models[0], ModelInfo::new("alpha/model-one"));
    let body = model_list_body(&models).to_value();
    assert_eq!(body["object"], "list");
    assert_eq!(body["data"][0]["id"], "alpha/model-one");
    assert_eq!(body["data"][0]["object"], "model");
    assert_eq!(body["data"][0]["created"], 0);
    assert_eq!(body["data"][0]["owned_by"], "switchyard");
}

#[test]
fn requests_are_routed_to_the_resolved_model() {
    let b = backend(vec!["model-one[1m]"]);
    let routed = b.route(request("alpha/model-one[1m]")).expect("routed");
    assert_eq!(routed.request.model, "model-one");
    assert_eq!(routed.adapter.provider_id(), "alpha");
    assert_eq!(
        routed.request.forward_headers,
        vec![("anthropic-beta".to_string(), "b".to_string())]
    );
    let unknown = b.route(request("missing/model")).err().expect("unknown");
    assert_eq!(unknown.status_code(), 404);
    let unknown = b.route(request("alpha/model-two")).err().expect("unknown");
    assert_eq!(unknown.status_code(), 404);
    let malformed = b.route(request("nomodel")).err().expect("malformed");
    assert_eq!(malformed.status_code(), 404);
}

#[test]
fn model_ids_are_split_at_the_first_slash() {
    assert_eq!(split_model_id("p/m/n").expect("split"), ("p", "m/n"));
    assert!(split_model_id("p/").is_err());
    assert!(split_model_id("/m").is_err());
    assert!(split_model_id("pm").is_err());
}

#[test]
fn bodies_are_parsed_for_the_upstream_model() {
    let r = request("x");
    let parsed = parse_request(&r.body, "model-one").expect("parsed");
    assert_eq!(parsed.model, "model-one");
    assert_eq!(parsed.max_tokens, 64);
    assert!(matches!(
        parse_request(&json("[]"), "m"),
        Err(BackendError::InvalidRequest(_))
    ));
}

#[test]
fn provider_errors_are_mapped_for_clients() {
    let upstream = map_provider_error(ProviderError::Upstream {
        status: 429,
        code: "rate_limit_error".to_string(),
        message: "busy sk-x".to_string(),
        provider_id: None,
    });
    assert_eq!(upstream.status_code(), 429);
    assert_eq!(upstream.public_message(), "busy [REDACTED]");
    let missing = map_provider_error(ProviderError::ProviderNotFound("p".to_string()));
    assert_eq!(missing.status_code(), 404);
    let transport = map_provider_error(ProviderError::Transport {
        provider: "p".to_string(),
        message: "m".to_string(),
    });
    assert_eq!(transport.status_code(), 502);
}

// ---------------------------------------------------------------------------
// Fallbacks
// ---------------------------------------------------------------------------

#[test]
fn eligible_failures_are_tried_elsewhere_in_order() {
    let mut routes: SortedMap<Vec<String>> = SortedMap::new();
    routes.insert(key_of("a/m"), vec!["b/m".to_string(), "c/m".to_string()]);
    let b = FallbackBackend::new(7u8, routes);
    assert_eq!(*b.inner(), 7);
    let targets = b.targets("a/m");
    assert_eq!(
        targets,
        Some(vec!["b/m".to_string(), "c/m".to_string()])
    );
    assert_eq!(b.targets("x/m"), None);

    let busy = BackendError::upstream(503, "api_error", "first");
    assert_eq!(
        first_fallback(&targets, busy.clone()),
        FallbackStep::Try {
            target: "b/m".to_string(),
            tried: 1
        }
    );
    let list = targets.expect("targets");
    assert_eq!(
        next_fallback(&list, 1, BackendError::Unavailable("x".to_string())),
        FallbackStep::Try {
            target: "c/m".to_string(),
            tried: 2
        }
    );
    let last = BackendError::upstream(500, "api_error", "last");
    assert_eq!(next_fallback(&list, 2, last.clone()), FallbackStep::Fail(last));
    assert_eq!(first_fallback(&None, busy.clone()), FallbackStep::Fail(busy));
    assert_eq!(retarget(&request("a/m"), "b/m").model, "b/m");
}

#[test]
fn client_errors_pass_through() {
    let bad = BackendError::InvalidRequest("m".to_string());
    assert!(!is_fallback_eligible(&bad));
    assert_eq!(
        first_fallback(&Some(vec!["b/m".to_string()]), bad.clone()),
        FallbackStep::Fail(bad)
    );
    assert!(!is_fallback_eligible(&BackendError::ModelUnavailable("m".to_string())));
    assert!(!is_fallback_eligible(&BackendError::upstream(404, "x", "m")));
    assert!(is_fallback_eligible(&BackendError::upstream(529, "x", "m")));
}

// ---------------------------------------------------------------------------
// HTTP
// ---------------------------------------------------------------------------

#[test]
fn health_is_ok() {
    assert_eq!(health_body().to_text().expect("text"), r#"{"status":"ok"}"#);
}

#[test]
fn valid_request_ids_are_echoed_and_others_replaced() {
    assert_eq!(choose_request_id(Some("my-custom-id-123")), "my-custom-id-123");
    let long = "a".repeat(200);
    let id = choose_request_id(Some(&long));
    assert_ne!(id, long);
    assert_eq!(id.len(), 36);
    assert_eq!(id.matches('-').count(), 4);
    assert_ne!(choose_request_id(None), choose_request_id(None));
    assert!(is_valid_request_id(&"a".repeat(128)));
    assert!(!is_valid_request_id(&"a".repeat(129)));
    assert!(!is_valid_request_id(""));
    assert!(is_valid_request_id("a b~!"));
    assert!(!is_valid_request_id("a\tb"));
    assert!(!is_valid_request_id("caf\u{e9}"));
}

#[test]
fn only_the_bearer_token_opens_the_api() {
    let token = Some("secret");
    assert!(is_authorized(token, "/v1/messages", Some("Bearer secret")));
    assert!(!is_authorized(token, "/v1/messages", Some("Bearer secres")));
    assert!(!is_authorized(token, "/v1/messages", Some("Bearer secret2")));
    assert!(!is_authorized(token, "/v1/messages", Some("secret")));
    assert!(!is_authorized(token, "/v1/messages", None));
    assert!(is_authorized(token, "/health", None));
    assert!(is_authorized(None, "/v1/messages", None));
}

#[test]
fn comparison_ignores_zeros_beyond_the_end() {
    assert!(constant_time_eq(b"", b""));
    assert!(constant_time_eq(b"abc", b"abc"));
    assert!(!constant_time_eq(b"abc", b"abd"));
    assert!(!constant_time_eq(b"abc", b"abc\0"));
    assert!(!constant_time_eq(b"abc", b"abcd"));
    let mut padded = b"abc".to_vec();
    padded.resize(259, 0);
    assert!(constant_time_eq(b"abc", &padded));
}

#[test]
fn refused_requests_are_answered_with_an_error_envelope() {
    let e = validate_request(&json(r#"{"max_tokens":64,"messages":[]}"#)).expect_err("no model");
    let reply = error_reply(&e, "err-req-42");
    assert_eq!(reply.status, 400);
    assert_eq!(reply.request_id.as_deref(), Some("err-req-42"));
    let body = reply.body.to_value();
    assert_eq!(body["request_id"], "err-req-42");
    assert_eq!(body["type"], "error");
    assert_eq!(body["error"]["type"], "invalid_request_error");
    assert_eq!(body["error"]["message"], "model is required");
    let odd = error_reply(&BackendError::upstream(99, "api_error", "m"), "a\nb");
    assert_eq!(odd.status, 502);
    assert_eq!(odd.request_id, None);
    assert_eq!(odd.body.to_value()["request_id"], "a\nb");
}

#[test]
fn unauthorized_requests_are_answered() {
    let reply = auth_error_reply("id");
    assert_eq!(reply.status, 401);
    assert_eq!(reply.request_id.as_deref(), Some("id"));
    let body = reply.body.to_value();
    assert_eq!(body["error"]["type"], "authentication_error");
    assert_eq!(body["error"]["message"], "missing or invalid bearer token");
    assert_eq!(auth_error_reply("").request_id, None);
}

#[test]
fn messages_are_accepted_or_refused() {
    let text = r#"{"model":" kimi/kimi-k3[1m] ","stream":true,"messages":[]}"#;
    let (request, streaming) =
        accept_message(Ok(json(text)), Some("prompt-caching-2024-07-31")).expect("accepted");
    assert!(streaming);
    assert_eq!(request.model, "kimi/kimi-k3[1m]");
    assert_eq!(request.body.to_value(), json(text).to_value());
    assert_eq!(
        request.forward_headers,
        vec![(
            "anthropic-beta".to_string(),
            "prompt-caching-2024-07-31".to_string()
        )]
    );
    assert!(extract_forward_headers(None).is_empty());
    let refused = |payload: Result<Json, String>| {
        accept_message(payload, None)
            .expect_err("refused")
            .public_message()
    };
    assert_eq!(
        refused(Err("not json".to_string())),
        "invalid JSON request: not json"
    );
    assert_eq!(refused(Ok(json("[]"))), "request body must be a JSON object");
    assert_eq!(refused(Ok(json(r#"{"model":"  "}"#))), "model is required");
    assert_eq!(refused(Ok(json(r#"{"model":5}"#))), "model is required");
    assert_eq!(
        refused(Ok(json(r#"{"model":"m","stream":"true"}"#))),
        "stream must be a boolean"
    );
    assert_eq!(
        refused(Ok(json(r#"{"model":"m","stream":null}"#))),
        "stream must be a boolean"
    );
}

#[test]
fn events_are_encoded_as_frames() {
    let stop = encode_event(&json(r#"{"type":"message_stop"}"#));
    assert_eq!(stop, "event: message_stop\ndata: {\"type\":\"message_stop\"}\n\n");
    assert_eq!(
        encode_event(&json(r#"{"a":1}"#)),
        "event: message\ndata: {\"a\":1}\n\n"
    );
    assert_eq!(
        parse_sse_buffer(&stop),
        vec![SseEvent {
            event: Some("message_stop".to_string()),
            data: "{\"type\":\"message_stop\"}".to_string(),
        }]
    );
    assert_eq!(make_frame("a", "b"), "event: a\ndata: b\n\n");
    let error = BackendError::upstream(
        529,
        "overloaded_error",
        "provider overloaded; api_key=sk-secret-value",
    );
    let frame = encode_event(&error_event_json(&error));
    assert!(frame.starts_with("event: error\n"));
    assert!(frame.contains("overloaded_error"));
    assert!(!frame.contains("sk-secret-value"));
}
