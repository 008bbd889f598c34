use switchyard::json::{Json, JsonMap, JsonNumber};
use switchyard::providers::anthropic::{
    extract_retry_after, extract_retry_after_from_error, is_retryable, parse_retry_after_sentinel,
    read_response, sanitize_error_message, stash_retry_after, strip_retry_after_sentinel, Next,
    StreamReader,
};
use switchyard::providers::config::{
    validate_env_var, validate_header_name, validate_model_id, validate_provider_id, BaseUrl,
    ConfigError,
};
use switchyard::providers::credentials::{
    build_auth_header_value, is_sensitive, load_credential, redact_headers, redact_headers_btree,
    redact_headers_for, Headers,
};
use switchyard::providers::decode::{FromJson, ToJson};
use switchyard::providers::error::{map_status_to_code, sanitize_body_snippet};
use switchyard::providers::registry::model_without_context_suffix;
use switchyard::providers::stream::{normalize_sse_event, parse_sse_buffer, Delta, SseParser};
use switchyard::providers::types::{
    Message, MessageContent, SystemPrompt, ToolInputAccumulator,
};
use switchyard::providers::{
    AnthropicAdapter, AuthConfig, ContentBlock, MessagesRequest, MessagesResponse,
    ModelCapabilities, ModelConfig, ProviderAdapter, ProviderConfig, ProviderError,
    ProviderRegistry, RetryConfig, SseEvent, StopReason, StreamEvent, Tool, ToolChoice, Usage,
};
use switchyard::sorted::key_of;

// ---------------------------------------------------------------------------
// Fixtures
// ---------------------------------------------------------------------------

fn url(s: &str) -> BaseUrl {
    BaseUrl::parse(s).expect("valid url")
}

fn model(id: &str) -> ModelConfig {
    ModelConfig {
        id: id.to_string(),
        display_name: None,
        context_window: None,
        max_output_tokens: None,
        capabilities: ModelCapabilities::default(),
    }
}

fn provider(id: &str, base_url: &str) -> ProviderConfig {
    ProviderConfig {
        id: id.to_string(),
        base_url: url(base_url),
        auth: AuthConfig::NoAuth,
        models: vec![],
        timeout_ms: None,
        connect_timeout_ms: None,
        read_timeout_ms: None,
        default_model: None,
        extra_headers: vec![],
        retry: None,
    }
}

fn cfg(id: &str, models: Vec<&str>) -> ProviderConfig {
    let mut c = provider(id, "https://example.test");
    c.models = models.into_iter().map(model).collect();
    c.read_timeout_ms = Some(2000);
    c
}

fn bearer_auth(env_var: &str) -> AuthConfig {
    AuthConfig::Header {
        header: "Authorization".to_string(),
        env_var: env_var.to_string(),
        prefix: Some("Bearer ".to_string()),
    }
}

fn header<'a>(headers: &'a Headers, name: &str) -> Option<&'a str> {
    headers.get(&key_of(name)).map(|s| s.as_str())
}

fn sent_header<'a>(headers: &'a reqwest::header::HeaderMap, name: &str) -> Option<&'a str> {
    headers.get(name).map(|v| v.to_str().expect("visible"))
}

fn pairs(list: &[(&str, &str)]) -> Vec<(String, String)> {
    list.iter()
        .map(|(n, v)| (n.to_string(), v.to_string()))
        .collect()
}

fn parsed(text: &str) -> Json {
    Json::parse(text).expect("json")
}

fn value(text: &str) -> serde_json::Value {
    serde_json::from_str(text).expect("json")
}

fn adapter() -> AnthropicAdapter {
    AnthropicAdapter::new("prov", "http://127.0.0.1:9/", AuthConfig::NoAuth, 2000).expect("adapter")
}

fn sample_request(model: &str, stream: bool) -> MessagesRequest {
    MessagesRequest {
        model: model.to_string(),
        messages: vec![Message {
            role: "user".to_string(),
            content: MessageContent::Text("hello".to_string()),
            extra: JsonMap::new(),
        }],
        max_tokens: 256,
        system: None,
        temperature: None,
        top_p: None,
        top_k: None,
        stream: Some(stream),
        stop_sequences: None,
        tools: None,
        tool_choice: None,
        metadata: None,
        extra: JsonMap::new(),
        forward_headers: vec![],
    }
}

fn upstream(status: u16, message: &str) -> ProviderError {
    ProviderError::Upstream {
        status,
        code: "api_error".to_string(),
        message: message.to_string(),
        provider_id: Some("prov".to_string()),
    }
}

// ---------------------------------------------------------------------------
// Configuration
// ---------------------------------------------------------------------------

#[test]
fn auth_none_valid() {
    assert!(AuthConfig::NoAuth.validate().is_ok());
    assert_eq!(AuthConfig::default(), AuthConfig::NoAuth);
}

#[test]
fn header_auth_valid() {
    let a = AuthConfig::Header {
        header: "Authorization".to_string(),
        env_var: "MY_TOKEN".to_string(),
        prefix: Some("Bearer ".to_string()),
    };
    assert!(a.validate().is_ok());
}

#[test]
fn rejects_empty_provider_id() {
    let cfg = provider("", "https://example.com");
    assert!(cfg.validate().is_err());
}

#[test]
fn rejects_surrounding_whitespace_in_provider_and_model_ids() {
    let p = provider(" p1 ", "https://example.com");
    assert!(p.validate().is_err());

    let mut m = provider("p1", "https://example.com");
    m.models = vec![model(" m1 ")];
    assert!(m.validate().is_err());
}

#[test]
fn normalizes_base_url() {
    let cfg = provider("p1", "https://example.com/");
    assert_eq!(cfg.normalized_base_url(), "https://example.com");
}

#[test]
fn malformed_provider_id_rejected() {
    let cfg = provider("bad id with spaces", "https://example.test");
    assert!(cfg.validate().is_err());
}

#[test]
fn malformed_base_url_rejected() {
    let cfg = provider("prov-1", "ftp://example.test");
    assert!(cfg.validate().is_err());
}

#[test]
fn duplicate_model_id_rejected() {
    let mut cfg = provider("prov-1", "https://example.test");
    cfg.models = vec![model("m1"), model("m1")];
    assert!(cfg.validate().is_err());
}

#[test]
fn config_rejects_zero_connect_timeout() {
    let mut cfg = provider("p1", "https://example.test");
    cfg.connect_timeout_ms = Some(0);
    cfg.read_timeout_ms = Some(5000);
    assert!(cfg.validate().is_err());
}

#[test]
fn config_rejects_zero_read_timeout() {
    let mut cfg = provider("p1", "https://example.test");
    cfg.connect_timeout_ms = Some(5000);
    cfg.read_timeout_ms = Some(0);
    assert!(cfg.validate().is_err());
}

#[test]
fn config_accepts_valid_connect_and_read_timeouts() {
    let mut cfg = provider("p1", "https://example.test");
    cfg.connect_timeout_ms = Some(5000);
    cfg.read_timeout_ms = Some(120000);
    assert!(cfg.validate().is_ok());
}

#[test]
fn each_config_defect_has_its_error() {
    assert_eq!(
        validate_provider_id("a/b"),
        Err(ConfigError::InvalidProviderId("a/b".to_string()))
    );
    assert!(validate_provider_id("A-z_0.9").is_ok());
    assert_eq!(
        validate_model_id("m\u{7f}"),
        Err(ConfigError::InvalidModelId("m\u{7f}".to_string()))
    );
    assert!(validate_model_id("kimi-k3[1m]").is_ok());
    assert!(validate_env_var(" MY_TOKEN ").is_ok());
    assert_eq!(
        validate_env_var("1TOKEN"),
        Err(ConfigError::InvalidEnvVar("1TOKEN".to_string()))
    );
    assert!(validate_header_name(" x-api-key ").is_ok());
    assert_eq!(
        validate_header_name("x api"),
        Err(ConfigError::InvalidHeaderName)
    );
    assert_eq!(
        AuthConfig::Header {
            header: "  ".to_string(),
            env_var: "1".to_string(),
            prefix: None,
        }
        .validate(),
        Err(ConfigError::InvalidHeaderName)
    );

    let mut c = provider("p", "https://example.test");
    c.timeout_ms = Some(0);
    assert_eq!(c.validate(), Err(ConfigError::InvalidTimeout(0)));
    c.timeout_ms = None;
    c.default_model = Some("m".to_string());
    assert_eq!(
        c.validate(),
        Err(ConfigError::DefaultModelNotFound("m".to_string()))
    );
    c.default_model = None;
    c.extra_headers = pairs(&[("bad header", "v")]);
    assert_eq!(c.validate(), Err(ConfigError::InvalidHeaderName));
    c.extra_headers = vec![];
    c.models = vec![model("m"), model("m")];
    assert_eq!(
        c.validate(),
        Err(ConfigError::DuplicateModelId {
            provider: "p".to_string(),
            model: "m".to_string(),
        })
    );
    assert_eq!(
        provider("p", "ftp://example.test").validate(),
        Err(ConfigError::InvalidBaseUrl(
            "unsupported scheme 'ftp' in ftp://example.test/".to_string()
        ))
    );
}

#[test]
fn config_errors_in_words() {
    assert_eq!(
        ConfigError::InvalidTimeout(0).to_string(),
        "timeout_ms must be > 0, got 0"
    );
    assert_eq!(
        ConfigError::DuplicateModelId {
            provider: "p".to_string(),
            model: "m".to_string(),
        }
        .to_string(),
        "duplicate model id in provider p: m"
    );
    assert_eq!(
        ConfigError::DefaultModelNotFound("m".to_string()).to_string(),
        "default_model 'm' not found in provider models"
    );
}

#[test]
fn base_urls_are_parsed_and_normalized() {
    let u = url("HTTPS://Example.COM:443/a/../b");
    assert_eq!(u.as_str(), "https://example.com/b");
    assert_eq!(u.scheme(), "https");
    assert!(u.has_host());
    assert!(!url("mailto:someone").has_host());
    assert!(BaseUrl::parse("no url").is_err());
    assert_eq!(
        url("https://api.moonshot.ai/anthropic").as_str(),
        "https://api.moonshot.ai/anthropic"
    );
    assert_eq!(url("https://api.meta.ai").as_str(), "https://api.meta.ai/");
}

// ---------------------------------------------------------------------------
// Credentials
// ---------------------------------------------------------------------------

#[test]
fn redacts_authorization() {
    let h = pairs(&[
        ("Authorization", "Bearer secret123"),
        ("Content-Type", "application/json"),
    ]);
    let redacted = redact_headers(&h);
    assert_eq!(header(&redacted, "Authorization"), Some("[REDACTED]"));
    assert_eq!(header(&redacted, "Content-Type"), Some("application/json"));
}

#[test]
fn redacts_case_insensitive() {
    let h = pairs(&[("x-api-key", "sk-123")]);
    let redacted = redact_headers(&h);
    assert_eq!(header(&redacted, "x-api-key"), Some("[REDACTED]"));
}

#[test]
fn build_header_with_prefix() {
    let auth = AuthConfig::Header {
        header: "Authorization".to_string(),
        env_var: "TOK".to_string(),
        prefix: Some("Bearer ".to_string()),
    };
    let (k, v) = build_auth_header_value(&auth, "abc").expect("header");
    assert_eq!(k, "Authorization");
    assert_eq!(v, "Bearer abc");
}

#[test]
fn load_missing_env_returns_error() {
    let auth = AuthConfig::Header {
        header: "x-api-key".to_string(),
        env_var: "SWITCHYARD_TEST_MISSING_TOKEN_XYZ_123".to_string(),
        prefix: None,
    };
    let res = load_credential(&auth, None);
    assert!(res.is_err());
    let err = res.expect_err("should err");
    let msg = err.to_string();
    assert!(!msg.contains("sk-"));
    assert!(msg.contains("SWITCHYARD_TEST_MISSING_TOKEN_XYZ_123"));
}

#[test]
fn redact_headers_removes_secrets() {
    let headers = pairs(&[
        ("Authorization", "Bearer secret123"),
        ("x-api-key", "sk-xyz"),
        ("content-type", "application/json"),
    ]);
    let redacted = redact_headers(&headers);
    assert_eq!(header(&redacted, "Authorization"), Some("[REDACTED]"));
    assert_eq!(header(&redacted, "x-api-key"), Some("[REDACTED]"));
    assert_eq!(header(&redacted, "content-type"), Some("application/json"));
}

#[test]
fn the_adapter_checks_and_shows_requests() {
    let mut request = sample_request("m1", false);
    request.messages = vec![];
    request.max_tokens = 0;
    assert_eq!(
        adapter().validate_request(&request),
        Err(ProviderError::Config(
            "invalid request: messages must not be empty".to_string()
        ))
    );
    assert_eq!(
        adapter().validate_request(&sample_request("m1", false)),
        Ok(())
    );
    let wire = adapter().wire_request_json(&request).expect("wire");
    assert_eq!(wire.to_text(), request.to_json().to_text());
}

#[test]
fn redaction_shows_nothing_of_a_secret() {
    let one = redact_headers(&pairs(&[("AUTHORIZATION", "a"), ("accept", "x")]));
    let other = redact_headers(&pairs(&[("AUTHORIZATION", "b"), ("accept", "x")]));
    assert_eq!(one.entries, other.entries);
    assert!(is_sensitive("Proxy-Authorization") == is_sensitive("proxy-authorization"));
    assert!(is_sensitive("X-API-Key"));
    assert!(is_sensitive("X-Signing-Key"));
    assert!(is_sensitive("x-client-SECRET"));
    assert!(is_sensitive("csrf-token-id"));
    assert!(!is_sensitive("accept"));
    let again = redact_headers_btree(&one);
    assert_eq!(again.entries, one.entries);
}

#[test]
fn the_header_of_the_credential_is_redacted_too() {
    let auth = AuthConfig::Header {
        header: "X-Custom".to_string(),
        env_var: "TOK".to_string(),
        prefix: None,
    };
    let headers = pairs(&[("x-custom", "secret"), ("accept", "x")]);
    let redacted = redact_headers_for(&auth, &headers);
    assert_eq!(header(&redacted, "x-custom"), Some("[REDACTED]"));
    assert_eq!(header(&redacted, "accept"), Some("x"));
    let mut a = adapter();
    a.auth = auth;
    let logged = a.redact_for_log(&pairs(&[("x-custom", "secret"), ("accept", "caf\u{e9}")]));
    assert_eq!(header(&logged, "x-custom"), Some("[REDACTED]"));
    assert_eq!(header(&logged, "accept"), Some("[non-utf8]"));
}

#[test]
fn blank_credentials_count_as_missing() {
    let auth = bearer_auth("TOK");
    assert_eq!(
        load_credential(&auth, Some("abc".to_string())).expect("loaded"),
        Some("abc".to_string())
    );
    assert!(matches!(
        load_credential(&auth, Some("  ".to_string())),
        Err(ProviderError::AuthMissing { .. })
    ));
    assert_eq!(
        load_credential(&AuthConfig::NoAuth, None).expect("no auth"),
        None
    );
    assert_eq!(build_auth_header_value(&AuthConfig::NoAuth, "abc"), None);
}

// ---------------------------------------------------------------------------
// Registry
// ---------------------------------------------------------------------------

#[test]
fn registry_works_without_discovery() {
    let mut reg = ProviderRegistry::new();
    reg.register_anthropic(cfg("prov-a", vec!["model-1", "model-2"]))
        .expect("register");
    assert!(reg.has_provider("prov-a"));
    let h = reg.resolve("prov-a", Some("model-1")).expect("resolve");
    assert_eq!(h.model_id, "model-1");
    assert!(reg.resolve("prov-a", Some("unknown")).is_err());
}

#[test]
fn empty_model_list_accepts_any_id() {
    let mut reg = ProviderRegistry::new();
    reg.register_anthropic(cfg("prov-b", vec![]))
        .expect("register");
    let h = reg
        .resolve("prov-b", Some("hand-configured-model"))
        .expect("resolve any");
    assert_eq!(h.model_id, "hand-configured-model");
}

#[test]
fn duplicate_provider_rejected() {
    let mut reg = ProviderRegistry::new();
    reg.register_anthropic(cfg("dup", vec![])).expect("first");
    let err = reg
        .register_anthropic(cfg("dup", vec![]))
        .expect_err("duplicate");
    assert!(err.to_string().contains("duplicate"));
}

#[test]
fn default_model_fallback() {
    let mut c = cfg("prov-c", vec!["m1", "m2"]);
    c.default_model = Some("m1".to_string());
    let mut reg = ProviderRegistry::new();
    reg.register_anthropic(c).expect("register");
    let h = reg.resolve("prov-c", None).expect("default");
    assert_eq!(h.model_id, "m1");
}

#[test]
fn one_million_context_suffix_resolves_as_an_alias() {
    let mut reg = ProviderRegistry::new();
    reg.register_anthropic(cfg("prov-d", vec!["model[1m]"]))
        .expect("register");

    let base = reg.resolve("prov-d", Some("model")).expect("base alias");
    assert_eq!(base.model_id, "model");

    let suffixed = reg
        .resolve("prov-d", Some("model[1m]"))
        .expect("suffixed model");
    assert_eq!(suffixed.model_id, "model");
}

#[test]
fn registry_rejects_duplicate_provider() {
    let mut reg = ProviderRegistry::new();
    let cfg1 = provider("dup", "https://example.test");
    let cfg2 = cfg1.clone();
    reg.register_anthropic(cfg1).expect("first");
    let err = reg
        .register_anthropic(cfg2)
        .expect_err("duplicate should fail");
    assert!(err.to_string().contains("duplicate"));
}

#[test]
fn no_discovery_needed_any_model_id_accepted_when_empty() {
    let mut reg = ProviderRegistry::new();
    reg.register_anthropic(provider("generic-prov", "https://example.test"))
        .expect("register");
    let h = reg
        .resolve("generic-prov", Some("arbitrary-model-xyz"))
        .expect("resolve any");
    assert_eq!(h.model_id, "arbitrary-model-xyz");
}

#[test]
fn registries_list_what_they_hold() {
    let reg = ProviderRegistry::from_configs(vec![
        cfg("zeta", vec!["m1"]),
        cfg("alpha", vec!["m2", "m3"]),
    ])
    .expect("registry");
    assert_eq!(reg.len(), 2);
    assert!(!reg.is_empty());
    assert_eq!(reg.provider_ids(), vec!["alpha", "zeta"]);
    assert_eq!(
        reg.model_ids("alpha").expect("models"),
        ["m2".to_string(), "m3".to_string()]
    );
    assert!(reg.model_ids("other").is_none());
    assert_eq!(reg.adapter("zeta").expect("adapter").provider_id(), "zeta");
    assert!(matches!(
        reg.resolve("other", Some("m1")),
        Err(ProviderError::ProviderNotFound(_))
    ));
    assert!(matches!(
        reg.resolve("zeta", Some("m9")),
        Err(ProviderError::ModelNotFound { .. })
    ));
    let none: ProviderRegistry<AnthropicAdapter> = ProviderRegistry::new();
    assert!(none.is_empty());
    assert!(matches!(
        ProviderRegistry::from_configs(vec![provider("bad id", "https://example.test")]),
        Err(ProviderError::Config(_))
    ));
}

#[test]
fn context_suffixes_are_cut_in_any_case() {
    assert_eq!(model_without_context_suffix("kimi-k3[1m]"), "kimi-k3");
    assert_eq!(model_without_context_suffix("kimi-k3[1M]"), "kimi-k3");
    assert_eq!(model_without_context_suffix("kimi-k3"), "kimi-k3");
    assert_eq!(model_without_context_suffix("[1m]x"), "[1m]x");
}

// ---------------------------------------------------------------------------
// Streams
// ---------------------------------------------------------------------------

#[test]
fn parses_text_delta_stream() {
    let sse = "event: message_start\ndata: {\"type\":\"message_start\",\"message\":{\"id\":\"msg_1\",\"model\":\"m1\",\"usage\":{\"input_tokens\":5,\"output_tokens\":0}}}\n\nevent: content_block_start\ndata: {\"type\":\"content_block_start\",\"index\":0,\"content_block\":{\"type\":\"text\",\"text\":\"\"}}\n\nevent: content_block_delta\ndata: {\"type\":\"content_block_delta\",\"index\":0,\"delta\":{\"type\":\"text_delta\",\"text\":\"hello\"}}\n\nevent: content_block_stop\ndata: {\"type\":\"content_block_stop\",\"index\":0}\n\nevent: message_delta\ndata: {\"type\":\"message_delta\",\"delta\":{\"stop_reason\":\"end_turn\"},\"usage\":{\"output_tokens\":3}}\n\nevent: message_stop\ndata: {\"type\":\"message_stop\"}\n\n";
    let raw = parse_sse_buffer(sse);
    assert_eq!(raw.len(), 6);
    let norm: Vec<_> = raw.iter().filter_map(normalize_sse_event).collect();
    assert_eq!(norm.len(), 6);
    assert!(matches!(norm[0], StreamEvent::MessageStart { .. }));
    assert!(matches!(norm[2], StreamEvent::ContentBlockDelta { .. }));
    assert!(matches!(norm[5], StreamEvent::MessageStop));
}

#[test]
fn parses_tool_input_deltas() {
    let sse = "event: content_block_delta\ndata: {\"type\":\"content_block_delta\",\"index\":1,\"delta\":{\"type\":\"input_json_delta\",\"partial_json\":\"{\\\"q\\\":\"}}\n\nevent: content_block_delta\ndata: {\"type\":\"content_block_delta\",\"index\":1,\"delta\":{\"type\":\"input_json_delta\",\"partial_json\":\" \\\"hi\\\"}\"}}\n\n";
    let raw = parse_sse_buffer(sse);
    let norm: Vec<_> = raw.iter().filter_map(normalize_sse_event).collect();
    assert_eq!(norm.len(), 2);
    for ev in &norm {
        if let StreamEvent::ContentBlockDelta {
            delta: Delta::InputJsonDelta { partial_json },
            ..
        } = ev
        {
            assert!(!partial_json.is_empty());
        } else {
            panic!("expected input_json delta");
        }
    }
}

#[test]
fn incremental_parser() {
    let mut p = SseParser::new();
    let chunks = [
        "event: content_block_delta\ndata: {\"type\":\"content_block_delta\",\"index\":0,\"delta\":{\"type\":\"text_delta\",\"text\":\"hel",
        "lo\"}}\n\nevent: message_stop\ndata: {\"type\":\"message_stop\"}\n\n",
    ];
    let mut events = Vec::new();
    for c in chunks {
        events.extend(p.feed(c.as_bytes()));
    }
    assert_eq!(events.len(), 2);
    let norm: Vec<_> = events.iter().filter_map(normalize_sse_event).collect();
    assert_eq!(norm.len(), 2);
}

#[test]
fn frames_may_be_cut_anywhere() {
    let text = "event: a\r\ndata: 1\r\ndata: 2\r\n\r\n: note\n\ndata: 3\n\n\ndata: rest";
    let whole = parse_sse_buffer(text);
    assert_eq!(
        whole,
        vec![
            SseEvent {
                event: Some("a".to_string()),
                data: "1\n2".to_string(),
            },
            SseEvent {
                event: None,
                data: "3".to_string(),
            },
            SseEvent {
                event: None,
                data: "rest".to_string(),
            },
        ]
    );
    for cut in 0..text.len() {
        let mut p = SseParser::new();
        let mut events = p.feed(text[..cut].as_bytes());
        events.extend(p.feed(text[cut..].as_bytes()));
        events.extend(p.flush());
        assert_eq!(events, whole, "cut at {}", cut);
    }
}

#[test]
fn bytes_that_are_no_text_are_replaced() {
    let mut p = SseParser::new();
    let events = p.feed(b"data: a\xffb\n\n");
    assert_eq!(events[0].data, "a\u{fffd}b");
}

#[test]
fn unrecognized_frames_are_left_out() {
    let event = |name: Option<&str>, data: &str| SseEvent {
        event: name.map(|n| n.to_string()),
        data: data.to_string(),
    };
    assert_eq!(normalize_sse_event(&event(None, "{\"type\":\"novel\"}")), None);
    assert_eq!(normalize_sse_event(&event(None, "not json")), None);
    assert_eq!(
        normalize_sse_event(&event(Some("ping"), "")),
        Some(StreamEvent::Ping)
    );
    assert!(matches!(
        normalize_sse_event(&event(None, "{\"type\":\"novel\",\"error\":{}}")),
        Some(StreamEvent::Error { .. })
    ));
    assert!(matches!(
        normalize_sse_event(&event(
            None,
            "{\"type\":\"content_block_delta\",\"index\":2,\"delta\":{\"type\":\"novel\"}}"
        )),
        Some(StreamEvent::ContentBlockDelta {
            index: 2,
            delta: Delta::Unknown
        })
    ));
}

#[test]
fn stream_events_are_written_with_their_type() {
    let event = StreamEvent::MessageDelta {
        stop_reason: Some(StopReason::EndTurn),
        stop_sequence: None,
        usage: Usage {
            input_tokens: 1,
            output_tokens: 2,
            extra: JsonMap::new(),
        },
    };
    let v = event.to_json().to_value();
    assert_eq!(v["type"], "message_delta");
    assert_eq!(
        StreamEvent::MessageStop.to_json().to_text().expect("text"),
        "{\"type\":\"message_stop\"}"
    );
    let delta = Delta::TextDelta {
        text: "hi".to_string(),
    };
    assert_eq!(Delta::from_json(&delta.to_json()), delta);
}

// ---------------------------------------------------------------------------
// Messages
// ---------------------------------------------------------------------------

#[test]
fn stop_reason_parse() {
    assert_eq!(StopReason::parse("end_turn"), StopReason::EndTurn);
    assert_eq!(StopReason::parse("tool_use"), StopReason::ToolUse);
    assert_eq!(StopReason::parse("unknown_xyz"), StopReason::Unknown);
    assert_eq!(StopReason::MaxTokens.as_str(), "max_tokens");
    assert_eq!(
        StopReason::parse(StopReason::StopSequence.as_str()),
        StopReason::StopSequence
    );
}

#[test]
fn request_validate() {
    let mut req = sample_request("m1", false);
    req.max_tokens = 100;
    req.stream = None;
    assert!(req.validate().is_ok());
    req.max_tokens = 0;
    assert!(req.validate().is_err());
    req.max_tokens = 1;
    req.messages = vec![];
    assert!(req.validate().is_err());
    let blank = sample_request("  ", false);
    assert!(blank.validate().is_err());
}

#[test]
fn request_round_trips_provider_specific_fields() {
    let text = r#"{
        "model": "qwen3.8-max",
        "messages": [{"role": "user", "content": "hello"}],
        "max_tokens": 256,
        "tool_choice": {"type": "none"},
        "thinking": {"type": "enabled", "budget_tokens": 4096},
        "reasoning_effort": "high",
        "provider_extension": {"priority": "latency"}
    }"#;
    let input = value(text);

    let request = MessagesRequest::from_json(&parsed(text)).expect("request");
    let output = request.to_json().to_value();

    assert_eq!(output["thinking"], input["thinking"]);
    assert_eq!(output["tool_choice"], input["tool_choice"]);
    assert_eq!(output["reasoning_effort"], input["reasoning_effort"]);
    assert_eq!(output["provider_extension"], input["provider_extension"]);
}

#[test]
fn response_accepts_thinking_content_blocks() {
    let text = r#"{
        "id": "msg_1",
        "type": "message",
        "role": "assistant",
        "content": [
            {"type": "thinking", "thinking": "check the tool result", "signature": "sig"},
            {"type": "text", "text": "done"}
        ],
        "model": "qwen3.8-max",
        "stop_reason": "end_turn",
        "stop_sequence": null,
        "usage": {"input_tokens": 1, "output_tokens": 2}
    }"#;

    let response = MessagesResponse::from_json(&parsed(text)).expect("response");
    let output = response.to_json().to_value();
    assert_eq!(output["content"][0]["type"], "thinking");
    assert_eq!(output["content"][0]["thinking"], "check the tool result");
    assert_eq!(output["content"][1]["text"], "done");
}

#[test]
fn content_blocks_survive_a_round_trip() {
    for text in [
        r#"{"type":"text","text":"hi","cache_control":{"type":"ephemeral"}}"#,
        r#"{"type":"tool_use","id":"t","name":"n","input":{"a":1.5}}"#,
        r#"{"type":"tool_result","tool_use_id":"t","content":[],"is_error":true}"#,
        r#"{"type":"image","source":{"type":"base64"}}"#,
        r#"{"type":"thinking","thinking":"x"}"#,
        r#"{"type":"redacted_thinking","data":"x"}"#,
        r#"{"type":"novel","field":[1,-2,null]}"#,
    ] {
        let block = ContentBlock::from_json(&parsed(text)).expect("block");
        assert_eq!(block.to_json().to_value(), value(text));
    }
}

#[test]
fn malformed_requests_say_what_is_wrong() {
    let missing = MessagesRequest::from_json(&parsed(r#"{"model":"m","max_tokens":1}"#))
        .expect_err("no messages");
    assert_eq!(missing.message(), "missing field `messages`");
    let invalid = MessagesRequest::from_json(&parsed(
        r#"{"model":5,"messages":[],"max_tokens":1}"#,
    ))
    .expect_err("bad model");
    assert_eq!(invalid.message(), "invalid value for field `model`");
    let block = ContentBlock::from_json(&parsed(r#"{"type":"tool_use","id":"t","input":1}"#))
        .expect_err("no name");
    assert_eq!(block.message(), "content block \"tool_use\" is missing \"name\"");
    let content = MessageContent::from_json(&parsed(r#"[{"type":"text"}]"#)).expect_err("no text");
    assert_eq!(
        content.message(),
        "data did not match any variant of untagged enum MessageContent"
    );
}

#[test]
fn of_two_members_with_one_name_the_later_counts() {
    let mut m = JsonMap::new();
    m.insert("a".to_string(), Json::text("first"));
    m.insert("b".to_string(), Json::text("between"));
    m.insert("a".to_string(), Json::text("last"));
    let whole = Json::object(m);
    assert_eq!(whole.get_str("a"), Some("last"));
    assert_eq!(whole.to_value(), value(r#"{"a":"last","b":"between"}"#));
    assert_eq!(whole.to_text().expect("text"), r#"{"a":"last","b":"between"}"#);
}

#[test]
fn parsing_cuts_at_blank_lines() {
    let whole = parse_sse_buffer("event: a\ndata: 1\n\ndata: 2\ndata:\n\n: note\n\ndata:\n\n");
    let mut parts = parse_sse_buffer("event: a\ndata: 1\n\n");
    parts.extend(parse_sse_buffer("data: 2\ndata:\n\n: note\n\ndata:\n\n"));
    assert_eq!(whole, parts);
    assert_eq!(whole.len(), 2);
    assert_eq!(whole[1].data, "2");
    assert!(whole.iter().all(|e| e.event.is_some() || !e.data.is_empty()));
}

#[test]
fn header_maps_take_what_they_can() {
    let a = adapter();
    let many = |n: usize| -> Vec<(String, String)> {
        (0..n).map(|i| (format!("X-{}", i), i.to_string())).collect()
    };
    let headers = a.build_headers(None, &many(6000)).expect("headers");
    assert_eq!(headers.len(), 6002);
    assert_eq!(sent_header(&headers, "x-5999"), Some("5999"));
    assert_eq!(
        a.build_headers(None, &many(30_000)).expect_err("overfull"),
        ProviderError::Config("too many headers".to_string())
    );
}

#[test]
fn requests_keep_every_field() {
    let text = r#"{
        "model": "m", "max_tokens": 5, "stream": true, "temperature": 0.5, "top_p": 1,
        "top_k": -3, "stop_sequences": ["a", "b"], "metadata": {"user_id": "u"},
        "system": [{"type": "text", "text": "s", "cache_control": {}}],
        "tools": [{"name": "lookup", "description": "d", "input_schema": {"type": "object"}}],
        "tool_choice": {"type": "tool", "name": "lookup"},
        "messages": [{"role": "user", "content": [{"type": "text", "text": "x"}]}]
    }"#;
    let request = MessagesRequest::from_json(&parsed(text)).expect("request");
    assert_eq!(request.top_k, Some(-3));
    assert_eq!(request.top_p, Some(JsonNumber::Unsigned(1)));
    assert!(matches!(request.system, Some(SystemPrompt::Blocks(_))));
    assert_eq!(
        request.tool_choice,
        Some(ToolChoice::Tool {
            name: "lookup".to_string()
        })
    );
    let tool: &Tool = &request.tools.as_ref().expect("tools")[0];
    assert_eq!(tool.name, "lookup");
    assert_eq!(request.to_json().to_value(), value(text));
}

#[test]
fn what_is_sent_on_reads_back() {
    let text = r#"{
        "model": "m", "max_tokens": 5, "system": "s", "temperature": null, "x": [1],
        "tools": [{"name": "t", "input_schema": {}}], "tool_choice": ["auto"],
        "messages": [{"role": "user", "name": "n", "content": [
            {"type": "tool_result", "tool_use_id": "t", "content": "c"}]}]
    }"#;
    let request = MessagesRequest::from_json(&parsed(text)).expect("request");
    assert_eq!(request.tool_choice, Some(ToolChoice::Auto));
    let again = MessagesRequest::from_json(&request.to_json()).expect("request");
    assert_eq!(again.to_json().to_value(), request.to_json().to_value());
    assert_eq!(again.messages, request.messages);

    let text = r#"{
        "id": "i", "type": "message", "role": "assistant", "content": [{"type": "novel"}],
        "model": "m", "stop_reason": "refusal", "container": {"id": 1},
        "usage": {"input_tokens": 1, "service_tier": "x"}
    }"#;
    let response = MessagesResponse::from_json(&parsed(text)).expect("response");
    assert_eq!(response.stop_reason, Some(StopReason::Unknown));
    let again = MessagesResponse::from_json(&response.to_json()).expect("response");
    assert_eq!(again.stop_reason, Some(StopReason::Unknown));
    assert_eq!(again.to_json().to_value(), response.to_json().to_value());
    assert_eq!(response.to_json().to_value()["container"]["id"], 1);
}

#[test]
fn tool_input_is_put_together_from_deltas() {
    let mut acc = ToolInputAccumulator::default();
    assert!(acc.try_parse().is_none());
    acc.push("{\"query\":");
    assert!(acc.try_parse().is_none());
    acc.push(" \"hi\"}");
    assert_eq!(acc.raw(), "{\"query\": \"hi\"}");
    assert_eq!(
        acc.try_parse().expect("json").get_str("query"),
        Some("hi")
    );
}

// ---------------------------------------------------------------------------
// The adapter
// ---------------------------------------------------------------------------

#[test]
fn requests_carry_forwarded_and_configured_headers() {
    let mut c = provider("prov-override", "http://127.0.0.1:9");
    c.auth = bearer_auth("TOK");
    let mut req = sample_request("m1", false);
    req.forward_headers = pairs(&[("anthropic-beta", "prompt-caching-2024-07-31")]);
    let adapter = AnthropicAdapter::from_config(&c).expect("adapter");
    let sent = adapter
        .prepare(req.clone(), false, Some("test-secret-abc123".to_string()))
        .expect("prepared");
    assert_eq!(sent.endpoint, "http://127.0.0.1:9/v1/messages");
    assert_eq!(
        sent_header(&sent.headers, "authorization"),
        Some("Bearer test-secret-abc123")
    );
    assert_eq!(
        sent_header(&sent.headers, "anthropic-beta"),
        Some("prompt-caching-2024-07-31")
    );
    assert_eq!(sent_header(&sent.headers, "anthropic-version"), Some("2023-06-01"));
    assert_eq!(sent_header(&sent.headers, "content-type"), Some("application/json"));
    let body = value(&sent.body);
    assert!(body.get("forward_headers").is_none());
    assert_eq!(body["stream"], false);
    assert_eq!(body["model"], "m1");

    c.extra_headers = pairs(&[("Anthropic-Beta", "config-wins")]);
    let adapter = AnthropicAdapter::from_config(&c).expect("adapter");
    let sent = adapter
        .prepare(req, true, Some("t".to_string()))
        .expect("prepared");
    assert_eq!(sent_header(&sent.headers, "anthropic-beta"), Some("config-wins"));
    assert_eq!(value(&sent.body)["stream"], true);
}

#[test]
fn requests_that_cannot_be_sent_are_refused() {
    let mut c = provider("p", "http://127.0.0.1:9");
    c.auth = bearer_auth("TOK");
    let a = AnthropicAdapter::from_config(&c).expect("adapter");
    assert!(matches!(
        a.prepare(sample_request("m", false), false, None),
        Err(ProviderError::AuthMissing { .. })
    ));
    assert_eq!(
        a.prepare(sample_request("m", false), false, Some("a\nb".to_string()))
            .expect_err("bad value"),
        ProviderError::Config("invalid header value".to_string())
    );
    let mut req = sample_request("m", false);
    req.forward_headers = pairs(&[("bad name", "v")]);
    assert_eq!(
        a.prepare(req, false, Some("t".to_string())).expect_err("bad name"),
        ProviderError::Config("invalid header name: bad name".to_string())
    );
    assert!(a
        .prepare(sample_request(" ", false), false, Some("t".to_string()))
        .is_err());
    assert!(matches!(
        AnthropicAdapter::new("p", "ftp://h", AuthConfig::NoAuth, 1),
        Err(ProviderError::Config(_))
    ));
}

#[test]
fn retryable_answers_are_retried_until_the_retries_are_used_up() {
    let a = adapter().with_retry(RetryConfig {
        max_retries: 2,
        base_delay_ms: 50,
        max_delay_ms: 200,
    });
    let body = br#"{"type":"error","error":{"type":"api_error","message":"server error"}}"#;
    let mut attempt: u32 = 0;
    let mut sends: u32 = 0;
    let error = loop {
        sends += 1;
        match a.after_response(attempt, 500, None, body) {
            Next::Retry { attempt: next, .. } => attempt = next,
            Next::Fail(e) => break e,
            Next::Accept => panic!("no success"),
        }
    };
    assert_eq!(sends, 3);
    assert_eq!(
        error,
        ProviderError::Upstream {
            status: 500,
            code: "api_error".to_string(),
            message: "server error".to_string(),
            provider_id: Some("prov".to_string()),
        }
    );
    assert_eq!(a.after_response(0, 200, None, b"{}"), Next::Accept);
    assert!(matches!(
        a.after_response(0, 401, None, b"no"),
        Next::Fail(ProviderError::Upstream { status: 401, .. })
    ));
    assert!(matches!(
        a.after_failure(2, true, "x"),
        Next::Fail(ProviderError::Timeout { timeout_ms: 2000, .. })
    ));
}

#[test]
fn the_wait_that_a_provider_asks_for_is_honored() {
    let a = adapter().with_retry(RetryConfig {
        max_retries: 2,
        base_delay_ms: 50,
        max_delay_ms: 200,
    });
    match a.after_response(0, 429, extract_retry_after(Some(" 1 ")), b"{\"message\":\"slow\"}") {
        Next::Retry {
            attempt,
            retry_after,
            cause,
        } => {
            assert_eq!(attempt, 1);
            assert_eq!(retry_after, Some(1));
            assert_eq!(extract_retry_after_from_error(&cause), Some(1));
        }
        other => panic!("unexpected: {:?}", other),
    }
    assert_eq!(a.compute_retry_delay(0, Some(1), 0), 1000);
    assert_eq!(a.compute_retry_delay(0, Some(3600), 0), 10_000);
    assert_eq!(a.compute_retry_delay(0, None, 0), 50);
    assert_eq!(a.compute_retry_delay(1, None, 0), 100);
    assert_eq!(a.compute_retry_delay(30, None, 0), 200);
    // A quarter of 200 is 50: 1_000_000_077 % 100 is 77, which is 27 over it.
    assert_eq!(a.compute_retry_delay(30, None, 77), 227);
    assert_eq!(extract_retry_after(Some("soon")), None);
    assert_eq!(extract_retry_after(None), None);
}

#[test]
fn a_stashed_wait_is_read_back_and_stripped() {
    let e = upstream(429, "slow down");
    let stashed = stash_retry_after(upstream(429, "slow down"), Some(7));
    assert_eq!(stashed, upstream(429, "[retry-after:7] slow down"));
    assert_eq!(extract_retry_after_from_error(&stashed), Some(7));
    assert_eq!(strip_retry_after_sentinel(stashed), e);
    assert_eq!(stash_retry_after(upstream(429, "m"), None), upstream(429, "m"));
    assert_eq!(parse_retry_after_sentinel("[retry-after:x] m"), None);
    assert_eq!(parse_retry_after_sentinel("[retry-after:5"), None);
    assert_eq!(
        strip_retry_after_sentinel(upstream(429, "[retry-after:x]  m")),
        upstream(429, "m")
    );
}

#[test]
fn only_transient_failures_are_retryable() {
    for status in [429, 500, 502, 503, 529] {
        assert!(is_retryable(&upstream(status, "m")));
    }
    for status in [400, 401, 403, 404, 504] {
        assert!(!is_retryable(&upstream(status, "m")));
    }
    assert!(!is_retryable(&ProviderError::Parse("m".to_string())));
}

#[test]
fn transport_errors_hide_bearer_tokens() {
    assert_eq!(sanitize_error_message("plain\nlines"), "plain\nlines");
    assert_eq!(
        sanitize_error_message("first\nauth: BEARER abc\nlast"),
        "first\n[REDACTED bearer]\nlast"
    );
    assert_eq!(
        adapter().transport_error(false, "Bearer x"),
        ProviderError::Transport {
            provider: "prov".to_string(),
            message: "[REDACTED bearer]".to_string(),
        }
    );
}

#[test]
fn responses_are_read() {
    let body = br#"{
        "id": "msg_123", "type": "message", "role": "assistant",
        "content": [
            {"type":"text","text":"calling tool"},
            {"type":"tool_use","id":"toolu_99","name":"lookup","input":{"query":"hi"}}
        ],
        "model": "mock-model", "stop_reason": "tool_use",
        "usage": {"input_tokens":5,"output_tokens":10,"cache_read_input_tokens":2}
    }"#;
    let resp = read_response(body).expect("response");
    assert_eq!(resp.stop_reason, Some(StopReason::ToolUse));
    assert_eq!(resp.usage.input_tokens, 5);
    assert_eq!(resp.usage.output_tokens, 10);
    assert_eq!(
        resp.usage.extra.get("cache_read_input_tokens").and_then(|v| v.as_u64()),
        Some(2)
    );
    assert!(resp
        .content
        .iter()
        .any(|b| matches!(b, ContentBlock::ToolUse { name, .. } if name == "lookup")));
    assert!(matches!(
        read_response(b"not json"),
        Err(ProviderError::Parse(_))
    ));
    assert_eq!(
        read_response(b"{}").expect_err("no id"),
        ProviderError::Parse(
            "failed to parse upstream response: missing field `id`".to_string()
        )
    );
}

#[test]
fn streams_are_read_in_chunks() {
    let text = "event: message_start\ndata: {\"type\":\"message_start\",\"message\":{\"id\":\"msg_1\",\"model\":\"m\",\"usage\":{\"input_tokens\":10,\"output_tokens\":0}}}\n\ndata: {\"type\":\"novel\"}\n\nevent: message_stop\ndata: {\"type\":\"message_stop\"}";
    let a = adapter();
    let mut reader = StreamReader::new(&a);
    let mut events = reader.on_chunk(text[..40].as_bytes());
    events.extend(reader.on_text(&text[40..]));
    assert_eq!(events.len(), 1);
    events.extend(reader.on_end());
    assert_eq!(events.len(), 2);
    assert!(matches!(&events[0], StreamEvent::MessageStart { id, .. } if id == "msg_1"));
    assert_eq!(events[1], StreamEvent::MessageStop);
    assert_eq!(
        reader.on_error(true, "x"),
        ProviderError::Timeout {
            provider: "prov".to_string(),
            timeout_ms: 2000,
        }
    );
    assert_eq!(
        reader.on_error(false, "x"),
        ProviderError::Stream {
            provider: "prov".to_string(),
            message: "x".to_string(),
        }
    );
}

// ---------------------------------------------------------------------------
// Errors
// ---------------------------------------------------------------------------

#[test]
fn upstream_bodies_are_read_as_errors() {
    let from = |status: u16, body: &[u8]| {
        ProviderError::upstream_from_body(None, status, body, "fallback".to_string())
    };
    let expect = |status: u16, code: &str, message: &str| ProviderError::Upstream {
        status,
        code: code.to_string(),
        message: message.to_string(),
        provider_id: None,
    };
    assert_eq!(
        from(401, br#"{"error":{"type":"authentication_error","message":"invalid key"}}"#),
        expect(401, "authentication_error", "invalid key")
    );
    assert_eq!(from(500, br#"{"error":{}}"#), expect(500, "api_error", "fallback"));
    assert_eq!(from(429, br#"{"message":"m"}"#), expect(429, "api_error", "m"));
    assert_eq!(from(429, b""), expect(429, "rate_limit_error", "fallback"));
    assert_eq!(
        from(529, b"one\nAuthorization: x\ntwo"),
        expect(529, "overloaded_error", "one two")
    );
}

#[test]
fn snippets_are_short_and_clean() {
    let long = "x".repeat(600);
    let s = sanitize_body_snippet(long.as_bytes());
    assert_eq!(s, format!("{}\u{2026}", "x".repeat(500)));
    assert_eq!(sanitize_body_snippet(b" a \n X-Api-Key: k \n b "), "a   b");
    let wide = format!(" {}\n{}", "\u{20ac}".repeat(100), "\u{20ac}".repeat(100));
    let s = sanitize_body_snippet(wide.as_bytes());
    assert!(s.len() <= 503 && s.trim() == s && s.ends_with('\u{2026}'));
    assert_eq!(map_status_to_code(404), "not_found_error");
    assert_eq!(map_status_to_code(418), "api_error");
}

#[test]
fn provider_errors_have_statuses_types_and_bodies() {
    let timeout = ProviderError::Timeout {
        provider: "p".to_string(),
        timeout_ms: 80,
    };
    assert_eq!(timeout.http_status(), 504);
    assert_eq!(timeout.anthropic_type(), "api_error");
    assert_eq!(timeout.to_string(), "timeout after 80ms for provider p");
    let body = timeout.into_anthropic_body();
    assert_eq!(body.kind, "error");
    assert_eq!(body.error.kind, "api_error");
    let missing = ProviderError::ModelNotFound {
        provider: "p".to_string(),
        model: "m".to_string(),
    };
    assert_eq!(missing.http_status(), 404);
    assert_eq!(missing.anthropic_type(), "not_found_error");
    let e = ProviderError::Upstream {
        status: 418,
        code: "novel".to_string(),
        message: "m".to_string(),
        provider_id: None,
    };
    assert_eq!(e.http_status(), 418);
    assert_eq!(e.anthropic_type(), "api_error");
    assert_eq!(e.into_anthropic_body().error.kind, "novel");
}
