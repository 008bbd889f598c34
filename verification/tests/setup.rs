use std::path::Path;

use switchyard::config::{default_config_path, join_path, parent_path, SwitchyardConfig};
use switchyard::doctor::{
    check_credential, config_failed, config_loaded, credential_detail, credential_report,
    format_provider_table, format_row, gateway_row, gateway_serves, heading, reach_row, summary,
    validate_config, Findings, Severity,
};
use switchyard::json::Json;
use switchyard::providers::config::BaseUrl;
use switchyard::providers::{AuthConfig, ProviderConfig};
use switchyard::setup::{
    apply_credentials, build_config, check_credential_names, credentials_path,
    reload_credentials, valid_environment_name, ProviderPreset,
};
use switchyard::text::{
    decimal_text, is_control, is_whitespace, parse_u64, split_lines, split_words, to_lower, trim,
};

fn wire(config: &SwitchyardConfig) -> String {
    let mut providers = Vec::new();
    for p in &config.providers {
        let mut m = serde_json::Map::new();
        m.insert("id".to_string(), serde_json::Value::from(p.id.as_str()));
        m.insert(
            "base_url".to_string(),
            serde_json::Value::from(p.base_url.as_str()),
        );
        if let AuthConfig::Header {
            header,
            env_var,
            prefix,
        } = &p.auth
        {
            m.insert("header".to_string(), serde_json::Value::from(header.as_str()));
            m.insert("env_var".to_string(), serde_json::Value::from(env_var.as_str()));
            m.insert("prefix".to_string(), serde_json::Value::from(prefix.clone()));
        }
        let models: Vec<&str> = p.models.iter().map(|m| m.id.as_str()).collect();
        m.insert("models".to_string(), serde_json::Value::from(models));
        m.insert(
            "default_model".to_string(),
            serde_json::Value::from(p.default_model.clone()),
        );
        let headers: Vec<String> = p
            .extra_headers
            .iter()
            .map(|(n, v)| format!("{}: {}", n, v))
            .collect();
        m.insert("extra_headers".to_string(), serde_json::Value::from(headers));
        providers.push(serde_json::Value::Object(m));
    }
    serde_json::to_string(&providers).expect("config json")
}

fn named(list: &[(&str, &str)]) -> Vec<(String, String)> {
    list.iter()
        .map(|(n, v)| (n.to_string(), v.to_string()))
        .collect()
}

fn local(id: &str, auth: AuthConfig) -> ProviderConfig {
    ProviderConfig {
        id: id.to_string(),
        base_url: BaseUrl::parse("http://localhost:8080/").expect("url"),
        auth,
        models: vec![],
        timeout_ms: None,
        connect_timeout_ms: None,
        read_timeout_ms: None,
        default_model: None,
        extra_headers: vec![],
        retry: None,
    }
}

fn key_auth() -> AuthConfig {
    AuthConfig::Header {
        header: "x-api-key".to_string(),
        env_var: "KEY".to_string(),
        prefix: None,
    }
}

// ---------------------------------------------------------------------------
// Presets
// ---------------------------------------------------------------------------

#[test]
fn builds_selected_provider_presets_without_credentials() {
    let config = build_config(&[ProviderPreset::Kimi, ProviderPreset::Qwen]);

    assert_eq!(config.providers.len(), 2);
    assert_eq!(config.providers[0].id, "kimi");
    assert_eq!(config.providers[1].id, "qwen");
    let wire = wire(&config);
    assert!(wire.contains("QWEN_API_KEY"));
    assert!(!wire.contains("sk-"));
    assert!(!wire.contains("LLM_"));
    assert!(config
        .providers
        .iter()
        .all(|provider| provider.validate().is_ok()));
}

#[test]
fn duplicate_presets_are_written_once_in_stable_order() {
    let config = build_config(&[
        ProviderPreset::Qwen,
        ProviderPreset::Kimi,
        ProviderPreset::Qwen,
    ]);

    let ids: Vec<_> = config
        .providers
        .iter()
        .map(|provider| provider.id.as_str())
        .collect();
    assert_eq!(ids, ["qwen", "kimi"]);
}

#[test]
fn every_preset_makes_a_usable_registry() {
    let all = ProviderPreset::ALL;
    assert_eq!(all.len(), 3);
    let config = build_config(&all);
    assert!(config.aliases.entries.is_empty());
    assert!(config.fallbacks.entries.is_empty());
    let registry = config.into_registry().expect("registry");
    assert_eq!(registry.provider_ids(), vec!["kimi", "muse", "qwen"]);
    for preset in all {
        let handle = registry.resolve(preset.id(), None).expect("default model");
        assert!(preset.models()[0].starts_with(&handle.model_id));
    }
    assert_eq!(
        registry.adapter("qwen").expect("adapter").endpoint(),
        "https://token-plan.ap-southeast-1.maas.aliyuncs.com/apps/anthropic/v1/messages"
    );
    assert_eq!(
        registry.adapter("muse").expect("adapter").endpoint(),
        "https://api.meta.ai/v1/messages"
    );
}

#[test]
fn presets_describe_themselves() {
    assert_eq!(ProviderPreset::Muse.display_name(), "Meta Muse");
    assert_eq!(ProviderPreset::Qwen.display_name(), "QwenCloud");
    assert_eq!(ProviderPreset::Kimi.credential_env(), "MOONSHOT_API_KEY");
    assert_eq!(ProviderPreset::Muse.credential_env(), "MODEL_API_KEY");
    assert_eq!(
        ProviderPreset::Qwen.models(),
        vec!["qwen3.8-max", "qwen3.7-max", "qwen3.6-flash"]
    );
    let kimi = ProviderPreset::Kimi.provider_config();
    assert_eq!(kimi.base_url.as_str(), "https://api.moonshot.ai/anthropic");
    assert_eq!(kimi.default_model.as_deref(), Some("kimi-k3[1m]"));
}

#[test]
fn a_config_without_providers_makes_an_empty_registry() {
    let config = SwitchyardConfig::default();
    assert!(config.providers.is_empty());
    assert!(config.into_registry().expect("registry").is_empty());
}

// ---------------------------------------------------------------------------
// Paths
// ---------------------------------------------------------------------------

#[test]
fn the_config_path_follows_the_environment() {
    assert_eq!(
        default_config_path(Some("/xdg"), Some("/home/u")),
        "/xdg/switchyard/config.json"
    );
    assert_eq!(
        default_config_path(None, Some("/home/u")),
        "/home/u/.config/switchyard/config.json"
    );
    assert_eq!(
        default_config_path(None, None),
        ".config/switchyard/config.json"
    );
    assert_eq!(
        default_config_path(Some(""), None),
        "switchyard/config.json"
    );
}

#[test]
fn paths_behave_as_std_paths_do() {

    for path in [
        "", "/", "//", ".", "..", "./", "/.", "a", "a/", "a/b", "a//b", "a/./b", "a/b/.", "a/b/./",
        "./a", "../a", "/a", "//a", "/./a", "a/..", "/a/b/c.json", "a/.b", "a./b", "x/./.",
    ] {
        assert_eq!(
            parent_path(path),
            Path::new(path)
                .parent()
                .map(|p| p.to_str().expect("text").to_string()),
            "parent of {:?}",
            path
        );
        let joined = Path::new(path).join("credentials.json");
        assert_eq!(
            join_path(path, "credentials.json"),
            joined.to_str().expect("text"),
            "below {:?}",
            path
        );
    }
}

#[test]
fn credentials_stand_beside_the_config() {
    assert_eq!(credentials_path("/etc/sw/config.json"), "/etc/sw/credentials.json");
    assert_eq!(credentials_path("config.json"), "./credentials.json");
    assert_eq!(credentials_path("/config.json"), "/credentials.json");
    assert_eq!(credentials_path("/"), "./credentials.json");
}

// ---------------------------------------------------------------------------
// Credentials
// ---------------------------------------------------------------------------

#[test]
fn stored_credentials_fill_the_gaps_of_the_environment() {
    let file = named(&[("CALLER", "file-value"), ("FILEONLY", "file-value")]);
    let environment = vec!["CALLER".to_string(), "PATH".to_string()];
    let first = apply_credentials(&file, &environment);
    assert_eq!(first.set, named(&[("FILEONLY", "file-value")]));
    assert_eq!(first.refused, None);

    let applied: Vec<String> = first.set.iter().map(|(n, _)| n.clone()).collect();
    let updated = named(&[("CALLER", "new-file-value"), ("FILEONLY", "new-file-value")]);
    let second = reload_credentials(&updated, &applied);
    assert_eq!(second.set, named(&[("FILEONLY", "new-file-value")]));
}

#[test]
fn loading_stops_at_an_invalid_name() {
    let file = named(&[("A", "1"), ("2B", "2"), ("C", "3")]);
    let done = apply_credentials(&file, &vec![]);
    assert_eq!(done.set, named(&[("A", "1")]));
    assert_eq!(done.refused.as_deref(), Some("2B"));
    assert_eq!(check_credential_names(&file).as_deref(), Some("2B"));
    assert_eq!(check_credential_names(&named(&[("A", "1")])), None);
    assert!(valid_environment_name("_a1"));
    assert!(!valid_environment_name(""));
    assert!(!valid_environment_name("a-b"));
}

// ---------------------------------------------------------------------------
// Doctor
// ---------------------------------------------------------------------------

#[test]
fn rows_are_laid_out() {
    assert_eq!(
        format_row(Severity::Warn, "reach", "detail"),
        "  \x1b[33mWARN\x1b[0m  \x1b[1mreach       \x1b[0m  detail\n"
    );
    assert_eq!(heading(), "\x1b[1mswitchyard doctor\x1b[0m\n\n");
    assert_eq!(
        summary(false),
        "\n\x1b[32mAll required checks passed.\x1b[0m\n"
    );
    assert!(summary(true).starts_with("\n\x1b[31mSome checks failed."));
    assert!(config_failed("why").contains("Cannot continue without a valid config."));
}

#[test]
fn providers_are_tabled() {
    let none = SwitchyardConfig::default();
    assert_eq!(
        format_provider_table(&none),
        "  \x1b[2m(no providers configured)\x1b[0m\n"
    );
    let config = build_config(&[ProviderPreset::Qwen]);
    let table = format_provider_table(&config);
    let lines: Vec<&str> = table.lines().collect();
    assert_eq!(lines[0], "");
    assert_eq!(
        lines[1],
        format!("  \x1b[1m{:<16}  {:<40}  models\x1b[0m", "provider", "base_url")
    );
    assert_eq!(lines[2], format!("  {}", "\u{2500}".repeat(76)));
    assert_eq!(
        lines[3],
        format!(
            "  {:<16}  {:<40}  {}",
            "qwen",
            "https://token-plan.ap-southeast-1.maas.aliyuncs.com/apps/anthropic",
            "qwen3.8-max, qwen3.7-max, qwen3.6-flash"
        )
    );
    assert_eq!(lines[4], "");
    let mut bare = SwitchyardConfig::default();
    bare.providers.push(local("p", AuthConfig::NoAuth));
    assert!(format_provider_table(&bare).contains("  (none)\n"));
    assert!(config_loaded("/c.json", &bare).contains("loaded from /c.json\n"));
}

#[test]
fn a_missing_credential_fails_the_checks() {
    let mut config = SwitchyardConfig::default();
    config.providers.push(local("open", AuthConfig::NoAuth));
    config.providers.push(local("keyed", key_auth()));
    let (report, missing) = credential_report(&config, &vec![None, Some("k".to_string())]);
    assert!(!missing);
    assert_eq!(report.matches("PASS").count(), 2);
    let (report, missing) = credential_report(&config, &vec![None, Some(" ".to_string())]);
    assert!(missing);
    assert!(report.contains("FAIL"));
    assert_eq!(check_credential(&key_auth(), &None), Severity::Fail);
    assert_eq!(check_credential(&AuthConfig::NoAuth, &None), Severity::Pass);
    assert_eq!(
        credential_detail("p", &key_auth()),
        "p \x1b[2mKEY\x1b[0m"
    );
    assert_eq!(
        credential_detail("p", &AuthConfig::NoAuth),
        "p \x1b[2m(no auth)\x1b[0m"
    );
}

#[test]
fn reachability_is_only_a_warning() {
    let p = local("p", AuthConfig::NoAuth);
    assert_eq!(
        reach_row(&p, false),
        format_row(Severity::Warn, "reach", "p http://localhost:8080")
    );
    assert!(reach_row(&p, true).contains("PASS"));
    assert!(gateway_row(Some(204)).contains("is serving"));
    assert!(gateway_row(Some(500)).contains("WARN"));
    assert!(gateway_row(None).contains("is not reachable"));
    assert!(gateway_serves(Some(299)));
    assert!(!gateway_serves(Some(300)));
    assert!(!gateway_serves(None));
}

#[test]
fn only_config_and_credentials_decide_the_outcome() {
    let mut findings = Findings {
        config_valid: true,
        credential_missing: false,
        providers_reached: false,
        gateway_serving: false,
    };
    assert!(findings.passed());
    findings.providers_reached = true;
    findings.gateway_serving = true;
    assert!(findings.passed());
    findings.credential_missing = true;
    assert!(!findings.passed());
    findings.credential_missing = false;
    findings.config_valid = false;
    assert!(!findings.passed());
}

#[test]
fn invalid_configs_are_reported_by_provider() {
    let mut config = SwitchyardConfig::default();
    config.providers.push(local("good", AuthConfig::NoAuth));
    assert_eq!(validate_config(&config), Ok(()));
    config.providers.push(local("bad id", AuthConfig::NoAuth));
    assert_eq!(
        validate_config(&config),
        Err("provider 'bad id' validation failed: provider id is empty or invalid: bad id"
            .to_string())
    );
}

// ---------------------------------------------------------------------------
// Text and JSON
// ---------------------------------------------------------------------------

#[test]
fn characters_are_classified_as_std_does() {
    for n in 0..=0x10ffffu32 {
        if let Some(c) = char::from_u32(n) {
            assert_eq!(is_whitespace(c), c.is_whitespace(), "{:?}", c);
            assert_eq!(is_control(c), c.is_control(), "{:?}", c);
        }
    }
}

#[test]
fn texts_are_taken_apart_as_std_does() {
    for s in [
        "", " ", "a", " a b ", "a\nb", "a\r\nb\r", "\n", "\n\n", "a\n", "a\u{a0}b\u{2003}c", "é\r\n",
    ] {
        assert_eq!(trim(s), s.trim());
        assert_eq!(split_lines(s), s.lines().collect::<Vec<_>>());
        assert_eq!(split_words(s), s.split_whitespace().collect::<Vec<_>>());
        assert_eq!(to_lower(s), s.to_ascii_lowercase());
    }
    for s in ["", "0", "007", "+5", "-1", "18446744073709551615", "18446744073709551616", "1x"] {
        assert_eq!(parse_u64(s), s.parse::<u64>().ok(), "{}", s);
    }
    assert_eq!(decimal_text(0), "0");
    assert_eq!(decimal_text(u128::MAX), format!("{}", u128::MAX));
}

#[test]
fn written_json_reads_back() {
    let text = "{\"a\":[0,18446744073709551615,-9223372036854775808,true,null,\"\u{1}\\n\\\"\u{2028}\"],\"b\":{\"\":{}}}";
    let escaped = text.replace('\u{1}', "\\u0001");
    let value = Json::parse(&escaped).expect("json");
    let written = value.to_text().expect("text");
    assert!(written.chars().all(|c| c as u32 >= 0x20));
    assert_eq!(
        Json::parse(&written).expect("json").to_value(),
        value.to_value()
    );
    let mut nested = Json::Null;
    for _ in 0..100 {
        nested = Json::Array(vec![nested]);
    }
    let written = nested.to_text().expect("text");
    assert_eq!(
        Json::parse(&written).expect("json").to_value(),
        nested.to_value()
    );
}

#[test]
fn json_values_keep_what_they_hold() {
    let text = r#"{"a":[1,-2,1.5,true,null,"x"],"b":{}}"#;
    let value: serde_json::Value = serde_json::from_str(text).expect("json");
    let json = Json::from_value(&value);
    assert_eq!(json.to_value(), value);
    assert_eq!(json.to_text().expect("text"), text);
    assert_eq!(Json::parse_bytes(text.as_bytes()).expect("json").to_value(), value);
    assert!(Json::parse("{").is_err());
    assert_eq!(json.get_u64("a"), None);
    assert_eq!(Json::parse("{\"a\":7}").expect("json").get_u64("a"), Some(7));
}
