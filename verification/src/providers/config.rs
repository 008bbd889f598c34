//! Configuration schema, validation, and normalization for providers and
//! models.
//!
//! Provider-agnostic: no hardcoded provider names, URLs, or auth schemes.
//! Manual model IDs are sufficient; no `/v1/models` discovery is required.

use vstd::prelude::*;
use vstd::string::*;

use crate::providers::decode;
use crate::providers::types;
use crate::text;

verus! {

// ---------------------------------------------------------------------------
// Errors
// ---------------------------------------------------------------------------

/// Errors produced during configuration validation.
#[derive(Debug, PartialEq, Eq)]
pub enum ConfigError {
    InvalidProviderId(String),
    InvalidModelId(String),
    InvalidBaseUrl(String),
    InvalidEnvVar(String),
    InvalidHeaderName,
    DuplicateProviderId(String),
    DuplicateModelId { provider: String, model: String },
    InvalidTimeout(u64),
    DefaultModelNotFound(String),
}

pub enum ConfigErrorView {
    InvalidProviderId(Seq<char>),
    InvalidModelId(Seq<char>),
    InvalidBaseUrl(Seq<char>),
    InvalidEnvVar(Seq<char>),
    InvalidHeaderName,
    DuplicateProviderId(Seq<char>),
    DuplicateModelId { provider: Seq<char>, model: Seq<char> },
    InvalidTimeout(u64),
    DefaultModelNotFound(Seq<char>),
}

impl View for ConfigError {
    type V = ConfigErrorView;

    open spec fn view(&self) -> ConfigErrorView {
        match *self {
            ConfigError::InvalidProviderId(id) => ConfigErrorView::InvalidProviderId(id@),
            ConfigError::InvalidModelId(id) => ConfigErrorView::InvalidModelId(id@),
            ConfigError::InvalidBaseUrl(why) => ConfigErrorView::InvalidBaseUrl(why@),
            ConfigError::InvalidEnvVar(name) => ConfigErrorView::InvalidEnvVar(name@),
            ConfigError::InvalidHeaderName => ConfigErrorView::InvalidHeaderName,
            ConfigError::DuplicateProviderId(id) => ConfigErrorView::DuplicateProviderId(id@),
            ConfigError::DuplicateModelId { provider, model } => ConfigErrorView::DuplicateModelId {
                provider: provider@,
                model: model@,
            },
            ConfigError::InvalidTimeout(ms) => ConfigErrorView::InvalidTimeout(ms),
            ConfigError::DefaultModelNotFound(id) => ConfigErrorView::DefaultModelNotFound(id@),
        }
    }
}

impl ConfigErrorView {
    /// The error in words.
    pub open spec fn display(self) -> Seq<char> {
        match self {
            ConfigErrorView::InvalidProviderId(id) => "provider id is empty or invalid: "@ + id,
            ConfigErrorView::InvalidModelId(id) => "model id is empty or invalid: "@ + id,
            ConfigErrorView::InvalidBaseUrl(why) => "base_url is invalid: "@ + why,
            ConfigErrorView::InvalidEnvVar(name) => "env_var is invalid: "@ + name,
            ConfigErrorView::InvalidHeaderName => "header name is empty"@,
            ConfigErrorView::DuplicateProviderId(id) => "duplicate provider id: "@ + id,
            ConfigErrorView::DuplicateModelId { provider, model } =>
            "duplicate model id in provider "@ + provider + ": "@ + model,
            ConfigErrorView::InvalidTimeout(ms) => "timeout_ms must be > 0, got "@ + text::decimal(
                ms as nat,
            ),
            ConfigErrorView::DefaultModelNotFound(id) => "default_model '"@ + id
                + "' not found in provider models"@,
        }
    }
}

impl ConfigError {
    /// The error in words.
    pub fn to_string(&self) -> (r: String)
        ensures
            r@ == self@.display(),
    {
        match self {
            ConfigError::InvalidProviderId(id) => text::concat2(
                "provider id is empty or invalid: ",
                id.as_str(),
            ),
            ConfigError::InvalidModelId(id) => text::concat2(
                "model id is empty or invalid: ",
                id.as_str(),
            ),
            ConfigError::InvalidBaseUrl(why) => text::concat2(
                "base_url is invalid: ",
                why.as_str(),
            ),
            ConfigError::InvalidEnvVar(name) => text::concat2(
                "env_var is invalid: ",
                name.as_str(),
            ),
            ConfigError::InvalidHeaderName => "header name is empty".to_owned(),
            ConfigError::DuplicateProviderId(id) => text::concat2(
                "duplicate provider id: ",
                id.as_str(),
            ),
            ConfigError::DuplicateModelId { provider, model } => {
                let mut r = text::concat3(
                    "duplicate model id in provider ",
                    provider.as_str(),
                    ": ",
                );
                r.append(model.as_str());
                r
            },
            ConfigError::InvalidTimeout(ms) => {
                let number = text::decimal_text(*ms as u128);
                text::concat2("timeout_ms must be > 0, got ", number.as_str())
            },
            ConfigError::DefaultModelNotFound(id) => text::concat3(
                "default_model '",
                id.as_str(),
                "' not found in provider models",
            ),
        }
    }
}

// ---------------------------------------------------------------------------
// Names
// ---------------------------------------------------------------------------

/// Matches `^[a-zA-Z0-9_.-]+$`.
pub open spec fn valid_provider_id(id: Seq<char>) -> bool {
    id.len() > 0 && forall|i: int| 0 <= i < id.len() ==> provider_id_char(#[trigger] id[i])
}

pub open spec fn provider_id_char(c: char) -> bool {
    text::ascii_alphanumeric(c) || c == '-' || c == '_' || c == '.'
}

/// Model IDs are provider-defined: anything without white space or control
/// characters, so suffixes such as Qwen/Kimi's `[1m]` remain valid.
pub open spec fn valid_model_id(id: Seq<char>) -> bool {
    id.len() > 0 && forall|i: int|
        0 <= i < id.len() ==> !text::whitespace(#[trigger] id[i]) && !text::control(id[i])
}

/// A letter or underscore, followed by letters, digits and underscores.
pub open spec fn environment_name(name: Seq<char>) -> bool {
    name.len() > 0 && !text::ascii_digit(name[0]) && forall|i: int|
        0 <= i < name.len() ==> word_char(#[trigger] name[i])
}

pub open spec fn word_char(c: char) -> bool {
    text::ascii_alphanumeric(c) || c == '_'
}

/// The characters of an RFC 7230 token.
pub open spec fn token_char(c: char) -> bool {
    ||| text::ascii_alphanumeric(c)
    ||| c == '!'
    ||| c == '#'
    ||| c == '$'
    ||| c == '%'
    ||| c == '&'
    ||| c == '\''
    ||| c == '*'
    ||| c == '+'
    ||| c == '-'
    ||| c == '.'
    ||| c == '^'
    ||| c == '_'
    ||| c == '`'
    ||| c == '|'
    ||| c == '~'
}

/// An RFC 7230 token.
pub open spec fn token(name: Seq<char>) -> bool {
    name.len() > 0 && forall|i: int| 0 <= i < name.len() ==> token_char(#[trigger] name[i])
}

pub fn is_token_char(c: char) -> (r: bool)
    ensures
        r == token_char(c),
{
    text::is_ascii_alphanumeric(c) || c == '!' || c == '#' || c == '$' || c == '%' || c == '&' || c
        == '\'' || c == '*' || c == '+' || c == '-' || c == '.' || c == '^' || c == '_' || c == '`'
        || c == '|' || c == '~'
}

pub fn validate_provider_id(id: &str) -> (r: Result<(), ConfigError>)
    ensures
        r is Ok <==> valid_provider_id(id@),
        r matches Err(e) ==> e@ == ConfigErrorView::InvalidProviderId(id@),
{
    let v = text::chars_of(id);
    if v.len() == 0 {
        return Err(ConfigError::InvalidProviderId(id.to_owned()));
    }
    let mut i: usize = 0;
    while i < v.len()
        invariant
            i <= v@.len(),
            v@ == id@,
            forall|j: int| 0 <= j < i ==> provider_id_char(#[trigger] id@[j]),
        decreases v@.len() - i,
    {
        let c = v[i];
        if !(text::is_ascii_alphanumeric(c) || c == '-' || c == '_' || c == '.') {
            assert(!provider_id_char(id@[i as int]));
            return Err(ConfigError::InvalidProviderId(id.to_owned()));
        }
        i = i + 1;
    }
    Ok(())
}

pub fn validate_model_id(id: &str) -> (r: Result<(), ConfigError>)
    ensures
        r is Ok <==> valid_model_id(id@),
        r matches Err(e) ==> e@ == ConfigErrorView::InvalidModelId(id@),
{
    let v = text::chars_of(id);
    if v.len() == 0 {
        return Err(ConfigError::InvalidModelId(id.to_owned()));
    }
    let mut i: usize = 0;
    while i < v.len()
        invariant
            i <= v@.len(),
            v@ == id@,
            forall|j: int|
                0 <= j < i ==> !text::whitespace(#[trigger] id@[j]) && !text::control(id@[j]),
        decreases v@.len() - i,
    {
        let c = v[i];
        if text::is_whitespace(c) || text::is_control(c) {
            assert(id@[i as int] == c);
            return Err(ConfigError::InvalidModelId(id.to_owned()));
        }
        i = i + 1;
    }
    Ok(())
}

/// Whether `name` is a letter or underscore, followed by letters, digits and
/// underscores.
pub fn is_environment_name(name: &str) -> (r: bool)
    ensures
        r == environment_name(name@),
{
    let v = text::chars_of(name);
    if v.len() == 0 || text::is_ascii_digit(v[0]) {
        return false;
    }
    let mut i: usize = 0;
    while i < v.len()
        invariant
            i <= v@.len(),
            v@ == name@,
            forall|j: int| 0 <= j < i ==> word_char(#[trigger] name@[j]),
        decreases v@.len() - i,
    {
        let c = v[i];
        if !(text::is_ascii_alphanumeric(c) || c == '_') {
            assert(!word_char(name@[i as int]));
            return false;
        }
        i = i + 1;
    }
    true
}

/// White space around the name is passed over.
pub fn validate_env_var(env_var: &str) -> (r: Result<(), ConfigError>)
    ensures
        r is Ok <==> environment_name(text::trimmed(env_var@)),
        r matches Err(e) ==> e@ == ConfigErrorView::InvalidEnvVar(env_var@),
{
    if is_environment_name(text::trim(env_var)) {
        Ok(())
    } else {
        Err(ConfigError::InvalidEnvVar(env_var.to_owned()))
    }
}

/// White space around the name is passed over.
pub fn validate_header_name(header: &str) -> (r: Result<(), ConfigError>)
    ensures
        r is Ok <==> token(text::trimmed(header@)),
        r matches Err(e) ==> e@ == ConfigErrorView::InvalidHeaderName,
{
    let name = text::trim(header);
    let v = text::chars_of(name);
    if v.len() == 0 {
        return Err(ConfigError::InvalidHeaderName);
    }
    let mut i: usize = 0;
    while i < v.len()
        invariant
            i <= v@.len(),
            v@ == name@,
            name@ == text::trimmed(header@),
            forall|j: int| 0 <= j < i ==> token_char(#[trigger] name@[j]),
        decreases v@.len() - i,
    {
        if !is_token_char(v[i]) {
            assert(!token_char(name@[i as int]));
            return Err(ConfigError::InvalidHeaderName);
        }
        i = i + 1;
    }
    Ok(())
}

/// No token can break out of its header line.
pub proof fn law_header_names_hold_no_separators(name: Seq<char>)
    requires
        token(name),
    ensures
        forall|i: int|
            0 <= i < name.len() ==> (#[trigger] name[i]) != ':' && name[i] != '\n' && name[i] != '\r'
                && name[i] != ' ',
{
    assert forall|i: int| 0 <= i < name.len() implies (#[trigger] name[i]) != ':' && name[i] != '\n'
        && name[i] != '\r' && name[i] != ' ' by {
        assert(token_char(name[i]));
    }
}

// ---------------------------------------------------------------------------
// Authentication
// ---------------------------------------------------------------------------

/// Authentication configuration. Generic over providers.
#[derive(Debug, PartialEq, Eq)]
pub enum AuthConfig {
    /// No authentication (useful for local mocks).
    NoAuth,
    /// Header-based auth where the token is read from an environment variable.
    ///
    /// `header` is the HTTP header name (e.g. `Authorization`, `x-api-key`, or
    /// provider-specific). `env_var` is the environment variable that holds
    /// the secret. `prefix` is prepended to the token value if set, e.g.
    /// `Some("Bearer ")` yields `Authorization: Bearer <token>`.
    Header { header: String, env_var: String, prefix: Option<String> },
}

pub enum AuthView {
    NoAuth,
    Header { header: Seq<char>, env_var: Seq<char>, prefix: Option<Seq<char>> },
}

impl View for AuthConfig {
    type V = AuthView;

    open spec fn view(&self) -> AuthView {
        match *self {
            AuthConfig::NoAuth => AuthView::NoAuth,
            AuthConfig::Header { header, env_var, prefix } => AuthView::Header {
                header: header@,
                env_var: env_var@,
                prefix: decode::text_view(prefix),
            },
        }
    }
}

impl Default for AuthConfig {
    fn default() -> (r: AuthConfig)
        ensures
            r == AuthConfig::NoAuth,
    {
        AuthConfig::NoAuth
    }
}

pub(crate) fn clone_optional_text(t: &Option<String>) -> (r: Option<String>)
    ensures
        decode::text_view(r) == decode::text_view(*t),
{
    match t {
        Some(s) => Some(s.clone()),
        None => None,
    }
}

impl Clone for AuthConfig {
    fn clone(&self) -> (r: AuthConfig)
        ensures
            r@ == self@,
    {
        match self {
            AuthConfig::NoAuth => AuthConfig::NoAuth,
            AuthConfig::Header { header, env_var, prefix } => AuthConfig::Header {
                header: header.clone(),
                env_var: env_var.clone(),
                prefix: clone_optional_text(prefix),
            },
        }
    }
}

/// What is wrong with an auth config, if anything is.
pub open spec fn auth_defect(a: AuthView) -> Option<ConfigErrorView> {
    match a {
        AuthView::NoAuth => None,
        AuthView::Header { header, env_var, .. } => if text::trimmed(header).len() == 0 {
            Some(ConfigErrorView::InvalidHeaderName)
        } else if !environment_name(text::trimmed(env_var)) {
            Some(ConfigErrorView::InvalidEnvVar(env_var))
        } else if !token(text::trimmed(header)) {
            Some(ConfigErrorView::InvalidHeaderName)
        } else {
            None
        },
    }
}

impl AuthConfig {
    /// Validate auth config without reading secrets.
    pub fn validate(&self) -> (r: Result<(), ConfigError>)
        ensures
            match r {
                Ok(()) => auth_defect(self@) is None,
                Err(e) => auth_defect(self@) == Some(e@),
            },
    {
        match self {
            AuthConfig::NoAuth => Ok(()),
            AuthConfig::Header { header, env_var, .. } => {
                if text::is_blank(header.as_str()) {
                    return Err(ConfigError::InvalidHeaderName);
                }
                if let Err(e) = validate_env_var(env_var.as_str()) {
                    return Err(e);
                }
                validate_header_name(header.as_str())
            },
        }
    }
}

// ---------------------------------------------------------------------------
// Models
// ---------------------------------------------------------------------------

/// Capabilities advertised by a model.
#[derive(Debug, Clone, Copy, PartialEq, Eq, Structural)]
pub struct ModelCapabilities {
    pub supports_tools: bool,
    pub supports_streaming: bool,
    pub supports_vision: bool,
}

/// What a capability that is on by default is where nothing is said of it.
pub fn default_true() -> (r: bool)
    ensures
        r,
{
    true
}

impl Default for ModelCapabilities {
    fn default() -> (r: ModelCapabilities)
        ensures
            r == (ModelCapabilities {
                supports_tools: true,
                supports_streaming: true,
                supports_vision: false,
            }),
    {
        ModelCapabilities { supports_tools: true, supports_streaming: true, supports_vision: false }
    }
}

/// A single model entry under a provider.
#[derive(Debug, Clone, PartialEq, Eq)]
pub struct ModelConfig {
    /// Model identifier as exposed to clients (e.g. `my-model-v1`).
    pub id: String,
    pub display_name: Option<String>,
    pub context_window: Option<u32>,
    pub max_output_tokens: Option<u32>,
    pub capabilities: ModelCapabilities,
}

pub struct ModelView {
    pub id: Seq<char>,
    pub display_name: Option<Seq<char>>,
    pub context_window: Option<u32>,
    pub max_output_tokens: Option<u32>,
    pub capabilities: ModelCapabilities,
}

impl View for ModelConfig {
    type V = ModelView;

    open spec fn view(&self) -> ModelView {
        ModelView {
            id: self.id@,
            display_name: decode::text_view(self.display_name),
            context_window: self.context_window,
            max_output_tokens: self.max_output_tokens,
            capabilities: self.capabilities,
        }
    }
}

impl ModelConfig {
    pub fn validate(&self) -> (r: Result<(), ConfigError>)
        ensures
            r is Ok <==> valid_model_id(self@.id),
            r matches Err(e) ==> e@ == ConfigErrorView::InvalidModelId(self@.id),
    {
        validate_model_id(self.id.as_str())
    }
}

// ---------------------------------------------------------------------------
// Base URLs
// ---------------------------------------------------------------------------

/// A parsed URL: its normalized text, its scheme and its host.
pub struct UrlView {
    pub text: Seq<char>,
    pub scheme: Seq<char>,
    pub host: Option<Seq<char>>,
}

/// What `url::Url::parse` makes of a text: the parts of the URL, or the
/// message of its error.
pub uninterp spec fn url_parse(input: Seq<char>) -> Result<UrlView, Seq<char>>;

/// A lower-case host name: letters, digits, hyphens and dots. Every label
/// begins with a letter and does not end in a hyphen; no two hyphens or dots
/// stand together.
pub open spec fn plain_host(h: Seq<char>) -> bool {
    h.len() > 0 && 'a' <= h[0] <= 'z' && h.last() != '.' && h.last() != '-' && forall|i: int|
        0 <= i < h.len() ==> {
            let c = #[trigger] h[i];
            let p = h[i - 1];
            ||| 'a' <= c <= 'z'
            ||| i > 0 && '0' <= c <= '9' && p != '.'
            ||| i > 0 && (c == '-' || c == '.') && p != '-' && p != '.'
        }
}

/// Either nothing, or a slash followed by lower-case letters, digits, hyphens
/// and slashes.
pub open spec fn plain_path(p: Seq<char>) -> bool {
    p.len() == 0 || p[0] == '/' && forall|i: int|
        0 <= i < p.len() ==> {
            let c = #[trigger] p[i];
            ||| 'a' <= c <= 'z'
            ||| '0' <= c <= '9'
            ||| c == '-'
            ||| c == '/'
        }
}

/// `https://`, a plain host and a plain path, of moderate length.
pub open spec fn plain_url(input: Seq<char>, host: Seq<char>, path: Seq<char>) -> bool {
    input == "https://"@ + host + path && plain_host(host) && plain_path(path) && input.len()
        <= 1000
}

/// The parts of such a URL. An empty path is written as a slash.
pub open spec fn plain_parts(host: Seq<char>, path: Seq<char>) -> UrlView {
    UrlView {
        text: "https://"@ + host + (if path.len() == 0 {
            seq!['/']
        } else {
            path
        }),
        scheme: "https"@,
        host: Some(host),
    }
}

pub open spec fn plain_result(host: Seq<char>, path: Seq<char>) -> Result<UrlView, Seq<char>> {
    Ok(plain_parts(host, path))
}

spec fn parsed_view(r: Result<(String, String, Option<String>), String>) -> Result<
    UrlView,
    Seq<char>,
> {
    match r {
        Ok((t, scheme, host)) => Ok(
            UrlView { text: t@, scheme: scheme@, host: decode::text_view(host) },
        ),
        Err(message) => Err(message@),
    }
}

/// `url::Url::parse` and the accessors of what it returns, named by
/// [`url_parse`]. A plain `https` URL is taken as it is: the host passes
/// through domain processing unchanged, and the path holds no dot segment and
/// nothing to be escaped.
#[verifier::external_body]
fn parse_url(input: &str) -> (r: Result<(String, String, Option<String>), String>)
    ensures
        parsed_view(r) == url_parse(input@),
        forall|host: Seq<char>, path: Seq<char>| #[trigger]
            plain_url(input@, host, path) ==> parsed_view(r) == plain_result(host, path),
{
    match url::Url::parse(input) {
        Ok(u) => Ok((
            u.to_string(),
            u.scheme().to_string(),
            u.host_str().map(|h| h.to_string()),
        )),
        Err(e) => Err(e.to_string()),
    }
}

/// A base URL in the normal form that `url::Url` gives it.
#[derive(Debug, PartialEq, Eq)]
pub struct BaseUrl {
    text: String,
    scheme: String,
    host: Option<String>,
}

impl View for BaseUrl {
    type V = UrlView;

    closed spec fn view(&self) -> UrlView {
        UrlView {
            text: self.text@,
            scheme: self.scheme@,
            host: decode::text_view(self.host),
        }
    }
}

impl Clone for BaseUrl {
    fn clone(&self) -> (r: BaseUrl)
        ensures
            r@ == self@,
    {
        BaseUrl {
            text: self.text.clone(),
            scheme: self.scheme.clone(),
            host: clone_optional_text(&self.host),
        }
    }
}

impl BaseUrl {
    pub fn parse(input: &str) -> (r: Result<BaseUrl, String>)
        ensures
            match r {
                Ok(u) => url_parse(input@) == Ok::<UrlView, Seq<char>>(u@),
                Err(message) => url_parse(input@) == Err::<UrlView, Seq<char>>(message@),
            },
            forall|host: Seq<char>, path: Seq<char>| #[trigger]
                plain_url(input@, host, path) ==> url_parse(input@) == plain_result(host, path),
    {
        match parse_url(input) {
            Ok((t, scheme, host)) => Ok(BaseUrl { text: t, scheme, host }),
            Err(message) => Err(message),
        }
    }

    pub fn as_str(&self) -> (r: &str)
        ensures
            r@ == self@.text,
    {
        self.text.as_str()
    }

    pub fn scheme(&self) -> (r: &str)
        ensures
            r@ == self@.scheme,
    {
        self.scheme.as_str()
    }

    pub fn has_host(&self) -> (r: bool)
        ensures
            r == self@.host is Some,
    {
        self.host.is_some()
    }
}

// ---------------------------------------------------------------------------
// Providers
// ---------------------------------------------------------------------------

/// How often and how patiently a failed request is sent again.
#[derive(Debug, Clone, Copy, PartialEq, Eq, Structural)]
pub struct RetryConfig {
    pub max_retries: u32,
    pub base_delay_ms: u64,
    pub max_delay_ms: u64,
}

impl Default for RetryConfig {
    fn default() -> (r: RetryConfig)
        ensures
            r == (RetryConfig { max_retries: 2, base_delay_ms: 500, max_delay_ms: 5000 }),
    {
        RetryConfig { max_retries: 2, base_delay_ms: 500, max_delay_ms: 5000 }
    }
}

/// Provider-level configuration.
#[derive(Debug, Clone, PartialEq, Eq)]
pub struct ProviderConfig {
    /// Provider identity (e.g. `example`). Must match `^[a-zA-Z0-9_.-]+$`.
    pub id: String,
    /// Base URL for the upstream Anthropic-compatible endpoint (no trailing
    /// path required). The adapter appends `/v1/messages`.
    pub base_url: BaseUrl,
    pub auth: AuthConfig,
    pub models: Vec<ModelConfig>,
    pub timeout_ms: Option<u64>,
    pub connect_timeout_ms: Option<u64>,
    pub read_timeout_ms: Option<u64>,
    pub default_model: Option<String>,
    pub extra_headers: Vec<(String, String)>,
    pub retry: Option<RetryConfig>,
}

pub struct ProviderView {
    pub id: Seq<char>,
    pub base_url: UrlView,
    pub auth: AuthView,
    pub models: Seq<ModelView>,
    pub timeout_ms: Option<u64>,
    pub connect_timeout_ms: Option<u64>,
    pub read_timeout_ms: Option<u64>,
    pub default_model: Option<Seq<char>>,
    pub extra_headers: Seq<(Seq<char>, Seq<char>)>,
    pub retry: Option<RetryConfig>,
}

impl View for ProviderConfig {
    type V = ProviderView;

    open spec fn view(&self) -> ProviderView {
        ProviderView {
            id: self.id@,
            base_url: self.base_url@,
            auth: self.auth@,
            models: decode::all_views(self.models@),
            timeout_ms: self.timeout_ms,
            connect_timeout_ms: self.connect_timeout_ms,
            read_timeout_ms: self.read_timeout_ms,
            default_model: decode::text_view(self.default_model),
            extra_headers: types::headers_view(self.extra_headers@),
            retry: self.retry,
        }
    }
}

/// The ids of a list of models.
pub open spec fn ids_of(models: Seq<ModelView>) -> Seq<Seq<char>> {
    models.map_values(|m: ModelView| m.id)
}

/// What is wrong with a URL as the base of a provider, if anything is.
pub open spec fn url_defect(u: UrlView) -> Option<ConfigErrorView> {
    if u.scheme != "http"@ && u.scheme != "https"@ {
        Some(
            ConfigErrorView::InvalidBaseUrl("unsupported scheme '"@ + u.scheme + "' in "@ + u.text),
        )
    } else if u.host is None {
        Some(ConfigErrorView::InvalidBaseUrl("missing host in "@ + u.text))
    } else {
        None
    }
}

/// The first model of a list that is invalid or a duplicate, if one is.
pub open spec fn models_defect(provider: Seq<char>, ids: Seq<Seq<char>>) -> Option<ConfigErrorView>
    decreases ids.len(),
{
    if ids.len() == 0 {
        None
    } else {
        match models_defect(provider, ids.drop_last()) {
            Some(e) => Some(e),
            None => if !valid_model_id(ids.last()) {
                Some(ConfigErrorView::InvalidModelId(ids.last()))
            } else if ids.drop_last().contains(ids.last()) {
                Some(ConfigErrorView::DuplicateModelId { provider, model: ids.last() })
            } else {
                None
            },
        }
    }
}

proof fn lemma_models_defect_stays(provider: Seq<char>, ids: Seq<Seq<char>>, n: int)
    requires
        0 <= n <= ids.len(),
        models_defect(provider, ids.take(n)) is Some,
    ensures
        models_defect(provider, ids) == models_defect(provider, ids.take(n)),
    decreases ids.len(),
{
    if n < ids.len() {
        assert(ids.drop_last().take(n) =~= ids.take(n));
        lemma_models_defect_stays(provider, ids.drop_last(), n);
    } else {
        assert(ids.take(n) =~= ids);
    }
}

/// A list without defects holds valid ids, each of them once.
pub proof fn law_accepted_models_distinct(provider: Seq<char>, ids: Seq<Seq<char>>)
    requires
        models_defect(provider, ids) is None,
    ensures
        ids.no_duplicates(),
        forall|i: int| 0 <= i < ids.len() ==> valid_model_id(#[trigger] ids[i]),
    decreases ids.len(),
{
    if ids.len() > 0 {
        let front = ids.drop_last();
        law_accepted_models_distinct(provider, front);
        assert forall|i: int| 0 <= i < ids.len() implies valid_model_id(#[trigger] ids[i]) by {
            if i < front.len() {
                assert(front[i] == ids[i]);
            }
        }
        assert forall|i: int, j: int| 0 <= i < j < ids.len() implies ids[i] != ids[j] by {
            assert(front[i] == ids[i]);
            if j < front.len() {
                assert(front[j] == ids[j]);
            } else if ids[i] == ids[j] {
                assert(front.contains(ids.last()));
            }
        }
    }
}

pub open spec fn timeout_defect(ms: Option<u64>) -> Option<ConfigErrorView> {
    if ms == Some(0u64) {
        Some(ConfigErrorView::InvalidTimeout(0))
    } else {
        None
    }
}

pub open spec fn headers_valid(headers: Seq<(Seq<char>, Seq<char>)>) -> bool {
    forall|i: int| 0 <= i < headers.len() ==> token(text::trimmed((#[trigger] headers[i]).0))
}

/// What is wrong with a provider config, if anything is; the first defect in
/// the order below.
pub open spec fn provider_defect(p: ProviderView) -> Option<ConfigErrorView> {
    if !valid_provider_id(p.id) {
        Some(ConfigErrorView::InvalidProviderId(p.id))
    } else if url_defect(p.base_url) is Some {
        url_defect(p.base_url)
    } else if auth_defect(p.auth) is Some {
        auth_defect(p.auth)
    } else if timeout_defect(p.timeout_ms) is Some {
        timeout_defect(p.timeout_ms)
    } else if timeout_defect(p.connect_timeout_ms) is Some {
        timeout_defect(p.connect_timeout_ms)
    } else if timeout_defect(p.read_timeout_ms) is Some {
        timeout_defect(p.read_timeout_ms)
    } else if models_defect(p.id, ids_of(p.models)) is Some {
        models_defect(p.id, ids_of(p.models))
    } else if p.default_model is Some && !ids_of(p.models).contains(p.default_model->Some_0) {
        Some(ConfigErrorView::DefaultModelNotFound(p.default_model->Some_0))
    } else if !headers_valid(p.extra_headers) {
        Some(ConfigErrorView::InvalidHeaderName)
    } else {
        None
    }
}

fn has_model(models: &Vec<ModelConfig>, upto: usize, id: &str) -> (r: bool)
    requires
        upto <= models@.len(),
    ensures
        r == ids_of(decode::all_views(models@)).take(upto as int).contains(id@),
{
    let ghost ids = ids_of(decode::all_views(models@)).take(upto as int);
    let mut i: usize = 0;
    while i < upto
        invariant
            i <= upto <= models@.len(),
            ids == ids_of(decode::all_views(models@)).take(upto as int),
            forall|j: int| 0 <= j < i ==> #[trigger] ids[j] != id@,
        decreases upto - i,
    {
        assert(ids[i as int] == models@[i as int].id@);
        if text::same(models[i].id.as_str(), id) {
            return true;
        }
        i = i + 1;
    }
    false
}

fn validate_models(provider: &str, models: &Vec<ModelConfig>) -> (r: Result<(), ConfigError>)
    ensures
        match r {
            Ok(()) => models_defect(provider@, ids_of(decode::all_views(models@))) is None,
            Err(e) => models_defect(provider@, ids_of(decode::all_views(models@))) == Some(e@),
        },
{
    let ghost ids = ids_of(decode::all_views(models@));
    let mut i: usize = 0;
    while i < models.len()
        invariant
            i <= models@.len(),
            ids == ids_of(decode::all_views(models@)),
            models_defect(provider@, ids.take(i as int)) is None,
        decreases models@.len() - i,
    {
        proof {
            assert(ids.take(i + 1).drop_last() =~= ids.take(i as int));
            assert(ids.take(i + 1).last() == models@[i as int].id@);
        }
        if let Err(e) = models[i].validate() {
            proof {
                lemma_models_defect_stays(provider@, ids, i + 1);
            }
            return Err(e);
        }
        if has_model(models, i, models[i].id.as_str()) {
            proof {
                lemma_models_defect_stays(provider@, ids, i + 1);
            }
            return Err(
                ConfigError::DuplicateModelId {
                    provider: provider.to_owned(),
                    model: models[i].id.clone(),
                },
            );
        }
        i = i + 1;
    }
    assert(ids.take(i as int) =~= ids);
    Ok(())
}

fn validate_timeout(ms: Option<u64>) -> (r: Result<(), ConfigError>)
    ensures
        match r {
            Ok(()) => timeout_defect(ms) is None,
            Err(e) => timeout_defect(ms) == Some(e@),
        },
{
    match ms {
        Some(n) => if n == 0 {
            Err(ConfigError::InvalidTimeout(n))
        } else {
            Ok(())
        },
        None => Ok(()),
    }
}

fn validate_base_url(u: &BaseUrl) -> (r: Result<(), ConfigError>)
    ensures
        match r {
            Ok(()) => url_defect(u@) is None,
            Err(e) => url_defect(u@) == Some(e@),
        },
{
    if !text::same(u.scheme(), "http") && !text::same(u.scheme(), "https") {
        let mut why = text::concat3("unsupported scheme '", u.scheme(), "' in ");
        why.append(u.as_str());
        return Err(ConfigError::InvalidBaseUrl(why));
    }
    if !u.has_host() {
        return Err(ConfigError::InvalidBaseUrl(text::concat2("missing host in ", u.as_str())));
    }
    Ok(())
}

fn validate_headers(headers: &Vec<(String, String)>) -> (r: Result<(), ConfigError>)
    ensures
        match r {
            Ok(()) => headers_valid(types::headers_view(headers@)),
            Err(e) => !headers_valid(types::headers_view(headers@)) && e@
                == ConfigErrorView::InvalidHeaderName,
        },
{
    let ghost all = types::headers_view(headers@);
    let mut i: usize = 0;
    while i < headers.len()
        invariant
            i <= headers@.len(),
            all == types::headers_view(headers@),
            forall|j: int| 0 <= j < i ==> token(text::trimmed((#[trigger] all[j]).0)),
        decreases headers@.len() - i,
    {
        assert(all[i as int].0 == headers@[i as int].0@);
        if let Err(e) = validate_header_name(headers[i].0.as_str()) {
            return Err(e);
        }
        i = i + 1;
    }
    Ok(())
}

impl ProviderConfig {
    /// Validate the config.
    ///
    /// - rejects surrounding whitespace in ids,
    /// - rejects empty ids,
    /// - validates the `base_url` scheme,
    /// - validates auth, timeouts and models.
    pub fn validate(&self) -> (r: Result<(), ConfigError>)
        ensures
            match r {
                Ok(()) => provider_defect(self@) is None,
                Err(e) => provider_defect(self@) == Some(e@),
            },
    {
        if let Err(e) = validate_provider_id(self.id.as_str()) {
            return Err(e);
        }
        if let Err(e) = validate_base_url(&self.base_url) {
            return Err(e);
        }
        if let Err(e) = self.auth.validate() {
            return Err(e);
        }
        if let Err(e) = validate_timeout(self.timeout_ms) {
            return Err(e);
        }
        if let Err(e) = validate_timeout(self.connect_timeout_ms) {
            return Err(e);
        }
        if let Err(e) = validate_timeout(self.read_timeout_ms) {
            return Err(e);
        }
        if let Err(e) = validate_models(self.id.as_str(), &self.models) {
            return Err(e);
        }
        if let Some(default) = &self.default_model {
            let known = has_model(&self.models, self.models.len(), default.as_str());
            proof {
                let ids = ids_of(decode::all_views(self.models@));
                assert(ids.take(self.models@.len() as int) =~= ids);
            }
            if !known {
                return Err(ConfigError::DefaultModelNotFound(default.clone()));
            }
        }
        validate_headers(&self.extra_headers)
    }

    /// Normalized base URL string without trailing slash.
    pub fn normalized_base_url(&self) -> (r: String)
        ensures
            r@ == text::trimmed_end_of(self@.base_url.text, '/'),
    {
        text::trim_end_of(self.base_url.as_str(), '/').to_owned()
    }
}

} // verus!
