//! Generic Anthropic Messages upstream adapter.
//!
//! It speaks the Anthropic Messages wire protocol and is therefore usable with
//! any provider that exposes an Anthropic-compatible `/v1/messages` endpoint.
//! Everything that is decided about a request stands here: what is sent, what
//! a response means, and whether and when to try again. Sending is left to the
//! caller.

use vstd::prelude::*;
use vstd::string::*;

use crate::json;
use crate::json::{Json, JsonView};
use crate::providers::adapter::ProviderAdapter;
use crate::providers::config;
use crate::providers::config::{
    AuthConfig, AuthView, BaseUrl, ProviderConfig, ProviderView, RetryConfig,
};
use crate::providers::credentials;
use crate::providers::credentials::Headers;
use crate::providers::decode;
use crate::providers::decode::{FromJson, ToJson};
use crate::providers::error;
use crate::providers::error::{ProviderError, ProviderErrorView};
use crate::providers::stream;
use crate::providers::stream::{SseParser, StreamEvent, StreamEventView};
use crate::providers::types;
use crate::providers::types::{MessagesRequest, MessagesResponse, RequestView, ResponseView};
use crate::text;

verus! {

/// Default connect timeout: 10 seconds.
pub const DEFAULT_CONNECT_TIMEOUT_MS: u64 = 10_000;

/// Default read timeout: 120 seconds (per socket read, not total request).
pub const DEFAULT_READ_TIMEOUT_MS: u64 = 120_000;

// ---------------------------------------------------------------------------
// The adapter
// ---------------------------------------------------------------------------

/// Generic Anthropic-compatible upstream adapter.
///
/// Configuration is validated on construction. Secrets are handed in at
/// request time, never stored.
#[derive(Debug, Clone, PartialEq, Eq)]
pub struct AnthropicAdapter {
    pub provider_id: String,
    pub base_url: String,
    pub auth: AuthConfig,
    pub connect_timeout_ms: u64,
    pub read_timeout_ms: u64,
    pub retry: RetryConfig,
    pub extra_headers: Vec<(String, String)>,
}

pub struct AdapterView {
    pub provider_id: Seq<char>,
    pub base_url: Seq<char>,
    pub auth: AuthView,
    pub connect_timeout_ms: u64,
    pub read_timeout_ms: u64,
    pub retry: RetryConfig,
    pub extra_headers: Seq<(Seq<char>, Seq<char>)>,
}

impl View for AnthropicAdapter {
    type V = AdapterView;

    open spec fn view(&self) -> AdapterView {
        AdapterView {
            provider_id: self.provider_id@,
            base_url: self.base_url@,
            auth: self.auth@,
            connect_timeout_ms: self.connect_timeout_ms,
            read_timeout_ms: self.read_timeout_ms,
            retry: self.retry,
            extra_headers: types::headers_view(self.extra_headers@),
        }
    }
}

pub open spec fn default_retry() -> RetryConfig {
    RetryConfig { max_retries: 2, base_delay_ms: 500, max_delay_ms: 5000 }
}

/// The adapter of a valid provider config.
pub open spec fn adapter_of(c: ProviderView) -> AdapterView {
    AdapterView {
        provider_id: c.id,
        base_url: text::trimmed_end_of(c.base_url.text, '/'),
        auth: c.auth,
        connect_timeout_ms: match c.connect_timeout_ms {
            Some(ms) => ms,
            None => DEFAULT_CONNECT_TIMEOUT_MS,
        },
        read_timeout_ms: match c.read_timeout_ms {
            Some(ms) => ms,
            None => DEFAULT_READ_TIMEOUT_MS,
        },
        retry: match c.retry {
            Some(r) => r,
            None => default_retry(),
        },
        extra_headers: c.extra_headers,
    }
}

/// Why an adapter cannot be made for a base URL and an auth config, if it
/// cannot.
pub open spec fn adapter_defect(base_url: Seq<char>, auth: AuthView) -> Option<Seq<char>> {
    match config::url_parse(base_url) {
        Err(message) => Some("invalid base_url: "@ + message),
        Ok(u) => if u.scheme != "http"@ && u.scheme != "https"@ {
            Some("unsupported scheme '"@ + u.scheme + "'"@)
        } else {
            match config::auth_defect(auth) {
                Some(e) => Some(e.display()),
                None => None,
            }
        },
    }
}

pub(crate) fn clone_headers(headers: &Vec<(String, String)>) -> (r: Vec<(String, String)>)
    ensures
        types::headers_view(r@) == types::headers_view(headers@),
{
    let mut r: Vec<(String, String)> = Vec::new();
    let mut i: usize = 0;
    while i < headers.len()
        invariant
            i <= headers@.len(),
            r@.len() == i,
            forall|j: int| 0 <= j < i ==> (#[trigger] r@[j]).0@ == headers@[j].0@,
            forall|j: int| 0 <= j < i ==> (#[trigger] r@[j]).1@ == headers@[j].1@,
        decreases headers@.len() - i,
    {
        r.push((headers[i].0.clone(), headers[i].1.clone()));
        i = i + 1;
    }
    assert(types::headers_view(r@) =~= types::headers_view(headers@));
    r
}

impl AnthropicAdapter {
    /// Create an adapter from a [`ProviderConfig`], which has to be valid.
    pub fn from_config(config: &ProviderConfig) -> (r: Result<AnthropicAdapter, ProviderError>)
        ensures
            match r {
                Ok(a) => config::provider_defect(config@) is None && a@ == adapter_of(config@),
                Err(e) => config::provider_defect(config@) matches Some(defect) && e@
                    == ProviderErrorView::Config(defect.display()),
            },
    {
        if let Err(e) = config.validate() {
            return Err(ProviderError::Config(e.to_string()));
        }
        Ok(
            AnthropicAdapter {
                provider_id: config.id.clone(),
                base_url: config.normalized_base_url(),
                auth: config.auth.clone(),
                connect_timeout_ms: match config.connect_timeout_ms {
                    Some(ms) => ms,
                    None => DEFAULT_CONNECT_TIMEOUT_MS,
                },
                read_timeout_ms: match config.read_timeout_ms {
                    Some(ms) => ms,
                    None => DEFAULT_READ_TIMEOUT_MS,
                },
                retry: match config.retry {
                    Some(retry) => retry,
                    None => RetryConfig::default(),
                },
                extra_headers: clone_headers(&config.extra_headers),
            },
        )
    }

    /// Direct constructor with the default connect timeout.
    pub fn new(
        provider_id: &str,
        base_url: &str,
        auth: AuthConfig,
        read_timeout_ms: u64,
    ) -> (r: Result<AnthropicAdapter, ProviderError>)
        ensures
            match r {
                Ok(a) => adapter_defect(base_url@, auth@) is None && a@ == direct_adapter(
                    provider_id@,
                    base_url@,
                    auth@,
                    DEFAULT_CONNECT_TIMEOUT_MS,
                    read_timeout_ms,
                ),
                Err(e) => adapter_defect(base_url@, auth@) matches Some(why) && e@
                    == ProviderErrorView::Config(why),
            },
    {
        AnthropicAdapter::with_timeouts(
            provider_id,
            base_url,
            auth,
            DEFAULT_CONNECT_TIMEOUT_MS,
            read_timeout_ms,
        )
    }

    /// Direct constructor with explicit connect and read timeouts.
    pub fn with_timeouts(
        provider_id: &str,
        base_url: &str,
        auth: AuthConfig,
        connect_timeout_ms: u64,
        read_timeout_ms: u64,
    ) -> (r: Result<AnthropicAdapter, ProviderError>)
        ensures
            match r {
                Ok(a) => adapter_defect(base_url@, auth@) is None && a@ == direct_adapter(
                    provider_id@,
                    base_url@,
                    auth@,
                    connect_timeout_ms,
                    read_timeout_ms,
                ),
                Err(e) => adapter_defect(base_url@, auth@) matches Some(why) && e@
                    == ProviderErrorView::Config(why),
            },
    {
        let parsed = match BaseUrl::parse(base_url) {
            Ok(u) => u,
            Err(message) => return Err(
                ProviderError::Config(text::concat2("invalid base_url: ", message.as_str())),
            ),
        };
        if !text::same(parsed.scheme(), "http") && !text::same(parsed.scheme(), "https") {
            return Err(
                ProviderError::Config(
                    text::concat3("unsupported scheme '", parsed.scheme(), "'"),
                ),
            );
        }
        if let Err(e) = auth.validate() {
            return Err(ProviderError::Config(e.to_string()));
        }
        let none: Vec<(String, String)> = Vec::new();
        assert(types::headers_view(none@) =~= Seq::<(Seq<char>, Seq<char>)>::empty());
        Ok(
            AnthropicAdapter {
                provider_id: provider_id.to_owned(),
                base_url: text::trim_end_of(base_url, '/').to_owned(),
                auth,
                connect_timeout_ms,
                read_timeout_ms,
                retry: RetryConfig::default(),
                extra_headers: none,
            },
        )
    }

    /// Set a custom retry config.
    pub fn with_retry(self, retry: RetryConfig) -> (r: AnthropicAdapter)
        ensures
            r@ == (AdapterView { retry, ..self@ }),
    {
        let mut r = self;
        r.retry = retry;
        r
    }

    /// Where requests are sent.
    pub fn endpoint(&self) -> (r: String)
        ensures
            r@ == self@.base_url + "/v1/messages"@,
    {
        text::concat2(self.base_url.as_str(), "/v1/messages")
    }
}

/// The adapter that a direct constructor makes.
pub open spec fn direct_adapter(
    provider_id: Seq<char>,
    base_url: Seq<char>,
    auth: AuthView,
    connect_timeout_ms: u64,
    read_timeout_ms: u64,
) -> AdapterView {
    AdapterView {
        provider_id,
        base_url: text::trimmed_end_of(base_url, '/'),
        auth,
        connect_timeout_ms,
        read_timeout_ms,
        retry: default_retry(),
        extra_headers: Seq::empty(),
    }
}

/// Why the adapter refuses a request, if it does.
pub open spec fn refusal(r: RequestView) -> Option<ProviderErrorView> {
    match types::request_defect(r) {
        Some(message) => Some(ProviderErrorView::Config("invalid request: "@ + message)),
        None => None,
    }
}

impl ProviderAdapter for AnthropicAdapter {
    open spec fn id(&self) -> Seq<char> {
        self@.provider_id
    }

    fn provider_id(&self) -> (r: &str) {
        self.provider_id.as_str()
    }

    /// Check that a request can be sent.
    fn validate_request(&self, request: &MessagesRequest) -> (r: Result<(), ProviderError>)
        ensures
            match r {
                Ok(()) => refusal(request@) is None,
                Err(e) => refusal(request@) == Some(e@),
            },
    {
        match request.validate() {
            Ok(()) => Ok(()),
            Err(message) => Err(
                ProviderError::Config(text::concat2("invalid request: ", message.as_str())),
            ),
        }
    }
}

// ---------------------------------------------------------------------------
// Headers
// ---------------------------------------------------------------------------

/// What `HeaderName::from_bytes` accepts: a token of at most 65535 characters.
pub open spec fn header_name_ok(name: Seq<char>) -> bool {
    config::token(name) && name.len() <= 65535
}

/// `reqwest::header::HeaderName::from_bytes` accepts a token that is not too
/// long, and nothing else.
#[verifier::external_body]
fn header_name(name: &str) -> (r: bool)
    ensures
        r == header_name_ok(name@),
{
    reqwest::header::HeaderName::from_bytes(name.as_bytes()).is_ok()
}

/// What `HeaderValue::from_str` accepts: no control character but the tab.
pub open spec fn header_value_ok(value: Seq<char>) -> bool {
    forall|i: int|
        0 <= i < value.len() ==> (#[trigger] value[i]) == '\t' || value[i] as u32 >= 32
            && value[i] as u32 != 127
}

/// `reqwest::header::HeaderValue::from_str` refuses a value exactly where it
/// holds an ASCII control character other than the tab.
#[verifier::external_body]
pub(crate) fn header_value(value: &str) -> (r: bool)
    ensures
        r == header_value_ok(value@),
{
    reqwest::header::HeaderValue::from_str(value).is_ok()
}

/// The header maps of `reqwest`; what one holds is named by
/// [`header_contents`].
#[verifier::external_type_specification]
#[verifier::external_body]
#[verifier::reject_recursive_types(T)]
pub struct ExHeaderMap<T>(reqwest::header::HeaderMap<T>);

/// The values in a header map.
#[verifier::external_type_specification]
#[verifier::external_body]
pub struct ExHeaderValue(reqwest::header::HeaderValue);

/// What a header map holds: under each name, in small letters, the text of its
/// first value.
pub uninterp spec fn header_contents(m: reqwest::header::HeaderMap) -> Map<Seq<char>, Seq<char>>;

/// The number of headers up to which a header map takes one more. With more
/// than these it may do so or not, by how the hashes of the names are spread.
pub const HEADER_ROOM: usize = 6553;

pub open spec fn no_headers() -> Map<Seq<char>, Seq<char>> {
    Map::empty()
}

/// `reqwest::header::HeaderMap::new` gives an empty map.
#[verifier::external_body]
fn new_header_map() -> (m: reqwest::header::HeaderMap)
    ensures
        header_contents(m) == no_headers(),
{
    reqwest::header::HeaderMap::new()
}

/// `reqwest::header::HeaderMap::try_insert`: the value replaces those that the
/// name had, which is kept in small letters. It may be refused only by a map
/// that holds more than [`HEADER_ROOM`] headers, and the map is then left as
/// it was. The name and the value are converted by `HeaderName::from_bytes` and
/// `HeaderValue::from_str`, which take what is required of them here.
#[verifier::external_body]
fn insert_header(m: &mut reqwest::header::HeaderMap, name: &str, value: &str) -> (r: bool)
    requires
        header_name_ok(name@),
        header_value_ok(value@),
    ensures
        r ==> header_contents(*final(m)) == header_contents(*old(m)).insert(
            text::lowered(name@),
            value@,
        ),
        !r ==> header_contents(*final(m)) == header_contents(*old(m)) && header_contents(
            *old(m),
        ).dom().finite() && header_contents(*old(m)).dom().len() > HEADER_ROOM,
{
    match (
        reqwest::header::HeaderName::from_bytes(name.as_bytes()),
        reqwest::header::HeaderValue::from_str(value),
    ) {
        (Ok(name), Ok(value)) => m.try_insert(name, value).is_ok(),
        _ => false,
    }
}

/// The error where a request has more headers than a header map takes.
pub open spec fn too_many_headers() -> ProviderErrorView {
    ProviderErrorView::Config("too many headers"@)
}

fn header_overflow() -> (r: ProviderError)
    ensures
        r@ == too_many_headers(),
{
    ProviderError::Config("too many headers".to_owned())
}

/// Whether a request may have more headers than a header map takes: the fixed
/// ones and the credential make three.
pub open spec fn headers_may_overflow(
    a: AdapterView,
    forward: Seq<(Seq<char>, Seq<char>)>,
) -> bool {
    3 + forward.len() + a.extra_headers.len() > HEADER_ROOM
}

/// `m` with a list of headers set one after the other. A name or value that no
/// header can have is an error, its message begun by `bad_name` or `bad_value`.
pub open spec fn with_headers(
    m: Map<Seq<char>, Seq<char>>,
    list: Seq<(Seq<char>, Seq<char>)>,
    bad_name: Seq<char>,
    bad_value: Seq<char>,
) -> Result<Map<Seq<char>, Seq<char>>, ProviderErrorView>
    decreases list.len(),
{
    if list.len() == 0 {
        Ok(m)
    } else {
        match with_headers(m, list.drop_last(), bad_name, bad_value) {
            Err(e) => Err(e),
            Ok(done) => {
                let (name, value) = list.last();
                if !header_name_ok(name) {
                    Err(ProviderErrorView::Config(bad_name + name))
                } else if !header_value_ok(value) {
                    Err(ProviderErrorView::Config(bad_value + name))
                } else {
                    Ok(done.insert(text::lowered(name), value))
                }
            },
        }
    }
}

proof fn lemma_with_headers_error(
    m: Map<Seq<char>, Seq<char>>,
    list: Seq<(Seq<char>, Seq<char>)>,
    bad_name: Seq<char>,
    bad_value: Seq<char>,
    n: int,
)
    requires
        0 <= n <= list.len(),
        with_headers(m, list.take(n), bad_name, bad_value) is Err,
    ensures
        with_headers(m, list, bad_name, bad_value) == with_headers(
            m,
            list.take(n),
            bad_name,
            bad_value,
        ),
    decreases list.len(),
{
    if n < list.len() {
        assert(list.drop_last().take(n) =~= list.take(n));
        lemma_with_headers_error(m, list.drop_last(), bad_name, bad_value, n);
    } else {
        assert(list.take(n) =~= list);
    }
}

/// The headers that every request has.
pub open spec fn base_headers() -> Map<Seq<char>, Seq<char>> {
    no_headers().insert("content-type"@, "application/json"@).insert(
        "anthropic-version"@,
        "2023-06-01"@,
    )
}

/// With the header that carries the credential.
pub open spec fn authenticated(
    m: Map<Seq<char>, Seq<char>>,
    auth: AuthView,
    token: Option<Seq<char>>,
) -> Result<Map<Seq<char>, Seq<char>>, ProviderErrorView> {
    match token {
        None => Ok(m),
        Some(t) => match credentials::auth_header(auth, t) {
            None => Ok(m),
            Some((name, value)) => if !header_name_ok(name) {
                Err(ProviderErrorView::Config("invalid header name: "@ + name))
            } else if !header_value_ok(value) {
                Err(ProviderErrorView::Config("invalid header value"@))
            } else {
                Ok(m.insert(text::lowered(name), value))
            },
        },
    }
}

/// The headers of a request: the fixed ones, the credential, the forwarded
/// client headers and the configured extra headers, each over those before.
pub open spec fn request_headers(
    a: AdapterView,
    secret: Option<Seq<char>>,
    forward: Seq<(Seq<char>, Seq<char>)>,
) -> Result<Map<Seq<char>, Seq<char>>, ProviderErrorView> {
    match credentials::credential(a.auth, secret) {
        Err(e) => Err(e),
        Ok(token) => match authenticated(base_headers(), a.auth, token) {
            Err(e) => Err(e),
            Ok(m) => match with_headers(
                m,
                forward,
                "invalid header name: "@,
                "invalid header value for "@,
            ) {
                Err(e) => Err(e),
                Ok(m) => with_headers(
                    m,
                    a.extra_headers,
                    "invalid extra header name: "@,
                    "invalid extra header value for "@,
                ),
            },
        },
    }
}

fn put_headers(
    m: &mut reqwest::header::HeaderMap,
    list: &Vec<(String, String)>,
    bad_name: &str,
    bad_value: &str,
) -> (r: Result<(), ProviderError>)
    requires
        header_contents(*old(m)).dom().finite(),
    ensures
        match r {
            Ok(()) => with_headers(
                header_contents(*old(m)),
                types::headers_view(list@),
                bad_name@,
                bad_value@,
            ) == Ok::<Map<Seq<char>, Seq<char>>, ProviderErrorView>(header_contents(*final(m))),
            Err(e) => with_headers(
                header_contents(*old(m)),
                types::headers_view(list@),
                bad_name@,
                bad_value@,
            ) == Err::<Map<Seq<char>, Seq<char>>, ProviderErrorView>(e@) || (e@
                == too_many_headers() && header_contents(*old(m)).dom().len() + list@.len()
                > HEADER_ROOM),
        },
        r is Ok ==> header_contents(*final(m)).dom().finite(),
        r is Ok ==> header_contents(*final(m)).dom().len() <= header_contents(
            *old(m),
        ).dom().len() + list@.len(),
{
    let ghost all = types::headers_view(list@);
    let ghost start = header_contents(*m);
    let mut i: usize = 0;
    while i < list.len()
        invariant
            i <= list@.len(),
            all == types::headers_view(list@),
            start == header_contents(*old(m)),
            header_contents(*m).dom().finite(),
            header_contents(*m).dom().len() <= start.dom().len() + i,
            with_headers(start, all.take(i as int), bad_name@, bad_value@) == Ok::<
                Map<Seq<char>, Seq<char>>,
                ProviderErrorView,
            >(header_contents(*m)),
        decreases list@.len() - i,
    {
        let name = list[i].0.as_str();
        let value = list[i].1.as_str();
        proof {
            assert(all.take(i + 1).drop_last() =~= all.take(i as int));
            assert(all.take(i + 1).last() == (name@, value@));
        }
        if !header_name(name) {
            proof {
                lemma_with_headers_error(start, all, bad_name@, bad_value@, i + 1);
            }
            return Err(ProviderError::Config(text::concat2(bad_name, name)));
        }
        if !header_value(value) {
            proof {
                lemma_with_headers_error(start, all, bad_name@, bad_value@, i + 1);
            }
            return Err(ProviderError::Config(text::concat2(bad_value, name)));
        }
        if !insert_header(m, name, value) {
            return Err(header_overflow());
        }
        i = i + 1;
    }
    assert(all.take(i as int) =~= all);
    Ok(())
}

impl AnthropicAdapter {
    /// The headers of a request, `secret` being what the environment holds
    /// under the variable of the auth config.
    pub fn build_headers(
        &self,
        secret: Option<String>,
        forward_headers: &Vec<(String, String)>,
    ) -> (r: Result<reqwest::header::HeaderMap, ProviderError>)
        ensures
            match r {
                Ok(m) => request_headers(
                    self@,
                    types::optional_view(secret),
                    types::headers_view(forward_headers@),
                ) == Ok::<Map<Seq<char>, Seq<char>>, ProviderErrorView>(header_contents(m)),
                Err(e) => request_headers(
                    self@,
                    types::optional_view(secret),
                    types::headers_view(forward_headers@),
                ) == Err::<Map<Seq<char>, Seq<char>>, ProviderErrorView>(e@) || (e@
                    == too_many_headers() && headers_may_overflow(
                    self@,
                    types::headers_view(forward_headers@),
                )),
            },
    {
        let mut m = new_header_map();
        proof {
            lemma_base_headers();
        }
        if !insert_header(&mut m, "content-type", "application/json") {
            return Err(header_overflow());
        }
        if !insert_header(&mut m, "anthropic-version", "2023-06-01") {
            return Err(header_overflow());
        }
        assert(header_contents(m) == base_headers());
        let token = match credentials::load_credential(&self.auth, secret) {
            Ok(token) => token,
            Err(e) => return Err(e),
        };
        if let Some(token) = token {
            if let Some((name, value)) = credentials::build_auth_header_value(
                &self.auth,
                token.as_str(),
            ) {
                if !header_name(name.as_str()) {
                    return Err(
                        ProviderError::Config(
                            text::concat2("invalid header name: ", name.as_str()),
                        ),
                    );
                }
                if !header_value(value.as_str()) {
                    return Err(ProviderError::Config("invalid header value".to_owned()));
                }
                if !insert_header(&mut m, name.as_str(), value.as_str()) {
                    return Err(header_overflow());
                }
            }
        }
        assert(header_contents(m).dom().finite() && header_contents(m).dom().len() <= 3);
        // Forwarded client headers (allowlisted) come before extra_headers so
        // configured extra_headers win on name conflicts.
        if let Err(e) = put_headers(
            &mut m,
            forward_headers,
            "invalid header name: ",
            "invalid header value for ",
        ) {
            return Err(e);
        }
        if let Err(e) = put_headers(
            &mut m,
            &self.extra_headers,
            "invalid extra header name: ",
            "invalid extra header value for ",
        ) {
            return Err(e);
        }
        Ok(m)
    }
}

proof fn lemma_base_headers()
    ensures
        header_name_ok("content-type"@),
        header_name_ok("anthropic-version"@),
        text::lowered("content-type"@) == "content-type"@,
        text::lowered("anthropic-version"@) == "anthropic-version"@,
        header_value_ok("application/json"@),
        header_value_ok("2023-06-01"@),
{
    reveal_strlit("content-type");
    reveal_strlit("anthropic-version");
    reveal_strlit("application/json");
    reveal_strlit("2023-06-01");
    reveal_with_fuel(text::all_from, 18);
    let name = |c: char| config::token_char(c) && text::lowered_char(c) == c;
    let value = |c: char| 32 <= c as u32 && c as u32 != 127;
    text::lemma_all_from("content-type"@, name, 0);
    text::lemma_all_from("anthropic-version"@, name, 0);
    text::lemma_all_from("application/json"@, value, 0);
    text::lemma_all_from("2023-06-01"@, value, 0);
    assert(text::lowered("content-type"@) =~= "content-type"@);
    assert(text::lowered("anthropic-version"@) =~= "anthropic-version"@);
}

/// A configured extra header is sent with its configured value, whatever the
/// client or the adapter would have put there.
pub proof fn law_extra_headers_win(
    a: AdapterView,
    secret: Option<Seq<char>>,
    forward: Seq<(Seq<char>, Seq<char>)>,
    i: int,
)
    requires
        request_headers(a, secret, forward) is Ok,
        0 <= i < a.extra_headers.len(),
        forall|j: int|
            i < j < a.extra_headers.len() ==> text::lowered((#[trigger] a.extra_headers[j]).0)
                != text::lowered(a.extra_headers[i].0),
    ensures
        ({
            let m = request_headers(a, secret, forward)->Ok_0;
            let name = text::lowered(a.extra_headers[i].0);
            m.contains_key(name) && m[name] == a.extra_headers[i].1
        }),
{
    let token = credentials::credential(a.auth, secret)->Ok_0;
    let m1 = authenticated(base_headers(), a.auth, token)->Ok_0;
    let m2 = with_headers(m1, forward, "invalid header name: "@, "invalid header value for "@)->Ok_0;
    lemma_last_header_counts(
        m2,
        a.extra_headers,
        "invalid extra header name: "@,
        "invalid extra header value for "@,
        i,
    );
}

proof fn lemma_last_header_counts(
    m: Map<Seq<char>, Seq<char>>,
    list: Seq<(Seq<char>, Seq<char>)>,
    bad_name: Seq<char>,
    bad_value: Seq<char>,
    i: int,
)
    requires
        with_headers(m, list, bad_name, bad_value) is Ok,
        0 <= i < list.len(),
        forall|j: int|
            i < j < list.len() ==> text::lowered((#[trigger] list[j]).0) != text::lowered(
                list[i].0,
            ),
    ensures
        ({
            let done = with_headers(m, list, bad_name, bad_value)->Ok_0;
            let name = text::lowered(list[i].0);
            done.contains_key(name) && done[name] == list[i].1
        }),
    decreases list.len(),
{
    if i < list.len() - 1 {
        let front = list.drop_last();
        assert forall|j: int| i < j < front.len() implies text::lowered((#[trigger] front[j]).0)
            != text::lowered(front[i].0) by {
            assert(front[j] == list[j]);
            assert(front[i] == list[i]);
        }
        assert(front[i] == list[i]);
        lemma_last_header_counts(m, front, bad_name, bad_value, i);
        assert(list[list.len() - 1] == list.last());
    }
}

/// Headers set later leave the others alone.
proof fn lemma_other_headers_stay(
    m: Map<Seq<char>, Seq<char>>,
    list: Seq<(Seq<char>, Seq<char>)>,
    bad_name: Seq<char>,
    bad_value: Seq<char>,
    name: Seq<char>,
)
    requires
        with_headers(m, list, bad_name, bad_value) is Ok,
        forall|j: int| 0 <= j < list.len() ==> text::lowered((#[trigger] list[j]).0) != name,
    ensures
        ({
            let done = with_headers(m, list, bad_name, bad_value)->Ok_0;
            done.contains_key(name) == m.contains_key(name) && (m.contains_key(name) ==> done[name]
                == m[name])
        }),
    decreases list.len(),
{
    if list.len() > 0 {
        let front = list.drop_last();
        assert forall|j: int| 0 <= j < front.len() implies text::lowered((#[trigger] front[j]).0)
            != name by {
            assert(front[j] == list[j]);
        }
        lemma_other_headers_stay(m, front, bad_name, bad_value, name);
        assert(list[list.len() - 1] == list.last());
    }
}

/// A forwarded client header reaches the provider unchanged, unless a
/// configured extra header has its name.
pub proof fn law_forwarded_header_sent(
    a: AdapterView,
    secret: Option<Seq<char>>,
    name: Seq<char>,
    value: Seq<char>,
)
    requires
        request_headers(a, secret, seq![(name, value)]) is Ok,
        forall|j: int|
            0 <= j < a.extra_headers.len() ==> text::lowered((#[trigger] a.extra_headers[j]).0)
                != text::lowered(name),
    ensures
        ({
            let m = request_headers(a, secret, seq![(name, value)])->Ok_0;
            m.contains_key(text::lowered(name)) && m[text::lowered(name)] == value
        }),
{
    let forward = seq![(name, value)];
    let token = credentials::credential(a.auth, secret)->Ok_0;
    let m1 = authenticated(base_headers(), a.auth, token)->Ok_0;
    let m2 = with_headers(m1, forward, "invalid header name: "@, "invalid header value for "@)->Ok_0;
    lemma_last_header_counts(
        m1,
        forward,
        "invalid header name: "@,
        "invalid header value for "@,
        0,
    );
    lemma_other_headers_stay(
        m2,
        a.extra_headers,
        "invalid extra header name: "@,
        "invalid extra header value for "@,
        text::lowered(name),
    );
}

/// Each forwarded client header reaches the provider unchanged, the last of
/// those of one name counting, unless a configured extra header has its name.
pub proof fn law_forwarded_headers_sent(
    a: AdapterView,
    secret: Option<Seq<char>>,
    forward: Seq<(Seq<char>, Seq<char>)>,
    i: int,
)
    requires
        request_headers(a, secret, forward) is Ok,
        0 <= i < forward.len(),
        forall|j: int|
            i < j < forward.len() ==> text::lowered((#[trigger] forward[j]).0) != text::lowered(
                forward[i].0,
            ),
        sets_no_header(a.extra_headers, text::lowered(forward[i].0)),
    ensures
        ({
            let m = request_headers(a, secret, forward)->Ok_0;
            let name = text::lowered(forward[i].0);
            m.contains_key(name) && m[name] == forward[i].1
        }),
{
    let name = text::lowered(forward[i].0);
    let token = credentials::credential(a.auth, secret)->Ok_0;
    let m1 = authenticated(base_headers(), a.auth, token)->Ok_0;
    let m2 = with_headers(m1, forward, "invalid header name: "@, "invalid header value for "@)->Ok_0;
    lemma_last_header_counts(
        m1,
        forward,
        "invalid header name: "@,
        "invalid header value for "@,
        i,
    );
    lemma_other_headers_stay(
        m2,
        a.extra_headers,
        "invalid extra header name: "@,
        "invalid extra header value for "@,
        name,
    );
}

/// No header of a list is named `name`, a name in lower case.
pub open spec fn sets_no_header(list: Seq<(Seq<char>, Seq<char>)>, name: Seq<char>) -> bool {
    forall|j: int| 0 <= j < list.len() ==> text::lowered((#[trigger] list[j]).0) != name
}

proof fn lemma_only_early_headers(
    a: AdapterView,
    secret: Option<Seq<char>>,
    forward: Seq<(Seq<char>, Seq<char>)>,
    name: Seq<char>,
)
    requires
        request_headers(a, secret, forward) is Ok,
        sets_no_header(forward, name),
        sets_no_header(a.extra_headers, name),
    ensures
        ({
            let token = credentials::credential(a.auth, secret)->Ok_0;
            let m = authenticated(base_headers(), a.auth, token)->Ok_0;
            let done = request_headers(a, secret, forward)->Ok_0;
            done.contains_key(name) == m.contains_key(name) && (m.contains_key(name) ==> done[name]
                == m[name])
        }),
{
    let token = credentials::credential(a.auth, secret)->Ok_0;
    let m1 = authenticated(base_headers(), a.auth, token)->Ok_0;
    let m2 = with_headers(m1, forward, "invalid header name: "@, "invalid header value for "@)->Ok_0;
    lemma_other_headers_stay(
        m1,
        forward,
        "invalid header name: "@,
        "invalid header value for "@,
        name,
    );
    lemma_other_headers_stay(
        m2,
        a.extra_headers,
        "invalid extra header name: "@,
        "invalid extra header value for "@,
        name,
    );
}

/// The credential is sent in the header that the auth config names, with its
/// prefix in front, unless a forwarded or an extra header has that name.
pub proof fn law_credential_is_sent(
    a: AdapterView,
    secret: Seq<char>,
    forward: Seq<(Seq<char>, Seq<char>)>,
)
    requires
        a.auth is Header,
        request_headers(a, Some(secret), forward) is Ok,
        sets_no_header(forward, text::lowered(a.auth->header)),
        sets_no_header(a.extra_headers, text::lowered(a.auth->header)),
    ensures
        ({
            let m = request_headers(a, Some(secret), forward)->Ok_0;
            let name = text::lowered(a.auth->header);
            m.contains_key(name) && match a.auth->prefix {
                Some(prefix) => m[name] == prefix + secret,
                None => m[name] == secret,
            }
        }),
{
    lemma_only_early_headers(a, Some(secret), forward, text::lowered(a.auth->header));
}

/// Every request says that it is JSON and which version of the API it speaks,
/// unless a header is configured or forwarded in their place.
pub proof fn law_fixed_headers_are_sent(
    a: AdapterView,
    secret: Option<Seq<char>>,
    forward: Seq<(Seq<char>, Seq<char>)>,
    name: Seq<char>,
)
    requires
        request_headers(a, secret, forward) is Ok,
        sets_no_header(forward, name),
        sets_no_header(a.extra_headers, name),
        a.auth is Header ==> text::lowered(a.auth->header) != name,
    ensures
        ({
            let m = request_headers(a, secret, forward)->Ok_0;
            &&& name == "content-type"@ ==> m.contains_key(name) && m[name] == "application/json"@
            &&& name == "anthropic-version"@ ==> m.contains_key(name) && m[name] == "2023-06-01"@
            &&& name != "content-type"@ && name != "anthropic-version"@ ==> !m.contains_key(name)
        }),
{
    reveal_strlit("content-type");
    reveal_strlit("anthropic-version");
    assert("content-type"@.len() == 12 && "anthropic-version"@.len() == 17);
    lemma_only_early_headers(a, secret, forward, name);
}

/// Without a credential, or with a blank one, nothing is sent where one is
/// needed; the error tells the variable that should hold it.
pub proof fn law_no_credential_no_request(
    a: AdapterView,
    secret: Option<Seq<char>>,
    forward: Seq<(Seq<char>, Seq<char>)>,
)
    requires
        a.auth is Header,
        secret matches Some(s) ==> forall|i: int|
            0 <= i < s.len() ==> text::whitespace(#[trigger] s[i]),
    ensures
        request_headers(a, secret, forward) matches Err(ProviderErrorView::AuthMissing {
            env_var,
            ..
        }) && env_var == a.auth->env_var,
{
    if let Some(s) = secret {
        text::lemma_blank_trimmed(s);
    }
}

proof fn lemma_with_headers_accepts(
    m: Map<Seq<char>, Seq<char>>,
    list: Seq<(Seq<char>, Seq<char>)>,
    bad_name: Seq<char>,
    bad_value: Seq<char>,
)
    ensures
        with_headers(m, list, bad_name, bad_value) is Ok <==> sendable(list),
        with_headers(m, list, bad_name, bad_value) matches Err(e) ==> e is Config,
    decreases list.len(),
{
    if list.len() > 0 {
        let front = list.drop_last();
        lemma_with_headers_accepts(m, front, bad_name, bad_value);
        assert(list[list.len() - 1] == list.last());
        if sendable(list) {
            assert forall|i: int| 0 <= i < front.len() implies header_name_ok(
                (#[trigger] front[i]).0,
            ) && header_value_ok(front[i].1) by {
                assert(front[i] == list[i]);
            }
        }
        if sendable(front) && header_name_ok(list.last().0) && header_value_ok(list.last().1) {
            assert forall|i: int| 0 <= i < list.len() implies header_name_ok(
                (#[trigger] list[i]).0,
            ) && header_value_ok(list[i].1) by {
                if i < front.len() {
                    assert(front[i] == list[i]);
                }
            }
        }
    }
}

/// Every name and value of a list can be those of a header.
pub open spec fn sendable(list: Seq<(Seq<char>, Seq<char>)>) -> bool {
    forall|i: int|
        0 <= i < list.len() ==> header_name_ok((#[trigger] list[i]).0) && header_value_ok(
            list[i].1,
        )
}

/// The headers of a request are made exactly where it has the credential that
/// it needs and all its headers can be sent; otherwise the request is not sent
/// without them, but refused.
pub proof fn law_unfit_headers_are_refused(
    a: AdapterView,
    secret: Option<Seq<char>>,
    forward: Seq<(Seq<char>, Seq<char>)>,
)
    ensures
        request_headers(a, secret, forward) is Ok <==> {
            &&& sendable(forward)
            &&& sendable(a.extra_headers)
            &&& a.auth matches AuthView::Header { header, prefix, .. } ==> {
                &&& secret matches Some(s) && text::trimmed(s).len() > 0 && header_value_ok(
                    match prefix {
                        Some(p) => p + s,
                        None => s,
                    },
                )
                &&& header_name_ok(header)
            }
        },
        request_headers(a, secret, forward) matches Err(e) ==> e is Config || e is AuthMissing,
{
    if let Ok(token) = credentials::credential(a.auth, secret) {
        if let Ok(m1) = authenticated(base_headers(), a.auth, token) {
            lemma_with_headers_accepts(
                m1,
                forward,
                "invalid header name: "@,
                "invalid header value for "@,
            );
            if let Ok(m2) = with_headers(
                m1,
                forward,
                "invalid header name: "@,
                "invalid header value for "@,
            ) {
                lemma_with_headers_accepts(
                    m2,
                    a.extra_headers,
                    "invalid extra header name: "@,
                    "invalid extra header value for "@,
                );
            }
        }
    }
}

/// A request that is fit to be sent goes to the messages endpoint below the
/// base URL, with the headers and the JSON of the request.
pub proof fn law_requests_go_to_the_endpoint(
    a: AdapterView,
    r: RequestView,
    streaming: bool,
    secret: Option<Seq<char>>,
    body: Seq<char>,
)
    requires
        refusal(r) is None,
        json::json_text(wire_json(r, streaming)) == Ok::<Seq<char>, Seq<char>>(body),
    ensures
        request_headers(a, secret, r.forward_headers) matches Ok(headers) ==> (prepared(
            a,
            r,
            streaming,
            secret,
        ) matches Ok(p) && p.endpoint == a.base_url + "/v1/messages"@ && p.headers == headers
            && p.body == body),
        request_headers(a, secret, r.forward_headers) matches Err(e) ==> prepared(
            a,
            r,
            streaming,
            secret,
        ) == Err::<PreparedView, ProviderErrorView>(e),
{
}

/// A request that is not fit to be sent is refused, whatever the credential.
pub proof fn law_unfit_requests_are_refused(
    a: AdapterView,
    r: RequestView,
    streaming: bool,
    secret: Option<Seq<char>>,
)
    requires
        types::request_defect(r) is Some,
    ensures
        prepared(a, r, streaming, secret) matches Err(ProviderErrorView::Config(message))
            && message == "invalid request: "@ + types::request_defect(r)->Some_0,
{
}

/// An adapter keeps what its config says, and fills in what it leaves open.
/// Its base URL is the configured one without the slashes at its end.
pub proof fn law_adapter_keeps_its_config(c: ProviderView)
    ensures
        ({
            let a = adapter_of(c);
            &&& a.provider_id == c.id
            &&& a.auth == c.auth
            &&& a.extra_headers == c.extra_headers
            &&& c.connect_timeout_ms matches Some(ms) ==> a.connect_timeout_ms == ms
            &&& c.connect_timeout_ms is None ==> a.connect_timeout_ms == 10_000
            &&& c.read_timeout_ms matches Some(ms) ==> a.read_timeout_ms == ms
            &&& c.read_timeout_ms is None ==> a.read_timeout_ms == 120_000
            &&& c.retry matches Some(retry) ==> a.retry == retry
            &&& c.retry is None ==> a.retry.max_retries == 2 && a.retry.base_delay_ms == 500
                && a.retry.max_delay_ms == 5000
            &&& a.base_url.len() > 0 ==> a.base_url.last() != '/'
            &&& a.base_url.len() <= c.base_url.text.len()
            &&& a.base_url == c.base_url.text.take(a.base_url.len() as int)
            &&& forall|i: int|
                a.base_url.len() <= i < c.base_url.text.len() ==> #[trigger] c.base_url.text[i]
                    == '/'
        }),
{
    text::lemma_trimmed_end_of(c.base_url.text, '/');
}

/// Whether a log can show a value: visible ASCII characters and tabs only.
pub open spec fn printable(value: Seq<char>) -> bool {
    forall|i: int|
        0 <= i < value.len() ==> (#[trigger] value[i]) == '\t' || 32 <= value[i] as u32 && (
        value[i] as u32) < 127
}

/// What a log shows of the value of a header that is no secret.
pub open spec fn printed(value: Seq<char>) -> Seq<char> {
    if printable(value) {
        value
    } else {
        "[non-utf8]"@
    }
}

fn is_printable(value: &str) -> (r: bool)
    ensures
        r == printable(value@),
{
    let v = text::chars_of(value);
    let mut i: usize = 0;
    while i < v.len()
        invariant
            i <= v@.len(),
            v@ == value@,
            forall|j: int|
                0 <= j < i ==> (#[trigger] value@[j]) == '\t' || 32 <= value@[j] as u32 && (
                value@[j] as u32) < 127,
        decreases v@.len() - i,
    {
        let c = v[i];
        let n: u32 = c as u32;
        if !(c == '\t' || (32 <= n && n < 127)) {
            assert(value@[i as int] == c);
            return false;
        }
        i = i + 1;
    }
    true
}

impl AnthropicAdapter {
    /// The headers of a request as a log may show them: sensitive ones and the
    /// one that carries the credential are redacted.
    pub fn redact_for_log(&self, headers: &Vec<(String, String)>) -> (r: Headers)
        ensures
            r.wf(),
            credentials::headers_of(r) == credentials::redacted(
                self@.auth,
                credentials::header_map(
                    types::headers_view(headers@).map_values(
                        |h: (Seq<char>, Seq<char>)| (h.0, printed(h.1)),
                    ),
                ),
            ),
    {
        let ghost goal = types::headers_view(headers@).map_values(
            |h: (Seq<char>, Seq<char>)| (h.0, printed(h.1)),
        );
        let mut shown: Vec<(String, String)> = Vec::new();
        let mut i: usize = 0;
        while i < headers.len()
            invariant
                i <= headers@.len(),
                shown@.len() == i,
                forall|j: int| 0 <= j < i ==> (#[trigger] shown@[j]).0@ == headers@[j].0@,
                forall|j: int| 0 <= j < i ==> (#[trigger] shown@[j]).1@ == printed(headers@[j].1@),
            decreases headers@.len() - i,
        {
            let value = if is_printable(headers[i].1.as_str()) {
                headers[i].1.clone()
            } else {
                "[non-utf8]".to_owned()
            };
            shown.push((headers[i].0.clone(), value));
            i = i + 1;
        }
        assert(types::headers_view(shown@) =~= goal);
        credentials::redact_headers_for(&self.auth, &shown)
    }
}

// ---------------------------------------------------------------------------
// Failures and retries
// ---------------------------------------------------------------------------

/// What a line of a transport error is shown as.
pub open spec fn masked_line(line: Seq<char>) -> Seq<char> {
    if text::contains(text::lowered(line), "bearer"@) {
        "[REDACTED bearer]"@
    } else {
        line
    }
}

/// A transport error message with the lines that mention a bearer token
/// replaced.
pub open spec fn masked_message(message: Seq<char>) -> Seq<char> {
    if text::contains(text::lowered(message), "bearer"@) {
        text::joined(text::lines(message).map_values(|l: Seq<char>| masked_line(l)), "\n"@)
    } else {
        message
    }
}

/// A line that is shown is either the mark or mentions no bearer token.
pub proof fn law_masked_line_hides_bearer(line: Seq<char>)
    ensures
        masked_line(line) == "[REDACTED bearer]"@ || !text::contains(
            text::lowered(masked_line(line)),
            "bearer"@,
        ),
{
}

fn mentions_bearer(s: &str) -> (r: bool)
    ensures
        r == text::contains(text::lowered(s@), "bearer"@),
{
    let low = text::to_lower(s);
    text::has(low.as_str(), "bearer")
}

pub fn sanitize_error_message(msg: &str) -> (r: String)
    ensures
        r@ == masked_message(msg@),
{
    if !mentions_bearer(msg) {
        return msg.to_owned();
    }
    let lines = text::split_lines(msg);
    let mut out: Vec<String> = Vec::new();
    let mut i: usize = 0;
    while i < lines.len()
        invariant
            i <= lines@.len(),
            out@.len() == i,
            forall|j: int| 0 <= j < i ==> (#[trigger] out@[j])@ == masked_line(lines@[j]@),
        decreases lines@.len() - i,
    {
        if mentions_bearer(lines[i].as_str()) {
            out.push("[REDACTED bearer]".to_owned());
        } else {
            out.push(lines[i].clone());
        }
        i = i + 1;
    }
    proof {
        assert(text::views(out@) =~= text::views(lines@).map_values(
            |l: Seq<char>| masked_line(l),
        ));
    }
    text::join(&out, "\n")
}

/// Status codes that are retryable.
pub open spec fn retryable_status(status: u16) -> bool {
    status == 429 || status == 500 || status == 502 || status == 503 || status == 529
}

/// Whether sending the request again may help.
pub open spec fn retryable(e: ProviderErrorView) -> bool {
    match e {
        ProviderErrorView::Transport { .. } => true,
        ProviderErrorView::Timeout { .. } => true,
        ProviderErrorView::Upstream { status, .. } => retryable_status(status),
        _ => false,
    }
}

pub fn is_retryable(err: &ProviderError) -> (r: bool)
    ensures
        r == retryable(err@),
{
    match err {
        ProviderError::Transport { .. } => true,
        ProviderError::Timeout { .. } => true,
        ProviderError::Upstream { status, .. } => matches!(*status, 429 | 500 | 502 | 503 | 529),
        _ => false,
    }
}

/// The longest wait that a `Retry-After` is honored with, in seconds.
pub const MAX_RETRY_AFTER_SECS: u64 = 10;

/// The delay before jitter: `base * 2^attempt`, at most `max`. The exponent
/// stops at 20 and the product at the largest `u64`.
pub open spec fn backoff(retry: RetryConfig, attempt: u32) -> int {
    let exponent = if attempt < 20 {
        attempt as nat
    } else {
        20
    };
    let product = retry.base_delay_ms * vstd::arithmetic::power2::pow2(exponent);
    let capped = if product < u64::MAX {
        product
    } else {
        u64::MAX as int
    };
    if capped < retry.max_delay_ms {
        capped
    } else {
        retry.max_delay_ms as int
    }
}

/// The jitter on top of a delay, out of the clock: below a quarter of it.
pub open spec fn jitter(delay: int, nanos: u32) -> int {
    let range = delay / 4;
    if range > 0 && nanos as int % (range * 2) > range {
        nanos as int % (range * 2) - range
    } else {
        0
    }
}

/// `n` as the 64-bit two's complement number it is stored as.
pub open spec fn wrapped(n: int) -> int {
    if n > i64::MAX {
        n - 0x1_0000_0000_0000_0000
    } else {
        n
    }
}

/// The wait in milliseconds before a request is sent again. A `Retry-After`
/// counts as it is, up to its limit; else the wait grows with the attempts.
pub open spec fn retry_delay(
    retry: RetryConfig,
    attempt: u32,
    retry_after: Option<u64>,
    nanos: u32,
) -> int {
    match retry_after {
        Some(secs) => 1000 * (if secs < MAX_RETRY_AFTER_SECS {
            secs as int
        } else {
            MAX_RETRY_AFTER_SECS as int
        }),
        None => {
            let delay = backoff(retry, attempt);
            let total = wrapped(delay) + jitter(delay, nanos);
            if total > 0 {
                total
            } else {
                0
            }
        },
    }
}

fn power_of_two(exponent: u32) -> (r: u64)
    requires
        exponent <= 20,
    ensures
        r == vstd::arithmetic::power2::pow2(exponent as nat),
        1 <= r <= 0x10_0000,
{
    let mut r: u64 = 1;
    let mut i: u32 = 0;
    proof {
        vstd::arithmetic::power2::lemma2_to64();
        vstd::arithmetic::power2::lemma_pow2_strictly_increases(exponent as nat, 21);
    }
    while i < exponent
        invariant
            i <= exponent <= 20,
            r == vstd::arithmetic::power2::pow2(i as nat),
            1 <= r <= 0x10_0000,
        decreases exponent - i,
    {
        proof {
            vstd::arithmetic::power2::lemma2_to64();
            vstd::arithmetic::power2::lemma_pow2_unfold((i + 1) as nat);
            if i + 1 < 20 {
                vstd::arithmetic::power2::lemma_pow2_strictly_increases((i + 1) as nat, 20);
            }
        }
        r = r * 2;
        i = i + 1;
    }
    r
}

impl AnthropicAdapter {
    /// Compute the delay in milliseconds for a retry attempt, honoring
    /// `Retry-After` if present. `nanos` is the sub-second part of the clock.
    pub fn compute_retry_delay(
        &self,
        attempt: u32,
        retry_after: Option<u64>,
        nanos: u32,
    ) -> (r: u64)
        ensures
            r == retry_delay(self@.retry, attempt, retry_after, nanos),
    {
        if let Some(secs) = retry_after {
            let capped: u64 = if secs < MAX_RETRY_AFTER_SECS {
                secs
            } else {
                MAX_RETRY_AFTER_SECS
            };
            return capped * 1000;
        }
        let exponent: u32 = if attempt < 20 {
            attempt
        } else {
            20
        };
        let factor: u64 = power_of_two(exponent);
        let base: u128 = self.retry.base_delay_ms as u128;
        assert(base * factor <= 0xffff_ffff_ffff_ffff * 0x10_0000) by (nonlinear_arith)
            requires
                base <= 0xffff_ffff_ffff_ffff,
                1 <= factor <= 0x10_0000,
        ;
        assert(base * factor >= 0) by (nonlinear_arith);
        let product: u128 = base * (factor as u128);
        let exp: u64 = if product < 0xffff_ffff_ffff_ffff {
            product as u64
        } else {
            0xffff_ffff_ffff_ffff
        };
        let delay: u64 = if exp < self.retry.max_delay_ms {
            exp
        } else {
            self.retry.max_delay_ms
        };
        let range: u64 = delay / 4;
        let jitter: u64 = if range > 0 {
            let phase: u64 = nanos as u64 % (range * 2);
            if phase > range {
                phase - range
            } else {
                0
            }
        } else {
            0
        };
        if delay <= 0x7fff_ffff_ffff_ffff {
            delay + jitter
        } else {
            let shortfall: u64 = 0xffff_ffff_ffff_ffff - delay + 1;
            if jitter > shortfall {
                jitter - shortfall
            } else {
                0
            }
        }
    }
}

/// Waiting never takes longer than 10 seconds on a provider's word, nor more
/// than a quarter over the configured maximum on our own.
pub proof fn law_retry_delay_bounded(
    retry: RetryConfig,
    attempt: u32,
    retry_after: Option<u64>,
    nanos: u32,
)
    ensures
        retry_after is Some ==> retry_delay(retry, attempt, retry_after, nanos) <= 10_000,
        retry_after is None ==> retry_delay(retry, attempt, retry_after, nanos)
            <= retry.max_delay_ms + retry.max_delay_ms / 4,
{
    let delay = backoff(retry, attempt);
    let exponent = if attempt < 20 {
        attempt as nat
    } else {
        20
    };
    assert(retry.base_delay_ms * vstd::arithmetic::power2::pow2(exponent) >= 0) by (nonlinear_arith);
    assert(0 <= delay <= retry.max_delay_ms);
    let range = delay / 4;
    if range > 0 {
        assert(0 <= nanos as int % (range * 2) < range * 2) by (nonlinear_arith)
            requires
                range > 0,
        ;
    }
}

// ---------------------------------------------------------------------------
// The Retry-After mark
// ---------------------------------------------------------------------------

/// The seconds that a `Retry-After` header asks for.
pub open spec fn retry_after_header(value: Option<Seq<char>>) -> Option<u64> {
    match value {
        Some(s) => text::parsed_u64(text::trimmed(s)),
        None => None,
    }
}

/// Read the `Retry-After` header of a response, where it has a textual one.
pub fn extract_retry_after(value: Option<&str>) -> (r: Option<u64>)
    ensures
        r == retry_after_header(
            match value {
                Some(s) => Some(s@),
                None => None,
            },
        ),
{
    match value {
        Some(s) => text::parse_u64(text::trim(s)),
        None => None,
    }
}

/// The text between the mark's opening and its closing bracket, and the text
/// behind the bracket.
pub open spec fn marked(message: Seq<char>) -> Option<(Seq<char>, Seq<char>)> {
    if "[retry-after:"@.is_prefix_of(message) {
        text::split_at_first(message.skip("[retry-after:"@.len() as int), ']')
    } else {
        None
    }
}

/// The seconds that a message is marked with.
pub open spec fn marked_secs(message: Seq<char>) -> Option<u64> {
    match marked(message) {
        Some((secs, _)) => text::parsed_u64(secs),
        None => None,
    }
}

/// A message without its mark.
pub open spec fn unmarked(message: Seq<char>) -> Seq<char> {
    match marked(message) {
        Some((_, rest)) => text::trimmed_start(rest),
        None => message,
    }
}

/// A message with a mark.
pub open spec fn with_mark(message: Seq<char>, secs: u64) -> Seq<char> {
    "[retry-after:"@ + text::decimal(secs as nat) + "] "@ + message
}

/// The message of an upstream error changed by `f`; other errors stay.
pub open spec fn with_message(
    e: ProviderErrorView,
    f: spec_fn(Seq<char>) -> Seq<char>,
) -> ProviderErrorView {
    match e {
        ProviderErrorView::Upstream { status, code, message, provider_id } =>
        ProviderErrorView::Upstream { status, code, message: f(message), provider_id },
        other => other,
    }
}

pub open spec fn stashed(e: ProviderErrorView, retry_after: Option<u64>) -> ProviderErrorView {
    match retry_after {
        Some(secs) => with_message(e, |m: Seq<char>| with_mark(m, secs)),
        None => e,
    }
}

pub open spec fn stripped(e: ProviderErrorView) -> ProviderErrorView {
    with_message(e, |m: Seq<char>| unmarked(m))
}

/// The seconds that an error is marked with.
pub open spec fn stashed_secs(e: ProviderErrorView) -> Option<u64> {
    match e {
        ProviderErrorView::Upstream { message, .. } => marked_secs(message),
        _ => None,
    }
}

/// Parse the `[retry-after:N]` sentinel prefix from a message string.
pub fn parse_retry_after_sentinel(message: &str) -> (r: Option<u64>)
    ensures
        r == marked_secs(message@),
{
    match text::strip_prefix(message, "[retry-after:") {
        None => None,
        Some(rest) => match text::split_once(rest, ']') {
            Some((secs, _)) => text::parse_u64(secs),
            None => None,
        },
    }
}

/// Extract the `Retry-After` from an error if it was stashed.
pub fn extract_retry_after_from_error(err: &ProviderError) -> (r: Option<u64>)
    ensures
        r == stashed_secs(err@),
{
    match err {
        ProviderError::Upstream { message, .. } => parse_retry_after_sentinel(message.as_str()),
        _ => None,
    }
}

/// Attach a Retry-After sentinel to an upstream error message.
pub fn stash_retry_after(err: ProviderError, retry_after: Option<u64>) -> (r: ProviderError)
    ensures
        r@ == stashed(err@, retry_after),
{
    match (err, retry_after) {
        (ProviderError::Upstream { status, code, message, provider_id }, Some(secs)) => {
            let number = text::decimal_text(secs as u128);
            let mut marked = text::concat3("[retry-after:", number.as_str(), "] ");
            marked.append(message.as_str());
            ProviderError::Upstream { status, code, message: marked, provider_id }
        },
        (err, _) => err,
    }
}

/// Strip the retry-after sentinel from an error before returning it to
/// callers.
pub fn strip_retry_after_sentinel(err: ProviderError) -> (r: ProviderError)
    ensures
        r@ == stripped(err@),
{
    match err {
        ProviderError::Upstream { status, code, message, provider_id } => {
            let clean = match text::strip_prefix(message.as_str(), "[retry-after:") {
                Some(rest) => match text::split_once(rest, ']') {
                    Some((_, tail)) => text::trim_start(tail).to_owned(),
                    None => message,
                },
                None => message,
            };
            ProviderError::Upstream { status, code, message: clean, provider_id }
        },
        err => err,
    }
}

/// A number in front of a bracket is cut off at the bracket.
proof fn lemma_number_ends(number: Seq<char>, message: Seq<char>)
    requires
        text::all_digits(number),
    ensures
        text::split_at_first(number + seq![']', ' '] + message, ']') == Some(
            (number, seq![' '] + message),
        ),
{
    let rest = number + seq![']', ' '] + message;
    assert(rest[number.len() as int] == ']');
    assert forall|i: int| 0 <= i < number.len() implies #[trigger] rest[i] != ']' by {
        assert(rest[i] == number[i]);
        assert(text::ascii_digit(number[i]));
    }
    text::lemma_first_of_at(rest, ']', number.len() as int);
    assert(rest.take(number.len() as int) =~= number);
    assert(rest.skip(number.len() as int + 1) =~= seq![' '] + message);
}

#[verifier::spinoff_prover]
proof fn lemma_marked(message: Seq<char>, secs: u64)
    ensures
        marked(with_mark(message, secs)) == Some(
            (text::decimal(secs as nat), seq![' '] + message),
        ),
{
    let open = "[retry-after:"@;
    let number = text::decimal(secs as nat);
    let whole = with_mark(message, secs);
    reveal_strlit("] ");
    assert("] "@ =~= seq![']', ' ']);
    assert(open.is_prefix_of(whole)) by {
        assert(whole.subrange(0, open.len() as int) =~= open);
    }
    let rest = whole.skip(open.len() as int);
    assert(rest =~= number + seq![']', ' '] + message);
    text::lemma_decimal_value(secs as nat);
    lemma_number_ends(number, message);
}

/// What is stashed in an upstream error can be read back from it.
pub proof fn law_stash_is_readable(e: ProviderErrorView, secs: u64)
    requires
        e is Upstream,
    ensures
        stashed_secs(stashed(e, Some(secs))) == Some(secs),
{
    lemma_marked(e->Upstream_message, secs);
    text::law_decimal_round_trip(secs);
}

/// Stripping undoes stashing, where the message does not begin with white
/// space.
pub proof fn law_strip_undoes_stash(e: ProviderErrorView, secs: u64)
    requires
        e is Upstream,
        e->Upstream_message.len() > 0 ==> !text::whitespace(e->Upstream_message[0]),
    ensures
        stripped(stashed(e, Some(secs))) == e,
{
    let message = e->Upstream_message;
    lemma_marked(message, secs);
    let tail = seq![' '] + message;
    assert(tail[0] == ' ');
    assert(tail.skip(1) =~= message);
    assert(text::trimmed_start(tail) == text::trimmed_start(message));
}

// ---------------------------------------------------------------------------
// Requests
// ---------------------------------------------------------------------------

/// All that is needed to send a request.
#[derive(Debug)]
pub struct PreparedRequest {
    pub endpoint: String,
    pub headers: reqwest::header::HeaderMap,
    pub body: String,
}

pub struct PreparedView {
    pub endpoint: Seq<char>,
    pub headers: Map<Seq<char>, Seq<char>>,
    pub body: Seq<char>,
}

impl View for PreparedRequest {
    type V = PreparedView;

    open spec fn view(&self) -> PreparedView {
        PreparedView {
            endpoint: self.endpoint@,
            headers: header_contents(self.headers),
            body: self.body@,
        }
    }
}

/// The JSON that is sent for a request: it asks for a stream or for none,
/// whatever the client's request said.
pub open spec fn wire_json(r: RequestView, streaming: bool) -> JsonView {
    types::request_json(RequestView { stream: Some(streaming), ..r })
}

/// What is sent for a request, or why nothing is.
pub open spec fn prepared(
    a: AdapterView,
    r: RequestView,
    streaming: bool,
    secret: Option<Seq<char>>,
) -> Result<PreparedView, ProviderErrorView> {
    match refusal(r) {
        Some(e) => Err(e),
        None => match request_headers(a, secret, r.forward_headers) {
            Err(e) => Err(e),
            Ok(headers) => match json::json_text(wire_json(r, streaming)) {
                Err(message) => Err(
                    ProviderErrorView::Parse("failed to serialize request: "@ + message),
                ),
                Ok(body) => Ok(
                    PreparedView { endpoint: a.base_url + "/v1/messages"@, headers, body },
                ),
            },
        },
    }
}

impl AnthropicAdapter {
    /// Check a request and work out what to send for it. `secret` is what the
    /// environment holds under the variable of the auth config.
    pub fn prepare(
        &self,
        request: MessagesRequest,
        streaming: bool,
        secret: Option<String>,
    ) -> (r: Result<PreparedRequest, ProviderError>)
        ensures
            match r {
                Ok(p) => prepared(
                    self@,
                    request@,
                    streaming,
                    types::optional_view(secret),
                ) == Ok::<PreparedView, ProviderErrorView>(p@) && json::spells(
                    p.body@,
                    wire_json(request@, streaming),
                ),
                Err(e) => prepared(self@, request@, streaming, types::optional_view(secret))
                    == Err::<PreparedView, ProviderErrorView>(e@) || (e@ == too_many_headers()
                    && headers_may_overflow(self@, request@.forward_headers)),
            },
    {
        if let Err(e) = self.validate_request(&request) {
            return Err(e);
        }
        let headers = match self.build_headers(secret, &request.forward_headers) {
            Ok(headers) => headers,
            Err(e) => return Err(e),
        };
        let ghost asked = request@;
        let mut request = request;
        request.stream = Some(streaming);
        assert(request@ == RequestView { stream: Some(streaming), ..asked });
        let wire = request.to_json();
        assert(<MessagesRequest as ToJson>::json(request@) == types::request_json(request@));
        match wire.to_text() {
            Ok(body) => Ok(PreparedRequest { endpoint: self.endpoint(), headers, body }),
            Err(message) => Err(
                ProviderError::Parse(
                    text::concat2("failed to serialize request: ", message.as_str()),
                ),
            ),
        }
    }
}

/// A request is sent on with every member that has no field of its own, and
/// says itself whether an answer is streamed.
pub proof fn law_wire_request(v: JsonView, streaming: bool, k: Seq<char>)
    requires
        types::request_of(v) is Ok,
    ensures
        !types::request_field(k) ==> wire_json(types::request_of(v)->Ok_0, streaming).get(k)
            == v.get(k),
        wire_json(types::request_of(v)->Ok_0, streaming).get("stream"@) == Some(
            JsonView::Bool(streaming),
        ),
{
    let m = v->Object_0;
    let r = RequestView { stream: Some(streaming), ..types::request_of(v)->Ok_0 };
    let fields = types::request_fields_json(r);
    if !types::request_field(k) {
        assert(types::request_extra(m).contains_key(k) == m.contains_key(k));
        assert(!fields.contains_key(k));
    }
    assert(!types::request_extra(m).contains_key("stream"@));
    lemma_stream_name();
    assert(fields["stream"@] == JsonView::Bool(streaming));
}

proof fn lemma_stream_name()
    ensures
        "stream"@ != "stop_sequences"@ && "stream"@ != "tools"@ && "stream"@ != "tool_choice"@
            && "stream"@ != "metadata"@,
{
    reveal_strlit("stream");
    reveal_strlit("stop_sequences");
    reveal_strlit("tools");
    reveal_strlit("tool_choice");
    reveal_strlit("metadata");
    assert("stream"@.len() == 6 && "stop_sequences"@.len() == 14 && "tools"@.len() == 5);
    assert("tool_choice"@.len() == 11 && "metadata"@.len() == 8);
}

// ---------------------------------------------------------------------------
// Responses
// ---------------------------------------------------------------------------

/// The error of a request that got no response.
pub open spec fn transport_failure(
    a: AdapterView,
    timed_out: bool,
    message: Seq<char>,
) -> ProviderErrorView {
    if timed_out {
        ProviderErrorView::Timeout { provider: a.provider_id, timeout_ms: a.read_timeout_ms }
    } else {
        ProviderErrorView::Transport {
            provider: a.provider_id,
            message: masked_message(message),
        }
    }
}

/// The error of a response with a status that is no success.
pub open spec fn response_failure(
    a: AdapterView,
    status: u16,
    parsed: Option<JsonView>,
    raw_text: Seq<char>,
) -> ProviderErrorView {
    error::upstream_error(
        Some(a.provider_id),
        status,
        parsed,
        raw_text,
        "upstream returned status "@ + text::decimal(status as nat),
    )
}

/// What to do after an attempt.
#[derive(Debug, PartialEq, Eq)]
pub enum Next {
    /// The response is a success: read it.
    Accept,
    /// Wait, then send the request again as the given attempt.
    Retry { attempt: u32, retry_after: Option<u64>, cause: ProviderError },
    /// Give up.
    Fail(ProviderError),
}

pub enum NextView {
    Accept,
    Retry { attempt: u32, retry_after: Option<u64>, cause: ProviderErrorView },
    Fail(ProviderErrorView),
}

impl View for Next {
    type V = NextView;

    open spec fn view(&self) -> NextView {
        match *self {
            Next::Accept => NextView::Accept,
            Next::Retry { attempt, retry_after, cause } => NextView::Retry {
                attempt,
                retry_after,
                cause: cause@,
            },
            Next::Fail(e) => NextView::Fail(e@),
        }
    }
}

/// Try again while there are retries left and it may help, else give up. What
/// a caller gets to see bears no mark.
pub open spec fn next_after_error(
    a: AdapterView,
    attempt: u32,
    e: ProviderErrorView,
    retry_after: Option<u64>,
) -> NextView {
    let noted = stashed(e, retry_after);
    if attempt < a.retry.max_retries && retryable(e) {
        NextView::Retry {
            attempt: (attempt + 1) as u32,
            retry_after: stashed_secs(noted),
            cause: noted,
        }
    } else if e is Upstream {
        NextView::Fail(stripped(noted))
    } else {
        NextView::Fail(e)
    }
}

pub open spec fn success(status: u16) -> bool {
    200 <= status < 300
}

/// Whether a response with this status is read; a stream begins with it.
pub fn is_success(status: u16) -> (r: bool)
    ensures
        r == success(status),
{
    200 <= status && status < 300
}

/// What to do about a response.
pub open spec fn next_after_response(
    a: AdapterView,
    attempt: u32,
    status: u16,
    retry_after: Option<u64>,
    parsed: Option<JsonView>,
    raw_text: Seq<char>,
) -> NextView {
    if success(status) {
        NextView::Accept
    } else {
        next_after_error(a, attempt, response_failure(a, status, parsed, raw_text), retry_after)
    }
}

impl AnthropicAdapter {
    /// The error of a request that got no response, or whose response broke
    /// off.
    pub fn transport_error(&self, timed_out: bool, message: &str) -> (r: ProviderError)
        ensures
            r@ == transport_failure(self@, timed_out, message@),
    {
        if timed_out {
            ProviderError::Timeout {
                provider: self.provider_id.clone(),
                timeout_ms: self.read_timeout_ms,
            }
        } else {
            ProviderError::Transport {
                provider: self.provider_id.clone(),
                message: sanitize_error_message(message),
            }
        }
    }

    /// Decide about an attempt that got no response.
    pub fn after_failure(&self, attempt: u32, timed_out: bool, message: &str) -> (r: Next)
        ensures
            r@ == next_after_error(
                self@,
                attempt,
                transport_failure(self@, timed_out, message@),
                None,
            ),
            attempt < self.retry.max_retries <==> r is Retry,
            r matches Next::Retry { attempt: again, .. } ==> again == attempt + 1,
    {
        let e = self.transport_error(timed_out, message);
        if attempt < self.retry.max_retries {
            Next::Retry { attempt: attempt + 1, retry_after: None, cause: e }
        } else {
            Next::Fail(e)
        }
    }

    /// Decide about an attempt that was answered with an error.
    fn after_upstream_error(
        &self,
        attempt: u32,
        err: ProviderError,
        retry_after: Option<u64>,
    ) -> (r: Next)
        requires
            err is Upstream,
        ensures
            r@ == next_after_error(self@, attempt, err@, retry_after),
    {
        let again = attempt < self.retry.max_retries && is_retryable(&err);
        let noted = stash_retry_after(err, retry_after);
        if again {
            let wait = extract_retry_after_from_error(&noted);
            Next::Retry { attempt: attempt + 1, retry_after: wait, cause: noted }
        } else {
            Next::Fail(strip_retry_after_sentinel(noted))
        }
    }

    /// Decide about a response, given its body as JSON, where it is JSON, and
    /// as text.
    pub fn after_response_parts(
        &self,
        attempt: u32,
        status: u16,
        retry_after: Option<u64>,
        parsed: Option<&Json>,
        raw_text: &str,
    ) -> (r: Next)
        ensures
            r@ == next_after_response(
                self@,
                attempt,
                status,
                retry_after,
                match parsed {
                    Some(v) => Some(v@),
                    None => None,
                },
                raw_text@,
            ),
    {
        if is_success(status) {
            return Next::Accept;
        }
        let number = text::decimal_text(status as u128);
        let err = ProviderError::upstream_from_parts(
            Some(self.provider_id.clone()),
            status,
            parsed,
            raw_text,
            text::concat2("upstream returned status ", number.as_str()),
        );
        assert(err@ is Upstream);
        self.after_upstream_error(attempt, err, retry_after)
    }

    /// Decide about a response.
    pub fn after_response(
        &self,
        attempt: u32,
        status: u16,
        retry_after: Option<u64>,
        body: &[u8],
    ) -> (r: Next)
        ensures
            r@ == next_after_response(
                self@,
                attempt,
                status,
                retry_after,
                match json::json_parse_bytes(body@) {
                    Ok(v) => Some(v),
                    Err(_) => None,
                },
                stream::utf8_lossy(body@),
            ),
            stream::text_kept(body@),
    {
        let raw_text = stream::decode_lossy(body);
        match Json::parse_bytes(body) {
            Ok(v) => self.after_response_parts(
                attempt,
                status,
                retry_after,
                Some(&v),
                raw_text.as_str(),
            ),
            Err(_) => self.after_response_parts(
                attempt,
                status,
                retry_after,
                None,
                raw_text.as_str(),
            ),
        }
    }
}

/// What came of one attempt.
pub enum Outcome {
    NoResponse { timed_out: bool, message: Seq<char> },
    Response {
        status: u16,
        retry_after: Option<u64>,
        parsed: Option<JsonView>,
        raw_text: Seq<char>,
    },
}

pub open spec fn next_after(a: AdapterView, attempt: u32, outcome: Outcome) -> NextView {
    match outcome {
        Outcome::NoResponse { timed_out, message } => next_after_error(
            a,
            attempt,
            transport_failure(a, timed_out, message),
            None,
        ),
        Outcome::Response { status, retry_after, parsed, raw_text } => next_after_response(
            a,
            attempt,
            status,
            retry_after,
            parsed,
            raw_text,
        ),
    }
}

/// How often a request is sent, from the given attempt on, where the attempts
/// come to the given outcomes.
pub open spec fn sends(a: AdapterView, attempt: u32, outcomes: Seq<Outcome>) -> nat
    decreases outcomes.len(),
{
    if outcomes.len() == 0 {
        0
    } else {
        match next_after(a, attempt, outcomes.first()) {
            NextView::Retry { attempt, .. } => 1 + sends(a, attempt, outcomes.drop_first()),
            _ => 1,
        }
    }
}

/// A request is sent at most once more than there are retries.
pub proof fn law_attempts_bounded(a: AdapterView, attempt: u32, outcomes: Seq<Outcome>)
    requires
        attempt <= a.retry.max_retries,
    ensures
        sends(a, attempt, outcomes) <= a.retry.max_retries - attempt + 1,
    decreases outcomes.len(),
{
    if outcomes.len() > 0 {
        if let NextView::Retry { attempt: again, .. } = next_after(a, attempt, outcomes.first()) {
            law_attempts_bounded(a, again, outcomes.drop_first());
        }
    }
}

/// An answer with a status that is neither a success nor retryable ends the
/// request at once.
pub proof fn law_no_retry_on_client_errors(a: AdapterView, attempt: u32, outcome: Outcome)
    requires
        outcome is Response,
        !retryable_status(outcome->status),
    ensures
        next_after(a, attempt, outcome) is Accept || next_after(a, attempt, outcome) is Fail,
{
}

/// The wait before a retry is the one that the response asked for.
pub proof fn law_retry_after_honored(a: AdapterView, attempt: u32, outcome: Outcome, secs: u64)
    requires
        outcome is Response,
        outcome->retry_after == Some(secs),
        next_after(a, attempt, outcome) is Retry,
    ensures
        next_after(a, attempt, outcome)->Retry_retry_after == Some(secs),
{
    let e = response_failure(a, outcome->status, outcome->parsed, outcome->raw_text);
    law_stash_is_readable(e, secs);
}

/// The response that a parsed body holds, or why it holds none.
pub open spec fn accepted(parsed: Result<JsonView, Seq<char>>) -> Result<
    ResponseView,
    ProviderErrorView,
> {
    match parsed {
        Err(message) => Err(
            ProviderErrorView::Parse("failed to parse upstream response: "@ + message),
        ),
        Ok(v) => match types::response_of(v) {
            Ok(r) => Ok(r),
            Err(e) => Err(
                ProviderErrorView::Parse("failed to parse upstream response: "@ + e.message()),
            ),
        },
    }
}

/// Read the body of a successful response, given as JSON or as the message of
/// the parse error.
pub fn read_parsed_response(parsed: Result<Json, String>) -> (r: Result<
    MessagesResponse,
    ProviderError,
>)
    ensures
        ({
            let goal = accepted(
                match parsed {
                    Ok(v) => Ok(v@),
                    Err(message) => Err(message@),
                },
            );
            match r {
                Ok(x) => goal == Ok::<ResponseView, ProviderErrorView>(x@),
                Err(e) => goal == Err::<ResponseView, ProviderErrorView>(e@),
            }
        }),
{
    match parsed {
        Err(message) => Err(
            ProviderError::Parse(
                text::concat2("failed to parse upstream response: ", message.as_str()),
            ),
        ),
        Ok(v) => {
            assert(<MessagesResponse as FromJson>::of(v@) == types::response_of(v@));
            match MessagesResponse::from_json(&v) {
                Ok(x) => Ok(x),
                Err(e) => {
                    let message = e.message();
                    Err(
                        ProviderError::Parse(
                            text::concat2("failed to parse upstream response: ", message.as_str()),
                        ),
                    )
                },
            }
        },
    }
}

/// Read the body of a successful response.
pub fn read_response(body: &[u8]) -> (r: Result<MessagesResponse, ProviderError>)
    ensures
        match r {
            Ok(x) => accepted(json::json_parse_bytes(body@)) == Ok::<
                ResponseView,
                ProviderErrorView,
            >(x@),
            Err(e) => accepted(json::json_parse_bytes(body@)) == Err::<
                ResponseView,
                ProviderErrorView,
            >(e@),
        },
{
    read_parsed_response(Json::parse_bytes(body))
}

// ---------------------------------------------------------------------------
// Streams
// ---------------------------------------------------------------------------

/// The reading side of a streamed response: takes what the connection
/// delivers and gives the normalized events.
#[derive(Debug)]
pub struct StreamReader {
    parser: SseParser,
    provider_id: String,
    read_timeout_ms: u64,
}

impl StreamReader {
    /// The text that no event has been made of yet.
    pub closed spec fn pending(self) -> Seq<char> {
        self.parser@
    }

    pub closed spec fn provider(self) -> Seq<char> {
        self.provider_id@
    }

    pub closed spec fn timeout_ms(self) -> u64 {
        self.read_timeout_ms
    }

    pub fn new(adapter: &AnthropicAdapter) -> (r: StreamReader)
        ensures
            r.pending() == Seq::<char>::empty(),
            r.provider() == adapter@.provider_id,
            r.timeout_ms() == adapter@.read_timeout_ms,
    {
        StreamReader {
            parser: SseParser::new(),
            provider_id: adapter.provider_id.clone(),
            read_timeout_ms: adapter.read_timeout_ms,
        }
    }

    /// The events that a chunk of text completes, unrecognized frames left
    /// out.
    pub fn on_text(&mut self, chunk: &str) -> (r: Vec<StreamEvent>)
        ensures
            final(self).pending() == stream::fed(old(self).pending() + chunk@).1,
            final(self).provider() == old(self).provider(),
            final(self).timeout_ms() == old(self).timeout_ms(),
            decode::all_views(r@) == stream::recognized(
                stream::fed(old(self).pending() + chunk@).0,
            ),
    {
        let raw = self.parser.feed_text(chunk);
        stream::normalize_all(&raw)
    }

    /// The events that a chunk of bytes completes.
    pub fn on_chunk(&mut self, chunk: &[u8]) -> (r: Vec<StreamEvent>)
        ensures
            final(self).pending() == stream::fed(
                old(self).pending() + stream::utf8_lossy(chunk@),
            ).1,
            final(self).provider() == old(self).provider(),
            final(self).timeout_ms() == old(self).timeout_ms(),
            decode::all_views(r@) == stream::recognized(
                stream::fed(old(self).pending() + stream::utf8_lossy(chunk@)).0,
            ),
            stream::text_kept(chunk@),
    {
        let raw = self.parser.feed(chunk);
        stream::normalize_all(&raw)
    }

    /// The events that the end of the stream completes.
    pub fn on_end(&mut self) -> (r: Vec<StreamEvent>)
        ensures
            final(self).pending() == Seq::<char>::empty(),
            final(self).provider() == old(self).provider(),
            final(self).timeout_ms() == old(self).timeout_ms(),
            decode::all_views(r@) == stream::recognized(stream::flushed(old(self).pending())),
    {
        let raw = self.parser.flush();
        stream::normalize_all(&raw)
    }

    /// The error of a stream that broke off.
    pub fn on_error(&self, timed_out: bool, message: &str) -> (r: ProviderError)
        ensures
            r@ == (if timed_out {
                ProviderErrorView::Timeout {
                    provider: self.provider(),
                    timeout_ms: self.timeout_ms(),
                }
            } else {
                ProviderErrorView::Stream {
                    provider: self.provider(),
                    message: masked_message(message@),
                }
            }),
    {
        if timed_out {
            ProviderError::Timeout {
                provider: self.provider_id.clone(),
                timeout_ms: self.read_timeout_ms,
            }
        } else {
            ProviderError::Stream {
                provider: self.provider_id.clone(),
                message: sanitize_error_message(message),
            }
        }
    }
}

/// The events that a reader with the given pending text gives over a row of
/// chunks and the end of the stream.
pub open spec fn streamed(pending: Seq<char>, chunks: Seq<Seq<char>>) -> Seq<StreamEventView>
    decreases chunks.len(),
{
    if chunks.len() == 0 {
        stream::recognized(stream::flushed(pending))
    } else {
        let (events, rest) = stream::fed(pending + chunks.first());
        stream::recognized(events) + streamed(rest, chunks.drop_first())
    }
}

proof fn lemma_recognized_concat(a: Seq<stream::SseEventView>, b: Seq<stream::SseEventView>)
    ensures
        stream::recognized(a + b) == stream::recognized(a) + stream::recognized(b),
    decreases b.len(),
{
    if b.len() == 0 {
        assert(a + b =~= a);
        assert(stream::recognized(a) + stream::recognized(b) =~= stream::recognized(a));
    } else {
        assert((a + b).drop_last() =~= a + b.drop_last());
        assert((a + b).last() == b.last());
        lemma_recognized_concat(a, b.drop_last());
        assert(stream::recognized(a + b) =~= stream::recognized(a) + stream::recognized(b));
    }
}

proof fn lemma_streamed(pending: Seq<char>, chunks: Seq<Seq<char>>)
    ensures
        streamed(pending, chunks) == stream::recognized(stream::delivered(pending, chunks)),
    decreases chunks.len(),
{
    if chunks.len() > 0 {
        let (events, rest) = stream::fed(pending + chunks.first());
        lemma_streamed(rest, chunks.drop_first());
        lemma_recognized_concat(events, stream::delivered(rest, chunks.drop_first()));
    }
}

/// However the connection cuts a stream into chunks, the gateway gets the
/// recognized events of the whole text, in order.
pub proof fn law_streaming_ignores_chunks(chunks: Seq<Seq<char>>)
    requires
        !text::contains(chunks.flatten(), stream::stray_cr()),
    ensures
        streamed(Seq::empty(), chunks) == stream::recognized(stream::sse_events(chunks.flatten())),
{
    lemma_streamed(Seq::empty(), chunks);
    stream::law_chunking_is_invisible(chunks);
}

} // verus!
