//! Which provider configs are accepted, and what becomes of credentials.

use vstd::prelude::*;
use vstd::string::*;

use crate::providers::anthropic;
use crate::providers::config;
use crate::providers::config::{AuthView, ConfigErrorView, ProviderView};
use crate::providers::credentials;
use crate::providers::decode;
use crate::providers::error::ProviderErrorView;
use crate::providers::registry;
use crate::providers::types;
use crate::sorted;
use crate::text;

verus! {

// ---------------------------------------------------------------------------
// Names
// ---------------------------------------------------------------------------

/// An ASCII letter or digit.
pub open spec fn letter_or_digit(c: char) -> bool {
    'a' <= c <= 'z' || 'A' <= c <= 'Z' || '0' <= c <= '9'
}

/// A provider id is letters, digits, hyphens, underscores and dots.
pub proof fn law_provider_ids(id: Seq<char>)
    ensures
        config::valid_provider_id(id) <==> id.len() > 0 && forall|i: int|
            0 <= i < id.len() ==> letter_or_digit(#[trigger] id[i]) || id[i] == '-' || id[i] == '_'
                || id[i] == '.',
{
    if config::valid_provider_id(id) {
        assert forall|i: int| 0 <= i < id.len() implies letter_or_digit(#[trigger] id[i]) || id[i]
            == '-' || id[i] == '_' || id[i] == '.' by {
            assert(config::provider_id_char(id[i]));
        }
    }
}

/// The name of an environment variable is letters, digits and underscores, and
/// does not begin with a digit.
pub proof fn law_environment_names(name: Seq<char>)
    ensures
        config::environment_name(name) <==> name.len() > 0 && !('0' <= name[0] <= '9') && forall|
            i: int,
        |
            0 <= i < name.len() ==> letter_or_digit(#[trigger] name[i]) || name[i] == '_',
{
    if config::environment_name(name) {
        assert forall|i: int| 0 <= i < name.len() implies letter_or_digit(#[trigger] name[i])
            || name[i] == '_' by {
            assert(config::word_char(name[i]));
        }
    }
}

/// A model id is anything without white space and control characters.
pub proof fn law_model_ids(id: Seq<char>, i: int)
    ensures
        config::valid_model_id(id) && 0 <= i < id.len() ==> id[i] as u32 > 32 && id[i] as u32 != 127,
        !config::valid_model_id(Seq::empty()),
        id.len() > 0 && (forall|j: int| 0 <= j < id.len() ==> '!' <= #[trigger] id[j] <= '~')
            ==> config::valid_model_id(id),
{
    if config::valid_model_id(id) && 0 <= i < id.len() {
        assert(!text::whitespace(id[i]) && !text::control(id[i]));
    }
}

// ---------------------------------------------------------------------------
// Provider configs
// ---------------------------------------------------------------------------

/// A base URL over HTTP or HTTPS with a host.
pub open spec fn usable_url(u: config::UrlView) -> bool {
    (u.scheme == "http"@ || u.scheme == "https"@) && u.host is Some
}

/// An auth config that says nothing, or names a header and a variable, white
/// space around the names aside.
pub open spec fn usable_auth(a: AuthView) -> bool {
    match a {
        AuthView::NoAuth => true,
        AuthView::Header { header, env_var, .. } => config::token(text::trimmed(header))
            && config::environment_name(text::trimmed(env_var)),
    }
}

/// A time that is not nothing.
pub open spec fn usable_time(ms: Option<u64>) -> bool {
    ms matches Some(n) ==> n > 0
}

proof fn lemma_models_accepted(provider: Seq<char>, ids: Seq<Seq<char>>)
    ensures
        config::models_defect(provider, ids) is None <==> ids.no_duplicates() && forall|i: int|
            0 <= i < ids.len() ==> config::valid_model_id(#[trigger] ids[i]),
    decreases ids.len(),
{
    if config::models_defect(provider, ids) is None {
        config::law_accepted_models_distinct(provider, ids);
    } else {
        let front = ids.drop_last();
        lemma_models_accepted(provider, front);
        if ids.no_duplicates() && (forall|i: int|
            0 <= i < ids.len() ==> config::valid_model_id(#[trigger] ids[i])) {
            assert forall|i: int| 0 <= i < front.len() implies config::valid_model_id(
                #[trigger] front[i],
            ) by {
                assert(ids[i] == front[i]);
            }
            assert(config::valid_model_id(ids[ids.len() - 1]));
            assert(front.no_duplicates());
            if front.contains(ids.last()) {
                let i = front.index_of(ids.last());
                assert(ids[i] == ids[ids.len() - 1]);
            }
        }
    }
}

/// A provider config is accepted exactly where its id, its base URL, its auth
/// config, its times, its models, its default model and its extra headers are
/// all in order.
pub proof fn law_accepted_configs(p: ProviderView)
    ensures
        config::provider_defect(p) is None <==> {
            &&& config::valid_provider_id(p.id)
            &&& usable_url(p.base_url)
            &&& usable_auth(p.auth)
            &&& usable_time(p.timeout_ms)
            &&& usable_time(p.connect_timeout_ms)
            &&& usable_time(p.read_timeout_ms)
            &&& config::ids_of(p.models).no_duplicates()
            &&& forall|i: int|
                0 <= i < p.models.len() ==> config::valid_model_id((#[trigger] p.models[i]).id)
            &&& p.default_model matches Some(m) ==> exists|i: int|
                0 <= i < p.models.len() && (#[trigger] p.models[i]).id == m
            &&& forall|i: int|
                0 <= i < p.extra_headers.len() ==> config::token(
                    text::trimmed((#[trigger] p.extra_headers[i]).0),
                )
        },
{
    let ids = config::ids_of(p.models);
    lemma_models_accepted(p.id, ids);
    assert forall|i: int| 0 <= i < ids.len() implies #[trigger] ids[i] == p.models[i].id by {}
    if forall|i: int|
        0 <= i < p.models.len() ==> config::valid_model_id((#[trigger] p.models[i]).id) {
        assert forall|i: int| 0 <= i < ids.len() implies config::valid_model_id(
            #[trigger] ids[i],
        ) by {
            assert(config::valid_model_id(p.models[i].id));
        }
    }
    if forall|i: int| 0 <= i < ids.len() ==> config::valid_model_id(#[trigger] ids[i]) {
        assert forall|i: int| 0 <= i < p.models.len() implies config::valid_model_id(
            (#[trigger] p.models[i]).id,
        ) by {
            assert(config::valid_model_id(ids[i]));
        }
    }
    if let Some(m) = p.default_model {
        if ids.contains(m) {
            let i = ids.index_of(m);
            assert(p.models[i].id == m);
        }
        if exists|i: int| 0 <= i < p.models.len() && (#[trigger] p.models[i]).id == m {
            let i = choose|i: int| 0 <= i < p.models.len() && (#[trigger] p.models[i]).id == m;
            assert(ids[i] == m);
        }
    }
    if let AuthView::Header { header, .. } = p.auth {
        if config::token(text::trimmed(header)) {
            assert(text::trimmed(header).len() > 0);
        }
    }
}

/// The error of a provider config names what is wrong with it.
pub proof fn law_config_errors_name_the_defect(p: ProviderView)
    ensures
        match config::provider_defect(p) {
            None => true,
            Some(ConfigErrorView::InvalidProviderId(id)) => id == p.id
                && !config::valid_provider_id(p.id),
            Some(ConfigErrorView::InvalidBaseUrl(_)) => !usable_url(p.base_url),
            Some(ConfigErrorView::InvalidEnvVar(name)) => p.auth is Header && name
                == p.auth->env_var && !config::environment_name(text::trimmed(name)),
            Some(ConfigErrorView::InvalidHeaderName) => !usable_auth(p.auth) || exists|i: int|
                0 <= i < p.extra_headers.len() && !config::token(
                    text::trimmed((#[trigger] p.extra_headers[i]).0),
                ),
            Some(ConfigErrorView::InvalidTimeout(ms)) => ms == 0 && !(usable_time(p.timeout_ms)
                && usable_time(p.connect_timeout_ms) && usable_time(p.read_timeout_ms)),
            Some(ConfigErrorView::InvalidModelId(id)) => config::ids_of(p.models).contains(id)
                && !config::valid_model_id(id),
            Some(ConfigErrorView::DuplicateModelId { provider, model }) => provider == p.id
                && config::ids_of(p.models).contains(model)
                && !config::ids_of(p.models).no_duplicates(),
            Some(ConfigErrorView::DefaultModelNotFound(m)) => p.default_model == Some(m)
                && !config::ids_of(p.models).contains(m),
            Some(ConfigErrorView::DuplicateProviderId(_)) => false,
        },
{
    lemma_model_errors(p.id, config::ids_of(p.models));
}

proof fn lemma_model_errors(provider: Seq<char>, ids: Seq<Seq<char>>)
    ensures
        match config::models_defect(provider, ids) {
            None => true,
            Some(ConfigErrorView::InvalidModelId(id)) => ids.contains(id)
                && !config::valid_model_id(id),
            Some(ConfigErrorView::DuplicateModelId { provider: p, model }) => p == provider
                && ids.contains(model) && !ids.no_duplicates(),
            _ => false,
        },
    decreases ids.len(),
{
    if ids.len() > 0 {
        let front = ids.drop_last();
        lemma_model_errors(provider, front);
        assert(ids[ids.len() - 1] == ids.last());
        if let Some(e) = config::models_defect(provider, front) {
            match e {
                ConfigErrorView::InvalidModelId(id) => {
                    let i = front.index_of(id);
                    assert(ids[i] == id);
                },
                ConfigErrorView::DuplicateModelId { model, .. } => {
                    let i = front.index_of(model);
                    assert(ids[i] == model);
                    if ids.no_duplicates() {
                        assert(front.no_duplicates());
                    }
                },
                _ => {},
            }
        } else if front.contains(ids.last()) {
            let i = front.index_of(ids.last());
            assert(ids[i] == ids[ids.len() - 1]);
        }
    }
}

/// A row of provider configs is accepted exactly where each is and no two have
/// one id.
pub proof fn law_accepted_rows_of_configs(configs: Seq<ProviderView>)
    ensures
        registry::configs_defect(configs) is None <==> {
            &&& registry::provider_ids_of(configs).no_duplicates()
            &&& forall|i: int|
                0 <= i < configs.len() ==> config::provider_defect(#[trigger] configs[i]) is None
        },
    decreases configs.len(),
{
    if registry::configs_defect(configs) is None {
        registry::law_accepted_configs_distinct(configs);
    } else {
        let front = configs.drop_last();
        law_accepted_rows_of_configs(front);
        let ids = registry::provider_ids_of(configs);
        let front_ids = registry::provider_ids_of(front);
        assert(front_ids =~= ids.drop_last());
        if ids.no_duplicates() && (forall|i: int|
            0 <= i < configs.len() ==> config::provider_defect(#[trigger] configs[i]) is None) {
            assert forall|i: int| 0 <= i < front.len() implies config::provider_defect(
                #[trigger] front[i],
            ) is None by {
                assert(configs[i] == front[i]);
            }
            assert(front_ids.no_duplicates());
            assert(config::provider_defect(configs[configs.len() - 1]) is None);
            if front_ids.contains(configs.last().id) {
                let i = front_ids.index_of(configs.last().id);
                assert(ids[i] == ids[ids.len() - 1]);
            }
        }
    }
}

// ---------------------------------------------------------------------------
// Credentials
// ---------------------------------------------------------------------------

/// A credential is what its variable holds, as it is, where that is more than
/// white space; no credential is needed where none is configured.
pub proof fn law_credentials_are_taken_as_they_are(auth: AuthView, value: Seq<char>, i: int)
    ensures
        credentials::credential(AuthView::NoAuth, Some(value)) == Ok::<
            Option<Seq<char>>,
            ProviderErrorView,
        >(None),
        auth is Header && 0 <= i < value.len() && !text::whitespace(value[i])
            ==> credentials::credential(auth, Some(value)) == Ok::<
            Option<Seq<char>>,
            ProviderErrorView,
        >(Some(value)),
        auth is Header ==> (credentials::credential(auth, None) matches Err(
            ProviderErrorView::AuthMissing { env_var, .. },
        ) && env_var == auth->env_var),
{
    if 0 <= i < value.len() && !text::whitespace(value[i]) {
        text::lemma_trimmed_start(value);
        let t = text::trimmed_start(value);
        text::lemma_trimmed_end(t);
        if text::trimmed(value).len() == 0 {
            if i >= value.len() - t.len() {
                assert(value[i] == t[i - (value.len() - t.len())]);
            }
        }
    }
}

/// A header that may carry a secret, by its name in letters of either case.
pub open spec fn may_carry_a_secret(name: Seq<char>) -> bool {
    let low = text::lowered(name);
    low == "authorization"@ || low == "x-api-key"@ || low == "x-goog-api-key"@ || low == "api-key"@
        || low == "x-auth-token"@ || text::contains(low, "secret"@) || text::contains(
        low,
        "token"@,
    ) || text::contains(low, "key"@)
}

/// A log hides the value of each header that may carry a secret and of the one
/// that carries the credential, and shows every other header as it is.
pub proof fn law_logs_hide_secrets_only(
    auth: AuthView,
    m: Map<Seq<char>, Seq<char>>,
    name: Seq<char>,
)
    ensures
        credentials::redacted(auth, m).contains_key(name) <==> m.contains_key(name),
        m.contains_key(name) && (may_carry_a_secret(name) || (auth is Header && text::lowered(
            auth->header,
        ) == text::lowered(name))) ==> credentials::redacted(auth, m)[name] == "[REDACTED]"@,
        m.contains_key(name) && !may_carry_a_secret(name) && !(auth is Header && text::lowered(
            auth->header,
        ) == text::lowered(name)) ==> credentials::redacted(auth, m)[name] == m[name],
{
}

/// Of two headers of one name the later counts.
pub proof fn law_later_headers_count(
    headers: Seq<(Seq<char>, Seq<char>)>,
    name: Seq<char>,
    value: Seq<char>,
    other: Seq<char>,
)
    requires
        other != name,
    ensures
        credentials::header_map(headers.push((name, value))).contains_key(name),
        credentials::header_map(headers.push((name, value)))[name] == value,
        credentials::header_map(headers.push((name, value))).contains_key(other)
            <==> credentials::header_map(headers).contains_key(other),
        credentials::header_map(headers).contains_key(other) ==> credentials::header_map(
            headers.push((name, value)),
        )[other] == credentials::header_map(headers)[other],
{
    assert(headers.push((name, value)).drop_last() =~= headers);
}

// ---------------------------------------------------------------------------
// Messages and waits
// ---------------------------------------------------------------------------

/// A transport error that mentions no bearer token is told as it is; one of a
/// single line that does is told as that alone.
pub proof fn law_transport_messages(message: Seq<char>)
    ensures
        !text::contains(text::lowered(message), "bearer"@) ==> anthropic::masked_message(message)
            == message,
        text::contains(text::lowered(message), "bearer"@) && (forall|i: int|
            0 <= i < message.len() ==> #[trigger] message[i] != '\n')
            ==> anthropic::masked_message(message) == "[REDACTED bearer]"@,
{
    if text::contains(text::lowered(message), "bearer"@) && (forall|i: int|
        0 <= i < message.len() ==> #[trigger] message[i] != '\n') {
        reveal_strlit("bearer");
        assert("bearer"@.len() == 6);
        let low = text::lowered(message);
        let i = choose|i: int| #[trigger] text::occurs_at(low, "bearer"@, i);
        assert(low.len() == message.len());
        assert(message.len() > 0);
        text::lemma_first_of(message, '\n');
        assert(text::lines(message) =~= seq![message]);
        let masked = text::lines(message).map_values(|l: Seq<char>| anthropic::masked_line(l));
        assert(masked =~= seq!["[REDACTED bearer]"@]);
    }
}

/// A `Retry-After` header of digits asks for that many seconds, white space
/// around them aside; without the header nothing is asked for.
pub proof fn law_retry_after_is_read(before: Seq<char>, secs: u64, after: Seq<char>)
    requires
        forall|i: int| 0 <= i < before.len() ==> text::whitespace(#[trigger] before[i]),
        forall|i: int| 0 <= i < after.len() ==> text::whitespace(#[trigger] after[i]),
    ensures
        anthropic::retry_after_header(Some(before + text::decimal(secs as nat) + after)) == Some(
            secs,
        ),
        anthropic::retry_after_header(None) is None,
{
    let d = text::decimal(secs as nat);
    text::law_decimal_round_trip(secs);
    text::lemma_decimal_value(secs as nat);
    assert(text::ascii_digit(d[0]) && text::ascii_digit(d[d.len() - 1]));
    text::lemma_trimmed_parts(before, d, after);
}

/// An adapter that is made directly keeps what it is given, without the slashes
/// at the end of its base URL, and retries as by default.
pub proof fn law_direct_adapters(
    id: Seq<char>,
    base_url: Seq<char>,
    auth: AuthView,
    connect_ms: u64,
    read_ms: u64,
)
    ensures
        ({
            let a = anthropic::direct_adapter(id, base_url, auth, connect_ms, read_ms);
            &&& a.provider_id == id && a.auth == auth
            &&& a.connect_timeout_ms == connect_ms && a.read_timeout_ms == read_ms
            &&& a.retry.max_retries == 2 && a.retry.base_delay_ms == 500 && a.retry.max_delay_ms
                == 5000
            &&& a.extra_headers.len() == 0
            &&& a.base_url.len() <= base_url.len() && a.base_url == base_url.take(
                a.base_url.len() as int,
            )
            &&& a.base_url.len() > 0 ==> a.base_url.last() != '/'
            &&& forall|i: int|
                a.base_url.len() <= i < base_url.len() ==> #[trigger] base_url[i] == '/'
        }),
{
    text::lemma_trimmed_end_of(base_url, '/');
}

/// An adapter can be made directly exactly where its base URL is one over HTTP
/// or HTTPS and its auth config is in order.
pub proof fn law_direct_adapters_are_checked(base_url: Seq<char>, auth: AuthView)
    ensures
        anthropic::adapter_defect(base_url, auth) is None <==> {
            &&& config::url_parse(base_url) matches Ok(u) && (u.scheme == "http"@ || u.scheme
                == "https"@)
            &&& usable_auth(auth)
        },
{
    if let AuthView::Header { header, .. } = auth {
        if config::token(text::trimmed(header)) {
            assert(text::trimmed(header).len() > 0);
        }
    }
}

/// A log shows a header value of visible ASCII characters, spaces and tabs as
/// it is, and any other not at all.
pub proof fn law_logged_values(value: Seq<char>, i: int)
    ensures
        (forall|j: int| 0 <= j < value.len() ==> ' ' <= #[trigger] value[j] <= '~' || value[j]
            == '\t') ==> anthropic::printed(value) == value,
        0 <= i < value.len() && value[i] != '\t' && ((value[i] as u32) < 32 || value[i] as u32 > 126)
            ==> anthropic::printed(value) == "[non-utf8]"@,
{
    if 0 <= i < value.len() && anthropic::printable(value) {
        let c = value[i];
        assert(c == '\t' || 32 <= c as u32 && (c as u32) < 127);
    }
}

/// In a transport error of two lines each is told as it is, or not at all
/// where it mentions a bearer token.
pub proof fn law_transport_lines(a: Seq<char>, b: Seq<char>)
    requires
        forall|i: int| 0 <= i < a.len() ==> #[trigger] a[i] != '\n' && a[i] != '\r',
        forall|i: int| 0 <= i < b.len() ==> #[trigger] b[i] != '\n' && b[i] != '\r',
        b.len() > 0,
        text::contains(text::lowered(a + seq!['\n'] + b), "bearer"@),
    ensures
        anthropic::masked_message(a + seq!['\n'] + b) == (if text::contains(
            text::lowered(a),
            "bearer"@,
        ) {
            "[REDACTED bearer]"@
        } else {
            a
        }) + seq!['\n'] + (if text::contains(text::lowered(b), "bearer"@) {
            "[REDACTED bearer]"@
        } else {
            b
        }),
{
    reveal_strlit("\n");
    assert("\n"@ =~= seq!['\n']);
    let s = a + seq!['\n'] + b;
    text::law_lines(a, b);
    text::lemma_first_of(b, '\n');
    assert(text::lines(b) =~= seq![b]);
    assert(text::without_cr(a) == a) by {
        if a.len() > 0 {
            assert(a[a.len() - 1] != '\r');
        }
    }
    assert(text::lines(s) =~= seq![a, b]);
    let masked = text::lines(s).map_values(|l: Seq<char>| anthropic::masked_line(l));
    let x = anthropic::masked_line(a);
    let y = anthropic::masked_line(b);
    assert(masked =~= seq![x].push(y));
    text::law_joining(seq![x], y, "\n"@);
    assert(text::joined(seq![x], "\n"@) == x);
}

/// A request with fewer than six thousand headers has room for all of them.
pub proof fn law_ordinary_requests_have_room(
    a: anthropic::AdapterView,
    forward: Seq<(Seq<char>, Seq<char>)>,
)
    requires
        forward.len() + a.extra_headers.len() < 6000,
    ensures
        !anthropic::headers_may_overflow(a, forward),
{
}

// ---------------------------------------------------------------------------
// Views
// ---------------------------------------------------------------------------

/// The view of a list of headers has each header in its place, and that of a
/// sorted map each under its name.
pub proof fn law_header_views(
    headers: Seq<(String, String)>,
    i: int,
    m: credentials::Headers,
    name: Seq<char>,
)
    requires
        0 <= i < headers.len(),
    ensures
        types::headers_view(headers).len() == headers.len(),
        types::headers_view(headers)[i].0 == headers[i].0@,
        types::headers_view(headers)[i].1 == headers[i].1@,
        credentials::headers_of(m).contains_key(name) <==> m@.contains_key(seq![name]),
        m@.contains_key(seq![name]) ==> credentials::headers_of(m)[name] == m@[seq![name]]@,
{
    assert(sorted::row(name) =~= seq![name]);
}

/// The view of a list has the view of each item in its place, and that of an
/// optional value is there where the value is.
pub proof fn law_list_views<T: View>(items: Seq<T>, i: int, x: Option<T>, texts: Seq<String>)
    requires
        0 <= i < items.len(),
        i < texts.len(),
    ensures
        decode::all_views(items).len() == items.len(),
        decode::all_views(items)[i] == items[i]@,
        x is Some <==> types::optional_view(x) is Some,
        x matches Some(v) ==> types::optional_view(x) == Some(v@),
        text::views(texts).len() == texts.len(),
        text::views(texts)[i] == texts[i]@,
{
}

/// A character of a header's name is a visible one of ASCII that parts nothing:
/// no quote, comma, colon, semicolon, slash, bracket, or sign of equality or
/// question.
pub proof fn law_token_characters(c: char)
    ensures
        config::token_char(c) <==> '!' <= c <= '~' && c != '"' && c != '(' && c != ')' && c != ','
            && c != '/' && c != ':' && c != ';' && c != '<' && c != '=' && c != '>' && c != '?' && c
            != '@' && c != '[' && c != '\\' && c != ']' && c != '{' && c != '}',
{
}

/// Whether a credential is missing or empty is told apart.
pub proof fn law_missing_credentials_are_told(auth: AuthView, blank: Seq<char>)
    requires
        auth is Header,
        forall|i: int| 0 <= i < blank.len() ==> text::whitespace(#[trigger] blank[i]),
    ensures
        credentials::credential(auth, None) matches Err(ProviderErrorView::AuthMissing {
            reason,
            ..
        }) && reason == "environment variable not set"@,
        credentials::credential(auth, Some(blank)) matches Err(ProviderErrorView::AuthMissing {
            reason,
            ..
        }) && reason == "environment variable is empty"@,
{
    text::lemma_blank_trimmed(blank);
}

} // verus!
