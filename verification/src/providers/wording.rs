//! What errors say in words.

use vstd::prelude::*;
use vstd::string::*;

use crate::gateway::backend::BackendErrorView;
use crate::providers::config::ConfigErrorView;
use crate::providers::decode::DecodeErrorView;
use crate::providers::error::ProviderErrorView;
use crate::text;

verus! {

/// What stands in a text, with more text before and after it, is contained in
/// it.
proof fn lemma_within(a: Seq<char>, p: Seq<char>, b: Seq<char>)
    ensures
        text::contains(a + p + b, p),
        text::contains(a + p, p),
{
    assert((a + p + b).subrange(a.len() as int, (a.len() + p.len()) as int) =~= p);
    assert(text::occurs_at(a + p + b, p, a.len() as int));
    assert((a + p).subrange(a.len() as int, (a.len() + p.len()) as int) =~= p);
    assert(text::occurs_at(a + p, p, a.len() as int));
}

/// Every part of a provider error is told.
pub proof fn law_provider_errors_tell_their_parts(e: ProviderErrorView)
    ensures
        match e {
            ProviderErrorView::Config(m) => text::contains(e.display(), m),
            ProviderErrorView::AuthMissing { env_var, reason } => text::contains(
                e.display(),
                env_var,
            ) && text::contains(e.display(), reason),
            ProviderErrorView::ProviderNotFound(id) => text::contains(e.display(), id),
            ProviderErrorView::ModelNotFound { provider, model } => text::contains(
                e.display(),
                provider,
            ) && text::contains(e.display(), model),
            ProviderErrorView::Timeout { provider, timeout_ms } => text::contains(
                e.display(),
                provider,
            ) && text::contains(e.display(), text::decimal(timeout_ms as nat)),
            ProviderErrorView::Transport { provider, message } => text::contains(
                e.display(),
                provider,
            ) && text::contains(e.display(), message),
            ProviderErrorView::Parse(m) => text::contains(e.display(), m),
            ProviderErrorView::Upstream { status, code, message, .. } => text::contains(
                e.display(),
                text::decimal(status as nat),
            ) && text::contains(e.display(), code) && text::contains(e.display(), message),
            ProviderErrorView::Stream { provider, message } => text::contains(
                e.display(),
                provider,
            ) && text::contains(e.display(), message),
        },
{
    match e {
        ProviderErrorView::Config(m) => lemma_within("configuration error: "@, m, Seq::empty()),
        ProviderErrorView::AuthMissing { env_var, reason } => {
            let a = "missing credential: env_var="@;
            lemma_within(a, env_var, ": "@ + reason);
            assert(a + env_var + (": "@ + reason) =~= e.display());
            lemma_within(a + env_var + ": "@, reason, Seq::empty());
        },
        ProviderErrorView::ProviderNotFound(id) => lemma_within(
            "provider not found: "@,
            id,
            Seq::empty(),
        ),
        ProviderErrorView::ModelNotFound { provider, model } => {
            let a = "model not found: provider="@;
            lemma_within(a, provider, " model="@ + model);
            assert(a + provider + (" model="@ + model) =~= e.display());
            lemma_within(a + provider + " model="@, model, Seq::empty());
        },
        ProviderErrorView::Timeout { provider, timeout_ms } => {
            let a = "timeout after "@;
            let n = text::decimal(timeout_ms as nat);
            lemma_within(a, n, "ms for provider "@ + provider);
            assert(a + n + ("ms for provider "@ + provider) =~= e.display());
            lemma_within(a + n + "ms for provider "@, provider, Seq::empty());
        },
        ProviderErrorView::Transport { provider, message } => {
            let a = "transport error for provider "@;
            lemma_within(a, provider, ": "@ + message);
            assert(a + provider + (": "@ + message) =~= e.display());
            lemma_within(a + provider + ": "@, message, Seq::empty());
        },
        ProviderErrorView::Parse(m) => lemma_within("parse error: "@, m, Seq::empty()),
        ProviderErrorView::Upstream { status, code, message, .. } => {
            let a = "upstream error: status="@;
            let n = text::decimal(status as nat);
            lemma_within(a, n, " code="@ + code + " message="@ + message);
            assert(a + n + (" code="@ + code + " message="@ + message) =~= e.display());
            lemma_within(a + n + " code="@, code, " message="@ + message);
            assert(a + n + " code="@ + code + (" message="@ + message) =~= e.display());
            lemma_within(a + n + " code="@ + code + " message="@, message, Seq::empty());
        },
        ProviderErrorView::Stream { provider, message } => {
            let a = "stream error for provider "@;
            lemma_within(a, provider, ": "@ + message);
            assert(a + provider + (": "@ + message) =~= e.display());
            lemma_within(a + provider + ": "@, message, Seq::empty());
        },
    }
}

/// Logs tell every part of an error, what clients are not told too.
pub proof fn law_logs_tell_everything(e: BackendErrorView)
    ensures
        match e {
            BackendErrorView::InvalidRequest(m) => text::contains(e.display(), m),
            BackendErrorView::ModelUnavailable(m) => text::contains(e.display(), m),
            BackendErrorView::Unavailable(m) => text::contains(e.display(), m),
            BackendErrorView::Internal(m) => text::contains(e.display(), m),
            BackendErrorView::Upstream { status, code, message } => text::contains(
                e.display(),
                text::decimal(status as nat),
            ) && text::contains(e.display(), code) && text::contains(e.display(), message),
        },
{
    match e {
        BackendErrorView::InvalidRequest(m) => lemma_within("invalid request: "@, m, Seq::empty()),
        BackendErrorView::ModelUnavailable(m) => lemma_within(
            "model unavailable: "@,
            m,
            Seq::empty(),
        ),
        BackendErrorView::Unavailable(m) => lemma_within(
            "upstream unavailable: "@,
            m,
            Seq::empty(),
        ),
        BackendErrorView::Internal(m) => lemma_within(
            "internal backend error: "@,
            m,
            Seq::empty(),
        ),
        BackendErrorView::Upstream { status, code, message } => {
            let a = "upstream error: status="@;
            let n = text::decimal(status as nat);
            lemma_within(a, n, " code="@ + code + " message="@ + message);
            assert(a + n + (" code="@ + code + " message="@ + message) =~= e.display());
            lemma_within(a + n + " code="@, code, " message="@ + message);
            assert(a + n + " code="@ + code + (" message="@ + message) =~= e.display());
            lemma_within(a + n + " code="@ + code + " message="@, message, Seq::empty());
        },
    }
}

/// The error of a config tells the name that is at fault.
pub proof fn law_config_errors_tell_the_name(e: ConfigErrorView)
    ensures
        match e {
            ConfigErrorView::InvalidProviderId(id) => text::contains(e.display(), id),
            ConfigErrorView::InvalidModelId(id) => text::contains(e.display(), id),
            ConfigErrorView::InvalidBaseUrl(why) => text::contains(e.display(), why),
            ConfigErrorView::InvalidEnvVar(name) => text::contains(e.display(), name),
            ConfigErrorView::InvalidHeaderName => true,
            ConfigErrorView::DuplicateProviderId(id) => text::contains(e.display(), id),
            ConfigErrorView::DuplicateModelId { provider, model } => text::contains(
                e.display(),
                provider,
            ) && text::contains(e.display(), model),
            ConfigErrorView::InvalidTimeout(ms) => text::contains(
                e.display(),
                text::decimal(ms as nat),
            ),
            ConfigErrorView::DefaultModelNotFound(id) => text::contains(e.display(), id),
        },
{
    match e {
        ConfigErrorView::InvalidProviderId(id) => lemma_within(
            "provider id is empty or invalid: "@,
            id,
            Seq::empty(),
        ),
        ConfigErrorView::InvalidModelId(id) => lemma_within(
            "model id is empty or invalid: "@,
            id,
            Seq::empty(),
        ),
        ConfigErrorView::InvalidBaseUrl(why) => lemma_within(
            "base_url is invalid: "@,
            why,
            Seq::empty(),
        ),
        ConfigErrorView::InvalidEnvVar(name) => lemma_within(
            "env_var is invalid: "@,
            name,
            Seq::empty(),
        ),
        ConfigErrorView::InvalidHeaderName => {},
        ConfigErrorView::DuplicateProviderId(id) => lemma_within(
            "duplicate provider id: "@,
            id,
            Seq::empty(),
        ),
        ConfigErrorView::DuplicateModelId { provider, model } => {
            let a = "duplicate model id in provider "@;
            lemma_within(a, provider, ": "@ + model);
            assert(a + provider + (": "@ + model) =~= e.display());
            lemma_within(a + provider + ": "@, model, Seq::empty());
        },
        ConfigErrorView::InvalidTimeout(ms) => lemma_within(
            "timeout_ms must be > 0, got "@,
            text::decimal(ms as nat),
            Seq::empty(),
        ),
        ConfigErrorView::DefaultModelNotFound(id) => lemma_within(
            "default_model '"@,
            id,
            "' not found in provider models"@,
        ),
    }
}

/// The error of JSON that cannot be read tells the member that is at fault.
pub proof fn law_decode_errors_tell_the_member(e: DecodeErrorView)
    ensures
        match e {
            DecodeErrorView::Missing(name) => text::contains(e.message(), name),
            DecodeErrorView::MissingInBlock { kind, name } => text::contains(e.message(), kind)
                && text::contains(e.message(), name),
            DecodeErrorView::Invalid(name) => text::contains(e.message(), name),
            DecodeErrorView::NoVariant(name) => text::contains(e.message(), name),
        },
{
    match e {
        DecodeErrorView::Missing(name) => lemma_within("missing field `"@, name, "`"@),
        DecodeErrorView::MissingInBlock { kind, name } => {
            let a = "content block \""@;
            let b = "\" is missing \""@;
            lemma_within(a, kind, b + name + "\""@);
            assert(a + kind + (b + name + "\""@) =~= e.message());
            lemma_within(a + kind + b, name, "\""@);
        },
        DecodeErrorView::Invalid(name) => lemma_within(
            "invalid value for field `"@,
            name,
            "`"@,
        ),
        DecodeErrorView::NoVariant(name) => lemma_within(
            "data did not match any variant of untagged enum "@,
            name,
            Seq::empty(),
        ),
    }
}

} // verus!
