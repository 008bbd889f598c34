//! Safe credential loading and header redaction.
//!
//! Secrets are loaded exclusively from environment variables at request time.
//! No secret is written to disk, committed, or logged. Diagnostic output
//! redacts sensitive headers.

use vstd::prelude::*;
use vstd::string::*;

use crate::providers::config::{AuthConfig, AuthView};
use crate::providers::error::{ProviderError, ProviderErrorView};
use crate::providers::types;
use crate::sorted;
use crate::sorted::SortedMap;
use crate::text;

verus! {

// ---------------------------------------------------------------------------
// Credentials
// ---------------------------------------------------------------------------

/// The credential for an auth config, where `value` is what the environment
/// holds under its variable. A blank value is as good as none.
pub open spec fn credential(auth: AuthView, value: Option<Seq<char>>) -> Result<
    Option<Seq<char>>,
    ProviderErrorView,
> {
    match auth {
        AuthView::NoAuth => Ok(None),
        AuthView::Header { env_var, .. } => match value {
            None => Err(
                ProviderErrorView::AuthMissing { env_var, reason: "environment variable not set"@ },
            ),
            Some(v) => if text::trimmed(v).len() == 0 {
                Err(
                    ProviderErrorView::AuthMissing {
                        env_var,
                        reason: "environment variable is empty"@,
                    },
                )
            } else {
                Ok(Some(v))
            },
        },
    }
}

/// Load a credential value for the given auth config, `value` being what the
/// environment holds under the variable that the config names.
///
/// Returns `None` for `AuthConfig::NoAuth`. Returns an error if the variable
/// is missing or empty. The raw secret is returned to the caller for use in
/// the outgoing request header and is never logged.
pub fn load_credential(auth: &AuthConfig, value: Option<String>) -> (r: Result<
    Option<String>,
    ProviderError,
>)
    ensures
        match r {
            Ok(c) => credential(auth@, types::optional_view(value)) == Ok::<
                Option<Seq<char>>,
                ProviderErrorView,
            >(types::optional_view(c)),
            Err(e) => credential(auth@, types::optional_view(value)) == Err::<
                Option<Seq<char>>,
                ProviderErrorView,
            >(e@),
        },
{
    match auth {
        AuthConfig::NoAuth => Ok(None),
        AuthConfig::Header { env_var, .. } => match value {
            Some(v) => if text::is_blank(v.as_str()) {
                Err(
                    ProviderError::AuthMissing {
                        env_var: env_var.clone(),
                        reason: "environment variable is empty".to_owned(),
                    },
                )
            } else {
                Ok(Some(v))
            },
            None => Err(
                ProviderError::AuthMissing {
                    env_var: env_var.clone(),
                    reason: "environment variable not set".to_owned(),
                },
            ),
        },
    }
}

/// An error about a credential tells the variable, never what it holds.
pub proof fn law_credential_errors_are_blind(auth: AuthView, a: Seq<char>, b: Seq<char>)
    requires
        credential(auth, Some(a)) is Err,
        credential(auth, Some(b)) is Err,
    ensures
        credential(auth, Some(a)) == credential(auth, Some(b)),
{
}

/// The header to send for a token: the prefix verbatim, then the token.
pub open spec fn auth_header(auth: AuthView, token: Seq<char>) -> Option<(Seq<char>, Seq<char>)> {
    match auth {
        AuthView::NoAuth => None,
        AuthView::Header { header, prefix, .. } => Some(
            (
                header,
                match prefix {
                    Some(p) => p + token,
                    None => token,
                },
            ),
        ),
    }
}

/// Build the header value to send for the given auth config and raw token.
///
/// If `prefix` is set, it is prepended verbatim (e.g. `"Bearer "`).
pub fn build_auth_header_value(auth: &AuthConfig, token: &str) -> (r: Option<(String, String)>)
    ensures
        match r {
            Some((name, value)) => auth_header(auth@, token@) == Some((name@, value@)),
            None => auth_header(auth@, token@) is None,
        },
{
    match auth {
        AuthConfig::NoAuth => None,
        AuthConfig::Header { header, prefix, .. } => {
            let value = match prefix {
                Some(p) => text::concat2(p.as_str(), token),
                None => token.to_owned(),
            };
            Some((header.clone(), value))
        },
    }
}

// ---------------------------------------------------------------------------
// Redaction
// ---------------------------------------------------------------------------

/// What is shown in place of a secret.
pub open spec fn redaction() -> Seq<char> {
    "[REDACTED]"@
}

/// Header names that always carry secrets, whatever the case of their letters,
/// and any name that speaks of a secret, a token or a key.
pub open spec fn sensitive(name: Seq<char>) -> bool {
    let low = text::lowered(name);
    ||| low == "authorization"@
    ||| low == "x-api-key"@
    ||| low == "x-goog-api-key"@
    ||| low == "api-key"@
    ||| low == "x-auth-token"@
    ||| text::contains(low, "secret"@)
    ||| text::contains(low, "token"@)
    ||| text::contains(low, "key"@)
}

/// Whether `name` is the header that an auth config puts its credential in.
pub open spec fn carries_credential(auth: AuthView, name: Seq<char>) -> bool {
    match auth {
        AuthView::NoAuth => false,
        AuthView::Header { header, .. } => text::lowered(header) == text::lowered(name),
    }
}

/// What a log shows of a header.
pub open spec fn shown(auth: AuthView, name: Seq<char>, value: Seq<char>) -> Seq<char> {
    if sensitive(name) || carries_credential(auth, name) {
        redaction()
    } else {
        value
    }
}

/// The value of a sensitive header makes no difference to what is shown.
pub proof fn law_redaction_is_blind(auth: AuthView, name: Seq<char>, a: Seq<char>, b: Seq<char>)
    requires
        sensitive(name) || carries_credential(auth, name),
    ensures
        shown(auth, name, a) == shown(auth, name, b),
{
}

/// Whether a header is sensitive does not depend on the case of its letters.
pub proof fn law_sensitive_ignores_case(a: Seq<char>, b: Seq<char>)
    requires
        text::lowered(a) == text::lowered(b),
    ensures
        sensitive(a) == sensitive(b),
{
}

/// Check if a header name is sensitive.
pub fn is_sensitive(name: &str) -> (r: bool)
    ensures
        r == sensitive(name@),
{
    let lower = text::to_lower(name);
    let low = lower.as_str();
    text::same(low, "authorization") || text::same(low, "x-api-key") || text::same(
        low,
        "x-goog-api-key",
    ) || text::same(low, "api-key") || text::same(low, "x-auth-token") || text::has(low, "secret")
        || text::has(low, "token") || text::has(low, "key")
}

fn is_auth_header(auth: &AuthConfig, name: &str) -> (r: bool)
    ensures
        r == carries_credential(auth@, name@),
{
    match auth {
        AuthConfig::NoAuth => false,
        AuthConfig::Header { header, .. } => {
            let a = text::to_lower(header.as_str());
            let b = text::to_lower(name);
            text::same(a.as_str(), b.as_str())
        },
    }
}

/// The last value that a list of headers gives each name.
pub open spec fn header_map(headers: Seq<(Seq<char>, Seq<char>)>) -> Map<Seq<char>, Seq<char>>
    decreases headers.len(),
{
    if headers.len() == 0 {
        Map::empty()
    } else {
        header_map(headers.drop_last()).insert(headers.last().0, headers.last().1)
    }
}

/// A sorted map from header names to values.
pub type Headers = SortedMap<String>;

/// The names and values of a sorted map.
pub open spec fn headers_of(m: Headers) -> Map<Seq<char>, Seq<char>> {
    Map::new(|name: Seq<char>| m@.contains_key(sorted::row(name)), |name: Seq<char>| m@[sorted::row(name)]@)
}

/// Every value as a log shows it.
pub open spec fn redacted(auth: AuthView, m: Map<Seq<char>, Seq<char>>) -> Map<
    Seq<char>,
    Seq<char>,
> {
    Map::new(|name: Seq<char>| m.contains_key(name), |name: Seq<char>| shown(auth, name, m[name]))
}

/// Set one header.
pub(crate) fn put_header(m: &mut Headers, name: &str, value: String)
    requires
        old(m).wf(),
    ensures
        final(m).wf(),
        headers_of(*final(m)) == headers_of(*old(m)).insert(name@, value@),
{
    let ghost before = *m;
    m.insert(sorted::key_of(name), value);
    proof {
        sorted::lemma_rows_differ();
        assert(headers_of(*m) =~= headers_of(before).insert(name@, value@));
    }
}

/// Redact for diagnostics the headers that go to a provider with the given
/// auth config: those that are sensitive by name, and the one that carries the
/// credential. The result is sorted by name.
pub fn redact_headers_for(auth: &AuthConfig, headers: &Vec<(String, String)>) -> (r: Headers)
    ensures
        r.wf(),
        headers_of(r) == redacted(auth@, header_map(types::headers_view(headers@))),
{
    let ghost all = types::headers_view(headers@);
    let mut out: Headers = SortedMap::new();
    let mut i: usize = 0;
    proof {
        assert(headers_of(out) =~= redacted(auth@, header_map(all.take(0))));
    }
    while i < headers.len()
        invariant
            i <= headers@.len(),
            all == types::headers_view(headers@),
            out.wf(),
            headers_of(out) == redacted(auth@, header_map(all.take(i as int))),
        decreases headers@.len() - i,
    {
        let name = headers[i].0.as_str();
        let value = if is_sensitive(name) || is_auth_header(auth, name) {
            "[REDACTED]".to_owned()
        } else {
            headers[i].1.clone()
        };
        proof {
            assert(all.take(i + 1).drop_last() =~= all.take(i as int));
            assert(all.take(i + 1).last() == (headers@[i as int].0@, headers@[i as int].1@));
        }
        put_header(&mut out, name, value);
        assert(headers_of(out) =~= redacted(auth@, header_map(all.take(i + 1))));
        i = i + 1;
    }
    assert(all.take(i as int) =~= all);
    out
}

/// Redact sensitive header values for diagnostics.
///
/// Any header whose name case-insensitively is sensitive is replaced with
/// `"[REDACTED]"`. Returns a new map suitable for logging.
pub fn redact_headers(headers: &Vec<(String, String)>) -> (r: Headers)
    ensures
        r.wf(),
        headers_of(r) == redacted(AuthView::NoAuth, header_map(types::headers_view(headers@))),
{
    redact_headers_for(&AuthConfig::NoAuth, headers)
}

/// Redact sensitive headers in a sorted map.
pub fn redact_headers_btree(headers: &Headers) -> (r: Headers)
    requires
        headers.wf(),
    ensures
        r.wf(),
        headers_of(r) == redacted(AuthView::NoAuth, headers_of(*headers)),
{
    let ghost all = redacted(AuthView::NoAuth, headers_of(*headers));
    let mut out: Headers = SortedMap::new();
    let mut i: usize = 0;
    proof {
        sorted::lemma_rows_differ();
    }
    while i < headers.entries.len()
        invariant
            i <= headers.entries@.len(),
            headers.wf(),
            out.wf(),
            all == redacted(AuthView::NoAuth, headers_of(*headers)),
            forall|n: Seq<char>| #[trigger]
                headers_of(out).contains_key(n) ==> all.contains_key(n) && headers_of(out)[n]
                    == all[n],
            forall|j: int|
                0 <= j < i && (#[trigger] headers.keys()[j]).len() == 1 ==> headers_of(
                    out,
                ).contains_key(headers.keys()[j][0]),
        decreases headers.entries@.len() - i,
    {
        let key = &headers.entries[i].0;
        assert(headers.keys()[i as int] == text::views(key@));
        if key.len() == 1 {
            let name = key[0].as_str();
            proof {
                headers.lemma_at(i as int);
                assert(text::views(key@) =~= sorted::row(name@));
            }
            let value = if is_sensitive(name) {
                "[REDACTED]".to_owned()
            } else {
                headers.entries[i].1.clone()
            };
            put_header(&mut out, name, value);
        }
        i = i + 1;
    }
    proof {
        assert forall|n: Seq<char>| all.contains_key(n) implies #[trigger] headers_of(
            out,
        ).contains_key(n) by {
            assert(headers.keys().contains(sorted::row(n)));
            let j = headers.keys().index_of(sorted::row(n));
            assert(headers.keys()[j] == sorted::row(n));
            assert(sorted::row(n)[0] == n);
        }
        assert(headers_of(out) =~= all);
    }
    out
}

} // verus!
