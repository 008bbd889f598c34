//! `switchyard doctor` — sequential pre-flight checks for config, credentials,
//! provider reachability, and gateway health.
//!
//! The checks fail when the config is invalid or any credential is missing.
//! Reachability failures are warnings and do not affect the outcome. What is
//! found and how it is reported is worked out here; reading files and the
//! environment, and sending requests, is left to the caller.

use vstd::prelude::*;
use vstd::string::*;

use crate::config::SwitchyardConfig;
use crate::providers::config as provider_config;
use crate::providers::config::{AuthConfig, AuthView, ModelConfig, ProviderConfig, ProviderView};
use crate::providers::decode;
use crate::text;

verus! {

pub const GREEN: &'static str = "\x1b[32m";

pub const YELLOW: &'static str = "\x1b[33m";

pub const RED: &'static str = "\x1b[31m";

pub const DIM: &'static str = "\x1b[2m";

pub const BOLD: &'static str = "\x1b[1m";

pub const RESET: &'static str = "\x1b[0m";

/// Where a running gateway answers.
pub const GATEWAY_URL: &'static str = "http://127.0.0.1:3456/health";

#[derive(Debug, Clone, Copy, PartialEq, Eq, Structural)]
pub enum Severity {
    Pass,
    Warn,
    Fail,
}

impl Severity {
    pub open spec fn mark(self) -> Seq<char> {
        match self {
            Severity::Pass => "PASS"@,
            Severity::Warn => "WARN"@,
            Severity::Fail => "FAIL"@,
        }
    }

    pub open spec fn tint(self) -> Seq<char> {
        match self {
            Severity::Pass => GREEN@,
            Severity::Warn => YELLOW@,
            Severity::Fail => RED@,
        }
    }

    pub fn marker(self) -> (r: &'static str)
        ensures
            r@ == self.mark(),
    {
        match self {
            Severity::Pass => "PASS",
            Severity::Warn => "WARN",
            Severity::Fail => "FAIL",
        }
    }

    pub fn color(self) -> (r: &'static str)
        ensures
            r@ == self.tint(),
    {
        match self {
            Severity::Pass => GREEN,
            Severity::Warn => YELLOW,
            Severity::Fail => RED,
        }
    }
}

// ---------------------------------------------------------------------------
// Layout
// ---------------------------------------------------------------------------

/// A character over and over.
pub open spec fn run_of(c: char, n: nat) -> Seq<char> {
    Seq::new(n, |i: int| c)
}

/// A text, filled up with spaces to a width.
pub open spec fn padded(s: Seq<char>, width: nat) -> Seq<char> {
    if s.len() < width {
        s + run_of(' ', (width - s.len()) as nat)
    } else {
        s
    }
}

fn repeat(c: char, n: usize) -> (r: String)
    ensures
        r@ == run_of(c, n as nat),
{
    let mut r = String::new();
    let mut i: usize = 0;
    assert(r@ =~= run_of(c, 0));
    while i < n
        invariant
            i <= n,
            r@ == run_of(c, i as nat),
        decreases n - i,
    {
        assert(run_of(c, i as nat).push(c) =~= run_of(c, (i + 1) as nat));
        r.push(c);
        i = i + 1;
    }
    r
}

fn pad(s: &str, width: usize) -> (r: String)
    ensures
        r@ == padded(s@, width as nat),
{
    let n: usize = s.unicode_len();
    if n < width {
        let fill = repeat(' ', width - n);
        text::concat2(s, fill.as_str())
    } else {
        s.to_owned()
    }
}

/// One line of the report.
pub open spec fn row(severity: Severity, check: Seq<char>, detail: Seq<char>) -> Seq<char> {
    "  "@ + severity.tint() + severity.mark() + RESET@ + "  "@ + BOLD@ + padded(check, 12) + RESET@
        + "  "@ + detail + "\n"@
}

pub fn format_row(severity: Severity, check: &str, detail: &str) -> (r: String)
    ensures
        r@ == row(severity, check@, detail@),
{
    let name = pad(check, 12);
    let mut r = text::concat3("  ", severity.color(), severity.marker());
    r.append(RESET);
    r.append("  ");
    r.append(BOLD);
    r.append(name.as_str());
    r.append(RESET);
    r.append("  ");
    r.append(detail);
    r.append("\n");
    r
}

/// The ids of the models of a provider, or a word that says there are none.
pub open spec fn model_names(p: ProviderView) -> Seq<char> {
    if p.models.len() == 0 {
        "(none)"@
    } else {
        text::joined(provider_config::ids_of(p.models), ", "@)
    }
}

fn list_models(models: &Vec<ModelConfig>) -> (r: String)
    ensures
        r@ == (if models@.len() == 0 {
            "(none)"@
        } else {
            text::joined(provider_config::ids_of(decode::all_views(models@)), ", "@)
        }),
{
    if models.len() == 0 {
        return "(none)".to_owned();
    }
    let ghost ids = provider_config::ids_of(decode::all_views(models@));
    let mut names: Vec<String> = Vec::new();
    let mut i: usize = 0;
    assert(text::views(names@) =~= ids.take(0));
    while i < models.len()
        invariant
            i <= models@.len(),
            ids == provider_config::ids_of(decode::all_views(models@)),
            text::views(names@) == ids.take(i as int),
        decreases models@.len() - i,
    {
        let ghost before = names@;
        let name = models[i].id.clone();
        names.push(name);
        assert(text::views(names@) =~= text::views(before).push(name@));
        assert(ids.take(i + 1) =~= ids.take(i as int).push(ids[i as int]));
        i = i + 1;
    }
    assert(ids.take(i as int) =~= ids);
    text::join(&names, ", ")
}

/// The base URL of a provider without a slash at its end.
pub open spec fn base_of(p: ProviderView) -> Seq<char> {
    text::trimmed_end_of(p.base_url.text, '/')
}

/// The line of a provider in the table.
pub open spec fn table_line(p: ProviderView) -> Seq<char> {
    "  "@ + padded(p.id, 16) + "  "@ + padded(base_of(p), 40) + "  "@ + model_names(p) + "\n"@
}

pub open spec fn table_lines(providers: Seq<ProviderView>) -> Seq<char>
    decreases providers.len(),
{
    if providers.len() == 0 {
        Seq::empty()
    } else {
        table_lines(providers.drop_last()) + table_line(providers.last())
    }
}

pub open spec fn table_head() -> Seq<char> {
    "\n  "@ + BOLD@ + padded("provider"@, 16) + "  "@ + padded("base_url"@, 40) + "  models"@
        + RESET@ + "\n  "@ + run_of('\u{2500}', 76) + "\n"@
}

/// The table of the configured providers.
pub open spec fn provider_table(providers: Seq<ProviderView>) -> Seq<char> {
    if providers.len() == 0 {
        "  "@ + DIM@ + "(no providers configured)"@ + RESET@ + "\n"@
    } else {
        table_head() + table_lines(providers) + "\n"@
    }
}

fn format_table_line(p: &ProviderConfig) -> (r: String)
    ensures
        r@ == table_line(p@),
{
    let base = p.normalized_base_url();
    let id = pad(p.id.as_str(), 16);
    let url = pad(base.as_str(), 40);
    let models = list_models(&p.models);
    let mut r = text::concat3("  ", id.as_str(), "  ");
    r.append(url.as_str());
    r.append("  ");
    r.append(models.as_str());
    r.append("\n");
    r
}

fn format_table_head() -> (r: String)
    ensures
        r@ == table_head(),
{
    let provider = pad("provider", 16);
    let base_url = pad("base_url", 40);
    let line = repeat('\u{2500}', 76);
    let mut r = text::concat3("\n  ", BOLD, provider.as_str());
    r.append("  ");
    r.append(base_url.as_str());
    r.append("  models");
    r.append(RESET);
    r.append("\n  ");
    r.append(line.as_str());
    r.append("\n");
    r
}

pub fn format_provider_table(config: &SwitchyardConfig) -> (r: String)
    ensures
        r@ == provider_table(decode::all_views(config.providers@)),
{
    let providers = &config.providers;
    if providers.len() == 0 {
        let mut r = text::concat3("  ", DIM, "(no providers configured)");
        r.append(RESET);
        r.append("\n");
        return r;
    }
    let ghost all = decode::all_views(providers@);
    let mut r = format_table_head();
    let mut i: usize = 0;
    assert(r@ =~= table_head() + table_lines(all.take(0)));
    while i < providers.len()
        invariant
            i <= providers@.len(),
            all == decode::all_views(providers@),
            r@ == table_head() + table_lines(all.take(i as int)),
        decreases providers@.len() - i,
    {
        let line = format_table_line(&providers[i]);
        let ghost before = r@;
        r.append(line.as_str());
        proof {
            assert(all.take(i + 1).drop_last() =~= all.take(i as int));
            assert(all.take(i + 1).last() == all[i as int]);
            assert(before + line@ =~= table_head() + table_lines(all.take(i + 1)));
        }
        i = i + 1;
    }
    assert(all.take(i as int) =~= all);
    r.append("\n");
    r
}

// ---------------------------------------------------------------------------
// Config
// ---------------------------------------------------------------------------

/// What is wrong with the first invalid provider, if one is.
pub open spec fn first_defect(providers: Seq<ProviderView>) -> Option<Seq<char>>
    decreases providers.len(),
{
    if providers.len() == 0 {
        None
    } else {
        match provider_config::provider_defect(providers[0]) {
            Some(e) => Some(
                "provider '"@ + providers[0].id + "' validation failed: "@ + e.display(),
            ),
            None => first_defect(providers.skip(1)),
        }
    }
}

/// Validate the providers of a config, each for itself.
pub fn validate_config(config: &SwitchyardConfig) -> (r: Result<(), String>)
    ensures
        match r {
            Ok(()) => first_defect(decode::all_views(config.providers@)) is None,
            Err(why) => first_defect(decode::all_views(config.providers@)) == Some(why@),
        },
{
    let providers = &config.providers;
    let ghost all = decode::all_views(providers@);
    let mut i: usize = 0;
    assert(all.skip(0) =~= all);
    while i < providers.len()
        invariant
            i <= providers@.len(),
            all == decode::all_views(providers@),
            all == decode::all_views(config.providers@),
            first_defect(all) == first_defect(all.skip(i as int)),
        decreases providers@.len() - i,
    {
        assert(all.skip(i as int)[0] == providers@[i as int]@);
        assert(all.skip(i as int).skip(1) =~= all.skip(i + 1));
        if let Err(e) = providers[i].validate() {
            let message = e.to_string();
            let mut why = text::concat3(
                "provider '",
                providers[i].id.as_str(),
                "' validation failed: ",
            );
            why.append(message.as_str());
            proof {
                let rest = all.skip(i as int);
                assert(first_defect(rest) == Some(why@));
            }
            return Err(why);
        }
        i = i + 1;
    }
    Ok(())
}

/// What is printed before the checks.
pub fn heading() -> (r: String)
    ensures
        r@ == BOLD@ + "switchyard doctor"@ + RESET@ + "\n\n"@,
{
    let mut r = text::concat3(BOLD, "switchyard doctor", RESET);
    r.append("\n\n");
    r
}

/// The report on a config that was loaded and is valid.
pub fn config_loaded(path: &str, config: &SwitchyardConfig) -> (r: String)
    ensures
        r@ == row(Severity::Pass, "config"@, "loaded from "@ + path@) + provider_table(
            decode::all_views(config.providers@),
        ),
{
    let detail = text::concat2("loaded from ", path);
    let first = format_row(Severity::Pass, "config", detail.as_str());
    let table = format_provider_table(config);
    text::concat2(first.as_str(), table.as_str())
}

/// The report on a config that could not be loaded or is invalid.
pub fn config_failed(why: &str) -> (r: String)
    ensures
        r@ == row(Severity::Fail, "config"@, why@) + "\n"@ + RED@
            + "Cannot continue without a valid config."@ + RESET@ + "\n"@,
{
    let first = format_row(Severity::Fail, "config", why);
    let mut r = text::concat3(first.as_str(), "\n", RED);
    r.append("Cannot continue without a valid config.");
    r.append(RESET);
    r.append("\n");
    r
}

// ---------------------------------------------------------------------------
// Credentials
// ---------------------------------------------------------------------------

/// Whether a provider has its credential. `value` is what its environment
/// variable holds, where it is set to a text.
pub open spec fn credential_severity(auth: AuthView, value: Option<Seq<char>>) -> Severity {
    match auth {
        AuthView::NoAuth => Severity::Pass,
        AuthView::Header { .. } => match value {
            Some(v) => if text::trimmed(v).len() > 0 {
                Severity::Pass
            } else {
                Severity::Fail
            },
            None => Severity::Fail,
        },
    }
}

pub fn check_credential(auth: &AuthConfig, value: &Option<String>) -> (r: Severity)
    ensures
        r == credential_severity(auth@, decode::text_view(*value)),
{
    match auth {
        AuthConfig::NoAuth => Severity::Pass,
        AuthConfig::Header { .. } => match value {
            Some(v) => if text::is_blank(v.as_str()) {
                Severity::Fail
            } else {
                Severity::Pass
            },
            None => Severity::Fail,
        },
    }
}

/// Whose credential it is and where it is to be found.
pub open spec fn credential_place(id: Seq<char>, auth: AuthView) -> Seq<char> {
    match auth {
        AuthView::NoAuth => id + " "@ + DIM@ + "(no auth)"@ + RESET@,
        AuthView::Header { env_var, .. } => id + " "@ + DIM@ + env_var + RESET@,
    }
}

pub fn credential_detail(provider_id: &str, auth: &AuthConfig) -> (r: String)
    ensures
        r@ == credential_place(provider_id@, auth@),
{
    let mut r = text::concat3(provider_id, " ", DIM);
    match auth {
        AuthConfig::NoAuth => r.append("(no auth)"),
        AuthConfig::Header { env_var, .. } => r.append(env_var.as_str()),
    }
    r.append(RESET);
    r
}

/// The lines on the credentials of the providers.
pub open spec fn credential_rows(
    providers: Seq<ProviderView>,
    values: Seq<Option<Seq<char>>>,
) -> Seq<char>
    decreases providers.len(),
{
    if providers.len() == 0 {
        Seq::empty()
    } else {
        let p = providers.last();
        credential_rows(providers.drop_last(), values) + row(
            credential_severity(p.auth, values[providers.len() - 1]),
            "credential"@,
            credential_place(p.id, p.auth),
        )
    }
}

/// Some provider lacks its credential.
pub open spec fn credential_missing(
    providers: Seq<ProviderView>,
    values: Seq<Option<Seq<char>>>,
) -> bool {
    exists|i: int|
        0 <= i < providers.len() && credential_severity(
            (#[trigger] providers[i]).auth,
            values[i],
        ) == Severity::Fail
}

/// The views of a row of texts that may be absent.
pub open spec fn value_views(values: Seq<Option<String>>) -> Seq<Option<Seq<char>>> {
    values.map_values(|v: Option<String>| decode::text_view(v))
}

/// Report on the credentials. `values` holds, for each provider, what its
/// environment variable holds. The second part of the result says whether one
/// is missing.
pub fn credential_report(config: &SwitchyardConfig, values: &Vec<Option<String>>) -> (r: (
    String,
    bool,
))
    requires
        values@.len() == config.providers@.len(),
    ensures
        r.0@ == credential_rows(decode::all_views(config.providers@), value_views(values@)),
        r.1 == credential_missing(decode::all_views(config.providers@), value_views(values@)),
{
    let providers = &config.providers;
    let ghost all = decode::all_views(providers@);
    let ghost vals = value_views(values@);
    let mut report = String::new();
    let mut missing = false;
    let mut i: usize = 0;
    assert(report@ =~= credential_rows(all.take(0), vals));
    while i < providers.len()
        invariant
            i <= providers@.len(),
            values@.len() == providers@.len(),
            all == decode::all_views(providers@),
            vals == value_views(values@),
            report@ == credential_rows(all.take(i as int), vals),
            missing == credential_missing(all.take(i as int), vals),
        decreases providers@.len() - i,
    {
        let provider = &providers[i];
        let severity = check_credential(&provider.auth, &values[i]);
        let detail = credential_detail(provider.id.as_str(), &provider.auth);
        let line = format_row(severity, "credential", detail.as_str());
        report.append(line.as_str());
        proof {
            let before = all.take(i as int);
            let after = all.take(i + 1);
            assert(after.drop_last() =~= before);
            assert(after.last() == provider@);
            assert(vals[i as int] == decode::text_view(values@[i as int]));
            if credential_missing(before, vals) {
                let j = choose|j: int|
                    0 <= j < before.len() && credential_severity(
                        (#[trigger] before[j]).auth,
                        vals[j],
                    ) == Severity::Fail;
                assert(after[j] == before[j]);
                assert(credential_missing(after, vals));
            }
            if severity == Severity::Fail {
                assert(after[i as int] == provider@);
                assert(credential_missing(after, vals));
            }
            if credential_missing(after, vals) && severity != Severity::Fail {
                let j = choose|j: int|
                    0 <= j < after.len() && credential_severity(
                        (#[trigger] after[j]).auth,
                        vals[j],
                    ) == Severity::Fail;
                assert(j < i);
                assert(before[j] == after[j]);
                assert(credential_missing(before, vals));
            }
        }
        match severity {
            Severity::Fail => {
                missing = true;
            },
            _ => {},
        }
        i = i + 1;
    }
    assert(all.take(i as int) =~= all);
    (report, missing)
}

/// A variable that holds only white space counts as missing.
pub proof fn law_blank_credentials_fail(auth: AuthView, value: Seq<char>)
    requires
        auth is Header,
        text::trimmed(value).len() == 0,
    ensures
        credential_severity(auth, Some(value)) == Severity::Fail,
        credential_severity(auth, None) == Severity::Fail,
{
}

// ---------------------------------------------------------------------------
// Reachability
// ---------------------------------------------------------------------------

/// How a provider was reached: an unreachable one is a warning.
pub open spec fn reach_severity(answered: bool) -> Severity {
    if answered {
        Severity::Pass
    } else {
        Severity::Warn
    }
}

/// The line on whether a provider answered.
pub fn reach_row(provider: &ProviderConfig, answered: bool) -> (r: String)
    ensures
        r@ == row(reach_severity(answered), "reach"@, provider@.id + " "@ + base_of(provider@)),
{
    let base = provider.normalized_base_url();
    let detail = text::concat3(provider.id.as_str(), " ", base.as_str());
    format_row(
        if answered {
            Severity::Pass
        } else {
            Severity::Warn
        },
        "reach",
        detail.as_str(),
    )
}

/// Whether a gateway is serving: it has answered the health check, and with
/// success.
pub open spec fn serving(status: Option<u16>) -> bool {
    status matches Some(code) && 200 <= code < 300
}

/// Whether a gateway is serving: `status` is that of its answer to the health
/// check, if it gave one.
pub fn gateway_serves(status: Option<u16>) -> (r: bool)
    ensures
        r == serving(status),
{
    match status {
        Some(code) => 200 <= code && code < 300,
        None => false,
    }
}

/// The line on whether a gateway is serving.
pub fn gateway_row(status: Option<u16>) -> (r: String)
    ensures
        r@ == (if serving(status) {
            row(Severity::Pass, "gateway"@, GATEWAY_URL@ + " is serving"@)
        } else {
            row(Severity::Warn, "gateway"@, GATEWAY_URL@ + " is not reachable"@)
        }),
{
    if gateway_serves(status) {
        let detail = text::concat2(GATEWAY_URL, " is serving");
        format_row(Severity::Pass, "gateway", detail.as_str())
    } else {
        let detail = text::concat2(GATEWAY_URL, " is not reachable");
        format_row(Severity::Warn, "gateway", detail.as_str())
    }
}

/// What the checks have found.
#[derive(Debug, Clone, Copy, PartialEq, Eq, Structural)]
pub struct Findings {
    pub config_valid: bool,
    pub credential_missing: bool,
    pub providers_reached: bool,
    pub gateway_serving: bool,
}

impl Findings {
    /// The checks fail where the config is invalid or a credential is missing.
    pub open spec fn good(self) -> bool {
        self.config_valid && !self.credential_missing
    }

    pub fn passed(&self) -> (r: bool)
        ensures
            r == self.good(),
    {
        self.config_valid && !self.credential_missing
    }
}

/// Whether providers and gateway can be reached does not count.
pub proof fn law_reachability_does_not_count(a: Findings, b: Findings)
    requires
        a.config_valid == b.config_valid,
        a.credential_missing == b.credential_missing,
    ensures
        a.good() == b.good(),
{
}

/// What is printed after the checks.
pub fn summary(failed: bool) -> (r: String)
    ensures
        r@ == "\n"@ + (if failed {
            RED@ + "Some checks failed. Fix the issues above before starting the gateway."@
        } else {
            GREEN@ + "All required checks passed."@
        }) + RESET@ + "\n"@,
{
    let mut r = if failed {
        text::concat3(
            "\n",
            RED,
            "Some checks failed. Fix the issues above before starting the gateway.",
        )
    } else {
        text::concat3("\n", GREEN, "All required checks passed.")
    };
    proof {
        let part = if failed {
            RED@ + "Some checks failed. Fix the issues above before starting the gateway."@
        } else {
            GREEN@ + "All required checks passed."@
        };
        assert(r@ =~= "\n"@ + part);
    }
    r.append(RESET);
    r.append("\n");
    r
}

/// A provider without auth has all that it needs; any other needs a credential
/// that is more than white space.
pub proof fn law_credentials_are_checked(auth: AuthView, value: Option<Seq<char>>)
    ensures
        credential_severity(auth, value) == Severity::Pass || credential_severity(auth, value)
            == Severity::Fail,
        credential_severity(auth, value) == Severity::Pass <==> auth is NoAuth || (
        value matches Some(v) && exists|i: int|
            0 <= i < v.len() && !text::whitespace(#[trigger] v[i])),
{
    if let Some(v) = value {
        text::lemma_trimmed_start(v);
        let t = text::trimmed_start(v);
        text::lemma_trimmed_end(t);
        if text::trimmed(v).len() > 0 {
            assert(t[0] == v[v.len() - t.len()]);
        } else {
            assert forall|i: int| 0 <= i < v.len() implies text::whitespace(#[trigger] v[i]) by {
                if i >= v.len() - t.len() {
                    assert(v[i] == t[i - (v.len() - t.len())]);
                }
            }
        }
    }
}

/// One provider without its credential is enough for the check to fail.
pub proof fn law_one_missing_credential_counts(
    providers: Seq<ProviderView>,
    values: Seq<Option<Seq<char>>>,
    i: int,
)
    requires
        0 <= i < providers.len(),
        providers[i].auth is Header,
        values[i] is None,
    ensures
        credential_missing(providers, values),
{
    assert(credential_severity(providers[i].auth, values[i]) == Severity::Fail);
}

/// The check passes exactly where the config is valid and no credential is
/// missing.
pub proof fn law_findings(f: Findings)
    ensures
        f.good() <==> f.config_valid && !f.credential_missing,
{
}

/// A gateway serves where it answers with a status of success.
pub proof fn law_serving_gateways(status: u16)
    ensures
        serving(Some(status)) <==> 200 <= status <= 299,
        !serving(None),
{
}

/// A provider that answers is reached; one that does not is a warning, no
/// failure.
pub proof fn law_reaching_providers()
    ensures
        reach_severity(true) == Severity::Pass,
        reach_severity(false) == Severity::Warn,
{
}

/// A config is valid exactly where each of its providers is.
pub proof fn law_valid_configs(providers: Seq<ProviderView>)
    ensures
        first_defect(providers) is None <==> forall|i: int|
            0 <= i < providers.len() ==> provider_config::provider_defect(
                #[trigger] providers[i],
            ) is None,
    decreases providers.len(),
{
    if providers.len() > 0 {
        let rest = providers.skip(1);
        law_valid_configs(rest);
        if first_defect(providers) is None {
            assert forall|i: int| 0 <= i < providers.len() implies provider_config::provider_defect(
                #[trigger] providers[i],
            ) is None by {
                if i > 0 {
                    assert(rest[i - 1] == providers[i]);
                }
            }
        } else if forall|i: int|
            0 <= i < providers.len() ==> provider_config::provider_defect(
                #[trigger] providers[i],
            ) is None {
            assert(provider_config::provider_defect(providers[0]) is None);
            assert forall|i: int| 0 <= i < rest.len() implies provider_config::provider_defect(
                #[trigger] rest[i],
            ) is None by {
                assert(rest[i] == providers[i + 1]);
            }
        }
    }
}

/// A row shows how a check ended, which check it was, and the detail.
pub proof fn law_rows_show_the_check(severity: Severity, check: Seq<char>, detail: Seq<char>)
    ensures
        text::contains(row(severity, check, detail), check),
        text::contains(row(severity, check, detail), detail),
        text::contains(
            row(severity, check, detail),
            match severity {
                Severity::Pass => "PASS"@,
                Severity::Warn => "WARN"@,
                Severity::Fail => "FAIL"@,
            },
        ),
{
    let whole = row(severity, check, detail);
    let mark = severity.mark();
    let a = "  "@ + severity.tint();
    let b = a + mark + RESET@ + "  "@ + BOLD@;
    let c = b + padded(check, 12) + RESET@ + "  "@;
    assert(whole.subrange(a.len() as int, (a.len() + mark.len()) as int) =~= mark);
    assert(text::occurs_at(whole, mark, a.len() as int));
    assert(whole.subrange(b.len() as int, (b.len() + check.len()) as int) =~= check);
    assert(text::occurs_at(whole, check, b.len() as int));
    assert(whole.subrange(c.len() as int, (c.len() + detail.len()) as int) =~= detail);
    assert(text::occurs_at(whole, detail, c.len() as int));
}

proof fn lemma_contained(a: Seq<char>, p: Seq<char>, b: Seq<char>)
    ensures
        text::contains(a + p + b, p),
{
    assert((a + p + b).subrange(a.len() as int, (a.len() + p.len()) as int) =~= p);
    assert(text::occurs_at(a + p + b, p, a.len() as int));
}

proof fn lemma_contained_through(whole: Seq<char>, part: Seq<char>, p: Seq<char>)
    requires
        text::contains(whole, part),
        text::contains(part, p),
    ensures
        text::contains(whole, p),
{
    let i = choose|i: int| #[trigger] text::occurs_at(whole, part, i);
    let j = choose|j: int| #[trigger] text::occurs_at(part, p, j);
    assert(part =~= whole.subrange(i, i + part.len()));
    assert(whole.subrange(i + j, i + j + p.len()) =~= part.subrange(j, j + p.len()));
    assert(text::occurs_at(whole, p, i + j));
}

proof fn lemma_table_holds(providers: Seq<ProviderView>, i: int)
    requires
        0 <= i < providers.len(),
    ensures
        text::contains(table_lines(providers), table_line(providers[i])),
    decreases providers.len(),
{
    let front = table_lines(providers.drop_last());
    let last = table_line(providers.last());
    let none = Seq::<char>::empty();
    if i < providers.len() - 1 {
        lemma_table_holds(providers.drop_last(), i);
        lemma_contained(none, front, last);
        assert(none + front + last =~= front + last);
        lemma_contained_through(front + last, front, table_line(providers[i]));
    } else {
        lemma_contained(front, last, none);
        assert(front + last + none =~= front + last);
    }
}

proof fn lemma_joined_holds(parts: Seq<Seq<char>>, sep: Seq<char>, i: int)
    requires
        0 <= i < parts.len(),
    ensures
        text::contains(text::joined(parts, sep), parts[i]),
    decreases parts.len(),
{
    let none = Seq::<char>::empty();
    if parts.len() == 1 {
        lemma_contained(none, parts[0], none);
        assert(none + parts[0] + none =~= parts[0]);
    } else {
        let front = text::joined(parts.drop_last(), sep);
        let whole = text::joined(parts, sep);
        if i < parts.len() - 1 {
            lemma_joined_holds(parts.drop_last(), sep, i);
            lemma_contained(none, front, sep + parts.last());
            assert(none + front + (sep + parts.last()) =~= whole);
            lemma_contained_through(whole, front, parts[i]);
        } else {
            lemma_contained(front + sep, parts.last(), none);
            assert(front + sep + parts.last() + none =~= whole);
        }
    }
}

/// The table of providers shows each provider's id, its base URL without the
/// slashes at its end, and the ids of its models.
pub proof fn law_tables_show_every_provider(providers: Seq<ProviderView>, i: int, j: int)
    requires
        0 <= i < providers.len(),
        0 <= j < providers[i].models.len(),
    ensures
        text::contains(provider_table(providers), providers[i].id),
        text::contains(provider_table(providers), providers[i].models[j].id),
        text::contains(
            provider_table(providers),
            text::trimmed_end_of(providers[i].base_url.text, '/'),
        ),
{
    let p = providers[i];
    let whole = provider_table(providers);
    let line = table_line(p);
    let ids = provider_config::ids_of(p.models);
    lemma_table_holds(providers, i);
    lemma_contained(table_head(), table_lines(providers), "\n"@);
    lemma_contained_through(whole, table_lines(providers), line);
    let none = Seq::<char>::empty();
    let rest = line.skip(("  "@ + p.id).len() as int);
    assert(line =~= "  "@ + p.id + rest);
    lemma_contained("  "@, p.id, rest);
    lemma_contained_through(whole, line, p.id);
    let left = "  "@ + padded(p.id, 16) + "  "@;
    let right = line.skip((left + base_of(p)).len() as int);
    assert(line =~= left + base_of(p) + right);
    lemma_contained(left, base_of(p), right);
    lemma_contained_through(whole, line, base_of(p));
    let before = left + padded(base_of(p), 40) + "  "@;
    lemma_contained(before, model_names(p), "\n"@);
    assert(line =~= before + model_names(p) + "\n"@);
    lemma_contained_through(whole, line, model_names(p));
    lemma_joined_holds(ids, ", "@, j);
    assert(ids[j] == p.models[j].id);
    lemma_contained_through(whole, model_names(p), p.models[j].id);
}

/// The report on credentials has a row for each provider that names it, its
/// variable, and whether the variable holds a credential.
pub proof fn law_reports_name_every_credential(
    providers: Seq<ProviderView>,
    values: Seq<Option<Seq<char>>>,
    i: int,
)
    requires
        0 <= i < providers.len(),
    ensures
        text::contains(
            credential_rows(providers, values),
            row(
                credential_severity(providers[i].auth, values[i]),
                "credential"@,
                credential_place(providers[i].id, providers[i].auth),
            ),
        ),
        text::contains(credential_place(providers[i].id, providers[i].auth), providers[i].id),
        providers[i].auth is Header ==> text::contains(
            credential_place(providers[i].id, providers[i].auth),
            providers[i].auth->env_var,
        ),
    decreases providers.len(),
{
    let none = Seq::<char>::empty();
    let p = providers.last();
    let front = credential_rows(providers.drop_last(), values);
    let last = row(
        credential_severity(p.auth, values[providers.len() - 1]),
        "credential"@,
        credential_place(p.id, p.auth),
    );
    let whole = credential_rows(providers, values);
    if i < providers.len() - 1 {
        law_reports_name_every_credential(providers.drop_last(), values, i);
        lemma_contained(none, front, last);
        assert(none + front + last =~= whole);
        let own = row(
            credential_severity(providers[i].auth, values[i]),
            "credential"@,
            credential_place(providers[i].id, providers[i].auth),
        );
        lemma_contained_through(whole, front, own);
    } else {
        lemma_contained(front, last, none);
        assert(front + last + none =~= whole);
    }
    let q = providers[i];
    let place = credential_place(q.id, q.auth);
    let rest = place.skip(q.id.len() as int);
    lemma_contained(none, q.id, rest);
    assert(none + q.id + rest =~= place);
    if let AuthView::Header { env_var, .. } = q.auth {
        lemma_contained(q.id + " "@ + DIM@, env_var, RESET@);
    }
}

/// Where every provider without its credential needs none, none is missing.
pub proof fn law_no_missing_credential(
    providers: Seq<ProviderView>,
    values: Seq<Option<Seq<char>>>,
)
    requires
        forall|i: int|
            0 <= i < providers.len() ==> (#[trigger] providers[i]).auth is NoAuth || (
            values[i] matches Some(v) && v.len() > 0 && !text::whitespace(v[0])),
    ensures
        !credential_missing(providers, values),
{
    assert forall|i: int| 0 <= i < providers.len() implies credential_severity(
        (#[trigger] providers[i]).auth,
        values[i],
    ) == Severity::Pass by {
        law_credentials_are_checked(providers[i].auth, values[i]);
    }
}

} // verus!
