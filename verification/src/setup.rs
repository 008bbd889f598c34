//! First-run configuration helpers for the `switchyard init` command.
//!
//! Presets only describe public endpoints, model IDs, and environment-variable
//! names. Generated provider config never contains API keys; optional local
//! credential storage is handled separately with private file permissions.

use vstd::prelude::*;
use vstd::string::*;

use crate::config;
use crate::config::SwitchyardConfig;
use crate::providers::config as provider_config;
use crate::providers::config::{
    AuthConfig, AuthView, BaseUrl, ModelCapabilities, ModelConfig, ModelView, ProviderConfig,
    ProviderView,
};
use crate::providers::decode;
use crate::providers::registry;
use crate::providers::types;
use crate::sorted::SortedMap;
use crate::text;

verus! {

// ---------------------------------------------------------------------------
// Presets
// ---------------------------------------------------------------------------

/// Built-in provider presets used by the interactive first-run setup.
#[derive(Debug, Clone, Copy, PartialEq, Eq, Structural)]
pub enum ProviderPreset {
    Kimi,
    Muse,
    Qwen,
}

/// What a preset stands for.
impl ProviderPreset {
    pub open spec fn provider_id(self) -> Seq<char> {
        match self {
            ProviderPreset::Kimi => "kimi"@,
            ProviderPreset::Muse => "muse"@,
            ProviderPreset::Qwen => "qwen"@,
        }
    }

    pub open spec fn variable(self) -> Seq<char> {
        match self {
            ProviderPreset::Kimi => "MOONSHOT_API_KEY"@,
            ProviderPreset::Muse => "MODEL_API_KEY"@,
            ProviderPreset::Qwen => "QWEN_API_KEY"@,
        }
    }

    pub open spec fn model_ids(self) -> Seq<Seq<char>> {
        match self {
            ProviderPreset::Kimi => seq!["kimi-k3[1m]"@],
            ProviderPreset::Muse => seq!["muse-spark-1.2-contributor"@],
            ProviderPreset::Qwen => seq!["qwen3.8-max"@, "qwen3.7-max"@, "qwen3.6-flash"@],
        }
    }

    pub open spec fn host(self) -> Seq<char> {
        match self {
            ProviderPreset::Kimi => "api.moonshot.ai"@,
            ProviderPreset::Muse => "api.meta.ai"@,
            ProviderPreset::Qwen => "token-plan.ap-southeast-1.maas.aliyuncs.com"@,
        }
    }

    pub open spec fn path(self) -> Seq<char> {
        match self {
            ProviderPreset::Kimi => "/anthropic"@,
            ProviderPreset::Muse => Seq::empty(),
            ProviderPreset::Qwen => "/apps/anthropic"@,
        }
    }

    /// The provider config of a preset: the endpoint, the models of which the
    /// first is the default, and a bearer token from the environment.
    pub open spec fn provider(self) -> ProviderView {
        ProviderView {
            id: self.provider_id(),
            base_url: provider_config::plain_parts(self.host(), self.path()),
            auth: AuthView::Header {
                header: "Authorization"@,
                env_var: self.variable(),
                prefix: Some("Bearer "@),
            },
            models: self.model_ids().map_values(|id: Seq<char>| plain_model(id)),
            timeout_ms: None,
            connect_timeout_ms: None,
            read_timeout_ms: None,
            default_model: Some(self.model_ids()[0]),
            extra_headers: Seq::empty(),
            retry: None,
        }
    }
}

/// A model with nothing but an id.
pub open spec fn plain_model(id: Seq<char>) -> ModelView {
    ModelView {
        id,
        display_name: None,
        context_window: None,
        max_output_tokens: None,
        capabilities: ModelCapabilities {
            supports_tools: true,
            supports_streaming: true,
            supports_vision: false,
        },
    }
}

impl ProviderPreset {
    pub const ALL: [ProviderPreset; 3] = [
        ProviderPreset::Kimi,
        ProviderPreset::Muse,
        ProviderPreset::Qwen,
    ];

    pub fn id(self) -> (r: &'static str)
        ensures
            r@ == self.provider_id(),
    {
        match self {
            ProviderPreset::Kimi => "kimi",
            ProviderPreset::Muse => "muse",
            ProviderPreset::Qwen => "qwen",
        }
    }

    pub fn display_name(self) -> (r: &'static str)
        ensures
            r@ == (match self {
                ProviderPreset::Kimi => "Kimi"@,
                ProviderPreset::Muse => "Meta Muse"@,
                ProviderPreset::Qwen => "QwenCloud"@,
            }),
    {
        match self {
            ProviderPreset::Kimi => "Kimi",
            ProviderPreset::Muse => "Meta Muse",
            ProviderPreset::Qwen => "QwenCloud",
        }
    }

    pub fn credential_env(self) -> (r: &'static str)
        ensures
            r@ == self.variable(),
    {
        match self {
            ProviderPreset::Kimi => "MOONSHOT_API_KEY",
            ProviderPreset::Muse => "MODEL_API_KEY",
            ProviderPreset::Qwen => "QWEN_API_KEY",
        }
    }

    pub fn models(self) -> (r: Vec<&'static str>)
        ensures
            r@.map_values(|id: &'static str| id@) == self.model_ids(),
    {
        let r: Vec<&'static str> = match self {
            ProviderPreset::Kimi => vec!["kimi-k3[1m]"],
            ProviderPreset::Muse => vec!["muse-spark-1.2-contributor"],
            ProviderPreset::Qwen => vec!["qwen3.8-max", "qwen3.7-max", "qwen3.6-flash"],
        };
        assert(r@.map_values(|id: &'static str| id@) =~= self.model_ids());
        r
    }

    fn base_url(self) -> (r: BaseUrl)
        ensures
            r@ == provider_config::plain_parts(self.host(), self.path()),
    {
        let input = match self {
            ProviderPreset::Kimi => "https://api.moonshot.ai/anthropic",
            ProviderPreset::Muse => "https://api.meta.ai",
            ProviderPreset::Qwen => {
                "https://token-plan.ap-southeast-1.maas.aliyuncs.com/apps/anthropic"
            },
        };
        proof {
            lemma_endpoint_is_plain(self, input@);
            assert(provider_config::plain_url(input@, self.host(), self.path()));
        }
        match BaseUrl::parse(input) {
            Ok(url) => url,
            Err(_) => vstd::pervasive::unreached(),
        }
    }

    /// The provider config of a preset.
    pub fn provider_config(self) -> (r: ProviderConfig)
        ensures
            r@ == self.provider(),
    {
        let ids = self.models();
        let mut models: Vec<ModelConfig> = Vec::new();
        let mut i: usize = 0;
        let ghost goal = self.provider().models;
        while i < ids.len()
            invariant
                i <= ids@.len(),
                ids@.map_values(|id: &'static str| id@) == self.model_ids(),
                goal == self.provider().models,
                decode::all_views(models@) == goal.take(i as int),
            decreases ids@.len() - i,
        {
            let ghost before = models@;
            assert(ids@.map_values(|id: &'static str| id@)[i as int] == ids@[i as int]@);
            let m = ModelConfig {
                id: ids[i].to_owned(),
                display_name: None,
                context_window: None,
                max_output_tokens: None,
                capabilities: ModelCapabilities::default(),
            };
            models.push(m);
            proof {
                assert(m@ == plain_model(ids@[i as int]@));
                assert(decode::all_views(models@) =~= decode::all_views(before).push(m@));
                assert(goal.take(i + 1) =~= goal.take(i as int).push(goal[i as int]));
            }
            i = i + 1;
        }
        assert(ids@.map_values(|id: &'static str| id@).len() == ids@.len());
        assert(goal.take(i as int) =~= goal);
        assert(ids@.map_values(|id: &'static str| id@)[0] == ids@[0]@);
        let headers: Vec<(String, String)> = Vec::new();
        assert(types::headers_view(headers@) =~= Seq::<(Seq<char>, Seq<char>)>::empty());
        ProviderConfig {
            id: self.id().to_owned(),
            base_url: self.base_url(),
            auth: AuthConfig::Header {
                header: "Authorization".to_owned(),
                env_var: self.credential_env().to_owned(),
                prefix: Some("Bearer ".to_owned()),
            },
            models,
            timeout_ms: None,
            connect_timeout_ms: None,
            read_timeout_ms: None,
            default_model: Some(ids[0].to_owned()),
            extra_headers: headers,
            retry: None,
        }
    }
}

// ---------------------------------------------------------------------------
// Endpoints
// ---------------------------------------------------------------------------

proof fn lemma_kimi_endpoint()
    ensures
        provider_config::plain_url(
            "https://api.moonshot.ai/anthropic"@,
            ProviderPreset::Kimi.host(),
            ProviderPreset::Kimi.path(),
        ),
{
    reveal_strlit("https://");
    reveal_strlit("api.moonshot.ai");
    reveal_strlit("/anthropic");
    reveal_strlit("https://api.moonshot.ai/anthropic");
    let host = "api.moonshot.ai"@;
    let path = ProviderPreset::Kimi.path();
    assert("https://api.moonshot.ai/anthropic"@ =~= "https://"@ + host + path);
    assert forall|i: int| 0 <= i < host.len() implies {
        let c = #[trigger] host[i];
        let p = host[i - 1];
        ||| 'a' <= c <= 'z'
        ||| i > 0 && '0' <= c <= '9' && p != '.'
        ||| i > 0 && (c == '-' || c == '.') && p != '-' && p != '.'
    } by {
        assert(i == 0 || i == 1 || i == 2 || i == 3 || i == 4 || i == 5 || i == 6 || i == 7 || i == 8
            || i == 9 || i == 10 || i == 11 || i == 12 || i == 13 || i == 14);
    }
    assert forall|i: int| 0 <= i < path.len() implies {
        let c = #[trigger] path[i];
        ||| 'a' <= c <= 'z'
        ||| '0' <= c <= '9'
        ||| c == '-'
        ||| c == '/'
    } by {
        assert(i == 0 || i == 1 || i == 2 || i == 3 || i == 4 || i == 5 || i == 6 || i == 7 || i == 8
            || i == 9);
    }
}

proof fn lemma_muse_endpoint()
    ensures
        provider_config::plain_url(
            "https://api.meta.ai"@,
            ProviderPreset::Muse.host(),
            ProviderPreset::Muse.path(),
        ),
{
    reveal_strlit("https://");
    reveal_strlit("api.meta.ai");
    reveal_strlit("https://api.meta.ai");
    let host = "api.meta.ai"@;
    let path = ProviderPreset::Muse.path();
    assert("https://api.meta.ai"@ =~= "https://"@ + host + path);
    assert forall|i: int| 0 <= i < host.len() implies {
        let c = #[trigger] host[i];
        let p = host[i - 1];
        ||| 'a' <= c <= 'z'
        ||| i > 0 && '0' <= c <= '9' && p != '.'
        ||| i > 0 && (c == '-' || c == '.') && p != '-' && p != '.'
    } by {
        assert(i == 0 || i == 1 || i == 2 || i == 3 || i == 4 || i == 5 || i == 6 || i == 7 || i == 8
            || i == 9 || i == 10);
    }
}

proof fn lemma_qwen_endpoint()
    ensures
        provider_config::plain_url(
            "https://token-plan.ap-southeast-1.maas.aliyuncs.com/apps/anthropic"@,
            ProviderPreset::Qwen.host(),
            ProviderPreset::Qwen.path(),
        ),
{
    reveal_strlit("https://");
    reveal_strlit("token-plan.ap-southeast-1.maas.aliyuncs.com");
    reveal_strlit("/apps/anthropic");
    reveal_strlit("https://token-plan.ap-southeast-1.maas.aliyuncs.com/apps/anthropic");
    let host = "token-plan.ap-southeast-1.maas.aliyuncs.com"@;
    let path = ProviderPreset::Qwen.path();
    assert("https://token-plan.ap-southeast-1.maas.aliyuncs.com/apps/anthropic"@ =~= "https://"@ + host + path);
    assert forall|i: int| 0 <= i < host.len() implies {
        let c = #[trigger] host[i];
        let p = host[i - 1];
        ||| 'a' <= c <= 'z'
        ||| i > 0 && '0' <= c <= '9' && p != '.'
        ||| i > 0 && (c == '-' || c == '.') && p != '-' && p != '.'
    } by {
        assert(i == 0 || i == 1 || i == 2 || i == 3 || i == 4 || i == 5 || i == 6 || i == 7 || i == 8
            || i == 9 || i == 10 || i == 11 || i == 12 || i == 13 || i == 14 || i == 15 || i == 16
            || i == 17 || i == 18 || i == 19 || i == 20 || i == 21 || i == 22 || i == 23
            || i == 24 || i == 25 || i == 26 || i == 27 || i == 28 || i == 29 || i == 30
            || i == 31 || i == 32 || i == 33 || i == 34 || i == 35 || i == 36 || i == 37
            || i == 38 || i == 39 || i == 40 || i == 41 || i == 42);
    }
    assert forall|i: int| 0 <= i < path.len() implies {
        let c = #[trigger] path[i];
        ||| 'a' <= c <= 'z'
        ||| '0' <= c <= '9'
        ||| c == '-'
        ||| c == '/'
    } by {
        assert(i == 0 || i == 1 || i == 2 || i == 3 || i == 4 || i == 5 || i == 6 || i == 7 || i == 8
            || i == 9 || i == 10 || i == 11 || i == 12 || i == 13 || i == 14);
    }
}

/// The endpoints of the presets are plain URLs.
proof fn lemma_endpoint_is_plain(preset: ProviderPreset, input: Seq<char>)
    requires
        input == (match preset {
            ProviderPreset::Kimi => "https://api.moonshot.ai/anthropic"@,
            ProviderPreset::Muse => "https://api.meta.ai"@,
            ProviderPreset::Qwen =>
            "https://token-plan.ap-southeast-1.maas.aliyuncs.com/apps/anthropic"@,
        }),
    ensures
        provider_config::plain_url(input, preset.host(), preset.path()),
{
    match preset {
        ProviderPreset::Kimi => lemma_kimi_endpoint(),
        ProviderPreset::Muse => lemma_muse_endpoint(),
        ProviderPreset::Qwen => lemma_qwen_endpoint(),
    }
}

// ---------------------------------------------------------------------------
// Generated configuration
// ---------------------------------------------------------------------------

/// The presets of a selection, each at its first place.
pub open spec fn picked(presets: Seq<ProviderPreset>) -> Seq<ProviderPreset>
    decreases presets.len(),
{
    if presets.len() == 0 {
        Seq::empty()
    } else {
        let front = picked(presets.drop_last());
        if front.contains(presets.last()) {
            front
        } else {
            front.push(presets.last())
        }
    }
}

/// The providers of a selection.
pub open spec fn generated(presets: Seq<ProviderPreset>) -> Seq<ProviderView> {
    picked(presets).map_values(|p: ProviderPreset| p.provider())
}

proof fn lemma_ids_differ(a: ProviderPreset, b: ProviderPreset)
    ensures
        a.provider_id() == b.provider_id() ==> a == b,
{
    reveal_strlit("kimi");
    reveal_strlit("muse");
    reveal_strlit("qwen");
    assert("kimi"@[0] == 'k' && "muse"@[0] == 'm' && "qwen"@[0] == 'q');
}

fn has_provider(providers: &Vec<ProviderConfig>, id: &str) -> (r: bool)
    ensures
        r == (exists|i: int| 0 <= i < providers@.len() && (#[trigger] providers@[i])@.id == id@),
{
    let mut i: usize = 0;
    while i < providers.len()
        invariant
            i <= providers@.len(),
            forall|j: int| 0 <= j < i ==> (#[trigger] providers@[j])@.id != id@,
        decreases providers@.len() - i,
    {
        if text::same(providers[i].id.as_str(), id) {
            assert(providers@[i as int]@.id == id@);
            return true;
        }
        i = i + 1;
    }
    false
}

/// Build a config from selected presets, preserving caller order and removing
/// duplicate selections.
pub fn build_config(presets: &[ProviderPreset]) -> (r: SwitchyardConfig)
    ensures
        r.wf(),
        decode::all_views(r.providers@) == generated(presets@),
        r.aliases.entries@.len() == 0,
        r.fallbacks.entries@.len() == 0,
{
    let mut providers: Vec<ProviderConfig> = Vec::new();
    let mut i: usize = 0;
    assert(decode::all_views(providers@) =~= generated(presets@.take(0)));
    while i < presets.len()
        invariant
            i <= presets@.len(),
            decode::all_views(providers@) == generated(presets@.take(i as int)),
        decreases presets@.len() - i,
    {
        let preset = presets[i];
        let ghost done = picked(presets@.take(i as int));
        let ghost before = providers@;
        let known = has_provider(&providers, preset.id());
        proof {
            assert(presets@.take(i + 1).drop_last() =~= presets@.take(i as int));
            assert(presets@.take(i + 1).last() == preset);
            assert(before.len() == done.len()) by {
                assert(decode::all_views(before).len() == generated(presets@.take(i as int)).len());
            }
            assert forall|j: int| 0 <= j < done.len() implies (#[trigger] before[j])@
                == done[j].provider() by {
                assert(decode::all_views(before)[j] == generated(presets@.take(i as int))[j]);
            }
            if known {
                let j = choose|j: int|
                    0 <= j < before.len() && (#[trigger] before[j])@.id == preset.provider_id();
                lemma_ids_differ(done[j], preset);
                assert(done.contains(preset));
            } else if done.contains(preset) {
                let j = done.index_of(preset);
                assert(before[j]@.id == preset.provider_id());
            }
        }
        if !known {
            let provider = preset.provider_config();
            let ghost v = provider@;
            providers.push(provider);
            proof {
                assert(decode::all_views(providers@) =~= decode::all_views(before).push(v));
                assert(generated(presets@.take(i + 1)) =~= generated(presets@.take(i as int)).push(
                    v,
                ));
            }
        }
        i = i + 1;
    }
    assert(presets@.take(i as int) =~= presets@);
    SwitchyardConfig { providers, aliases: SortedMap::new(), fallbacks: SortedMap::new() }
}

/// A selection yields each of its presets once.
pub proof fn law_each_preset_once(presets: Seq<ProviderPreset>)
    ensures
        picked(presets).no_duplicates(),
        forall|p: ProviderPreset| #[trigger] picked(presets).contains(p) <==> presets.contains(p),
    decreases presets.len(),
{
    if presets.len() > 0 {
        let front = presets.drop_last();
        let last = presets.last();
        law_each_preset_once(front);
        assert(presets =~= front.push(last));
        assert forall|p: ProviderPreset| #[trigger] picked(presets).contains(p) <==> presets.contains(
            p,
        ) by {
            if picked(presets).contains(p) && !picked(front).contains(p) {
                assert(p == last);
                assert(presets[presets.len() - 1] == p);
            }
            if presets.contains(p) {
                let i = presets.index_of(p);
                if i < front.len() {
                    assert(front[i] == p);
                    assert(picked(front).contains(p));
                    let j = picked(front).index_of(p);
                    assert(picked(presets)[j] == p);
                } else if !picked(front).contains(last) {
                    assert(picked(presets)[picked(presets).len() - 1] == p);
                }
            }
            if picked(front).contains(p) {
                assert(front.contains(p));
                let i = front.index_of(p);
                assert(presets[i] == p);
            }
        }
    }
}

/// The order of a selection is kept: what was picked stays where it is when
/// the selection grows.
pub proof fn law_selection_order_kept(presets: Seq<ProviderPreset>, n: int)
    requires
        0 <= n <= presets.len(),
    ensures
        picked(presets.take(n)).is_prefix_of(picked(presets)),
    decreases presets.len() - n,
{
    if n < presets.len() {
        law_selection_order_kept(presets, n + 1);
        assert(presets.take(n + 1).drop_last() =~= presets.take(n));
        let a = picked(presets.take(n));
        let b = picked(presets.take(n + 1));
        let c = picked(presets);
        assert(a.is_prefix_of(b));
        assert(c.take(a.len() as int) =~= b.take(a.len() as int)) by {
            assert(c.subrange(0, b.len() as int) =~= b);
        }
        assert(c.subrange(0, a.len() as int) =~= a);
    } else {
        assert(presets.take(n) =~= presets);
    }
}

proof fn lemma_provider_id(s: Seq<char>)
    requires
        s.len() > 0,
        text::all_from(s, |c: char| provider_config::provider_id_char(c), 0),
    ensures
        provider_config::valid_provider_id(s),
{
    text::lemma_all_from(s, |c: char| provider_config::provider_id_char(c), 0);
}

proof fn lemma_model_id(s: Seq<char>)
    requires
        s.len() > 0,
        text::all_from(s, |c: char| !text::whitespace(c) && !text::control(c), 0),
    ensures
        provider_config::valid_model_id(s),
{
    text::lemma_all_from(s, |c: char| !text::whitespace(c) && !text::control(c), 0);
}

proof fn lemma_variable(s: Seq<char>)
    requires
        s.len() > 0,
        !text::ascii_digit(s[0]),
        text::all_from(s, |c: char| provider_config::word_char(c), 0),
    ensures
        provider_config::environment_name(text::trimmed(s)),
{
    text::lemma_all_from(s, |c: char| provider_config::word_char(c), 0);
    text::lemma_trimmed_fixed(s);
}

proof fn lemma_header_name(s: Seq<char>)
    requires
        s.len() > 0,
        text::all_from(s, |c: char| provider_config::token_char(c), 0),
    ensures
        provider_config::token(text::trimmed(s)),
        text::trimmed(s).len() > 0,
{
    text::lemma_all_from(s, |c: char| provider_config::token_char(c), 0);
    text::lemma_trimmed_fixed(s);
}

proof fn lemma_preset_names(preset: ProviderPreset)
    ensures
        provider_config::valid_provider_id(preset.provider_id()),
        provider_config::environment_name(text::trimmed(preset.variable())),
        provider_config::token(text::trimmed("Authorization"@)),
        text::trimmed("Authorization"@).len() > 0,
{
    reveal_with_fuel(text::all_from, 17);
    reveal_strlit("Authorization");
    lemma_header_name("Authorization"@);
    match preset {
        ProviderPreset::Kimi => {
            reveal_strlit("kimi");
            reveal_strlit("MOONSHOT_API_KEY");
        },
        ProviderPreset::Muse => {
            reveal_strlit("muse");
            reveal_strlit("MODEL_API_KEY");
        },
        ProviderPreset::Qwen => {
            reveal_strlit("qwen");
            reveal_strlit("QWEN_API_KEY");
        },
    }
    lemma_provider_id(preset.provider_id());
    lemma_variable(preset.variable());
}

proof fn lemma_preset_models()
    ensures
        provider_config::valid_model_id("kimi-k3[1m]"@),
        provider_config::valid_model_id("muse-spark-1.2-contributor"@),
        provider_config::valid_model_id("qwen3.8-max"@),
        provider_config::valid_model_id("qwen3.7-max"@),
        provider_config::valid_model_id("qwen3.6-flash"@),
{
    reveal_with_fuel(text::all_from, 27);
    reveal_strlit("kimi-k3[1m]");
    lemma_model_id("kimi-k3[1m]"@);
    reveal_strlit("muse-spark-1.2-contributor");
    lemma_model_id("muse-spark-1.2-contributor"@);
    reveal_strlit("qwen3.8-max");
    lemma_model_id("qwen3.8-max"@);
    reveal_strlit("qwen3.7-max");
    lemma_model_id("qwen3.7-max"@);
    reveal_strlit("qwen3.6-flash");
    lemma_model_id("qwen3.6-flash"@);
}

proof fn lemma_one_model(provider: Seq<char>, id: Seq<char>)
    requires
        provider_config::valid_model_id(id),
    ensures
        provider_config::models_defect(provider, seq![id]) is None,
{
    let ids = seq![id];
    assert(ids.drop_last() =~= Seq::<Seq<char>>::empty());
    assert(provider_config::models_defect(provider, Seq::<Seq<char>>::empty()) is None);
}

proof fn lemma_qwen_models(provider: Seq<char>)
    ensures
        provider_config::models_defect(provider, ProviderPreset::Qwen.model_ids()) is None,
{
    lemma_preset_models();
    reveal_strlit("qwen3.8-max");
    reveal_strlit("qwen3.7-max");
    reveal_strlit("qwen3.6-flash");
    let a = "qwen3.8-max"@;
    let b = "qwen3.7-max"@;
    let c = "qwen3.6-flash"@;
    assert(a[6] == '8' && b[6] == '7' && c[6] == '6');
    let three = seq![a, b, c];
    let two = seq![a, b];
    let one = seq![a];
    lemma_one_model(provider, a);
    assert(two.drop_last() =~= one);
    assert(!one.contains(b));
    assert(provider_config::models_defect(provider, two) is None);
    assert(three.drop_last() =~= two);
    assert(!two.contains(c));
}

/// The provider of every preset is valid.
pub proof fn law_presets_are_valid(preset: ProviderPreset)
    ensures
        provider_config::provider_defect(preset.provider()) is None,
{
    let p = preset.provider();
    assert(provider_config::ids_of(p.models) =~= preset.model_ids());
    lemma_preset_names(preset);
    lemma_preset_models();
    match preset {
        ProviderPreset::Qwen => lemma_qwen_models(p.id),
        _ => lemma_one_model(p.id, preset.model_ids()[0]),
    }
    assert(preset.model_ids().contains(preset.model_ids()[0]));
}

/// Every generated config is accepted: its providers are valid, and their ids
/// differ.
pub proof fn law_generated_config_is_accepted(presets: Seq<ProviderPreset>)
    ensures
        registry::configs_defect(generated(presets)) is None,
    decreases presets.len(),
{
    if presets.len() > 0 {
        let front = presets.drop_last();
        let last = presets.last();
        law_generated_config_is_accepted(front);
        if !picked(front).contains(last) {
            assert(generated(presets) =~= generated(front).push(last.provider()));
            assert(generated(presets).drop_last() =~= generated(front));
            law_presets_are_valid(last);
            let ids = registry::provider_ids_of(generated(front));
            if ids.contains(last.provider_id()) {
                let i = ids.index_of(last.provider_id());
                assert(ids[i] == picked(front)[i].provider_id());
                lemma_ids_differ(picked(front)[i], last);
                assert(picked(front).contains(last));
            }
        }
    }
}

/// A generated config names where a credential is to be found and holds none:
/// what is sent with it are the models, the endpoint and the environment
/// variable, and no header of its own.
pub proof fn law_generated_config_holds_no_credentials(presets: Seq<ProviderPreset>, i: int)
    requires
        0 <= i < generated(presets).len(),
    ensures
        generated(presets)[i].auth == (AuthView::Header {
            header: "Authorization"@,
            env_var: picked(presets)[i].variable(),
            prefix: Some("Bearer "@),
        }),
        generated(presets)[i].extra_headers.len() == 0,
{
}

// ---------------------------------------------------------------------------
// Credentials
// ---------------------------------------------------------------------------

/// The credential file paired with a config: `credentials.json` in the same
/// directory.
pub open spec fn credentials_beside(config_path: Seq<char>) -> Seq<char> {
    config::below(
        match config::parent(config_path) {
            Some(dir) => if dir.len() > 0 {
                dir
            } else {
                "."@
            },
            None => "."@,
        },
        "credentials.json"@,
    )
}

/// Return the credential file paired with a config path.
pub fn credentials_path(config_path: &str) -> (r: String)
    ensures
        r@ == credentials_beside(config_path@),
{
    match config::parent_path(config_path) {
        Some(dir) => if dir.as_str().is_empty() {
            config::join_path(".", "credentials.json")
        } else {
            config::join_path(dir.as_str(), "credentials.json")
        },
        None => config::join_path(".", "credentials.json"),
    }
}

/// Whether `name` can name an environment variable.
pub fn valid_environment_name(name: &str) -> (r: bool)
    ensures
        r == provider_config::environment_name(name@),
{
    provider_config::is_environment_name(name)
}

/// How many credentials come before the first whose name is invalid.
pub open spec fn valid_names(credentials: Seq<(Seq<char>, Seq<char>)>) -> nat
    decreases credentials.len(),
{
    if credentials.len() == 0 || !provider_config::environment_name(credentials[0].0) {
        0
    } else {
        1 + valid_names(credentials.skip(1))
    }
}

/// The first name that is invalid, if one is.
pub open spec fn invalid_name(credentials: Seq<(Seq<char>, Seq<char>)>) -> Option<Seq<char>> {
    let n = valid_names(credentials) as int;
    if n < credentials.len() {
        Some(credentials[n].0)
    } else {
        None
    }
}

proof fn lemma_valid_names(credentials: Seq<(Seq<char>, Seq<char>)>, n: int)
    requires
        0 <= n <= credentials.len(),
        forall|i: int|
            0 <= i < n ==> provider_config::environment_name((#[trigger] credentials[i]).0),
        n < credentials.len() ==> !provider_config::environment_name(credentials[n].0),
    ensures
        valid_names(credentials) == n,
    decreases n,
{
    if n > 0 {
        let rest = credentials.skip(1);
        assert forall|i: int| 0 <= i < n - 1 implies provider_config::environment_name(
            (#[trigger] rest[i]).0,
        ) by {
            assert(rest[i] == credentials[i + 1]);
        }
        if n < credentials.len() {
            assert(rest[n - 1] == credentials[n]);
        }
        lemma_valid_names(rest, n - 1);
    }
}

fn count_valid_names(credentials: &Vec<(String, String)>) -> (r: usize)
    ensures
        r == valid_names(types::headers_view(credentials@)),
        r <= credentials@.len(),
{
    let ghost all = types::headers_view(credentials@);
    let mut i: usize = 0;
    while i < credentials.len() && valid_environment_name(credentials[i].0.as_str())
        invariant
            i <= credentials@.len(),
            all == types::headers_view(credentials@),
            forall|j: int|
                0 <= j < i ==> provider_config::environment_name((#[trigger] all[j]).0),
        decreases credentials@.len() - i,
    {
        assert(all[i as int].0 == credentials@[i as int].0@);
        i = i + 1;
    }
    proof {
        if i < credentials@.len() {
            assert(all[i as int].0 == credentials@[i as int].0@);
        }
        lemma_valid_names(all, i as int);
    }
    i
}

/// Check the names of credentials before they are stored: the first that is
/// invalid, if one is.
pub fn check_credential_names(credentials: &Vec<(String, String)>) -> (r: Option<String>)
    ensures
        decode::text_view(r) == invalid_name(types::headers_view(credentials@)),
{
    let n: usize = count_valid_names(credentials);
    if n < credentials.len() {
        Some(credentials[n].0.clone())
    } else {
        None
    }
}

/// What loading a credential file does to the environment.
#[derive(Debug, PartialEq, Eq)]
pub struct Application {
    /// The variables to set, in order.
    pub set: Vec<(String, String)>,
    /// The invalid name at which loading stops, if there is one.
    pub refused: Option<String>,
}

pub struct ApplicationView {
    pub set: Seq<(Seq<char>, Seq<char>)>,
    pub refused: Option<Seq<char>>,
}

impl View for Application {
    type V = ApplicationView;

    open spec fn view(&self) -> ApplicationView {
        ApplicationView {
            set: types::headers_view(self.set@),
            refused: decode::text_view(self.refused),
        }
    }
}

/// The credentials whose names are in a list, or those whose names are not.
pub open spec fn chosen(
    credentials: Seq<(Seq<char>, Seq<char>)>,
    names: Seq<Seq<char>>,
    listed: bool,
) -> Seq<(Seq<char>, Seq<char>)>
    decreases credentials.len(),
{
    if credentials.len() == 0 {
        Seq::empty()
    } else {
        let front = chosen(credentials.drop_last(), names, listed);
        if names.contains(credentials.last().0) == listed {
            front.push(credentials.last())
        } else {
            front
        }
    }
}

/// Loading stops at the first invalid name. Before that, the chosen variables
/// are set.
pub open spec fn application(
    credentials: Seq<(Seq<char>, Seq<char>)>,
    names: Seq<Seq<char>>,
    listed: bool,
) -> ApplicationView {
    ApplicationView {
        set: chosen(credentials.take(valid_names(credentials) as int), names, listed),
        refused: invalid_name(credentials),
    }
}

fn apply(credentials: &Vec<(String, String)>, names: &Vec<String>, listed: bool) -> (r: Application)
    ensures
        r@ == application(types::headers_view(credentials@), text::views(names@), listed),
{
    let n: usize = count_valid_names(credentials);
    let ghost all = types::headers_view(credentials@);
    let ghost valid = all.take(n as int);
    let mut set: Vec<(String, String)> = Vec::new();
    let mut i: usize = 0;
    assert(types::headers_view(set@) =~= Seq::<(Seq<char>, Seq<char>)>::empty());
    while i < n
        invariant
            i <= n <= credentials@.len(),
            all == types::headers_view(credentials@),
            valid == all.take(n as int),
            types::headers_view(set@) == chosen(valid.take(i as int), text::views(names@), listed),
        decreases n - i,
    {
        let ghost before = set@;
        let (name, value) = &credentials[i];
        proof {
            assert(valid.take(i + 1).drop_last() =~= valid.take(i as int));
            assert(valid.take(i + 1).last() == all[i as int]);
            assert(all[i as int] == (name@, value@));
        }
        let known = text::position(names, name.as_str()).is_some();
        if known == listed {
            set.push((name.clone(), value.clone()));
            assert(types::headers_view(set@) =~= types::headers_view(before).push((name@, value@)));
        }
        i = i + 1;
    }
    assert(valid.take(i as int) =~= valid);
    let refused = check_credential_names(credentials);
    Application { set, refused }
}

/// Load stored credentials without replacing values already supplied by the
/// caller's environment, the set variables of which are given by name.
pub fn apply_credentials(
    credentials: &Vec<(String, String)>,
    environment: &Vec<String>,
) -> (r: Application)
    ensures
        r@ == application(types::headers_view(credentials@), text::views(environment@), false),
{
    apply(credentials, environment, false)
}

/// Load credentials again. Only variables that came from the credential file
/// in the first place are replaced.
pub fn reload_credentials(
    credentials: &Vec<(String, String)>,
    applied: &Vec<String>,
) -> (r: Application)
    ensures
        r@ == application(types::headers_view(credentials@), text::views(applied@), true),
{
    apply(credentials, applied, true)
}

/// The names of credentials.
pub open spec fn names_of(credentials: Seq<(Seq<char>, Seq<char>)>) -> Seq<Seq<char>> {
    credentials.map_values(|c: (Seq<char>, Seq<char>)| c.0)
}

proof fn lemma_chosen(
    credentials: Seq<(Seq<char>, Seq<char>)>,
    names: Seq<Seq<char>>,
    listed: bool,
    i: int,
)
    requires
        0 <= i < chosen(credentials, names, listed).len(),
    ensures
        names.contains(chosen(credentials, names, listed)[i].0) == listed,
        credentials.contains(chosen(credentials, names, listed)[i]),
    decreases credentials.len(),
{
    if credentials.len() > 0 {
        let front = chosen(credentials.drop_last(), names, listed);
        if i < front.len() {
            lemma_chosen(credentials.drop_last(), names, listed, i);
            let j = credentials.drop_last().index_of(front[i]);
            assert(credentials[j] == front[i]);
        } else {
            assert(credentials[credentials.len() - 1] == credentials.last());
        }
    }
}

/// A variable of the caller's environment is never replaced: not when the
/// credentials are loaded, and not when they are loaded again after a change
/// of the file.
pub proof fn law_callers_environment_is_untouched(
    stored: Seq<(Seq<char>, Seq<char>)>,
    changed: Seq<(Seq<char>, Seq<char>)>,
    environment: Seq<Seq<char>>,
    name: Seq<char>,
)
    requires
        environment.contains(name),
    ensures
        ({
            let first = application(stored, environment, false).set;
            let second = application(changed, names_of(first), true).set;
            !names_of(first).contains(name) && !names_of(second).contains(name)
        }),
{
    let first = application(stored, environment, false).set;
    let second = application(changed, names_of(first), true).set;
    if names_of(first).contains(name) {
        let i = names_of(first).index_of(name);
        assert(first[i].0 == name);
        lemma_chosen(stored.take(valid_names(stored) as int), environment, false, i);
    }
    if names_of(second).contains(name) {
        let i = names_of(second).index_of(name);
        assert(second[i].0 == name);
        lemma_chosen(changed.take(valid_names(changed) as int), names_of(first), true, i);
    }
}

/// What is set comes from the file, under the name that it has there.
pub proof fn law_only_stored_values_are_set(
    credentials: Seq<(Seq<char>, Seq<char>)>,
    names: Seq<Seq<char>>,
    listed: bool,
    i: int,
)
    requires
        0 <= i < application(credentials, names, listed).set.len(),
    ensures
        credentials.contains(application(credentials, names, listed).set[i]),
{
    let n = valid_names(credentials) as int;
    lemma_valid_names_bound(credentials);
    lemma_chosen(credentials.take(n), names, listed, i);
    let v = application(credentials, names, listed).set[i];
    let j = credentials.take(n).index_of(v);
    assert(credentials[j] == v);
}

proof fn lemma_valid_names_bound(credentials: Seq<(Seq<char>, Seq<char>)>)
    ensures
        valid_names(credentials) <= credentials.len(),
    decreases credentials.len(),
{
    if credentials.len() > 0 {
        lemma_valid_names_bound(credentials.skip(1));
    }
}

/// What each preset sets up: the provider's name, where it is, which variable
/// holds its credential, and its models, the first being the default.
pub proof fn law_presets_are_what_they_say(preset: ProviderPreset)
    ensures
        ({
            let p = preset.provider();
            let ids = provider_config::ids_of(p.models);
            &&& p.base_url.scheme == "https"@
            &&& p.auth is Header && p.auth->header == "Authorization"@ && p.auth->prefix == Some(
                "Bearer "@,
            )
            &&& p.default_model == Some(ids[0])
            &&& forall|i: int|
                0 <= i < p.models.len() ==> (#[trigger] p.models[i]).capabilities.supports_tools
                    && p.models[i].capabilities.supports_streaming
                    && !p.models[i].capabilities.supports_vision
            &&& match preset {
                ProviderPreset::Kimi => p.id == "kimi"@ && p.base_url.host == Some(
                    "api.moonshot.ai"@,
                ) && p.auth->env_var == "MOONSHOT_API_KEY"@ && ids == seq!["kimi-k3[1m]"@]
                    && p.base_url.text == "https://"@ + "api.moonshot.ai"@ + "/anthropic"@,
                ProviderPreset::Muse => p.id == "muse"@ && p.base_url.host == Some("api.meta.ai"@)
                    && p.auth->env_var == "MODEL_API_KEY"@ && ids == seq![
                    "muse-spark-1.2-contributor"@,
                ] && p.base_url.text == "https://"@ + "api.meta.ai"@ + seq!['/'],
                ProviderPreset::Qwen => p.id == "qwen"@ && p.base_url.host == Some(
                    "token-plan.ap-southeast-1.maas.aliyuncs.com"@,
                ) && p.auth->env_var == "QWEN_API_KEY"@ && ids == seq![
                    "qwen3.8-max"@,
                    "qwen3.7-max"@,
                    "qwen3.6-flash"@,
                ] && p.base_url.text == "https://"@ + "token-plan.ap-southeast-1.maas.aliyuncs.com"@
                    + "/apps/anthropic"@,
            }
        }),
{
    let p = preset.provider();
    assert(provider_config::ids_of(p.models) =~= preset.model_ids());
    reveal_strlit("/anthropic");
    reveal_strlit("/apps/anthropic");
    assert("/anthropic"@.len() == 10 && "/apps/anthropic"@.len() == 15);
}

proof fn lemma_valid_front(credentials: Seq<(Seq<char>, Seq<char>)>, n: int)
    requires
        0 <= n <= credentials.len(),
        forall|j: int|
            0 <= j < n ==> provider_config::environment_name((#[trigger] credentials[j]).0),
    ensures
        valid_names(credentials) >= n,
        n < credentials.len() && !provider_config::environment_name(credentials[n].0)
            ==> valid_names(credentials) == n,
        n == credentials.len() ==> valid_names(credentials) == n,
    decreases credentials.len(),
{
    if n > 0 {
        assert(provider_config::environment_name(credentials[0].0));
        let rest = credentials.skip(1);
        assert forall|j: int| 0 <= j < n - 1 implies provider_config::environment_name(
            (#[trigger] rest[j]).0,
        ) by {
            assert(rest[j] == credentials[j + 1]);
        }
        lemma_valid_front(rest, n - 1);
        if n < credentials.len() {
            assert(rest[n - 1] == credentials[n]);
        }
    }
}

proof fn lemma_chosen_all(
    credentials: Seq<(Seq<char>, Seq<char>)>,
    names: Seq<Seq<char>>,
    listed: bool,
    i: int,
)
    requires
        0 <= i < credentials.len(),
        names.contains(credentials[i].0) == listed,
    ensures
        chosen(credentials, names, listed).contains(credentials[i]),
    decreases credentials.len(),
{
    let front = credentials.drop_last();
    let before = chosen(front, names, listed);
    let all = chosen(credentials, names, listed);
    if i < front.len() {
        assert(front[i] == credentials[i]);
        lemma_chosen_all(front, names, listed, i);
        let k = before.index_of(credentials[i]);
        assert(all[k] == credentials[i]);
    } else {
        assert(all[all.len() - 1] == credentials[i]);
    }
}

/// A stored credential is set where no name up to its own is invalid and its
/// variable is not set yet, or, on a reload, where it was set before. The first
/// invalid name is refused, and nothing is refused where there is none.
pub proof fn law_stored_credentials_are_set(
    credentials: Seq<(Seq<char>, Seq<char>)>,
    names: Seq<Seq<char>>,
    listed: bool,
    i: int,
)
    requires
        0 <= i < credentials.len(),
        forall|j: int|
            0 <= j < i ==> provider_config::environment_name((#[trigger] credentials[j]).0),
    ensures
        ({
            let a = application(credentials, names, listed);
            let ok = provider_config::environment_name(credentials[i].0);
            &&& ok && names.contains(credentials[i].0) == listed ==> a.set.contains(credentials[i])
            &&& !ok ==> a.refused == Some(credentials[i].0)
            &&& ok && i == credentials.len() - 1 ==> a.refused is None
        }),
{
    lemma_valid_names_bound(credentials);
    lemma_valid_front(credentials, i);
    if provider_config::environment_name(credentials[i].0) {
        lemma_valid_front(credentials, i + 1);
        let n = valid_names(credentials) as int;
        let front = credentials.take(n);
        assert(front[i] == credentials[i]);
        if names.contains(credentials[i].0) == listed {
            lemma_chosen_all(front, names, listed, i);
        }
    }
}

/// A credential is set only where its variable is not set yet, or, on a reload,
/// only where it was set before.
pub proof fn law_set_credentials_are_wanted(
    credentials: Seq<(Seq<char>, Seq<char>)>,
    names: Seq<Seq<char>>,
    listed: bool,
    i: int,
)
    requires
        0 <= i < application(credentials, names, listed).set.len(),
    ensures
        names.contains(application(credentials, names, listed).set[i].0) == listed,
{
    lemma_chosen(credentials.take(valid_names(credentials) as int), names, listed, i);
}

/// The file of credentials is the one of its name in the directory of the
/// configuration.
pub proof fn law_credentials_are_beside_the_config(dir: Seq<char>, name: Seq<char>)
    requires
        dir.len() > 0,
        dir.last() != '/',
        dir.last() != '.',
        name.len() > 0,
        name.last() != '.',
        forall|i: int| 0 <= i < name.len() ==> #[trigger] name[i] != '/',
    ensures
        credentials_beside(dir + seq!['/'] + name) == dir + seq!['/'] + "credentials.json"@,
{
    config::law_parent_of_a_path_below(dir, name);
    config::law_paths_below_a_directory(dir, "credentials.json"@);
}

/// A configuration file that is named without a directory has its credentials
/// beside it too.
pub proof fn law_credentials_beside_a_bare_name(name: Seq<char>)
    requires
        name.len() > 0,
        forall|i: int| 0 <= i < name.len() ==> #[trigger] name[i] != '/',
    ensures
        credentials_beside(name) == seq!['.', '/'] + "credentials.json"@,
{
    config::law_ends_of_paths(name);
    reveal_strlit(".");
    assert("."@ =~= seq!['.']);
    config::law_paths_below_a_directory(seq!['.'], "credentials.json"@);
    assert(seq!['.'] + seq!['/'] =~= seq!['.', '/']);
}

} // verus!
