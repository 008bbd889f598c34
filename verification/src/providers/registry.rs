//! Provider registry: validated, provider-agnostic, no discovery required.
//!
//! The registry is an in-memory map from provider id to adapter. It works with
//! manually configured model IDs; `/v1/models` is never called.

use vstd::prelude::*;
use vstd::string::*;

use crate::providers::adapter::ProviderAdapter;
use crate::providers::anthropic;
use crate::providers::anthropic::AnthropicAdapter;
use crate::providers::config;
use crate::providers::config::{ConfigError, ConfigErrorView, ModelConfig, ProviderConfig, ProviderView};
use crate::providers::decode;
use crate::providers::error::{ProviderError, ProviderErrorView};
use crate::sorted;
use crate::sorted::SortedMap;
use crate::text;

verus! {

/// What the registry knows about a provider.
#[derive(Debug)]
pub struct RegistryEntry<A> {
    pub adapter: A,
    pub models: Vec<String>,
    pub default_model: Option<String>,
}

pub struct EntryView<A> {
    pub adapter: A,
    pub models: Seq<Seq<char>>,
    pub default_model: Option<Seq<char>>,
}

impl<A> View for RegistryEntry<A> {
    type V = EntryView<A>;

    open spec fn view(&self) -> EntryView<A> {
        EntryView {
            adapter: self.adapter,
            models: text::views(self.models@),
            default_model: decode::text_view(self.default_model),
        }
    }
}

/// Registry that owns adapters behind the typed port.
#[derive(Debug)]
pub struct ProviderRegistry<A> {
    pub entries: SortedMap<RegistryEntry<A>>,
}

impl<A: ProviderAdapter> View for ProviderRegistry<A> {
    type V = Map<Seq<char>, EntryView<A>>;

    /// The providers by their ids.
    open spec fn view(&self) -> Map<Seq<char>, EntryView<A>> {
        Map::new(
            |id: Seq<char>| self.entries@.contains_key(sorted::row(id)),
            |id: Seq<char>| self.entries@[sorted::row(id)]@,
        )
    }
}

impl<A: ProviderAdapter> ProviderRegistry<A> {
    /// Every adapter is registered under the provider id that it serves.
    pub open spec fn wf(self) -> bool {
        self.entries.wf() && forall|k: Seq<Seq<char>>| #[trigger]
            self.entries@.contains_key(k) ==> k == sorted::row(self.entries@[k].adapter.id())
    }
}

/// Clients use a trailing `[1m]` suffix to select a larger context
/// window. It is routing metadata: a model with it and without it is the same
/// upstream model.
pub open spec fn without_context_suffix(model: Seq<char>) -> Seq<char> {
    if has_context_suffix(model) {
        model.take(model.len() - 4)
    } else {
        model
    }
}

pub open spec fn has_context_suffix(model: Seq<char>) -> bool {
    model.len() >= 4 && text::lowered(model.skip(model.len() - 4)) == "[1m]"@
}

pub fn model_without_context_suffix<'a>(model: &'a str) -> (r: &'a str)
    ensures
        r@ == without_context_suffix(model@),
{
    let n: usize = model.unicode_len();
    if n >= 4 {
        let suffix = model.substring_char(n - 4, n);
        assert(suffix@ =~= model@.skip(model@.len() - 4));
        let low = text::to_lower(suffix);
        if text::same(low.as_str(), "[1m]") {
            let r = model.substring_char(0, n - 4);
            assert(r@ =~= model@.take(model@.len() - 4));
            return r;
        }
    }
    model
}

/// Whether a provider with the given model list serves a model. With an empty
/// list any model is served (manual configuration without discovery).
pub open spec fn serves(models: Seq<Seq<char>>, requested: Seq<char>) -> bool {
    models.len() == 0 || exists|i: int|
        0 <= i < models.len() && without_context_suffix(#[trigger] models[i])
            == without_context_suffix(requested)
}

/// The upstream model that a request for a model goes to, or why it goes
/// nowhere. Without a model the provider's default is meant.
pub open spec fn resolved<A>(
    reg: Map<Seq<char>, EntryView<A>>,
    provider: Seq<char>,
    model: Option<Seq<char>>,
) -> Result<Seq<char>, ProviderErrorView> {
    if !reg.contains_key(provider) {
        Err(ProviderErrorView::ProviderNotFound(provider))
    } else {
        let entry = reg[provider];
        let requested = match model {
            Some(m) => Some(m),
            None => entry.default_model,
        };
        match requested {
            None => Err(
                ProviderErrorView::ModelNotFound {
                    provider,
                    model: "(no model specified and no default)"@,
                },
            ),
            Some(m) => if serves(entry.models, m) {
                Ok(without_context_suffix(m))
            } else {
                Err(ProviderErrorView::ModelNotFound { provider, model: m })
            },
        }
    }
}

/// Borrowed handle for a resolved provider+model.
pub struct ResolvedHandle<'a, 'b, A> {
    pub provider_id: &'b str,
    pub model_id: String,
    pub adapter: &'a A,
}

fn any_serves(models: &Vec<String>, requested: &str) -> (r: bool)
    ensures
        r == serves(text::views(models@), requested@),
{
    let ghost all = text::views(models@);
    if models.len() == 0 {
        return true;
    }
    let effective = model_without_context_suffix(requested);
    let mut i: usize = 0;
    while i < models.len()
        invariant
            i <= models@.len(),
            all == text::views(models@),
            effective@ == without_context_suffix(requested@),
            forall|j: int| 0 <= j < i ==> without_context_suffix(#[trigger] all[j]) != effective@,
        decreases models@.len() - i,
    {
        assert(all[i as int] == models@[i as int]@);
        if text::same(model_without_context_suffix(models[i].as_str()), effective) {
            return true;
        }
        i = i + 1;
    }
    false
}

impl<A: ProviderAdapter> ProviderRegistry<A> {
    /// Create an empty registry.
    pub fn new() -> (r: ProviderRegistry<A>)
        ensures
            r.wf(),
            r@ == Map::<Seq<char>, EntryView<A>>::empty(),
    {
        let r = ProviderRegistry { entries: SortedMap::new() };
        assert(r@ =~= Map::<Seq<char>, EntryView<A>>::empty());
        r
    }

    fn put(&mut self, id: &str, entry: RegistryEntry<A>)
        requires
            old(self).wf(),
            entry.adapter.id() == id@,
        ensures
            final(self).wf(),
            final(self)@ == old(self)@.insert(id@, entry@),
    {
        let ghost before = *self;
        self.entries.insert(sorted::key_of(id), entry);
        proof {
            sorted::lemma_rows_differ();
            assert(self@ =~= before@.insert(id@, entry@));
        }
    }

    /// Register an arbitrary adapter (useful for tests / custom transports).
    pub fn register_adapter(
        &mut self,
        adapter: A,
        model_ids: Vec<String>,
        default_model: Option<String>,
    ) -> (r: Result<(), ProviderError>)
        requires
            old(self).wf(),
        ensures
            final(self).wf(),
            match r {
                Ok(()) => !old(self)@.contains_key(adapter.id()) && final(self)@
                    == old(self)@.insert(
                    adapter.id(),
                    EntryView {
                        adapter,
                        models: text::views(model_ids@),
                        default_model: decode::text_view(default_model),
                    },
                ),
                Err(e) => old(self)@.contains_key(adapter.id()) && *final(self) == *old(self) && e@
                    == ProviderErrorView::Config("duplicate provider id: "@ + adapter.id()),
            },
    {
        let id = adapter.provider_id().to_owned();
        if self.has_provider(id.as_str()) {
            return Err(
                ProviderError::Config(text::concat2("duplicate provider id: ", id.as_str())),
            );
        }
        self.put(id.as_str(), RegistryEntry { adapter, models: model_ids, default_model });
        Ok(())
    }

    /// List registered provider ids, in order.
    pub fn provider_ids(&self) -> (r: Vec<String>)
        requires
            self.wf(),
        ensures
            forall|id: Seq<char>| text::views(r@).contains(id) <==> #[trigger] self@.contains_key(id),
            forall|i: int, j: int|
                0 <= i < j < r@.len() ==> text::before((#[trigger] r@[i])@, (#[trigger] r@[j])@),
            r@.len() == self.entries.keys().len(),
            forall|i: int| 0 <= i < r@.len() ==> self.entries.keys()[i] == sorted::row(
                (#[trigger] r@[i])@,
            ),
    {
        let ghost keys = self.entries.keys();
        let mut out: Vec<String> = Vec::new();
        let mut i: usize = 0;
        while i < self.entries.entries.len()
            invariant
                i <= self.entries.entries@.len(),
                self.wf(),
                keys == self.entries.keys(),
                out@.len() == i,
                forall|j: int| 0 <= j < i ==> keys[j] == sorted::row((#[trigger] out@[j])@),
            decreases self.entries.entries@.len() - i,
        {
            let id = self.entries.entries[i].1.adapter.provider_id().to_owned();
            proof {
                self.entries.lemma_at(i as int);
                assert(keys[i as int] == sorted::row(id@));
            }
            out.push(id);
            i = i + 1;
        }
        proof {
            assert forall|a: int, b: int| 0 <= a < b < out@.len() implies text::before(
                (#[trigger] out@[a])@,
                (#[trigger] out@[b])@,
            ) by {
                assert(sorted::row_before(keys[a], keys[b]));
                sorted::lemma_row_order(out@[a]@, out@[b]@);
            }
            sorted::lemma_rows_differ();
            assert forall|id: Seq<char>| text::views(out@).contains(id) <==> #[trigger] self@.contains_key(
                id,
            ) by {
                if self@.contains_key(id) {
                    let j = keys.index_of(sorted::row(id));
                    assert(keys[j] == sorted::row(out@[j]@));
                    assert(text::views(out@)[j] == id);
                }
                if text::views(out@).contains(id) {
                    let j = text::views(out@).index_of(id);
                    assert(keys[j] == sorted::row(out@[j]@));
                    assert(keys.contains(sorted::row(id)));
                }
            }
        }
        out
    }

    fn entry(&self, provider_id: &str) -> (r: Option<&RegistryEntry<A>>)
        requires
            self.wf(),
        ensures
            match r {
                Some(e) => self@.contains_key(provider_id@) && self@[provider_id@] == e@,
                None => !self@.contains_key(provider_id@),
            },
    {
        let key = sorted::key_of(provider_id);
        self.entries.get(&key)
    }

    /// Check if a provider exists.
    pub fn has_provider(&self, provider_id: &str) -> (r: bool)
        requires
            self.wf(),
        ensures
            r == self@.contains_key(provider_id@),
    {
        self.entry(provider_id).is_some()
    }

    /// List model ids for a provider (empty if none configured; never requires
    /// discovery).
    pub fn model_ids(&self, provider_id: &str) -> (r: Option<&[String]>)
        requires
            self.wf(),
        ensures
            match r {
                Some(ids) => self@.contains_key(provider_id@) && text::views(ids@)
                    == self@[provider_id@].models,
                None => !self@.contains_key(provider_id@),
            },
    {
        match self.entry(provider_id) {
            Some(e) => Some(e.models.as_slice()),
            None => None,
        }
    }

    /// Resolve a provider + model pair. If `model_id` is `None`, the
    /// provider's default model is used if configured.
    pub fn resolve<'a, 'b>(&'a self, provider_id: &'b str, model_id: Option<&str>) -> (r: Result<
        ResolvedHandle<'a, 'b, A>,
        ProviderError,
    >)
        requires
            self.wf(),
        ensures
            ({
                let model = match model_id {
                    Some(m) => Some(m@),
                    None => None,
                };
                match r {
                    Ok(h) => resolved(self@, provider_id@, model) == Ok::<
                        Seq<char>,
                        ProviderErrorView,
                    >(h.model_id@) && h.provider_id@ == provider_id@ && *h.adapter
                        == self@[provider_id@].adapter,
                    Err(e) => resolved(self@, provider_id@, model) == Err::<
                        Seq<char>,
                        ProviderErrorView,
                    >(e@),
                }
            }),
    {
        let entry = match self.entry(provider_id) {
            Some(e) => e,
            None => return Err(ProviderError::ProviderNotFound(provider_id.to_owned())),
        };
        let requested = match model_id {
            Some(m) => m.to_owned(),
            None => match &entry.default_model {
                Some(m) => m.clone(),
                None => return Err(
                    ProviderError::ModelNotFound {
                        provider: provider_id.to_owned(),
                        model: "(no model specified and no default)".to_owned(),
                    },
                ),
            },
        };
        if !any_serves(&entry.models, requested.as_str()) {
            return Err(
                ProviderError::ModelNotFound {
                    provider: provider_id.to_owned(),
                    model: requested,
                },
            );
        }
        let effective = model_without_context_suffix(requested.as_str()).to_owned();
        Ok(ResolvedHandle { provider_id, model_id: effective, adapter: &entry.adapter })
    }

    /// Get the adapter for a provider (typed boundary).
    pub fn adapter(&self, provider_id: &str) -> (r: Option<&A>)
        requires
            self.wf(),
        ensures
            match r {
                Some(a) => self@.contains_key(provider_id@) && *a == self@[provider_id@].adapter,
                None => !self@.contains_key(provider_id@),
            },
    {
        match self.entry(provider_id) {
            Some(e) => Some(&e.adapter),
            None => None,
        }
    }

    /// Number of registered providers.
    pub fn len(&self) -> (r: usize)
        requires
            self.wf(),
        ensures
            r == self@.dom().len(),
    {
        proof {
            let keys = self.entries.keys();
            let ids = keys.map_values(|k: Seq<Seq<char>>| k[0]);
            self.entries.lemma_keys_distinct();
            assert forall|i: int| 0 <= i < keys.len() implies #[trigger] keys[i] == sorted::row(
                ids[i],
            ) by {
                self.entries.lemma_at(i);
                assert(sorted::row(self.entries.values()[i].adapter.id())[0]
                    == self.entries.values()[i].adapter.id());
            }
            assert(ids.no_duplicates()) by {
                assert forall|i: int, j: int| 0 <= i < ids.len() && 0 <= j < ids.len() && i
                    != j implies ids[i] != ids[j] by {
                    assert(keys[i] != keys[j]);
                }
            }
            ids.unique_seq_to_set();
            assert(ids.to_set() =~= self@.dom()) by {
                assert forall|id: Seq<char>| ids.contains(id) == self@.contains_key(id) by {
                    sorted::lemma_rows_differ();
                    if self@.contains_key(id) {
                        let j = keys.index_of(sorted::row(id));
                        assert(keys[j] == sorted::row(ids[j]));
                        assert(ids[j] == id);
                    }
                    if ids.contains(id) {
                        let j = ids.index_of(id);
                        assert(keys[j] == sorted::row(ids[j]));
                        assert(keys.contains(sorted::row(id)));
                    }
                }
            }
        }
        self.entries.entries.len()
    }

    pub fn is_empty(&self) -> (r: bool)
        requires
            self.wf(),
        ensures
            r == (self@ == Map::<Seq<char>, EntryView<A>>::empty()),
    {
        let r = self.entries.entries.len() == 0;
        proof {
            if r {
                assert(self@ =~= Map::<Seq<char>, EntryView<A>>::empty());
            } else {
                self.entries.lemma_at(0);
                let id = self.entries.values()[0].adapter.id();
                assert(self@.contains_key(id));
            }
        }
        r
    }
}

/// Why a config cannot be registered, if it cannot.
pub open spec fn registration_defect(
    reg: Map<Seq<char>, EntryView<AnthropicAdapter>>,
    c: ProviderView,
) -> Option<ConfigErrorView> {
    match config::provider_defect(c) {
        Some(e) => Some(e),
        None => if reg.contains_key(c.id) {
            Some(ConfigErrorView::DuplicateProviderId(c.id))
        } else {
            None
        },
    }
}

/// The registry with one more provider.
pub open spec fn is_registered(
    before: Map<Seq<char>, EntryView<AnthropicAdapter>>,
    after: Map<Seq<char>, EntryView<AnthropicAdapter>>,
    c: ProviderView,
) -> bool {
    &&& after.contains_key(c.id)
    &&& after[c.id].adapter@ == anthropic::adapter_of(c)
    &&& after[c.id].models == config::ids_of(c.models)
    &&& after[c.id].default_model == c.default_model
    &&& after == before.insert(c.id, after[c.id])
}

fn ids_of_models(models: &Vec<ModelConfig>) -> (r: Vec<String>)
    ensures
        text::views(r@) == config::ids_of(decode::all_views(models@)),
{
    let mut r: Vec<String> = Vec::new();
    let mut i: usize = 0;
    while i < models.len()
        invariant
            i <= models@.len(),
            r@.len() == i,
            forall|j: int| 0 <= j < i ==> (#[trigger] r@[j])@ == models@[j].id@,
        decreases models@.len() - i,
    {
        r.push(models[i].id.clone());
        i = i + 1;
    }
    assert(text::views(r@) =~= config::ids_of(decode::all_views(models@)));
    r
}

impl ProviderRegistry<AnthropicAdapter> {
    /// Register a single provider via the generic Anthropic adapter.
    pub fn register_anthropic(&mut self, config: ProviderConfig) -> (r: Result<(), ProviderError>)
        requires
            old(self).wf(),
        ensures
            final(self).wf(),
            match r {
                Ok(()) => registration_defect(old(self)@, config@) is None && is_registered(
                    old(self)@,
                    final(self)@,
                    config@,
                ),
                Err(e) => registration_defect(old(self)@, config@) matches Some(defect) && e@
                    == ProviderErrorView::Config(defect.display()) && *final(self) == *old(self),
            },
    {
        if let Err(e) = config.validate() {
            return Err(ProviderError::Config(e.to_string()));
        }
        if self.has_provider(config.id.as_str()) {
            let e = ConfigError::DuplicateProviderId(config.id);
            return Err(ProviderError::Config(e.to_string()));
        }
        let adapter = match AnthropicAdapter::from_config(&config) {
            Ok(a) => a,
            Err(e) => return Err(e),
        };
        let entry = RegistryEntry {
            adapter,
            models: ids_of_models(&config.models),
            default_model: config::clone_optional_text(&config.default_model),
        };
        let ghost before = self@;
        self.put(config.id.as_str(), entry);
        assert(self@ =~= before.insert(config@.id, self@[config@.id]));
        Ok(())
    }

    /// Build a registry from a list of provider configs.
    ///
    /// Each config is validated; duplicate provider ids are rejected. The
    /// generic [`AnthropicAdapter`] is instantiated for every provider
    /// (provider quirks remain inside the adapter, not the registry).
    pub fn from_configs(configs: Vec<ProviderConfig>) -> (r: Result<
        ProviderRegistry<AnthropicAdapter>,
        ProviderError,
    >)
        ensures
            match r {
                Ok(reg) => reg.wf() && configs_defect(decode::all_views(configs@)) is None
                    && holds_exactly(reg@, decode::all_views(configs@)),
                Err(e) => configs_defect(decode::all_views(configs@)) matches Some(defect) && e@
                    == ProviderErrorView::Config(defect.display()),
            },
    {
        let ghost all = decode::all_views(configs@);
        let mut reg: ProviderRegistry<AnthropicAdapter> = ProviderRegistry::new();
        let mut rest = configs;
        let mut done: usize = 0;
        let total: usize = rest.len();
        proof {
            assert(all.take(0) =~= Seq::<ProviderView>::empty());
        }
        while done < total
            invariant
                done <= total,
                all == decode::all_views(configs@),
                total == all.len(),
                rest@.len() == total - done,
                forall|j: int| 0 <= j < rest@.len() ==> (#[trigger] rest@[j])@ == all[done + j],
                reg.wf(),
                configs_defect(all.take(done as int)) is None,
                holds_exactly(reg@, all.take(done as int)),
            decreases total - done,
        {
            let ghost before = reg@;
            let ghost old_rest = rest@;
            let next = rest.remove(0);
            let ghost c = next@;
            proof {
                assert(c == old_rest[0]@);
                assert(c == all[done as int]);
                assert(all.take(done + 1).drop_last() =~= all.take(done as int));
                assert(all.take(done + 1).last() == c);
                lemma_known_ids(before, all.take(done as int), c.id);
                assert forall|j: int| 0 <= j < rest@.len() implies (#[trigger] rest@[j])@ == all[done
                    + 1 + j] by {
                    assert(rest@[j] == old_rest[j + 1]);
                }
            }
            if let Err(e) = reg.register_anthropic(next) {
                proof {
                    lemma_configs_defect_stays(all, done + 1);
                }
                return Err(e);
            }
            proof {
                lemma_holds_more(before, reg@, all.take(done as int), c);
                assert(all.take(done as int).push(c) =~= all.take(done + 1));
            }
            done = done + 1;
        }
        assert(all.take(done as int) =~= all);
        Ok(reg)
    }
}

pub open spec fn provider_ids_of(configs: Seq<ProviderView>) -> Seq<Seq<char>> {
    configs.map_values(|c: ProviderView| c.id)
}

/// The first config of a list that is invalid or repeats an id, if one is.
pub open spec fn configs_defect(configs: Seq<ProviderView>) -> Option<ConfigErrorView>
    decreases configs.len(),
{
    if configs.len() == 0 {
        None
    } else {
        match configs_defect(configs.drop_last()) {
            Some(e) => Some(e),
            None => match config::provider_defect(configs.last()) {
                Some(e) => Some(e),
                None => if provider_ids_of(configs.drop_last()).contains(configs.last().id) {
                    Some(ConfigErrorView::DuplicateProviderId(configs.last().id))
                } else {
                    None
                },
            },
        }
    }
}

proof fn lemma_configs_defect_stays(configs: Seq<ProviderView>, n: int)
    requires
        0 <= n <= configs.len(),
        configs_defect(configs.take(n)) is Some,
    ensures
        configs_defect(configs) == configs_defect(configs.take(n)),
    decreases configs.len(),
{
    if n < configs.len() {
        assert(configs.drop_last().take(n) =~= configs.take(n));
        lemma_configs_defect_stays(configs.drop_last(), n);
    } else {
        assert(configs.take(n) =~= configs);
    }
}

/// A registry that holds the given providers and no other.
pub open spec fn holds_exactly(
    reg: Map<Seq<char>, EntryView<AnthropicAdapter>>,
    configs: Seq<ProviderView>,
) -> bool {
    &&& forall|id: Seq<char>| #[trigger]
        reg.contains_key(id) ==> exists|i: int|
            0 <= i < configs.len() && (#[trigger] configs[i]).id == id
    &&& forall|i: int|
        0 <= i < configs.len() ==> {
            let c = #[trigger] configs[i];
            &&& reg.contains_key(c.id)
            &&& reg[c.id].adapter@ == anthropic::adapter_of(c)
            &&& reg[c.id].models == config::ids_of(c.models)
            &&& reg[c.id].default_model == c.default_model
        }
}

proof fn lemma_known_ids(
    reg: Map<Seq<char>, EntryView<AnthropicAdapter>>,
    configs: Seq<ProviderView>,
    id: Seq<char>,
)
    requires
        holds_exactly(reg, configs),
    ensures
        reg.contains_key(id) == provider_ids_of(configs).contains(id),
{
    let ids = provider_ids_of(configs);
    if reg.contains_key(id) {
        let i = choose|i: int| 0 <= i < configs.len() && (#[trigger] configs[i]).id == id;
        assert(ids[i] == id);
    }
    if ids.contains(id) {
        let i = ids.index_of(id);
        assert(configs[i].id == id);
    }
}

proof fn lemma_holds_more(
    before: Map<Seq<char>, EntryView<AnthropicAdapter>>,
    after: Map<Seq<char>, EntryView<AnthropicAdapter>>,
    configs: Seq<ProviderView>,
    c: ProviderView,
)
    requires
        holds_exactly(before, configs),
        !before.contains_key(c.id),
        is_registered(before, after, c),
    ensures
        holds_exactly(after, configs.push(c)),
{
    let all = configs.push(c);
    assert forall|id: Seq<char>| #[trigger] after.contains_key(id) implies exists|i: int|
        0 <= i < all.len() && (#[trigger] all[i]).id == id by {
        if id == c.id {
            assert(all[configs.len() as int].id == id);
        } else {
            let i = choose|i: int| 0 <= i < configs.len() && (#[trigger] configs[i]).id == id;
            assert(all[i].id == id);
        }
    }
    assert forall|i: int| 0 <= i < all.len() implies {
        let d = #[trigger] all[i];
        &&& after.contains_key(d.id)
        &&& after[d.id].adapter@ == anthropic::adapter_of(d)
        &&& after[d.id].models == config::ids_of(d.models)
        &&& after[d.id].default_model == d.default_model
    } by {
        if i < configs.len() {
            assert(all[i] == configs[i]);
        }
    }
}

/// A list of configs that a registry can be built from holds valid configs,
/// each provider id once.
pub proof fn law_accepted_configs_distinct(configs: Seq<ProviderView>)
    requires
        configs_defect(configs) is None,
    ensures
        provider_ids_of(configs).no_duplicates(),
        forall|i: int|
            0 <= i < configs.len() ==> config::provider_defect(#[trigger] configs[i]) is None,
    decreases configs.len(),
{
    if configs.len() > 0 {
        let front = configs.drop_last();
        law_accepted_configs_distinct(front);
        let ids = provider_ids_of(configs);
        let front_ids = provider_ids_of(front);
        assert forall|i: int| 0 <= i < configs.len() implies config::provider_defect(
            #[trigger] configs[i],
        ) is None by {
            if i < front.len() {
                assert(front[i] == configs[i]);
            }
        }
        assert forall|i: int, j: int| 0 <= i < j < ids.len() implies ids[i] != ids[j] by {
            assert(front_ids[i] == ids[i]);
            if j < front.len() {
                assert(front_ids[j] == ids[j]);
            } else if ids[i] == ids[j] {
                assert(front_ids.contains(configs.last().id));
            }
        }
    }
}

/// A model with the suffix for the large context window and the same model
/// without it resolve to the same upstream model.
pub proof fn law_context_suffix_is_an_alias<A>(
    reg: Map<Seq<char>, EntryView<A>>,
    provider: Seq<char>,
    model: Seq<char>,
    suffix: Seq<char>,
)
    requires
        !has_context_suffix(model),
        text::lowered(suffix) == "[1m]"@,
    ensures
        resolved(reg, provider, Some(model + suffix)) is Ok <==> resolved(
            reg,
            provider,
            Some(model),
        ) is Ok,
        resolved(reg, provider, Some(model)) is Ok ==> resolved(
            reg,
            provider,
            Some(model + suffix),
        ) == Ok::<Seq<char>, ProviderErrorView>(model) && resolved(reg, provider, Some(model))
            == Ok::<Seq<char>, ProviderErrorView>(model),
{
    reveal_strlit("[1m]");
    assert("[1m]"@.len() == 4);
    assert(text::lowered(suffix).len() == suffix.len());
    let both = model + suffix;
    assert(both.skip(both.len() - 4) =~= suffix);
    assert(both.take(both.len() - 4) =~= model);
    assert(without_context_suffix(both) == model);
}

/// A provider without a model list serves every model.
pub proof fn law_empty_model_list_accepts_any<A>(
    reg: Map<Seq<char>, EntryView<A>>,
    provider: Seq<char>,
    model: Seq<char>,
)
    requires
        reg.contains_key(provider),
        reg[provider].models.len() == 0,
    ensures
        resolved(reg, provider, Some(model)) == Ok::<Seq<char>, ProviderErrorView>(
            without_context_suffix(model),
        ),
{
}

/// A configured model resolves.
pub proof fn law_configured_models_resolve<A>(
    reg: Map<Seq<char>, EntryView<A>>,
    provider: Seq<char>,
    i: int,
)
    requires
        reg.contains_key(provider),
        0 <= i < reg[provider].models.len(),
    ensures
        resolved(reg, provider, Some(reg[provider].models[i])) is Ok,
{
    let models = reg[provider].models;
    assert(without_context_suffix(models[i]) == without_context_suffix(models[i]));
}

/// A config is registered under its id, with its models in their order, its
/// default model and its adapter; what was registered before stays.
pub proof fn law_registered_configs_are_held(
    before: Map<Seq<char>, EntryView<AnthropicAdapter>>,
    after: Map<Seq<char>, EntryView<AnthropicAdapter>>,
    c: ProviderView,
    other: Seq<char>,
)
    requires
        is_registered(before, after, c),
    ensures
        after.contains_key(c.id),
        after[c.id].default_model == c.default_model,
        after[c.id].models.len() == c.models.len(),
        forall|i: int|
            0 <= i < c.models.len() ==> #[trigger] after[c.id].models[i] == c.models[i].id,
        after[c.id].adapter@.provider_id == c.id,
        after[c.id].adapter@.auth == c.auth,
        other != c.id ==> (after.contains_key(other) <==> before.contains_key(other)),
        other != c.id && before.contains_key(other) ==> after[other] == before[other],
{
}

/// A config is registered exactly where it is in order and no other has its
/// id.
pub proof fn law_registration(
    reg: Map<Seq<char>, EntryView<AnthropicAdapter>>,
    c: ProviderView,
)
    ensures
        registration_defect(reg, c) is None <==> config::provider_defect(c) is None
            && !reg.contains_key(c.id),
        config::provider_defect(c) is None && reg.contains_key(c.id) ==> registration_defect(reg, c)
            == Some(ConfigErrorView::DuplicateProviderId(c.id)),
{
}

/// A registry of configs holds each of them, and no provider besides.
pub proof fn law_registries_hold_their_configs(
    reg: Map<Seq<char>, EntryView<AnthropicAdapter>>,
    configs: Seq<ProviderView>,
    i: int,
    id: Seq<char>,
)
    requires
        holds_exactly(reg, configs),
        0 <= i < configs.len(),
    ensures
        reg.contains_key(configs[i].id),
        reg[configs[i].id].default_model == configs[i].default_model,
        reg[configs[i].id].models.len() == configs[i].models.len(),
        forall|j: int|
            0 <= j < configs[i].models.len() ==> #[trigger] reg[configs[i].id].models[j]
                == configs[i].models[j].id,
        reg[configs[i].id].adapter@.provider_id == configs[i].id,
        (forall|j: int| 0 <= j < configs.len() ==> (#[trigger] configs[j]).id != id)
            ==> !reg.contains_key(id),
{
}

} // verus!
