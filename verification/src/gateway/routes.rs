//! Which provider and which model a request goes to.

use vstd::prelude::*;
use vstd::string::*;

use crate::gateway::backend::{BackendErrorView, BackendRequestView};
use crate::gateway::provider_backend;
use crate::json::JsonView;
use crate::providers::decode::DecodeErrorView;
use crate::providers::error::ProviderErrorView;
use crate::providers::messages;
use crate::providers::registry;
use crate::providers::registry::EntryView;
use crate::providers::types;
use crate::providers::types::RequestView;
use crate::providers::wire;
use crate::text;

verus! {

/// A text without a slash.
pub open spec fn slashless(s: Seq<char>) -> bool {
    forall|i: int| 0 <= i < s.len() ==> #[trigger] s[i] != '/'
}

proof fn lemma_split(provider: Seq<char>, id: Seq<char>)
    requires
        slashless(provider),
    ensures
        text::split_at_first(provider + "/"@ + id, '/') == Some((provider, id)),
{
    reveal_strlit("/");
    let s = provider + "/"@ + id;
    assert forall|i: int| 0 <= i < provider.len() implies #[trigger] s[i] != '/' by {
        assert(s[i] == provider[i]);
    }
    assert(s[provider.len() as int] == '/');
    text::lemma_first_of_at(s, '/', provider.len() as int);
    assert(s.take(provider.len() as int) =~= provider);
    assert(s.skip(provider.len() as int + 1) =~= id);
}

/// A model is named by its provider, a slash and its id, which may hold
/// slashes itself; neither can be empty.
pub proof fn law_models_name_their_provider(provider: Seq<char>, id: Seq<char>)
    requires
        slashless(provider),
    ensures
        provider.len() > 0 && id.len() > 0 ==> provider_backend::model_parts(
            provider + "/"@ + id,
        ) == Ok::<(Seq<char>, Seq<char>), BackendErrorView>((provider, id)),
        provider.len() == 0 || id.len() == 0 ==> (provider_backend::model_parts(
            provider + "/"@ + id,
        ) matches Err(e) && e is ModelUnavailable),
        provider_backend::model_parts(provider) matches Err(e) && e is ModelUnavailable,
{
    lemma_split(provider, id);
    text::lemma_first_of(provider, '/');
}

/// A request for a provider that is not there, or for a model that the provider
/// does not have, is answered that the model is unavailable.
pub proof fn law_unknown_models_are_unavailable<A>(
    reg: Map<Seq<char>, EntryView<A>>,
    r: BackendRequestView,
    provider: Seq<char>,
    id: Seq<char>,
)
    requires
        slashless(provider),
        provider.len() > 0,
        id.len() > 0,
        r.model == provider + "/"@ + id,
        !reg.contains_key(provider) || reg[provider].models.len() > 0 && forall|i: int|
            0 <= i < reg[provider].models.len() ==> registry::without_context_suffix(
                #[trigger] reg[provider].models[i],
            ) != registry::without_context_suffix(id),
    ensures
        provider_backend::routed(reg, r) matches Err(e) && e is ModelUnavailable
            && e.status_code() == 404,
{
    law_models_name_their_provider(provider, id);
}

/// A model is looked up with the provider that is asked for: an unknown
/// provider, an unknown model and a missing default are told apart.
pub proof fn law_lookups_tell_what_is_missing<A>(
    reg: Map<Seq<char>, EntryView<A>>,
    provider: Seq<char>,
    model: Seq<char>,
)
    ensures
        !reg.contains_key(provider) ==> registry::resolved(reg, provider, Some(model)) == Err::<
            Seq<char>,
            ProviderErrorView,
        >(ProviderErrorView::ProviderNotFound(provider)),
        reg.contains_key(provider) && reg[provider].models.len() > 0 && (forall|i: int|
            0 <= i < reg[provider].models.len() ==> registry::without_context_suffix(
                #[trigger] reg[provider].models[i],
            ) != registry::without_context_suffix(model)) ==> registry::resolved(
            reg,
            provider,
            Some(model),
        ) == Err::<Seq<char>, ProviderErrorView>(
            ProviderErrorView::ModelNotFound { provider, model },
        ),
        reg.contains_key(provider) && reg[provider].default_model is None ==> (registry::resolved(
            reg,
            provider,
            None,
        ) matches Err(ProviderErrorView::ModelNotFound { provider: p, .. }) && p == provider),
{
}

/// Without a model the default model of the provider is looked up.
pub proof fn law_default_model_stands_in<A>(
    reg: Map<Seq<char>, EntryView<A>>,
    provider: Seq<char>,
    model: Seq<char>,
)
    requires
        reg.contains_key(provider),
        reg[provider].default_model == Some(model),
    ensures
        registry::resolved(reg, provider, None) == registry::resolved(reg, provider, Some(model)),
{
}

/// The suffix for a long context is `[1m]`, its letter in either case, and it
/// alone is taken from a model's name.
pub proof fn law_context_suffix_is_taken_off(model: Seq<char>)
    ensures
        registry::without_context_suffix(model + seq!['[', '1', 'm', ']']) == model,
        registry::without_context_suffix(model + seq!['[', '1', 'M', ']']) == model,
        model.len() < 4 || model[model.len() - 4] != '[' || model[model.len() - 3] != '1' || (
        model[model.len() - 2] != 'm' && model[model.len() - 2] != 'M') || model[model.len() - 1]
            != ']' ==> registry::without_context_suffix(model) == model,
{
    reveal_strlit("[1m]");
    let suffix = "[1m]"@;
    assert(suffix.len() == 4 && suffix[0] == '[' && suffix[1] == '1' && suffix[2] == 'm'
        && suffix[3] == ']');
    let small = model + seq!['[', '1', 'm', ']'];
    let large = model + seq!['[', '1', 'M', ']'];
    assert(small.take(small.len() - 4) =~= model);
    assert(large.take(large.len() - 4) =~= model);
    assert(text::lowered(small.skip(small.len() - 4)) =~= suffix);
    assert(text::lowered(large.skip(large.len() - 4)) =~= suffix);
    if registry::has_context_suffix(model) {
        let end = model.skip(model.len() - 4);
        let low = text::lowered(end);
        assert(low[0] == '[' && low[1] == '1' && low[2] == 'm' && low[3] == ']');
        assert(end[0] == model[model.len() - 4] && end[1] == model[model.len() - 3]);
        assert(end[2] == model[model.len() - 2] && end[3] == model[model.len() - 1]);
    }
}

/// `sent` is the object `body` with the given model for its own.
pub open spec fn with_model(body: JsonView, model: Seq<char>, sent: JsonView) -> bool {
    &&& sent is Object && body is Object
    &&& wire::has_text(sent, "model"@, model)
    &&& forall|k: Seq<char>|
        k != "model"@ ==> (#[trigger] sent->Object_0.contains_key(k)
            <==> body->Object_0.contains_key(k)) && (sent->Object_0.contains_key(k)
            ==> sent->Object_0[k] == body->Object_0[k])
}

/// A request that names a model which its provider has goes to that provider:
/// it is the client's body, read as a request, with the provider's own name of
/// the model and the forwarded headers.
pub proof fn law_known_models_are_routed<A>(
    reg: Map<Seq<char>, EntryView<A>>,
    r: BackendRequestView,
    provider: Seq<char>,
    id: Seq<char>,
    sent: JsonView,
)
    requires
        slashless(provider),
        provider.len() > 0,
        id.len() > 0,
        r.model == provider + "/"@ + id,
        reg.contains_key(provider),
        reg[provider].models.len() == 0 || exists|i: int|
            0 <= i < reg[provider].models.len() && registry::without_context_suffix(
                #[trigger] reg[provider].models[i],
            ) == registry::without_context_suffix(id),
        with_model(r.body, registry::without_context_suffix(id), sent),
    ensures
        messages::readable_request(sent) ==> (provider_backend::routed(reg, r) matches Ok((to, q))
            && to == provider && q.forward_headers == r.forward_headers && types::request_of(sent)
            == Ok::<RequestView, DecodeErrorView>(
            RequestView { forward_headers: Seq::empty(), ..q },
        )),
        !messages::readable_request(sent) ==> (provider_backend::routed(reg, r) matches Err(e)
            && e is InvalidRequest),
{
    law_models_name_their_provider(provider, id);
    let model = registry::without_context_suffix(id);
    let m = r.body->Object_0.insert("model"@, JsonView::Text(model));
    assert(sent->Object_0 =~= m);
    messages::law_readable_requests_are_read(sent);
}

/// The catalog holds the models of the providers, each under its provider's
/// name, and nothing else.
pub proof fn law_catalog_is_complete<A>(
    reg: Map<Seq<char>, EntryView<A>>,
    providers: Seq<Seq<char>>,
    entry: Seq<char>,
)
    ensures
        provider_backend::catalog(reg, providers).contains(entry) <==> exists|i: int, j: int|
            0 <= i < providers.len() && 0 <= j < reg[providers[i]].models.len() && entry
                == providers[i] + "/"@ + #[trigger] reg[#[trigger] providers[i]].models[j],
    decreases providers.len(),
{
    if providers.len() > 0 {
        let front = providers.drop_last();
        let last = providers.last();
        law_catalog_is_complete(reg, front, entry);
        let a = provider_backend::catalog(reg, front);
        let b = provider_backend::catalog_of(last, reg[last].models);
        let all = provider_backend::catalog(reg, providers);
        assert(all == a + b);
        assert(providers[providers.len() - 1] == last);
        if all.contains(entry) {
            let k = all.index_of(entry);
            if k < a.len() {
                assert(a[k] == entry);
                let (i, j) = choose|i: int, j: int|
                    0 <= i < front.len() && 0 <= j < reg[front[i]].models.len() && entry == front[i]
                        + "/"@ + #[trigger] reg[#[trigger] front[i]].models[j];
                assert(providers[i] == front[i]);
                assert(entry == providers[i] + "/"@ + reg[providers[i]].models[j]);
            } else {
                let j = k - a.len();
                assert(b[j] == entry);
                let i = providers.len() - 1;
                assert(entry == providers[i] + "/"@ + reg[providers[i]].models[j]);
            }
        }
        if exists|i: int, j: int|
            0 <= i < providers.len() && 0 <= j < reg[providers[i]].models.len() && entry
                == providers[i] + "/"@ + #[trigger] reg[#[trigger] providers[i]].models[j] {
            let (i, j) = choose|i: int, j: int|
                0 <= i < providers.len() && 0 <= j < reg[providers[i]].models.len() && entry
                    == providers[i] + "/"@ + #[trigger] reg[#[trigger] providers[i]].models[j];
            if i < front.len() {
                assert(front[i] == providers[i]);
                assert(entry == front[i] + "/"@ + reg[front[i]].models[j]);
                assert(a.contains(entry));
                let k = a.index_of(entry);
                assert(all[k] == entry);
            } else {
                assert(b[j] == entry);
                assert(all[a.len() + j] == entry);
            }
        }
    }
}

/// Every model of the catalog can be asked for under the name that it has
/// there.
pub proof fn law_catalog_models_resolve<A>(
    reg: Map<Seq<char>, EntryView<A>>,
    provider: Seq<char>,
    j: int,
)
    requires
        reg.contains_key(provider),
        slashless(provider),
        provider.len() > 0,
        0 <= j < reg[provider].models.len(),
        reg[provider].models[j].len() > 0,
    ensures
        ({
            let id = reg[provider].models[j];
            &&& provider_backend::model_parts(provider + "/"@ + id) == Ok::<
                (Seq<char>, Seq<char>),
                BackendErrorView,
            >((provider, id))
            &&& registry::resolved(reg, provider, Some(id)) == Ok::<Seq<char>, ProviderErrorView>(
                registry::without_context_suffix(id),
            )
        }),
{
    let id = reg[provider].models[j];
    law_models_name_their_provider(provider, id);
    assert(registry::without_context_suffix(reg[provider].models[j])
        == registry::without_context_suffix(id));
}

/// A body that is no object is the client's mistake, wherever it would go.
pub proof fn law_odd_bodies_are_not_routed<A>(
    reg: Map<Seq<char>, EntryView<A>>,
    r: BackendRequestView,
)
    requires
        !(r.body is Object),
    ensures
        provider_backend::routed(reg, r) is Err,
        provider_backend::model_parts(r.model) matches Ok((provider, id)) && registry::resolved(
            reg,
            provider,
            Some(id),
        ) is Ok ==> (provider_backend::routed(reg, r) matches Err(e) && e is InvalidRequest),
{
}

/// The answer to a model that names no provider says what was asked for.
pub proof fn law_odd_models_are_told(model: Seq<char>)
    ensures
        provider_backend::model_parts(model) matches Err(BackendErrorView::ModelUnavailable(m))
            ==> m == "model '"@ + model + "' must use the provider/model format"@,
        provider_backend::model_parts(model) matches Err(e) ==> e is ModelUnavailable,
{
}

} // verus!
