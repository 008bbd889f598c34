//! Bridge from the provider registry to the gateway port.

use vstd::prelude::*;
use vstd::string::*;

use crate::gateway::backend;
use crate::gateway::backend::{
    BackendError, BackendErrorView, BackendRequest, BackendRequestView, ModelInfo,
};
use crate::json::{Json, JsonView};
use crate::providers::adapter::ProviderAdapter;
use crate::providers::decode::FromJson;
use crate::providers::error::{ProviderError, ProviderErrorView};
use crate::providers::registry;
use crate::providers::registry::{EntryView, ProviderRegistry};
use crate::providers::types;
use crate::providers::types::{MessagesRequest, RequestView};
use crate::sorted;
use crate::text;

verus! {

/// The message about a model that does not name its provider.
pub open spec fn format_hint(model: Seq<char>) -> Seq<char> {
    "model '"@ + model + "' must use the provider/model format"@
}

/// The provider and the model of `provider/model`, neither of them empty.
pub open spec fn model_parts(model: Seq<char>) -> Result<(Seq<char>, Seq<char>), BackendErrorView> {
    match text::split_at_first(model, '/') {
        Some((provider, id)) => if provider.len() > 0 && id.len() > 0 {
            Ok((provider, id))
        } else {
            Err(BackendErrorView::ModelUnavailable(format_hint(model)))
        },
        None => Err(BackendErrorView::ModelUnavailable(format_hint(model))),
    }
}

fn bad_format(model: &str) -> (r: BackendError)
    ensures
        r@ == BackendErrorView::ModelUnavailable(format_hint(model@)),
{
    BackendError::ModelUnavailable(
        text::concat3("model '", model, "' must use the provider/model format"),
    )
}

pub fn split_model_id<'a>(model: &'a str) -> (r: Result<(&'a str, &'a str), BackendError>)
    ensures
        match r {
            Ok((provider, id)) => model_parts(model@) == Ok::<
                (Seq<char>, Seq<char>),
                BackendErrorView,
            >((provider@, id@)),
            Err(e) => model_parts(model@) == Err::<(Seq<char>, Seq<char>), BackendErrorView>(e@),
        },
{
    match text::split_once(model, '/') {
        Some((provider, id)) => if !provider.is_empty() && !id.is_empty() {
            Ok((provider, id))
        } else {
            Err(bad_format(model))
        },
        None => Err(bad_format(model)),
    }
}

/// The typed request of a body, for the given upstream model.
pub open spec fn typed_request(body: JsonView, model: Seq<char>) -> Result<
    RequestView,
    BackendErrorView,
> {
    match body {
        JsonView::Object(m) => match types::request_of(
            JsonView::Object(m.insert("model"@, JsonView::Text(model))),
        ) {
            Ok(r) => Ok(r),
            Err(e) => Err(
                BackendErrorView::InvalidRequest(
                    "invalid Anthropic Messages request: "@ + e.message(),
                ),
            ),
        },
        _ => Err(BackendErrorView::InvalidRequest("request body must be a JSON object"@)),
    }
}

pub fn parse_request(body: &Json, model_id: &str) -> (r: Result<MessagesRequest, BackendError>)
    ensures
        match r {
            Ok(x) => typed_request(body@, model_id@) == Ok::<RequestView, BackendErrorView>(x@),
            Err(e) => typed_request(body@, model_id@) == Err::<RequestView, BackendErrorView>(e@),
        },
{
    match body {
        Json::Object(m) => {
            let mut object = m.clone();
            object.insert("model".to_owned(), Json::text(model_id));
            let whole = Json::object(object);
            assert(<MessagesRequest as FromJson>::of(whole@) == types::request_of(whole@));
            match MessagesRequest::from_json(&whole) {
                Ok(x) => Ok(x),
                Err(e) => {
                    let message = e.message();
                    Err(
                        BackendError::InvalidRequest(
                            text::concat2(
                                "invalid Anthropic Messages request: ",
                                message.as_str(),
                            ),
                        ),
                    )
                },
            }
        },
        _ => Err(BackendError::InvalidRequest("request body must be a JSON object".to_owned())),
    }
}

/// What a provider error is to the gateway.
pub open spec fn gateway_error(e: ProviderErrorView) -> BackendErrorView {
    match e {
        ProviderErrorView::Config(message) => BackendErrorView::InvalidRequest(message),
        ProviderErrorView::AuthMissing { reason, .. } => backend::upstream_view(
            401,
            "authentication_error"@,
            reason,
        ),
        ProviderErrorView::ProviderNotFound(provider) => BackendErrorView::ModelUnavailable(
            provider,
        ),
        ProviderErrorView::ModelNotFound { provider, model } => BackendErrorView::ModelUnavailable(
            "provider="@ + provider + " model="@ + model,
        ),
        ProviderErrorView::Timeout { provider, .. } => BackendErrorView::Unavailable(
            "provider "@ + provider + " timed out"@,
        ),
        ProviderErrorView::Transport { provider, message } => BackendErrorView::Unavailable(
            "provider "@ + provider + ": "@ + message,
        ),
        ProviderErrorView::Parse(message) => BackendErrorView::Internal(message),
        ProviderErrorView::Upstream { status, code, message, .. } => backend::upstream_view(
            status,
            code,
            message,
        ),
        ProviderErrorView::Stream { provider, message } => BackendErrorView::Unavailable(
            "provider "@ + provider + ": "@ + message,
        ),
    }
}

fn provider_message(provider: &str, message: &str) -> (r: String)
    ensures
        r@ == "provider "@ + provider@ + ": "@ + message@,
{
    let mut r = text::concat3("provider ", provider, ": ");
    r.append(message);
    r
}

pub fn map_provider_error(error: ProviderError) -> (r: BackendError)
    ensures
        r@ == gateway_error(error@),
{
    match error {
        ProviderError::Config(message) => BackendError::InvalidRequest(message),
        ProviderError::AuthMissing { reason, .. } => BackendError::upstream(
            401,
            "authentication_error",
            reason.as_str(),
        ),
        ProviderError::ProviderNotFound(provider) => BackendError::ModelUnavailable(provider),
        ProviderError::ModelNotFound { provider, model } => {
            let mut r = text::concat3("provider=", provider.as_str(), " model=");
            r.append(model.as_str());
            BackendError::ModelUnavailable(r)
        },
        ProviderError::Timeout { provider, .. } => BackendError::Unavailable(
            text::concat3("provider ", provider.as_str(), " timed out"),
        ),
        ProviderError::Transport { provider, message } => BackendError::Unavailable(
            provider_message(provider.as_str(), message.as_str()),
        ),
        ProviderError::Parse(message) => BackendError::Internal(message),
        ProviderError::Upstream { status, code, message, .. } => BackendError::upstream(
            status,
            code.as_str(),
            message.as_str(),
        ),
        ProviderError::Stream { provider, message } => BackendError::Unavailable(
            provider_message(provider.as_str(), message.as_str()),
        ),
    }
}

/// An error that carries its own status keeps it on the way to the client.
pub proof fn law_upstream_status_kept(e: ProviderErrorView)
    requires
        e is Upstream,
    ensures
        gateway_error(e).status_code() == e.http_status(),
        gateway_error(e).anthropic_type() == e.anthropic_type(),
{
}

// ---------------------------------------------------------------------------
// Routing
// ---------------------------------------------------------------------------

/// Gateway backend backed by the provider registry.
#[derive(Debug)]
pub struct ProviderBackend<A> {
    pub registry: ProviderRegistry<A>,
}

/// A request with the adapter that serves it.
pub struct RoutedRequest<'a, A> {
    pub adapter: &'a A,
    pub request: MessagesRequest,
}

/// The provider and the typed request that a request is routed to: the model
/// names both, and the client's headers go along.
pub open spec fn routed<A>(
    reg: Map<Seq<char>, EntryView<A>>,
    r: BackendRequestView,
) -> Result<(Seq<char>, RequestView), BackendErrorView> {
    match model_parts(r.model) {
        Err(e) => Err(e),
        Ok((provider, id)) => match registry::resolved(reg, provider, Some(id)) {
            Err(e) => Err(gateway_error(e)),
            Ok(model) => match typed_request(r.body, model) {
                Err(e) => Err(e),
                Ok(typed) => Ok(
                    (provider, RequestView { forward_headers: r.forward_headers, ..typed }),
                ),
            },
        },
    }
}

/// The models of one provider as the catalog lists them.
pub open spec fn catalog_of(provider: Seq<char>, models: Seq<Seq<char>>) -> Seq<Seq<char>> {
    models.map_values(|m: Seq<char>| provider + "/"@ + m)
}

/// The models of a row of providers.
pub open spec fn catalog<A>(
    reg: Map<Seq<char>, EntryView<A>>,
    providers: Seq<Seq<char>>,
) -> Seq<Seq<char>>
    decreases providers.len(),
{
    if providers.len() == 0 {
        Seq::empty()
    } else {
        catalog(reg, providers.drop_last()) + catalog_of(
            providers.last(),
            reg[providers.last()].models,
        )
    }
}

pub open spec fn info_ids(infos: Seq<ModelInfo>) -> Seq<Seq<char>> {
    infos.map_values(|m: ModelInfo| m.id@)
}

impl<A: ProviderAdapter> ProviderBackend<A> {
    pub open spec fn wf(self) -> bool {
        self.registry.wf()
    }

    pub fn new(registry: ProviderRegistry<A>) -> (r: ProviderBackend<A>)
        ensures
            r.registry == registry,
    {
        ProviderBackend { registry }
    }

    pub fn registry(&self) -> (r: &ProviderRegistry<A>)
        ensures
            *r == self.registry,
    {
        &self.registry
    }

    /// The catalog: the models of every provider, the providers in order.
    pub fn models(&self) -> (r: Vec<ModelInfo>)
        requires
            self.wf(),
        ensures
            exists|ids: Seq<Seq<char>>|
                {
                    &&& (forall|id: Seq<char>| #[trigger]
                        ids.contains(id) <==> self.registry@.contains_key(id))
                    &&& (forall|i: int, j: int|
                        0 <= i < j < ids.len() ==> text::before(
                            #[trigger] ids[i],
                            #[trigger] ids[j],
                        ))
                    &&& info_ids(r@) == #[trigger] catalog(self.registry@, ids)
                },
            forall|i: int|
                0 <= i < r@.len() ==> (#[trigger] r@[i]).object@ == "model"@ && r@[i].created == 0
                    && r@[i].owned_by@ == "switchyard"@,
    {
        let ids = self.registry.provider_ids();
        let ghost all = text::views(ids@);
        let mut out: Vec<ModelInfo> = Vec::new();
        let mut i: usize = 0;
        proof {
            assert(all.take(0) =~= Seq::<Seq<char>>::empty());
            assert(info_ids(out@) =~= Seq::<Seq<char>>::empty());
        }
        while i < ids.len()
            invariant
                i <= ids@.len(),
                self.wf(),
                all == text::views(ids@),
                forall|id: Seq<char>|
                    all.contains(id) <==> #[trigger] self.registry@.contains_key(id),
                info_ids(out@) == catalog(self.registry@, all.take(i as int)),
                forall|j: int|
                    0 <= j < out@.len() ==> (#[trigger] out@[j]).object@ == "model"@
                        && out@[j].created == 0 && out@[j].owned_by@ == "switchyard"@,
            decreases ids@.len() - i,
        {
            let provider = ids[i].as_str();
            proof {
                assert(all[i as int] == provider@);
                assert(all.contains(provider@));
                assert(self.registry@.contains_key(provider@));
                assert(all.take(i + 1).drop_last() =~= all.take(i as int));
                assert(all.take(i + 1).last() == provider@);
            }
            if let Some(models) = self.registry.model_ids(provider) {
                let ghost listed = catalog_of(provider@, text::views(models@));
                let ghost before = info_ids(out@);
                let mut j: usize = 0;
                assert(before + listed.take(0) =~= before);
                while j < models.len()
                    invariant
                        j <= models@.len(),
                        listed == catalog_of(provider@, text::views(models@)),
                        info_ids(out@) == before + listed.take(j as int),
                        forall|k: int|
                            0 <= k < out@.len() ==> (#[trigger] out@[k]).object@ == "model"@
                                && out@[k].created == 0 && out@[k].owned_by@ == "switchyard"@,
                    decreases models@.len() - j,
                {
                    let id = text::concat3(provider, "/", models[j].as_str());
                    let info = ModelInfo::new(id.as_str());
                    let ghost old_out = out@;
                    out.push(info);
                    proof {
                        assert(listed[j as int] == provider@ + "/"@ + models@[j as int]@);
                        assert(info_ids(out@) =~= info_ids(old_out).push(info.id@));
                        assert(listed.take(j + 1) =~= listed.take(j as int).push(listed[j as int]));
                        assert(info_ids(out@) =~= before + listed.take(j + 1));
                    }
                    j = j + 1;
                }
                assert(listed.take(j as int) =~= listed);
            }
            i = i + 1;
        }
        proof {
            assert(all.take(i as int) =~= all);
            assert forall|a: int, b: int| 0 <= a < b < all.len() implies text::before(
                #[trigger] all[a],
                #[trigger] all[b],
            ) by {
                assert(all[a] == ids@[a]@);
                assert(all[b] == ids@[b]@);
            }
            assert forall|id: Seq<char>| #[trigger] all.contains(id)
                <==> self.registry@.contains_key(id) by {}
            assert(info_ids(out@) == catalog(self.registry@, all));
        }
        out
    }

    /// Find the adapter for a request and type the request for it.
    pub fn route(&self, request: BackendRequest) -> (r: Result<RoutedRequest<'_, A>, BackendError>)
        requires
            self.wf(),
        ensures
            match r {
                Ok(x) => routed(self.registry@, request@) matches Ok(goal) && goal.1 == x.request@
                    && self.registry@.contains_key(goal.0) && *x.adapter
                    == self.registry@[goal.0].adapter,
                Err(e) => routed(self.registry@, request@) == Err::<
                    (Seq<char>, RequestView),
                    BackendErrorView,
                >(e@),
            },
    {
        let (provider, id) = match split_model_id(request.model.as_str()) {
            Ok(parts) => parts,
            Err(e) => return Err(e),
        };
        let handle = match self.registry.resolve(provider, Some(id)) {
            Ok(handle) => handle,
            Err(e) => return Err(map_provider_error(e)),
        };
        let adapter = handle.adapter;
        let mut typed = match parse_request(&request.body, handle.model_id.as_str()) {
            Ok(typed) => typed,
            Err(e) => return Err(e),
        };
        let ghost plain = typed@;
        typed.forward_headers = request.forward_headers;
        assert(typed@ == RequestView { forward_headers: request@.forward_headers, ..plain });
        Ok(RoutedRequest { adapter, request: typed })
    }
}

/// The client's headers reach the adapter unchanged, and the request names the
/// upstream model without the suffix for the large context window.
pub proof fn law_routing_keeps_headers<A>(
    reg: Map<Seq<char>, EntryView<A>>,
    r: BackendRequestView,
)
    requires
        routed(reg, r) is Ok,
    ensures
        (routed(reg, r)->Ok_0).1.forward_headers == r.forward_headers,
        (routed(reg, r)->Ok_0).1.model == registry::without_context_suffix(
            (model_parts(r.model)->Ok_0).1,
        ),
{
    let (provider, id) = model_parts(r.model)->Ok_0;
    let model = registry::resolved(reg, provider, Some(id))->Ok_0;
    let m = r.body->Object_0.insert("model"@, JsonView::Text(model));
    assert(m["model"@] == JsonView::Text(model));
}

} // verus!
