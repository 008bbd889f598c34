//! Typed provider adapter boundary (port).
//!
//! The registry depends only on this trait. Adapters are replaceable behind
//! it.

use vstd::prelude::*;
use vstd::string::*;

use crate::json::Json;
use crate::providers::decode::ToJson;
use crate::providers::error::ProviderError;
use crate::providers::types;
use crate::providers::types::MessagesRequest;

verus! {

/// Resolved model handle returned by the registry.
#[derive(Debug, Clone, PartialEq, Eq)]
pub struct ResolvedModel {
    pub provider_id: String,
    pub model_id: String,
    pub display_name: Option<String>,
}

/// Typed provider adapter port.
///
/// Implementations must be provider-agnostic at the trait level; provider
/// quirks stay inside the concrete adapter.
pub trait ProviderAdapter {
    /// Provider identity this adapter serves.
    spec fn id(&self) -> Seq<char>;

    fn provider_id(&self) -> (r: &str)
        ensures
            r@ == self.id(),
    ;

    /// Optional health check / validation hook (e.g. test auth header).
    /// Default implementation does nothing.
    fn validate_request(&self, request: &MessagesRequest) -> (r: Result<(), ProviderError>)
        default_ensures
            r is Ok,
    {
        Ok(())
    }

    /// Raw-passthrough for debugging: the upstream wire JSON of a request
    /// (useful for tests). Default returns JSON of the typed request.
    fn wire_request_json(&self, request: &MessagesRequest) -> (r: Result<Json, ProviderError>)
        default_ensures
            r matches Ok(v) && v@ == types::request_json(request@),
    {
        Ok(request.to_json())
    }
}

} // verus!
