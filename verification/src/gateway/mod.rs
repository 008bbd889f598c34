//! Client-facing gateway implementation.

pub mod accounts;
pub mod answers;
pub mod backend;
pub mod calendar;
pub mod fallback;
pub mod http;
pub mod provider_backend;
pub mod routes;
pub mod runtime;
pub mod telemetry;

pub use backend::{BackendError, BackendRequest, ModelInfo};
pub use fallback::FallbackBackend;
pub use provider_backend::ProviderBackend;
pub use runtime::ListenConfig;
