//! Provider registry and upstream adapters.
//!
//! The core [`ProviderRegistry`] depends only on the [`ProviderAdapter`] port.
//! The generic [`AnthropicAdapter`] is an outbound adapter behind that port.
//! Auth and provider quirks stay inside the adapter.

pub mod adapter;
pub mod anthropic;
pub mod attempts;
pub mod config;
pub mod credentials;
pub mod decode;
pub mod error;
pub mod messages;
pub mod registry;
pub mod round_trip;
pub mod settings;
pub mod stream;
pub mod types;
pub mod wire;
pub mod wording;

pub use adapter::{ProviderAdapter, ResolvedModel};
pub use anthropic::AnthropicAdapter;
pub use config::{AuthConfig, ModelCapabilities, ModelConfig, ProviderConfig, RetryConfig};
pub use credentials::{load_credential, redact_headers};
pub use error::{ProviderError, UpstreamErrorDetails};
pub use registry::ProviderRegistry;
pub use stream::{SseEvent, StreamEvent};
pub use types::{
    AnthropicErrorBody, ContentBlock, MessagesRequest, MessagesResponse, StopReason, Tool,
    ToolChoice, Usage,
};
