//! Switchyard: a local, provider-agnostic gateway.
//!
//! The gateway speaks the Anthropic Messages protocol on both sides. This
//! library holds what it decides: how configuration is validated and providers
//! are resolved ([`providers`]), what a request is answered with, how usage is
//! counted and failures are routed ([`gateway`]), and how a first configuration
//! is made and checked ([`setup`], [`doctor`]). Sockets, files and the
//! environment belong to the program around it.

pub mod config;
pub mod doctor;
pub mod gateway;
pub mod json;
pub mod providers;
pub mod setup;
pub mod sorted;
pub mod text;
