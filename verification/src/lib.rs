//! A secure key-value store for an embedded user interface: every value is
//! encrypted at rest under a per-installation master key, and the store is
//! driven through a small typed call protocol.

pub mod cipher;
pub mod encoding;
pub mod entropy;
pub mod json;
pub mod snapshot;
pub mod crypto;
pub mod value;
pub mod args;
pub mod store;
pub mod debug;
