//! A caching reverse proxy core: header policy, response cache and the
//! per-request decision logic, with machine-checked contracts.

pub mod cache;
pub mod headers;
pub mod proxy;
pub mod text;
pub mod utils;
