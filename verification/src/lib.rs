//! A price-alert management library: validated, normalized alert requests
//! over an in-memory table model, plus a sorted read-only asset-price feed.

pub mod asset;
pub mod laws;
pub mod model;
pub mod price;
