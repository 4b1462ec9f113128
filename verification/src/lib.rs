//! Live order books maintained from the public feeds of crypto exchanges.

pub mod backoff;
pub mod checksum;
pub mod decimal;
pub mod error;
pub mod exchanges;
pub mod feed;
pub mod json;
pub mod metrics;
pub mod orderbook;
pub mod session;
pub mod symbols;
pub mod text;
