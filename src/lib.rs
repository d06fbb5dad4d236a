//! Portfolio aggregation engine: normalised holdings, the caches that sit in
//! front of the outside endpoints, the claim guards, and the background
//! maintenance schedules, each stated and proved over a mathematical model.

pub mod adapters;
pub mod aggregate;
pub mod amount;
pub mod cert;
pub mod claim;
pub mod config;
pub mod cycles;
pub mod error;
pub mod holding;
pub mod holdings_cache;
pub mod http;
pub mod lp_cache;
pub mod metadata;
pub mod metrics;
pub mod order;
pub mod positions;
pub mod principal;
pub mod service;
pub mod store;
pub mod summary;
pub mod text;
pub mod time;
pub mod user_settings;
pub mod warm;
