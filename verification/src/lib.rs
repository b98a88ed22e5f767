//! Routing, rewriting and accounting for a JSON-RPC reverse proxy.

pub mod body;
pub mod config;
pub mod errors;
pub mod gzip;
pub mod hashing;
pub mod headers;
pub mod ids;
pub mod metrics;
pub mod paths;
pub mod proxy;
pub mod route;
pub mod rpc;
pub mod text;
pub mod uri;
