//! Local proxy for AI model providers.
pub mod accounts;
pub mod backend;
pub mod baseline;
pub mod catalog;
pub mod clock;
pub mod config;
pub mod gemini;
pub mod install;
pub mod json;
pub mod ledger;
pub mod management;
pub mod maps;
pub mod model_groups;
pub mod numbers;
pub mod order;
pub mod ports;
pub mod provider_usage;
pub mod proxy_server;
pub mod saved_contexts;
pub mod text;
pub mod timestamps;
pub mod transforms;
pub mod types;
pub mod usage;
pub mod uuids;
