//! Cortiq gateway core: configuration model, routing decisions, request
//! bookkeeping and text handling, with their behaviour stated as contracts.

pub mod text;
pub mod config;
pub mod routing;
pub mod model;
pub mod error;
pub mod providers;
pub mod registry;
pub mod pipeline;
pub mod sse;
pub mod stream;
pub mod promotion;
pub mod import;
pub mod cmf;
pub mod jobs;
pub mod secrets;
pub mod router_client;
pub mod stats;
pub mod admin;
pub mod translate;
pub mod stats_support;
pub mod adapters;
pub mod order;
pub mod lifecycle;
