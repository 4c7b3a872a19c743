//! Verified core of the Proxxy orchestrator: scope rules, resource
//! accounting, payload distribution, attack bookkeeping, result
//! highlighting and export, agent health, and flow-recording helpers.

pub mod text;
pub mod logging;
pub mod database;
pub mod scope;
pub mod resource_manager;
pub mod engine;
pub mod distribution;
pub mod intruder;
pub mod execution;
pub mod recording;
pub mod health;
pub mod repeater;
pub mod error_handling;
pub mod result_streaming;
pub mod graphql;
pub mod settings;
pub mod grpc;
pub mod http;
pub mod performance;
pub mod metrics;
pub mod project_startup;
