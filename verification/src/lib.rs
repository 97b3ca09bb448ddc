//! Relentless: comparison and load testing of HTTP services, driven by config files.
//!
//! The verified core: destinations, templates, messages, aggregation of measurements,
//! evaluation of responses, coalescing of settings and the reports.

pub mod destinations;
pub mod text;
pub mod template;
pub mod transpose;
pub mod messages;
pub mod metrics;
pub mod aggregate;
pub mod threshold;
pub mod config;
pub mod command;
pub mod reportable;
pub mod evaluate;
pub mod request;
pub mod grpc;
pub mod record;
pub mod worker;
pub mod router;
pub mod report;
pub mod laws;
