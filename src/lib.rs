//! Host health monitoring: metrics aggregation, growth-trend estimation and
//! noise-resistant anomaly detection over fixed-point samples.

pub mod text;
pub mod config;
pub mod metrics;
pub mod collector;
pub mod ps_output;
pub mod aggregate;
pub mod table;
pub mod detector;
pub mod laws;
pub mod notifier;
pub mod narration;
pub mod health;
