pub mod cli;
pub mod concurrency;
pub mod config;
pub mod export;
pub mod logging;
pub mod metrics;
pub mod ordered;
pub mod report;
pub mod shared;
pub mod sidecar;
pub mod symbols;
pub mod text;
pub mod watchdog;
