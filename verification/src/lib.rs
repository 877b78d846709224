//! Multi-provider service status monitor: the verified core.
pub mod config;
pub mod error;
pub mod monitor;
pub mod notifiers;
pub mod utils;
pub mod providers;
