//! Verified core of micro_proxy: configuration checks, deployment state,
//! and generation of the reverse-proxy configuration.

pub mod builder;
pub mod cli;
pub mod compose;
pub mod config;
pub mod container;
pub mod deploy_flow;
pub mod deployment;
pub mod discovery;
pub mod dockerfile;
pub mod error;
pub mod micro_app_config;
pub mod named_map;
pub mod network;
pub mod nginx;
pub mod state;
pub mod text;
pub mod volumes_config;

pub use error::{Error, ErrorKind};
