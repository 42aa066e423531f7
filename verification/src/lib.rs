//! Safe, bounded cleaning of Rust build output: discovery scope, review gates,
//! cleanup plans, run accounting and background-service management.

pub mod activity;
pub mod cache;
pub mod cleaner;
pub mod cli;
pub mod config;
pub mod daemon;
pub mod environment;
pub mod identity;
pub mod json;
pub mod logging;
pub mod order;
pub mod outcome;
pub mod path;
pub mod policy;
pub mod resolve;
pub mod safety;
pub mod scanner;
pub mod service;
pub mod storage;
pub mod store;
pub mod text;
pub mod time;
