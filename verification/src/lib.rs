//! Verified core of bondar, a standalone tool for development containers.

pub mod cli;
pub mod command;
pub mod compose;
pub mod config;
pub mod docker;
pub mod error;
pub mod expand;
pub mod features;
pub mod host;
pub mod install;
pub mod json;
pub mod lifecycle;
pub mod maps;
pub mod metadata;
pub mod notes;
pub mod numbers;
pub mod order;
pub mod ports;
pub mod provision;
pub mod text;
pub mod texts;
pub mod walk;
pub mod warnings;
