//! Turns a pnpm lockfile into Buck2 build rules.

pub mod buck;
pub mod cache;
pub mod cli;
pub mod config;
pub mod config_doc;
pub mod dict;
pub mod error;
pub mod fetch;
pub mod json;
pub mod lock;
pub mod manifest;
pub mod packages;
pub mod paths;
pub mod platform;
pub mod registry;
pub mod tarball;
pub mod text;
pub mod toml_doc;
pub mod yaml;
