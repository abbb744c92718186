//! Verified core of a small OpenAI-compatible capture proxy.

pub mod capture;
pub mod clock;
pub mod config;
pub mod ids;
pub mod json;
pub mod proxy;
pub mod store;
pub mod tags;
pub mod text;
