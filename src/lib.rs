//! Persistent-state core of a conversational agent: a versioned binary
//! record codec, a bounded tiered memory with its compression rules, a
//! behavioural priors tracker, a web-lookup ring buffer and an encrypted
//! secret vault.

pub mod access;
pub mod account;
pub mod agent;
pub mod chat;
pub mod codec;
pub mod compress;
pub mod config;
pub mod gateway;
pub mod json;
pub mod log;
pub mod priors;
pub mod prompt;
pub mod records;
pub mod ring;
pub mod search;
pub mod text;
pub mod tiers;
pub mod tools;
pub mod vault;
