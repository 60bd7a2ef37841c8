//! A bounded in-memory history of environmental sensor readings.
//!
//! A sampling loop drives a configured set of providers ([`provider`]) each
//! cycle and appends the successful readings to a [`store::ReadingStore`],
//! which keeps at most a configured number of them and evicts the oldest
//! first; failures are collected without stopping the cycle ([`sample`]). A
//! query side takes consistent snapshots, renders them as a JSON array
//! ([`json`]) and frames the bytes as a minimal HTTP response ([`http`]).
//! Temperature and humidity are carried in tenths of a unit, so every value
//! the logic touches is a plain integer.

pub mod reading;
pub mod store;
pub mod json;
pub mod http;
pub mod provider;
pub mod sample;
