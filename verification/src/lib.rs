//! Verified core of an odds-ingestion pipeline: name normalization,
//! candidate generation, entity resolution against an identity store,
//! a race-free identity cache, a rolling-window rate limiter, retry
//! policy, snapshot extraction and the poll orchestration.

pub mod outside;
pub mod cache;
pub mod config;
pub mod candidates;
pub mod extract;
pub mod fetch_policy;
pub mod freshness;
pub mod health;
pub mod model;
pub mod normalize;
pub mod ratelimit;
pub mod service;
pub mod store;
pub mod text;
