//! Logic of the HTTP API side: rule matching, request guards, analytics.
pub mod auth;
pub mod buckets;
pub mod config;
pub mod cooccur;
pub mod days;
pub mod desktop;
pub mod hours;
pub mod insights;
pub mod like;
pub mod models;
pub mod pairs;
pub mod rhythm;
pub mod routes;
pub mod rules;
pub mod schedule;
pub mod stream;
pub mod tools;
pub mod transitions;
