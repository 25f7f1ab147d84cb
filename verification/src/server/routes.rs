//! Request and response shapes of the HTTP API and the decisions its handlers
//! make before and after touching the database.
pub mod ai;
pub mod config;
pub mod data;
pub mod insights;
