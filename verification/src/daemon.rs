//! The tracking daemon's decision logic.
pub mod config;
pub mod disruption;
pub mod goals;
pub mod idle;
pub mod input;
pub mod procfs;
pub mod resource;
pub mod session;
pub mod shutdown;
pub mod wellbeing;
