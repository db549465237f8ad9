//! Control plane.

pub mod audit;
pub mod db;
pub mod documents;
pub mod entities;
pub mod jobs;
pub mod metrics;
pub mod models;
pub mod read_models;
pub mod sites;
pub mod store;
pub mod workers;
