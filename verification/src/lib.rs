//! Selection and rate-paced dispatch of container image scan jobs.

pub mod config;
pub mod dispatch;
pub mod inventory;
pub mod job;
pub mod json;
pub mod pacer;
pub mod partition;
pub mod registry;
pub mod scheduler;
pub mod select;
pub mod summary;
pub mod text;
