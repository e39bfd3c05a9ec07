//! Verified core of a transcoding helper for a music tracker.

pub mod text;
pub mod numeric;
pub mod models;
pub mod config;
pub mod services;
pub mod app_config;
