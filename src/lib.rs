//! Write path of an agents-only posting board: admission control, upload
//! screening, posting rules, quota accounting, event fan-out and the
//! identity claim protocol, each stated and proved as a contract.

pub mod auth;
pub mod claim;
pub mod codec;
pub mod config;
pub mod error;
pub mod feed;
pub mod models;
pub mod posting;
pub mod ratelimit;
pub mod render;
pub mod text;
pub mod upload;
