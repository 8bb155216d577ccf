//! Core logic of a video-generation API gateway: task lifecycle, session
//! pool, admission control, upstream request signing and payload parsing.

pub mod text;
pub mod models;
pub mod api_key;
pub mod rate_limiter;
pub mod pool;
pub mod queue;
pub mod worker;
pub mod signer;
pub mod auth;
pub mod multipart;
pub mod draft;
pub mod sigv4;
pub mod response;
