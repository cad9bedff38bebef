//! Loading-volume calculation sessions: parsed measurement samples, per-session
//! statistics and a navigable history of sessions.

pub mod sample;
pub mod record;
pub mod error;
pub mod history;
pub mod parse;
