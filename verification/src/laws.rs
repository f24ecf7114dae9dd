//! What holds of the library as a whole.
//!
//! Each public proof function states one law over the views and spec functions
//! that the contracts of the executable functions use.

pub mod announce;
pub mod cache;
pub mod config;
pub mod daemon;
pub mod dns;
pub mod engine;
pub mod operations;
pub mod repeater;
pub mod responder;
pub mod services;
pub mod text;
pub mod timing;
pub mod wire;
