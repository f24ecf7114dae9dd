//! Multicast DNS (RFC 6762) responder, record cache and cross-interface
//! repeater.
//!
//! The library holds the decisions of the daemon: what is cached, what is
//! answered and when, what is announced, which datagrams are relayed. Sockets,
//! timers and signals belong to the program around it.

pub mod addr;
pub mod announce;
pub mod browser;
pub mod cache;
pub mod clock;
pub mod config;
pub mod daemon;
pub mod dns;
pub mod engine;
pub mod exit_code;
pub mod iface;
pub mod laws;
pub mod preflight;
mod random;
pub mod record_key;
pub mod repeater;
pub mod responder;
pub mod seqs;
pub mod services;
pub mod state;
pub mod text;
pub mod timing;
pub mod wire;
