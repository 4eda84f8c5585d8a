//! Verified core of a client for Cloudflare's quick tunnels
//! (`https://*.trycloudflare.com`).
//!
//! The library holds what the client decides: which edges to dial and in what
//! order, when a cached answer still counts, which idle socket to hand out,
//! when to try again and when to give up. The sockets, the clock and the
//! resolver stay outside; what they reply comes in as plain values.

pub mod api;
pub mod edge;
pub mod error;
pub mod manager;
pub mod pool;
pub mod quic_dial;
pub mod spike;
pub mod supervisor;
pub mod text;
pub mod time;

pub use error::TunnelError;
pub use manager::{QuickTunnelHandle, QuickTunnelManager, TunnelMetrics};
