//! A rotating SOCKS5 forward-proxy gateway: the verified core.
//!
//! The modules here hold the logic of the gateway as functions over plain
//! values: the textual proxy record, the SOCKS5 frames and the decision taken
//! on each reply, the catalog of live proxies and its rotation policy, the
//! state of one listener, and the port allocator of the listeners. Sockets,
//! threads, timers and files are left to the caller.

pub mod catalog;
pub mod config;
pub mod errors;
pub mod listener;
pub mod proxy_model;
pub mod registry;
pub mod rotation;
pub mod socks;
pub mod text;

pub use config::Config;
pub use errors::{ProxyError, SocksError};
pub use proxy_model::{Proxy, ProxyAuth};
