//! Varlog: access control, token claims and reverse log reading for a
//! log aggregation sidecar, with their contracts.
pub mod text;
pub mod http;
pub mod lines;
pub mod rev_log;
pub mod patterns;
pub mod access;
pub mod headers;
pub mod claims;
pub mod middleware;
pub mod logs;
pub mod servers;
pub mod client;
