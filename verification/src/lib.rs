//! Core of a dynamic-DNS updater for IPv6: finding the host's address,
//! building the provider request and judging its reply, one cycle at a time.

pub mod canonical;
pub mod config;
pub mod cycle;
pub mod interfaces;
pub mod ipv6;
pub mod publisher;
pub mod resolver;
pub mod text;
