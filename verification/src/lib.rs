//! Verified core of the leaf proxy: domain-suffix rule matching, fake DNS
//! address allocation, the UDP session table, routing history, the ROG wire
//! helpers, lifecycle hooks and start options.

pub mod text;
pub mod domain_trie;
pub mod dns;
pub mod fake_dns;
pub mod routing_history;
pub mod rog_tcp;
pub mod rog;
pub mod session;
pub mod tun;
pub mod remote_rule;
pub mod errors;
pub mod options;
pub mod nat_table;
pub mod lifecycle;
