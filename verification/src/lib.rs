//! Keeps a firewall's blocked-address sets in sync with externally supplied
//! blocklists while guaranteeing that operator-designated addresses are never
//! blocked.
//!
//! The crate validates CIDR strings, collapses redundant subnets with a binary
//! prefix trie, classifies the survivors into named sets, and synthesizes a
//! declarative ruleset document in which every anti-lockout accept rule stands
//! ahead of every drop rule.

pub mod anti_lockout;
pub mod blocklist;
pub mod custom_set;
pub mod error;
pub mod iptrie;
pub mod network;
pub mod nftables;
pub mod retry;
pub mod subnet;
pub mod text;
