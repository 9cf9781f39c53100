//! Declarative firewall configuration: the ruleset document model, its
//! builder, and the synthesizer that assembles one document per cycle.

pub mod builder;
pub mod config;
