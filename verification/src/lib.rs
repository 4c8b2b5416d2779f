//! Wake-on-LAN orchestration: a dependency resolver that turns a list of
//! server specifications into a safe wake order, a byte-exact builder for
//! raw WOL Ethernet frames (with optional 802.1Q tagging), and the decision
//! logic of a polling health-check engine and of the sequential orchestrator
//! that drives both.

pub mod chars;
pub mod config;
pub mod health;
pub mod ip;
pub mod orchestrator;
pub mod order;
pub mod wol;
