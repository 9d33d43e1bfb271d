//! Decision logic of a channel-harvesting tool: configuration, message
//! filters, retry and flood-wait handling, and the harvest state machine.

pub mod text;
pub mod auth;
pub mod config;
pub mod db;
pub mod filter;
pub mod forward;
pub mod sort;
pub mod harvest;
pub mod interactive;
pub mod menu;
