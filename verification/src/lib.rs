//! Subscription registry and control-session rules of a market-data
//! broadcast server.

pub mod broadcast;
pub mod command;
pub mod constants;
pub mod error;
pub mod liveness;
pub mod protocol;
pub mod quote;
pub mod registry;
pub mod request;
pub mod session;
pub mod symbols;
pub mod system;
