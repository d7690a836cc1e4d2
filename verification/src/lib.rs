//! Coordination core of a small retail network: ecommerce front-ends that
//! elect a leader over a ring and route online orders, and stores that hold
//! stock and reserve it for bounded time windows.
//!
//! Every component is a single-owner state machine. A handler takes the
//! component's state and one message, updates the state and returns the
//! messages to deliver next; delivering them is left to the runtime that
//! embeds the library.

pub mod text;
pub mod errors;
pub mod roster;
pub mod wire;
pub mod ecom_handler;
pub mod store;
pub mod chance;
pub mod reserves;
pub mod abstract_store;
pub mod coordinator;
pub mod ring;
pub mod ecom;
pub mod abstract_ecom;
pub mod feeder;
pub mod protocol;
