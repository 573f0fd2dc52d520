//! Relay of publisher metrics to websocket subscribers.
//!
//! Publishers talk to the relay over a small text protocol carried in UDP
//! datagrams; subscribers are websocket clients that receive every published
//! payload. This crate holds the protocol and the subscriber bookkeeping;
//! sockets, threads and channels live in the program around it.
pub mod app;
pub mod http;
pub mod registry;
pub mod text;
