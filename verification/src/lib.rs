//! A small peer-to-peer article sharing library.
//!
//! Peers on a local network flood-broadcast queries for articles on a shared
//! topic and answer with their own publicly flagged articles. This crate holds
//! the verified core: the article store with its id-allocation rule, the wire
//! codec for the query protocol, the decision logic that says who answers a
//! request and who accepts a response, and the discovery view that tracks
//! which peers receive broadcasts. The surrounding process (command line,
//! transport, event loop) lives outside and only hands plain values in and
//! out.

pub mod args;
pub mod article;
pub mod chars;
pub mod codec;
pub mod discovery;
pub mod messages;
pub mod protocol;
pub mod store;
pub mod wire;
