//! A small blog-post service: a concurrency-safe CRUD store for post
//! records behind a four-route HTTP surface, with two interchangeable
//! persistence strategies (an in-memory store guarded by a lock, and a
//! relational store driven through SQL text this crate supplies).
//!
//! The crate holds the verified core: the record model, the wire codec,
//! the volatile store with its id-allocation invariant, the SQL text and
//! row translation for the durable store, and the request-to-response
//! translation of the endpoint layer.  Process wiring (sockets, the
//! async runtime, the database driver) lives outside.

pub mod arith;
pub mod auth;
pub mod codec;
pub mod decode;
pub mod durable;
pub mod endpoint;
pub mod geometry;
pub mod post;
pub mod store;
pub mod strutil;
pub mod users;
