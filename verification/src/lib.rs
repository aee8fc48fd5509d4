//! SSH agent forwarding as a protocol-agnostic byte tunnel.
//!
//! The guest listens on a Unix socket and, for each accepted connection, asks
//! the host to open a tunnel. The host connects to its own local agent, and
//! both ends pipe raw bytes. One guest socket connection maps to one host agent
//! connection; distinct connections are told apart by their `connection_id`.
//!
//! This crate holds the decisions of both ends: the connection table and the
//! request handlers ([`connections`], [`proxy`]), what the two tasks of one
//! connection do ([`pipe`]), which requests wait for them ([`waiting`]), the
//! guest's listener ([`listener`]), how a host finds its agent ([`connector`]),
//! and the request-then-reply bridge for agents behind a synchronous pipe
//! ([`bridge`], [`framing`]). Sockets, tasks and the message transport are the
//! caller's: each decision is a step that takes what happened and says what to
//! do next. [`laws`] states what the ends guarantee together.

pub mod bridge;
pub mod connections;
pub mod connector;
pub mod framing;
pub mod laws;
pub mod listener;
pub mod pipe;
pub mod proto;
pub mod proxy;
pub mod sink;
pub mod waiting;
