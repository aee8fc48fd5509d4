//! The messages that the two ends of a tunnel exchange.

use vstd::prelude::*;

verus! {

/// Asks the host to open its end of a connection.
#[derive(Clone, Copy, Debug, PartialEq, Eq, Structural)]
pub struct ForwardSshAgentOpen {
    pub connection_id: u64,
}

/// Carries one chunk of a connection's bytes to the other end.
#[derive(Debug, PartialEq, Eq)]
pub struct ForwardSshAgentData {
    pub connection_id: u64,
    pub payload: Vec<u8>,
}

/// Tells the other end that a connection is over.
#[derive(Clone, Copy, Debug, PartialEq, Eq, Structural)]
pub struct ForwardSshAgentClose {
    pub connection_id: u64,
}

/// The answer to a request that was taken.
#[derive(Clone, Copy, Debug, PartialEq, Eq, Structural)]
pub struct Ack {}

/// The requests that an end can register a handler for.
#[derive(Clone, Copy, Debug, PartialEq, Eq, Structural)]
pub enum RequestKind {
    Open,
    Data,
    Close,
}

/// What travels through an open tunnel, as a value of the model.
pub enum TunnelMessage {
    Data { connection_id: u64, payload: Seq<u8> },
    Close { connection_id: u64 },
}

impl TunnelMessage {
    /// The connection that the message belongs to.
    pub open spec fn id(self) -> u64 {
        match self {
            TunnelMessage::Data { connection_id, .. } => connection_id,
            TunnelMessage::Close { connection_id } => connection_id,
        }
    }
}

impl View for ForwardSshAgentData {
    type V = TunnelMessage;

    open spec fn view(&self) -> TunnelMessage {
        TunnelMessage::Data { connection_id: self.connection_id, payload: self.payload@ }
    }
}

impl View for ForwardSshAgentClose {
    type V = TunnelMessage;

    open spec fn view(&self) -> TunnelMessage {
        TunnelMessage::Close { connection_id: self.connection_id }
    }
}

} // verus!
