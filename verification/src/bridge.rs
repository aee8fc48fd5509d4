//! A request-then-reply bridge to an agent behind a synchronous pipe.
//!
//! On a pipe opened as a synchronous file handle a pending read keeps every
//! write waiting, so that a reader and a writer cannot work at the same time.
//! The ssh-agent protocol is half-duplex. The bridge therefore drives the pipe
//! strictly in turn: it reads one whole request from the tunnel, writes it to
//! the agent, reads one whole reply, and writes it to the tunnel.

use vstd::prelude::*;

use crate::framing;
use crate::framing::{FrameProgress, FrameReader, FrameStep, FrameView, HEADER_LEN, MAX_MSG_LEN};

verus! {

/// Where a bridge stands.
#[derive(Debug, PartialEq, Eq)]
pub enum BridgeStage {
    /// A request is being read from the tunnel.
    ReadingRequest(FrameReader),
    /// A request is being written to the agent.
    WritingRequest,
    /// A reply is being read from the agent.
    ReadingReply(FrameReader),
    /// A reply is being written to the tunnel.
    WritingReply,
    /// The bridge is down.
    Stopped,
}

/// What a bridge is told.
#[derive(Debug, PartialEq, Eq)]
pub enum BridgeEvent {
    /// The exact read gave these bytes.
    Filled(Vec<u8>),
    /// The whole message was written.
    Written,
    /// The read or the write failed.
    Failed,
}

/// What a bridge does next.
#[derive(Debug, PartialEq, Eq)]
pub enum BridgeAction {
    /// Read exactly this many bytes from the tunnel.
    ReadRequest(usize),
    /// Write the whole message to the agent.
    WriteRequest(Vec<u8>),
    /// Read exactly this many bytes from the agent.
    ReadReply(usize),
    /// Write the whole message to the tunnel.
    WriteReply(Vec<u8>),
    /// Give up the pipe and both ends of the tunnel.
    Stop,
}

/// Where a bridge stands, as a value of the model.
pub enum BridgeState {
    ReadingRequest(FrameView),
    WritingRequest,
    ReadingReply(FrameView),
    WritingReply,
    Stopped,
}

/// What happened to a bridge, as a value of the model.
pub enum BridgeInput {
    Filled(Seq<u8>),
    Written,
    Failed,
}

/// What a bridge does, as a value of the model.
pub enum BridgeOutput {
    ReadRequest(nat),
    WriteRequest(Seq<u8>),
    ReadReply(nat),
    WriteReply(Seq<u8>),
    Stop,
}

impl View for BridgeStage {
    type V = BridgeState;

    open spec fn view(&self) -> BridgeState {
        match self {
            BridgeStage::ReadingRequest(reader) => BridgeState::ReadingRequest(reader@),
            BridgeStage::WritingRequest => BridgeState::WritingRequest,
            BridgeStage::ReadingReply(reader) => BridgeState::ReadingReply(reader@),
            BridgeStage::WritingReply => BridgeState::WritingReply,
            BridgeStage::Stopped => BridgeState::Stopped,
        }
    }
}

impl View for BridgeEvent {
    type V = BridgeInput;

    open spec fn view(&self) -> BridgeInput {
        match self {
            BridgeEvent::Filled(bytes) => BridgeInput::Filled(bytes@),
            BridgeEvent::Written => BridgeInput::Written,
            BridgeEvent::Failed => BridgeInput::Failed,
        }
    }
}

impl View for BridgeAction {
    type V = BridgeOutput;

    open spec fn view(&self) -> BridgeOutput {
        match self {
            BridgeAction::ReadRequest(n) => BridgeOutput::ReadRequest(*n as nat),
            BridgeAction::WriteRequest(message) => BridgeOutput::WriteRequest(message@),
            BridgeAction::ReadReply(n) => BridgeOutput::ReadReply(*n as nat),
            BridgeAction::WriteReply(message) => BridgeOutput::WriteReply(message@),
            BridgeAction::Stop => BridgeOutput::Stop,
        }
    }
}

/// Whether the input can come in this state: an exact read gives as many bytes
/// as it was asked for, or fails.
pub open spec fn bridge_expects(state: BridgeState, input: BridgeInput) -> bool {
    match state {
        BridgeState::ReadingRequest(view) | BridgeState::ReadingReply(view) => match input {
            BridgeInput::Filled(bytes) => bytes.len() == framing::frame_wants(view),
            BridgeInput::Written => false,
            BridgeInput::Failed => true,
        },
        BridgeState::WritingRequest | BridgeState::WritingReply => input !is Filled,
        BridgeState::Stopped => false,
    }
}

/// Where the bridge stands after the input, and what it does there.
pub open spec fn bridge_next(
    state: BridgeState,
    input: BridgeInput,
) -> (BridgeState, BridgeOutput) {
    match (state, input) {
        (BridgeState::ReadingRequest(view), BridgeInput::Filled(bytes)) =>
            match framing::frame_step(view, bytes) {
                FrameStep::More(next) => (
                    BridgeState::ReadingRequest(next),
                    BridgeOutput::ReadRequest(framing::frame_wants(next)),
                ),
                FrameStep::Done(message) => (
                    BridgeState::WritingRequest,
                    BridgeOutput::WriteRequest(message),
                ),
                FrameStep::TooLarge => (BridgeState::Stopped, BridgeOutput::Stop),
            },
        (BridgeState::WritingRequest, BridgeInput::Written) => (
            BridgeState::ReadingReply(FrameView::Header),
            BridgeOutput::ReadReply(HEADER_LEN as nat),
        ),
        (BridgeState::ReadingReply(view), BridgeInput::Filled(bytes)) =>
            match framing::frame_step(view, bytes) {
                FrameStep::More(next) => (
                    BridgeState::ReadingReply(next),
                    BridgeOutput::ReadReply(framing::frame_wants(next)),
                ),
                FrameStep::Done(message) => (
                    BridgeState::WritingReply,
                    BridgeOutput::WriteReply(message),
                ),
                FrameStep::TooLarge => (BridgeState::Stopped, BridgeOutput::Stop),
            },
        (BridgeState::WritingReply, BridgeInput::Written) => (
            BridgeState::ReadingRequest(FrameView::Header),
            BridgeOutput::ReadRequest(HEADER_LEN as nat),
        ),
        _ => (BridgeState::Stopped, BridgeOutput::Stop),
    }
}

/// Drives one pipe to an agent, one request and one reply at a time.
#[derive(Debug, PartialEq, Eq)]
pub struct AgentBridge {
    pub stage: BridgeStage,
}

impl AgentBridge {
    /// A bridge on a pipe that was just opened, and its first action.
    pub fn new() -> (start: (AgentBridge, BridgeAction))
        ensures
            start.0.stage@ == BridgeState::ReadingRequest(FrameView::Header),
            start.1@ == BridgeOutput::ReadRequest(HEADER_LEN as nat),
            start.0.stage matches BridgeStage::ReadingRequest(reader) && reader@
                == FrameView::Header,
            start.1 matches BridgeAction::ReadRequest(n) && n == HEADER_LEN,
    {
        (
            AgentBridge { stage: BridgeStage::ReadingRequest(FrameReader::new()) },
            BridgeAction::ReadRequest(HEADER_LEN),
        )
    }

    /// Takes what happened to the last action and says which one comes next.
    pub fn step(self, event: BridgeEvent) -> (next: (AgentBridge, BridgeAction))
        requires
            bridge_expects(self.stage@, event@),
        ensures
            (next.0.stage@, next.1@) == bridge_next(self.stage@, event@),
            match (self.stage, event) {
                (BridgeStage::ReadingRequest(reader), BridgeEvent::Filled(bytes)) => match reader@ {
                    FrameView::Header => if framing::be32(bytes@) > MAX_MSG_LEN {
                        next.0.stage is Stopped && next.1 is Stop
                    } else {
                        &&& next.0.stage matches BridgeStage::ReadingRequest(rest) && rest@ == (
                        FrameView::Body { header: bytes@ })
                        &&& next.1 matches BridgeAction::ReadRequest(n) && n == framing::be32(
                            bytes@,
                        )
                    },
                    FrameView::Body { header } => {
                        &&& next.0.stage is WritingRequest
                        &&& next.1 matches BridgeAction::WriteRequest(message) && message@ == header
                            + bytes@
                    },
                },
                (BridgeStage::WritingRequest, BridgeEvent::Written) => {
                    &&& next.0.stage matches BridgeStage::ReadingReply(reader) && reader@
                        == FrameView::Header
                    &&& next.1 matches BridgeAction::ReadReply(n) && n == HEADER_LEN
                },
                (BridgeStage::ReadingReply(reader), BridgeEvent::Filled(bytes)) => match reader@ {
                    FrameView::Header => if framing::be32(bytes@) > MAX_MSG_LEN {
                        next.0.stage is Stopped && next.1 is Stop
                    } else {
                        &&& next.0.stage matches BridgeStage::ReadingReply(rest) && rest@ == (
                        FrameView::Body { header: bytes@ })
                        &&& next.1 matches BridgeAction::ReadReply(n) && n == framing::be32(bytes@)
                    },
                    FrameView::Body { header } => {
                        &&& next.0.stage is WritingReply
                        &&& next.1 matches BridgeAction::WriteReply(message) && message@ == header
                            + bytes@
                    },
                },
                (BridgeStage::WritingReply, BridgeEvent::Written) => {
                    &&& next.0.stage matches BridgeStage::ReadingRequest(reader) && reader@
                        == FrameView::Header
                    &&& next.1 matches BridgeAction::ReadRequest(n) && n == HEADER_LEN
                },
                _ => next.0.stage is Stopped && next.1 is Stop,
            },
    {
        match (self.stage, event) {
            (BridgeStage::ReadingRequest(reader), BridgeEvent::Filled(bytes)) => {
                match reader.supply(bytes) {
                    Ok(FrameProgress::More(reader)) => {
                        let wanted: usize = reader.wanted();
                        (
                            AgentBridge { stage: BridgeStage::ReadingRequest(reader) },
                            BridgeAction::ReadRequest(wanted),
                        )
                    },
                    Ok(FrameProgress::Done(message)) => (
                        AgentBridge { stage: BridgeStage::WritingRequest },
                        BridgeAction::WriteRequest(message),
                    ),
                    Err(_) => (AgentBridge { stage: BridgeStage::Stopped }, BridgeAction::Stop),
                }
            },
            (BridgeStage::WritingRequest, BridgeEvent::Written) => (
                AgentBridge { stage: BridgeStage::ReadingReply(FrameReader::new()) },
                BridgeAction::ReadReply(HEADER_LEN),
            ),
            (BridgeStage::ReadingReply(reader), BridgeEvent::Filled(bytes)) => {
                match reader.supply(bytes) {
                    Ok(FrameProgress::More(reader)) => {
                        let wanted: usize = reader.wanted();
                        (
                            AgentBridge { stage: BridgeStage::ReadingReply(reader) },
                            BridgeAction::ReadReply(wanted),
                        )
                    },
                    Ok(FrameProgress::Done(message)) => (
                        AgentBridge { stage: BridgeStage::WritingReply },
                        BridgeAction::WriteReply(message),
                    ),
                    Err(_) => (AgentBridge { stage: BridgeStage::Stopped }, BridgeAction::Stop),
                }
            },
            (BridgeStage::WritingReply, BridgeEvent::Written) => (
                AgentBridge { stage: BridgeStage::ReadingRequest(FrameReader::new()) },
                BridgeAction::ReadRequest(HEADER_LEN),
            ),
            _ => (AgentBridge { stage: BridgeStage::Stopped }, BridgeAction::Stop),
        }
    }
}

} // verus!
