//! The framing of ssh-agent messages.
//!
//! Each message is a big-endian `u32` length followed by that many bytes. A
//! [`FrameReader`] reads one message from a stream in two exact reads: first
//! the length, then the rest.

use vstd::prelude::*;

verus! {

/// The longest message body that is read. It guards against an over-large
/// allocation from a corrupt length field.
pub const MAX_MSG_LEN: usize = 256 * 1024;

/// The number of bytes of the length field.
pub const HEADER_LEN: usize = 4;

/// The number that four bytes stand for, the most significant byte first.
pub open spec fn be32(bytes: Seq<u8>) -> nat {
    (bytes[0] * 0x100_0000 + bytes[1] * 0x1_0000 + bytes[2] * 0x100 + bytes[3]) as nat
}

/// The four bytes that stand for a number, the most significant byte first.
pub open spec fn be32_bytes(n: nat) -> Seq<u8> {
    seq![
        (n / 0x100_0000) as u8,
        (n / 0x1_0000 % 0x100) as u8,
        (n / 0x100 % 0x100) as u8,
        (n % 0x100) as u8,
    ]
}

/// A message body behind its length.
pub open spec fn framed(body: Seq<u8>) -> Seq<u8> {
    be32_bytes(body.len()) + body
}

/// Whether these bytes are exactly one message, of a length that is read.
pub open spec fn is_frame(bytes: Seq<u8>) -> bool {
    &&& bytes.len() >= HEADER_LEN
    &&& be32(bytes) <= MAX_MSG_LEN
    &&& bytes.len() == HEADER_LEN + be32(bytes)
}

/// Why a message is not read.
#[derive(Clone, Copy, Debug, PartialEq, Eq, Structural)]
pub enum FrameError {
    /// The length field is over [`MAX_MSG_LEN`].
    TooLarge,
}

impl FrameError {
    /// The error in words.
    pub fn message(&self) -> (text: &'static str)
        ensures
            text@ == "ssh-agent message too large"@,
    {
        "ssh-agent message too large"
    }
}

/// How far a message has been read, as a value of the model.
pub enum FrameView {
    Header,
    Body { header: Seq<u8> },
}

/// What an exact read leads to, as a value of the model.
pub enum FrameStep {
    More(FrameView),
    Done(Seq<u8>),
    TooLarge,
}

/// The number of bytes that the next exact read takes.
pub open spec fn frame_wants(view: FrameView) -> nat {
    match view {
        FrameView::Header => HEADER_LEN as nat,
        FrameView::Body { header } => be32(header),
    }
}

/// What the bytes of the next exact read lead to.
pub open spec fn frame_step(view: FrameView, bytes: Seq<u8>) -> FrameStep {
    match view {
        FrameView::Header => if be32(bytes) > MAX_MSG_LEN {
            FrameStep::TooLarge
        } else {
            FrameStep::More(FrameView::Body { header: bytes })
        },
        FrameView::Body { header } => FrameStep::Done(header + bytes),
    }
}

/// Reads one message from a stream, in exact reads that the caller makes.
#[derive(Debug, PartialEq, Eq)]
pub struct FrameReader {
    header: Option<Vec<u8>>,
}

/// Where an exact read led to.
#[derive(Debug, PartialEq, Eq)]
pub enum FrameProgress {
    /// The message goes on.
    More(FrameReader),
    /// The whole message, with its length field.
    Done(Vec<u8>),
}

impl View for FrameReader {
    type V = FrameView;

    closed spec fn view(&self) -> FrameView {
        match self.header {
            None => FrameView::Header,
            Some(header) => FrameView::Body { header: header@ },
        }
    }
}

/// The model of what [`FrameReader::supply`] returns.
pub open spec fn progress_view(progress: Result<FrameProgress, FrameError>) -> FrameStep {
    match progress {
        Ok(FrameProgress::More(reader)) => FrameStep::More(reader@),
        Ok(FrameProgress::Done(message)) => FrameStep::Done(message@),
        Err(FrameError::TooLarge) => FrameStep::TooLarge,
    }
}

impl FrameReader {
    #[verifier::type_invariant]
    closed spec fn well_formed(self) -> bool {
        self.header matches Some(header) ==> {
            &&& header@.len() == HEADER_LEN
            &&& be32(header@) <= MAX_MSG_LEN
        }
    }

    /// A reader at the start of a message.
    pub fn new() -> (reader: FrameReader)
        ensures
            reader@ == FrameView::Header,
    {
        FrameReader { header: None }
    }

    /// The number of bytes that the next exact read takes.
    pub fn wanted(&self) -> (n: usize)
        ensures
            n == frame_wants(self@),
            match self@ {
                FrameView::Header => n == HEADER_LEN,
                FrameView::Body { header } => n == be32(header),
            },
    {
        proof {
            use_type_invariant(self);
        }
        match &self.header {
            None => HEADER_LEN,
            Some(header) => read_be32(header) as usize,
        }
    }

    /// Takes the bytes of the next exact read.
    pub fn supply(self, bytes: Vec<u8>) -> (progress: Result<FrameProgress, FrameError>)
        requires
            bytes@.len() == frame_wants(self@),
        ensures
            progress_view(progress) == frame_step(self@, bytes@),
            match self@ {
                FrameView::Header => if be32(bytes@) > MAX_MSG_LEN {
                    progress matches Err(FrameError::TooLarge)
                } else {
                    progress matches Ok(FrameProgress::More(reader)) && reader@ == (
                    FrameView::Body { header: bytes@ })
                },
                FrameView::Body { header } => progress matches Ok(FrameProgress::Done(message))
                    && message@ == header + bytes@,
            },
    {
        match self.header {
            None => {
                if read_be32(&bytes) as usize > MAX_MSG_LEN {
                    Err(FrameError::TooLarge)
                } else {
                    Ok(FrameProgress::More(FrameReader { header: Some(bytes) }))
                }
            },
            Some(header) => {
                let ghost whole = header@ + bytes@;
                let mut message = header;
                let mut rest = bytes;
                message.append(&mut rest);
                assert(message@ =~= whole);
                Ok(FrameProgress::Done(message))
            },
        }
    }
}

/// Reads the length field of a message.
pub fn read_be32(bytes: &Vec<u8>) -> (n: u32)
    requires
        bytes@.len() >= HEADER_LEN,
    ensures
        n == be32(bytes@),
        n == bytes@[0] * 0x100_0000 + bytes@[1] * 0x1_0000 + bytes@[2] * 0x100 + bytes@[3],
{
    bytes[0] as u32 * 0x100_0000 + bytes[1] as u32 * 0x1_0000 + bytes[2] as u32 * 0x100
        + bytes[3] as u32
}

} // verus!
