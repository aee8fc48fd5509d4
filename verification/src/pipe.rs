//! The two tasks of one tunneled connection.
//!
//! The reader task pumps local bytes onto the tunnel, one acknowledged chunk at
//! a time, and signals the end of the connection. The writer task drains the
//! chunks that arrive to the local socket, and acknowledges each one when its
//! write has ended, so that a slow socket holds back the other end's reads.
//! Both are written as machines: `step` takes what happened to the last action
//! and says which action comes next.

use vstd::prelude::*;

use crate::connections::{Connections, Pending};
use crate::proto::{ForwardSshAgentClose, ForwardSshAgentData, TunnelMessage};
use crate::sink::{open_channel, ConnectionSource};
use crate::waiting;
use crate::waiting::Answer;

verus! {

/// Read chunk size for pumping socket bytes onto the tunnel.
pub const CHUNK_SIZE: usize = 16 * 1024;

/// One tunneled connection: its two tasks, and the receiver from which the
/// writer task takes its chunks.
pub struct Pipe {
    pub reader: ReaderTask,
    pub writer: WriterTask,
    pub source: ConnectionSource,
}

impl Pipe {
    /// Whether both tasks are at their start, and requests wait for the writer
    /// task in `lane`.
    pub open spec fn is_fresh(self, connection_id: u64, lane: u64) -> bool {
        &&& self.reader == (ReaderTask { connection_id, state: ReaderState::Reading })
        &&& self.writer == (WriterTask { lane, state: WriterState::Receiving })
    }

    /// Whether the connection feeds this pipe's receiver, and no other.
    pub open spec fn is_fed<R>(self, connection_id: u64, connections: &Connections<R>) -> bool {
        forall|source: ConnectionSource| #[trigger]
            connections.feeds(connection_id, source) <==> source == self.source
    }
}

/// Starts the work of one tunneled connection, with a fresh sink registered
/// under `connection_id`.
pub fn pipe<R>(connection_id: u64, connections: &mut Connections<R>) -> (pipe: Pipe)
    ensures
        pipe.is_fresh(connection_id, old(connections).pending().lanes.next_lane),
        pipe.reader.connection_id == connection_id,
        pipe.reader.state is Reading,
        pipe.writer.state is Receiving,
        final(connections).pending().lane_of.contains_key(connection_id),
        pipe.writer.lane == final(connections).pending().lane_of[connection_id],
        final(connections).pending().lanes.queues.contains_key(pipe.writer.lane),
        final(connections).pending().lanes.queues[pipe.writer.lane] == Seq::<R>::empty(),
        forall|source: ConnectionSource| #[trigger]
            final(connections).feeds(connection_id, source) <==> source == pipe.source,
        final(connections)@ == old(connections)@.insert(connection_id, Seq::<Seq<u8>>::empty()),
        final(connections).accepted() == old(connections).accepted().insert(
            connection_id,
            Seq::<Seq<u8>>::empty(),
        ),
        final(connections).pending() == old(connections).pending().opened(connection_id),
        pipe.is_fed(connection_id, final(connections)),
        final(connections).others_feed_as(old(connections), connection_id),
{
    let (sink, source) = open_channel();
    let lane: u64 = connections.insert(connection_id, sink);
    Pipe {
        reader: ReaderTask { connection_id, state: ReaderState::Reading },
        writer: WriterTask { lane, state: WriterState::Receiving },
        source,
    }
}

/// Where a reader task stands.
#[derive(Clone, Copy, Debug, PartialEq, Eq, Structural)]
pub enum ReaderState {
    /// A read of the local socket is under way.
    Reading,
    /// A chunk was sent, and its acknowledgement is awaited.
    Sending,
    /// The end was signalled, and the answer is awaited.
    Closing,
    /// Nothing is left to do.
    Finished,
}

/// What a reader task is told.
#[derive(Clone, Copy, Debug, PartialEq, Eq, Structural)]
pub enum ReaderEvent {
    /// The read put this many bytes at the start of the buffer.
    Read(usize),
    /// The read failed.
    ReadFailed,
    /// The request was acknowledged (`true`), or it failed.
    Answered(bool),
}

/// What a reader task does next.
#[derive(Debug, PartialEq, Eq)]
pub enum ReaderAction {
    /// Read the local socket into the buffer.
    Read,
    /// Send a chunk to the other end.
    Send(ForwardSshAgentData),
    /// Tell the other end that the connection is over.
    Close(ForwardSshAgentClose),
    /// End the task.
    Finish,
}

/// What happened to a reader task, as a value of the model.
pub enum ReaderInput {
    Bytes(Seq<u8>),
    Failed,
    Answer(bool),
}

/// What the event means, given the buffer that the read went to.
pub open spec fn reader_input(event: ReaderEvent, buffer: Seq<u8>) -> ReaderInput {
    match event {
        ReaderEvent::Read(n) => ReaderInput::Bytes(buffer.take(n as int)),
        ReaderEvent::ReadFailed => ReaderInput::Failed,
        ReaderEvent::Answered(ok) => ReaderInput::Answer(ok),
    }
}

/// Whether the input can come in this state: reads end while reading, answers
/// come to requests.
pub open spec fn reader_expects(state: ReaderState, input: ReaderInput) -> bool {
    match state {
        ReaderState::Reading => input !is Answer,
        ReaderState::Sending | ReaderState::Closing => input is Answer,
        ReaderState::Finished => false,
    }
}

/// Where the task stands after the input: a non-empty read is sent, an
/// acknowledged chunk is followed by the next read, and an empty read, a failed
/// read or a failed request ends the connection.
pub open spec fn reader_next(state: ReaderState, input: ReaderInput) -> ReaderState {
    match (state, input) {
        (ReaderState::Reading, ReaderInput::Bytes(bytes)) if bytes.len() > 0 => ReaderState::Sending,
        (ReaderState::Sending, ReaderInput::Answer(true)) => ReaderState::Reading,
        (ReaderState::Closing, _) => ReaderState::Finished,
        _ => ReaderState::Closing,
    }
}

/// The message that the task sends on the input: the bytes just read, or the
/// end of the connection on reaching it.
pub open spec fn reader_sends(
    connection_id: u64,
    state: ReaderState,
    input: ReaderInput,
) -> Option<TunnelMessage> {
    match reader_next(state, input) {
        ReaderState::Sending => Some(
            TunnelMessage::Data { connection_id, payload: input->Bytes_0 },
        ),
        ReaderState::Closing => Some(TunnelMessage::Close { connection_id }),
        _ => None,
    }
}

impl ReaderAction {
    /// The message that the action sends.
    pub open spec fn message(self) -> Option<TunnelMessage> {
        match self {
            ReaderAction::Send(data) => Some(data@),
            ReaderAction::Close(close) => Some(close@),
            _ => None,
        }
    }

    /// Whether the action is the one that the state stands for.
    pub open spec fn suits(self, state: ReaderState) -> bool {
        match state {
            ReaderState::Reading => self is Read,
            ReaderState::Sending => self is Send,
            ReaderState::Closing => self is Close,
            ReaderState::Finished => self is Finish,
        }
    }
}

/// The task that pumps a connection's local bytes onto the tunnel.
#[derive(Clone, Copy, Debug, PartialEq, Eq, Structural)]
pub struct ReaderTask {
    pub connection_id: u64,
    pub state: ReaderState,
}

impl ReaderTask {
    /// The buffer that the task reads into.
    pub fn buffer() -> (buffer: Vec<u8>)
        ensures
            buffer@ == Seq::new(CHUNK_SIZE as nat, |i: int| 0u8),
    {
        let buffer = vec![0u8; CHUNK_SIZE];
        assert(buffer@ =~= Seq::new(CHUNK_SIZE as nat, |i: int| 0u8));
        buffer
    }

    /// Takes what happened to the last action and says which one comes next.
    /// On reaching the end the connection leaves the table.
    pub fn step<R>(
        &mut self,
        event: ReaderEvent,
        buffer: &Vec<u8>,
        connections: &mut Connections<R>,
    ) -> (action: ReaderAction)
        requires
            reader_expects(old(self).state, reader_input(event, buffer@)),
            event matches ReaderEvent::Read(n) ==> n <= buffer.len(),
        ensures
            final(self).connection_id == old(self).connection_id,
            match (old(self).state, event) {
                (ReaderState::Reading, ReaderEvent::Read(n)) if n > 0 => {
                    &&& final(self).state is Sending
                    &&& action matches ReaderAction::Send(data) && {
                        &&& data.connection_id == old(self).connection_id
                        &&& data.payload@ == buffer@.subrange(0, n as int)
                    }
                },
                (ReaderState::Sending, ReaderEvent::Answered(true)) => {
                    &&& final(self).state is Reading
                    &&& action is Read
                },
                (ReaderState::Closing, _) => {
                    &&& final(self).state is Finished
                    &&& action is Finish
                },
                _ => {
                    &&& final(self).state is Closing
                    &&& action matches ReaderAction::Close(close) && close.connection_id == old(
                        self,
                    ).connection_id
                },
            },
            final(self).state == reader_next(old(self).state, reader_input(event, buffer@)),
            action.suits(final(self).state),
            action.message() == reader_sends(
                old(self).connection_id,
                old(self).state,
                reader_input(event, buffer@),
            ),
            final(self).state is Closing ==> {
                &&& final(connections)@ == old(connections)@.remove(old(self).connection_id)
                &&& final(connections).accepted() == old(connections).accepted().remove(
                    old(self).connection_id,
                )
                &&& final(connections).pending() == old(connections).pending().closed(
                    old(self).connection_id,
                )
                &&& forall|source: ConnectionSource|
                    !#[trigger] final(connections).feeds(old(self).connection_id, source)
                &&& final(connections).others_feed_as(old(connections), old(self).connection_id)
            },
            final(self).state !is Closing ==> *final(connections) == *old(connections),
    {
        match (self.state, event) {
            (ReaderState::Reading, ReaderEvent::Read(n)) if n > 0 => {
                self.state = ReaderState::Sending;
                let mut payload: Vec<u8> = Vec::new();
                payload.extend_from_slice(vstd::slice::slice_subrange(buffer.as_slice(), 0, n));
                assert(payload@ =~= buffer@.take(n as int));
                ReaderAction::Send(
                    ForwardSshAgentData { connection_id: self.connection_id, payload },
                )
            },
            (ReaderState::Sending, ReaderEvent::Answered(true)) => {
                self.state = ReaderState::Reading;
                ReaderAction::Read
            },
            (ReaderState::Closing, _) => {
                self.state = ReaderState::Finished;
                ReaderAction::Finish
            },
            _ => {
                self.state = ReaderState::Closing;
                connections.remove(self.connection_id);
                ReaderAction::Close(ForwardSshAgentClose { connection_id: self.connection_id })
            },
        }
    }
}

/// Where a writer task stands.
#[derive(Clone, Copy, Debug, PartialEq, Eq, Structural)]
pub enum WriterState {
    /// The next chunk is awaited.
    Receiving,
    /// A chunk is being written.
    Writing,
    /// The local socket is being closed.
    Closing,
    /// Nothing is left to do.
    Finished,
}

/// What a writer task is told.
#[derive(Debug, PartialEq, Eq)]
pub enum WriterEvent {
    /// The receiver yielded a chunk, or its end.
    Received(Option<Vec<u8>>),
    /// The whole chunk was written (`true`), or the write failed.
    Written(bool),
    /// The close returned, with or without an error.
    Closed,
}

/// What a writer task does next.
#[derive(Debug, PartialEq, Eq)]
pub enum WriterAction {
    /// Await the next chunk.
    Receive,
    /// Write the whole chunk to the local socket.
    Write(Vec<u8>),
    /// Close the local socket.
    Close,
    /// End the task.
    Finish,
}

/// What happened to a writer task, as a value of the model.
pub enum WriterInput {
    Chunk(Seq<u8>),
    End,
    Written(bool),
    Closed,
}

impl View for WriterEvent {
    type V = WriterInput;

    open spec fn view(&self) -> WriterInput {
        match self {
            WriterEvent::Received(Some(chunk)) => WriterInput::Chunk(chunk@),
            WriterEvent::Received(None) => WriterInput::End,
            WriterEvent::Written(ok) => WriterInput::Written(*ok),
            WriterEvent::Closed => WriterInput::Closed,
        }
    }
}

/// Whether the input can come in this state.
pub open spec fn writer_expects(state: WriterState, input: WriterInput) -> bool {
    match state {
        WriterState::Receiving => input is Chunk || input is End,
        WriterState::Writing => input is Written,
        WriterState::Closing => input is Closed,
        WriterState::Finished => false,
    }
}

/// Where the task stands after the input: a chunk is written, a written chunk
/// is followed by the next one, and the end of the chunks or a failed write
/// closes the socket.
pub open spec fn writer_next(state: WriterState, input: WriterInput) -> WriterState {
    match (state, input) {
        (WriterState::Receiving, WriterInput::Chunk(_)) => WriterState::Writing,
        (WriterState::Writing, WriterInput::Written(true)) => WriterState::Receiving,
        (WriterState::Closing, _) => WriterState::Finished,
        _ => WriterState::Closing,
    }
}

/// The chunk that the task writes on the input: the one just received.
pub open spec fn writer_writes(state: WriterState, input: WriterInput) -> Option<Seq<u8>> {
    match writer_next(state, input) {
        WriterState::Writing => Some(input->Chunk_0),
        _ => None,
    }
}

/// Whether the input settles a chunk: its write has ended, well or not.
pub open spec fn writer_settles(state: WriterState, input: WriterInput) -> bool {
    state is Writing && input is Written
}

/// The requests that are answered on the input, of those that wait for the
/// task: the oldest one when its chunk was written, and all of them when the
/// task writes no more.
pub open spec fn writer_answers<R>(
    pending: Pending<R>,
    lane: u64,
    state: WriterState,
    input: WriterInput,
) -> Seq<R> {
    if writer_next(state, input) is Closing {
        pending.lanes.in_lane(lane)
    } else if writer_settles(state, input) {
        pending.lanes.oldest(lane)
    } else {
        Seq::empty()
    }
}

/// The requests that are without an answer after the input.
pub open spec fn writer_leaves<R>(
    pending: Pending<R>,
    lane: u64,
    state: WriterState,
    input: WriterInput,
) -> Pending<R> {
    if writer_next(state, input) is Closing {
        pending.ended(lane)
    } else if writer_settles(state, input) {
        pending.settled(lane)
    } else {
        pending
    }
}

impl WriterAction {
    /// The chunk that the action writes.
    pub open spec fn chunk(self) -> Option<Seq<u8>> {
        match self {
            WriterAction::Write(chunk) => Some(chunk@),
            _ => None,
        }
    }

    /// Whether the action is the one that the state stands for.
    pub open spec fn suits(self, state: WriterState) -> bool {
        match state {
            WriterState::Receiving => self is Receive,
            WriterState::Writing => self is Write,
            WriterState::Closing => self is Close,
            WriterState::Finished => self is Finish,
        }
    }
}

/// The task that drains a connection's arriving chunks to the local socket.
#[derive(Clone, Copy, Debug, PartialEq, Eq, Structural)]
pub struct WriterTask {
    /// The lane in which requests wait.
    pub lane: u64,
    pub state: WriterState,
}

impl WriterTask {
    /// Takes what happened to the last action and says which one comes next,
    /// with the answers to the requests that need not wait any longer.
    pub fn step<R>(&mut self, event: WriterEvent, connections: &mut Connections<R>) -> (next: (
        WriterAction,
        Vec<Answer<R>>,
    ))
        requires
            writer_expects(old(self).state, event@),
        ensures
            final(self).lane == old(self).lane,
            match (old(self).state, event) {
                (WriterState::Receiving, WriterEvent::Received(Some(chunk))) => {
                    &&& final(self).state is Writing
                    &&& next.0 matches WriterAction::Write(bytes) && bytes@ == chunk@
                    &&& next.1@.len() == 0
                    &&& final(connections).pending() == old(connections).pending()
                },
                (WriterState::Writing, WriterEvent::Written(true)) => {
                    let before = old(connections).pending().lanes.queues;
                    let after = final(connections).pending().lanes.queues;
                    let lane = old(self).lane;
                    &&& final(self).state is Receiving
                    &&& next.0 is Receive
                    &&& before.contains_key(lane) && before[lane].len() > 0 ==> {
                        &&& next.1@.len() == 1
                        &&& next.1@[0].reply == before[lane][0]
                        &&& after == before.insert(
                            lane,
                            before[lane].subrange(1, before[lane].len() as int),
                        )
                    }
                    &&& !before.contains_key(lane) || before[lane].len() == 0 ==> {
                        &&& next.1@.len() == 0
                        &&& after == before
                    }
                },
                (WriterState::Closing, _) => {
                    &&& final(self).state is Finished
                    &&& next.0 is Finish
                    &&& next.1@.len() == 0
                    &&& final(connections).pending() == old(connections).pending()
                },
                _ => {
                    let before = old(connections).pending().lanes.queues;
                    let lane = old(self).lane;
                    &&& final(self).state is Closing
                    &&& next.0 is Close
                    &&& before.contains_key(lane) ==> {
                        &&& next.1@.len() == before[lane].len()
                        &&& forall|i: int|
                            0 <= i < next.1@.len() ==> (#[trigger] next.1@[i]).reply
                                == before[lane][i]
                    }
                    &&& !before.contains_key(lane) ==> next.1@.len() == 0
                    &&& final(connections).pending().lanes.queues == before.remove(lane)
                },
            },
            final(connections).pending().lane_of == old(connections).pending().lane_of,
            final(connections).pending().lanes.next_lane == old(
                connections,
            ).pending().lanes.next_lane,
            final(self).state == writer_next(old(self).state, event@),
            next.0.suits(final(self).state),
            next.0.chunk() == writer_writes(old(self).state, event@),
            waiting::replies(next.1@) == writer_answers(
                old(connections).pending(),
                old(self).lane,
                old(self).state,
                event@,
            ),
            final(connections).pending() == writer_leaves(
                old(connections).pending(),
                old(self).lane,
                old(self).state,
                event@,
            ),
            final(connections)@ == old(connections)@,
            final(connections).accepted() == old(connections).accepted(),
            final(connections).feeds_as(old(connections)),
    {
        match (self.state, event) {
            (WriterState::Receiving, WriterEvent::Received(Some(chunk))) => {
                self.state = WriterState::Writing;
                let answers: Vec<Answer<R>> = Vec::new();
                assert(waiting::replies(answers@) =~= Seq::<R>::empty());
                (WriterAction::Write(chunk), answers)
            },
            (WriterState::Writing, WriterEvent::Written(true)) => {
                self.state = WriterState::Receiving;
                let ghost queue = connections.pending().lanes.in_lane(self.lane);
                let answers = connections.settle(self.lane);
                assert(waiting::replies(answers@).len() == answers@.len());
                assert(answers@.len() > 0 ==> waiting::replies(answers@)[0] == answers@[0].reply);
                assert(queue.len() > 0 ==> queue.skip(1) =~= queue.subrange(
                    1,
                    queue.len() as int,
                ));
                (WriterAction::Receive, answers)
            },
            (WriterState::Closing, _) => {
                self.state = WriterState::Finished;
                let answers: Vec<Answer<R>> = Vec::new();
                assert(waiting::replies(answers@) =~= Seq::<R>::empty());
                (WriterAction::Finish, answers)
            },
            _ => {
                self.state = WriterState::Closing;
                let answers = connections.end(self.lane);
                assert(waiting::replies(answers@).len() == answers@.len());
                assert(forall|i: int|
                    0 <= i < answers@.len() ==> waiting::replies(answers@)[i]
                        == (#[trigger] answers@[i]).reply);
                (WriterAction::Close, answers)
            },
        }
    }
}

} // verus!
