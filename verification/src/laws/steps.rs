//! Laws of single steps: what one event, one chunk or one request comes to.

use vstd::prelude::*;

use crate::connections;
use crate::connections::{Connections, Pending, Table};
use crate::laws::tunnel;
use crate::pipe;
use crate::pipe::{
    Pipe, ReaderEvent, ReaderInput, ReaderState, WriterEvent, WriterInput, WriterState,
};
use crate::proto::{ForwardSshAgentClose, ForwardSshAgentData, RequestKind, TunnelMessage};
use crate::proxy::{ProxyView, SshAgentProxy};
use crate::sink::ConnectionSource;
use crate::waiting;
use crate::waiting::{Answer, LanesView};

verus! {

/// A read of `n` bytes gives exactly the first `n` bytes of the buffer.
pub proof fn law_read_gives_the_start_of_the_buffer(n: usize, buffer: Seq<u8>)
    requires
        n <= buffer.len(),
    ensures
        pipe::reader_input(ReaderEvent::Read(n), buffer) matches ReaderInput::Bytes(bytes) && {
            &&& bytes.len() == n
            &&& forall|i: int| 0 <= i < n ==> bytes[i] == buffer[i]
        },
{
}

/// What a reader task is told is what happened: a failed read, or the answer to
/// its request.
pub proof fn law_failures_and_answers_are_told(ok: bool, buffer: Seq<u8>)
    ensures
        pipe::reader_input(ReaderEvent::ReadFailed, buffer) is Failed,
        pipe::reader_input(ReaderEvent::Answered(ok), buffer) matches ReaderInput::Answer(told)
            && told == ok,
{
}

/// A reading task that read something sends it under its connection's id: as
/// many bytes as were read, each one as it stands in the buffer.
pub proof fn law_reader_sends_every_byte_that_it_reads(
    connection_id: u64,
    n: usize,
    buffer: Seq<u8>,
)
    requires
        0 < n <= buffer.len(),
    ensures
        ({
            let input = pipe::reader_input(ReaderEvent::Read(n), buffer);
            &&& pipe::reader_expects(ReaderState::Reading, input)
            &&& pipe::reader_next(ReaderState::Reading, input) is Sending
            &&& pipe::reader_sends(
                connection_id,
                ReaderState::Reading,
                input,
            ) matches Some(TunnelMessage::Data { connection_id: id, payload }) && {
                &&& id == connection_id
                &&& payload.len() == n
                &&& forall|i: int| 0 <= i < n ==> payload[i] == buffer[i]
            }
        }),
{
}

/// The bytes that reads put into the buffer, one after the other.
pub open spec fn bytes_read(events: Seq<(ReaderEvent, Seq<u8>)>) -> Seq<u8>
    decreases events.len(),
{
    if events.len() == 0 {
        Seq::empty()
    } else {
        let earlier = bytes_read(events.drop_last());
        match events.last().0 {
            ReaderEvent::Read(n) => earlier + Seq::new(n as nat, |i: int| events.last().1[i]),
            _ => earlier,
        }
    }
}

/// The bytes that messages carry, one after the other.
pub open spec fn bytes_sent(messages: Seq<TunnelMessage>) -> Seq<u8>
    decreases messages.len(),
{
    if messages.len() == 0 {
        Seq::empty()
    } else {
        let earlier = bytes_sent(messages.drop_last());
        match messages.last() {
            TunnelMessage::Data { payload, .. } => earlier + payload,
            TunnelMessage::Close { .. } => earlier,
        }
    }
}

/// Byte by byte a reader task pumps all that it reads, in order and unchanged:
/// the bytes that its messages carry are those that the reads put into the
/// buffer. Every message has the id of its connection.
pub proof fn law_reader_pumps_byte_by_byte(
    connection_id: u64,
    events: Seq<(ReaderEvent, Seq<u8>)>,
)
    requires
        tunnel::reader_can(connection_id, tunnel::as_inputs(events)),
        forall|i: int|
            0 <= i < events.len() ==> ((#[trigger] events[i]).0 matches ReaderEvent::Read(n) ==> n
                <= events[i].1.len()),
    ensures
        bytes_sent(tunnel::reader_run(connection_id, tunnel::as_inputs(events)).sent) == bytes_read(
            events,
        ),
        forall|i: int|
            0 <= i < tunnel::reader_run(connection_id, tunnel::as_inputs(events)).sent.len()
                ==> match #[trigger] tunnel::reader_run(
                connection_id,
                tunnel::as_inputs(events),
            ).sent[i] {
                TunnelMessage::Data { connection_id: id, .. } => id == connection_id,
                TunnelMessage::Close { connection_id: id } => id == connection_id,
            },
    decreases events.len(),
{
    let inputs = tunnel::as_inputs(events);
    if events.len() > 0 {
        let earlier = events.drop_last();
        assert(inputs.drop_last() =~= tunnel::as_inputs(earlier));
        assert(forall|i: int| 0 <= i < earlier.len() ==> earlier[i] == events[i]);
        law_reader_pumps_byte_by_byte(connection_id, earlier);
        let before = tunnel::reader_run(connection_id, tunnel::as_inputs(earlier));
        let trace = tunnel::reader_run(connection_id, inputs);
        let (event, buffer) = events.last();
        assert(events.last() == events[events.len() - 1]);
        assert(inputs.last() == pipe::reader_input(event, buffer));
        if trace.sent.len() > before.sent.len() {
            assert(trace.sent.drop_last() =~= before.sent);
        }
        if let ReaderEvent::Read(n) = event {
            let fresh = Seq::new(n as nat, |i: int| buffer[i]);
            law_read_gives_the_start_of_the_buffer(n, buffer);
            assert(inputs.last()->Bytes_0 =~= fresh);
            if n == 0 {
                assert(bytes_read(earlier) + fresh =~= bytes_read(earlier));
            }
        }
    }
}

/// Whether an input ends a reader task's connection.
pub open spec fn ends_reading(input: ReaderInput) -> bool {
    match input {
        ReaderInput::Bytes(bytes) => bytes.len() == 0,
        ReaderInput::Failed => true,
        ReaderInput::Answer(ok) => !ok,
    }
}

/// A reader task ends its connection on an empty read, a failed read or a failed
/// request, and on nothing else. Until then it sends what it has just read, and
/// reads on when that was acknowledged.
pub proof fn law_reader_goes_on_unless_there_is_cause(
    connection_id: u64,
    inputs: Seq<ReaderInput>,
)
    requires
        tunnel::reader_can(connection_id, inputs),
    ensures
        ({
            let state = tunnel::reader_run(connection_id, inputs).state;
            let ended = exists|i: int| 0 <= i < inputs.len() && ends_reading(#[trigger] inputs[i]);
            &&& ended <==> state is Closing || state is Finished
            &&& !ended ==> {
                &&& state is Sending <==> inputs.len() > 0 && inputs.last() is Bytes
                &&& state is Reading <==> inputs.len() == 0 || inputs.last() is Answer
            }
            &&& state is Closing ==> !(exists|i: int|
                0 <= i < inputs.len() - 1 && ends_reading(#[trigger] inputs[i]))
        }),
    decreases inputs.len(),
{
    if inputs.len() > 0 {
        let earlier = inputs.drop_last();
        law_reader_goes_on_unless_there_is_cause(connection_id, earlier);
        assert(inputs.last() == inputs[inputs.len() - 1]);
        assert(forall|i: int| 0 <= i < earlier.len() ==> earlier[i] == inputs[i]);
        if exists|i: int| 0 <= i < earlier.len() && ends_reading(#[trigger] earlier[i]) {
            let i = choose|i: int| 0 <= i < earlier.len() && ends_reading(#[trigger] earlier[i]);
            assert(ends_reading(inputs[i]));
        }
        if exists|i: int| 0 <= i < inputs.len() && ends_reading(#[trigger] inputs[i]) {
            let i = choose|i: int| 0 <= i < inputs.len() && ends_reading(#[trigger] inputs[i]);
            assert(i < earlier.len() ==> ends_reading(earlier[i]));
        }
    }
}

/// A reader task can be told of every read while it reads, of every answer while
/// it awaits one, and of nothing else.
pub proof fn law_reader_can_be_told(bytes: Seq<u8>, ok: bool)
    ensures
        pipe::reader_expects(ReaderState::Reading, ReaderInput::Bytes(bytes)),
        pipe::reader_expects(ReaderState::Reading, ReaderInput::Failed),
        !pipe::reader_expects(ReaderState::Reading, ReaderInput::Answer(ok)),
        forall|state: ReaderState|
            state is Sending || state is Closing ==> {
                &&& #[trigger] pipe::reader_expects(state, ReaderInput::Answer(ok))
                &&& !pipe::reader_expects(state, ReaderInput::Bytes(bytes))
                &&& !pipe::reader_expects(state, ReaderInput::Failed)
            },
        forall|input: ReaderInput| !#[trigger] pipe::reader_expects(ReaderState::Finished, input),
{
}

/// A fresh pipe reads and sends under the id that it was opened with, and
/// answers in the lane that it was given.
pub proof fn law_fresh_pipe_has_its_id_and_lane(pipe: Pipe, connection_id: u64, lane: u64)
    ensures
        pipe.is_fresh(connection_id, lane) <==> {
            &&& pipe.reader.connection_id == connection_id
            &&& pipe.reader.state is Reading
            &&& pipe.writer.lane == lane
            &&& pipe.writer.state is Receiving
        },
{
}

/// Whatever happens to the reader task of a fresh pipe, each of its messages has
/// the id that the pipe was opened with: other connections are not touched.
pub proof fn law_fresh_pipe_sends_under_its_id(
    pipe: Pipe,
    connection_id: u64,
    lane: u64,
    inputs: Seq<ReaderInput>,
)
    requires
        pipe.is_fresh(connection_id, lane),
        tunnel::reader_can(pipe.reader.connection_id, inputs),
    ensures
        forall|i: int|
            0 <= i < tunnel::reader_run(pipe.reader.connection_id, inputs).sent.len()
                ==> match #[trigger] tunnel::reader_run(
                pipe.reader.connection_id,
                inputs,
            ).sent[i] {
                TunnelMessage::Data { connection_id: id, .. } => id == connection_id,
                TunnelMessage::Close { connection_id: id } => id == connection_id,
            },
    decreases inputs.len(),
{
    if inputs.len() > 0 {
        law_fresh_pipe_sends_under_its_id(pipe, connection_id, lane, inputs.drop_last());
    }
}

/// A connection that feeds a pipe feeds that pipe's receiver and no other.
pub proof fn law_fed_pipe_is_the_only_one<R>(
    pipe: Pipe,
    connection_id: u64,
    connections: Connections<R>,
    source: ConnectionSource,
)
    requires
        pipe.is_fed(connection_id, &connections),
    ensures
        connections.feeds(connection_id, source) <==> source == pipe.source,
{
}

/// The request that brings the first chunk of a freshly piped connection is
/// answered by that pipe's writer task, and by nobody else before: when the chunk
/// was written, and when the write fails or the chunks end. `before` and `after`
/// are the connections around [`crate::pipe::pipe`].
pub proof fn law_first_request_of_a_pipe_is_answered<R>(
    before: Connections<R>,
    after: Connections<R>,
    pipe: Pipe,
    connection_id: u64,
    reply: R,
)
    requires
        pipe.is_fresh(connection_id, before.pending().lanes.next_lane),
        after.pending() == before.pending().opened(connection_id),
    ensures
        ({
            let lane = pipe.writer.lane;
            let asked = after.pending().asked(connection_id, true, reply);
            let written = WriterInput::Written(true);
            let failed = WriterInput::Written(false);
            &&& lane == after.pending().lane_of[connection_id]
            &&& after.pending().waits(connection_id, true)
            &&& pipe::writer_answers(asked, lane, WriterState::Writing, written) == seq![reply]
            &&& pipe::writer_answers(asked, lane, WriterState::Writing, failed) == seq![reply]
            &&& pipe::writer_answers(asked, lane, WriterState::Receiving, WriterInput::End)
                == seq![reply]
            &&& pipe::writer_leaves(
                asked,
                lane,
                WriterState::Writing,
                written,
            ).lanes.queues[lane].len() == 0
        }),
{
    let asked = after.pending().asked(connection_id, true, reply);
    let queue = asked.lanes.queues[pipe.writer.lane];
    assert(queue =~= seq![reply]);
    assert(queue.take(1) =~= seq![reply]);
}

/// A writer task is told of exactly what its receiver yielded, and of how its
/// write ended.
pub proof fn law_writer_is_told_what_happened(chunk: Vec<u8>, ok: bool)
    ensures
        WriterEvent::Received(Some(chunk))@ matches WriterInput::Chunk(bytes) && bytes == chunk@,
        WriterEvent::Received(None)@ is End,
        WriterEvent::Written(ok)@ matches WriterInput::Written(told) && told == ok,
        WriterEvent::Closed@ is Closed,
{
}

/// A writer task writes each chunk that it receives whole: as many bytes as the
/// chunk has, each one as it stands there.
pub proof fn law_writer_writes_every_byte_that_it_receives(chunk: Seq<u8>)
    ensures
        pipe::writer_expects(WriterState::Receiving, WriterInput::Chunk(chunk)),
        pipe::writer_next(WriterState::Receiving, WriterInput::Chunk(chunk)) is Writing,
        pipe::writer_writes(
            WriterState::Receiving,
            WriterInput::Chunk(chunk),
        ) matches Some(bytes) && {
            &&& bytes.len() == chunk.len()
            &&& forall|i: int| 0 <= i < chunk.len() ==> bytes[i] == chunk[i]
        },
{
}

/// A writer task closes its socket when the chunks end or a write fails, and on
/// nothing else. Until then it writes what it has just received, and receives on
/// when that was written.
pub proof fn law_writer_goes_on_unless_there_is_cause(inputs: Seq<WriterInput>)
    requires
        tunnel::writer_can(inputs),
        !inputs.contains(WriterInput::End),
        !inputs.contains(WriterInput::Written(false)),
    ensures
        ({
            let state = tunnel::writer_run(inputs).state;
            &&& state is Writing <==> inputs.len() > 0 && inputs.last() is Chunk
            &&& state is Receiving <==> inputs.len() == 0 || inputs.last() is Written
            &&& state is Writing || state is Receiving
        }),
    decreases inputs.len(),
{
    if inputs.len() > 0 {
        let earlier = inputs.drop_last();
        assert(forall|input: WriterInput| #[trigger]
            earlier.contains(input) ==> inputs.contains(input)) by {
            assert forall|input: WriterInput| #[trigger] earlier.contains(input) implies
                inputs.contains(input) by {
                let i = choose|i: int| 0 <= i < earlier.len() && earlier[i] == input;
                assert(inputs[i] == input);
            }
        }
        assert(inputs.contains(inputs.last()));
        law_writer_goes_on_unless_there_is_cause(earlier);
    }
}

/// A writer task can be told of every chunk and of their end while it receives,
/// of the end of a write while it writes, of a close while it closes, and of
/// nothing else.
pub proof fn law_writer_can_be_told(chunk: Seq<u8>, ok: bool)
    ensures
        forall|state: WriterState| #[trigger]
            pipe::writer_expects(state, WriterInput::Chunk(chunk)) <==> state is Receiving,
        forall|state: WriterState| #[trigger]
            pipe::writer_expects(state, WriterInput::End) <==> state is Receiving,
        forall|state: WriterState| #[trigger]
            pipe::writer_expects(state, WriterInput::Written(ok)) <==> state is Writing,
        forall|state: WriterState| #[trigger]
            pipe::writer_expects(state, WriterInput::Closed) <==> state is Closing,
{
}

/// A writer task settles the requests of its lane and of no other. A chunk that
/// was written settles the oldest one and leaves the rest, in order. The end of
/// the chunks and a failed write settle all of them, and the lane is gone. A
/// chunk that is received settles none.
pub proof fn law_writer_settles_its_own_requests<R>(
    pending: Pending<R>,
    lane: u64,
    first: R,
    rest: Seq<R>,
    chunk: Seq<u8>,
    other: u64,
)
    requires
        pending.lanes.queues.contains_key(lane),
        pending.lanes.queues[lane] == seq![first] + rest,
        other != lane,
    ensures
        ({
            let written = WriterInput::Written(true);
            let failed = WriterInput::Written(false);
            let taken = WriterInput::Chunk(chunk);
            let end = WriterInput::End;
            let left = pipe::writer_leaves(pending, lane, WriterState::Writing, written);
            let gone = pipe::writer_leaves(pending, lane, WriterState::Writing, failed);
            &&& pipe::writer_answers(pending, lane, WriterState::Writing, written) == seq![first]
            &&& left.lanes.queues.contains_key(lane)
            &&& left.lanes.queues[lane] == rest
            &&& pipe::writer_answers(pending, lane, WriterState::Writing, failed) == seq![first]
                + rest
            &&& pipe::writer_answers(pending, lane, WriterState::Receiving, end) == seq![first]
                + rest
            &&& !gone.lanes.queues.contains_key(lane)
            &&& pipe::writer_leaves(pending, lane, WriterState::Receiving, end) == gone
            &&& pipe::writer_answers(pending, lane, WriterState::Receiving, taken).len() == 0
            &&& pipe::writer_leaves(pending, lane, WriterState::Receiving, taken) == pending
            &&& left.lane_of == pending.lane_of && gone.lane_of == pending.lane_of
            &&& left.lanes.next_lane == pending.lanes.next_lane
            &&& gone.lanes.next_lane == pending.lanes.next_lane
            &&& left.lanes.in_lane(other) == pending.lanes.in_lane(other)
            &&& gone.lanes.in_lane(other) == pending.lanes.in_lane(other)
            &&& left.lanes.queues.contains_key(other) == pending.lanes.queues.contains_key(other)
            &&& gone.lanes.queues.contains_key(other) == pending.lanes.queues.contains_key(other)
        }),
{
    let queue = pending.lanes.queues[lane];
    assert(queue.take(1) =~= seq![first]);
    assert(queue.skip(1) =~= rest);
}

/// A chunk lands behind what its connection holds, whole, and touches no other
/// connection. A chunk for a connection that is not open lands nowhere.
pub proof fn law_chunk_lands_with_its_connection(
    table: Table,
    connection_id: u64,
    chunk: Seq<u8>,
    other: u64,
)
    requires
        other != connection_id,
    ensures
        ({
            let after = connections::with_chunk(table, connection_id, chunk);
            &&& after.contains_key(connection_id) <==> table.contains_key(connection_id)
            &&& table.contains_key(connection_id) ==> {
                &&& after[connection_id].len() == table[connection_id].len() + 1
                &&& after[connection_id].last() == chunk
                &&& after[connection_id].drop_last() == table[connection_id]
            }
            &&& !table.contains_key(connection_id) ==> after == table
            &&& after.contains_key(other) <==> table.contains_key(other)
            &&& table.contains_key(other) ==> after[other] == table[other]
        }),
{
    assert(table[connection_id].push(chunk).drop_last() =~= table[connection_id]);
}

/// A connection that is opened has a lane of its own, in which nothing waits. Its
/// first chunk will wait there if the channel takes it. No other connection's
/// lane changes, nor does any other lane.
pub proof fn law_opened_connection_has_an_empty_lane<R>(
    pending: Pending<R>,
    connection_id: u64,
    other: u64,
    lane: u64,
)
    requires
        other != connection_id,
        lane != pending.lanes.next_lane,
    ensures
        ({
            let after = pending.opened(connection_id);
            &&& after.lane_of.contains_key(connection_id)
            &&& after.lane_of[connection_id] == pending.lanes.next_lane
            &&& after.is_written(connection_id)
            &&& after.lanes.in_lane(after.lane_of[connection_id]).len() == 0
            &&& after.lanes.next_lane == (pending.lanes.next_lane + 1) % 0x1_0000_0000_0000_0000
            &&& after.lane_of.contains_key(other) <==> pending.lane_of.contains_key(other)
            &&& pending.lane_of.contains_key(other) ==> after.lane_of[other]
                == pending.lane_of[other]
            &&& after.lanes.queues.contains_key(lane) <==> pending.lanes.queues.contains_key(lane)
            &&& after.lanes.in_lane(lane) == pending.lanes.in_lane(lane)
        }),
{
}

/// A request waits if and only if its connection has a lane that is there and the
/// channel took the chunk. It then stands last in that lane. Otherwise nothing
/// changes. No other lane changes.
pub proof fn law_request_waits_for_a_taken_chunk<R>(
    pending: Pending<R>,
    connection_id: u64,
    taken: bool,
    reply: R,
    lane: u64,
)
    ensures
        ({
            let own = pending.lane_of[connection_id];
            let after = pending.asked(connection_id, taken, reply);
            let at_work = pending.lane_of.contains_key(connection_id)
                && pending.lanes.queues.contains_key(own);
            &&& pending.is_written(connection_id) <==> at_work
            &&& pending.waits(connection_id, taken) <==> at_work && taken
            &&& at_work && taken ==> {
                &&& after.lanes.in_lane(own).len() == pending.lanes.in_lane(own).len() + 1
                &&& after.lanes.in_lane(own).last() == reply
                &&& after.lanes.in_lane(own).drop_last() == pending.lanes.in_lane(own)
            }
            &&& !(at_work && taken) ==> after == pending
            &&& lane != own ==> after.lanes.in_lane(lane) == pending.lanes.in_lane(lane)
            &&& after.lanes.queues.dom() == pending.lanes.queues.dom()
            &&& after.lanes.next_lane == pending.lanes.next_lane
            &&& after.lane_of == pending.lane_of
        }),
{
    let own = pending.lane_of[connection_id];
    let after = pending.asked(connection_id, taken, reply);
    if pending.waits(connection_id, taken) {
        let queue = pending.lanes.queues[own];
        assert(queue.push(reply).drop_last() =~= queue);
        assert(after.lanes.queues.dom() =~= pending.lanes.queues.dom());
    }
}

/// Closing a connection takes its lane from it and from no other, and leaves what
/// waits in the lanes.
pub proof fn law_closed_connection_leaves_what_waits<R>(
    pending: Pending<R>,
    connection_id: u64,
    other: u64,
)
    requires
        other != connection_id,
    ensures
        ({
            let after = pending.closed(connection_id);
            &&& !after.lane_of.contains_key(connection_id)
            &&& !after.is_written(connection_id)
            &&& after.lane_of.contains_key(other) <==> pending.lane_of.contains_key(other)
            &&& pending.lane_of.contains_key(other) ==> after.lane_of[other]
                == pending.lane_of[other]
            &&& after.lanes == pending.lanes
        }),
{
}

/// Answering in a lane leaves every other lane, and every connection's lane.
pub proof fn law_answers_stay_in_their_lane<R>(pending: Pending<R>, lane: u64, other: u64)
    requires
        other != lane,
    ensures
        pending.settled(lane).lane_of == pending.lane_of,
        pending.ended(lane).lane_of == pending.lane_of,
        pending.settled(lane).lanes.queues.dom() == pending.lanes.queues.dom(),
        pending.ended(lane).lanes.queues.dom() == pending.lanes.queues.dom().remove(lane),
        pending.settled(lane).lanes.in_lane(other) == pending.lanes.in_lane(other),
        pending.ended(lane).lanes.in_lane(other) == pending.lanes.in_lane(other),
        pending.settled(lane).lanes.next_lane == pending.lanes.next_lane,
        pending.ended(lane).lanes.next_lane == pending.lanes.next_lane,
        pending.lanes.oldest(lane) + pending.settled(lane).lanes.in_lane(lane)
            == pending.lanes.in_lane(lane),
        pending.ended(lane).lanes.in_lane(lane).len() == 0,
{
    let queue = pending.lanes.in_lane(lane);
    assert(pending.settled(lane).lanes.queues.dom() =~= pending.lanes.queues.dom());
    assert(pending.lanes.oldest(lane) + pending.settled(lane).lanes.in_lane(lane) =~= queue);
}

/// A lane is first in, first out. A request that joins it stands behind all
/// others: it is the oldest only where none waits. Taking out the oldest, which
/// is at most one, leaves the rest in order. Other lanes are not touched.
pub proof fn law_lane_is_first_in_first_out<R>(
    lanes: LanesView<R>,
    lane: u64,
    reply: R,
    other: u64,
)
    requires
        lanes.queues.contains_key(lane),
        other != lane,
    ensures
        ({
            let joined = lanes.joined(lane, reply);
            &&& joined.in_lane(lane) == lanes.in_lane(lane) + seq![reply]
            &&& joined.oldest(lane) == if lanes.in_lane(lane).len() == 0 {
                seq![reply]
            } else {
                lanes.oldest(lane)
            }
            &&& lanes.oldest(lane) + lanes.without_oldest(lane).in_lane(lane) == lanes.in_lane(lane)
            &&& lanes.oldest(lane).len() == if lanes.in_lane(lane).len() == 0 {
                0nat
            } else {
                1nat
            }
            &&& lanes.without(lane).in_lane(lane).len() == 0
            &&& !lanes.without(lane).queues.contains_key(lane)
            &&& joined.in_lane(other) == lanes.in_lane(other)
            &&& lanes.without_oldest(lane).in_lane(other) == lanes.in_lane(other)
            &&& lanes.without(lane).in_lane(other) == lanes.in_lane(other)
            &&& joined.queues.dom() == lanes.queues.dom()
            &&& lanes.without_oldest(lane).queues.dom() == lanes.queues.dom()
            &&& lanes.without(lane).queues.dom() == lanes.queues.dom().remove(lane)
        }),
{
    let joined = lanes.joined(lane, reply);
    let queue = lanes.in_lane(lane);
    assert(joined.in_lane(lane) =~= queue + seq![reply]);
    if queue.len() == 0 {
        assert(joined.oldest(lane) =~= seq![reply]);
    } else {
        assert(joined.oldest(lane) =~= lanes.oldest(lane));
    }
    assert(lanes.oldest(lane) + lanes.without_oldest(lane).in_lane(lane) =~= queue);
    assert(joined.queues.dom() =~= lanes.queues.dom());
    assert(lanes.without_oldest(lane).queues.dom() =~= lanes.queues.dom());
}

/// In a lane that is not there nothing waits, and nothing can be taken out.
pub proof fn law_missing_lane_is_empty<R>(lanes: LanesView<R>, lane: u64)
    requires
        !lanes.queues.contains_key(lane),
    ensures
        lanes.in_lane(lane).len() == 0,
        lanes.oldest(lane).len() == 0,
        lanes.without_oldest(lane) == lanes,
        lanes.without(lane) == lanes,
{
    assert(lanes.without(lane) =~= lanes);
}

/// At first there are no lanes, and nothing waits. A new lane is empty, and no
/// other lane changes. Lanes are numbered from zero on.
pub proof fn law_new_lane_is_empty<R>(lanes: LanesView<R>, other: u64)
    requires
        other != lanes.next_lane,
    ensures
        LanesView::<R>::empty().queues.dom() == Set::<u64>::empty(),
        LanesView::<R>::empty().next_lane == 0,
        Pending::<R>::empty().lane_of.dom() == Set::<u64>::empty(),
        Pending::<R>::empty().lanes == LanesView::<R>::empty(),
        lanes.added().queues.contains_key(lanes.next_lane),
        lanes.added().in_lane(lanes.next_lane).len() == 0,
        lanes.added().next_lane == (lanes.next_lane + 1) % 0x1_0000_0000_0000_0000,
        lanes.added().queues.contains_key(other) <==> lanes.queues.contains_key(other),
        lanes.added().in_lane(other) == lanes.in_lane(other),
{
    assert(LanesView::<R>::empty().queues.dom() =~= Set::<u64>::empty());
    assert(Pending::<R>::empty().lane_of.dom() =~= Set::<u64>::empty());
}

/// Each answer goes to one place, in the order of the answers.
pub proof fn law_each_answer_has_its_place<R>(answers: Seq<Answer<R>>, answer: Answer<R>)
    ensures
        waiting::replies(answers).len() == answers.len(),
        forall|i: int|
            0 <= i < answers.len() ==> waiting::replies(answers)[i] == (#[trigger]
            answers[i]).reply,
        waiting::replies(answers.push(answer)) == waiting::replies(answers).push(answer.reply),
{
    assert(waiting::replies(answers.push(answer)) =~= waiting::replies(answers).push(
        answer.reply,
    ));
}

/// A chunk that a channel took is the last that it took. Nothing else was taken.
pub proof fn law_taken_chunk_is_the_last<R>(
    before: Connections<R>,
    after: Connections<R>,
    connection_id: u64,
    chunk: Seq<u8>,
    other: u64,
)
    requires
        after.has_taken(&before, connection_id, chunk),
        other != connection_id,
    ensures
        before.accepted().contains_key(connection_id),
        after.accepted().dom() == before.accepted().dom(),
        after.accepted()[connection_id] == before.accepted()[connection_id] + seq![chunk],
        before.accepted().contains_key(other) ==> after.accepted()[other]
            == before.accepted()[other],
{
    assert(after.accepted().dom() =~= before.accepted().dom());
    assert(after.accepted()[connection_id] =~= before.accepted()[connection_id] + seq![chunk]);
}

/// What changes one connection leaves every other connection's receiver, and what
/// changes none leaves all.
pub proof fn law_receivers_are_kept<R>(
    before: Connections<R>,
    after: Connections<R>,
    connection_id: u64,
    other: u64,
    source: ConnectionSource,
)
    ensures
        after.others_feed_as(&before, connection_id) && other != connection_id ==> after.feeds(
            other,
            source,
        ) == before.feeds(other, source),
        after.feeds_as(&before) ==> after.feeds(other, source) == before.feeds(other, source),
{
}

/// A message of the model has the id and the bytes of the message that it stands
/// for.
pub proof fn law_message_is_its_fields(data: ForwardSshAgentData, close: ForwardSshAgentClose)
    ensures
        data@ matches TunnelMessage::Data { connection_id, payload } && {
            &&& connection_id == data.connection_id
            &&& payload == data.payload@
        },
        data@.id() == data.connection_id,
        close@ matches TunnelMessage::Close { connection_id } && connection_id
            == close.connection_id,
        close@.id() == close.connection_id,
{
}

/// The model of a proxy is the model of its fields.
pub proof fn law_proxy_is_its_fields<C, R>(proxy: SshAgentProxy<C, R>)
    ensures
        proxy@.connections == proxy.connections@,
        proxy@.next_connection_id == proxy.next_connection_id,
        proxy@.is_host <==> proxy.agent_connector is Some,
{
}

/// Opening, receiving and closing change one connection of a proxy: an opened one
/// is there with nothing queued, a chunk is queued last, a closed one is gone.
/// The others, the next id and the role stay.
pub proof fn law_proxy_changes_one_connection(
    view: ProxyView,
    connection_id: u64,
    chunk: Seq<u8>,
    other: u64,
)
    requires
        other != connection_id,
    ensures
        ({
            let opened = view.opened(connection_id);
            let received = view.received(connection_id, chunk);
            let closed = view.closed(connection_id);
            &&& opened.connections.contains_key(connection_id)
            &&& opened.connections[connection_id].len() == 0
            &&& received.connections.contains_key(connection_id) <==> view.connections.contains_key(
                connection_id,
            )
            &&& view.connections.contains_key(connection_id)
                ==> received.connections[connection_id] == view.connections[connection_id]
                + seq![chunk]
            &&& !closed.connections.contains_key(connection_id)
            &&& forall|after: ProxyView|
                after == opened || after == received || after == closed ==> {
                    &&& after.is_host == view.is_host
                    &&& after.next_connection_id == view.next_connection_id
                    &&& #[trigger] after.connections.contains_key(other)
                        <==> view.connections.contains_key(other)
                    &&& view.connections.contains_key(other) ==> after.connections[other]
                        == view.connections[other]
                }
        }),
{
    if view.connections.contains_key(connection_id) {
        let queue = view.connections[connection_id];
        assert(queue.push(chunk) =~= queue + seq![chunk]);
    }
}

/// Both ends take data and closes. Only the host opens connections on request.
pub proof fn law_only_the_host_opens(view: ProxyView)
    ensures
        view.handles(RequestKind::Data),
        view.handles(RequestKind::Close),
        view.handles(RequestKind::Open) <==> view.is_host,
{
}

} // verus!
