//! Laws of the connections between the two ends.

use vstd::prelude::*;

use crate::connections;
use crate::connections::Table;
use crate::listener;
use crate::listener::{AcceptAction, AcceptEvent, AcceptState};
use crate::pipe;
use crate::pipe::{ReaderEvent, ReaderInput, ReaderState, WriterInput, WriterState};
use crate::proto::TunnelMessage;
use crate::proxy::ProxyView;

verus! {

/// What a reader task has done.
pub struct ReaderTrace {
    pub state: ReaderState,
    /// The messages sent to the other end, in order.
    pub sent: Seq<TunnelMessage>,
}

/// What a reader task has done after these inputs.
pub open spec fn reader_run(connection_id: u64, inputs: Seq<ReaderInput>) -> ReaderTrace
    decreases inputs.len(),
{
    if inputs.len() == 0 {
        ReaderTrace { state: ReaderState::Reading, sent: Seq::empty() }
    } else {
        let before = reader_run(connection_id, inputs.drop_last());
        ReaderTrace {
            state: pipe::reader_next(before.state, inputs.last()),
            sent: match pipe::reader_sends(connection_id, before.state, inputs.last()) {
                Some(message) => before.sent.push(message),
                None => before.sent,
            },
        }
    }
}

/// Whether each of the inputs can come where it comes.
pub open spec fn reader_can(connection_id: u64, inputs: Seq<ReaderInput>) -> bool
    decreases inputs.len(),
{
    inputs.len() > 0 ==> {
        &&& reader_can(connection_id, inputs.drop_last())
        &&& pipe::reader_expects(
            reader_run(connection_id, inputs.drop_last()).state,
            inputs.last(),
        )
    }
}

/// The chunks that were read from the local socket.
pub open spec fn chunks_read(inputs: Seq<ReaderInput>) -> Seq<Seq<u8>>
    decreases inputs.len(),
{
    if inputs.len() == 0 {
        Seq::empty()
    } else {
        match inputs.last() {
            ReaderInput::Bytes(bytes) if bytes.len() > 0 => chunks_read(inputs.drop_last()).push(
                bytes,
            ),
            _ => chunks_read(inputs.drop_last()),
        }
    }
}

/// The number of requests that were acknowledged.
pub open spec fn acknowledged(inputs: Seq<ReaderInput>) -> nat
    decreases inputs.len(),
{
    if inputs.len() == 0 {
        0
    } else {
        acknowledged(inputs.drop_last()) + if inputs.last() == ReaderInput::Answer(true) {
            1nat
        } else {
            0nat
        }
    }
}

/// Whether the reader task has signalled the end of its connection.
pub open spec fn has_ended(state: ReaderState) -> bool {
    state is Closing || state is Finished
}

/// The chunks as messages of a connection.
pub open spec fn as_data(connection_id: u64, chunks: Seq<Seq<u8>>) -> Seq<TunnelMessage> {
    chunks.map_values(|payload: Seq<u8>| TunnelMessage::Data { connection_id, payload })
}

/// A reader task sends exactly what it reads: one data message for each chunk,
/// in order and unchanged, and once the connection is over one close, after
/// which it sends nothing.
pub proof fn law_reader_sends_what_it_reads(connection_id: u64, inputs: Seq<ReaderInput>)
    requires
        reader_can(connection_id, inputs),
    ensures
        reader_run(connection_id, inputs).sent == as_data(connection_id, chunks_read(inputs))
            + if has_ended(reader_run(connection_id, inputs).state) {
            seq![TunnelMessage::Close { connection_id }]
        } else {
            seq![]
        },
    decreases inputs.len(),
{
    let trace = reader_run(connection_id, inputs);
    if inputs.len() == 0 {
        assert(trace.sent =~= as_data(connection_id, chunks_read(inputs)) + seq![]);
    } else {
        let earlier = inputs.drop_last();
        law_reader_sends_what_it_reads(connection_id, earlier);
        let end: Seq<TunnelMessage> = if has_ended(trace.state) {
            seq![TunnelMessage::Close { connection_id }]
        } else {
            seq![]
        };
        assert(trace.sent =~= as_data(connection_id, chunks_read(inputs)) + end);
    }
}

/// A reader task reads on only when every chunk that it sent was acknowledged,
/// so that at most one is ever without an answer.
pub proof fn law_one_chunk_in_flight(connection_id: u64, inputs: Seq<ReaderInput>)
    requires
        reader_can(connection_id, inputs),
        reader_run(connection_id, inputs).state !is Finished,
    ensures
        acknowledged(inputs) <= chunks_read(inputs).len() <= acknowledged(inputs) + 1,
        reader_run(connection_id, inputs).state is Reading ==> chunks_read(inputs).len()
            == acknowledged(inputs),
        reader_run(connection_id, inputs).state is Sending ==> chunks_read(inputs).len()
            == acknowledged(inputs) + 1,
    decreases inputs.len(),
{
    if inputs.len() > 0 {
        law_one_chunk_in_flight(connection_id, inputs.drop_last());
    }
}

/// What a writer task has done.
pub struct WriterTrace {
    pub state: WriterState,
    /// The chunks handed to the local socket, in order.
    pub written: Seq<Seq<u8>>,
    /// How many chunks were settled: their write has ended.
    pub settled: nat,
    /// How many times the local socket was closed.
    pub closes: nat,
}

/// What a writer task has done after these inputs.
pub open spec fn writer_run(inputs: Seq<WriterInput>) -> WriterTrace
    decreases inputs.len(),
{
    if inputs.len() == 0 {
        WriterTrace { state: WriterState::Receiving, written: Seq::empty(), settled: 0, closes: 0 }
    } else {
        let before = writer_run(inputs.drop_last());
        let state = pipe::writer_next(before.state, inputs.last());
        WriterTrace {
            state,
            written: match pipe::writer_writes(before.state, inputs.last()) {
                Some(chunk) => before.written.push(chunk),
                None => before.written,
            },
            settled: before.settled + if pipe::writer_settles(before.state, inputs.last()) {
                1nat
            } else {
                0nat
            },
            closes: before.closes + if state is Closing {
                1nat
            } else {
                0nat
            },
        }
    }
}

/// Whether each of the inputs can come where it comes.
pub open spec fn writer_can(inputs: Seq<WriterInput>) -> bool
    decreases inputs.len(),
{
    inputs.len() > 0 ==> {
        &&& writer_can(inputs.drop_last())
        &&& pipe::writer_expects(writer_run(inputs.drop_last()).state, inputs.last())
    }
}

/// The chunks that a writer task's receiver yielded.
pub open spec fn chunks_received(inputs: Seq<WriterInput>) -> Seq<Seq<u8>>
    decreases inputs.len(),
{
    if inputs.len() == 0 {
        Seq::empty()
    } else {
        match inputs.last() {
            WriterInput::Chunk(chunk) => chunks_received(inputs.drop_last()).push(chunk),
            _ => chunks_received(inputs.drop_last()),
        }
    }
}

/// The number of chunks that a writer task has settled.
pub open spec fn settled(inputs: Seq<WriterInput>) -> nat {
    writer_run(inputs).settled
}

/// A writer task writes exactly what it receives, in order and unchanged, and
/// settles each chunk before it receives the next. It closes the socket once,
/// when the chunks end or a write fails.
pub proof fn law_writer_writes_what_it_receives(inputs: Seq<WriterInput>)
    requires
        writer_can(inputs),
    ensures
        writer_run(inputs).written == chunks_received(inputs),
        chunks_received(inputs).len() == settled(inputs) + if writer_run(inputs).state is Writing {
            1nat
        } else {
            0nat
        },
        writer_run(inputs).closes == if inputs.contains(WriterInput::End) || inputs.contains(
            WriterInput::Written(false),
        ) {
            1nat
        } else {
            0nat
        },
        writer_run(inputs).closes == 1 <==> (writer_run(inputs).state is Closing || writer_run(
            inputs,
        ).state is Finished),
    decreases inputs.len(),
{
    if inputs.len() > 0 {
        let earlier = inputs.drop_last();
        let last = inputs.last();
        law_writer_writes_what_it_receives(earlier);
        assert(inputs =~= earlier.push(last));
        assert forall|input: WriterInput| #[trigger]
            inputs.contains(input) <==> earlier.contains(input) || input == last by {
            if earlier.contains(input) {
                let i = choose|i: int| 0 <= i < earlier.len() && earlier[i] == input;
                assert(inputs[i] == input);
            }
            if input == last {
                assert(inputs[earlier.len() as int] == input);
            }
            if inputs.contains(input) && input != last {
                let i = choose|i: int| 0 <= i < inputs.len() && inputs[i] == input;
                assert(earlier[i] == input);
            }
        }
    } else {
        assert(inputs =~= Seq::<WriterInput>::empty());
    }
}

/// What changes an end's table of connections.
pub enum Arrival {
    /// A connection is opened, with a fresh sink.
    Opened { connection_id: u64 },
    /// A message of the other end arrives.
    Message(TunnelMessage),
    /// A connection's local socket has come to its end.
    Ended { connection_id: u64 },
}

impl Arrival {
    /// The connection that the arrival belongs to.
    pub open spec fn id(self) -> u64 {
        match self {
            Arrival::Opened { connection_id } => connection_id,
            Arrival::Message(message) => message.id(),
            Arrival::Ended { connection_id } => connection_id,
        }
    }
}

/// The table after an arrival.
pub open spec fn arrive(table: Table, arrival: Arrival) -> Table {
    match arrival {
        Arrival::Opened { connection_id } => table.insert(connection_id, Seq::empty()),
        Arrival::Message(TunnelMessage::Data { connection_id, payload }) => connections::with_chunk(
            table,
            connection_id,
            payload,
        ),
        Arrival::Message(TunnelMessage::Close { connection_id }) => table.remove(connection_id),
        Arrival::Ended { connection_id } => table.remove(connection_id),
    }
}

/// The table after the arrivals, in order.
pub open spec fn arrive_all(table: Table, arrivals: Seq<Arrival>) -> Table
    decreases arrivals.len(),
{
    if arrivals.len() == 0 {
        table
    } else {
        arrive(arrive_all(table, arrivals.drop_last()), arrivals.last())
    }
}

/// The arrivals of one connection among those of others.
pub open spec fn own(connection_id: u64, arrivals: Seq<Arrival>) -> Seq<Arrival> {
    arrivals.filter(|arrival: Arrival| arrival.id() == connection_id)
}

/// The arrivals of messages.
pub open spec fn as_arrivals(messages: Seq<TunnelMessage>) -> Seq<Arrival> {
    messages.map_values(|message: TunnelMessage| Arrival::Message(message))
}

/// Each arrival is what a proxy does to its table: opening a connection,
/// handling a message, or ending a connection.
pub proof fn law_arrival_is_handling(view: ProxyView, arrival: Arrival)
    ensures
        arrive(view.connections, arrival) == match arrival {
            Arrival::Opened { connection_id } => view.opened(connection_id).connections,
            Arrival::Message(TunnelMessage::Data { connection_id, payload }) => view.received(
                connection_id,
                payload,
            ).connections,
            Arrival::Message(TunnelMessage::Close { connection_id }) => view.closed(
                connection_id,
            ).connections,
            Arrival::Ended { connection_id } => view.closed(connection_id).connections,
        },
{
}

/// Connections are independent: what an end holds of one connection depends on
/// that connection's arrivals alone, whatever arrives for others in between,
/// and whichever others are opened and closed meanwhile.
pub proof fn law_connections_are_independent(
    table: Table,
    connection_id: u64,
    arrivals: Seq<Arrival>,
)
    ensures
        ({
            let all = arrive_all(table, arrivals);
            let alone = arrive_all(table, own(connection_id, arrivals));
            &&& all.contains_key(connection_id) <==> alone.contains_key(connection_id)
            &&& all.contains_key(connection_id) ==> all[connection_id] == alone[connection_id]
        }),
    decreases arrivals.len(),
{
    reveal(Seq::filter);
    if arrivals.len() > 0 {
        let earlier = arrivals.drop_last();
        law_connections_are_independent(table, connection_id, earlier);
        let alone = own(connection_id, earlier);
        if arrivals.last().id() == connection_id {
            assert(own(connection_id, arrivals) =~= alone.push(arrivals.last()));
            assert(alone.push(arrivals.last()).drop_last() =~= alone);
        }
    }
}

/// Messages for a connection that is not open change nothing.
pub proof fn law_unknown_connection_is_ignored(
    table: Table,
    connection_id: u64,
    messages: Seq<TunnelMessage>,
)
    requires
        !table.contains_key(connection_id),
        forall|i: int|
            0 <= i < messages.len() ==> (#[trigger] messages[i]).id() == connection_id,
    ensures
        arrive_all(table, as_arrivals(messages)) == table,
    decreases messages.len(),
{
    if messages.len() > 0 {
        let earlier = messages.drop_last();
        law_unknown_connection_is_ignored(table, connection_id, earlier);
        assert(as_arrivals(messages).drop_last() =~= as_arrivals(earlier));
        assert(messages.last().id() == connection_id);
        assert(table.remove(connection_id) =~= table);
    }
}

/// Chunks queue up behind what a connection already holds, in order.
pub proof fn law_chunks_queue_in_order(table: Table, connection_id: u64, chunks: Seq<Seq<u8>>)
    requires
        table.contains_key(connection_id),
    ensures
        arrive_all(table, as_arrivals(as_data(connection_id, chunks))) == table.insert(
            connection_id,
            table[connection_id] + chunks,
        ),
    decreases chunks.len(),
{
    let arrivals = as_arrivals(as_data(connection_id, chunks));
    if chunks.len() == 0 {
        assert(table[connection_id] + chunks =~= table[connection_id]);
        assert(table.insert(connection_id, table[connection_id] + chunks) =~= table);
    } else {
        let earlier = chunks.drop_last();
        law_chunks_queue_in_order(table, connection_id, earlier);
        assert(arrivals.drop_last() =~= as_arrivals(as_data(connection_id, earlier)));
        assert((table[connection_id] + earlier).push(chunks.last()) =~= table[connection_id]
            + chunks);
        assert(arrive_all(table, arrivals) =~= table.insert(
            connection_id,
            table[connection_id] + chunks,
        ));
    }
}

/// A prefix of some chunks holds a prefix of their bytes.
proof fn lemma_prefix_flattens(chunks: Seq<Seq<u8>>, all: Seq<Seq<u8>>)
    requires
        chunks.is_prefix_of(all),
    ensures
        chunks.flatten().is_prefix_of(all.flatten()),
{
    assert(all =~= chunks + all.skip(chunks.len() as int));
    vstd::seq_lib::lemma_flatten_concat(chunks, all.skip(chunks.len() as int));
}

/// An end queues the chunks that arrived for a connection, in order, among the
/// arrivals of others.
proof fn lemma_arrived_chunks_are_queued(
    table: Table,
    connection_id: u64,
    arrivals: Seq<Arrival>,
    chunks: Seq<Seq<u8>>,
)
    requires
        table.contains_key(connection_id),
        table[connection_id] == Seq::<Seq<u8>>::empty(),
        own(connection_id, arrivals) == as_arrivals(as_data(connection_id, chunks)),
    ensures
        arrive_all(table, arrivals).contains_key(connection_id),
        arrive_all(table, arrivals)[connection_id] == chunks,
{
    law_connections_are_independent(table, connection_id, arrivals);
    law_chunks_queue_in_order(table, connection_id, chunks);
    assert(table[connection_id] + chunks =~= chunks);
}

/// The tunnel is byte-transparent. While a connection is open, the far end
/// queues for its writer task exactly the chunks that the near end read, in
/// order, whatever other connections do in between. The writer task writes a
/// prefix of the bytes that the near end read: all of them as soon as it has
/// received all chunks.
///
/// `far` is what happened to the writer task so far. Its channel takes chunks as
/// long as the task is at work, and is first in, first out, so that the chunks
/// that it received are a prefix of those queued.
pub proof fn law_tunnel_is_byte_transparent(
    connection_id: u64,
    near: Seq<ReaderInput>,
    table: Table,
    arrivals: Seq<Arrival>,
    far: Seq<WriterInput>,
)
    requires
        reader_can(connection_id, near),
        !has_ended(reader_run(connection_id, near).state),
        table.contains_key(connection_id),
        table[connection_id] == Seq::<Seq<u8>>::empty(),
        own(connection_id, arrivals) == as_arrivals(reader_run(connection_id, near).sent),
        writer_can(far),
        chunks_received(far).is_prefix_of(arrive_all(table, arrivals)[connection_id]),
    ensures
        arrive_all(table, arrivals).contains_key(connection_id),
        arrive_all(table, arrivals)[connection_id] == chunks_read(near),
        writer_run(far).written.flatten().is_prefix_of(chunks_read(near).flatten()),
        chunks_received(far).len() == chunks_read(near).len() ==> writer_run(far).written.flatten()
            == chunks_read(near).flatten(),
{
    let chunks = chunks_read(near);
    law_reader_sends_what_it_reads(connection_id, near);
    assert(reader_run(connection_id, near).sent =~= as_data(connection_id, chunks));
    lemma_arrived_chunks_are_queued(table, connection_id, arrivals, chunks);
    law_writer_writes_what_it_receives(far);
    lemma_prefix_flattens(chunks_received(far), chunks);
    if chunks_received(far).len() == chunks.len() {
        assert(chunks_received(far) =~= chunks);
    }
}

/// What arrives for a connection splits where the arrivals do.
proof fn lemma_own_splits(connection_id: u64, arrivals: Seq<Arrival>, at: int)
    requires
        0 <= at < arrivals.len(),
        arrivals[at].id() == connection_id,
    ensures
        own(connection_id, arrivals) == own(connection_id, arrivals.take(at)).push(arrivals[at])
            + own(connection_id, arrivals.skip(at + 1)),
{
    reveal(Seq::filter);
    let is_own = |arrival: Arrival| arrival.id() == connection_id;
    let upto = arrivals.take(at + 1);
    assert(arrivals =~= upto + arrivals.skip(at + 1));
    Seq::filter_distributes_over_add(upto, arrivals.skip(at + 1), is_own);
    assert(upto.drop_last() =~= arrivals.take(at));
    assert(own(connection_id, upto) =~= own(connection_id, arrivals.take(at)).push(arrivals[at]));
}

/// Where nothing arrives for a connection, nothing does in a part.
proof fn lemma_own_of_prefix(connection_id: u64, arrivals: Seq<Arrival>, n: int)
    requires
        0 <= n <= arrivals.len(),
        own(connection_id, arrivals) == Seq::<Arrival>::empty(),
    ensures
        own(connection_id, arrivals.take(n)) == Seq::<Arrival>::empty(),
{
    let is_own = |arrival: Arrival| arrival.id() == connection_id;
    assert(arrivals =~= arrivals.take(n) + arrivals.skip(n));
    Seq::filter_distributes_over_add(arrivals.take(n), arrivals.skip(n), is_own);
    let part = own(connection_id, arrivals.take(n));
    assert((part + own(connection_id, arrivals.skip(n))).len() == 0);
    assert(part =~= Seq::<Arrival>::empty());
}

/// The end of a connection reaches the other end, behind all of its bytes,
/// whatever other connections do in between. When the close arrives, the far end
/// has queued every chunk that the near end read. From then on the connection is
/// not on its table.
pub proof fn law_close_follows_all_chunks(
    connection_id: u64,
    near: Seq<ReaderInput>,
    table: Table,
    arrivals: Seq<Arrival>,
    at: int,
)
    requires
        reader_can(connection_id, near),
        has_ended(reader_run(connection_id, near).state),
        table.contains_key(connection_id),
        table[connection_id] == Seq::<Seq<u8>>::empty(),
        own(connection_id, arrivals) == as_arrivals(reader_run(connection_id, near).sent),
        0 <= at < arrivals.len(),
        arrivals[at] == Arrival::Message(TunnelMessage::Close { connection_id }),
    ensures
        arrive_all(table, arrivals.take(at)).contains_key(connection_id),
        arrive_all(table, arrivals.take(at))[connection_id] == chunks_read(near),
        forall|n: int|
            at < n <= arrivals.len() ==> !#[trigger] arrive_all(
                table,
                arrivals.take(n),
            ).contains_key(connection_id),
{
    let chunks = chunks_read(near);
    let all = own(connection_id, arrivals);
    let before = own(connection_id, arrivals.take(at));
    let close = arrivals[at];
    law_reader_sends_what_it_reads(connection_id, near);
    let data = as_arrivals(as_data(connection_id, chunks));
    assert(all =~= data.push(close));
    lemma_own_splits(connection_id, arrivals, at);
    assert(all[before.len() as int] == close);
    assert(before.len() == chunks.len()) by {
        if before.len() < chunks.len() {
            assert(data[before.len() as int] is Message);
            assert(all[before.len() as int] == data[before.len() as int]);
        }
    }
    assert(before =~= all.take(chunks.len() as int));
    assert(data =~= all.take(chunks.len() as int));
    let after = own(connection_id, arrivals.skip(at + 1));
    assert(after =~= Seq::<Arrival>::empty());
    lemma_arrived_chunks_are_queued(table, connection_id, arrivals.take(at), chunks);
    assert forall|n: int| at < n <= arrivals.len() implies !#[trigger] arrive_all(
        table,
        arrivals.take(n),
    ).contains_key(connection_id) by {
        let part = arrivals.take(n);
        lemma_own_splits(connection_id, part, at);
        assert(part.take(at) =~= arrivals.take(at));
        assert(part.skip(at + 1) =~= arrivals.skip(at + 1).take(n - at - 1));
        lemma_own_of_prefix(connection_id, arrivals.skip(at + 1), n - at - 1);
        assert(own(connection_id, part) =~= data.push(close));
        assert(data.push(close).drop_last() =~= data);
        law_connections_are_independent(table, connection_id, part);
    }
}

/// A connection that ended is written out. Once the far end's channel has
/// yielded all that was queued before the close, and its end, and no write
/// failed, the bytes written are all the bytes that the near end read, in order,
/// and the far socket was closed once, whatever other connections did meanwhile.
pub proof fn law_ended_connection_is_written_out(
    connection_id: u64,
    near: Seq<ReaderInput>,
    table: Table,
    arrivals: Seq<Arrival>,
    at: int,
    far: Seq<WriterInput>,
)
    requires
        reader_can(connection_id, near),
        has_ended(reader_run(connection_id, near).state),
        table.contains_key(connection_id),
        table[connection_id] == Seq::<Seq<u8>>::empty(),
        own(connection_id, arrivals) == as_arrivals(reader_run(connection_id, near).sent),
        0 <= at < arrivals.len(),
        arrivals[at] == Arrival::Message(TunnelMessage::Close { connection_id }),
        writer_can(far),
        far.contains(WriterInput::End),
        !far.contains(WriterInput::Written(false)),
        chunks_received(far) == arrive_all(table, arrivals.take(at))[connection_id],
    ensures
        writer_run(far).written == chunks_read(near),
        writer_run(far).written.flatten() == chunks_read(near).flatten(),
        settled(far) == chunks_read(near).len(),
        writer_run(far).closes == 1,
{
    law_close_follows_all_chunks(connection_id, near, table, arrivals, at);
    law_writer_writes_what_it_receives(far);
}

/// While a connection is open at the far end, the chunks queued there are the
/// first ones that the near end read: as many as have arrived.
pub proof fn law_open_connection_holds_first_chunks(
    connection_id: u64,
    near: Seq<ReaderInput>,
    table: Table,
    arrivals: Seq<Arrival>,
)
    requires
        reader_can(connection_id, near),
        table.contains_key(connection_id),
        table[connection_id] == Seq::<Seq<u8>>::empty(),
        own(connection_id, arrivals).is_prefix_of(
            as_arrivals(reader_run(connection_id, near).sent),
        ),
    ensures
        arrive_all(table, arrivals).contains_key(connection_id) ==> arrive_all(
            table,
            arrivals,
        )[connection_id] == chunks_read(near).take(own(connection_id, arrivals).len() as int)
            && own(connection_id, arrivals).len() <= chunks_read(near).len(),
{
    let chunks = chunks_read(near);
    let arrived = own(connection_id, arrivals);
    law_reader_sends_what_it_reads(connection_id, near);
    if arrived.len() <= chunks.len() {
        let part = chunks.take(arrived.len() as int);
        assert(arrived =~= as_arrivals(as_data(connection_id, part)));
        lemma_arrived_chunks_are_queued(table, connection_id, arrivals, part);
    } else {
        assert(arrived.last() == Arrival::Message(TunnelMessage::Close { connection_id }));
        law_connections_are_independent(table, connection_id, arrivals);
    }
}

/// Whether each read went into a buffer of [`pipe::CHUNK_SIZE`] bytes, and put
/// no more there than it holds.
pub open spec fn reads_fit(events: Seq<(ReaderEvent, Seq<u8>)>) -> bool {
    forall|i: int|
        0 <= i < events.len() ==> {
            &&& (#[trigger] events[i]).1.len() == pipe::CHUNK_SIZE
            &&& events[i].0 matches ReaderEvent::Read(n) ==> n <= pipe::CHUNK_SIZE
        }
}

/// What a reader task was told, each event with the buffer as it was then.
pub open spec fn as_inputs(events: Seq<(ReaderEvent, Seq<u8>)>) -> Seq<ReaderInput> {
    events.map_values(|event: (ReaderEvent, Seq<u8>)| pipe::reader_input(event.0, event.1))
}

/// No chunk is empty or larger than the buffer: a reader task sends payloads of
/// 1 up to [`pipe::CHUNK_SIZE`] bytes.
pub proof fn law_chunks_are_bounded(connection_id: u64, events: Seq<(ReaderEvent, Seq<u8>)>)
    requires
        reader_can(connection_id, as_inputs(events)),
        reads_fit(events),
    ensures
        forall|i: int|
            0 <= i < chunks_read(as_inputs(events)).len() ==> 1 <= (#[trigger] chunks_read(
                as_inputs(events),
            )[i]).len() <= pipe::CHUNK_SIZE,
        forall|i: int|
            0 <= i < reader_run(connection_id, as_inputs(events)).sent.len() ==> (
            #[trigger] reader_run(
                connection_id,
                as_inputs(events),
            ).sent[i] matches TunnelMessage::Data { payload, .. } ==> 1 <= payload.len()
                <= pipe::CHUNK_SIZE),
    decreases events.len(),
{
    let inputs = as_inputs(events);
    if events.len() > 0 {
        let earlier = events.drop_last();
        assert(inputs.drop_last() =~= as_inputs(earlier));
        assert(events.last() == events[events.len() - 1]);
        assert(forall|i: int| 0 <= i < earlier.len() ==> earlier[i] == events[i]);
        law_chunks_are_bounded(connection_id, earlier);
        assert(inputs.last() == pipe::reader_input(events.last().0, events.last().1));
        let read = chunks_read(as_inputs(earlier));
        assert(forall|i: int| 0 <= i < read.len() ==> chunks_read(inputs)[i] == read[i]);
    }
    law_reader_sends_what_it_reads(connection_id, inputs);
    let sent = reader_run(connection_id, inputs).sent;
    let chunks = chunks_read(inputs);
    assert forall|i: int| 0 <= i < sent.len() implies (
    #[trigger] sent[i] matches TunnelMessage::Data { payload, .. } ==> 1 <= payload.len()
        <= pipe::CHUNK_SIZE) by {
        if i < chunks.len() {
            assert(sent[i] == as_data(connection_id, chunks)[i]);
            assert(1 <= chunks[i].len() <= pipe::CHUNK_SIZE);
        }
    }
}

/// Opening a connection under a free id and closing it leaves a proxy as it
/// was. A second close changes nothing, nor does a chunk that comes late.
pub proof fn law_close_undoes_open(view: ProxyView, connection_id: u64, chunk: Seq<u8>)
    ensures
        !view.connections.contains_key(connection_id) ==> view.opened(connection_id).closed(
            connection_id,
        ) == view,
        view.closed(connection_id).closed(connection_id) == view.closed(connection_id),
        view.closed(connection_id).received(connection_id, chunk) == view.closed(connection_id),
{
    if !view.connections.contains_key(connection_id) {
        assert(view.opened(connection_id).closed(connection_id) =~= view);
    }
    assert(view.closed(connection_id).closed(connection_id) =~= view.closed(connection_id));
}

/// A proxy after it gave out `count` ids.
pub open spec fn ids_taken(view: ProxyView, count: nat) -> ProxyView
    decreases count,
{
    if count == 0 {
        view
    } else {
        ids_taken(view, (count - 1) as nat).id_taken()
    }
}

/// The id that a proxy gives out after `count` others.
pub open spec fn nth_id(view: ProxyView, count: nat) -> u64 {
    ids_taken(view, count).next_connection_id
}

/// Ids count up from the first one, and start over after the largest.
pub proof fn law_ids_count_up(view: ProxyView, count: nat)
    ensures
        nth_id(view, count) == (view.next_connection_id + count) % 0x1_0000_0000_0000_0000,
        ids_taken(view, count).connections == view.connections,
        ids_taken(view, count).is_host == view.is_host,
    decreases count,
{
    if count > 0 {
        law_ids_count_up(view, (count - 1) as nat);
    }
}

/// Two connections that an end originates have different ids, unless all ids
/// were given out in between.
pub proof fn law_ids_are_distinct(view: ProxyView, i: nat, j: nat)
    requires
        i < j < i + 0x1_0000_0000_0000_0000,
    ensures
        nth_id(view, i) != nth_id(view, j),
{
    law_ids_count_up(view, i);
    law_ids_count_up(view, j);
}

/// Something that happens between a guest and a host, up to the answer.
pub enum Exchange {
    /// The guest asks for a connection; `reachable` tells whether the host's
    /// connector reaches an agent.
    Open { reachable: bool },
    /// A chunk goes from the guest to the host.
    GuestSends { connection_id: u64, chunk: Seq<u8> },
    /// A chunk goes from the host to the guest.
    HostSends { connection_id: u64, chunk: Seq<u8> },
    /// A connection ends at the guest.
    GuestCloses { connection_id: u64 },
    /// A connection ends at the host.
    HostCloses { connection_id: u64 },
}

/// The guest and the host.
pub struct Ends {
    pub guest: ProxyView,
    pub host: ProxyView,
}

/// The two ends after an exchange.
pub open spec fn exchanged(ends: Ends, exchange: Exchange) -> Ends {
    match exchange {
        Exchange::Open { reachable } => {
            let connection_id = ends.guest.next_connection_id;
            if ends.host.is_host && reachable {
                Ends {
                    guest: ends.guest.id_taken().opened(connection_id),
                    host: ends.host.opened(connection_id),
                }
            } else {
                Ends { guest: ends.guest.id_taken(), ..ends }
            }
        },
        Exchange::GuestSends { connection_id, chunk } => Ends {
            host: ends.host.received(connection_id, chunk),
            ..ends
        },
        Exchange::HostSends { connection_id, chunk } => Ends {
            guest: ends.guest.received(connection_id, chunk),
            ..ends
        },
        Exchange::GuestCloses { connection_id } | Exchange::HostCloses { connection_id } => Ends {
            guest: ends.guest.closed(connection_id),
            host: ends.host.closed(connection_id),
        },
    }
}

/// The two ends after the exchanges, in order.
pub open spec fn exchanged_all(ends: Ends, exchanges: Seq<Exchange>) -> Ends
    decreases exchanges.len(),
{
    if exchanges.len() == 0 {
        ends
    } else {
        exchanged(exchanged_all(ends, exchanges.drop_last()), exchanges.last())
    }
}

/// One guest connection maps to one host connection: between exchanges the two
/// ends have the same connections open, if they had at first.
pub proof fn law_ends_stay_in_step(ends: Ends, exchanges: Seq<Exchange>)
    requires
        ends.guest.connections.dom() == ends.host.connections.dom(),
    ensures
        exchanged_all(ends, exchanges).guest.connections.dom() == exchanged_all(
            ends,
            exchanges,
        ).host.connections.dom(),
        exchanged_all(ends, exchanges).guest.is_host == ends.guest.is_host,
        exchanged_all(ends, exchanges).host.is_host == ends.host.is_host,
    decreases exchanges.len(),
{
    if exchanges.len() > 0 {
        law_ends_stay_in_step(ends, exchanges.drop_last());
        let before = exchanged_all(ends, exchanges.drop_last());
        let after = exchanged_all(ends, exchanges);
        assert(forall|id: u64|
            before.guest.connections.dom().contains(id) == before.host.connections.dom().contains(
                id,
            ));
        assert(after.guest.connections.dom() =~= after.host.connections.dom());
    }
}

/// A refused connection leaves no trace but its id: where the host has no
/// connector, or its agent is out of reach, both tables stay as they were.
pub proof fn law_refused_open_leaves_tables(ends: Ends, reachable: bool)
    requires
        !ends.host.is_host || !reachable,
    ensures
        ({
            let after = exchanged(ends, Exchange::Open { reachable });
            &&& after.host == ends.host
            &&& after.guest == ends.guest.id_taken()
            &&& after.guest.connections == ends.guest.connections
        }),
{
}

/// Where the accepting task stands after these events.
pub open spec fn accept_state(events: Seq<AcceptEvent>) -> AcceptState {
    if events.len() == 0 {
        AcceptState::Accepting
    } else {
        listener::accept_next(events.last()).0
    }
}

/// Whether each of the events can come where it comes.
pub open spec fn accept_can(events: Seq<AcceptEvent>) -> bool
    decreases events.len(),
{
    events.len() > 0 ==> {
        &&& accept_can(events.drop_last())
        &&& listener::accept_expects(accept_state(events.drop_last()), events.last())
    }
}

/// How often an event came.
pub open spec fn times(events: Seq<AcceptEvent>, event: AcceptEvent) -> nat
    decreases events.len(),
{
    if events.len() == 0 {
        0
    } else {
        times(events.drop_last(), event) + if events.last() == event {
            1nat
        } else {
            0nat
        }
    }
}

/// How often the accepting task handed a connection to the proxy.
pub open spec fn handed_over(events: Seq<AcceptEvent>) -> nat
    decreases events.len(),
{
    if events.len() == 0 {
        0
    } else {
        handed_over(events.drop_last()) + if listener::accept_next(events.last()).1
            == AcceptAction::Open {
            1nat
        } else {
            0nat
        }
    }
}

/// Each accepted connection is handed to the proxy once, and the next one is
/// awaited only when the proxy has taken it.
pub proof fn law_each_accepted_connection_is_handed_over(events: Seq<AcceptEvent>)
    requires
        accept_can(events),
    ensures
        handed_over(events) == times(events, AcceptEvent::Accepted),
        times(events, AcceptEvent::Opened) <= handed_over(events) <= times(
            events,
            AcceptEvent::Opened,
        ) + 1,
        accept_state(events) is Accepting ==> handed_over(events) == times(
            events,
            AcceptEvent::Opened,
        ),
        accept_state(events) is Opening ==> handed_over(events) == times(
            events,
            AcceptEvent::Opened,
        ) + 1,
    decreases events.len(),
{
    if events.len() > 0 {
        law_each_accepted_connection_is_handed_over(events.drop_last());
    }
}

/// The accepting task stops when accepting fails or the proxy is gone, and on
/// nothing else. Otherwise it hands over what it has just accepted, and accepts
/// on when the proxy took it. It does what its state stands for.
pub proof fn law_accepting_goes_on_unless_there_is_cause(event: AcceptEvent)
    ensures
        ({
            let (state, action) = listener::accept_next(event);
            &&& event is Accepted <==> state is Opening
            &&& event is Opened <==> state is Accepting
            &&& event is AcceptFailed || event is ProxyDropped <==> state is Stopped
            &&& state is Opening <==> action is Open
            &&& state is Accepting <==> action is Accept
            &&& state is Stopped <==> action is Stop
            &&& listener::accept_expects(AcceptState::Accepting, event) <==> event is Accepted
                || event is AcceptFailed
            &&& listener::accept_expects(AcceptState::Opening, event) <==> event is Opened
                || event is ProxyDropped
            &&& !listener::accept_expects(AcceptState::Stopped, event)
        }),
{
}

} // verus!
