//! Laws of one end: which connections it has, and how it answers the requests
//! that bring chunks.

use vstd::prelude::*;

use crate::connections;
use crate::connections::{Connections, Pending, Table};
use crate::laws::tunnel;
use crate::laws::tunnel::Arrival;
use crate::pipe;
use crate::pipe::{ReaderInput, WriterInput, WriterState};
use crate::proto::{Ack, TunnelMessage};
use crate::waiting::Answer;

verus! {

/// Something that happens at one end.
pub enum EndInput<R> {
    /// A connection is opened, and its writer task started.
    Opened { connection_id: u64 },
    /// A chunk arrives, in a request whose answer goes to `reply`. `taken` is
    /// what the channel did: whether it took the chunk. Only an open connection
    /// has a channel.
    Data { connection_id: u64, payload: Seq<u8>, reply: R, taken: bool },
    /// The other end closes a connection.
    Closed { connection_id: u64 },
    /// A connection's local socket has come to its end.
    Ended { connection_id: u64 },
    /// Something happens to the writer task of a lane.
    Writer { lane: u64, input: WriterInput },
}

/// One end: its table, the chunks that the channels took, the requests that
/// wait, and where the writer task of each lane stands.
pub struct End<R> {
    pub table: Table,
    pub accepted: Table,
    pub pending: Pending<R>,
    pub writers: Map<u64, WriterState>,
}

/// An end without connections.
pub open spec fn empty_end<R>() -> End<R> {
    End {
        table: Map::empty(),
        accepted: Map::empty(),
        pending: Pending::<R>::empty(),
        writers: Map::empty(),
    }
}

/// The end after an input.
pub open spec fn end_next<R>(end: End<R>, input: EndInput<R>) -> End<R> {
    match input {
        EndInput::Opened { connection_id } => End {
            table: end.table.insert(connection_id, Seq::empty()),
            accepted: end.accepted.insert(connection_id, Seq::empty()),
            pending: end.pending.opened(connection_id),
            writers: end.writers.insert(end.pending.lanes.next_lane, WriterState::Receiving),
        },
        EndInput::Data { connection_id, payload, reply, taken } => End {
            table: connections::with_chunk(end.table, connection_id, payload),
            accepted: if taken {
                connections::with_chunk(end.accepted, connection_id, payload)
            } else {
                end.accepted
            },
            pending: end.pending.asked(connection_id, taken, reply),
            ..end
        },
        EndInput::Closed { connection_id } | EndInput::Ended { connection_id } => End {
            table: end.table.remove(connection_id),
            accepted: end.accepted.remove(connection_id),
            pending: end.pending.closed(connection_id),
            ..end
        },
        EndInput::Writer { lane, input } => End {
            pending: pipe::writer_leaves(end.pending, lane, end.writers[lane], input),
            writers: end.writers.insert(lane, pipe::writer_next(end.writers[lane], input)),
            ..end
        },
    }
}

/// The requests that are answered on an input.
pub open spec fn end_answers<R>(end: End<R>, input: EndInput<R>) -> Seq<R> {
    match input {
        EndInput::Data { connection_id, reply, taken, .. } => if end.pending.waits(
            connection_id,
            taken,
        ) {
            Seq::empty()
        } else {
            seq![reply]
        },
        EndInput::Writer { lane, input } => pipe::writer_answers(
            end.pending,
            lane,
            end.writers[lane],
            input,
        ),
        _ => Seq::empty(),
    }
}

/// The end that has these connections, with its writer tasks.
pub open spec fn end_of<R>(connections: Connections<R>, writers: Map<u64, WriterState>) -> End<R> {
    End {
        table: connections@,
        accepted: connections.accepted(),
        pending: connections.pending(),
        writers,
    }
}

/// A data request is handled as the input says that names what the channel did:
/// `requires` is what [`crate::proxy::SshAgentProxy::handle_data`] does to the
/// connections of a proxy, and what it answers.
pub proof fn law_data_request_is_an_input<R>(
    before: Connections<R>,
    after: Connections<R>,
    writers: Map<u64, WriterState>,
    connection_id: u64,
    payload: Seq<u8>,
    reply: R,
    answer: Option<Answer<R>>,
)
    requires
        after@ == connections::with_chunk(before@, connection_id, payload),
        !after.has_taken(&before, connection_id, payload) ==> after.accepted() == before.accepted(),
        answer == if before.pending().waits(
            connection_id,
            after.has_taken(&before, connection_id, payload),
        ) {
            None
        } else {
            Some(Answer { reply, ack: Ack {  } })
        },
        after.pending() == before.pending().asked(
            connection_id,
            after.has_taken(&before, connection_id, payload),
            reply,
        ),
    ensures
        ({
            let taken = after.has_taken(&before, connection_id, payload);
            let input = EndInput::Data { connection_id, payload, reply, taken };
            &&& end_of(after, writers) == end_next(end_of(before, writers), input)
            &&& end_answers(end_of(before, writers), input) == match answer {
                Some(answer) => seq![answer.reply],
                None => Seq::empty(),
            }
        }),
{
}

/// The end after the inputs, in order.
pub open spec fn end_after<R>(start: End<R>, inputs: Seq<EndInput<R>>) -> End<R>
    decreases inputs.len(),
{
    if inputs.len() == 0 {
        start
    } else {
        end_next(end_after(start, inputs.drop_last()), inputs.last())
    }
}

/// Whether each of the inputs can come where it comes, and none of them opens
/// `connection_id`.
pub open spec fn end_can<R>(start: End<R>, connection_id: u64, inputs: Seq<EndInput<R>>) -> bool
    decreases inputs.len(),
{
    inputs.len() > 0 ==> {
        let before = end_after(start, inputs.drop_last());
        &&& end_can(start, connection_id, inputs.drop_last())
        &&& inputs.last() matches EndInput::Opened { connection_id: other } ==> other
            != connection_id
        &&& inputs.last() matches EndInput::Writer { lane, input } ==> {
            &&& before.writers.contains_key(lane)
            &&& pipe::writer_expects(before.writers[lane], input)
        }
    }
}

/// How the input changes the table, if it does.
pub open spec fn as_arrival<R>(input: EndInput<R>) -> Option<Arrival> {
    match input {
        EndInput::Opened { connection_id } => Some(Arrival::Opened { connection_id }),
        EndInput::Data { connection_id, payload, .. } => Some(
            Arrival::Message(TunnelMessage::Data { connection_id, payload }),
        ),
        EndInput::Closed { connection_id } => Some(
            Arrival::Message(TunnelMessage::Close { connection_id }),
        ),
        EndInput::Ended { connection_id } => Some(Arrival::Ended { connection_id }),
        EndInput::Writer { .. } => None,
    }
}

/// What arrived at the end.
pub open spec fn arrivals<R>(inputs: Seq<EndInput<R>>) -> Seq<Arrival>
    decreases inputs.len(),
{
    if inputs.len() == 0 {
        Seq::empty()
    } else {
        match as_arrival(inputs.last()) {
            Some(arrival) => arrivals(inputs.drop_last()).push(arrival),
            None => arrivals(inputs.drop_last()),
        }
    }
}

/// The requests that brought chunks for `connection_id`, in order.
pub open spec fn asked<R>(connection_id: u64, inputs: Seq<EndInput<R>>) -> Seq<R>
    decreases inputs.len(),
{
    if inputs.len() == 0 {
        Seq::empty()
    } else {
        match inputs.last() {
            EndInput::Data { connection_id: id, reply, .. } if id == connection_id => asked(
                connection_id,
                inputs.drop_last(),
            ).push(reply),
            _ => asked(connection_id, inputs.drop_last()),
        }
    }
}

/// Whether an input can answer a request for `connection_id`: one that brings a
/// chunk for it, or one to its writer task.
pub open spec fn is_of<R>(input: EndInput<R>, connection_id: u64, of_lane: u64) -> bool {
    match input {
        EndInput::Data { connection_id: id, .. } => id == connection_id,
        EndInput::Writer { lane, .. } => lane == of_lane,
        _ => false,
    }
}

/// The requests for `connection_id`, whose writer task has this lane, that were
/// answered, in the order of the answers.
pub open spec fn answered<R>(
    start: End<R>,
    connection_id: u64,
    lane: u64,
    inputs: Seq<EndInput<R>>,
) -> Seq<R>
    decreases inputs.len(),
{
    if inputs.len() == 0 {
        Seq::empty()
    } else {
        let earlier = answered(start, connection_id, lane, inputs.drop_last());
        if is_of(inputs.last(), connection_id, lane) {
            earlier + end_answers(end_after(start, inputs.drop_last()), inputs.last())
        } else {
            earlier
        }
    }
}

/// What happened to the writer task of a lane.
pub open spec fn seen<R>(of_lane: u64, inputs: Seq<EndInput<R>>) -> Seq<WriterInput>
    decreases inputs.len(),
{
    if inputs.len() == 0 {
        Seq::empty()
    } else {
        match inputs.last() {
            EndInput::Writer { lane, input } if lane == of_lane => seen(
                of_lane,
                inputs.drop_last(),
            ).push(input),
            _ => seen(of_lane, inputs.drop_last()),
        }
    }
}

/// How many connections were opened.
pub open spec fn opens<R>(inputs: Seq<EndInput<R>>) -> nat
    decreases inputs.len(),
{
    if inputs.len() == 0 {
        0
    } else {
        opens(inputs.drop_last()) + if inputs.last() is Opened {
            1nat
        } else {
            0nat
        }
    }
}

/// Whether the lane that the next connection gets is no other connection's.
pub open spec fn next_lane_is_free<R>(end: End<R>) -> bool {
    forall|id: u64| #[trigger]
        end.pending.lane_of.contains_key(id) ==> end.pending.lane_of[id]
            != end.pending.lanes.next_lane
}

/// An end gives each connection a free lane, as long as it has not opened as
/// many connections as there are numbers.
pub proof fn law_next_lane_is_free<R>(inputs: Seq<EndInput<R>>)
    requires
        opens(inputs) < 0x1_0000_0000_0000_0000,
    ensures
        next_lane_is_free(end_after(empty_end::<R>(), inputs)),
        end_after(empty_end::<R>(), inputs).pending.lanes.next_lane == opens(inputs)
            % 0x1_0000_0000_0000_0000,
        forall|id: u64| #[trigger]
            end_after(empty_end::<R>(), inputs).pending.lane_of.contains_key(id) ==> end_after(
                empty_end::<R>(),
                inputs,
            ).pending.lane_of[id] < opens(inputs),
    decreases inputs.len(),
{
    if inputs.len() > 0 {
        law_next_lane_is_free(inputs.drop_last());
    }
}

/// An end's table is what arrived makes of it.
pub proof fn law_end_holds_what_arrived<R>(start: End<R>, inputs: Seq<EndInput<R>>)
    ensures
        end_after(start, inputs).table == tunnel::arrive_all(start.table, arrivals(inputs)),
    decreases inputs.len(),
{
    if inputs.len() > 0 {
        let earlier = inputs.drop_last();
        law_end_holds_what_arrived(start, earlier);
        if let Some(arrival) = as_arrival(inputs.last()) {
            assert(arrivals(earlier).push(arrival).drop_last() =~= arrivals(earlier));
        }
    }
}

/// A connection keeps its lane to itself, and its writer task is at work as long
/// as there is the lane.
proof fn lemma_lane_is_kept<R>(start: End<R>, connection_id: u64, inputs: Seq<EndInput<R>>)
    requires
        next_lane_is_free(start),
        end_can(end_next(start, EndInput::Opened { connection_id }), connection_id, inputs),
        opens(inputs) < u64::MAX,
    ensures
        ({
            let lane = start.pending.lanes.next_lane;
            let end = end_after(end_next(start, EndInput::Opened { connection_id }), inputs);
            &&& end.pending.lanes.next_lane == (lane + 1 + opens(inputs)) % 0x1_0000_0000_0000_0000
            &&& forall|other: u64|
                other != connection_id && #[trigger] end.pending.lane_of.contains_key(other)
                    ==> end.pending.lane_of[other] != lane
            &&& end.pending.lane_of.contains_key(connection_id)
                ==> end.pending.lane_of[connection_id] == lane
            &&& end.pending.lane_of.contains_key(connection_id) <==> end.table.contains_key(
                connection_id,
            )
            &&& end.accepted.contains_key(connection_id) <==> end.table.contains_key(connection_id)
            &&& end.writers.contains_key(lane)
            &&& end.pending.lanes.queues.contains_key(lane) <==> (end.writers[lane] is Receiving
                || end.writers[lane] is Writing)
            &&& tunnel::writer_can(seen(lane, inputs))
            &&& tunnel::writer_run(seen(lane, inputs)).state == end.writers[lane]
        }),
    decreases inputs.len(),
{
    if inputs.len() > 0 {
        let earlier = inputs.drop_last();
        let lane = start.pending.lanes.next_lane;
        lemma_lane_is_kept(start, connection_id, earlier);
        if let EndInput::Writer { lane: l, input } = inputs.last() {
            if l == lane {
                assert(seen(lane, earlier).push(input).drop_last() =~= seen(lane, earlier));
            }
        }
    }
}

/// Requests of a connection can wait exactly while the connection is open and its
/// writer task is receiving or writing.
pub proof fn law_requests_can_wait_while_the_task_works<R>(
    start: End<R>,
    connection_id: u64,
    inputs: Seq<EndInput<R>>,
)
    requires
        next_lane_is_free(start),
        end_can(end_next(start, EndInput::Opened { connection_id }), connection_id, inputs),
        opens(inputs) < u64::MAX,
    ensures
        ({
            let lane = start.pending.lanes.next_lane;
            let end = end_after(end_next(start, EndInput::Opened { connection_id }), inputs);
            end.pending.is_written(connection_id) <==> {
                &&& end.table.contains_key(connection_id)
                &&& end.writers[lane] is Receiving || end.writers[lane] is Writing
            }
        }),
{
    lemma_lane_is_kept(start, connection_id, inputs);
}

/// Every request that brings a chunk is answered exactly once, or it waits for
/// the writer task: whatever the channel does with the chunk, and whether or not
/// the connection is open. When the writer task is closing, because the chunks
/// have ended or a write has failed, none is left waiting. From then on each
/// request is answered at once.
pub proof fn law_each_request_is_answered_once<R>(
    start: End<R>,
    connection_id: u64,
    inputs: Seq<EndInput<R>>,
)
    requires
        next_lane_is_free(start),
        end_can(end_next(start, EndInput::Opened { connection_id }), connection_id, inputs),
        opens(inputs) < u64::MAX,
    ensures
        ({
            let lane = start.pending.lanes.next_lane;
            let opened = end_next(start, EndInput::Opened { connection_id });
            let end = end_after(opened, inputs);
            let waiting = end.pending.lanes.in_lane(lane);
            let answers = answered(opened, connection_id, lane, inputs);
            &&& asked(connection_id, inputs).to_multiset() == answers.to_multiset().add(
                waiting.to_multiset(),
            )
            &&& (end.writers[lane] is Closing || end.writers[lane] is Finished) ==> {
                &&& waiting.len() == 0
                &&& asked(connection_id, inputs).to_multiset() == answers.to_multiset()
                &&& forall|payload: Seq<u8>, reply: R, taken: bool| #[trigger]
                    end_answers(
                        end,
                        EndInput::Data { connection_id, payload, reply, taken },
                    ) == seq![reply]
            }
        }),
    decreases inputs.len(),
{
    broadcast use vstd::multiset::group_multiset_axioms;
    broadcast use vstd::seq_lib::group_to_multiset_ensures;

    let lane = start.pending.lanes.next_lane;
    let opened = end_next(start, EndInput::Opened { connection_id });
    let end = end_after(opened, inputs);
    let waiting = end.pending.lanes.in_lane(lane);
    let answers = answered(opened, connection_id, lane, inputs);
    lemma_lane_is_kept(start, connection_id, inputs);
    if inputs.len() == 0 {
        assert(waiting =~= Seq::<R>::empty());
        assert(asked(connection_id, inputs).to_multiset() =~= answers.to_multiset().add(
            waiting.to_multiset(),
        ));
    } else {
        let earlier = inputs.drop_last();
        lemma_lane_is_kept(start, connection_id, earlier);
        law_each_request_is_answered_once(start, connection_id, earlier);
        let before = end_after(opened, earlier);
        let queue = before.pending.lanes.in_lane(lane);
        let given = answered(opened, connection_id, lane, earlier);
        let now = end_answers(before, inputs.last());
        vstd::seq_lib::lemma_multiset_commutative(given, now);
        match inputs.last() {
            EndInput::Data { connection_id: id, reply, taken, .. } if id == connection_id => {
                if before.pending.waits(id, taken) {
                    assert(waiting =~= queue.push(reply));
                    assert(answers =~= given);
                } else {
                    assert(waiting =~= queue);
                    assert(answers =~= given.push(reply));
                }
            },
            EndInput::Writer { lane: l, .. } if l == lane => {
                assert(now + waiting =~= queue);
                vstd::seq_lib::lemma_multiset_commutative(now, waiting);
            },
            _ => {
                assert(waiting =~= queue);
                assert(answers =~= given);
            },
        }
        assert(asked(connection_id, inputs).to_multiset() =~= answers.to_multiset().add(
            waiting.to_multiset(),
        ));
    }
    if end.writers[lane] is Closing || end.writers[lane] is Finished {
        assert(waiting =~= Seq::<R>::empty());
        assert(answers.to_multiset().add(waiting.to_multiset()) =~= answers.to_multiset());
    }
}

/// Whether the channel of `connection_id`, whose writer task has this lane, is
/// first in, first out: while the connection is open, it yields the chunks that
/// it took, in order.
pub open spec fn channel_can<R>(
    start: End<R>,
    connection_id: u64,
    of_lane: u64,
    inputs: Seq<EndInput<R>>,
) -> bool
    decreases inputs.len(),
{
    inputs.len() > 0 ==> {
        let earlier = inputs.drop_last();
        let before = end_after(start, earlier);
        let received = tunnel::chunks_received(seen(of_lane, earlier)).len();
        &&& channel_can(start, connection_id, of_lane, earlier)
        &&& inputs.last() matches EndInput::Writer { lane, input: WriterInput::Chunk(chunk) }
            ==> lane == of_lane && before.accepted.contains_key(connection_id) ==> {
            &&& received < before.accepted[connection_id].len()
            &&& chunk == before.accepted[connection_id][received as int]
        }
    }
}

/// While a connection is open and its writer task at work, one request waits for
/// each chunk that the channel took and that is not settled: a request is not
/// answered before its chunk is written. Where the channel refused no chunk,
/// requests are answered in order, one for each chunk that was settled.
pub proof fn law_answers_follow_writes<R>(
    start: End<R>,
    connection_id: u64,
    inputs: Seq<EndInput<R>>,
)
    requires
        next_lane_is_free(start),
        end_can(end_next(start, EndInput::Opened { connection_id }), connection_id, inputs),
        opens(inputs) < u64::MAX,
        channel_can(
            end_next(start, EndInput::Opened { connection_id }),
            connection_id,
            start.pending.lanes.next_lane,
            inputs,
        ),
    ensures
        ({
            let lane = start.pending.lanes.next_lane;
            let opened = end_next(start, EndInput::Opened { connection_id });
            let end = end_after(opened, inputs);
            let answers = answered(opened, connection_id, lane, inputs);
            let waiting = end.pending.lanes.in_lane(lane);
            let settled = tunnel::settled(seen(lane, inputs));
            end.pending.is_written(connection_id) ==> {
                &&& end.accepted[connection_id].len() == settled + waiting.len()
                &&& tunnel::chunks_received(seen(lane, inputs)).is_prefix_of(
                    end.accepted[connection_id],
                )
                &&& asked(connection_id, inputs).len() == end.table[connection_id].len()
                &&& end.accepted[connection_id].len() <= end.table[connection_id].len()
                &&& end.accepted[connection_id] == end.table[connection_id] ==> {
                    &&& asked(connection_id, inputs) == answers + waiting
                    &&& answers.len() == settled
                }
            }
        }),
    decreases inputs.len(),
{
    let lane = start.pending.lanes.next_lane;
    let opened = end_next(start, EndInput::Opened { connection_id });
    let end = end_after(opened, inputs);
    let waiting = end.pending.lanes.in_lane(lane);
    let answers = answered(opened, connection_id, lane, inputs);
    lemma_lane_is_kept(start, connection_id, inputs);
    if inputs.len() == 0 {
        assert(asked(connection_id, inputs) =~= answers + waiting);
    } else {
        let earlier = inputs.drop_last();
        lemma_lane_is_kept(start, connection_id, earlier);
        law_answers_follow_writes(start, connection_id, earlier);
        let before = end_after(opened, earlier);
        let queue = before.pending.lanes.in_lane(lane);
        let given = answered(opened, connection_id, lane, earlier);
        let now = end_answers(before, inputs.last());
        if end.pending.is_written(connection_id) {
            assert(before.pending.is_written(connection_id));
            let chunks = before.table[connection_id];
            let took = before.accepted[connection_id];
            match inputs.last() {
                EndInput::Data { connection_id: id, payload, reply, taken } if id
                    == connection_id => {
                    if taken {
                        assert(waiting =~= queue.push(reply));
                        assert(answers =~= given);
                        assert(took.push(payload).drop_last() =~= took);
                        assert(chunks.push(payload).drop_last() =~= chunks);
                    } else {
                        assert(waiting =~= queue);
                    }
                },
                EndInput::Writer { lane: l, input } if l == lane => {
                    let steps = seen(lane, earlier);
                    assert(steps.push(input).drop_last() =~= steps);
                    tunnel::law_writer_writes_what_it_receives(steps);
                    assert(now + waiting =~= queue);
                    assert(given + now + waiting =~= given + queue);
                },
                _ => {
                    assert(waiting =~= queue);
                    assert(answers =~= given);
                },
            }
            if end.accepted[connection_id] == end.table[connection_id] {
                assert(took == chunks);
                assert(asked(connection_id, inputs) =~= answers + waiting);
            }
        }
    }
}

/// Backpressure: a slow far socket holds back the near end's reads. While a
/// connection is open at the far end and its writer task at work, at every moment
/// at most one chunk that the channel took is not settled, and at most one
/// request waits: whatever part of the near end's messages has arrived, among
/// those of other connections. The near end reads on only when there is none.
/// Where the channel refused no chunk, the near end itself has read at most one
/// chunk that is not settled.
///
/// `near` is what happened to the near end's reader task, and `inputs` what
/// happened at the far end since it opened the connection. The near end has at
/// most as many acknowledgements as the far end has given. Once the connection
/// is closed or its writer task closing, what arrives is answered and discarded.
pub proof fn law_queue_is_bounded<R>(
    start: End<R>,
    connection_id: u64,
    near: Seq<ReaderInput>,
    inputs: Seq<EndInput<R>>,
)
    requires
        next_lane_is_free(start),
        end_can(end_next(start, EndInput::Opened { connection_id }), connection_id, inputs),
        opens(inputs) < u64::MAX,
        channel_can(
            end_next(start, EndInput::Opened { connection_id }),
            connection_id,
            start.pending.lanes.next_lane,
            inputs,
        ),
        end_after(
            end_next(start, EndInput::Opened { connection_id }),
            inputs,
        ).pending.is_written(connection_id),
        tunnel::reader_can(connection_id, near),
        tunnel::own(connection_id, arrivals(inputs)).is_prefix_of(
            tunnel::as_arrivals(tunnel::reader_run(connection_id, near).sent),
        ),
        tunnel::acknowledged(near) <= answered(
            end_next(start, EndInput::Opened { connection_id }),
            connection_id,
            start.pending.lanes.next_lane,
            inputs,
        ).len(),
    ensures
        ({
            let lane = start.pending.lanes.next_lane;
            let end = end_after(end_next(start, EndInput::Opened { connection_id }), inputs);
            let settled = tunnel::settled(seen(lane, inputs));
            let is_reading = tunnel::reader_run(connection_id, near).state is Reading;
            &&& end.pending.lanes.in_lane(lane).len() <= if is_reading {
                0nat
            } else {
                1nat
            }
            &&& end.accepted[connection_id].len() <= settled + if is_reading {
                0nat
            } else {
                1nat
            }
            &&& end.table[connection_id].is_prefix_of(tunnel::chunks_read(near))
            &&& end.accepted[connection_id] == end.table[connection_id] ==> tunnel::chunks_read(
                near,
            ).len() <= settled + if is_reading {
                0nat
            } else {
                1nat
            }
        }),
    decreases near.len(),
{
    if tunnel::reader_run(connection_id, near).state is Finished {
        law_queue_is_bounded(start, connection_id, near.drop_last(), inputs);
    } else {
        let lane = start.pending.lanes.next_lane;
        let opened = end_next(start, EndInput::Opened { connection_id });
        let end = end_after(opened, inputs);
        let waiting = end.pending.lanes.in_lane(lane);
        let answers = answered(opened, connection_id, lane, inputs);
        lemma_lane_is_kept(start, connection_id, inputs);
        law_answers_follow_writes(start, connection_id, inputs);
        law_each_request_is_answered_once(start, connection_id, inputs);
        asked(connection_id, inputs).to_multiset_ensures();
        answers.to_multiset_ensures();
        waiting.to_multiset_ensures();
        assert(asked(connection_id, inputs).len() == answers.len() + waiting.len());
        tunnel::law_one_chunk_in_flight(connection_id, near);
        law_end_holds_what_arrived(opened, inputs);
        tunnel::law_open_connection_holds_first_chunks(
            connection_id,
            near,
            opened.table,
            arrivals(inputs),
        );
        assert(end.table[connection_id].is_prefix_of(tunnel::chunks_read(near)));
    }
}

/// A failed write ends one direction of a connection. The requests that wait are
/// answered, later ones are answered at once and their chunks discarded. The
/// connection stays on the table, so that its reader task goes on with the other
/// direction.
pub proof fn law_failed_write_ends_one_direction<R>(
    end: End<R>,
    connection_id: u64,
    payload: Seq<u8>,
    reply: R,
    taken: bool,
)
    requires
        end.pending.lane_of.contains_key(connection_id),
        end.writers[end.pending.lane_of[connection_id]] is Writing,
    ensures
        ({
            let lane = end.pending.lane_of[connection_id];
            let failed = EndInput::Writer { lane, input: WriterInput::Written(false) };
            let after = end_next(end, failed);
            let late = EndInput::Data { connection_id, payload, reply, taken };
            &&& end_answers(end, failed) == end.pending.lanes.in_lane(lane)
            &&& after.table == end.table
            &&& after.accepted == end.accepted
            &&& after.pending.lane_of == end.pending.lane_of
            &&& after.writers[lane] is Closing
            &&& end_answers(after, late) == seq![reply]
            &&& end_next(after, late).pending == after.pending
            &&& end_next(after, late).writers == after.writers
        }),
{
}

/// The inputs that open connections under these ids.
pub open spec fn as_opens<R>(ids: Seq<u64>) -> Seq<EndInput<R>> {
    ids.map_values(|connection_id: u64| EndInput::<R>::Opened { connection_id })
}

/// What each connection is piped to, after connections were opened in order,
/// each with the stream that its agent connector gave.
pub open spec fn piped_to<S>(opened: Seq<(u64, S)>) -> Map<u64, S>
    decreases opened.len(),
{
    if opened.len() == 0 {
        Map::empty()
    } else {
        piped_to(opened.drop_last()).insert(opened.last().0, opened.last().1)
    }
}

/// One connection of the other end maps to one agent connection. After opens
/// under different ids exactly those connections are open, each with nothing
/// queued, with a lane and a writer task of its own, and piped to the stream
/// that was opened for it.
pub proof fn law_one_agent_connection_per_open<R, S>(opened: Seq<(u64, S)>)
    requires
        opened.len() < 0x1_0000_0000_0000_0000,
        opened.map_values(|open: (u64, S)| open.0).no_duplicates(),
    ensures
        ({
            let ids = opened.map_values(|open: (u64, S)| open.0);
            let end = end_after(empty_end::<R>(), as_opens(ids));
            let streams = piped_to(opened);
            &&& end.table.dom() == ids.to_set()
            &&& end.pending.lane_of.dom() == ids.to_set()
            &&& streams.dom() == ids.to_set()
            &&& end.pending.lanes.next_lane == opened.len() % 0x1_0000_0000_0000_0000
            &&& forall|i: int|
                0 <= i < opened.len() ==> {
                    let id = (#[trigger] opened[i]).0;
                    &&& streams[id] == opened[i].1
                    &&& end.table[id] == Seq::<Seq<u8>>::empty()
                    &&& end.pending.lane_of[id] == i
                    &&& end.pending.lanes.queues.contains_key(i as u64)
                    &&& end.writers.contains_key(i as u64)
                    &&& end.writers[i as u64] is Receiving
                }
        }),
    decreases opened.len(),
{
    let ids = opened.map_values(|open: (u64, S)| open.0);
    let end = end_after(empty_end::<R>(), as_opens(ids));
    if opened.len() == 0 {
        assert(ids.to_set() =~= Set::empty());
        assert(end.table.dom() =~= ids.to_set());
        assert(end.pending.lane_of.dom() =~= ids.to_set());
        assert(piped_to(opened).dom() =~= ids.to_set());
    } else {
        let earlier = opened.drop_last();
        let before = earlier.map_values(|open: (u64, S)| open.0);
        assert(before =~= ids.drop_last());
        assert(as_opens::<R>(ids).drop_last() =~= as_opens::<R>(before));
        law_one_agent_connection_per_open::<R, S>(earlier);
        let last = opened.last().0;
        assert(ids =~= before.push(last));
        assert(ids.to_set() =~= before.to_set().insert(last)) by {
            assert forall|id: u64| ids.contains(id) <==> before.contains(id) || id == last by {
                if before.contains(id) {
                    let i = choose|i: int| 0 <= i < before.len() && before[i] == id;
                    assert(ids[i] == id);
                }
                if id == last {
                    assert(ids[ids.len() - 1] == id);
                }
                if ids.contains(id) && id != last {
                    let i = choose|i: int| 0 <= i < ids.len() && ids[i] == id;
                    assert(before[i] == id);
                }
            }
        }
        assert(end.table.dom() =~= ids.to_set());
        assert(end.pending.lane_of.dom() =~= ids.to_set());
        assert(piped_to(opened).dom() =~= ids.to_set());
        let count = earlier.len() as int;
        let prior = end_after(empty_end::<R>(), as_opens(before));
        assert(as_opens::<R>(ids).last() == EndInput::<R>::Opened { connection_id: last });
        assert(prior.pending.lanes.next_lane == count);
        assert forall|i: int| 0 <= i < opened.len() implies {
            let id = (#[trigger] opened[i]).0;
            &&& piped_to(opened)[id] == opened[i].1
            &&& end.table[id] == Seq::<Seq<u8>>::empty()
            &&& end.pending.lane_of[id] == i
            &&& end.pending.lanes.queues.contains_key(i as u64)
            &&& end.writers.contains_key(i as u64)
            &&& end.writers[i as u64] is Receiving
        } by {
            if i < count {
                assert(ids[i] != ids[count]);
                assert(earlier[i] == opened[i]);
            }
        }
    }
}

} // verus!
