//! The table of open connections.

use std::collections::hash_map::Entry;
use std::collections::HashMap;

use vstd::prelude::*;

use crate::proto::Ack;
use crate::sink;
use crate::sink::{send_chunk, ConnectionSink, ConnectionSource};
use crate::waiting;
use crate::waiting::{Answer, Lanes, LanesView};

verus! {

/// What is registered for one open connection.
struct Registered {
    /// The sink that feeds the connection's writer task.
    sink: ConnectionSink,
    /// The lane in which requests wait for that task.
    lane: u64,
}

/// The connections that are open at one end, by `connection_id`, and the
/// requests that wait for the writer tasks. `R` is the place where the answer
/// to a request goes.
pub struct Connections<R> {
    open: HashMap<u64, Registered>,
    lanes: Lanes<R>,
}

/// The model of the open connections: for each one the chunks that were handed
/// to its sink, oldest first.
pub type Table = Map<u64, Seq<Seq<u8>>>;

/// The table after a chunk for `connection_id` arrived. A chunk for a
/// connection that is not open changes nothing.
pub open spec fn with_chunk(table: Table, connection_id: u64, chunk: Seq<u8>) -> Table {
    if table.contains_key(connection_id) {
        table.insert(connection_id, table[connection_id].push(chunk))
    } else {
        table
    }
}

/// The model of the requests without an answer: the lane of each open
/// connection, and what waits in the lanes.
#[verifier::ext_equal]
pub struct Pending<R> {
    pub lane_of: Map<u64, u64>,
    pub lanes: LanesView<R>,
}

impl<R> Pending<R> {
    /// Nothing is open, and nothing waits.
    pub open spec fn empty() -> Pending<R> {
        Pending { lane_of: Map::empty(), lanes: LanesView::<R>::empty() }
    }

    /// Whether the connection is open and its writer task at work.
    pub open spec fn is_written(self, connection_id: u64) -> bool {
        &&& self.lane_of.contains_key(connection_id)
        &&& self.lanes.queues.contains_key(self.lane_of[connection_id])
    }

    /// A connection is opened, with a lane of its own.
    pub open spec fn opened(self, connection_id: u64) -> Pending<R> {
        Pending {
            lane_of: self.lane_of.insert(connection_id, self.lanes.next_lane),
            lanes: self.lanes.added(),
        }
    }

    /// Whether a request that brought a chunk waits: the channel took the chunk,
    /// and the writer task is there to write it.
    pub open spec fn waits(self, connection_id: u64, taken: bool) -> bool {
        taken && self.is_written(connection_id)
    }

    /// A request brought a chunk.
    pub open spec fn asked(self, connection_id: u64, taken: bool, reply: R) -> Pending<R> {
        if self.waits(connection_id, taken) {
            Pending { lanes: self.lanes.joined(self.lane_of[connection_id], reply), ..self }
        } else {
            self
        }
    }

    /// A connection is closed. What was queued for its writer task is still
    /// written, and the requests that brought it still wait.
    pub open spec fn closed(self, connection_id: u64) -> Pending<R> {
        Pending { lane_of: self.lane_of.remove(connection_id), ..self }
    }

    /// The oldest request of a lane was answered.
    pub open spec fn settled(self, lane: u64) -> Pending<R> {
        Pending { lanes: self.lanes.without_oldest(lane), ..self }
    }

    /// All requests of a lane were answered, and the lane is gone.
    pub open spec fn ended(self, lane: u64) -> Pending<R> {
        Pending { lanes: self.lanes.without(lane), ..self }
    }
}

impl<R> View for Connections<R> {
    type V = Table;

    closed spec fn view(&self) -> Table {
        self.open@.map_values(|registered: Registered| sink::offered(registered.sink))
    }
}

impl<R> Connections<R> {
    /// The chunks that the channel of each open connection took, oldest first.
    pub closed spec fn accepted(&self) -> Table {
        self.open@.map_values(|registered: Registered| sink::accepted_by(registered.sink))
    }

    /// Whether the channel of an open connection took this chunk, and no channel
    /// anything else.
    pub open spec fn has_taken(
        &self,
        before: &Connections<R>,
        connection_id: u64,
        chunk: Seq<u8>,
    ) -> bool {
        &&& before.accepted().contains_key(connection_id)
        &&& self.accepted() == with_chunk(before.accepted(), connection_id, chunk)
    }

    /// The requests that are without an answer.
    pub closed spec fn pending(&self) -> Pending<R> {
        Pending {
            lane_of: self.open@.map_values(|registered: Registered| registered.lane),
            lanes: self.lanes@,
        }
    }

    /// Whether what arrives for `connection_id` goes to this receiver.
    pub closed spec fn feeds(&self, connection_id: u64, source: ConnectionSource) -> bool {
        &&& self.open@.contains_key(connection_id)
        &&& sink::connected(self.open@[connection_id].sink, source)
    }

    /// Whether every connection but `connection_id` feeds the receivers that it
    /// fed before.
    pub open spec fn others_feed_as(&self, before: &Connections<R>, connection_id: u64) -> bool {
        forall|other: u64, source: ConnectionSource|
            other != connection_id ==> #[trigger] self.feeds(other, source) == before.feeds(
                other,
                source,
            )
    }

    /// Whether every connection feeds the receivers that it fed before.
    pub open spec fn feeds_as(&self, before: &Connections<R>) -> bool {
        forall|other: u64, source: ConnectionSource| #[trigger]
            self.feeds(other, source) == before.feeds(other, source)
    }

    /// Only open connections feed a receiver.
    pub proof fn lemma_feeds_only_while_open(&self, connection_id: u64, source: ConnectionSource)
        ensures
            self.feeds(connection_id, source) ==> self@.contains_key(connection_id),
    {
    }

    /// The open connections are those that have a lane and a channel.
    pub proof fn lemma_open_have_lanes(&self)
        ensures
            self.pending().lane_of.dom() == self@.dom(),
            self.accepted().dom() == self@.dom(),
    {
        assert(self.accepted().dom() =~= self@.dom());
        assert(self.pending().lane_of.dom() =~= self@.dom());
    }

    /// A table without connections.
    pub fn new() -> (connections: Connections<R>)
        ensures
            connections@ == Table::empty(),
            connections.accepted() == Table::empty(),
            connections.pending() == Pending::<R>::empty(),
            forall|connection_id: u64, source: ConnectionSource|
                !#[trigger] connections.feeds(connection_id, source),
    {
        broadcast use vstd::std_specs::hash::group_hash_axioms;

        let connections = Connections { open: HashMap::new(), lanes: Lanes::new() };
        assert(connections@ =~= Table::empty());
        assert(connections.accepted() =~= Table::empty());
        assert(connections.pending() =~= Pending::<R>::empty());
        connections
    }

    /// Registers `sink` under `connection_id`, with a new lane, whose number it
    /// gives. A sink that was registered there before is dropped.
    pub fn insert(&mut self, connection_id: u64, sink: ConnectionSink) -> (lane: u64)
        ensures
            lane == old(self).pending().lanes.next_lane,
            final(self)@ == old(self)@.insert(connection_id, sink::offered(sink)),
            final(self).accepted() == old(self).accepted().insert(
                connection_id,
                sink::accepted_by(sink),
            ),
            final(self).pending() == old(self).pending().opened(connection_id),
            forall|source: ConnectionSource| #[trigger]
                final(self).feeds(connection_id, source) == sink::connected(sink, source),
            final(self).others_feed_as(old(self), connection_id),
    {
        broadcast use vstd::std_specs::hash::group_hash_axioms;

        let lane: u64 = self.lanes.add();
        self.open.insert(connection_id, Registered { sink, lane });
        assert(self@ =~= old(self)@.insert(connection_id, sink::offered(sink)));
        assert(self.accepted() =~= old(self).accepted().insert(
            connection_id,
            sink::accepted_by(sink),
        ));
        assert(self.pending() =~= old(self).pending().opened(connection_id));
        lane
    }

    /// Hands `chunk` to the sink of `connection_id`, if that connection is open,
    /// and tells whether its channel took the chunk.
    pub fn send(&mut self, connection_id: u64, chunk: Vec<u8>) -> (taken: bool)
        ensures
            taken <==> final(self).has_taken(old(self), connection_id, chunk@),
            !taken ==> final(self).accepted() == old(self).accepted(),
            final(self)@ == with_chunk(old(self)@, connection_id, chunk@),
            final(self).pending() == old(self).pending(),
            final(self).feeds_as(old(self)),
    {
        broadcast use vstd::std_specs::hash::group_hash_axioms;

        let ghost bytes = chunk@;
        let taken = match self.open.entry(connection_id) {
            Entry::Occupied(entry) => send_chunk(&mut entry.into_mut().sink, chunk),
            Entry::Vacant(_) => false,
        };
        assert(self@ =~= with_chunk(old(self)@, connection_id, bytes));
        assert(self.pending() =~= old(self).pending());
        proof {
            let more = with_chunk(old(self).accepted(), connection_id, bytes);
            if taken {
                assert(self.accepted() =~= more);
            } else {
                assert(self.accepted() =~= old(self).accepted());
                if old(self)@.contains_key(connection_id) {
                    let before = old(self).accepted()[connection_id];
                    assert(more[connection_id].len() == before.len() + 1);
                }
            }
        }
        taken
    }

    /// Decides on the request that brought a chunk for `connection_id`, given
    /// whether the channel took the chunk. The request waits for the writer task
    /// where there is one to write the chunk, and is answered at once otherwise.
    pub fn await_writer(&mut self, connection_id: u64, taken: bool, reply: R) -> (answer: Option<
        Answer<R>,
    >)
        ensures
            answer == if old(self).pending().waits(connection_id, taken) {
                None
            } else {
                Some(Answer { reply, ack: Ack {  } })
            },
            final(self).pending() == old(self).pending().asked(connection_id, taken, reply),
            final(self)@ == old(self)@,
            final(self).accepted() == old(self).accepted(),
            final(self).feeds_as(old(self)),
    {
        broadcast use vstd::std_specs::hash::group_hash_axioms;

        let lane: Option<u64> = match self.open.get(&connection_id) {
            Some(registered) if taken => Some(registered.lane),
            _ => None,
        };
        let refused: Option<R> = match lane {
            Some(lane) => self.lanes.join(lane, reply),
            None => Some(reply),
        };
        assert(self.pending() =~= old(self).pending().asked(connection_id, taken, reply));
        match refused {
            Some(back) => Some(Answer { reply: back, ack: Ack {  } }),
            None => None,
        }
    }

    /// The write of the oldest chunk of `lane` has ended: answers the request
    /// that brought it.
    pub fn settle(&mut self, lane: u64) -> (answers: Vec<Answer<R>>)
        ensures
            waiting::replies(answers@) == old(self).pending().lanes.oldest(lane),
            final(self).pending() == old(self).pending().settled(lane),
            final(self)@ == old(self)@,
            final(self).accepted() == old(self).accepted(),
            final(self).feeds_as(old(self)),
    {
        let answers = self.lanes.answer_oldest(lane);
        assert(self.pending() =~= old(self).pending().settled(lane));
        answers
    }

    /// The writer task of `lane` writes no more: answers all requests that wait
    /// for it.
    pub fn end(&mut self, lane: u64) -> (answers: Vec<Answer<R>>)
        ensures
            waiting::replies(answers@) == old(self).pending().lanes.in_lane(lane),
            final(self).pending() == old(self).pending().ended(lane),
            final(self)@ == old(self)@,
            final(self).accepted() == old(self).accepted(),
            final(self).feeds_as(old(self)),
    {
        let answers = self.lanes.answer_all(lane);
        assert(self.pending() =~= old(self).pending().ended(lane));
        answers
    }

    /// Forgets `connection_id` and drops its sink, which ends that connection's
    /// writer task.
    pub fn remove(&mut self, connection_id: u64)
        ensures
            final(self)@ == old(self)@.remove(connection_id),
            final(self).accepted() == old(self).accepted().remove(connection_id),
            final(self).pending() == old(self).pending().closed(connection_id),
            forall|source: ConnectionSource| !#[trigger] final(self).feeds(connection_id, source),
            final(self).others_feed_as(old(self), connection_id),
    {
        broadcast use vstd::std_specs::hash::group_hash_axioms;

        self.open.remove(&connection_id);
        assert(self@ =~= old(self)@.remove(connection_id));
        assert(self.accepted() =~= old(self).accepted().remove(connection_id));
        assert(self.pending() =~= old(self).pending().closed(connection_id));
    }
}

} // verus!
