//! The message handlers of one end of the tunnel.

use vstd::prelude::*;

use crate::connections;
use crate::connections::{Connections, Pending, Table};
use crate::connector::AgentError;
use crate::pipe::{pipe, Pipe};
use crate::proto::{
    Ack, ForwardSshAgentClose, ForwardSshAgentData, ForwardSshAgentOpen, RequestKind,
};
use crate::sink::ConnectionSource;
use crate::waiting;
use crate::waiting::Answer;

verus! {

/// One end of the tunnel: the host, which connects to its local agent, or the
/// guest, which originates the connections.
pub struct SshAgentProxy<C, R> {
    /// The connections that are open at this end, and the requests that wait
    /// for their writer tasks.
    pub connections: Connections<R>,
    /// The id of the next connection that this end originates.
    pub next_connection_id: u64,
    /// What connects to the local agent: present on the host, absent on the
    /// guest.
    pub agent_connector: Option<C>,
}

/// The model of a [`SshAgentProxy`].
#[verifier::ext_equal]
pub struct ProxyView {
    pub connections: Table,
    pub next_connection_id: u64,
    /// Whether this end has an agent connector.
    pub is_host: bool,
}

impl<C, R> View for SshAgentProxy<C, R> {
    type V = ProxyView;

    open spec fn view(&self) -> ProxyView {
        ProxyView {
            connections: self.connections@,
            next_connection_id: self.next_connection_id,
            is_host: self.agent_connector is Some,
        }
    }
}

impl ProxyView {
    /// The proxy with a connection freshly opened.
    pub open spec fn opened(self, connection_id: u64) -> ProxyView {
        ProxyView {
            connections: self.connections.insert(connection_id, Seq::empty()),
            ..self
        }
    }

    /// The proxy after a chunk arrived.
    pub open spec fn received(self, connection_id: u64, chunk: Seq<u8>) -> ProxyView {
        ProxyView {
            connections: connections::with_chunk(self.connections, connection_id, chunk),
            ..self
        }
    }

    /// The proxy with a connection gone.
    pub open spec fn closed(self, connection_id: u64) -> ProxyView {
        ProxyView { connections: self.connections.remove(connection_id), ..self }
    }

    /// The proxy after it gave out its next id. Ids start over after the largest.
    pub open spec fn id_taken(self) -> ProxyView {
        ProxyView { next_connection_id: waiting::number_after(self.next_connection_id), ..self }
    }

    /// Whether this end takes requests of this kind: only the host opens
    /// connections on request, and both ends take data and closes.
    pub open spec fn handles(self, kind: RequestKind) -> bool {
        kind is Open ==> self.is_host
    }
}

impl<C, R> SshAgentProxy<C, R> {
    /// A proxy without connections. An agent connector makes it the host.
    pub fn new(agent_connector: Option<C>) -> (proxy: SshAgentProxy<C, R>)
        ensures
            proxy@ == (ProxyView {
                connections: Table::empty(),
                next_connection_id: 0,
                is_host: agent_connector is Some,
            }),
            proxy.agent_connector == agent_connector,
            proxy.next_connection_id == 0,
            proxy.connections@ == Table::empty(),
            proxy.connections.pending() == Pending::<R>::empty(),
            proxy.connections.accepted() == Table::empty(),
    {
        SshAgentProxy { connections: Connections::new(), next_connection_id: 0, agent_connector }
    }

    /// The requests to register a handler for, in order of registration.
    pub fn request_handlers(&self) -> (kinds: Vec<RequestKind>)
        ensures
            self.agent_connector is Some ==> kinds@ == seq![
                RequestKind::Open,
                RequestKind::Data,
                RequestKind::Close,
            ],
            self.agent_connector is None ==> kinds@ == seq![RequestKind::Data, RequestKind::Close],
            kinds@ == if self@.is_host {
                seq![RequestKind::Open, RequestKind::Data, RequestKind::Close]
            } else {
                seq![RequestKind::Data, RequestKind::Close]
            },
            forall|kind: RequestKind| #[trigger] kinds@.contains(kind) <==> self@.handles(kind),
    {
        let mut kinds: Vec<RequestKind> = Vec::new();
        if self.agent_connector.is_some() {
            kinds.push(RequestKind::Open);
        }
        kinds.push(RequestKind::Data);
        kinds.push(RequestKind::Close);
        proof {
            let last = kinds@.len() - 1;
            assert(kinds@[last] == RequestKind::Close);
            assert(kinds@[last - 1] == RequestKind::Data);
            assert(self@.is_host ==> kinds@[0] == RequestKind::Open);
            assert forall|kind: RequestKind| #[trigger]
                kinds@.contains(kind) <==> self@.handles(kind) by {
                match kind {
                    RequestKind::Open => {},
                    RequestKind::Data => {
                        assert(kinds@.contains(kinds@[last - 1]));
                    },
                    RequestKind::Close => {
                        assert(kinds@.contains(kinds@[last]));
                    },
                }
            }
        }
        kinds
    }

    /// Guest side: a connection on the forwarding socket was accepted. The
    /// request asks the host to open its end, under an id of its own.
    pub fn open_local_connection(&mut self) -> (request: ForwardSshAgentOpen)
        ensures
            request.connection_id == old(self).next_connection_id,
            old(self).next_connection_id < u64::MAX ==> final(self).next_connection_id == old(
                self,
            ).next_connection_id + 1,
            old(self).next_connection_id == u64::MAX ==> final(self).next_connection_id == 0,
            request.connection_id == old(self)@.next_connection_id,
            final(self)@ == old(self)@.id_taken(),
            final(self).connections == old(self).connections,
            final(self).agent_connector == old(self).agent_connector,
    {
        let connection_id: u64 = self.next_connection_id;
        self.next_connection_id = connection_id.wrapping_add(1);
        ForwardSshAgentOpen { connection_id }
    }

    /// Guest side: the host answered. A granted connection is piped. Where the
    /// host has no agent, or failed, the connection is to be dropped.
    pub fn open_answered(&mut self, request: ForwardSshAgentOpen, granted: bool) -> (opened: Option<
        Pipe,
    >)
        ensures
            granted ==> {
                &&& opened matches Some(pipe) && pipe.is_fresh(
                    request.connection_id,
                    old(self).connections.pending().lanes.next_lane,
                ) && pipe.is_fed(request.connection_id, &final(self).connections)
                &&& opened matches Some(pipe) && {
                    let id = request.connection_id;
                    let after = final(self).connections.pending();
                    &&& pipe.reader.connection_id == id
                    &&& pipe.reader.state is Reading
                    &&& pipe.writer.state is Receiving
                    &&& after.lane_of.contains_key(id)
                    &&& pipe.writer.lane == after.lane_of[id]
                    &&& after.lanes.queues.contains_key(pipe.writer.lane)
                    &&& after.lanes.queues[pipe.writer.lane] == Seq::<R>::empty()
                    &&& forall|source: ConnectionSource| #[trigger]
                        final(self).connections.feeds(id, source) <==> source == pipe.source
                    &&& final(self).connections@ == old(self).connections@.insert(
                        id,
                        Seq::<Seq<u8>>::empty(),
                    )
                }
                &&& final(self).next_connection_id == old(self).next_connection_id
                &&& final(self)@ == old(self)@.opened(request.connection_id)
                &&& final(self).connections.pending() == old(self).connections.pending().opened(
                    request.connection_id,
                )
                &&& final(self).connections.accepted() == old(self).connections.accepted().insert(
                    request.connection_id,
                    Seq::<Seq<u8>>::empty(),
                )
                &&& final(self).connections.others_feed_as(
                    &old(self).connections,
                    request.connection_id,
                )
            },
            !granted ==> opened is None && *final(self) == *old(self),
            final(self).agent_connector == old(self).agent_connector,
    {
        if granted {
            Some(pipe(request.connection_id, &mut self.connections))
        } else {
            None
        }
    }

    /// Host side: the guest asks for a connection. A host takes the request: the
    /// connector is to be run, and the outcome goes with the request to
    /// [`SshAgentProxy::agent_connected`]. An end without a connector refuses.
    pub fn handle_open(&self, request: ForwardSshAgentOpen) -> (taken: Result<
        (ForwardSshAgentOpen, &C),
        AgentError,
    >)
        ensures
            match self.agent_connector {
                Some(connector) => taken == Ok::<(ForwardSshAgentOpen, &C), AgentError>(
                    (request, &connector),
                ),
                None => taken == Err::<(ForwardSshAgentOpen, &C), AgentError>(
                    AgentError::NoConnector,
                ),
            },
            taken is Ok <==> self@.handles(RequestKind::Open),
    {
        match &self.agent_connector {
            Some(connector) => Ok((request, connector)),
            None => Err(AgentError::NoConnector),
        }
    }

    /// Host side: the agent connector returned. A connection to the agent is
    /// piped, and the request acknowledged. An error is the request's answer.
    pub fn agent_connected<S, E>(
        &mut self,
        request: ForwardSshAgentOpen,
        outcome: Result<S, E>,
    ) -> (answer: Result<(Ack, Pipe, S), E>)
        ensures
            match outcome {
                Ok(stream) => {
                    &&& answer matches Ok((_, pipe, s)) && s == stream && pipe.is_fresh(
                        request.connection_id,
                        old(self).connections.pending().lanes.next_lane,
                    ) && pipe.is_fed(request.connection_id, &final(self).connections)
                    &&& answer matches Ok((_, pipe, _)) && {
                        let id = request.connection_id;
                        let after = final(self).connections.pending();
                        &&& pipe.reader.connection_id == id
                        &&& pipe.reader.state is Reading
                        &&& pipe.writer.state is Receiving
                        &&& after.lane_of.contains_key(id)
                        &&& pipe.writer.lane == after.lane_of[id]
                        &&& after.lanes.queues.contains_key(pipe.writer.lane)
                        &&& after.lanes.queues[pipe.writer.lane] == Seq::<R>::empty()
                        &&& forall|source: ConnectionSource| #[trigger]
                            final(self).connections.feeds(id, source) <==> source == pipe.source
                        &&& final(self).connections@ == old(self).connections@.insert(
                            id,
                            Seq::<Seq<u8>>::empty(),
                        )
                    }
                    &&& final(self).next_connection_id == old(self).next_connection_id
                    &&& final(self)@ == old(self)@.opened(request.connection_id)
                    &&& final(self).connections.pending() == old(
                        self,
                    ).connections.pending().opened(request.connection_id)
                    &&& final(self).connections.accepted() == old(
                        self,
                    ).connections.accepted().insert(
                        request.connection_id,
                        Seq::<Seq<u8>>::empty(),
                    )
                    &&& final(self).connections.others_feed_as(
                        &old(self).connections,
                        request.connection_id,
                    )
                },
                Err(error) => {
                    &&& answer matches Err(e) && e == error
                    &&& *final(self) == *old(self)
                },
            },
            final(self).agent_connector == old(self).agent_connector,
    {
        match outcome {
            Ok(stream) => {
                let started = pipe(request.connection_id, &mut self.connections);
                Ok((Ack {  }, started, stream))
            },
            Err(error) => Err(error),
        }
    }

    /// A chunk arrived, in a request whose answer goes to `reply`. The chunk is
    /// handed to the sink of its connection, behind every earlier one.
    ///
    /// The request waits while the chunk does, that is exactly where the channel
    /// took the chunk and the writer task is at work: that task answers it when
    /// the chunk's write has ended, or when it writes no more
    /// ([`crate::pipe::WriterTask::step`]). A slow local socket thus holds back
    /// the other end's reads, and the sink cannot grow without bound. A request
    /// is answered at once where nothing will be written: the connection is not
    /// open, its writer task is closing or gone, or the channel refused the
    /// chunk. The chunk is discarded then.
    pub fn handle_data(&mut self, request: ForwardSshAgentData, reply: R) -> (answer: Option<
        Answer<R>,
    >)
        ensures
            final(self)@ == old(self)@.received(request.connection_id, request.payload@),
            final(self).next_connection_id == old(self).next_connection_id,
            old(self).connections@.contains_key(request.connection_id) ==> final(self).connections@
                == old(self).connections@.insert(
                request.connection_id,
                old(self).connections@[request.connection_id].push(request.payload@),
            ),
            !old(self).connections@.contains_key(request.connection_id) ==> {
                &&& answer is Some
                &&& final(self).connections@ == old(self).connections@
            },
            answer matches Some(a) ==> a.reply == reply,
            final(self).connections.feeds_as(&old(self).connections),
            final(self).agent_connector == old(self).agent_connector,
            !old(self)@.connections.contains_key(request.connection_id) ==> answer is Some,
            ({
                let id = request.connection_id;
                let before = old(self).connections.pending();
                let accepted = old(self).connections.accepted();
                before.lane_of.contains_key(id) && before.lanes.queues.contains_key(
                    before.lane_of[id],
                ) ==> (answer is None <==> final(self).connections.accepted()[id]
                    == accepted[id].push(request.payload@))
            }),
            answer is None ==> {
                let before = old(self).connections.pending();
                let lane = before.lane_of[request.connection_id];
                &&& before.lane_of.contains_key(request.connection_id)
                &&& before.lanes.queues.contains_key(lane)
                &&& final(self).connections.pending().lanes.queues == before.lanes.queues.insert(
                    lane,
                    before.lanes.queues[lane].push(reply),
                )
            },
            answer is Some ==> final(self).connections.pending() == old(
                self,
            ).connections.pending(),
            final(self).connections.pending().lane_of == old(self).connections.pending().lane_of,
            old(self).connections.pending().is_written(request.connection_id) ==> (answer is None
                <==> final(self).connections.accepted()[request.connection_id] == old(
                self,
            ).connections.accepted()[request.connection_id].push(request.payload@)),
            ({
                let pending = old(self).connections.pending();
                let taken = final(self).connections.has_taken(
                    &old(self).connections,
                    request.connection_id,
                    request.payload@,
                );
                &&& !taken ==> final(self).connections.accepted() == old(
                    self,
                ).connections.accepted()
                &&& answer == if pending.waits(request.connection_id, taken) {
                    None
                } else {
                    Some(Answer { reply, ack: Ack {  } })
                }
                &&& final(self).connections.pending() == pending.asked(
                    request.connection_id,
                    taken,
                    reply,
                )
            }),
    {
        proof {
            self.connections.lemma_open_have_lanes();
        }
        let connection_id: u64 = request.connection_id;
        let ghost more = self.connections.accepted()[connection_id].push(request.payload@);
        let taken = self.connections.send(connection_id, request.payload);
        assert(more.len() == old(self).connections.accepted()[connection_id].len() + 1);
        self.connections.await_writer(connection_id, taken, reply)
    }

    /// A connection is over at the other end. It ends here too.
    pub fn handle_close(&mut self, request: ForwardSshAgentClose) -> (answer: Ack)
        ensures
            final(self)@ == old(self)@.closed(request.connection_id),
            final(self).next_connection_id == old(self).next_connection_id,
            final(self).connections@ == old(self).connections@.remove(request.connection_id),
            final(self).connections.pending().lane_of == old(
                self,
            ).connections.pending().lane_of.remove(request.connection_id),
            final(self).connections.pending().lanes == old(self).connections.pending().lanes,
            final(self).connections.accepted() == old(self).connections.accepted().remove(
                request.connection_id,
            ),
            final(self).connections.pending() == old(self).connections.pending().closed(
                request.connection_id,
            ),
            forall|source: ConnectionSource|
                !#[trigger] final(self).connections.feeds(request.connection_id, source),
            final(self).connections.others_feed_as(
                &old(self).connections,
                request.connection_id,
            ),
            final(self).agent_connector == old(self).agent_connector,
    {
        self.connections.remove(request.connection_id);
        Ack {  }
    }
}

/// Guest side: the host answered, and the proxy may be gone by then. A proxy
/// that is there takes the answer. Without one the connection is to be dropped.
pub fn finish_local_open<C, R>(
    proxy: Option<&mut SshAgentProxy<C, R>>,
    request: ForwardSshAgentOpen,
    granted: bool,
) -> (opened: Option<Pipe>)
    ensures
        opened is Some <==> granted && proxy is Some,
        proxy matches Some(p) ==> {
            &&& !granted ==> *final(p) == *p
            &&& opened matches Some(pipe) ==> {
                let id = request.connection_id;
                let after = final(p).connections.pending();
                &&& pipe.is_fresh(
                    request.connection_id,
                    p.connections.pending().lanes.next_lane,
                )
                &&& pipe.is_fed(request.connection_id, &final(p).connections)
                &&& pipe.reader.connection_id == id
                &&& pipe.reader.state is Reading
                &&& pipe.writer.state is Receiving
                &&& after.lane_of.contains_key(id)
                &&& pipe.writer.lane == after.lane_of[id]
                &&& after.lanes.queues.contains_key(pipe.writer.lane)
                &&& after.lanes.queues[pipe.writer.lane] == Seq::<R>::empty()
                &&& forall|source: ConnectionSource| #[trigger]
                    final(p).connections.feeds(id, source) <==> source == pipe.source
                &&& final(p).connections@ == p.connections@.insert(
                    id,
                    Seq::<Seq<u8>>::empty(),
                )
                &&& final(p)@ == p@.opened(request.connection_id)
                &&& final(p).connections.pending() == p.connections.pending().opened(
                    request.connection_id,
                )
                &&& final(p).connections.accepted() == p.connections.accepted().insert(
                    request.connection_id,
                    Seq::<Seq<u8>>::empty(),
                )
            }
            &&& final(p).connections.others_feed_as(&p.connections, request.connection_id)
            &&& final(p).agent_connector == p.agent_connector
        },
{
    match proxy {
        Some(proxy) => proxy.open_answered(request, granted),
        None => None,
    }
}

} // verus!
