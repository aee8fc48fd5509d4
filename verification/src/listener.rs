//! The guest's listener on the forwarding socket.

use std::path::PathBuf;

use vstd::prelude::*;

use crate::connections::{Pending, Table};
use crate::proxy::{ProxyView, SshAgentProxy};

verus! {

/// The name of the forwarding socket in the server's directory.
pub const SOCKET_NAME: &'static str = "ssh-agent.sock";

/// `std::path::PathBuf`, carried as an opaque value.
#[verifier::external_type_specification]
#[verifier::external_body]
pub struct ExPathBuf(std::path::PathBuf);

/// The path that `Path::join` makes of a directory and a name.
pub uninterp spec fn joined(dir: PathBuf, name: Seq<char>) -> PathBuf;

/// Calls `std::path::Path::join`. Trusted: the path depends on the directory and
/// the name alone, by the rules of the Unix systems that the listener is for.
/// Where a separator comes between the two is left to `join`.
#[verifier::external_body]
fn join_path(dir: &PathBuf, name: &str) -> (path: PathBuf)
    ensures
        path == joined(*dir, name@),
{
    dir.join(name)
}

/// The path of the forwarding socket in the server's directory.
pub fn socket_path(server_dir: &PathBuf) -> (path: PathBuf)
    ensures
        path == joined(*server_dir, SOCKET_NAME@),
{
    join_path(server_dir, SOCKET_NAME)
}

/// The first step of a listener: remove the file that an earlier session may
/// have left at `socket_path`.
pub struct LeftoverSocket {
    pub socket_path: PathBuf,
}

/// The second step of a listener: bind `socket_path`.
pub struct UnboundSocket {
    pub socket_path: PathBuf,
}

impl LeftoverSocket {
    /// Starts to set up the forwarding socket in `server_dir`.
    pub fn new(server_dir: &PathBuf) -> (leftover: LeftoverSocket)
        ensures
            leftover.socket_path == joined(*server_dir, SOCKET_NAME@),
    {
        LeftoverSocket { socket_path: socket_path(server_dir) }
    }

    /// The file was removed, or could not be: mostly there is none. Binding
    /// tells.
    pub fn removed(self, ok: bool) -> (unbound: UnboundSocket)
        ensures
            unbound.socket_path == self.socket_path,
    {
        UnboundSocket { socket_path: self.socket_path }
    }
}

/// The guest's end of the tunnel with the socket path that is exported as
/// `SSH_AUTH_SOCK`. Held by the server for the session's lifetime.
pub struct SshAgentListener<C, R> {
    pub socket_path: PathBuf,
    pub proxy: SshAgentProxy<C, R>,
    pub accepting: AcceptLoop,
}

impl<C, R> SshAgentListener<C, R> {
    /// What an attempt to bind the forwarding socket comes to, given the bound
    /// socket or the error: a guest proxy that accepts connections on it, or
    /// the error.
    pub fn start<L, E>(unbound: UnboundSocket, bound: Result<L, E>) -> (listener: Result<
        (SshAgentListener<C, R>, L),
        E,
    >)
        ensures
            match bound {
                Ok(socket) => listener matches Ok((l, s)) && {
                    &&& s == socket
                    &&& l.socket_path == unbound.socket_path
                    &&& l.proxy@ == (ProxyView {
                        connections: Table::empty(),
                        next_connection_id: 0,
                        is_host: false,
                    })
                    &&& l.proxy.agent_connector is None
                    &&& l.proxy.next_connection_id == 0
                    &&& l.proxy.connections@ == Table::empty()
                    &&& l.proxy.connections.pending() == Pending::<R>::empty()
                    &&& l.proxy.connections.accepted() == Table::empty()
                    &&& l.accepting.state == AcceptState::Accepting
                },
                Err(error) => listener matches Err(e) && e == error,
            },
    {
        match bound {
            Ok(socket) => Ok(
                (
                    SshAgentListener {
                        socket_path: unbound.socket_path,
                        proxy: SshAgentProxy::new(None),
                        accepting: AcceptLoop { state: AcceptState::Accepting },
                    },
                    socket,
                ),
            ),
            Err(error) => Err(error),
        }
    }
}

/// Where the accepting task stands.
#[derive(Clone, Copy, Debug, PartialEq, Eq, Structural)]
pub enum AcceptState {
    /// The next connection is awaited.
    Accepting,
    /// An accepted connection is being handed to the proxy.
    Opening,
    /// No more connections are accepted.
    Stopped,
}

/// What the accepting task is told.
#[derive(Clone, Copy, Debug, PartialEq, Eq, Structural)]
pub enum AcceptEvent {
    /// A connection was accepted.
    Accepted,
    /// Accepting failed.
    AcceptFailed,
    /// The proxy took the connection.
    Opened,
    /// The proxy is gone: the session is ending.
    ProxyDropped,
}

/// What the accepting task does next.
#[derive(Clone, Copy, Debug, PartialEq, Eq, Structural)]
pub enum AcceptAction {
    /// Await the next connection.
    Accept,
    /// Hand the connection to [`SshAgentProxy::open_local_connection`].
    Open,
    /// End the task.
    Stop,
}

/// Whether the event can come in this state.
pub open spec fn accept_expects(state: AcceptState, event: AcceptEvent) -> bool {
    match state {
        AcceptState::Accepting => event is Accepted || event is AcceptFailed,
        AcceptState::Opening => event is Opened || event is ProxyDropped,
        AcceptState::Stopped => false,
    }
}

/// Where the task stands after the event, and what it does there: each accepted
/// connection is handed to the proxy before the next one is awaited, and a
/// failure or the end of the session stops the task.
pub open spec fn accept_next(event: AcceptEvent) -> (AcceptState, AcceptAction) {
    match event {
        AcceptEvent::Accepted => (AcceptState::Opening, AcceptAction::Open),
        AcceptEvent::Opened => (AcceptState::Accepting, AcceptAction::Accept),
        AcceptEvent::AcceptFailed | AcceptEvent::ProxyDropped => (
            AcceptState::Stopped,
            AcceptAction::Stop,
        ),
    }
}

/// The task that accepts connections on the forwarding socket.
#[derive(Clone, Copy, Debug, PartialEq, Eq, Structural)]
pub struct AcceptLoop {
    pub state: AcceptState,
}

impl AcceptLoop {
    /// Takes what happened to the last action and says which one comes next.
    pub fn step(&mut self, event: AcceptEvent) -> (action: AcceptAction)
        requires
            accept_expects(old(self).state, event),
        ensures
            (final(self).state, action) == accept_next(event),
            event is Accepted <==> final(self).state is Opening,
            event is Opened <==> final(self).state is Accepting,
            event is AcceptFailed || event is ProxyDropped <==> final(self).state is Stopped,
            final(self).state is Opening <==> action is Open,
            final(self).state is Accepting <==> action is Accept,
            final(self).state is Stopped <==> action is Stop,
    {
        match event {
            AcceptEvent::Accepted => {
                self.state = AcceptState::Opening;
                AcceptAction::Open
            },
            AcceptEvent::Opened => {
                self.state = AcceptState::Accepting;
                AcceptAction::Accept
            },
            AcceptEvent::AcceptFailed | AcceptEvent::ProxyDropped => {
                self.state = AcceptState::Stopped;
                AcceptAction::Stop
            },
        }
    }
}

} // verus!
