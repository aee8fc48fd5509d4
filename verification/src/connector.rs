//! How a host finds and reaches its local agent.

use vstd::prelude::*;
use vstd::string::StringExecFns;

use crate::bridge::{AgentBridge, BridgeAction, BridgeOutput, BridgeState};
use crate::framing::{FrameView, HEADER_LEN};

verus! {

/// The environment variable that names the agent's Unix socket.
pub const AGENT_SOCKET_VAR: &'static str = "SSH_AUTH_SOCK";

/// The well-known named pipe of the OpenSSH Authentication Agent.
pub const AGENT_PIPE: &'static str = "\\\\.\\pipe\\openssh-ssh-agent";

/// Why there is no connection to an agent.
#[derive(Debug)]
pub enum AgentError {
    /// This end has no agent connector.
    NoConnector,
    /// The environment does not name the agent's socket.
    SocketUnset,
    /// Connecting to the agent's socket failed.
    SocketConnect { socket_path: String, cause: String },
    /// Opening the agent's named pipe failed.
    PipeConnect { cause: String },
}

/// The text of an error.
pub open spec fn error_text(error: AgentError) -> Seq<char> {
    match error {
        AgentError::NoConnector => "no agent connector"@,
        AgentError::SocketUnset => "no ssh-agent on the client (SSH_AUTH_SOCK unset)"@,
        AgentError::SocketConnect { socket_path, cause } => "connecting to ssh-agent at "@
            + socket_path@ + ": "@ + cause@,
        AgentError::PipeConnect { cause } => "connecting to ssh-agent pipe "@ + AGENT_PIPE@ + ": "@
            + cause@,
    }
}

impl AgentError {
    /// The error in words.
    pub fn message(&self) -> (text: String)
        ensures
            text@ == error_text(*self),
            match *self {
                AgentError::NoConnector => text@ == "no agent connector"@,
                AgentError::SocketUnset => text@
                    == "no ssh-agent on the client (SSH_AUTH_SOCK unset)"@,
                AgentError::SocketConnect { socket_path, cause } => text@
                    == "connecting to ssh-agent at "@ + socket_path@ + ": "@ + cause@,
                AgentError::PipeConnect { cause } => text@ == "connecting to ssh-agent pipe "@
                    + AGENT_PIPE@ + ": "@ + cause@,
            },
    {
        match self {
            AgentError::NoConnector => "no agent connector".to_owned(),
            AgentError::SocketUnset => {
                "no ssh-agent on the client (SSH_AUTH_SOCK unset)".to_owned()
            },
            AgentError::SocketConnect { socket_path, cause } => {
                let mut text = "connecting to ssh-agent at ".to_owned();
                text.append(socket_path.as_str());
                text.append(": ");
                text.append(cause.as_str());
                text
            },
            AgentError::PipeConnect { cause } => {
                let mut text = "connecting to ssh-agent pipe ".to_owned();
                text.append(AGENT_PIPE);
                text.append(": ");
                text.append(cause.as_str());
                text
            },
        }
    }
}

/// An agent that listens on a Unix socket.
#[derive(Debug)]
pub struct UnixSocketAgent {
    /// The socket to connect to.
    pub socket_path: String,
}

/// The agent that the environment names: the value of [`AGENT_SOCKET_VAR`], or
/// `None` where it cannot be had.
pub fn unix_socket_agent_connector(ssh_auth_sock: Option<String>) -> (agent: Result<
    UnixSocketAgent,
    AgentError,
>)
    ensures
        agent == match ssh_auth_sock {
            Some(socket_path) => Ok(UnixSocketAgent { socket_path }),
            None => Err(AgentError::SocketUnset),
        },
{
    match ssh_auth_sock {
        Some(socket_path) => Ok(UnixSocketAgent { socket_path }),
        None => Err(AgentError::SocketUnset),
    }
}

impl UnixSocketAgent {
    /// What an attempt to connect to the socket comes to, given the stream or
    /// the text of the error.
    pub fn connected<S>(self, outcome: Result<S, String>) -> (stream: Result<S, AgentError>)
        ensures
            stream == match outcome {
                Ok(stream) => Ok(stream),
                Err(cause) => Err(
                    AgentError::SocketConnect { socket_path: self.socket_path, cause },
                ),
            },
    {
        match outcome {
            Ok(stream) => Ok(stream),
            Err(cause) => Err(AgentError::SocketConnect { socket_path: self.socket_path, cause }),
        }
    }
}

/// What an attempt to open [`AGENT_PIPE`] comes to, given the pipe or the text
/// of the error: a bridge that drives the pipe, and its first action.
pub fn named_pipe_agent_connector<P>(opened: Result<P, String>) -> (bridge: Result<
    (P, AgentBridge, BridgeAction),
    AgentError,
>)
    ensures
        match opened {
            Ok(pipe) => bridge matches Ok((p, b, action)) && {
                &&& p == pipe
                &&& b.stage@ == BridgeState::ReadingRequest(FrameView::Header)
                &&& action@ == BridgeOutput::ReadRequest(HEADER_LEN as nat)
                &&& action matches BridgeAction::ReadRequest(n) && n == HEADER_LEN
            },
            Err(cause) => bridge == Err::<(P, AgentBridge, BridgeAction), AgentError>(
                AgentError::PipeConnect { cause },
            ),
        },
{
    match opened {
        Ok(pipe) => {
            let (bridge, action) = AgentBridge::new();
            Ok((pipe, bridge, action))
        },
        Err(cause) => Err(AgentError::PipeConnect { cause }),
    }
}

} // verus!
