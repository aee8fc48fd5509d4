//! The connectors, the framing and the bridge.

use ssh_agent_forward::bridge::{AgentBridge, BridgeAction, BridgeEvent, BridgeStage};
use ssh_agent_forward::connector::{
    named_pipe_agent_connector, unix_socket_agent_connector, AGENT_PIPE, AGENT_SOCKET_VAR,
};
use ssh_agent_forward::framing::{
    read_be32, FrameError, FrameProgress, FrameReader, HEADER_LEN, MAX_MSG_LEN,
};

/// Reads one message off the front of a stream.
fn read_framed(stream: &mut Vec<u8>) -> Result<Vec<u8>, FrameError> {
    let mut reader = FrameReader::new();
    loop {
        let rest = stream.split_off(reader.wanted());
        let bytes = std::mem::replace(stream, rest);
        match reader.supply(bytes)? {
            FrameProgress::More(next) => reader = next,
            FrameProgress::Done(message) => return Ok(message),
        }
    }
}

#[test]
fn length_field_is_big_endian() {
    assert_eq!(read_be32(&vec![0x01, 0x02, 0x03, 0x04]), 0x0102_0304);
    assert_eq!(read_be32(&vec![0xff, 0xff, 0xff, 0xff]), u32::MAX);
    assert_eq!(HEADER_LEN, 4);
    assert_eq!(MAX_MSG_LEN, 262_144);
}

#[test]
fn message_keeps_its_length_field() {
    let mut stream = b"\x00\x00\x00\x01\x0b\x00\x00\x00\x00rest".to_vec();
    assert_eq!(read_framed(&mut stream), Ok(b"\x00\x00\x00\x01\x0b".to_vec()));
    assert_eq!(read_framed(&mut stream), Ok(b"\x00\x00\x00\x00".to_vec()));
    assert_eq!(stream, b"rest");
}

#[test]
fn largest_message_is_read() {
    let mut stream = vec![0x00, 0x04, 0x00, 0x00];
    stream.extend(vec![7u8; MAX_MSG_LEN]);
    let expected = stream.clone();
    assert_eq!(read_framed(&mut stream), Ok(expected));
    assert!(stream.is_empty());
}

#[test]
fn too_large_message_is_refused() {
    let mut stream = vec![0x00, 0x04, 0x00, 0x01, 1, 2, 3];
    let error = read_framed(&mut stream).unwrap_err();
    assert_eq!(error, FrameError::TooLarge);
    assert_eq!(error.message(), "ssh-agent message too large");
}

#[test]
fn bridge_works_strictly_in_turn() {
    let (bridge, action) = AgentBridge::new();
    assert_eq!(action, BridgeAction::ReadRequest(4));
    let (bridge, action) = bridge.step(BridgeEvent::Filled(vec![0, 0, 0, 1]));
    assert_eq!(action, BridgeAction::ReadRequest(1));
    let (bridge, action) = bridge.step(BridgeEvent::Filled(vec![0x0b]));
    assert_eq!(action, BridgeAction::WriteRequest(vec![0, 0, 0, 1, 0x0b]));
    let (bridge, action) = bridge.step(BridgeEvent::Written);
    assert_eq!(action, BridgeAction::ReadReply(4));
    let (bridge, action) = bridge.step(BridgeEvent::Filled(vec![0, 0, 0, 2]));
    assert_eq!(action, BridgeAction::ReadReply(2));
    let (bridge, action) = bridge.step(BridgeEvent::Filled(vec![0x0c, 0xAB]));
    assert_eq!(action, BridgeAction::WriteReply(vec![0, 0, 0, 2, 0x0c, 0xAB]));
    let (bridge, action) = bridge.step(BridgeEvent::Written);
    assert_eq!(action, BridgeAction::ReadRequest(4));
    assert_eq!(bridge, AgentBridge::new().0);
}

#[test]
fn bridge_stops_on_any_failure() {
    let stages = vec![
        BridgeStage::ReadingRequest(FrameReader::new()),
        BridgeStage::WritingRequest,
        BridgeStage::ReadingReply(FrameReader::new()),
        BridgeStage::WritingReply,
    ];
    for stage in stages {
        let (bridge, action) = AgentBridge { stage }.step(BridgeEvent::Failed);
        assert_eq!(action, BridgeAction::Stop);
        assert_eq!(bridge.stage, BridgeStage::Stopped);
    }
}

#[test]
fn bridge_stops_on_a_corrupt_length() {
    let (bridge, _) = AgentBridge::new();
    let (_, action) = bridge.step(BridgeEvent::Filled(vec![0xff, 0, 0, 0]));
    assert_eq!(action, BridgeAction::Stop);

    let replying = AgentBridge { stage: BridgeStage::ReadingReply(FrameReader::new()) };
    let (_, action) = replying.step(BridgeEvent::Filled(vec![0, 4, 0, 1]));
    assert_eq!(action, BridgeAction::Stop);
}

#[test]
fn unix_connector_needs_the_variable() {
    assert_eq!(AGENT_SOCKET_VAR, "SSH_AUTH_SOCK");
    let error = unix_socket_agent_connector(None).unwrap_err();
    assert_eq!(error.message(), "no ssh-agent on the client (SSH_AUTH_SOCK unset)");
}

#[test]
fn unix_connector_names_socket_and_cause() {
    let agent = unix_socket_agent_connector(Some("/tmp/agent.1".to_string())).unwrap();
    assert_eq!(agent.socket_path, "/tmp/agent.1");
    let error = agent.connected::<u8>(Err("refused".to_string())).unwrap_err();
    assert_eq!(error.message(), "connecting to ssh-agent at /tmp/agent.1: refused");

    let agent = unix_socket_agent_connector(Some("/tmp/agent.1".to_string())).unwrap();
    assert_eq!(agent.connected(Ok(12u8)).unwrap(), 12);
}

#[test]
fn pipe_connector_starts_a_bridge_or_names_the_cause() {
    assert_eq!(AGENT_PIPE, r"\\.\pipe\openssh-ssh-agent");
    let (pipe, bridge, action) = named_pipe_agent_connector(Ok(5u8)).unwrap();
    assert_eq!(pipe, 5);
    assert_eq!((bridge, action), AgentBridge::new());

    let error = named_pipe_agent_connector::<u8>(Err("not found".to_string())).unwrap_err();
    assert_eq!(
        error.message(),
        r"connecting to ssh-agent pipe \\.\pipe\openssh-ssh-agent: not found"
    );
}
