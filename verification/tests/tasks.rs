//! The tasks of one connection, and the listener's.

use ssh_agent_forward::connections::Connections;
use ssh_agent_forward::listener::{
    socket_path, AcceptAction, AcceptEvent, AcceptState, LeftoverSocket, SshAgentListener,
    UnboundSocket, SOCKET_NAME,
};
use ssh_agent_forward::pipe::{
    pipe, ReaderAction, ReaderEvent, ReaderState, ReaderTask, WriterAction, WriterEvent,
    WriterState, WriterTask, CHUNK_SIZE,
};
use ssh_agent_forward::proto::{Ack, ForwardSshAgentClose, ForwardSshAgentData};
use ssh_agent_forward::waiting::{Answer, Lanes};
use std::path::PathBuf;

/// A table whose requests are numbers.
fn table() -> Connections<u32> {
    Connections::new()
}

/// The answer to a request.
fn ack(reply: u32) -> Answer<u32> {
    Answer { reply, ack: Ack {} }
}

fn reader(state: ReaderState) -> ReaderTask {
    ReaderTask { connection_id: 4, state }
}

#[test]
fn chunk_size_is_sixteen_kib_of_zeros() {
    assert_eq!(CHUNK_SIZE, 16384);
    assert_eq!(ReaderTask::buffer(), vec![0u8; 16384]);
}

#[test]
fn reader_sends_only_the_bytes_read() {
    let mut connections = table();
    let mut task = reader(ReaderState::Reading);
    let buffer = vec![1, 2, 3, 4, 5];
    let action = task.step(ReaderEvent::Read(3), &buffer, &mut connections);
    assert_eq!(
        action,
        ReaderAction::Send(ForwardSshAgentData { connection_id: 4, payload: vec![1, 2, 3] })
    );
    assert_eq!(task.state, ReaderState::Sending);
}

#[test]
fn reader_sends_a_full_buffer() {
    let mut connections = table();
    let mut task = reader(ReaderState::Reading);
    let buffer = vec![9u8; CHUNK_SIZE];
    let action = task.step(ReaderEvent::Read(CHUNK_SIZE), &buffer, &mut connections);
    assert_eq!(
        action,
        ReaderAction::Send(ForwardSshAgentData { connection_id: 4, payload: buffer })
    );
}

#[test]
fn reader_closes_on_end_failure_and_refusal() {
    let buffer = ReaderTask::buffer();
    let cases = vec![
        (ReaderState::Reading, ReaderEvent::Read(0)),
        (ReaderState::Reading, ReaderEvent::ReadFailed),
        (ReaderState::Sending, ReaderEvent::Answered(false)),
    ];
    for (state, event) in cases {
        let mut connections = table();
        let started = pipe(4, &mut connections);
        let mut task = reader(state);
        let action = task.step(event, &buffer, &mut connections);
        assert_eq!(action, ReaderAction::Close(ForwardSshAgentClose { connection_id: 4 }));
        assert_eq!(task.state, ReaderState::Closing);
        // The sink has left the table and was dropped.
        let mut source = started.source;
        assert!(matches!(
            source.try_recv(),
            Err(futures::channel::mpsc::TryRecvError::Closed)
        ));
    }
}

#[test]
fn reader_finishes_whatever_the_answer_to_its_close() {
    let buffer = ReaderTask::buffer();
    for answer in vec![true, false] {
        let mut connections = table();
        let mut task = reader(ReaderState::Closing);
        let action = task.step(ReaderEvent::Answered(answer), &buffer, &mut connections);
        assert_eq!(action, ReaderAction::Finish);
    }
}

#[test]
fn pipe_starts_both_tasks() {
    let mut connections = table();
    let started = pipe(11, &mut connections);
    assert_eq!(
        started.reader,
        ReaderTask { connection_id: 11, state: ReaderState::Reading }
    );
    assert_eq!(started.writer, WriterTask { lane: 0, state: WriterState::Receiving });
    let other = pipe(12, &mut connections);
    assert_eq!(other.writer, WriterTask { lane: 1, state: WriterState::Receiving });
}

#[test]
fn pipe_feeds_its_own_source() {
    let mut connections = table();
    let mut started = pipe(11, &mut connections);
    assert!(connections.send(11, vec![1]));
    assert!(!connections.send(12, vec![2]));
    assert!(connections.send(11, vec![3]));
    assert_eq!(started.source.try_recv(), Ok(vec![1]));
    assert_eq!(started.source.try_recv(), Ok(vec![3]));
    assert!(started.source.try_recv().is_err());
}

#[test]
fn channel_refuses_a_chunk_once_its_source_is_gone() {
    let mut connections = table();
    let started = pipe(11, &mut connections);
    assert!(connections.send(11, vec![1]));
    drop(started);
    assert!(!connections.send(11, vec![2]));
}

#[test]
fn request_waits_only_for_a_taken_chunk() {
    let mut connections = table();
    let mut started = pipe(11, &mut connections);
    assert_eq!(connections.await_writer(11, true, 1), None);
    assert_eq!(connections.await_writer(11, false, 2), Some(ack(2)));
    assert_eq!(connections.await_writer(12, true, 3), Some(ack(3)));
    let next = started.writer.step(WriterEvent::Received(None), &mut connections);
    assert_eq!(next, (WriterAction::Close, vec![ack(1)]));
    assert_eq!(connections.await_writer(11, true, 4), Some(ack(4)));
}

#[test]
fn writer_answers_all_when_a_write_fails() {
    let mut connections = table();
    let mut task = pipe(11, &mut connections).writer;
    assert_eq!(connections.await_writer(11, true, 1), None);
    assert_eq!(connections.await_writer(11, true, 2), None);
    let next = task.step(WriterEvent::Received(Some(vec![8])), &mut connections);
    assert_eq!(next, (WriterAction::Write(vec![8]), vec![]));
    let next = task.step(WriterEvent::Written(false), &mut connections);
    assert_eq!(next, (WriterAction::Close, vec![ack(1), ack(2)]));
    let next = task.step(WriterEvent::Closed, &mut connections);
    assert_eq!(next, (WriterAction::Finish, vec![]));
}

#[test]
fn writer_answers_when_a_write_has_ended() {
    let mut connections = table();
    let mut task = pipe(11, &mut connections).writer;
    assert_eq!(connections.await_writer(11, true, 1), None);
    assert_eq!(connections.await_writer(11, true, 2), None);
    let next = task.step(WriterEvent::Received(Some(vec![8])), &mut connections);
    assert_eq!(next, (WriterAction::Write(vec![8]), vec![]));
    let next = task.step(WriterEvent::Written(true), &mut connections);
    assert_eq!(next, (WriterAction::Receive, vec![ack(1)]));
    let next = task.step(WriterEvent::Received(None), &mut connections);
    assert_eq!(next, (WriterAction::Close, vec![ack(2)]));
}

#[test]
fn removed_connection_keeps_its_waiting_requests() {
    let mut connections = table();
    let mut task = pipe(11, &mut connections).writer;
    assert_eq!(connections.await_writer(11, true, 1), None);
    connections.remove(11);
    assert_eq!(connections.await_writer(11, true, 2), Some(ack(2)));
    task.step(WriterEvent::Received(Some(vec![8])), &mut connections);
    let next = task.step(WriterEvent::Written(true), &mut connections);
    assert_eq!(next, (WriterAction::Receive, vec![ack(1)]));
}

#[test]
fn lanes_are_first_in_first_out_and_apart() {
    let mut lanes: Lanes<u32> = Lanes::new();
    assert_eq!(lanes.join(0, 9), Some(9));
    assert_eq!(lanes.add(), 0);
    assert_eq!(lanes.add(), 1);
    assert_eq!(lanes.join(0, 1), None);
    assert_eq!(lanes.join(1, 2), None);
    assert_eq!(lanes.join(0, 3), None);
    assert_eq!(lanes.answer_oldest(0), vec![ack(1)]);
    assert_eq!(lanes.answer_all(1), vec![ack(2)]);
    assert_eq!(lanes.answer_oldest(0), vec![ack(3)]);
    assert_eq!(lanes.answer_oldest(0), vec![]);
    assert_eq!(lanes.answer_all(7), vec![]);
    assert_eq!(lanes.join(1, 4), Some(4));
    assert_eq!(lanes.join(0, 5), None);
}

fn unbound() -> UnboundSocket {
    LeftoverSocket::new(&PathBuf::from("/run/server")).removed(true)
}

#[test]
fn socket_stands_in_the_server_directory() {
    assert_eq!(SOCKET_NAME, "ssh-agent.sock");
    let expected = PathBuf::from("/run/server/ssh-agent.sock");
    assert_eq!(socket_path(&PathBuf::from("/run/server")), expected);
    assert_eq!(socket_path(&PathBuf::from("/run/server/")), expected);
}

#[test]
fn leftover_socket_is_bound_whether_removed_or_not() {
    for ok in vec![true, false] {
        let leftover = LeftoverSocket::new(&PathBuf::from("/run/server"));
        assert_eq!(leftover.socket_path, PathBuf::from("/run/server/ssh-agent.sock"));
        let unbound = leftover.removed(ok);
        assert_eq!(unbound.socket_path, PathBuf::from("/run/server/ssh-agent.sock"));
    }
}

#[test]
fn listener_starts_as_a_guest() {
    let (listener, socket) = SshAgentListener::<(), u32>::start::<u8, String>(unbound(), Ok(7)).unwrap();
    assert_eq!(socket, 7);
    assert_eq!(listener.socket_path, PathBuf::from("/run/server/ssh-agent.sock"));
    assert!(listener.proxy.agent_connector.is_none());
    assert_eq!(listener.proxy.next_connection_id, 0);
    assert_eq!(listener.accepting.state, AcceptState::Accepting);
}

#[test]
fn listener_reports_a_failed_bind() {
    let result = SshAgentListener::<(), u32>::start::<u8, &str>(unbound(), Err("address in use"));
    match result {
        Ok(_) => panic!("a failed bind started a listener"),
        Err(error) => assert_eq!(error, "address in use"),
    }
}

#[test]
fn accepting_hands_over_each_connection_and_stops() {
    let started = SshAgentListener::<(), u32>::start::<(), String>(unbound(), Ok(()));
    let (listener, _) = started.unwrap();
    let mut accepting = listener.accepting;
    assert_eq!(accepting.step(AcceptEvent::Accepted), AcceptAction::Open);
    assert_eq!(accepting.step(AcceptEvent::Opened), AcceptAction::Accept);
    assert_eq!(accepting.step(AcceptEvent::Accepted), AcceptAction::Open);
    assert_eq!(accepting.step(AcceptEvent::ProxyDropped), AcceptAction::Stop);
    assert_eq!(accepting.state, AcceptState::Stopped);

    let mut failing = listener.accepting;
    assert_eq!(failing.step(AcceptEvent::AcceptFailed), AcceptAction::Stop);
}
