//! Both ends of a tunnel, wired together in memory.

use futures::channel::mpsc;
use futures::executor::block_on;
use futures::StreamExt;
use ssh_agent_forward::pipe::{
    Pipe, ReaderAction, ReaderEvent, ReaderState, ReaderTask, WriterAction, WriterEvent,
    WriterState,
};
use ssh_agent_forward::proto::{
    Ack, ForwardSshAgentClose, ForwardSshAgentData, ForwardSshAgentOpen, RequestKind,
};
use ssh_agent_forward::proxy::{finish_local_open, SshAgentProxy};
use ssh_agent_forward::waiting::Answer;

/// An end of the tunnel whose connector is a name, and whose requests are
/// numbers.
type Proxy = SshAgentProxy<&'static str, u32>;

/// The number under which requests are sent.
const REQUEST: u32 = 40;

/// The answer to a request.
fn ack(reply: u32) -> Answer<u32> {
    Answer { reply, ack: Ack {} }
}

fn host() -> Proxy {
    SshAgentProxy::new(Some("agent"))
}

fn guest() -> Proxy {
    SshAgentProxy::new(None)
}

/// Opens a connection from the guest to the host, whose connector succeeds.
fn open(guest: &mut Proxy, host: &mut Proxy) -> (Pipe, Pipe) {
    let request = guest.open_local_connection();
    let (request, connector) = host.handle_open(request).unwrap();
    assert_eq!(*connector, "agent");
    let (_, host_pipe, stream) = host
        .agent_connected::<&str, String>(request, Ok("agent stream"))
        .unwrap();
    assert_eq!(stream, "agent stream");
    let guest_pipe = guest.open_answered(request, true).unwrap();
    (guest_pipe, host_pipe)
}

/// Lets `task` read `bytes` at the near end and hands them to the far end, which
/// queues them without an answer.
fn send(task: &mut ReaderTask, bytes: &[u8], near: &mut Proxy, far: &mut Proxy) {
    let mut buffer = ReaderTask::buffer();
    buffer[..bytes.len()].copy_from_slice(bytes);
    let action = task.step(ReaderEvent::Read(bytes.len()), &buffer, &mut near.connections);
    match action {
        ReaderAction::Send(data) => {
            assert_eq!(data.payload, bytes);
            assert_eq!(far.handle_data(data, REQUEST), None);
        }
        other => panic!("expected a send, got {:?}", other),
    }
    assert_eq!(task.state, ReaderState::Sending);
}

/// Tells `task` that its chunk was acknowledged.
fn answer(task: &mut ReaderTask, near: &mut Proxy) {
    let buffer = ReaderTask::buffer();
    let action = task.step(ReaderEvent::Answered(true), &buffer, &mut near.connections);
    assert_eq!(action, ReaderAction::Read);
}

/// Lets the writer task of an end write one chunk and returns it. The task
/// acknowledges the chunk when it is written, and not before.
fn drain(pipe: &mut Pipe, end: &mut Proxy) -> Vec<u8> {
    let received = block_on(pipe.source.next());
    let next = pipe.writer.step(WriterEvent::Received(received), &mut end.connections);
    let chunk = match next {
        (WriterAction::Write(chunk), answers) => {
            assert_eq!(answers, vec![]);
            chunk
        }
        other => panic!("expected a write, got {:?}", other),
    };
    let next = pipe.writer.step(WriterEvent::Written(true), &mut end.connections);
    assert_eq!(next, (WriterAction::Receive, vec![ack(REQUEST)]));
    chunk
}

/// Lets the writer task of an end see the end of its chunks, close its socket
/// and finish.
fn finish(pipe: &mut Pipe, end: &mut Proxy) {
    let received = block_on(pipe.source.next());
    assert_eq!(received, None);
    let next = pipe.writer.step(WriterEvent::Received(received), &mut end.connections);
    assert_eq!(next, (WriterAction::Close, vec![]));
    let next = pipe.writer.step(WriterEvent::Closed, &mut end.connections);
    assert_eq!(next, (WriterAction::Finish, vec![]));
    assert_eq!(pipe.writer.state, WriterState::Finished);
}

/// Moves `bytes` from the near end's socket to the far end's.
fn pump(
    task: &mut ReaderTask,
    bytes: &[u8],
    near: &mut Proxy,
    far: &mut Proxy,
    far_pipe: &mut Pipe,
) -> Vec<u8> {
    send(task, bytes, near, far);
    let written = drain(far_pipe, far);
    answer(task, near);
    written
}

/// Ends the connection at the near end by `event` and tells the far end.
fn close(task: &mut ReaderTask, event: ReaderEvent, near: &mut Proxy, far: &mut Proxy) {
    let buffer = ReaderTask::buffer();
    match task.step(event, &buffer, &mut near.connections) {
        ReaderAction::Close(message) => assert_eq!(far.handle_close(message), Ack {}),
        other => panic!("expected a close, got {:?}", other),
    }
    let action = task.step(ReaderEvent::Answered(true), &buffer, &mut near.connections);
    assert_eq!(action, ReaderAction::Finish);
}

#[test]
fn test_agent_bytes_round_trip() {
    let mut host = host();
    let mut guest = guest();
    let (mut guest_pipe, mut host_pipe) = open(&mut guest, &mut host);

    // The ssh client writes a framed REQUEST_IDENTITIES.
    let request = b"\x00\x00\x00\x01\x0b".to_vec();
    let mut response =
        pump(&mut guest_pipe.reader, &request, &mut guest, &mut host, &mut host_pipe);

    // The agent appends a marker byte to whatever it receives.
    response.push(0xAB);
    let response =
        pump(&mut host_pipe.reader, &response, &mut host, &mut guest, &mut guest_pipe);

    let mut expected = b"\x00\x00\x00\x01\x0b".to_vec();
    expected.push(0xAB);
    assert_eq!(response, expected);
}

#[test]
fn test_open_fails_when_host_has_no_agent() {
    let mut host = host();
    let mut guest = guest();

    // The stream that stands for the ssh client's socket: the client holds the
    // receiving half, the guest the sending one.
    let (guest_side, mut client_side) = mpsc::unbounded::<Vec<u8>>();

    let request = guest.open_local_connection();
    let (request, _) = host.handle_open(request).unwrap();
    let answer = host.agent_connected::<(), &str>(request, Err("no agent"));
    let granted = match answer {
        Ok(_) => true,
        Err(error) => {
            assert_eq!(error, "no agent");
            false
        }
    };

    // The guest drops the connection when the open fails, so that the client
    // sees the end of the stream.
    match guest.open_answered(request, granted) {
        Some(_) => panic!("a refused connection was piped"),
        None => drop(guest_side),
    }
    assert_eq!(block_on(client_side.next()), None, "expected EOF on failed open");
}

#[test]
fn guest_refuses_to_open() {
    let error = guest().handle_open(ForwardSshAgentOpen { connection_id: 3 }).unwrap_err();
    assert_eq!(error.message(), "no agent connector");
}

#[test]
fn host_registers_open_first_and_guest_does_not() {
    assert_eq!(
        host().request_handlers(),
        vec![RequestKind::Open, RequestKind::Data, RequestKind::Close]
    );
    assert_eq!(
        guest().request_handlers(),
        vec![RequestKind::Data, RequestKind::Close]
    );
}

#[test]
fn ids_count_up_and_start_over() {
    let mut guest = guest();
    assert_eq!(guest.open_local_connection().connection_id, 0);
    assert_eq!(guest.open_local_connection().connection_id, 1);
    guest.next_connection_id = u64::MAX;
    assert_eq!(guest.open_local_connection().connection_id, u64::MAX);
    assert_eq!(guest.open_local_connection().connection_id, 0);
}

#[test]
fn connections_are_demultiplexed() {
    let mut host = host();
    let mut guest = guest();
    let (mut guest_a, mut host_a) = open(&mut guest, &mut host);
    let (mut guest_b, mut host_b) = open(&mut guest, &mut host);
    assert_eq!(guest_a.reader.connection_id, 0);
    assert_eq!(guest_b.reader.connection_id, 1);

    send(&mut guest_a.reader, b"a1", &mut guest, &mut host);
    send(&mut guest_b.reader, b"b1", &mut guest, &mut host);
    assert_eq!(drain(&mut host_a, &mut host), b"a1");
    answer(&mut guest_a.reader, &mut guest);
    send(&mut guest_a.reader, b"a2", &mut guest, &mut host);

    assert_eq!(drain(&mut host_b, &mut host), b"b1");
    assert_eq!(drain(&mut host_a, &mut host), b"a2");
}

#[test]
fn slow_writer_holds_back_the_reader() {
    let mut host = host();
    let mut guest = guest();
    let (mut guest_pipe, mut host_pipe) = open(&mut guest, &mut host);

    // The chunk is queued and taken, but its write has not ended: no answer.
    send(&mut guest_pipe.reader, b"first", &mut guest, &mut host);
    let received = block_on(host_pipe.source.next());
    let next = host_pipe.writer.step(WriterEvent::Received(received), &mut host.connections);
    assert_eq!(next, (WriterAction::Write(b"first".to_vec()), vec![]));
    assert_eq!(guest_pipe.reader.state, ReaderState::Sending);
    assert!(host_pipe.source.try_recv().is_err());

    // The write ends, the chunk is acknowledged, and the reader reads on.
    let (_, answers) = host_pipe.writer.step(WriterEvent::Written(true), &mut host.connections);
    assert_eq!(answers, vec![ack(REQUEST)]);
    answer(&mut guest_pipe.reader, &mut guest);
    let second =
        pump(&mut guest_pipe.reader, b"second", &mut guest, &mut host, &mut host_pipe);
    assert_eq!(second, b"second");
}

#[test]
fn answer_to_a_dropped_proxy_opens_nothing() {
    let mut guest = guest();
    let request = guest.open_local_connection();
    assert!(finish_local_open::<(), u32>(None, request, true).is_none());
    assert!(finish_local_open(Some(&mut guest), request, false).is_none());
    let opened = finish_local_open(Some(&mut guest), request, true).unwrap();
    assert_eq!(opened.reader.connection_id, request.connection_id);
    let data = ForwardSshAgentData { connection_id: request.connection_id, payload: vec![6] };
    assert_eq!(guest.handle_data(data, 1), None);
    let mut source = opened.source;
    assert_eq!(block_on(source.next()), Some(vec![6]));
}

#[test]
fn close_follows_all_chunks() {
    let mut host = host();
    let mut guest = guest();
    let (mut guest_pipe, mut host_pipe) = open(&mut guest, &mut host);

    let written =
        pump(&mut guest_pipe.reader, b"first", &mut guest, &mut host, &mut host_pipe);
    assert_eq!(written, b"first");
    // The transport fails while the last chunk is without an answer.
    send(&mut guest_pipe.reader, b"last words", &mut guest, &mut host);
    close(&mut guest_pipe.reader, ReaderEvent::Answered(false), &mut guest, &mut host);

    // The far end still writes what was queued, then closes its socket.
    assert_eq!(drain(&mut host_pipe, &mut host), b"last words");
    finish(&mut host_pipe, &mut host);

    // The near end's own writer task ends too.
    assert_eq!(block_on(guest_pipe.source.next()), None);
    assert_eq!(guest_pipe.reader.state, ReaderState::Finished);
}

#[test]
fn ended_connection_is_written_out() {
    let mut host = host();
    let mut guest = guest();
    let (mut guest_pipe, mut host_pipe) = open(&mut guest, &mut host);

    let mut written = Vec::new();
    for bytes in vec![b"one".to_vec(), b"two".to_vec()] {
        let chunk = pump(&mut guest_pipe.reader, &bytes, &mut guest, &mut host, &mut host_pipe);
        written.extend(chunk);
    }
    close(&mut guest_pipe.reader, ReaderEvent::Read(0), &mut guest, &mut host);
    finish(&mut host_pipe, &mut host);
    assert_eq!(written, b"onetwo");
}

#[test]
fn late_and_unknown_messages_are_acknowledged_and_ignored() {
    let mut host = host();
    let mut guest = guest();
    let (mut guest_pipe, mut host_pipe) = open(&mut guest, &mut host);

    let unknown = ForwardSshAgentData { connection_id: 9, payload: vec![1, 2, 3] };
    assert_eq!(host.handle_data(unknown, 1), Some(ack(1)));
    let written =
        pump(&mut guest_pipe.reader, b"known", &mut guest, &mut host, &mut host_pipe);
    assert_eq!(written, b"known");

    let gone = ForwardSshAgentClose { connection_id: 0 };
    assert_eq!(host.handle_close(gone), Ack {});
    assert_eq!(host.handle_close(gone), Ack {});
    let late = ForwardSshAgentData { connection_id: 0, payload: vec![4] };
    assert_eq!(host.handle_data(late, 2), Some(ack(2)));
    assert_eq!(block_on(host_pipe.source.next()), None);
}

/// A chunk for connection 0.
fn chunk(bytes: &[u8]) -> ForwardSshAgentData {
    ForwardSshAgentData { connection_id: 0, payload: bytes.to_vec() }
}

#[test]
fn data_without_a_writer_task_is_answered_and_dropped() {
    let mut host = host();
    let mut guest = guest();
    let (_guest_pipe, host_pipe) = open(&mut guest, &mut host);
    drop(host_pipe);
    assert_eq!(host.handle_data(chunk(b"to nobody"), 1), Some(ack(1)));
    assert_eq!(host.handle_data(chunk(b"again"), 2), Some(ack(2)));
}

#[test]
fn failed_write_answers_all_and_ends_one_direction() {
    let mut host = host();
    let mut guest = guest();
    let (mut guest_pipe, mut host_pipe) = open(&mut guest, &mut host);

    // Two chunks are queued when the first write fails.
    assert_eq!(host.handle_data(chunk(b"one"), 1), None);
    assert_eq!(host.handle_data(chunk(b"two"), 2), None);
    let received = block_on(host_pipe.source.next());
    host_pipe.writer.step(WriterEvent::Received(received), &mut host.connections);
    let next = host_pipe.writer.step(WriterEvent::Written(false), &mut host.connections);
    assert_eq!(next, (WriterAction::Close, vec![ack(1), ack(2)]));

    // Later chunks are answered and discarded, before and after the receiver is
    // gone.
    assert_eq!(host.handle_data(chunk(b"three"), 3), Some(ack(3)));
    let next = host_pipe.writer.step(WriterEvent::Closed, &mut host.connections);
    assert_eq!(next, (WriterAction::Finish, vec![]));
    let mut reader = host_pipe.reader;
    drop(host_pipe.source);
    assert_eq!(host.handle_data(chunk(b"four"), 4), Some(ack(4)));

    // The other direction goes on.
    let written = pump(&mut reader, b"still here", &mut host, &mut guest, &mut guest_pipe);
    assert_eq!(written, b"still here");
}

#[test]
fn closed_connection_answers_what_was_queued() {
    let mut host = host();
    let mut guest = guest();
    let (mut guest_pipe, mut host_pipe) = open(&mut guest, &mut host);
    send(&mut guest_pipe.reader, b"queued", &mut guest, &mut host);
    // The host's own socket ends while the chunk waits.
    close(&mut host_pipe.reader, ReaderEvent::Read(0), &mut host, &mut guest);
    assert_eq!(host.handle_data(chunk(b"late"), 2), Some(ack(2)));
    assert_eq!(drain(&mut host_pipe, &mut host), b"queued");
    finish(&mut host_pipe, &mut host);
}

#[test]
fn connections_opened_meanwhile_do_not_disturb() {
    let mut host = host();
    let mut guest = guest();
    let (mut guest_a, mut host_a) = open(&mut guest, &mut host);
    send(&mut guest_a.reader, b"a1", &mut guest, &mut host);
    let (mut guest_b, mut host_b) = open(&mut guest, &mut host);
    let written = pump(&mut guest_b.reader, b"b1", &mut guest, &mut host, &mut host_b);
    assert_eq!(written, b"b1");
    close(&mut guest_b.reader, ReaderEvent::Read(0), &mut guest, &mut host);
    finish(&mut host_b, &mut host);
    assert_eq!(drain(&mut host_a, &mut host), b"a1");
    answer(&mut guest_a.reader, &mut guest);
    let written = pump(&mut guest_a.reader, b"a2", &mut guest, &mut host, &mut host_a);
    assert_eq!(written, b"a2");
}

#[test]
fn each_open_has_its_own_stream_and_lane() {
    let mut host = host();
    let opened: Vec<(u64, &str, u64)> = vec![(7, "seven", 0), (3, "three", 1), (9, "nine", 2)];
    for (connection_id, agent, lane) in opened {
        let request = ForwardSshAgentOpen { connection_id };
        let (_, pipe, stream) = host.agent_connected::<&str, String>(request, Ok(agent)).unwrap();
        assert_eq!(pipe.reader.connection_id, connection_id);
        assert_eq!(pipe.writer.lane, lane);
        assert_eq!(stream, agent);
        let data = ForwardSshAgentData { connection_id, payload: agent.as_bytes().to_vec() };
        assert_eq!(host.handle_data(data, 1), None);
        let mut source = pipe.source;
        assert_eq!(block_on(source.next()), Some(agent.as_bytes().to_vec()));
    }
}

#[test]
fn reopening_an_id_replaces_its_sink() {
    let mut host = host();
    let request = ForwardSshAgentOpen { connection_id: 5 };
    let (_, mut first, _) = host.agent_connected::<(), String>(request, Ok(())).unwrap();
    let (_, mut second, _) = host.agent_connected::<(), String>(request, Ok(())).unwrap();
    let data = ForwardSshAgentData { connection_id: 5, payload: vec![7] };
    assert_eq!(host.handle_data(data, 1), None);
    assert_eq!(block_on(first.source.next()), None);
    assert_eq!(block_on(second.source.next()), Some(vec![7]));

    // The first writer task answers nothing of the second one's.
    let next = first.writer.step(WriterEvent::Received(None), &mut host.connections);
    assert_eq!(next, (WriterAction::Close, vec![]));
    let received = WriterEvent::Received(Some(vec![7]));
    second.writer.step(received, &mut host.connections);
    let next = second.writer.step(WriterEvent::Written(true), &mut host.connections);
    assert_eq!(next, (WriterAction::Receive, vec![ack(1)]));
}
