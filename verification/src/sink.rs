//! The queue between a connection's message handler and its writer task.
//!
//! Each tunneled connection owns one unbounded channel of the `futures` crate.
//! The sending half sits in the connection table; the receiving half goes to
//! the task that writes to the local socket.

use futures::channel::mpsc::{UnboundedReceiver, UnboundedSender};
use vstd::prelude::*;

verus! {

/// `futures::channel::mpsc::UnboundedSender`, carried as an opaque value.
#[verifier::external_type_specification]
#[verifier::external_body]
#[verifier::reject_recursive_types(T)]
pub struct ExUnboundedSender<T>(futures::channel::mpsc::UnboundedSender<T>);

/// `futures::channel::mpsc::UnboundedReceiver`, carried as an opaque value.
#[verifier::external_type_specification]
#[verifier::external_body]
#[verifier::reject_recursive_types(T)]
pub struct ExUnboundedReceiver<T>(futures::channel::mpsc::UnboundedReceiver<T>);

/// The write end of one tunneled connection: chunks pushed here are written to
/// the local socket by that connection's writer task. Dropping it ends the
/// writer task and closes the socket.
pub type ConnectionSink = UnboundedSender<Vec<u8>>;

/// The end from which a connection's writer task takes its chunks.
pub type ConnectionSource = UnboundedReceiver<Vec<u8>>;

/// The chunks handed to the channel through this sender, oldest first.
pub uninterp spec fn offered(sink: ConnectionSink) -> Seq<Seq<u8>>;

/// The chunks that the channel took through this sender, oldest first: those for
/// which `UnboundedSender::unbounded_send` returned `Ok`.
pub uninterp spec fn accepted_by(sink: ConnectionSink) -> Seq<Seq<u8>>;

/// Whether the sender sends to this receiver, as
/// `UnboundedSender::is_connected_to` tells it.
pub uninterp spec fn connected(sink: ConnectionSink, source: ConnectionSource) -> bool;

/// Calls `futures::channel::mpsc::unbounded`. Trusted: the two halves belong to
/// one fresh channel, through which nothing has been sent. The sender sends to
/// no other receiver: a channel has one, which cannot be cloned.
#[verifier::external_body]
pub(crate) fn open_channel() -> (halves: (ConnectionSink, ConnectionSource))
    ensures
        offered(halves.0) == Seq::<Seq<u8>>::empty(),
        accepted_by(halves.0) == Seq::<Seq<u8>>::empty(),
        forall|source: ConnectionSource|
            connected(halves.0, source) <==> source == halves.1,
{
    futures::channel::mpsc::unbounded()
}

/// Calls `UnboundedSender::unbounded_send` and tells whether the channel took the
/// chunk. Trusted: the chunk, and nothing else, is handed to the channel behind
/// every earlier one. It is queued there exactly where the call returns `Ok`.
/// The sender stays connected to the receivers that it was connected to.
///
/// The channel is first in, first out. It refuses a chunk once its receiver is
/// gone or closed, and refuses every later one too. When that is, is up to the
/// task that holds the receiver, so that it is left open which of the two comes.
/// The call panics at `usize::MAX / 2` queued chunks. Each of them is a heap node
/// of several words, so that no address space holds as many.
#[verifier::external_body]
pub(crate) fn send_chunk(sink: &mut ConnectionSink, chunk: Vec<u8>) -> (taken: bool)
    ensures
        offered(*final(sink)) == offered(*old(sink)).push(chunk@),
        accepted_by(*final(sink)) == if taken {
            accepted_by(*old(sink)).push(chunk@)
        } else {
            accepted_by(*old(sink))
        },
        forall|source: ConnectionSource|
            connected(*final(sink), source) == connected(*old(sink), source),
{
    sink.unbounded_send(chunk).is_ok()
}

} // verus!
