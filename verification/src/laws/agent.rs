//! Laws of the framing and of the bridge.

use vstd::prelude::*;

use crate::bridge;
use crate::bridge::{
    BridgeAction, BridgeEvent, BridgeInput, BridgeOutput, BridgeStage, BridgeState,
};
use crate::connector;
use crate::connector::{AgentError, AGENT_PIPE};
use crate::framing;
use crate::framing::{
    FrameError, FrameProgress, FrameReader, FrameStep, FrameView, HEADER_LEN, MAX_MSG_LEN,
};

verus! {

/// What reading one message off a stream comes to.
pub enum FrameRead {
    Message { message: Seq<u8>, rest: Seq<u8> },
    TooLarge,
    Incomplete,
}

/// Reads one message off a stream with the two exact reads of a
/// [`crate::framing::FrameReader`].
pub open spec fn read_framed(stream: Seq<u8>) -> FrameRead {
    if stream.len() < HEADER_LEN {
        FrameRead::Incomplete
    } else {
        match framing::frame_step(FrameView::Header, stream.take(HEADER_LEN as int)) {
            FrameStep::More(view) => {
                let end = HEADER_LEN + framing::frame_wants(view);
                if stream.len() < end {
                    FrameRead::Incomplete
                } else {
                    match framing::frame_step(view, stream.subrange(HEADER_LEN as int, end)) {
                        FrameStep::Done(message) => FrameRead::Message {
                            message,
                            rest: stream.skip(end),
                        },
                        _ => FrameRead::TooLarge,
                    }
                }
            },
            _ => FrameRead::TooLarge,
        }
    }
}

/// Reads `count` messages off a stream.
pub open spec fn read_many(stream: Seq<u8>, count: nat) -> Option<(Seq<Seq<u8>>, Seq<u8>)>
    decreases count,
{
    if count == 0 {
        Some((Seq::empty(), stream))
    } else {
        match read_many(stream, (count - 1) as nat) {
            Some((messages, left)) => match read_framed(left) {
                FrameRead::Message { message, rest } => Some((messages.push(message), rest)),
                _ => None,
            },
            None => None,
        }
    }
}

/// The messages with these bodies, each behind its length.
pub open spec fn all_framed(bodies: Seq<Seq<u8>>) -> Seq<Seq<u8>> {
    bodies.map_values(|body: Seq<u8>| framing::framed(body))
}

/// A length survives its four bytes.
pub proof fn law_length_is_read_back(n: nat)
    requires
        n < 0x1_0000_0000,
    ensures
        framing::be32(framing::be32_bytes(n)) == n,
{
    let b3 = n / 0x100_0000;
    let b2 = n / 0x1_0000 % 0x100;
    let b1 = n / 0x100 % 0x100;
    let b0 = n % 0x100;
    assert(b3 < 0x100);
    assert(n == b3 * 0x100_0000 + b2 * 0x1_0000 + b1 * 0x100 + b0);
}

/// A length is big-endian: the last byte counts ones, and each byte counts 256
/// times as much in the place before it.
pub proof fn law_length_is_big_endian(a: u8, b: u8, c: u8, d: u8)
    ensures
        framing::be32(seq![0u8, 0u8, 0u8, d]) == d,
        framing::be32(seq![a, b, c, d]) == 256 * framing::be32(seq![0u8, a, b, c]) + d,
        framing::be32(seq![a, b, c, d]) <= u32::MAX,
{
}

/// Only the first four bytes count for a length.
pub proof fn law_length_is_four_bytes(bytes: Seq<u8>)
    requires
        bytes.len() >= HEADER_LEN,
    ensures
        framing::be32(bytes) == framing::be32(seq![bytes[0], bytes[1], bytes[2], bytes[3]]),
{
}

/// Two length fields that stand for the same length are the same.
pub proof fn law_length_field_is_unique(one: Seq<u8>, two: Seq<u8>)
    requires
        one.len() == HEADER_LEN,
        two.len() == HEADER_LEN,
        framing::be32(one) == framing::be32(two),
    ensures
        one == two,
{
    assert(one[0] == two[0]);
    assert(one[1] == two[1]);
    assert(one[2] == two[2]);
    assert(one =~= two);
}

/// A framed message is four bytes that stand for the length of the body, and the
/// body, unchanged.
pub proof fn law_framed_is_length_and_body(body: Seq<u8>)
    requires
        body.len() < 0x1_0000_0000,
    ensures
        framing::framed(body).len() == body.len() + 4,
        framing::be32(framing::framed(body)) == body.len(),
        forall|i: int| 0 <= i < body.len() ==> framing::framed(body)[i + 4] == #[trigger] body[i],
{
    law_length_is_read_back(body.len());
    let head = framing::be32_bytes(body.len());
    assert(framing::be32(framing::framed(body)) == framing::be32(head));
}

/// The whole messages are exactly the framed bodies of at most [`MAX_MSG_LEN`]
/// bytes.
pub proof fn law_frame_is_a_framed_body(bytes: Seq<u8>)
    ensures
        framing::is_frame(bytes) <==> exists|body: Seq<u8>|
            body.len() <= MAX_MSG_LEN && bytes == #[trigger] framing::framed(body),
{
    if framing::is_frame(bytes) {
        let body = bytes.skip(HEADER_LEN as int);
        let head = bytes.take(HEADER_LEN as int);
        law_length_is_read_back(body.len());
        law_length_field_is_unique(head, framing::be32_bytes(body.len()));
        assert(bytes =~= framing::framed(body));
    }
    if exists|body: Seq<u8>|
        body.len() <= MAX_MSG_LEN && bytes == #[trigger] framing::framed(body) {
        let body = choose|body: Seq<u8>|
            body.len() <= MAX_MSG_LEN && bytes == #[trigger] framing::framed(body);
        law_framed_is_length_and_body(body);
    }
}

/// A reader first asks for four bytes. Where they stand for a length of at most
/// [`MAX_MSG_LEN`], it asks for exactly that many more, and gives the four bytes
/// and those, unchanged. A larger length is refused at once.
pub proof fn law_reader_asks_for_the_length_then_the_body(header: Seq<u8>, body: Seq<u8>)
    requires
        header.len() == 4,
    ensures
        framing::frame_wants(FrameView::Header) == 4,
        framing::be32(header) > MAX_MSG_LEN ==> framing::frame_step(FrameView::Header, header)
            is TooLarge,
        framing::be32(header) <= MAX_MSG_LEN ==> (framing::frame_step(
            FrameView::Header,
            header,
        ) matches FrameStep::More(view) && {
            &&& framing::frame_wants(view) == framing::be32(header)
            &&& framing::frame_step(view, body) matches FrameStep::Done(message) && {
                &&& message.len() == 4 + body.len()
                &&& forall|i: int| 0 <= i < 4 ==> message[i] == header[i]
                &&& forall|i: int| 0 <= i < body.len() ==> message[i + 4] == #[trigger] body[i]
            }
        }),
{
}

/// What a [`crate::framing::FrameReader`] returns stands for itself: the bytes of
/// a message are not changed by the model, nor is the reader that goes on.
pub proof fn law_progress_is_what_was_returned(reader: FrameReader, message: Vec<u8>)
    ensures
        framing::progress_view(Ok(FrameProgress::More(reader))) matches FrameStep::More(view)
            && view == reader@,
        framing::progress_view(Ok(FrameProgress::Done(message))) matches FrameStep::Done(bytes)
            && bytes == message@,
        framing::progress_view(Err(FrameError::TooLarge)) is TooLarge,
{
}

/// A message is read back from a stream that starts with it, up to its end and
/// no further. A body that is too long is refused by its length field.
pub proof fn law_message_is_read_back(body: Seq<u8>, rest: Seq<u8>)
    requires
        body.len() < 0x1_0000_0000,
    ensures
        body.len() <= MAX_MSG_LEN ==> read_framed(framing::framed(body) + rest)
            == (FrameRead::Message { message: framing::framed(body), rest }),
        body.len() > MAX_MSG_LEN ==> read_framed(framing::framed(body) + rest)
            == FrameRead::TooLarge,
{
    let stream = framing::framed(body) + rest;
    law_length_is_read_back(body.len());
    assert(stream.take(HEADER_LEN as int) =~= framing::be32_bytes(body.len()));
    if body.len() <= MAX_MSG_LEN {
        let end = HEADER_LEN + body.len();
        assert(stream.subrange(HEADER_LEN as int, end as int) =~= body);
        assert(stream.skip(end as int) =~= rest);
    }
}

/// Nothing is lost or added: a message that is read is one whole frame, and
/// with what is left it makes up the stream.
pub proof fn law_message_is_start_of_stream(stream: Seq<u8>)
    ensures
        read_framed(stream) matches FrameRead::Message { message, rest } ==> {
            &&& framing::is_frame(message)
            &&& stream == message + rest
        },
{
    if let FrameRead::Message { message, rest } = read_framed(stream) {
        let header = stream.take(HEADER_LEN as int);
        assert(framing::be32(message) == framing::be32(header));
        assert(stream =~= message + rest);
    }
}

/// A stream of messages is cut at the message boundaries.
pub proof fn law_stream_is_cut_into_messages(bodies: Seq<Seq<u8>>, rest: Seq<u8>)
    requires
        forall|i: int| 0 <= i < bodies.len() ==> #[trigger] bodies[i].len() <= MAX_MSG_LEN,
    ensures
        read_many(all_framed(bodies).flatten() + rest, bodies.len()) == Some(
            (all_framed(bodies), rest),
        ),
    decreases bodies.len(),
{
    if bodies.len() == 0 {
        assert(all_framed(bodies) =~= Seq::<Seq<u8>>::empty());
        assert(all_framed(bodies).flatten() + rest =~= rest);
    } else {
        let before = bodies.drop_last();
        let message = framing::framed(bodies.last());
        assert(all_framed(bodies) =~= all_framed(before).push(message));
        all_framed(before).lemma_flatten_push(message);
        assert(all_framed(bodies).flatten() + rest =~= all_framed(before).flatten() + (message
            + rest));
        law_stream_is_cut_into_messages(before, message + rest);
        law_message_is_read_back(bodies.last(), rest);
    }
}

/// A whole frame is read off a stream that starts with it.
pub proof fn law_frame_is_read_off(frame: Seq<u8>, rest: Seq<u8>)
    requires
        framing::is_frame(frame),
    ensures
        read_framed(frame + rest) == (FrameRead::Message { message: frame, rest }),
{
    let stream = frame + rest;
    let header = stream.take(HEADER_LEN as int);
    let end = frame.len() as int;
    assert(framing::be32(header) == framing::be32(frame));
    assert(header + stream.subrange(HEADER_LEN as int, end) =~= frame);
    assert(stream.skip(end) =~= rest);
}

/// A stream of whole frames is cut into those frames.
pub proof fn law_frames_are_read_off(frames: Seq<Seq<u8>>, rest: Seq<u8>)
    requires
        forall|i: int| 0 <= i < frames.len() ==> framing::is_frame(#[trigger] frames[i]),
    ensures
        read_many(frames.flatten() + rest, frames.len()) == Some((frames, rest)),
    decreases frames.len(),
{
    if frames.len() == 0 {
        assert(frames =~= Seq::<Seq<u8>>::empty());
        assert(frames.flatten() + rest =~= rest);
    } else {
        let before = frames.drop_last();
        let frame = frames.last();
        assert(frames =~= before.push(frame));
        before.lemma_flatten_push(frame);
        assert(frames.flatten() + rest =~= before.flatten() + (frame + rest));
        assert(forall|i: int| 0 <= i < before.len() ==> before[i] == frames[i]);
        law_frames_are_read_off(before, frame + rest);
        law_frame_is_read_off(frame, rest);
    }
}

/// What a bridge has done.
pub struct BridgeTrace {
    pub state: BridgeState,
    /// The bytes read from the tunnel.
    pub from_tunnel: Seq<u8>,
    /// The messages handed to the agent.
    pub requests: Seq<Seq<u8>>,
    /// The bytes read from the agent.
    pub from_agent: Seq<u8>,
    /// The messages handed to the tunnel.
    pub replies: Seq<Seq<u8>>,
}

/// What a bridge has done after these inputs.
pub open spec fn bridge_run(inputs: Seq<BridgeInput>) -> BridgeTrace
    decreases inputs.len(),
{
    if inputs.len() == 0 {
        BridgeTrace {
            state: BridgeState::ReadingRequest(FrameView::Header),
            from_tunnel: Seq::empty(),
            requests: Seq::empty(),
            from_agent: Seq::empty(),
            replies: Seq::empty(),
        }
    } else {
        let before = bridge_run(inputs.drop_last());
        let (state, output) = bridge::bridge_next(before.state, inputs.last());
        BridgeTrace {
            state,
            from_tunnel: match (before.state, inputs.last()) {
                (BridgeState::ReadingRequest(_), BridgeInput::Filled(bytes)) => before.from_tunnel
                    + bytes,
                _ => before.from_tunnel,
            },
            requests: match output {
                BridgeOutput::WriteRequest(message) => before.requests.push(message),
                _ => before.requests,
            },
            from_agent: match (before.state, inputs.last()) {
                (BridgeState::ReadingReply(_), BridgeInput::Filled(bytes)) => before.from_agent
                    + bytes,
                _ => before.from_agent,
            },
            replies: match output {
                BridgeOutput::WriteReply(message) => before.replies.push(message),
                _ => before.replies,
            },
        }
    }
}

/// Whether each of the inputs can come where it comes.
pub open spec fn bridge_can(inputs: Seq<BridgeInput>) -> bool
    decreases inputs.len(),
{
    inputs.len() > 0 ==> {
        &&& bridge_can(inputs.drop_last())
        &&& bridge::bridge_expects(bridge_run(inputs.drop_last()).state, inputs.last())
    }
}

/// What was read of a message that is not whole yet.
pub open spec fn partial(view: FrameView) -> Seq<u8> {
    match view {
        FrameView::Header => Seq::empty(),
        FrameView::Body { header } => header,
    }
}

/// Whether a length field that was read is one that a reader goes on with.
pub open spec fn partial_is_valid(view: FrameView) -> bool {
    view matches FrameView::Body { header } ==> {
        &&& header.len() == HEADER_LEN
        &&& framing::be32(header) <= MAX_MSG_LEN
    }
}

/// The bridge is byte-transparent: the agent is handed, in whole messages, the
/// bytes that were read from the tunnel, in order and unchanged, and so is the
/// tunnel of the agent's bytes. What is held back is a message that is not
/// whole yet.
///
/// The bridge is half-duplex: a request is read only when every earlier one was
/// replied to, and a reply only when exactly one request is without.
pub proof fn law_bridge_is_transparent_and_half_duplex(inputs: Seq<BridgeInput>)
    requires
        bridge_can(inputs),
    ensures
        ({
            let trace = bridge_run(inputs);
            &&& trace.requests.flatten().is_prefix_of(trace.from_tunnel)
            &&& trace.replies.flatten().is_prefix_of(trace.from_agent)
            &&& forall|i: int|
                0 <= i < trace.requests.len() ==> framing::is_frame(#[trigger] trace.requests[i])
            &&& forall|i: int|
                0 <= i < trace.replies.len() ==> framing::is_frame(#[trigger] trace.replies[i])
            &&& trace.replies.len() <= trace.requests.len() <= trace.replies.len() + 1
            &&& match trace.state {
                BridgeState::ReadingRequest(view) => {
                    &&& partial_is_valid(view)
                    &&& trace.requests.len() == trace.replies.len()
                    &&& trace.from_tunnel == trace.requests.flatten() + partial(view)
                    &&& trace.from_agent == trace.replies.flatten()
                },
                BridgeState::WritingRequest => {
                    &&& trace.requests.len() == trace.replies.len() + 1
                    &&& trace.from_tunnel == trace.requests.flatten()
                    &&& trace.from_agent == trace.replies.flatten()
                },
                BridgeState::ReadingReply(view) => {
                    &&& partial_is_valid(view)
                    &&& trace.requests.len() == trace.replies.len() + 1
                    &&& trace.from_tunnel == trace.requests.flatten()
                    &&& trace.from_agent == trace.replies.flatten() + partial(view)
                },
                BridgeState::WritingReply => {
                    &&& trace.requests.len() == trace.replies.len()
                    &&& trace.from_tunnel == trace.requests.flatten()
                    &&& trace.from_agent == trace.replies.flatten()
                },
                BridgeState::Stopped => true,
            }
        }),
    decreases inputs.len(),
{
    if inputs.len() > 0 {
        law_bridge_is_transparent_and_half_duplex(inputs.drop_last());
        let before = bridge_run(inputs.drop_last());
        let trace = bridge_run(inputs);
        match (before.state, inputs.last()) {
            (BridgeState::ReadingRequest(view), BridgeInput::Filled(bytes)) => {
                if let FrameStep::Done(message) = framing::frame_step(view, bytes) {
                    let header = view->header;
                    assert(framing::be32(message) == framing::be32(header));
                    before.requests.lemma_flatten_push(message);
                    assert(trace.from_tunnel =~= before.requests.flatten() + message);
                }
            },
            (BridgeState::ReadingReply(view), BridgeInput::Filled(bytes)) => {
                if let FrameStep::Done(message) = framing::frame_step(view, bytes) {
                    let header = view->header;
                    assert(framing::be32(message) == framing::be32(header));
                    before.replies.lemma_flatten_push(message);
                    assert(trace.from_agent =~= before.replies.flatten() + message);
                }
            },
            _ => {},
        }
    }
}

/// The bridge keeps the message boundaries: the requests are exactly the first
/// messages that the bytes read from the tunnel are cut into, and the replies
/// those of the agent's bytes.
pub proof fn law_bridge_cuts_at_message_boundaries(inputs: Seq<BridgeInput>)
    requires
        bridge_can(inputs),
    ensures
        ({
            let trace = bridge_run(inputs);
            &&& read_many(trace.from_tunnel, trace.requests.len()) == Some(
                (
                    trace.requests,
                    trace.from_tunnel.skip(trace.requests.flatten().len() as int),
                ),
            )
            &&& read_many(trace.from_agent, trace.replies.len()) == Some(
                (trace.replies, trace.from_agent.skip(trace.replies.flatten().len() as int)),
            )
        }),
{
    let trace = bridge_run(inputs);
    law_bridge_is_transparent_and_half_duplex(inputs);
    let left = trace.from_tunnel.skip(trace.requests.flatten().len() as int);
    assert(trace.from_tunnel =~= trace.requests.flatten() + left);
    law_frames_are_read_off(trace.requests, left);
    let left = trace.from_agent.skip(trace.replies.flatten().len() as int);
    assert(trace.from_agent =~= trace.replies.flatten() + left);
    law_frames_are_read_off(trace.replies, left);
}

/// The bridge hands on every request, up to the largest: for each body of at most
/// [`MAX_MSG_LEN`] bytes it asks for as many bytes as the length field says, and
/// once it has them writes the whole message to the agent.
pub proof fn law_bridge_hands_on_every_request(body: Seq<u8>)
    requires
        body.len() <= MAX_MSG_LEN,
    ensures
        ({
            let message = framing::framed(body);
            let header = BridgeInput::Filled(message.take(4));
            let rest = BridgeInput::Filled(body);
            let start = BridgeState::ReadingRequest(FrameView::Header);
            let (reading, asks) = bridge::bridge_next(start, header);
            let (writing, writes) = bridge::bridge_next(reading, rest);
            &&& bridge::bridge_expects(start, header)
            &&& reading is ReadingRequest
            &&& asks matches BridgeOutput::ReadRequest(n) && n == body.len()
            &&& bridge::bridge_expects(reading, rest)
            &&& writing is WritingRequest
            &&& writes matches BridgeOutput::WriteRequest(written) && written == message
        }),
{
    law_length_is_read_back(body.len());
    assert(framing::framed(body).take(4) =~= framing::be32_bytes(body.len()));
}

/// The bridge hands back every reply, up to the largest, in the same way.
pub proof fn law_bridge_hands_back_every_reply(body: Seq<u8>)
    requires
        body.len() <= MAX_MSG_LEN,
    ensures
        ({
            let message = framing::framed(body);
            let header = BridgeInput::Filled(message.take(4));
            let rest = BridgeInput::Filled(body);
            let start = BridgeState::ReadingReply(FrameView::Header);
            let (reading, asks) = bridge::bridge_next(start, header);
            let (writing, writes) = bridge::bridge_next(reading, rest);
            &&& bridge::bridge_expects(start, header)
            &&& reading is ReadingReply
            &&& asks matches BridgeOutput::ReadReply(n) && n == body.len()
            &&& bridge::bridge_expects(reading, rest)
            &&& writing is WritingReply
            &&& writes matches BridgeOutput::WriteReply(written) && written == message
        }),
{
    law_length_is_read_back(body.len());
    assert(framing::framed(body).take(4) =~= framing::be32_bytes(body.len()));
}

/// A request and a reply that were written bring the bridge to the next message:
/// it asks for the four bytes of a length.
pub proof fn law_bridge_takes_turns()
    ensures
        ({
            let written = BridgeInput::Written;
            let (replying, asks) = bridge::bridge_next(BridgeState::WritingRequest, written);
            let (requesting, asks_again) = bridge::bridge_next(BridgeState::WritingReply, written);
            &&& bridge::bridge_expects(BridgeState::WritingRequest, written)
            &&& bridge::bridge_expects(BridgeState::WritingReply, written)
            &&& replying == BridgeState::ReadingReply(FrameView::Header)
            &&& requesting == BridgeState::ReadingRequest(FrameView::Header)
            &&& asks matches BridgeOutput::ReadReply(n) && n == 4
            &&& asks_again matches BridgeOutput::ReadRequest(n) && n == 4
        }),
{
}

/// Every read that the bridge asks for is the one that it then expects: a read of
/// as many bytes as it asked for, from the side that it asked for, and of no
/// other number. What it writes follows from where it stands.
pub proof fn law_bridge_asks_for_what_it_expects(
    state: BridgeState,
    input: BridgeInput,
    bytes: Seq<u8>,
)
    requires
        bridge::bridge_expects(state, input),
    ensures
        ({
            let (next, output) = bridge::bridge_next(state, input);
            let filled = BridgeInput::Filled(bytes);
            &&& match output {
                BridgeOutput::ReadRequest(n) => next is ReadingRequest && (bytes.len() == n
                    <==> bridge::bridge_expects(next, filled)),
                BridgeOutput::ReadReply(n) => next is ReadingReply && (bytes.len() == n
                    <==> bridge::bridge_expects(next, filled)),
                BridgeOutput::WriteRequest(_) => {
                    &&& next is WritingRequest
                    &&& bridge::bridge_expects(next, BridgeInput::Written)
                    &&& !bridge::bridge_expects(next, filled)
                },
                BridgeOutput::WriteReply(_) => {
                    &&& next is WritingReply
                    &&& bridge::bridge_expects(next, BridgeInput::Written)
                    &&& !bridge::bridge_expects(next, filled)
                },
                BridgeOutput::Stop => next is Stopped,
            }
            &&& next !is Stopped ==> bridge::bridge_expects(next, BridgeInput::Failed)
            &&& next is Stopped ==> forall|any: BridgeInput|
                !#[trigger] bridge::bridge_expects(next, any)
        }),
{
}

/// Whether an input, coming in this state, takes a bridge down: a read or a write
/// that failed, or a length field over [`MAX_MSG_LEN`].
pub open spec fn takes_down(state: BridgeState, input: BridgeInput) -> bool {
    match input {
        BridgeInput::Failed => true,
        BridgeInput::Written => false,
        BridgeInput::Filled(bytes) => {
            &&& (state == BridgeState::ReadingRequest(FrameView::Header) || state
                == BridgeState::ReadingReply(FrameView::Header))
            &&& framing::be32(bytes) > MAX_MSG_LEN
        },
    }
}

/// A bridge goes down on a failed read or write and on a length field over
/// [`MAX_MSG_LEN`], and on nothing else. Nothing comes after that.
pub proof fn law_bridge_goes_on_unless_there_is_cause(inputs: Seq<BridgeInput>)
    requires
        bridge_can(inputs),
    ensures
        bridge_run(inputs).state is Stopped <==> inputs.len() > 0 && takes_down(
            bridge_run(inputs.drop_last()).state,
            inputs.last(),
        ),
        inputs.len() > 0 ==> bridge_run(inputs.drop_last()).state !is Stopped,
{
}

/// What a bridge is told, does and stands at is what its model says: the bytes and
/// the numbers are the same.
pub proof fn law_bridge_model_is_what_happens(bytes: Vec<u8>, n: usize, reader: FrameReader)
    ensures
        BridgeEvent::Filled(bytes)@ matches BridgeInput::Filled(b) && b == bytes@,
        BridgeEvent::Written@ is Written,
        BridgeEvent::Failed@ is Failed,
        BridgeAction::ReadRequest(n)@ matches BridgeOutput::ReadRequest(m) && m == n,
        BridgeAction::ReadReply(n)@ matches BridgeOutput::ReadReply(m) && m == n,
        BridgeAction::WriteRequest(bytes)@ matches BridgeOutput::WriteRequest(b) && b == bytes@,
        BridgeAction::WriteReply(bytes)@ matches BridgeOutput::WriteReply(b) && b == bytes@,
        BridgeAction::Stop@ is Stop,
        BridgeStage::ReadingRequest(reader)@ matches BridgeState::ReadingRequest(view) && view
            == reader@,
        BridgeStage::ReadingReply(reader)@ matches BridgeState::ReadingReply(view) && view
            == reader@,
        BridgeStage::WritingRequest@ is WritingRequest,
        BridgeStage::WritingReply@ is WritingReply,
        BridgeStage::Stopped@ is Stopped,
{
}

/// An error names what it is about, whole: the socket that was tried and the
/// cause, or the pipe and the cause. Errors with different causes read
/// differently.
pub proof fn law_error_names_what_failed(socket_path: String, cause: String, other: String)
    ensures
        ({
            let socket = connector::error_text(AgentError::SocketConnect { socket_path, cause });
            let pipe = connector::error_text(AgentError::PipeConnect { cause });
            let at = "connecting to ssh-agent at "@.len() as int;
            let named = socket.subrange(at, at + socket_path@.len());
            &&& socket.len() == at + socket_path@.len() + ": "@.len() + cause@.len()
            &&& named == socket_path@
            &&& cause@.is_suffix_of(socket)
            &&& pipe.len() == "connecting to ssh-agent pipe "@.len() + AGENT_PIPE@.len()
                + ": "@.len() + cause@.len()
            &&& cause@.is_suffix_of(pipe)
            &&& cause@ != other@ ==> {
                &&& socket != connector::error_text(
                    AgentError::SocketConnect { socket_path, cause: other },
                )
                &&& pipe != connector::error_text(AgentError::PipeConnect { cause: other })
            }
        }),
{
    let socket = connector::error_text(AgentError::SocketConnect { socket_path, cause });
    let pipe = connector::error_text(AgentError::PipeConnect { cause });
    let at = "connecting to ssh-agent at "@.len() as int;
    assert(socket.subrange(at, at + socket_path@.len()) =~= socket_path@);
    assert(socket.subrange(socket.len() - cause@.len(), socket.len() as int) =~= cause@);
    assert(pipe.subrange(pipe.len() - cause@.len(), pipe.len() as int) =~= cause@);
    let socket2 = connector::error_text(AgentError::SocketConnect { socket_path, cause: other });
    let pipe2 = connector::error_text(AgentError::PipeConnect { cause: other });
    assert(socket2.subrange(socket2.len() - other@.len(), socket2.len() as int) =~= other@);
    assert(pipe2.subrange(pipe2.len() - other@.len(), pipe2.len() as int) =~= other@);
}

} // verus!
