//! The receiving task of a connection: the decisions it takes while it reads
//! frames from the stream and hands the messages in them on.
use crate::frame::{bytes_size, decode_size, MessageSize, DELIMITER};
use crate::message::{
    client_payload_message, deserialize_client_message, deserialize_server_message,
    server_payload_message, DeserializeError, ReliableClientMessage, ReliableServerMessage,
};
use crate::side::Side;
use vstd::prelude::*;

verus! {

/// What the receiving task does next.
#[derive(Debug, Clone, Copy, PartialEq, Eq, Structural)]
pub enum ReceivePhase {
    /// Look whether the connection was cancelled.
    CheckCancel,
    /// Read the delimiter of the next frame.
    ReadDelimiter,
    /// Read the length of the body.
    ReadSize,
    /// Read a body of `size` bytes.
    ReadBody { size: u32 },
    /// Read the body as a message.
    Decode,
    /// Hand the message on.
    Deliver,
    /// Nothing: the task has ended.
    Stopped,
    /// Nothing: the task ends with a panic.
    Crashed,
}

/// How a phase turned out.
#[derive(Debug, Clone, Copy)]
pub enum ReceiveEvent {
    /// Whether the connection was cancelled.
    Cancelled(bool),
    /// The bytes in the place of the delimiter, if they could be read.
    Delimiter(Option<[u8; 1]>),
    /// The bytes of the length, if they could be read.
    Size(Option<MessageSize>),
    /// Whether the body could be read.
    Body(bool),
    /// Whether the body is a message.
    Decoded(bool),
    /// Whether the message was handed on.
    Delivered(bool),
}

/// What the receiving task reports.
#[derive(Debug, Clone, Copy, PartialEq, Eq, Structural)]
pub enum ReceiveNotice {
    /// The task stops because the connection was cancelled.
    Cancelled,
    /// The delimiter could not be read.
    DelimiterUnread,
    /// Something else stood in the place of the delimiter.
    DelimiterInvalid,
    /// The length could not be read.
    SizeUnread,
    /// The body could not be read.
    BodyUnread,
    /// The message could not be handed on.
    Undelivered,
}

/// The outcome of a phase: the next phase, and what there is to report.
#[derive(Debug, Clone, Copy, PartialEq, Eq, Structural)]
pub struct ReceiveStep {
    pub next: ReceivePhase,
    pub notice: Option<ReceiveNotice>,
}

/// The event is one in which the phase can turn out.
pub open spec fn receive_answers(phase: ReceivePhase, event: ReceiveEvent) -> bool {
    match phase {
        ReceivePhase::CheckCancel => event is Cancelled,
        ReceivePhase::ReadDelimiter => event is Delimiter,
        ReceivePhase::ReadSize => event is Size,
        ReceivePhase::ReadBody { .. } => event is Body,
        ReceivePhase::Decode => event is Decoded,
        ReceivePhase::Deliver => event is Delivered,
        ReceivePhase::Stopped => false,
        ReceivePhase::Crashed => false,
    }
}

/// A step without a report.
pub open spec fn silent_receive(next: ReceivePhase) -> ReceiveStep {
    ReceiveStep { next, notice: None }
}

/// A step with a report.
pub open spec fn reported_receive(next: ReceivePhase, notice: ReceiveNotice) -> ReceiveStep {
    ReceiveStep { next, notice: Some(notice) }
}

/// The step that follows an event. Where one side is told from the other, the
/// server gives up a stream that has ended and takes a message that cannot be
/// handed on for a defect, while the client goes on.
pub open spec fn receive_next(side: Side, event: ReceiveEvent) -> ReceiveStep {
    match event {
        ReceiveEvent::Cancelled(true) => reported_receive(
            ReceivePhase::Stopped,
            ReceiveNotice::Cancelled,
        ),
        ReceiveEvent::Cancelled(false) => silent_receive(ReceivePhase::ReadDelimiter),
        ReceiveEvent::Delimiter(None) => reported_receive(
            match side {
                Side::Client => ReceivePhase::CheckCancel,
                Side::Server => ReceivePhase::Stopped,
            },
            ReceiveNotice::DelimiterUnread,
        ),
        ReceiveEvent::Delimiter(Some(bytes)) => if bytes@ == DELIMITER@ {
            silent_receive(ReceivePhase::ReadSize)
        } else {
            reported_receive(ReceivePhase::CheckCancel, ReceiveNotice::DelimiterInvalid)
        },
        ReceiveEvent::Size(None) => reported_receive(
            ReceivePhase::CheckCancel,
            ReceiveNotice::SizeUnread,
        ),
        ReceiveEvent::Size(Some(bytes)) => silent_receive(
            ReceivePhase::ReadBody { size: bytes_size(bytes@) as u32 },
        ),
        ReceiveEvent::Body(true) => silent_receive(ReceivePhase::Decode),
        ReceiveEvent::Body(false) => match side {
            Side::Client => reported_receive(
                ReceivePhase::CheckCancel,
                ReceiveNotice::BodyUnread,
            ),
            Side::Server => silent_receive(ReceivePhase::CheckCancel),
        },
        ReceiveEvent::Decoded(true) => silent_receive(ReceivePhase::Deliver),
        ReceiveEvent::Decoded(false) => silent_receive(ReceivePhase::Crashed),
        ReceiveEvent::Delivered(true) => silent_receive(ReceivePhase::CheckCancel),
        ReceiveEvent::Delivered(false) => match side {
            Side::Client => reported_receive(
                ReceivePhase::CheckCancel,
                ReceiveNotice::Undelivered,
            ),
            Side::Server => silent_receive(ReceivePhase::Crashed),
        },
    }
}

/// The client's receiving task stops if and only if it finds the connection
/// cancelled; the server's stops also where it cannot read a delimiter, since
/// the client has then disconnected.
pub proof fn law_receive_stops(side: Side, event: ReceiveEvent)
    ensures
        receive_next(side, event).next is Stopped <==> {
            ||| event == ReceiveEvent::Cancelled(true)
            ||| side is Server && event == ReceiveEvent::Delimiter(None)
        },
{
}

/// The receiving task panics if and only if a body is no message or, at the
/// server, a message cannot be handed on.
pub proof fn law_receive_crashes(side: Side, event: ReceiveEvent)
    ensures
        receive_next(side, event).next is Crashed <==> {
            ||| event == ReceiveEvent::Decoded(false)
            ||| side is Server && event == ReceiveEvent::Delivered(false)
        },
{
}

/// A message is handed on only after a delimiter, a length, a body of that
/// length and a message in that body were read in this order: each of the
/// phases is entered from the one before it alone.
pub proof fn law_receive_order(side: Side, event: ReceiveEvent)
    ensures
        receive_next(side, event).next is Deliver <==> event == ReceiveEvent::Decoded(true),
        receive_next(side, event).next is Decode <==> event == ReceiveEvent::Body(true),
        receive_next(side, event).next is ReadBody <==> event is Size && event->Size_0 is Some,
        receive_next(side, event).next is ReadSize <==> event is Delimiter && event->Delimiter_0
            is Some && event->Delimiter_0->0@ == DELIMITER@,
        receive_next(side, event).next is ReadDelimiter <==> event == ReceiveEvent::Cancelled(
            false,
        ),
{
}

/// How many phases lie at most between a phase and the next look at the
/// cancel flag.
pub open spec fn phases_to_cancel_check(phase: ReceivePhase) -> nat {
    match phase {
        ReceivePhase::ReadDelimiter => 5,
        ReceivePhase::ReadSize => 4,
        ReceivePhase::ReadBody { .. } => 3,
        ReceivePhase::Decode => 2,
        ReceivePhase::Deliver => 1,
        _ => 0,
    }
}

/// Between two looks at the cancel flag the receiving task reads one frame at
/// most: however a phase turns out, the next look comes nearer, unless the
/// task ends.
pub proof fn law_receive_looks_for_cancel(side: Side, phase: ReceivePhase, event: ReceiveEvent)
    requires
        receive_answers(phase, event),
        !(phase is CheckCancel),
    ensures
        phases_to_cancel_check(receive_next(side, event).next) < phases_to_cancel_check(phase),
{
}

/// Takes the step that follows an event.
pub fn receive_step(side: Side, event: ReceiveEvent) -> (step: ReceiveStep)
    ensures
        step == receive_next(side, event),
{
    match event {
        ReceiveEvent::Cancelled(cancelled) => if cancelled {
            ReceiveStep { next: ReceivePhase::Stopped, notice: Some(ReceiveNotice::Cancelled) }
        } else {
            ReceiveStep { next: ReceivePhase::ReadDelimiter, notice: None }
        },
        ReceiveEvent::Delimiter(None) => {
            let next = match side {
                Side::Client => ReceivePhase::CheckCancel,
                Side::Server => ReceivePhase::Stopped,
            };
            ReceiveStep { next, notice: Some(ReceiveNotice::DelimiterUnread) }
        },
        ReceiveEvent::Delimiter(Some(bytes)) => {
            if bytes[0] == DELIMITER[0] {
                assert(bytes@ =~= DELIMITER@);
                ReceiveStep { next: ReceivePhase::ReadSize, notice: None }
            } else {
                assert(bytes@[0] != DELIMITER@[0]);
                ReceiveStep {
                    next: ReceivePhase::CheckCancel,
                    notice: Some(ReceiveNotice::DelimiterInvalid),
                }
            }
        },
        ReceiveEvent::Size(None) => ReceiveStep {
            next: ReceivePhase::CheckCancel,
            notice: Some(ReceiveNotice::SizeUnread),
        },
        ReceiveEvent::Size(Some(bytes)) => ReceiveStep {
            next: ReceivePhase::ReadBody { size: decode_size(bytes) },
            notice: None,
        },
        ReceiveEvent::Body(read) => if read {
            ReceiveStep { next: ReceivePhase::Decode, notice: None }
        } else {
            let notice = match side {
                Side::Client => Some(ReceiveNotice::BodyUnread),
                Side::Server => None,
            };
            ReceiveStep { next: ReceivePhase::CheckCancel, notice }
        },
        ReceiveEvent::Decoded(decoded) => {
            let next = if decoded {
                ReceivePhase::Deliver
            } else {
                ReceivePhase::Crashed
            };
            ReceiveStep { next, notice: None }
        },
        ReceiveEvent::Delivered(delivered) => if delivered {
            ReceiveStep { next: ReceivePhase::CheckCancel, notice: None }
        } else {
            match side {
                Side::Client => ReceiveStep {
                    next: ReceivePhase::CheckCancel,
                    notice: Some(ReceiveNotice::Undelivered),
                },
                Side::Server => ReceiveStep { next: ReceivePhase::Crashed, notice: None },
            }
        },
    }
}

/// Reads a body at the server: the event in which this turns out, and the
/// message to hand on or the error to report.
pub fn decode_at_server(body: &[u8]) -> (outcome: (
    ReceiveEvent,
    Result<ReliableClientMessage, DeserializeError>,
))
    ensures
        outcome.0 == ReceiveEvent::Decoded(client_payload_message(body@) is Some),
        outcome.0 == ReceiveEvent::Decoded(outcome.1 is Ok),
        match client_payload_message(body@) {
            Some(message) => outcome.1 is Ok && outcome.1->Ok_0@ == message,
            None => outcome.1 is Err,
        },
        call_ensures(deserialize_client_message, (body,), outcome.1),
{
    let read = deserialize_client_message(body);
    (ReceiveEvent::Decoded(read.is_ok()), read)
}

/// Reads a body at the client: the event in which this turns out, and the
/// message to hand on or the error to report.
pub fn decode_at_client(body: &[u8]) -> (outcome: (
    ReceiveEvent,
    Result<ReliableServerMessage, DeserializeError>,
))
    ensures
        outcome.0 == ReceiveEvent::Decoded(server_payload_message(body@) is Some),
        outcome.0 == ReceiveEvent::Decoded(outcome.1 is Ok),
        match server_payload_message(body@) {
            Some(message) => outcome.1 is Ok && outcome.1->Ok_0@ == message,
            None => outcome.1 is Err,
        },
        call_ensures(deserialize_server_message, (body,), outcome.1),
{
    let read = deserialize_server_message(body);
    (ReceiveEvent::Decoded(read.is_ok()), read)
}

/// A frame begins with the byte `0x7e` and nothing else, and the body that is
/// then read has the length that the four bytes of the length make up, the most
/// significant one first.
pub proof fn law_header_is_obeyed(side: Side, delimiter: [u8; 1], size: MessageSize)
    ensures
        receive_next(side, ReceiveEvent::Delimiter(Some(delimiter))).next == if delimiter@[0]
            == 0x7e {
            ReceivePhase::ReadSize
        } else {
            ReceivePhase::CheckCancel
        },
        receive_next(side, ReceiveEvent::Size(Some(size))).next matches ReceivePhase::ReadBody {
            size: told,
        } && told == size@[0] * 0x100_0000 + size@[1] * 0x1_0000 + size@[2] * 0x100 + size@[3],
{
    if delimiter@[0] == 0x7e {
        assert(delimiter@ =~= DELIMITER@);
    }
}

/// What the receiving task reports, and on what: every failure to read, but for
/// a body at the server; a byte that is no delimiter; a message that the client
/// could not hand on; and that it was cancelled.
pub proof fn law_receive_reports(side: Side, event: ReceiveEvent)
    ensures
        ({
            let notice = receive_next(side, event).notice;
            &&& notice == Some(ReceiveNotice::Cancelled) <==> event == ReceiveEvent::Cancelled(true)
            &&& notice == Some(ReceiveNotice::DelimiterUnread) <==> event
                == ReceiveEvent::Delimiter(None)
            &&& notice == Some(ReceiveNotice::DelimiterInvalid) <==> (event
                matches ReceiveEvent::Delimiter(Some(bytes)) && bytes@[0] != 0x7e)
            &&& notice == Some(ReceiveNotice::SizeUnread) <==> event == ReceiveEvent::Size(None)
            &&& notice == Some(ReceiveNotice::BodyUnread) <==> side is Client && event
                == ReceiveEvent::Body(false)
            &&& notice == Some(ReceiveNotice::Undelivered) <==> side is Client && event
                == ReceiveEvent::Delivered(false)
        }),
{
    if let ReceiveEvent::Delimiter(Some(bytes)) = event {
        if bytes@[0] == 0x7e {
            assert(bytes@ =~= DELIMITER@);
        }
    }
}

/// The receiving task is back at the start of a frame after a message was
/// handed on, and after every failure that does not end it.
pub proof fn law_receive_starts_over(side: Side, event: ReceiveEvent)
    ensures
        receive_next(side, event).next is CheckCancel <==> {
            ||| event == ReceiveEvent::Delivered(true)
            ||| side is Client && event == ReceiveEvent::Delivered(false)
            ||| side is Client && event == ReceiveEvent::Delimiter(None)
            ||| event matches ReceiveEvent::Delimiter(Some(bytes)) && bytes@[0] != 0x7e
            ||| event == ReceiveEvent::Size(None)
            ||| event == ReceiveEvent::Body(false)
        },
{
    if let ReceiveEvent::Delimiter(Some(bytes)) = event {
        if bytes@[0] == 0x7e {
            assert(bytes@ =~= DELIMITER@);
        }
    }
}

} // verus!
