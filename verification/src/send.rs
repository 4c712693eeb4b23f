//! The sending task of a connection: the decisions it takes while it writes
//! the messages that it is handed to the stream.
use crate::frame::{frame, frames};
use crate::message::{ClientMessageView, PlayerId, ReliableClientMessage};
use crate::side::Side;
use vstd::prelude::*;

verus! {

/// What the sending task does next.
#[derive(Debug, Clone, Copy, PartialEq, Eq, Structural)]
pub enum SendPhase {
    /// Look whether the connection was cancelled.
    CheckCancel,
    /// Take the next message, or wait for one.
    TakeMessage,
    /// Write the message as a frame.
    Serialize,
    /// Write the frame to the stream.
    Write,
    /// Tell the game that the player has quit.
    ReportQuit,
    /// Nothing: the task has ended.
    Stopped,
    /// Nothing: the task ends with a panic.
    Crashed,
}

/// How a phase turned out.
#[derive(Debug, Clone, Copy, PartialEq, Eq, Structural)]
pub enum SendEvent {
    /// Whether the connection was cancelled.
    Cancelled(bool),
    /// Whether there was a message, now or after a wait.
    Taken(bool),
    /// Whether the message could be written as a frame.
    Serialized(bool),
    /// Whether the stream took the frame.
    Written(bool),
    /// Whether the game was told that the player has quit.
    QuitReported(bool),
}

/// What the sending task reports.
#[derive(Debug, Clone, Copy, PartialEq, Eq, Structural)]
pub enum SendNotice {
    /// The task stops because the connection was cancelled.
    Cancelled,
    /// The message could not be written as a frame.
    Unserialized,
    /// The stream did not take the frame.
    Unsent,
    /// The game was told that the player has quit.
    QuitReported,
}

/// The outcome of a phase: the next phase, and what there is to report.
#[derive(Debug, Clone, Copy, PartialEq, Eq, Structural)]
pub struct SendStep {
    pub next: SendPhase,
    pub notice: Option<SendNotice>,
}

/// The event is one in which the phase can turn out. Only the server's task
/// reports a player who has quit.
pub open spec fn send_answers(side: Side, phase: SendPhase, event: SendEvent) -> bool {
    match phase {
        SendPhase::CheckCancel => event is Cancelled,
        SendPhase::TakeMessage => event is Taken,
        SendPhase::Serialize => event is Serialized,
        SendPhase::Write => event is Written,
        SendPhase::ReportQuit => side is Server && event is QuitReported,
        SendPhase::Stopped => false,
        SendPhase::Crashed => false,
    }
}

/// A step without a report.
pub open spec fn silent_send(next: SendPhase) -> SendStep {
    SendStep { next, notice: None }
}

/// A step with a report.
pub open spec fn reported_send(next: SendPhase, notice: SendNotice) -> SendStep {
    SendStep { next, notice: Some(notice) }
}

/// The step that follows an event. The cancel flag is looked at only when
/// there are no more messages to take. The client passes over a message that
/// cannot be written as a frame, the server takes it for a defect; and the
/// server takes a frame that the stream refuses for a player who has quit.
pub open spec fn send_next(side: Side, event: SendEvent) -> SendStep {
    match event {
        SendEvent::Cancelled(true) => reported_send(SendPhase::Stopped, SendNotice::Cancelled),
        SendEvent::Cancelled(false) => silent_send(SendPhase::TakeMessage),
        SendEvent::Taken(true) => silent_send(SendPhase::Serialize),
        SendEvent::Taken(false) => silent_send(SendPhase::CheckCancel),
        SendEvent::Serialized(true) => silent_send(SendPhase::Write),
        SendEvent::Serialized(false) => match side {
            Side::Client => reported_send(SendPhase::TakeMessage, SendNotice::Unserialized),
            Side::Server => silent_send(SendPhase::Crashed),
        },
        SendEvent::Written(true) => silent_send(SendPhase::TakeMessage),
        SendEvent::Written(false) => reported_send(
            match side {
                Side::Client => SendPhase::TakeMessage,
                Side::Server => SendPhase::ReportQuit,
            },
            SendNotice::Unsent,
        ),
        SendEvent::QuitReported(true) => reported_send(
            SendPhase::TakeMessage,
            SendNotice::QuitReported,
        ),
        SendEvent::QuitReported(false) => silent_send(SendPhase::TakeMessage),
    }
}

/// Takes the step that follows an event.
pub fn send_step(side: Side, event: SendEvent) -> (step: SendStep)
    ensures
        step == send_next(side, event),
{
    match event {
        SendEvent::Cancelled(cancelled) => if cancelled {
            SendStep { next: SendPhase::Stopped, notice: Some(SendNotice::Cancelled) }
        } else {
            SendStep { next: SendPhase::TakeMessage, notice: None }
        },
        SendEvent::Taken(taken) => {
            let next = if taken {
                SendPhase::Serialize
            } else {
                SendPhase::CheckCancel
            };
            SendStep { next, notice: None }
        },
        SendEvent::Serialized(serialized) => if serialized {
            SendStep { next: SendPhase::Write, notice: None }
        } else {
            match side {
                Side::Client => SendStep {
                    next: SendPhase::TakeMessage,
                    notice: Some(SendNotice::Unserialized),
                },
                Side::Server => SendStep { next: SendPhase::Crashed, notice: None },
            }
        },
        SendEvent::Written(written) => if written {
            SendStep { next: SendPhase::TakeMessage, notice: None }
        } else {
            let next = match side {
                Side::Client => SendPhase::TakeMessage,
                Side::Server => SendPhase::ReportQuit,
            };
            SendStep { next, notice: Some(SendNotice::Unsent) }
        },
        SendEvent::QuitReported(reported) => {
            let notice = if reported {
                Some(SendNotice::QuitReported)
            } else {
                None
            };
            SendStep { next: SendPhase::TakeMessage, notice }
        },
    }
}

/// The message by which the server's sending task tells the game that a
/// player has quit.
pub fn quit_message(player_id: &PlayerId) -> (message: ReliableClientMessage)
    ensures
        message@ == (ClientMessageView::Quit { player_id: player_id@ }),
        message matches ReliableClientMessage::Quit { player_id: quitting } && quitting@
            == player_id@,
{
    ReliableClientMessage::Quit { player_id: player_id.clone() }
}

/// The sending task stops if and only if it finds the connection cancelled.
pub proof fn law_send_stops_only_when_cancelled(side: Side, event: SendEvent)
    ensures
        send_next(side, event).next is Stopped <==> event == SendEvent::Cancelled(true),
{
}

/// The client's sending task never panics; the server's does if and only if a
/// message cannot be written as a frame.
pub proof fn law_send_crashes(side: Side, event: SendEvent)
    ensures
        send_next(side, event).next is Crashed <==> side is Server && event
            == SendEvent::Serialized(false),
{
}

/// A player is reported to have quit if and only if the server could not
/// write a frame to them; the task then goes on with the next message,
/// whether or not the report got through.
pub proof fn law_quit_follows_failed_write(side: Side, event: SendEvent, reported: bool)
    ensures
        send_next(side, event).next is ReportQuit <==> side is Server && event
            == SendEvent::Written(false),
        send_next(side, SendEvent::QuitReported(reported)).next is TakeMessage,
{
}

/// The sending task looks at the cancel flag if and only if there are no more
/// messages to take.
pub proof fn law_send_looks_for_cancel(side: Side, event: SendEvent)
    ensures
        send_next(side, event).next is CheckCancel <==> event == SendEvent::Taken(false),
{
}

/// A message that was taken is serialized, and one that was serialized is
/// written, in this order and only so; in every other case that does not end
/// the task, the next message is taken.
pub proof fn law_send_order(side: Side, event: SendEvent)
    ensures
        send_next(side, event).next is Serialize <==> event == SendEvent::Taken(true),
        send_next(side, event).next is Write <==> event == SendEvent::Serialized(true),
        send_next(side, event).next is TakeMessage <==> {
            ||| event == SendEvent::Cancelled(false)
            ||| event == SendEvent::Written(true)
            ||| event is QuitReported
            ||| side is Client && event == SendEvent::Written(false)
            ||| side is Client && event == SendEvent::Serialized(false)
        },
{
}

/// What the sending task reports, and on what: that it was cancelled, that the
/// client could not serialize a message, that the stream refused a frame, and
/// that the game was told of a player who has quit.
pub proof fn law_send_reports(side: Side, event: SendEvent)
    ensures
        ({
            let notice = send_next(side, event).notice;
            &&& notice == Some(SendNotice::Cancelled) <==> event == SendEvent::Cancelled(true)
            &&& notice == Some(SendNotice::Unserialized) <==> side is Client && event
                == SendEvent::Serialized(false)
            &&& notice == Some(SendNotice::Unsent) <==> event == SendEvent::Written(false)
            &&& notice == Some(SendNotice::QuitReported) <==> event
                == SendEvent::QuitReported(true)
        }),
{
}

/// What the sending task finds around it.
pub struct SendSurroundings {
    /// The connection was cancelled.
    pub cancelled: bool,
    /// Whether the stream takes a frame, by the number of frames that were
    /// tried before it.
    pub accepts: spec_fn(nat) -> bool,
    /// The game can be told that a player has quit.
    pub open: bool,
}

/// The sending task at work on the messages that it will be handed.
#[verifier::ext_equal]
pub struct Transmission {
    /// What the task does next.
    pub phase: SendPhase,
    /// The bodies of the messages that are still to be taken, `None` for a
    /// message that cannot be serialized.
    pub queue: Seq<Option<Seq<u8>>>,
    /// The body of the message that was taken and is not tried yet.
    pub body: Option<Seq<u8>>,
    /// The bodies whose frames were tried on the stream, the first one first.
    pub tried: Seq<Seq<u8>>,
    /// The bytes of the frames that the stream took.
    pub written: Seq<u8>,
    /// How often the game was told that the player has quit.
    pub quits: nat,
}

/// The task about to take a message.
pub open spec fn between_messages(
    queue: Seq<Option<Seq<u8>>>,
    tried: Seq<Seq<u8>>,
    written: Seq<u8>,
    quits: nat,
) -> Transmission {
    Transmission { phase: SendPhase::TakeMessage, queue, body: None, tried, written, quits }
}

/// How the phase of a transmission turns out.
pub open spec fn transmission_event(
    surroundings: SendSurroundings,
    transmission: Transmission,
) -> SendEvent {
    match transmission.phase {
        SendPhase::CheckCancel => SendEvent::Cancelled(surroundings.cancelled),
        SendPhase::TakeMessage => SendEvent::Taken(transmission.queue.len() > 0),
        SendPhase::Serialize => SendEvent::Serialized(transmission.body is Some),
        SendPhase::Write => SendEvent::Written(
            (surroundings.accepts)(transmission.tried.len()),
        ),
        _ => SendEvent::QuitReported(surroundings.open),
    }
}

/// A transmission after one phase.
pub open spec fn transmission_step(
    side: Side,
    surroundings: SendSurroundings,
    transmission: Transmission,
) -> Transmission {
    let next = send_next(side, transmission_event(surroundings, transmission)).next;
    match transmission.phase {
        SendPhase::TakeMessage => if transmission.queue.len() > 0 {
            Transmission {
                phase: next,
                queue: transmission.queue.drop_first(),
                body: transmission.queue.first(),
                ..transmission
            }
        } else {
            Transmission { phase: next, ..transmission }
        },
        SendPhase::Write => Transmission {
            phase: next,
            body: None,
            tried: transmission.tried.push(transmission.body->0),
            written: if (surroundings.accepts)(transmission.tried.len()) {
                transmission.written + frame(transmission.body->0)
            } else {
                transmission.written
            },
            ..transmission
        },
        SendPhase::ReportQuit => Transmission {
            phase: next,
            quits: if surroundings.open {
                transmission.quits + 1
            } else {
                transmission.quits
            },
            ..transmission
        },
        SendPhase::Stopped => transmission,
        SendPhase::Crashed => transmission,
        _ => Transmission { phase: next, ..transmission },
    }
}

/// A transmission after `steps` phases.
pub open spec fn transmission_run(
    side: Side,
    surroundings: SendSurroundings,
    transmission: Transmission,
    steps: nat,
) -> Transmission
    decreases steps,
{
    if steps == 0 {
        transmission
    } else {
        transmission_run(
            side,
            surroundings,
            transmission_step(side, surroundings, transmission),
            (steps - 1) as nat,
        )
    }
}

proof fn lemma_transmission_add(
    side: Side,
    surroundings: SendSurroundings,
    transmission: Transmission,
    first: nat,
    second: nat,
)
    ensures
        transmission_run(side, surroundings, transmission, first + second) == transmission_run(
            side,
            surroundings,
            transmission_run(side, surroundings, transmission, first),
            second,
        ),
    decreases first,
{
    if first > 0 {
        lemma_transmission_add(
            side,
            surroundings,
            transmission_step(side, surroundings, transmission),
            (first - 1) as nat,
            second,
        );
    }
}

/// Every phase that a transmission is in turns out in an event that belongs
/// to it.
pub proof fn law_send_events_answer(
    side: Side,
    surroundings: SendSurroundings,
    transmission: Transmission,
)
    requires
        !(transmission.phase is Stopped),
        !(transmission.phase is Crashed),
        transmission.phase is ReportQuit ==> side is Server,
    ensures
        send_answers(side, transmission.phase, transmission_event(surroundings, transmission)),
{
}

/// The bodies of the messages that can be serialized, in their order.
pub open spec fn serializable(queue: Seq<Option<Seq<u8>>>) -> Seq<Seq<u8>>
    decreases queue.len(),
{
    if queue.len() == 0 {
        seq![]
    } else {
        match queue.first() {
            Some(body) => seq![body] + serializable(queue.drop_first()),
            None => serializable(queue.drop_first()),
        }
    }
}

/// Every message can be serialized.
pub open spec fn all_serializable(queue: Seq<Option<Seq<u8>>>) -> bool {
    forall|i: int| 0 <= i < queue.len() ==> (#[trigger] queue[i]) is Some
}

/// The frames that the stream takes of a sequence of bodies, the first of
/// which is tried after `before` others.
pub open spec fn accepted_frames(
    bodies: Seq<Seq<u8>>,
    accepts: spec_fn(nat) -> bool,
    before: nat,
) -> Seq<u8>
    decreases bodies.len(),
{
    if bodies.len() == 0 {
        seq![]
    } else {
        let later = accepted_frames(bodies.drop_first(), accepts, before + 1);
        if accepts(before) {
            frame(bodies.first()) + later
        } else {
            later
        }
    }
}

/// How many of `count` frames the stream refuses, the first of which is tried
/// after `before` others.
pub open spec fn refusals(count: nat, accepts: spec_fn(nat) -> bool, before: nat) -> nat
    decreases count,
{
    if count == 0 {
        0
    } else {
        let later = refusals((count - 1) as nat, accepts, before + 1);
        if accepts(before) {
            later
        } else {
            1 + later
        }
    }
}

/// The number of phases that a message takes.
pub open spec fn message_phases(
    side: Side,
    body: Option<Seq<u8>>,
    accepts: spec_fn(nat) -> bool,
    before: nat,
) -> nat {
    if body is None {
        2
    } else if side is Server && !accepts(before) {
        4
    } else {
        3
    }
}

/// The number of phases that the messages of a queue take.
pub open spec fn queue_phases(
    side: Side,
    queue: Seq<Option<Seq<u8>>>,
    accepts: spec_fn(nat) -> bool,
    before: nat,
) -> nat
    decreases queue.len(),
{
    if queue.len() == 0 {
        0
    } else {
        message_phases(side, queue.first(), accepts, before) + queue_phases(
            side,
            queue.drop_first(),
            accepts,
            if queue.first() is Some {
                before + 1
            } else {
                before
            },
        )
    }
}

proof fn lemma_message_handled(
    side: Side,
    surroundings: SendSurroundings,
    queue: Seq<Option<Seq<u8>>>,
    tried: Seq<Seq<u8>>,
    written: Seq<u8>,
    quits: nat,
)
    requires
        queue.len() > 0,
        side is Server ==> queue.first() is Some,
    ensures
        transmission_run(
            side,
            surroundings,
            between_messages(queue, tried, written, quits),
            message_phases(side, queue.first(), surroundings.accepts, tried.len()),
        ) == match queue.first() {
            None => between_messages(queue.drop_first(), tried, written, quits),
            Some(body) => if (surroundings.accepts)(tried.len()) {
                between_messages(
                    queue.drop_first(),
                    tried.push(body),
                    written + frame(body),
                    quits,
                )
            } else {
                between_messages(
                    queue.drop_first(),
                    tried.push(body),
                    written,
                    if side is Server && surroundings.open {
                        quits + 1
                    } else {
                        quits
                    },
                )
            },
        },
{
    reveal_with_fuel(transmission_run, 5);
}

/// Whatever the stream refuses, the frames that the task tries are those of
/// the messages that can be serialized, in the order in which the task was
/// handed them; the stream gets those that it takes, in the same order; and the
/// game at the server, while it can be told, is told of a quit once for each
/// one that the stream refuses. The client passes over a message that cannot be
/// serialized.
pub proof fn law_messages_tried(
    side: Side,
    surroundings: SendSurroundings,
    queue: Seq<Option<Seq<u8>>>,
    tried: Seq<Seq<u8>>,
    written: Seq<u8>,
    quits: nat,
)
    requires
        side is Server ==> all_serializable(queue),
    ensures
        transmission_run(
            side,
            surroundings,
            between_messages(queue, tried, written, quits),
            queue_phases(side, queue, surroundings.accepts, tried.len()),
        ) == between_messages(
            seq![],
            tried + serializable(queue),
            written + accepted_frames(serializable(queue), surroundings.accepts, tried.len()),
            if side is Server && surroundings.open {
                quits + refusals(serializable(queue).len(), surroundings.accepts, tried.len())
            } else {
                quits
            },
        ),
    decreases queue.len(),
{
    let start = between_messages(queue, tried, written, quits);
    let accepts = surroundings.accepts;
    if queue.len() == 0 {
        assert(queue =~= seq![]);
        assert(tried + serializable(queue) =~= tried);
        assert(written + accepted_frames(serializable(queue), accepts, tried.len()) =~= written);
    } else {
        let later = queue.drop_first();
        let phases = message_phases(side, queue.first(), accepts, tried.len());
        lemma_message_handled(side, surroundings, queue, tried, written, quits);
        assert forall|i: int| side is Server && 0 <= i < later.len() implies (
        #[trigger] later[i]) is Some by {
            assert(later[i] == queue[i + 1]);
        }
        let handled = transmission_run(side, surroundings, start, phases);
        law_messages_tried(
            side,
            surroundings,
            later,
            handled.tried,
            handled.written,
            handled.quits,
        );
        lemma_transmission_add(
            side,
            surroundings,
            start,
            phases,
            queue_phases(side, later, accepts, handled.tried.len()),
        );
        match queue.first() {
            None => {},
            Some(body) => {
                let bodies = serializable(queue);
                assert(bodies.drop_first() =~= serializable(later));
                assert(bodies.first() == body);
                assert(tried.push(body) + serializable(later) =~= tried + bodies);
                let rest = accepted_frames(serializable(later), accepts, tried.len() + 1);
                assert((written + frame(body)) + rest =~= written + (frame(body) + rest));
            },
        }
    }
}

/// The server takes a message that cannot be serialized for a defect: it
/// tries the messages before it, and then panics.
pub proof fn law_unserializable_message_crashes_server(
    surroundings: SendSurroundings,
    before: Seq<Option<Seq<u8>>>,
    after: Seq<Option<Seq<u8>>>,
    tried: Seq<Seq<u8>>,
    written: Seq<u8>,
    quits: nat,
)
    requires
        all_serializable(before),
    ensures
        ({
            let end = transmission_run(
                Side::Server,
                surroundings,
                between_messages(before.push(None) + after, tried, written, quits),
                queue_phases(Side::Server, before, surroundings.accepts, tried.len()) + 2,
            );
            &&& end.phase is Crashed
            &&& end.queue == after
            &&& end.tried == tried + serializable(before)
            &&& surroundings.open ==> end.quits == quits + refusals(
                serializable(before).len(),
                surroundings.accepts,
                tried.len(),
            )
            &&& !surroundings.open ==> end.quits == quits
            &&& end.written == written + accepted_frames(
                serializable(before),
                surroundings.accepts,
                tried.len(),
            )
        }),
    decreases before.len(),
{
    let queue = before.push(None) + after;
    let start = between_messages(queue, tried, written, quits);
    let accepts = surroundings.accepts;
    if before.len() == 0 {
        assert(queue.drop_first() =~= after);
        assert(tried + serializable(before) =~= tried);
        assert(written + accepted_frames(serializable(before), accepts, tried.len()) =~= written);
        reveal_with_fuel(transmission_run, 3);
    } else {
        let later = before.drop_first();
        let body = before.first()->0;
        assert(before[0] is Some);
        assert(queue.first() == before.first());
        assert(queue.drop_first() =~= later.push(None) + after);
        lemma_message_handled(Side::Server, surroundings, queue, tried, written, quits);
        let phases = message_phases(Side::Server, queue.first(), accepts, tried.len());
        let handled = transmission_run(Side::Server, surroundings, start, phases);
        assert forall|i: int| 0 <= i < later.len() implies (#[trigger] later[i]) is Some by {
            assert(later[i] == before[i + 1]);
        }
        law_unserializable_message_crashes_server(
            surroundings,
            later,
            after,
            handled.tried,
            handled.written,
            handled.quits,
        );
        lemma_transmission_add(
            Side::Server,
            surroundings,
            start,
            phases,
            queue_phases(Side::Server, later, accepts, handled.tried.len()) + 2,
        );
        assert(serializable(before).drop_first() =~= serializable(later));
        assert(tried.push(body) + serializable(later) =~= tried + serializable(before));
        let rest = accepted_frames(serializable(later), accepts, tried.len() + 1);
        assert((written + frame(body)) + rest =~= written + (frame(body) + rest));
    }
}

/// When there are no more messages to take, the task stops if the connection
/// was cancelled, and goes on to ask for messages if it was not.
pub proof fn law_send_end(
    side: Side,
    surroundings: SendSurroundings,
    tried: Seq<Seq<u8>>,
    written: Seq<u8>,
    quits: nat,
)
    ensures
        transmission_run(
            side,
            surroundings,
            between_messages(seq![], tried, written, quits),
            2,
        ) == (Transmission {
            phase: if surroundings.cancelled {
                SendPhase::Stopped
            } else {
                SendPhase::TakeMessage
            },
            ..between_messages(seq![], tried, written, quits)
        }),
{
    reveal_with_fuel(transmission_run, 3);
}

/// Where the stream takes every frame, every message that can be serialized
/// is written to the stream, in the order in which the task was handed them.
pub proof fn law_messages_written(
    side: Side,
    surroundings: SendSurroundings,
    queue: Seq<Option<Seq<u8>>>,
    tried: Seq<Seq<u8>>,
    written: Seq<u8>,
    quits: nat,
)
    requires
        forall|n: nat| #[trigger] (surroundings.accepts)(n),
        side is Server ==> all_serializable(queue),
    ensures
        transmission_run(
            side,
            surroundings,
            between_messages(queue, tried, written, quits),
            queue_phases(side, queue, surroundings.accepts, tried.len()),
        ) == between_messages(
            seq![],
            tried + serializable(queue),
            written + frames(serializable(queue)),
            quits,
        ),
{
    law_messages_tried(side, surroundings, queue, tried, written, quits);
    lemma_all_taken(surroundings.accepts, serializable(queue), tried.len());
}

proof fn lemma_all_taken(accepts: spec_fn(nat) -> bool, bodies: Seq<Seq<u8>>, before: nat)
    requires
        forall|n: nat| #[trigger] accepts(n),
    ensures
        accepted_frames(bodies, accepts, before) == frames(bodies),
        refusals(bodies.len(), accepts, before) == 0,
    decreases bodies.len(),
{
    assert(accepts(before));
    if bodies.len() > 0 {
        lemma_all_taken(accepts, bodies.drop_first(), before + 1);
    }
}

} // verus!
