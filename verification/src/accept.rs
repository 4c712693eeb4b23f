//! The accepting task of the server: the decisions it takes while it admits
//! players.
use crate::archive::{archive_len, archived_bytes, value_fits};
use crate::frame::{
    fits_frame, frame, header_len, law_frame_layout, serialize_reliable_server_message,
};
use crate::message::{
    server_payload, server_value, ClientMessageView, PlayerId, ReliableClientMessage,
    ReliableServerMessage, ServerMessageView,
};
use crate::player::{decimal, law_decimal_digits, law_player_id_fits, player_id};
use vstd::prelude::*;

verus! {

/// What the accepting task does next.
#[derive(Debug, Clone, Copy, PartialEq, Eq, Structural)]
pub enum AcceptPhase {
    /// Wait for a connection.
    AwaitConnection,
    /// Complete the handshake.
    Handshake,
    /// Open the stream to the client.
    OpenStream,
    /// Enter the channels of the player in the channel map.
    Register,
    /// Write the greeting to the stream.
    WriteHello,
    /// Tell the game that the player has joined.
    AnnounceJoin,
    /// Start the sending and the receiving task of the connection.
    StartTasks,
    /// Nothing: the task has ended.
    Stopped,
    /// Nothing: the task ends with a panic.
    Crashed,
}

/// How a phase turned out.
#[derive(Debug, Clone, Copy, PartialEq, Eq, Structural)]
pub enum AcceptEvent {
    /// Whether there was a connection, rather than the end of the endpoint.
    Incoming(bool),
    /// Whether the handshake was completed.
    Connected(bool),
    /// Whether the stream was opened.
    StreamOpened(bool),
    /// Whether the player was entered in the channel map.
    Registered(bool),
    /// Whether the stream took the greeting.
    HelloWritten(bool),
    /// Whether the game was told.
    JoinAnnounced(bool),
    /// The tasks of the connection were started.
    TasksStarted,
}

/// What the accepting task reports.
#[derive(Debug, Clone, Copy, PartialEq, Eq, Structural)]
pub enum AcceptNotice {
    /// A connection was accepted.
    ConnectionAccepted,
    /// The stream to the client was opened.
    StreamOpened,
}

/// The outcome of a phase: the next phase, and what there is to report.
#[derive(Debug, Clone, Copy, PartialEq, Eq, Structural)]
pub struct AcceptStep {
    pub next: AcceptPhase,
    pub notice: Option<AcceptNotice>,
}

/// The phase after one that went well, or the panic after one that did not.
pub open spec fn accept_or_crash(went_well: bool, next: AcceptPhase) -> AcceptPhase {
    if went_well {
        next
    } else {
        AcceptPhase::Crashed
    }
}

/// The step that follows an event.
pub open spec fn accept_next(event: AcceptEvent) -> AcceptStep {
    match event {
        AcceptEvent::Incoming(true) => AcceptStep { next: AcceptPhase::Handshake, notice: None },
        AcceptEvent::Incoming(false) => AcceptStep { next: AcceptPhase::Stopped, notice: None },
        AcceptEvent::Connected(well) => AcceptStep {
            next: accept_or_crash(well, AcceptPhase::OpenStream),
            notice: if well {
                Some(AcceptNotice::ConnectionAccepted)
            } else {
                None
            },
        },
        AcceptEvent::StreamOpened(well) => AcceptStep {
            next: accept_or_crash(well, AcceptPhase::Register),
            notice: if well {
                Some(AcceptNotice::StreamOpened)
            } else {
                None
            },
        },
        AcceptEvent::Registered(well) => AcceptStep {
            next: accept_or_crash(well, AcceptPhase::WriteHello),
            notice: None,
        },
        AcceptEvent::HelloWritten(well) => AcceptStep {
            next: accept_or_crash(well, AcceptPhase::AnnounceJoin),
            notice: None,
        },
        AcceptEvent::JoinAnnounced(well) => AcceptStep {
            next: accept_or_crash(well, AcceptPhase::StartTasks),
            notice: None,
        },
        AcceptEvent::TasksStarted => AcceptStep {
            next: AcceptPhase::AwaitConnection,
            notice: None,
        },
    }
}

/// Takes the step that follows an event.
pub fn accept_step(event: AcceptEvent) -> (step: AcceptStep)
    ensures
        step == accept_next(event),
{
    let (well, next, notice) = match event {
        AcceptEvent::Incoming(incoming) => {
            let next = if incoming {
                AcceptPhase::Handshake
            } else {
                AcceptPhase::Stopped
            };
            (true, next, None)
        },
        AcceptEvent::Connected(well) => (
            well,
            AcceptPhase::OpenStream,
            Some(AcceptNotice::ConnectionAccepted),
        ),
        AcceptEvent::StreamOpened(well) => (
            well,
            AcceptPhase::Register,
            Some(AcceptNotice::StreamOpened),
        ),
        AcceptEvent::Registered(well) => (well, AcceptPhase::WriteHello, None),
        AcceptEvent::HelloWritten(well) => (well, AcceptPhase::AnnounceJoin, None),
        AcceptEvent::JoinAnnounced(well) => (well, AcceptPhase::StartTasks, None),
        AcceptEvent::TasksStarted => (true, AcceptPhase::AwaitConnection, None),
    };
    if well {
        AcceptStep { next, notice }
    } else {
        AcceptStep { next: AcceptPhase::Crashed, notice: None }
    }
}

/// What the server does for a player whom it admits.
#[derive(Debug)]
pub struct Welcome {
    /// The id under which the player is entered in the channel map.
    pub player_id: PlayerId,
    /// The frame that greets the player.
    pub hello: Vec<u8>,
    /// The message that tells the game of the player.
    pub joined: ReliableClientMessage,
}

/// Makes ready what the server does for the player behind a connection. The
/// greeting can always be written as a frame.
pub fn welcome(stable_id: usize) -> (welcome: Welcome)
    ensures
        welcome.player_id@ == decimal(stable_id as nat),
        server_payload(
            ServerMessageView::Hello { player_id: decimal(stable_id as nat) },
        ) is Some,
        welcome.hello@ == frame(
            server_payload(ServerMessageView::Hello { player_id: decimal(stable_id as nat) })->0,
        ),
        fits_frame(
            server_payload(ServerMessageView::Hello { player_id: decimal(stable_id as nat) })->0,
        ),
        welcome.hello@.len() == header_len() + archive_len(decimal(stable_id as nat).len()),
        welcome.joined@ == (ClientMessageView::PlayerJoined {
            player_id: decimal(stable_id as nat),
        }),
{
    let id = player_id(stable_id);
    let greeting = ReliableServerMessage::Hello { player_id: id.clone() };
    let joined = ReliableClientMessage::PlayerJoined { player_id: id.clone() };
    proof {
        law_player_id_fits(stable_id);
        assert(value_fits(server_value(greeting@)));
    }
    match serialize_reliable_server_message(&greeting) {
        Ok(hello) => Welcome { player_id: id, hello, joined },
        Err(_) => vstd::pervasive::unreached(),
    }
}

/// The accepting task panics if and only if something goes wrong for a
/// connection that it was handed.
pub proof fn law_accept_crashes(event: AcceptEvent)
    ensures
        accept_next(event).next is Crashed <==> {
            ||| event == AcceptEvent::Connected(false)
            ||| event == AcceptEvent::StreamOpened(false)
            ||| event == AcceptEvent::Registered(false)
            ||| event == AcceptEvent::HelloWritten(false)
            ||| event == AcceptEvent::JoinAnnounced(false)
        },
{
}

/// The accepting task stops if and only if the endpoint hands out no more
/// connections.
pub proof fn law_accept_stops(event: AcceptEvent)
    ensures
        accept_next(event).next is Stopped <==> event == AcceptEvent::Incoming(false),
{
}

/// A player is entered in the channel map before they are greeted, greeted
/// before the game is told of them, and the game is told of them before the
/// tasks of their connection start: each of the phases is entered from the one
/// before it alone, when that one went well.
pub proof fn law_accept_order(event: AcceptEvent)
    ensures
        accept_next(event).next is Handshake <==> event == AcceptEvent::Incoming(true),
        accept_next(event).next is OpenStream <==> event == AcceptEvent::Connected(true),
        accept_next(event).next is Register <==> event == AcceptEvent::StreamOpened(true),
        accept_next(event).next is WriteHello <==> event == AcceptEvent::Registered(true),
        accept_next(event).next is AnnounceJoin <==> event == AcceptEvent::HelloWritten(true),
        accept_next(event).next is StartTasks <==> event == AcceptEvent::JoinAnnounced(true),
        accept_next(event).next is AwaitConnection <==> event == AcceptEvent::TasksStarted,
{
}

/// What the accepting task reports, and on what: a connection whose handshake
/// was completed, and a stream that was opened.
pub proof fn law_accept_reports(event: AcceptEvent)
    ensures
        accept_next(event).notice == Some(AcceptNotice::ConnectionAccepted) <==> event
            == AcceptEvent::Connected(true),
        accept_next(event).notice == Some(AcceptNotice::StreamOpened) <==> event
            == AcceptEvent::StreamOpened(true),
{
}

/// The player is entered, greeted and announced under one and the same id,
/// which is made up of digits, and the greeting is the archive of that id in a
/// frame.
pub proof fn law_one_id_in_all_places(stable_id: usize, ready: Welcome)
    requires
        call_ensures(welcome, (stable_id,), ready),
    ensures
        ready.player_id@.len() > 0,
        forall|i: int|
            0 <= i < ready.player_id@.len() ==> '0' <= #[trigger] ready.player_id@[i] <= '9',
        ready.player_id@.last() as int == '0' as int + stable_id % 10,
        ready.joined matches ReliableClientMessage::PlayerJoined { player_id } && player_id@
            == ready.player_id@,
        archived_bytes(Ok(ready.player_id@)) is Some,
        ready.hello@.skip(5) == archived_bytes(Ok(ready.player_id@))->0,
        ready.hello@[0] == 0x7e,
        ready.hello@[1] * 0x100_0000 + ready.hello@[2] * 0x1_0000 + ready.hello@[3] * 0x100
            + ready.hello@[4] == ready.hello@.len() - 5,
{
    let id = decimal(stable_id as nat);
    law_decimal_digits(stable_id as nat);
    law_frame_layout(server_payload(ServerMessageView::Hello { player_id: id })->0);
}

} // verus!
