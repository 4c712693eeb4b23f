//! The server's connections: what becomes of each of them from the handshake
//! on, what the game is handed of it, and how the connections go side by side.
use crate::accept::{accept_next, welcome, AcceptEvent, AcceptPhase, Welcome};
use crate::delivery::{
    client_queue, client_surroundings, lemma_client_queue, lemma_server_message_arrives,
    lemma_server_queue, serializable_client_messages, server_queue, server_surroundings,
};
use crate::frame::{fits_frame, frame, frames};
use crate::message::{
    client_payload, reads_as_client_message, reads_as_server_message, server_payload,
    ClientMessageView, ServerMessageView,
};
use crate::player::decimal;
use crate::send::{
    between_messages, law_messages_written, queue_phases, serializable, transmission_run,
    transmission_step, SendSurroundings, Transmission,
};
use crate::session::{
    count, law_tasks_do_not_mix, link_run, link_step, receiving_in, sending_in, started_link,
    Environment, Link, Turn,
};
use crate::side::Side;
use crate::stream::{
    arrives, between_frames, law_frames_received, phases_per_frame, reception_run,
};
use vstd::prelude::*;

verus! {

/// What the game finds in the channel of a player.
pub enum Handed {
    /// A message that the server made up itself.
    Own(ClientMessageView),
    /// The message in a body that the client sent.
    Sent(Seq<u8>),
}

/// A connection at the server.
pub struct Connection {
    /// The number by which the connection is known.
    pub stable_id: nat,
    /// What its tasks find around them.
    pub environment: Environment,
    /// What the accepting task does next for it; once the tasks were started,
    /// the accepting task awaits other connections.
    pub phase: AcceptPhase,
    /// Its tasks.
    pub link: Link,
    /// What the game was handed, the first one first.
    pub inbox: Seq<Handed>,
}

/// What happens on a connection at the server.
pub enum ServerTurn {
    /// The accepting task goes through a phase, which goes well or does not.
    Accept(bool),
    /// A turn of the tasks of the connection.
    Task(Turn),
}

/// The tasks of the connection were started.
pub open spec fn tasks_started(connection: Connection) -> bool {
    connection.phase is AwaitConnection
}

/// The message that tells the game of the player.
pub open spec fn joined(stable_id: nat) -> Handed {
    Handed::Own(ClientMessageView::PlayerJoined { player_id: decimal(stable_id) })
}

/// The message that tells the game that the player has quit.
pub open spec fn quit(stable_id: nat) -> Handed {
    Handed::Own(ClientMessageView::Quit { player_id: decimal(stable_id) })
}

/// The frame that greets the player.
pub open spec fn greeting(stable_id: nat) -> Seq<u8> {
    frame(server_payload(ServerMessageView::Hello { player_id: decimal(stable_id) })->0)
}

/// How a phase of the accepting task turns out.
pub open spec fn acceptance_event(phase: AcceptPhase, well: bool) -> AcceptEvent {
    match phase {
        AcceptPhase::Handshake => AcceptEvent::Connected(well),
        AcceptPhase::OpenStream => AcceptEvent::StreamOpened(well),
        AcceptPhase::Register => AcceptEvent::Registered(well),
        AcceptPhase::WriteHello => AcceptEvent::HelloWritten(well),
        AcceptPhase::AnnounceJoin => AcceptEvent::JoinAnnounced(well),
        _ => AcceptEvent::TasksStarted,
    }
}

/// What a turn of the tasks hands to the game.
pub open spec fn handed_in(connection: Connection, turn: Turn) -> Seq<Handed> {
    let link = connection.link;
    if !connection.environment.open {
        seq![]
    } else if turn is Receive && link.receiving.phase is Deliver {
        seq![Handed::Sent(link.receiving.body)]
    } else if turn is Send && link.sending.phase is ReportQuit {
        seq![quit(connection.stable_id)]
    } else {
        seq![]
    }
}

/// A connection after one turn. The accepting task has nothing more to do for
/// a connection whose tasks were started or for which it has crashed, and the
/// tasks do nothing before they are started.
pub open spec fn connection_step(connection: Connection, turn: ServerTurn) -> Connection {
    match turn {
        ServerTurn::Accept(well) => {
            let phase = connection.phase;
            if phase is AwaitConnection || phase is Stopped || phase is Crashed {
                connection
            } else {
                Connection {
                    phase: accept_next(acceptance_event(phase, well)).next,
                    link: if phase is WriteHello && well {
                        Link {
                            sending: Transmission {
                                written: connection.link.sending.written + greeting(
                                    connection.stable_id,
                                ),
                                ..connection.link.sending
                            },
                            ..connection.link
                        }
                    } else {
                        connection.link
                    },
                    inbox: if phase is AnnounceJoin && well {
                        connection.inbox.push(joined(connection.stable_id))
                    } else {
                        connection.inbox
                    },
                    ..connection
                }
            }
        },
        ServerTurn::Task(turn) => if tasks_started(connection) || turn is Cancel {
            Connection {
                link: link_step(
                    Side::Server,
                    connection.environment,
                    connection.link,
                    turn,
                ),
                inbox: connection.inbox + handed_in(connection, turn),
                ..connection
            }
        } else {
            connection
        },
    }
}

/// A connection after a sequence of turns.
pub open spec fn connection_run(connection: Connection, turns: Seq<ServerTurn>) -> Connection
    decreases turns.len(),
{
    if turns.len() == 0 {
        connection
    } else {
        connection_run(connection_step(connection, turns.first()), turns.drop_first())
    }
}

/// A connection that the endpoint has just handed out.
pub open spec fn new_connection(
    stable_id: nat,
    environment: Environment,
    incoming: Seq<u8>,
    queue: Seq<Option<Seq<u8>>>,
) -> Connection {
    Connection {
        stable_id,
        environment,
        phase: AcceptPhase::Handshake,
        link: started_link(incoming, queue, seq![]),
        inbox: seq![],
    }
}

/// The bodies that the client sent, among what the game was handed.
pub open spec fn sent_bodies(inbox: Seq<Handed>) -> Seq<Seq<u8>>
    decreases inbox.len(),
{
    if inbox.len() == 0 {
        seq![]
    } else {
        let before = sent_bodies(inbox.drop_last());
        match inbox.last() {
            Handed::Sent(body) => before.push(body),
            Handed::Own(_) => before,
        }
    }
}

/// How often the game was told that the player has quit.
pub open spec fn quits_told(inbox: Seq<Handed>) -> nat
    decreases inbox.len(),
{
    if inbox.len() == 0 {
        0
    } else {
        let before = quits_told(inbox.drop_last());
        match inbox.last() {
            Handed::Own(ClientMessageView::Quit { .. }) => before + 1,
            _ => before,
        }
    }
}

/// A connection is sound, as it is at every moment. Until the game was told of the
/// player it was handed nothing; from then on the first thing that it was
/// handed is that the player joined, which it is told once; and the rest are
/// the bodies that the receiving task handed on, in their order, with the
/// quits that the sending task reported among them. The stream begins with the
/// greeting once that was written.
pub open spec fn connection_sound(connection: Connection) -> bool {
    let inbox = connection.inbox;
    let phase = connection.phase;
    let link = connection.link;
    let id = connection.stable_id;
    let announced = phase is StartTasks || phase is AwaitConnection;
    let greeted = announced || phase is AnnounceJoin;
    let ended = phase is Stopped || phase is Crashed;
    &&& !announced ==> inbox.len() == 0
    &&& announced ==> inbox.len() > 0 && inbox[0] == joined(id)
    &&& forall|i: int|
        0 < i < inbox.len() ==> (#[trigger] inbox[i]) is Sent || inbox[i] == quit(id)
    &&& !tasks_started(connection) ==> inbox.len() <= 1
    &&& sent_bodies(inbox) == link.receiving.delivered
    &&& quits_told(inbox) == link.sending.quits
    &&& !greeted && !ended ==> link.sending.written.len() == 0
    &&& greeted ==> greeting(id).is_prefix_of(link.sending.written)
}

/// A new connection is sound.
pub proof fn law_new_connection_sound(
    stable_id: nat,
    environment: Environment,
    incoming: Seq<u8>,
    queue: Seq<Option<Seq<u8>>>,
)
    ensures
        connection_sound(new_connection(stable_id, environment, incoming, queue)),
{
}

proof fn lemma_step_sound(connection: Connection, turn: ServerTurn)
    requires
        connection_sound(connection),
    ensures
        connection_sound(connection_step(connection, turn)),
{
    let after = connection_step(connection, turn);
    let inbox = connection.inbox;
    let written = connection.link.sending.written;
    match turn {
        ServerTurn::Accept(well) => {
            if connection.phase is AnnounceJoin && well {
                assert(after.inbox.drop_last() =~= inbox);
            }
            if connection.phase is WriteHello && well {
                assert(after.link.sending.written =~= greeting(connection.stable_id));
            }
        },
        ServerTurn::Task(task) => {
            let handed = handed_in(connection, task);
            if handed.len() == 0 {
                assert(inbox + handed =~= inbox);
            } else {
                assert(inbox + handed =~= inbox.push(handed[0]));
                assert(inbox.push(handed[0]).drop_last() =~= inbox);
            }
        },
    }
}

/// Whatever happens on a connection, and in whatever order, the game hears of
/// the player first that they joined, and after that what the client sent.
pub proof fn law_join_comes_first(connection: Connection, turns: Seq<ServerTurn>)
    requires
        connection_sound(connection),
    ensures
        connection_sound(connection_run(connection, turns)),
    decreases turns.len(),
{
    if turns.len() > 0 {
        lemma_step_sound(connection, turns.first());
        law_join_comes_first(connection_step(connection, turns.first()), turns.drop_first());
    }
}

proof fn lemma_connection_run_add(
    connection: Connection,
    first: Seq<ServerTurn>,
    second: Seq<ServerTurn>,
)
    ensures
        connection_run(connection, first + second) == connection_run(
            connection_run(connection, first),
            second,
        ),
    decreases first.len(),
{
    if first.len() == 0 {
        assert(first + second =~= second);
    } else {
        assert((first + second).drop_first() =~= first.drop_first() + second);
        lemma_connection_run_add(
            connection_step(connection, first.first()),
            first.drop_first(),
            second,
        );
    }
}

/// The turns in which the accepting task admits a player and everything goes
/// well.
pub open spec fn admission() -> Seq<ServerTurn> {
    seq![
        ServerTurn::Accept(true),
        ServerTurn::Accept(true),
        ServerTurn::Accept(true),
        ServerTurn::Accept(true),
        ServerTurn::Accept(true),
        ServerTurn::Accept(true),
    ]
}

/// A player whom the server admits is greeted on the stream, the game is told
/// of them, and the tasks of their connection are started.
pub proof fn law_admission(connection: Connection)
    requires
        connection.phase is Handshake,
    ensures
        connection_run(connection, admission()) == (Connection {
            phase: AcceptPhase::AwaitConnection,
            link: Link {
                sending: Transmission {
                    written: connection.link.sending.written + greeting(connection.stable_id),
                    ..connection.link.sending
                },
                ..connection.link
            },
            inbox: connection.inbox.push(joined(connection.stable_id)),
            ..connection
        }),
{
    reveal_with_fuel(connection_run, 7);
    let turns = admission();
    assert(turns.drop_first().first() == ServerTurn::Accept(true));
    assert(turns.drop_first().drop_first().first() == ServerTurn::Accept(true));
    assert(turns.drop_first().drop_first().drop_first().first() == ServerTurn::Accept(true));
    assert(turns.drop_first().drop_first().drop_first().drop_first().first()
        == ServerTurn::Accept(true));
    assert(turns.drop_first().drop_first().drop_first().drop_first().drop_first().first()
        == ServerTurn::Accept(true));
}

/// Turns of the tasks, as turns on a connection at the server.
pub open spec fn task_turns(turns: Seq<Turn>) -> Seq<ServerTurn> {
    turns.map_values(|turn: Turn| ServerTurn::Task(turn))
}

/// The tasks of a connection, once they were started, run as those of any
/// connection do.
proof fn lemma_tasks_run(connection: Connection, turns: Seq<Turn>)
    requires
        tasks_started(connection),
    ensures
        ({
            let end = connection_run(connection, task_turns(turns));
            &&& end.link == link_run(
                Side::Server,
                connection.environment,
                connection.link,
                turns,
            )
            &&& end.stable_id == connection.stable_id
            &&& end.environment == connection.environment
            &&& tasks_started(end)
        }),
    decreases turns.len(),
{
    if turns.len() > 0 {
        let later = turns.drop_first();
        assert(task_turns(turns).drop_first() =~= task_turns(later));
        assert(task_turns(turns).first() == ServerTurn::Task(turns.first()));
        lemma_tasks_run(connection_step(connection, task_turns(turns).first()), later);
    }
}

/// What the game was handed, where no quit was reported.
proof fn lemma_inbox_without_quits(inbox: Seq<Handed>, stable_id: nat)
    requires
        inbox.len() > 0,
        inbox[0] == joined(stable_id),
        forall|i: int|
            0 < i < inbox.len() ==> (#[trigger] inbox[i]) is Sent || inbox[i] == quit(stable_id),
        quits_told(inbox) == 0,
    ensures
        inbox.len() == 1 + sent_bodies(inbox).len(),
        forall|i: int|
            0 < i < inbox.len() ==> #[trigger] inbox[i] == Handed::Sent(sent_bodies(inbox)[i - 1]),
    decreases inbox.len(),
{
    let before = inbox.drop_last();
    if inbox.len() == 1 {
        assert(sent_bodies(before) =~= seq![]);
    } else {
        assert(inbox.last() == inbox[inbox.len() - 1]);
        assert(inbox.last() is Sent || inbox.last() == quit(stable_id));
        assert forall|i: int| 0 < i < before.len() implies (#[trigger] before[i]) is Sent
            || before[i] == quit(stable_id) by {
            assert(before[i] == inbox[i]);
        }
        lemma_inbox_without_quits(before, stable_id);
        assert forall|i: int| 0 < i < inbox.len() implies #[trigger] inbox[i] == Handed::Sent(
            sent_bodies(inbox)[i - 1],
        ) by {
            if i < before.len() {
                assert(before[i] == inbox[i]);
            }
        }
    }
}

proof fn lemma_no_quits(
    surroundings: SendSurroundings,
    transmission: Transmission,
    steps: nat,
)
    requires
        forall|n: nat| #[trigger] (surroundings.accepts)(n),
        !(transmission.phase is ReportQuit),
    ensures
        transmission_run(Side::Server, surroundings, transmission, steps).quits
            == transmission.quits,
    decreases steps,
{
    if steps > 0 {
        assert((surroundings.accepts)(transmission.tried.len()));
        lemma_no_quits(
            surroundings,
            transmission_step(Side::Server, surroundings, transmission),
            (steps - 1) as nat,
        );
    }
}

/// What the tasks of the server find around them while the game takes
/// messages.
pub open spec fn server_environment(accepts: spec_fn(nat) -> bool) -> Environment {
    Environment { readable: server_surroundings().readable, accepts, open: true }
}

/// What the game is handed of a player whom the server admits, while the
/// connection lasts: first that the player joined, and then the messages that
/// the client sent, in the order in which it sent them, and nothing else. The
/// tasks of the connection may take turns in any order.
pub proof fn law_game_hears_join_then_messages(
    stable_id: nat,
    sending: SendSurroundings,
    messages: Seq<ClientMessageView>,
    accepts: spec_fn(nat) -> bool,
    queue: Seq<Option<Seq<u8>>>,
    turns: Seq<Turn>,
)
    requires
        forall|n: nat| #[trigger] (sending.accepts)(n),
        forall|n: nat| #[trigger] accepts(n),
        forall|i: int|
            0 <= i < messages.len() && client_payload(#[trigger] messages[i]) is Some
                ==> fits_frame(client_payload(messages[i])->0),
        count(turns, Turn::Cancel) == 0,
        count(turns, Turn::Receive) == phases_per_frame() * serializable_client_messages(
            messages,
        ).len(),
    ensures
        ({
            let expected = serializable_client_messages(messages);
            let sent = transmission_run(
                Side::Client,
                sending,
                between_messages(client_queue(messages), seq![], seq![], 0),
                queue_phases(Side::Client, client_queue(messages), sending.accepts, 0),
            );
            let end = connection_run(
                new_connection(stable_id, server_environment(accepts), sent.written, queue),
                admission() + task_turns(turns),
            );
            &&& end.inbox.len() == 1 + expected.len()
            &&& end.inbox[0] == joined(stable_id)
            &&& forall|i: int|
                0 < i < end.inbox.len() ==> (#[trigger] end.inbox[i]) is Sent
                    && reads_as_client_message(end.inbox[i]->Sent_0, expected[i - 1])
        }),
{
    let bodies = serializable(client_queue(messages));
    let environment = server_environment(accepts);
    let incoming = frames(bodies);
    lemma_client_queue(messages);
    law_messages_written(Side::Client, sending, client_queue(messages), seq![], seq![], 0);
    assert(Seq::<u8>::empty() + incoming =~= incoming);
    let start = new_connection(stable_id, environment, incoming, queue);
    let admitted = connection_run(start, admission());
    let end = connection_run(admitted, task_turns(turns));
    law_new_connection_sound(stable_id, environment, incoming, queue);
    law_admission(start);
    lemma_connection_run_add(start, admission(), task_turns(turns));
    law_join_comes_first(start, admission() + task_turns(turns));
    lemma_tasks_run(admitted, turns);
    law_tasks_do_not_mix(Side::Server, environment, admitted.link, turns);
    assert(receiving_in(environment, false) == server_surroundings());
    law_frames_received(Side::Server, server_surroundings(), bodies, seq![], seq![]);
    assert(incoming + Seq::<u8>::empty() =~= incoming);
    assert(Seq::<Seq<u8>>::empty() + bodies =~= bodies);
    lemma_no_quits(
        sending_in(environment, false),
        admitted.link.sending,
        count(turns, Turn::Send),
    );
    lemma_inbox_without_quits(end.inbox, stable_id);
    assert forall|i: int| 0 < i < end.inbox.len() implies (#[trigger] end.inbox[i]) is Sent
        && reads_as_client_message(
        end.inbox[i]->Sent_0,
        serializable_client_messages(messages)[i - 1],
    ) by {
        assert(end.inbox[i] == Handed::Sent(bodies[i - 1]));
    }
}

/// What the client of an admitted player is handed, while the connection
/// lasts: first the greeting, which tells it the player's id, and then the
/// messages of the game at the server, in the order in which the game sent
/// them. The tasks of the connection may take turns in any order.
pub proof fn law_client_hears_greeting_first(
    stable_id: usize,
    ready: Welcome,
    messages: Seq<ServerMessageView>,
    accepts: spec_fn(nat) -> bool,
    incoming: Seq<u8>,
    turns: Seq<Turn>,
)
    requires
        call_ensures(welcome, (stable_id,), ready),
        forall|n: nat| #[trigger] accepts(n),
        forall|i: int|
            0 <= i < messages.len() ==> server_payload(#[trigger] messages[i]) is Some
                && fits_frame(server_payload(messages[i])->0),
        count(turns, Turn::Cancel) == 0,
        count(turns, Turn::Send) == 1 + queue_phases(
            Side::Server,
            server_queue(messages),
            accepts,
            0,
        ),
    ensures
        ({
            let id = stable_id as nat;
            let end = connection_run(
                new_connection(
                    id,
                    server_environment(accepts),
                    incoming,
                    server_queue(messages),
                ),
                admission() + task_turns(turns),
            );
            let received = reception_run(
                Side::Client,
                client_surroundings(),
                between_frames(end.link.sending.written, seq![]),
                phases_per_frame() * (1 + messages.len()),
            );
            &&& greeting(id) == ready.hello@
            &&& received.phase is CheckCancel
            &&& received.rest.len() == 0
            &&& received.delivered.len() == 1 + messages.len()
            &&& reads_as_server_message(
                received.delivered[0],
                ServerMessageView::Hello { player_id: decimal(id) },
            )
            &&& forall|i: int|
                0 < i < received.delivered.len() ==> reads_as_server_message(
                    #[trigger] received.delivered[i],
                    messages[i - 1],
                )
        }),
{
    let id = stable_id as nat;
    let hello = ServerMessageView::Hello { player_id: decimal(id) };
    let environment = server_environment(accepts);
    let queue = server_queue(messages);
    let bodies = serializable(queue);
    let all = seq![server_payload(hello)->0] + bodies;
    lemma_server_message_arrives(hello);
    lemma_server_queue(messages);
    let start = new_connection(id, environment, incoming, queue);
    let admitted = connection_run(start, admission());
    law_admission(start);
    lemma_connection_run_add(start, admission(), task_turns(turns));
    lemma_tasks_run(admitted, turns);
    law_tasks_do_not_mix(Side::Server, environment, admitted.link, turns);
    let sending = sending_in(environment, false);
    assert(Seq::<u8>::empty() + greeting(id) =~= greeting(id));
    assert(transmission_step(Side::Server, sending, admitted.link.sending) == between_messages(
        queue,
        seq![],
        greeting(id),
        0,
    ));
    law_messages_written(Side::Server, sending, queue, seq![], greeting(id), 0);
    assert(all.drop_first() =~= bodies);
    assert(all.first() == server_payload(hello)->0);
    let written = connection_run(start, admission() + task_turns(turns)).link.sending.written;
    assert(written == frames(all));
    assert forall|i: int| 0 <= i < all.len() implies arrives(
        client_surroundings(),
        #[trigger] all[i],
    ) by {
        if i > 0 {
            assert(all[i] == bodies[i - 1]);
        }
    }
    law_frames_received(Side::Client, client_surroundings(), all, seq![], seq![]);
    assert(frames(all) + Seq::<u8>::empty() =~= frames(all));
    assert(Seq::<Seq<u8>>::empty() + all =~= all);
    assert forall|i: int| 0 < i < all.len() implies reads_as_server_message(
        #[trigger] all[i],
        messages[i - 1],
    ) by {
        assert(all[i] == bodies[i - 1]);
    }
}

/// The server with all its connections.
pub struct Service {
    /// The connections, by the numbers by which they are known.
    pub connections: Map<nat, Connection>,
    /// The accepting task has ended with a panic, and the tasks of all
    /// connections with it.
    pub crashed: bool,
}

/// The server after one turn on one of its connections. Where the accepting
/// task panics, the tasks of all connections end, and all that can still
/// happen is that the game cancels a connection.
pub open spec fn service_step(service: Service, id: nat, turn: ServerTurn) -> Service {
    if !service.connections.contains_key(id) || (service.crashed && turn
        != ServerTurn::Task(Turn::Cancel)) {
        service
    } else {
        let before = service.connections[id];
        let after = connection_step(before, turn);
        Service {
            connections: service.connections.insert(id, after),
            crashed: service.crashed || (turn is Accept && after.phase is Crashed),
        }
    }
}

/// The server after a sequence of turns, each on one of its connections.
pub open spec fn service_run(service: Service, turns: Seq<(nat, ServerTurn)>) -> Service
    decreases turns.len(),
{
    if turns.len() == 0 {
        service
    } else {
        service_run(
            service_step(service, turns.first().0, turns.first().1),
            turns.drop_first(),
        )
    }
}

/// The turns on one connection, in their order.
pub open spec fn turns_on(turns: Seq<(nat, ServerTurn)>, id: nat) -> Seq<ServerTurn>
    decreases turns.len(),
{
    if turns.len() == 0 {
        seq![]
    } else if turns.first().0 == id {
        seq![turns.first().1] + turns_on(turns.drop_first(), id)
    } else {
        turns_on(turns.drop_first(), id)
    }
}

proof fn lemma_crash_stays(service: Service, turns: Seq<(nat, ServerTurn)>)
    requires
        service.crashed,
    ensures
        service_run(service, turns).crashed,
    decreases turns.len(),
{
    if turns.len() > 0 {
        lemma_crash_stays(
            service_step(service, turns.first().0, turns.first().1),
            turns.drop_first(),
        );
    }
}

/// Players do not touch each other: as long as the accepting task goes on,
/// every connection gets, in whatever order turns are taken, as far as it gets
/// by itself in its own turns. What it is handed, what it writes, what the
/// game hears of it and whether it is cancelled depend on no other connection.
pub proof fn law_players_do_not_touch(
    service: Service,
    turns: Seq<(nat, ServerTurn)>,
    id: nat,
)
    requires
        service.connections.contains_key(id),
        !service_run(service, turns).crashed,
    ensures
        service_run(service, turns).connections.contains_key(id),
        service_run(service, turns).connections[id] == connection_run(
            service.connections[id],
            turns_on(turns, id),
        ),
    decreases turns.len(),
{
    if service.crashed {
        lemma_crash_stays(service, turns);
    }
    if turns.len() > 0 {
        let (other, turn) = turns.first();
        let later = turns.drop_first();
        let after = service_step(service, other, turn);
        law_players_do_not_touch(after, later, id);
        if other == id {
            assert(turns_on(turns, id).drop_first() =~= turns_on(later, id));
            assert(turns_on(turns, id).first() == turn);
        }
    }
}

/// To cancel the connection of one player leaves the flag of every other
/// player as it is, and all else of them, also once the accepting task has
/// panicked.
pub proof fn law_cancel_touches_one_player(service: Service, cancelled: nat, id: nat)
    requires
        service.connections.contains_key(cancelled),
        service.connections.contains_key(id),
    ensures
        ({
            let after = service_step(service, cancelled, ServerTurn::Task(Turn::Cancel));
            &&& after.connections.contains_key(id)
            &&& after.connections[cancelled].link.cancelled
            &&& id != cancelled ==> after.connections[id] == service.connections[id]
        }),
{
}

} // verus!
