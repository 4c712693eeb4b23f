//! A connection as a whole: its receiving and its sending task at work side by
//! side, under one cancel flag.
use crate::frame::frames;
use crate::send::{
    all_serializable, between_messages, law_messages_written, queue_phases, serializable,
    transmission_run, transmission_step, SendPhase, SendSurroundings, Transmission,
};
use crate::side::Side;
use crate::stream::{
    all_arrive, between_frames, law_frames_received, phases_per_frame, reception_run,
    reception_step, Reception, ReceiveSurroundings,
};
use vstd::prelude::*;

verus! {

/// What the tasks of a connection find around them, apart from the cancel
/// flag.
pub struct Environment {
    /// Which bodies are messages.
    pub readable: spec_fn(Seq<u8>) -> bool,
    /// Whether the stream takes a frame, by the number of frames that were
    /// tried before it.
    pub accepts: spec_fn(nat) -> bool,
    /// Messages can be handed to the game.
    pub open: bool,
}

/// The two tasks of a connection, and the flag that both of them look at.
pub struct Link {
    pub cancelled: bool,
    pub receiving: Reception,
    pub sending: Transmission,
}

/// What happens on a connection.
pub enum Turn {
    /// The receiving task goes through a phase.
    Receive,
    /// The sending task goes through a phase.
    Send,
    /// The game cancels the connection.
    Cancel,
}

/// What the receiving task finds around it.
pub open spec fn receiving_in(
    environment: Environment,
    cancelled: bool,
) -> ReceiveSurroundings {
    ReceiveSurroundings {
        cancelled,
        readable: environment.readable,
        open: environment.open,
    }
}

/// What the sending task finds around it.
pub open spec fn sending_in(environment: Environment, cancelled: bool) -> SendSurroundings {
    SendSurroundings { cancelled, accepts: environment.accepts, open: environment.open }
}

/// A connection after one turn.
pub open spec fn link_step(
    side: Side,
    environment: Environment,
    link: Link,
    turn: Turn,
) -> Link {
    match turn {
        Turn::Receive => Link {
            receiving: reception_step(
                side,
                receiving_in(environment, link.cancelled),
                link.receiving,
            ),
            ..link
        },
        Turn::Send => Link {
            sending: transmission_step(
                side,
                sending_in(environment, link.cancelled),
                link.sending,
            ),
            ..link
        },
        Turn::Cancel => Link { cancelled: true, ..link },
    }
}

/// A connection after a sequence of turns.
pub open spec fn link_run(
    side: Side,
    environment: Environment,
    link: Link,
    turns: Seq<Turn>,
) -> Link
    decreases turns.len(),
{
    if turns.len() == 0 {
        link
    } else {
        link_run(
            side,
            environment,
            link_step(side, environment, link, turns.first()),
            turns.drop_first(),
        )
    }
}

/// How often a turn is taken.
pub open spec fn count(turns: Seq<Turn>, turn: Turn) -> nat
    decreases turns.len(),
{
    if turns.len() == 0 {
        0
    } else if turns.first() == turn {
        1 + count(turns.drop_first(), turn)
    } else {
        count(turns.drop_first(), turn)
    }
}

/// The two tasks of a connection do not mix: in whatever order they take
/// turns, each of them gets as far as it gets by itself in its own turns. This
/// holds as long as the cancel flag stays as it is.
pub proof fn law_tasks_do_not_mix(
    side: Side,
    environment: Environment,
    link: Link,
    turns: Seq<Turn>,
)
    requires
        link.cancelled || count(turns, Turn::Cancel) == 0,
    ensures
        link_run(side, environment, link, turns) == (Link {
            cancelled: link.cancelled,
            receiving: reception_run(
                side,
                receiving_in(environment, link.cancelled),
                link.receiving,
                count(turns, Turn::Receive),
            ),
            sending: transmission_run(
                side,
                sending_in(environment, link.cancelled),
                link.sending,
                count(turns, Turn::Send),
            ),
        }),
    decreases turns.len(),
{
    if turns.len() > 0 {
        law_tasks_do_not_mix(
            side,
            environment,
            link_step(side, environment, link, turns.first()),
            turns.drop_first(),
        );
    }
}

proof fn lemma_link_run_add(
    side: Side,
    environment: Environment,
    link: Link,
    first: Seq<Turn>,
    second: Seq<Turn>,
)
    ensures
        link_run(side, environment, link, first + second) == link_run(
            side,
            environment,
            link_run(side, environment, link, first),
            second,
        ),
    decreases first.len(),
{
    if first.len() == 0 {
        assert(first + second =~= second);
    } else {
        assert((first + second).drop_first() =~= first.drop_first() + second);
        lemma_link_run_add(
            side,
            environment,
            link_step(side, environment, link, first.first()),
            first.drop_first(),
            second,
        );
    }
}

/// One cancellation reaches both tasks: up to it both go on as if there were
/// none, and from it on both find the connection cancelled.
pub proof fn law_cancel_reaches_both_tasks(
    side: Side,
    environment: Environment,
    link: Link,
    before: Seq<Turn>,
    after: Seq<Turn>,
)
    requires
        !link.cancelled,
        count(before, Turn::Cancel) == 0,
    ensures
        link_run(side, environment, link, before + (seq![Turn::Cancel] + after)) == (Link {
            cancelled: true,
            receiving: reception_run(
                side,
                receiving_in(environment, true),
                reception_run(
                    side,
                    receiving_in(environment, false),
                    link.receiving,
                    count(before, Turn::Receive),
                ),
                count(after, Turn::Receive),
            ),
            sending: transmission_run(
                side,
                sending_in(environment, true),
                transmission_run(
                    side,
                    sending_in(environment, false),
                    link.sending,
                    count(before, Turn::Send),
                ),
                count(after, Turn::Send),
            ),
        }),
{
    let middle = link_run(side, environment, link, before);
    let rest = seq![Turn::Cancel] + after;
    law_tasks_do_not_mix(side, environment, link, before);
    lemma_link_run_add(side, environment, link, before, rest);
    assert(rest.drop_first() =~= after);
    assert(rest.first() == Turn::Cancel);
    law_tasks_do_not_mix(side, environment, Link { cancelled: true, ..middle }, after);
}

/// A connection whose tasks were just started: `incoming` is what the other
/// end writes, `queue` what the sending task will be handed, and `written`
/// what was written before.
pub open spec fn started_link(
    incoming: Seq<u8>,
    queue: Seq<Option<Seq<u8>>>,
    written: Seq<u8>,
) -> Link {
    Link {
        cancelled: false,
        receiving: between_frames(incoming, seq![]),
        sending: Transmission {
            phase: SendPhase::CheckCancel,
            ..between_messages(queue, seq![], written, 0)
        },
    }
}

/// A connection carries messages both ways at once: whatever the order of the
/// turns, what the other end wrote is handed on and nothing else, and what the
/// sending task is handed is written and nothing else.
pub proof fn law_both_directions_served(
    side: Side,
    environment: Environment,
    payloads: Seq<Seq<u8>>,
    queue: Seq<Option<Seq<u8>>>,
    written: Seq<u8>,
    turns: Seq<Turn>,
)
    requires
        environment.open,
        all_arrive(receiving_in(environment, false), payloads),
        forall|n: nat| #[trigger] (environment.accepts)(n),
        side is Server ==> all_serializable(queue),
        count(turns, Turn::Cancel) == 0,
        count(turns, Turn::Receive) == phases_per_frame() * payloads.len(),
        count(turns, Turn::Send) == 1 + queue_phases(side, queue, environment.accepts, 0),
    ensures
        link_run(side, environment, started_link(frames(payloads), queue, written), turns) == (
        Link {
            cancelled: false,
            receiving: between_frames(seq![], payloads),
            sending: between_messages(
                seq![],
                serializable(queue),
                written + frames(serializable(queue)),
                0,
            ),
        }),
{
    let link = started_link(frames(payloads), queue, written);
    let sending = sending_in(environment, false);
    law_tasks_do_not_mix(side, environment, link, turns);
    law_frames_received(side, receiving_in(environment, false), payloads, seq![], seq![]);
    assert(frames(payloads) + Seq::<u8>::empty() =~= frames(payloads));
    assert(Seq::<Seq<u8>>::empty() + payloads =~= payloads);
    law_messages_written(side, sending, queue, seq![], written, 0);
    assert(Seq::<Seq<u8>>::empty() + serializable(queue) =~= serializable(queue));
    assert(transmission_step(side, sending, link.sending) == between_messages(
        queue,
        seq![],
        written,
        0,
    ));
}

} // verus!
