//! How a stream arrives: in chunks, whose bounds have no say in what the
//! receiving task makes of the stream.
use crate::receive::{receive_next, ReceiveEvent, ReceivePhase};
use crate::side::Side;
use crate::stream::{
    bytes_asked, reception_event, reception_run, reception_step, Reception, ReceiveSurroundings,
};
use vstd::prelude::*;

verus! {

/// The receiving task at work on a stream that arrives in chunks.
pub struct Arrival {
    /// What the task does next.
    pub phase: ReceivePhase,
    /// The chunks that are still to be read.
    pub chunks: Seq<Seq<u8>>,
    /// The body that was read and is not handed on yet.
    pub body: Seq<u8>,
    /// The bodies of the messages that were handed on, the first one first.
    pub delivered: Seq<Seq<u8>>,
}

/// The bytes of a sequence of chunks.
pub open spec fn joined(chunks: Seq<Seq<u8>>) -> Seq<u8>
    decreases chunks.len(),
{
    if chunks.len() == 0 {
        seq![]
    } else {
        chunks.first() + joined(chunks.drop_first())
    }
}

/// What a read of `asked` bytes gathers: bytes of one chunk after the other
/// until there are enough of them, or no more chunks.
pub open spec fn gathered(chunks: Seq<Seq<u8>>, asked: int) -> Seq<u8>
    decreases chunks.len(),
{
    if chunks.len() == 0 {
        seq![]
    } else if chunks.first().len() >= asked {
        chunks.first().take(asked)
    } else {
        chunks.first() + gathered(chunks.drop_first(), asked - chunks.first().len())
    }
}

/// The chunks that a read of `asked` bytes leaves, of the last one that it
/// touches the part behind what it took.
pub open spec fn chunks_left(chunks: Seq<Seq<u8>>, asked: int) -> Seq<Seq<u8>>
    decreases chunks.len(),
{
    if chunks.len() == 0 {
        seq![]
    } else if chunks.first().len() >= asked {
        seq![chunks.first().skip(asked)] + chunks.drop_first()
    } else {
        chunks_left(chunks.drop_first(), asked - chunks.first().len())
    }
}

/// The task on the same bytes without regard to their chunks.
pub open spec fn unchunked(arrival: Arrival) -> Reception {
    Reception {
        phase: arrival.phase,
        rest: joined(arrival.chunks),
        body: arrival.body,
        delivered: arrival.delivered,
    }
}

/// How the phase of an arrival turns out: a read goes by the bytes that it
/// gathers.
pub open spec fn arrival_event(
    surroundings: ReceiveSurroundings,
    arrival: Arrival,
) -> ReceiveEvent {
    reception_event(
        surroundings,
        Reception {
            rest: gathered(arrival.chunks, bytes_asked(arrival.phase)),
            ..unchunked(arrival)
        },
    )
}

/// An arrival after one phase.
pub open spec fn arrival_step(
    side: Side,
    surroundings: ReceiveSurroundings,
    arrival: Arrival,
) -> Arrival {
    let asked = bytes_asked(arrival.phase);
    let bytes = gathered(arrival.chunks, asked);
    if arrival.phase is Stopped || arrival.phase is Crashed {
        arrival
    } else {
        Arrival {
            phase: receive_next(side, arrival_event(surroundings, arrival)).next,
            chunks: chunks_left(arrival.chunks, asked),
            body: if arrival.phase is ReadBody && bytes.len() == asked {
                bytes
            } else if arrival.phase is Deliver {
                seq![]
            } else {
                arrival.body
            },
            delivered: if arrival.phase is Deliver && surroundings.open {
                arrival.delivered.push(arrival.body)
            } else {
                arrival.delivered
            },
        }
    }
}

/// An arrival after `steps` phases.
pub open spec fn arrival_run(
    side: Side,
    surroundings: ReceiveSurroundings,
    arrival: Arrival,
    steps: nat,
) -> Arrival
    decreases steps,
{
    if steps == 0 {
        arrival
    } else {
        arrival_run(
            side,
            surroundings,
            arrival_step(side, surroundings, arrival),
            (steps - 1) as nat,
        )
    }
}

/// A read gathers the first bytes of the stream, or all of them where there
/// are too few, and leaves the others.
pub proof fn law_read_ignores_chunks(chunks: Seq<Seq<u8>>, asked: int)
    requires
        0 <= asked,
    ensures
        joined(chunks).len() >= asked ==> {
            &&& gathered(chunks, asked) == joined(chunks).take(asked)
            &&& joined(chunks_left(chunks, asked)) == joined(chunks).skip(asked)
        },
        joined(chunks).len() < asked ==> {
            &&& gathered(chunks, asked) == joined(chunks)
            &&& joined(chunks_left(chunks, asked)) == Seq::<u8>::empty()
        },
    decreases chunks.len(),
{
    let all = joined(chunks);
    if chunks.len() == 0 {
        assert(all.take(0) =~= all);
        assert(all.skip(0) =~= all);
    } else {
        let first = chunks.first();
        let others = chunks.drop_first();
        if first.len() >= asked {
            assert(all.take(asked) =~= first.take(asked));
            let left = seq![first.skip(asked)] + others;
            assert(left.drop_first() =~= others);
            assert(left.first() == first.skip(asked));
            assert(all.skip(asked) =~= first.skip(asked) + joined(others));
        } else {
            let more = asked - first.len();
            law_read_ignores_chunks(others, more);
            if all.len() >= asked {
                assert(all.take(asked) =~= first + joined(others).take(more));
                assert(all.skip(asked) =~= joined(others).skip(more));
            }
        }
    }
}

proof fn lemma_step_ignores_chunks(
    side: Side,
    surroundings: ReceiveSurroundings,
    arrival: Arrival,
)
    ensures
        unchunked(arrival_step(side, surroundings, arrival)) == reception_step(
            side,
            surroundings,
            unchunked(arrival),
        ),
{
    let asked = bytes_asked(arrival.phase);
    let all = joined(arrival.chunks);
    law_read_ignores_chunks(arrival.chunks, asked);
    if all.len() >= asked {
        assert(arrival_event(surroundings, arrival) == reception_event(
            surroundings,
            unchunked(arrival),
        ));
    }
    assert(unchunked(arrival_step(side, surroundings, arrival)) =~= reception_step(
        side,
        surroundings,
        unchunked(arrival),
    ));
}

/// What the receiving task makes of a stream that arrives in chunks is what it
/// makes of the bytes of that stream, wherever one chunk ends and the next one
/// begins.
pub proof fn law_chunks_ignored(
    side: Side,
    surroundings: ReceiveSurroundings,
    arrival: Arrival,
    steps: nat,
)
    ensures
        unchunked(arrival_run(side, surroundings, arrival, steps)) == reception_run(
            side,
            surroundings,
            unchunked(arrival),
            steps,
        ),
    decreases steps,
{
    if steps > 0 {
        lemma_step_ignores_chunks(side, surroundings, arrival);
        law_chunks_ignored(
            side,
            surroundings,
            arrival_step(side, surroundings, arrival),
            (steps - 1) as nat,
        );
    }
}

/// The same bytes in other chunks are handed on as the same bodies, and leave
/// the task in the same phase.
pub proof fn law_same_bytes_same_outcome(
    side: Side,
    surroundings: ReceiveSurroundings,
    left: Arrival,
    right: Arrival,
    steps: nat,
)
    requires
        unchunked(left) == unchunked(right),
    ensures
        ({
            let left_end = arrival_run(side, surroundings, left, steps);
            let right_end = arrival_run(side, surroundings, right, steps);
            &&& left_end.phase == right_end.phase
            &&& left_end.body == right_end.body
            &&& left_end.delivered == right_end.delivered
            &&& joined(left_end.chunks) == joined(right_end.chunks)
        }),
{
    law_chunks_ignored(side, surroundings, left, steps);
    law_chunks_ignored(side, surroundings, right, steps);
}

} // verus!
