//! What the receiving task makes of a stream of bytes.
//!
//! The task is followed on a stream that holds given bytes and then ends.
use crate::frame::{
    fits_frame, frame, frames, header_len, law_size_survives, size_bytes, DELIMITER,
};
use crate::receive::{receive_answers, receive_next, ReceiveEvent, ReceivePhase};
use crate::side::Side;
use vstd::prelude::*;

verus! {

/// What the receiving task finds around it.
pub struct ReceiveSurroundings {
    /// The connection was cancelled.
    pub cancelled: bool,
    /// Which bodies are messages.
    pub readable: spec_fn(Seq<u8>) -> bool,
    /// Messages can be handed on.
    pub open: bool,
}

/// Nothing around the task stands in the way of a message.
pub open spec fn calm(surroundings: ReceiveSurroundings) -> bool {
    !surroundings.cancelled && surroundings.open
}

/// The body reaches its receiver: its frame tells its length in full, and it
/// is a message.
pub open spec fn arrives(surroundings: ReceiveSurroundings, payload: Seq<u8>) -> bool {
    fits_frame(payload) && (surroundings.readable)(payload)
}

/// Every one of the bodies reaches its receiver.
pub open spec fn all_arrive(surroundings: ReceiveSurroundings, payloads: Seq<Seq<u8>>) -> bool {
    forall|i: int| 0 <= i < payloads.len() ==> arrives(surroundings, #[trigger] payloads[i])
}

/// The receiving task at work on a stream.
#[verifier::ext_equal]
pub struct Reception {
    /// What the task does next.
    pub phase: ReceivePhase,
    /// The bytes that are still to be read.
    pub rest: Seq<u8>,
    /// The body that was read and is not handed on yet.
    pub body: Seq<u8>,
    /// The bodies of the messages that were handed on, the first one first.
    pub delivered: Seq<Seq<u8>>,
}

/// The task between two frames.
pub open spec fn between_frames(rest: Seq<u8>, delivered: Seq<Seq<u8>>) -> Reception {
    Reception { phase: ReceivePhase::CheckCancel, rest, body: seq![], delivered }
}

/// How the phase of a reception turns out. A read for which too few bytes are
/// left fails.
pub open spec fn reception_event(
    surroundings: ReceiveSurroundings,
    reception: Reception,
) -> ReceiveEvent {
    let rest = reception.rest;
    match reception.phase {
        ReceivePhase::CheckCancel => ReceiveEvent::Cancelled(surroundings.cancelled),
        ReceivePhase::ReadDelimiter => ReceiveEvent::Delimiter(
            if rest.len() >= 1 {
                Some([rest[0]])
            } else {
                None
            },
        ),
        ReceivePhase::ReadSize => ReceiveEvent::Size(
            if rest.len() >= 4 {
                Some([rest[0], rest[1], rest[2], rest[3]])
            } else {
                None
            },
        ),
        ReceivePhase::ReadBody { size } => ReceiveEvent::Body(rest.len() >= size),
        ReceivePhase::Decode => ReceiveEvent::Decoded(
            (surroundings.readable)(reception.body),
        ),
        _ => ReceiveEvent::Delivered(surroundings.open),
    }
}

/// The number of bytes that a phase asks of the stream.
pub open spec fn bytes_asked(phase: ReceivePhase) -> int {
    match phase {
        ReceivePhase::ReadDelimiter => 1,
        ReceivePhase::ReadSize => 4,
        ReceivePhase::ReadBody { size } => size as int,
        _ => 0,
    }
}

/// A reception after one phase. A read that fails leaves nothing to read.
pub open spec fn reception_step(
    side: Side,
    surroundings: ReceiveSurroundings,
    reception: Reception,
) -> Reception {
    let asked = bytes_asked(reception.phase);
    let served = reception.rest.len() >= asked;
    if reception.phase is Stopped || reception.phase is Crashed {
        reception
    } else {
        Reception {
            phase: receive_next(side, reception_event(surroundings, reception)).next,
            rest: if served {
                reception.rest.skip(asked)
            } else {
                seq![]
            },
            body: if reception.phase is ReadBody && served {
                reception.rest.take(asked)
            } else if reception.phase is Deliver {
                seq![]
            } else {
                reception.body
            },
            delivered: if reception.phase is Deliver && surroundings.open {
                reception.delivered.push(reception.body)
            } else {
                reception.delivered
            },
        }
    }
}

/// A reception after `steps` phases.
pub open spec fn reception_run(
    side: Side,
    surroundings: ReceiveSurroundings,
    reception: Reception,
    steps: nat,
) -> Reception
    decreases steps,
{
    if steps == 0 {
        reception
    } else {
        reception_run(
            side,
            surroundings,
            reception_step(side, surroundings, reception),
            (steps - 1) as nat,
        )
    }
}

/// The number of phases in which a frame is received.
pub open spec fn phases_per_frame() -> nat {
    6
}

/// The number of phases in which a byte that is no delimiter is passed over.
pub open spec fn phases_per_noise_byte() -> nat {
    2
}

/// A run of `first + second` phases is one of `first` phases and then one of
/// `second`.
pub(crate) proof fn lemma_run_add(
    side: Side,
    surroundings: ReceiveSurroundings,
    reception: Reception,
    first: nat,
    second: nat,
)
    ensures
        reception_run(side, surroundings, reception, first + second) == reception_run(
            side,
            surroundings,
            reception_run(side, surroundings, reception, first),
            second,
        ),
    decreases first,
{
    if first > 0 {
        lemma_run_add(
            side,
            surroundings,
            reception_step(side, surroundings, reception),
            (first - 1) as nat,
            second,
        );
    }
}

/// Every phase that a reception is in turns out in an event that belongs to
/// it.
pub proof fn law_receive_events_answer(
    surroundings: ReceiveSurroundings,
    reception: Reception,
)
    requires
        !(reception.phase is Stopped),
        !(reception.phase is Crashed),
    ensures
        receive_answers(reception.phase, reception_event(surroundings, reception)),
{
}

/// The reading of the body of a frame that is whole: the phases up to the
/// look at the body.
proof fn lemma_frame_read(
    side: Side,
    surroundings: ReceiveSurroundings,
    payload: Seq<u8>,
    rest: Seq<u8>,
    delivered: Seq<Seq<u8>>,
)
    requires
        !surroundings.cancelled,
        fits_frame(payload),
    ensures
        ({
            let start = between_frames(frame(payload) + rest, delivered);
            &&& reception_run(side, surroundings, start, 1).phase is ReadDelimiter
            &&& reception_run(side, surroundings, start, 2).phase is ReadSize
            &&& reception_run(side, surroundings, start, 3).phase is ReadBody
            &&& reception_run(side, surroundings, start, 4) == (Reception {
                phase: ReceivePhase::Decode,
                rest,
                body: payload,
                delivered,
            })
        }),
{
    let stream = frame(payload) + rest;
    let size = size_bytes(payload.len() as int);
    law_size_survives(payload.len() as int);
    let start = between_frames(stream, delivered);
    let checked = reception_step(side, surroundings, start);
    assert(checked.phase is ReadDelimiter);
    assert(checked.rest =~= stream);
    let announced = reception_step(side, surroundings, checked);
    assert([stream[0]]@ =~= DELIMITER@);
    assert(announced.phase is ReadSize);
    assert(announced.rest =~= size + payload + rest);
    let field = announced.rest;
    assert([field[0], field[1], field[2], field[3]]@ =~= size);
    let measured = reception_step(side, surroundings, announced);
    assert(measured.phase == ReceivePhase::ReadBody { size: payload.len() as u32 });
    assert(measured.rest =~= payload + rest);
    let read = reception_step(side, surroundings, measured);
    assert(read =~= (Reception { phase: ReceivePhase::Decode, rest, body: payload, delivered }));
    reveal_with_fuel(reception_run, 5);
}

/// The body of a frame is handed on, and what follows the frame is left on
/// the stream.
pub proof fn law_frame_received(
    side: Side,
    surroundings: ReceiveSurroundings,
    payload: Seq<u8>,
    rest: Seq<u8>,
    delivered: Seq<Seq<u8>>,
)
    requires
        calm(surroundings),
        arrives(surroundings, payload),
    ensures
        reception_run(
            side,
            surroundings,
            between_frames(frame(payload) + rest, delivered),
            phases_per_frame(),
        ) == between_frames(rest, delivered.push(payload)),
{
    let start = between_frames(frame(payload) + rest, delivered);
    lemma_frame_read(side, surroundings, payload, rest, delivered);
    let read = reception_run(side, surroundings, start, 4);
    let decoded = reception_step(side, surroundings, read);
    assert(decoded.phase is Deliver);
    assert(decoded.rest =~= rest);
    let end = reception_step(side, surroundings, decoded);
    assert(end =~= between_frames(rest, delivered.push(payload)));
    assert(reception_run(side, surroundings, read, 2) == end) by {
        reveal_with_fuel(reception_run, 3);
    }
    lemma_run_add(side, surroundings, start, 4, 2);
}

/// What was written as frames is read back: the bodies are handed on in the
/// order in which their frames were written, none is lost and none is added,
/// and what follows the frames is left on the stream.
pub proof fn law_frames_received(
    side: Side,
    surroundings: ReceiveSurroundings,
    payloads: Seq<Seq<u8>>,
    rest: Seq<u8>,
    delivered: Seq<Seq<u8>>,
)
    requires
        calm(surroundings),
        all_arrive(surroundings, payloads),
    ensures
        reception_run(
            side,
            surroundings,
            between_frames(frames(payloads) + rest, delivered),
            phases_per_frame() * payloads.len(),
        ) == between_frames(rest, delivered + payloads),
    decreases payloads.len(),
{
    if payloads.len() == 0 {
        assert(frames(payloads) + rest =~= rest);
        assert(delivered + payloads =~= delivered);
    } else {
        let first = payloads.first();
        let others = payloads.drop_first();
        let later = frames(others) + rest;
        assert(frames(payloads) + rest =~= frame(first) + later);
        law_frame_received(side, surroundings, first, later, delivered);
        assert forall|i: int| 0 <= i < others.len() implies arrives(
            surroundings,
            #[trigger] others[i],
        ) by {
            assert(others[i] == payloads[i + 1]);
        }
        law_frames_received(side, surroundings, others, rest, delivered.push(first));
        assert(delivered.push(first) + others =~= delivered + payloads);
        lemma_run_add(
            side,
            surroundings,
            between_frames(frames(payloads) + rest, delivered),
            phases_per_frame(),
            phases_per_frame() * others.len(),
        );
        assert(phases_per_frame() + phases_per_frame() * others.len() == phases_per_frame()
            * payloads.len());
    }
}

/// What was handed on before has no say in what is handed on after it.
proof fn lemma_delivered_prefix(
    side: Side,
    surroundings: ReceiveSurroundings,
    reception: Reception,
    prefix: Seq<Seq<u8>>,
    steps: nat,
)
    ensures
        ({
            let end = reception_run(side, surroundings, reception, steps);
            reception_run(
                side,
                surroundings,
                Reception { delivered: prefix + reception.delivered, ..reception },
                steps,
            ) == (Reception { delivered: prefix + end.delivered, ..end })
        }),
    decreases steps,
{
    if steps > 0 {
        let after = reception_step(side, surroundings, reception);
        let prefixed = Reception { delivered: prefix + reception.delivered, ..reception };
        assert(prefix + reception.delivered.push(reception.body) =~= (prefix
            + reception.delivered).push(reception.body));
        assert(reception_step(side, surroundings, prefixed) =~= (Reception {
            delivered: prefix + after.delivered,
            ..after
        }));
        lemma_delivered_prefix(side, surroundings, after, prefix, (steps - 1) as nat);
    }
}

/// What a stream yields whose first frame is whole is the body of that frame
/// and then what the rest of the stream yields by itself.
pub proof fn law_frame_splits_stream(
    side: Side,
    surroundings: ReceiveSurroundings,
    payload: Seq<u8>,
    rest: Seq<u8>,
    steps: nat,
)
    requires
        calm(surroundings),
        arrives(surroundings, payload),
    ensures
        ({
            let whole = reception_run(
                side,
                surroundings,
                between_frames(frame(payload) + rest, seq![]),
                phases_per_frame() + steps,
            );
            let alone = reception_run(side, surroundings, between_frames(rest, seq![]), steps);
            whole == (Reception { delivered: seq![payload] + alone.delivered, ..alone })
        }),
{
    let start = between_frames(frame(payload) + rest, seq![]);
    let empty = Seq::<Seq<u8>>::empty();
    law_frame_received(side, surroundings, payload, rest, seq![]);
    lemma_run_add(side, surroundings, start, phases_per_frame(), steps);
    lemma_delivered_prefix(
        side,
        surroundings,
        between_frames(rest, seq![]),
        seq![payload],
        steps,
    );
    assert(seq![payload] + empty =~= empty.push(payload));
}

/// The number of phases in which a frame is found to hold no message.
pub open spec fn phases_to_unreadable() -> nat {
    5
}

/// A body that is no message ends the task with a panic: the bodies before it
/// are handed on, in their order, and nothing after it is.
pub proof fn law_unreadable_body_crashes(
    side: Side,
    surroundings: ReceiveSurroundings,
    payloads: Seq<Seq<u8>>,
    garbage: Seq<u8>,
    rest: Seq<u8>,
    delivered: Seq<Seq<u8>>,
    more: nat,
)
    requires
        calm(surroundings),
        all_arrive(surroundings, payloads),
        fits_frame(garbage),
        !(surroundings.readable)(garbage),
    ensures
        reception_run(
            side,
            surroundings,
            between_frames(frames(payloads) + (frame(garbage) + rest), delivered),
            phases_per_frame() * payloads.len() + phases_to_unreadable() + more,
        ) == (Reception {
            phase: ReceivePhase::Crashed,
            rest,
            body: garbage,
            delivered: delivered + payloads,
        }),
{
    let later = frame(garbage) + rest;
    let start = between_frames(frames(payloads) + later, delivered);
    let good = phases_per_frame() * payloads.len();
    let middle = between_frames(later, delivered + payloads);
    law_frames_received(side, surroundings, payloads, later, delivered);
    lemma_frame_read(side, surroundings, garbage, rest, delivered + payloads);
    let read = reception_run(side, surroundings, middle, 4);
    let crashed = reception_step(side, surroundings, read);
    assert(crashed =~= (Reception {
        phase: ReceivePhase::Crashed,
        rest,
        body: garbage,
        delivered: delivered + payloads,
    }));
    assert(reception_run(side, surroundings, read, 1) == crashed) by {
        reveal_with_fuel(reception_run, 2);
    }
    lemma_run_add(side, surroundings, middle, 4, 1);
    lemma_ended_stays(side, surroundings, crashed, more);
    lemma_run_add(side, surroundings, middle, 5, more);
    lemma_run_add(side, surroundings, start, good, phases_to_unreadable() + more);
}

/// A task that has ended does nothing more.
proof fn lemma_ended_stays(
    side: Side,
    surroundings: ReceiveSurroundings,
    reception: Reception,
    steps: nat,
)
    requires
        reception.phase is Stopped || reception.phase is Crashed,
    ensures
        reception_run(side, surroundings, reception, steps) == reception,
    decreases steps,
{
    if steps > 0 {
        lemma_ended_stays(side, surroundings, reception, (steps - 1) as nat);
    }
}

/// Where messages cannot be handed on, the client drops a message and reads
/// on behind it, and the server panics.
pub proof fn law_closed_channel(
    side: Side,
    surroundings: ReceiveSurroundings,
    payload: Seq<u8>,
    rest: Seq<u8>,
    delivered: Seq<Seq<u8>>,
)
    requires
        !surroundings.cancelled,
        !surroundings.open,
        arrives(surroundings, payload),
    ensures
        reception_run(
            side,
            surroundings,
            between_frames(frame(payload) + rest, delivered),
            phases_per_frame(),
        ) == (Reception {
            phase: match side {
                Side::Client => ReceivePhase::CheckCancel,
                Side::Server => ReceivePhase::Crashed,
            },
            ..between_frames(rest, delivered)
        }),
{
    let start = between_frames(frame(payload) + rest, delivered);
    lemma_frame_read(side, surroundings, payload, rest, delivered);
    let read = reception_run(side, surroundings, start, 4);
    let decoded = reception_step(side, surroundings, read);
    assert(decoded.phase is Deliver);
    assert(decoded.rest =~= rest);
    let end = reception_step(side, surroundings, decoded);
    assert(end.rest =~= rest);
    assert(reception_run(side, surroundings, read, 2) == end) by {
        reveal_with_fuel(reception_run, 3);
    }
    lemma_run_add(side, surroundings, start, 4, 2);
}

/// The same surroundings once the connection was cancelled.
pub open spec fn once_cancelled(surroundings: ReceiveSurroundings) -> ReceiveSurroundings {
    ReceiveSurroundings { cancelled: true, ..surroundings }
}

/// Once the connection was cancelled, a task between two frames stops before
/// it reads anything.
pub proof fn law_cancelled_between_frames(
    side: Side,
    surroundings: ReceiveSurroundings,
    rest: Seq<u8>,
    delivered: Seq<Seq<u8>>,
    more: nat,
)
    requires
        surroundings.cancelled,
    ensures
        reception_run(side, surroundings, between_frames(rest, delivered), 1 + more) == (
        Reception { phase: ReceivePhase::Stopped, ..between_frames(rest, delivered) }),
{
    let start = between_frames(rest, delivered);
    let end = reception_step(side, surroundings, start);
    assert(end.rest =~= rest);
    lemma_ended_stays(side, surroundings, end, more);
}

proof fn lemma_frame_finished(
    side: Side,
    surroundings: ReceiveSurroundings,
    payload: Seq<u8>,
    rest: Seq<u8>,
    delivered: Seq<Seq<u8>>,
    begun: nat,
)
    requires
        calm(surroundings),
        arrives(surroundings, payload),
        0 < begun <= phases_per_frame(),
    ensures
        reception_run(
            side,
            once_cancelled(surroundings),
            reception_run(
                side,
                surroundings,
                between_frames(frame(payload) + rest, delivered),
                begun,
            ),
            (phases_per_frame() - begun) as nat,
        ) == between_frames(rest, delivered.push(payload)),
    decreases phases_per_frame() - begun,
{
    let start = between_frames(frame(payload) + rest, delivered);
    law_frame_received(side, surroundings, payload, rest, delivered);
    if begun < phases_per_frame() {
        lemma_frame_read(side, surroundings, payload, rest, delivered);
        let here = reception_run(side, surroundings, start, begun);
        if begun == 5 {
            lemma_run_add(side, surroundings, start, 4, 1);
            reveal_with_fuel(reception_run, 2);
        }
        assert(!(here.phase is CheckCancel));
        let next = reception_step(side, surroundings, here);
        assert(next == reception_step(side, once_cancelled(surroundings), here));
        lemma_run_add(side, surroundings, start, begun, 1);
        assert(reception_run(side, surroundings, here, 1) == next) by {
            reveal_with_fuel(reception_run, 2);
        }
        lemma_frame_finished(side, surroundings, payload, rest, delivered, begun + 1);
    }
}

/// A connection that is cancelled while the task is `begun` phases into a
/// frame: the frames before it were handed on, the frame is handed on too
/// unless the task was still to begin with it, and then the task stops and
/// leaves the rest of the stream unread.
pub proof fn law_cancel_takes_effect_between_frames(
    side: Side,
    surroundings: ReceiveSurroundings,
    payloads: Seq<Seq<u8>>,
    payload: Seq<u8>,
    rest: Seq<u8>,
    delivered: Seq<Seq<u8>>,
    begun: nat,
    more: nat,
)
    requires
        calm(surroundings),
        all_arrive(surroundings, payloads),
        arrives(surroundings, payload),
        begun <= phases_per_frame(),
    ensures
        ({
            let cancelled = reception_run(
                side,
                surroundings,
                between_frames(frames(payloads) + (frame(payload) + rest), delivered),
                phases_per_frame() * payloads.len() + begun,
            );
            let left = if begun == 0 {
                0
            } else {
                (phases_per_frame() - begun) as nat
            };
            let end = reception_run(
                side,
                once_cancelled(surroundings),
                cancelled,
                left + (1 + more),
            );
            end == (Reception {
                phase: ReceivePhase::Stopped,
                rest: if begun == 0 {
                    frame(payload) + rest
                } else {
                    rest
                },
                body: seq![],
                delivered: if begun == 0 {
                    delivered + payloads
                } else {
                    (delivered + payloads).push(payload)
                },
            })
        }),
{
    let later = frame(payload) + rest;
    let start = between_frames(frames(payloads) + later, delivered);
    let good = phases_per_frame() * payloads.len();
    let cancelled = once_cancelled(surroundings);
    let middle = between_frames(later, delivered + payloads);
    law_frames_received(side, surroundings, payloads, later, delivered);
    lemma_run_add(side, surroundings, start, good, begun);
    if begun == 0 {
        law_cancelled_between_frames(side, cancelled, later, delivered + payloads, more);
    } else {
        let here = reception_run(side, surroundings, middle, begun);
        lemma_frame_finished(side, surroundings, payload, rest, delivered + payloads, begun);
        lemma_run_add(
            side,
            cancelled,
            here,
            (phases_per_frame() - begun) as nat,
            1 + more,
        );
        law_cancelled_between_frames(
            side,
            cancelled,
            rest,
            (delivered + payloads).push(payload),
            more,
        );
    }
}

/// Bytes without a delimiter in front of a frame are passed over.
pub proof fn law_noise_passed_over(
    side: Side,
    surroundings: ReceiveSurroundings,
    noise: Seq<u8>,
    rest: Seq<u8>,
    delivered: Seq<Seq<u8>>,
)
    requires
        !surroundings.cancelled,
        !noise.contains(DELIMITER@[0]),
    ensures
        reception_run(
            side,
            surroundings,
            between_frames(noise + rest, delivered),
            phases_per_noise_byte() * noise.len(),
        ) == between_frames(rest, delivered),
    decreases noise.len(),
{
    if noise.len() == 0 {
        assert(noise + rest =~= rest);
    } else {
        let others = noise.drop_first();
        let start = between_frames(noise + rest, delivered);
        let checked = reception_step(side, surroundings, start);
        assert(checked.rest =~= noise + rest);
        assert(noise.contains(noise[0]));
        assert([checked.rest[0]]@[0] == noise[0]);
        let passed = reception_step(side, surroundings, checked);
        assert(passed =~= between_frames(others + rest, delivered));
        assert(!others.contains(DELIMITER@[0])) by {
            if others.contains(DELIMITER@[0]) {
                let i = choose|i: int| 0 <= i < others.len() && others[i] == DELIMITER@[0];
                assert(noise[i + 1] == DELIMITER@[0]);
            }
        }
        reveal_with_fuel(reception_run, 3);
        law_noise_passed_over(side, surroundings, others, rest, delivered);
        lemma_run_add(
            side,
            surroundings,
            start,
            phases_per_noise_byte(),
            phases_per_noise_byte() * others.len(),
        );
        assert(phases_per_noise_byte() + phases_per_noise_byte() * others.len()
            == phases_per_noise_byte() * noise.len());
    }
}

/// A stream that ends within a frame yields nothing of that frame: the task
/// is back between two frames with nothing left to read.
pub proof fn law_cut_frame_dropped(
    side: Side,
    surroundings: ReceiveSurroundings,
    payload: Seq<u8>,
    kept: int,
    delivered: Seq<Seq<u8>>,
)
    requires
        !surroundings.cancelled,
        fits_frame(payload),
        0 < kept < frame(payload).len(),
    ensures
        reception_run(
            side,
            surroundings,
            between_frames(frame(payload).take(kept), delivered),
            if kept < header_len() {
                3nat
            } else {
                4nat
            },
        ) == between_frames(seq![], delivered),
{
    let stream = frame(payload).take(kept);
    let size = size_bytes(payload.len() as int);
    law_size_survives(payload.len() as int);
    let start = between_frames(stream, delivered);
    let checked = reception_step(side, surroundings, start);
    assert(checked.rest =~= stream);
    assert([stream[0]]@ =~= DELIMITER@);
    let announced = reception_step(side, surroundings, checked);
    assert(announced.phase is ReadSize);
    assert(announced.rest =~= (size + payload).take(kept - 1));
    let measured = reception_step(side, surroundings, announced);
    if kept < header_len() {
        assert(measured =~= between_frames(seq![], delivered));
    } else {
        let field = announced.rest;
        assert([field[0], field[1], field[2], field[3]]@ =~= size);
        assert(measured.phase == ReceivePhase::ReadBody { size: payload.len() as u32 });
        assert(measured.rest =~= payload.take(kept - header_len()));
        let read = reception_step(side, surroundings, measured);
        assert(read =~= between_frames(seq![], delivered));
    }
    reveal_with_fuel(reception_run, 5);
}

/// The number of frames that lie whole within the first `kept` bytes of the
/// frames of a sequence of bodies.
pub open spec fn whole_frames(payloads: Seq<Seq<u8>>, kept: int) -> nat
    decreases payloads.len(),
{
    if payloads.len() == 0 || kept < frame(payloads.first()).len() {
        0
    } else {
        1 + whole_frames(payloads.drop_first(), kept - frame(payloads.first()).len())
    }
}

/// A stream of frames that ends anywhere yields the bodies of the frames that
/// lie whole before its end, in their order, and nothing else.
pub proof fn law_cut_stream_yields_whole_frames(
    side: Side,
    surroundings: ReceiveSurroundings,
    payloads: Seq<Seq<u8>>,
    kept: int,
    delivered: Seq<Seq<u8>>,
)
    requires
        calm(surroundings),
        all_arrive(surroundings, payloads),
        0 <= kept <= frames(payloads).len(),
    ensures
        whole_frames(payloads, kept) <= payloads.len(),
        exists|steps: nat|
            #[trigger] reception_run(
                side,
                surroundings,
                between_frames(frames(payloads).take(kept), delivered),
                steps,
            ) == between_frames(
                seq![],
                delivered + payloads.take(whole_frames(payloads, kept) as int),
            ),
    decreases payloads.len(),
{
    let stream = frames(payloads).take(kept);
    let start = between_frames(stream, delivered);
    let count = whole_frames(payloads, kept);
    if kept == 0 {
        assert(stream =~= seq![]);
        assert(delivered + payloads.take(0) =~= delivered);
        assert(reception_run(side, surroundings, start, 0) == between_frames(
            seq![],
            delivered + payloads.take(count as int),
        ));
    } else if kept < frame(payloads.first()).len() {
        let first = payloads.first();
        assert(stream =~= frame(first).take(kept));
        law_cut_frame_dropped(side, surroundings, first, kept, delivered);
        assert(delivered + payloads.take(0) =~= delivered);
        let steps: nat = if kept < header_len() {
            3
        } else {
            4
        };
        assert(reception_run(side, surroundings, start, steps) == between_frames(
            seq![],
            delivered + payloads.take(count as int),
        ));
    } else {
        let first = payloads.first();
        let others = payloads.drop_first();
        let left = kept - frame(first).len();
        let later = frames(others).take(left);
        assert(stream =~= frame(first) + later);
        law_frame_received(side, surroundings, first, later, delivered);
        assert forall|i: int| 0 <= i < others.len() implies arrives(
            surroundings,
            #[trigger] others[i],
        ) by {
            assert(others[i] == payloads[i + 1]);
        }
        law_cut_stream_yields_whole_frames(side, surroundings, others, left, delivered.push(first));
        let rest = whole_frames(others, left) as int;
        let steps = choose|steps: nat|
            #[trigger] reception_run(
                side,
                surroundings,
                between_frames(later, delivered.push(first)),
                steps,
            ) == between_frames(seq![], delivered.push(first) + others.take(rest));
        lemma_run_add(side, surroundings, start, phases_per_frame(), steps);
        assert(delivered.push(first) + others.take(rest) =~= delivered + payloads.take(
            count as int,
        ));
        assert(reception_run(side, surroundings, start, phases_per_frame() + steps) == between_frames(
            seq![],
            delivered + payloads.take(count as int),
        ));
    }
}

/// At the end of a stream the task of the server stops, and the task of the
/// client goes on to look whether it is cancelled.
pub proof fn law_stream_end(
    side: Side,
    surroundings: ReceiveSurroundings,
    delivered: Seq<Seq<u8>>,
)
    requires
        !surroundings.cancelled,
    ensures
        reception_run(side, surroundings, between_frames(seq![], delivered), 2) == (Reception {
            phase: match side {
                Side::Client => ReceivePhase::CheckCancel,
                Side::Server => ReceivePhase::Stopped,
            },
            rest: seq![],
            body: seq![],
            delivered,
        }),
{
    let start = between_frames(seq![], delivered);
    let checked = reception_step(side, surroundings, start);
    assert(checked.rest =~= seq![]);
    let end = reception_step(side, surroundings, checked);
    assert(end.rest =~= seq![]);
    reveal_with_fuel(reception_run, 3);
}

} // verus!
