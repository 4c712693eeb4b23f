//! From the one end of a connection to the other: what the sending task of one
//! side is handed, and what the receiving task of the other side hands on.
use crate::frame::{
    fits_frame, frame, frames, header_len, law_frame_parts, serialize_client_message,
    serialize_reliable_server_message, SerializeError,
};
use crate::message::{
    client_payload, deserialize_client_message, deserialize_server_message,
    law_client_message_read_back, law_server_message_read_back, reads_as_client_message,
    reads_as_server_message, server_payload, ClientMessageView, DeserializeError,
    ReliableClientMessage, ReliableServerMessage, ServerMessageView,
};
use crate::receive::{decode_at_client, decode_at_server, ReceiveEvent, ReceivePhase};
use crate::send::{
    all_serializable, between_messages, law_messages_written, queue_phases, serializable,
    transmission_run, SendSurroundings,
};
use crate::side::Side;
use crate::stream::{
    all_arrive, arrives, between_frames, calm, law_frame_splits_stream, law_frames_received,
    law_stream_end, lemma_run_add, phases_per_frame, reception_run, Reception,
    ReceiveSurroundings,
};
use vstd::prelude::*;

verus! {

/// What one end of a connection sends, the other end receives: the bodies of
/// the messages that the sending task can serialize are the bodies that the
/// receiving task hands on, in the same order. At the end of the stream the
/// task of the server stops, and the task of the client looks whether it is
/// cancelled.
pub proof fn law_sent_is_received(
    sender: Side,
    sending: SendSurroundings,
    receiver: Side,
    receiving: ReceiveSurroundings,
    queue: Seq<Option<Seq<u8>>>,
)
    requires
        forall|n: nat| #[trigger] (sending.accepts)(n),
        sender is Server ==> all_serializable(queue),
        calm(receiving),
        all_arrive(receiving, serializable(queue)),
    ensures
        ({
            let sent = transmission_run(
                sender,
                sending,
                between_messages(queue, seq![], seq![], 0),
                queue_phases(sender, queue, sending.accepts, 0),
            );
            let received = reception_run(
                receiver,
                receiving,
                between_frames(sent.written, seq![]),
                phases_per_frame() * serializable(queue).len() + 2,
            );
            &&& sent.queue == Seq::<Option<Seq<u8>>>::empty()
            &&& sent.tried == serializable(queue)
            &&& received == (Reception {
                phase: match receiver {
                    Side::Client => ReceivePhase::CheckCancel,
                    Side::Server => ReceivePhase::Stopped,
                },
                ..between_frames(seq![], serializable(queue))
            })
        }),
{
    let bodies = serializable(queue);
    let bytes = frames(bodies);
    law_messages_written(sender, sending, queue, seq![], seq![], 0);
    law_frames_received(receiver, receiving, bodies, seq![], seq![]);
    law_stream_end(receiver, receiving, bodies);
    assert(Seq::<u8>::empty() + bytes =~= bytes);
    assert(bytes + Seq::<u8>::empty() =~= bytes);
    assert(Seq::<Seq<u8>>::empty() + bodies =~= bodies);
    lemma_run_add(
        receiver,
        receiving,
        between_frames(bytes, seq![]),
        phases_per_frame() * bodies.len(),
        2,
    );
}

/// Whenever `decode_at_server` reads the body, it finds a message.
pub open spec fn decodes_at_server(body: Seq<u8>) -> bool {
    forall|payload: &[u8], outcome: (ReceiveEvent, Result<ReliableClientMessage, DeserializeError>)|
        payload@ == body && #[trigger] call_ensures(decode_at_server, (payload,), outcome)
            ==> outcome.0 == ReceiveEvent::Decoded(true)
}

/// What the server's receiving task finds around it while nothing stands in
/// the way of a message.
pub open spec fn server_surroundings() -> ReceiveSurroundings {
    ReceiveSurroundings {
        cancelled: false,
        readable: |body: Seq<u8>| decodes_at_server(body),
        open: true,
    }
}

/// The server finds a message in the body of a client message.
proof fn lemma_client_message_arrives(message: ClientMessageView)
    requires
        client_payload(message) is Some,
        fits_frame(client_payload(message)->0),
    ensures
        arrives(server_surroundings(), client_payload(message)->0),
        reads_as_client_message(client_payload(message)->0, message),
{
    law_client_message_read_back(message);
    let body = client_payload(message)->0;
    assert forall|payload: &[u8], outcome: (ReceiveEvent, Result<ReliableClientMessage, DeserializeError>)|
        payload@ == body && #[trigger] call_ensures(decode_at_server, (payload,), outcome) implies
        outcome.0 == ReceiveEvent::Decoded(true) by {
        assert(call_ensures(deserialize_client_message, (payload,), outcome.1));
        assert(outcome.1 is Ok);
    }
}

/// The bytes into which `serialize_client_message` writes a message,
/// whatever follows them on the stream: the server hands on the message first,
/// and then what the rest of the stream yields by itself.
pub proof fn law_serialized_client_message_heads_stream(
    message: &ReliableClientMessage,
    framed: Vec<u8>,
    rest: Seq<u8>,
    steps: nat,
)
    requires
        call_ensures(
            serialize_client_message,
            (message,),
            Ok::<Vec<u8>, SerializeError>(framed),
        ),
        framed@.len() <= header_len() + u32::MAX,
    ensures
        ({
            let body = framed@.skip(header_len() as int);
            let whole = reception_run(
                Side::Server,
                server_surroundings(),
                between_frames(framed@ + rest, seq![]),
                phases_per_frame() + steps,
            );
            let alone = reception_run(
                Side::Server,
                server_surroundings(),
                between_frames(rest, seq![]),
                steps,
            );
            &&& reads_as_client_message(body, message@)
            &&& whole == (Reception { delivered: seq![body] + alone.delivered, ..alone })
        }),
{
    let payload = client_payload(message@)->0;
    assert(framed@ == frame(payload));
    law_frame_parts(payload);
    lemma_client_message_arrives(message@);
    law_frame_splits_stream(
        Side::Server,
        server_surroundings(),
        payload,
        rest,
        steps,
    );
}

/// What the client's sending task is handed: the bodies of a sequence of
/// messages.
pub open spec fn client_queue(messages: Seq<ClientMessageView>) -> Seq<Option<Seq<u8>>> {
    messages.map_values(|message: ClientMessageView| client_payload(message))
}

/// The client messages that can be serialized, in their order.
pub open spec fn serializable_client_messages(messages: Seq<ClientMessageView>) -> Seq<
    ClientMessageView,
>
    decreases messages.len(),
{
    if messages.len() == 0 {
        seq![]
    } else if client_payload(messages.first()) is Some {
        seq![messages.first()] + serializable_client_messages(messages.drop_first())
    } else {
        serializable_client_messages(messages.drop_first())
    }
}

pub(crate) proof fn lemma_client_queue(messages: Seq<ClientMessageView>)
    requires
        forall|i: int|
            0 <= i < messages.len() && client_payload(#[trigger] messages[i]) is Some
                ==> fits_frame(client_payload(messages[i])->0),
    ensures
        ({
            let bodies = serializable(client_queue(messages));
            let expected = serializable_client_messages(messages);
            &&& bodies.len() == expected.len()
            &&& forall|i: int|
                0 <= i < bodies.len() ==> arrives(server_surroundings(), #[trigger] bodies[i])
                    && reads_as_client_message(bodies[i], expected[i])
        }),
    decreases messages.len(),
{
    if messages.len() > 0 {
        let first = messages.first();
        let others = messages.drop_first();
        assert(first == messages[0]);
        assert forall|i: int|
            0 <= i < others.len() && client_payload(#[trigger] others[i]) is Some implies fits_frame(
            client_payload(others[i])->0,
        ) by {
            assert(others[i] == messages[i + 1]);
        }
        lemma_client_queue(others);
        assert(client_queue(messages).drop_first() =~= client_queue(others));
        assert(client_queue(messages).first() == client_payload(first));
        if client_payload(first) is Some {
            lemma_client_message_arrives(first);
            let later = serializable(client_queue(others));
            let expected = serializable_client_messages(others);
            let bodies = seq![client_payload(first)->0] + later;
            assert forall|i: int| 0 <= i < bodies.len() implies arrives(
                server_surroundings(),
                #[trigger] bodies[i],
            ) && reads_as_client_message(bodies[i], (seq![first] + expected)[i]) by {
                if i > 0 {
                    assert(bodies[i] == later[i - 1]);
                    assert((seq![first] + expected)[i] == expected[i - 1]);
                }
            }
        }
    }
}

/// The client messages that the client's sending task is handed reach the
/// game at the server: those that can be serialized are handed on in the same
/// order, each as a body that `deserialize_client_message` reads as that
/// message, and at the end of the stream the server's receiving task stops.
pub proof fn law_client_messages_received(
    sending: SendSurroundings,
    messages: Seq<ClientMessageView>,
)
    requires
        forall|n: nat| #[trigger] (sending.accepts)(n),
        forall|i: int|
            0 <= i < messages.len() && client_payload(#[trigger] messages[i]) is Some
                ==> fits_frame(client_payload(messages[i])->0),
    ensures
        ({
            let queue = client_queue(messages);
            let expected = serializable_client_messages(messages);
            let sent = transmission_run(
                Side::Client,
                sending,
                between_messages(queue, seq![], seq![], 0),
                queue_phases(Side::Client, queue, sending.accepts, 0),
            );
            let received = reception_run(
                Side::Server,
                server_surroundings(),
                between_frames(sent.written, seq![]),
                phases_per_frame() * expected.len() + 2,
            );
            &&& sent.queue.len() == 0
            &&& received.phase is Stopped
            &&& received.rest.len() == 0
            &&& received.delivered.len() == expected.len()
            &&& forall|i: int|
                0 <= i < expected.len() ==> reads_as_client_message(
                    #[trigger] received.delivered[i],
                    expected[i],
                )
        }),
{
    lemma_client_queue(messages);
    law_sent_is_received(
        Side::Client,
        sending,
        Side::Server,
        server_surroundings(),
        client_queue(messages),
    );
}

/// Whenever `decode_at_client` reads the body, it finds a message.
pub open spec fn decodes_at_client(body: Seq<u8>) -> bool {
    forall|payload: &[u8], outcome: (ReceiveEvent, Result<ReliableServerMessage, DeserializeError>)|
        payload@ == body && #[trigger] call_ensures(decode_at_client, (payload,), outcome)
            ==> outcome.0 == ReceiveEvent::Decoded(true)
}

/// What the client's receiving task finds around it while nothing stands in
/// the way of a message.
pub open spec fn client_surroundings() -> ReceiveSurroundings {
    ReceiveSurroundings {
        cancelled: false,
        readable: |body: Seq<u8>| decodes_at_client(body),
        open: true,
    }
}

/// The client finds a message in the body of a server message.
pub(crate) proof fn lemma_server_message_arrives(message: ServerMessageView)
    requires
        server_payload(message) is Some,
        fits_frame(server_payload(message)->0),
    ensures
        arrives(client_surroundings(), server_payload(message)->0),
        reads_as_server_message(server_payload(message)->0, message),
{
    law_server_message_read_back(message);
    let body = server_payload(message)->0;
    assert forall|payload: &[u8], outcome: (ReceiveEvent, Result<ReliableServerMessage, DeserializeError>)|
        payload@ == body && #[trigger] call_ensures(decode_at_client, (payload,), outcome) implies
        outcome.0 == ReceiveEvent::Decoded(true) by {
        assert(call_ensures(deserialize_server_message, (payload,), outcome.1));
        assert(outcome.1 is Ok);
    }
}

/// The bytes into which `serialize_reliable_server_message` writes a message,
/// whatever follows them on the stream: the client hands on the message first,
/// and then what the rest of the stream yields by itself.
pub proof fn law_serialized_server_message_heads_stream(
    message: &ReliableServerMessage,
    framed: Vec<u8>,
    rest: Seq<u8>,
    steps: nat,
)
    requires
        call_ensures(
            serialize_reliable_server_message,
            (message,),
            Ok::<Vec<u8>, SerializeError>(framed),
        ),
        framed@.len() <= header_len() + u32::MAX,
    ensures
        ({
            let body = framed@.skip(header_len() as int);
            let whole = reception_run(
                Side::Client,
                client_surroundings(),
                between_frames(framed@ + rest, seq![]),
                phases_per_frame() + steps,
            );
            let alone = reception_run(
                Side::Client,
                client_surroundings(),
                between_frames(rest, seq![]),
                steps,
            );
            &&& reads_as_server_message(body, message@)
            &&& whole == (Reception { delivered: seq![body] + alone.delivered, ..alone })
        }),
{
    let payload = server_payload(message@)->0;
    assert(framed@ == frame(payload));
    law_frame_parts(payload);
    lemma_server_message_arrives(message@);
    law_frame_splits_stream(
        Side::Client,
        client_surroundings(),
        payload,
        rest,
        steps,
    );
}

/// What the server's sending task is handed: the bodies of a sequence of
/// messages.
pub open spec fn server_queue(messages: Seq<ServerMessageView>) -> Seq<Option<Seq<u8>>> {
    messages.map_values(|message: ServerMessageView| server_payload(message))
}

pub(crate) proof fn lemma_server_queue(messages: Seq<ServerMessageView>)
    requires
        forall|i: int|
            0 <= i < messages.len() ==> server_payload(#[trigger] messages[i]) is Some
                && fits_frame(server_payload(messages[i])->0),
    ensures
        ({
            let bodies = serializable(server_queue(messages));
            &&& bodies.len() == messages.len()
            &&& forall|i: int|
                0 <= i < bodies.len() ==> arrives(client_surroundings(), #[trigger] bodies[i])
                    && reads_as_server_message(bodies[i], messages[i])
        }),
    decreases messages.len(),
{
    if messages.len() > 0 {
        let first = messages.first();
        let others = messages.drop_first();
        assert(first == messages[0]);
        assert forall|i: int| 0 <= i < others.len() implies server_payload(
            #[trigger] others[i],
        ) is Some && fits_frame(server_payload(others[i])->0) by {
            assert(others[i] == messages[i + 1]);
        }
        lemma_server_queue(others);
        lemma_server_message_arrives(first);
        assert(server_queue(messages).drop_first() =~= server_queue(others));
        assert(server_queue(messages).first() == server_payload(first));
        let later = serializable(server_queue(others));
        let bodies = seq![server_payload(first)->0] + later;
        assert forall|i: int| 0 <= i < bodies.len() implies arrives(
            client_surroundings(),
            #[trigger] bodies[i],
        ) && reads_as_server_message(bodies[i], messages[i]) by {
            if i > 0 {
                assert(bodies[i] == later[i - 1]);
                assert(messages[i] == others[i - 1]);
            }
        }
    }
}

/// The server messages that the server's sending task is handed reach the
/// game at the client in the same order, each as a body that
/// `deserialize_server_message` reads as that message, and at the end of the
/// stream the client's receiving task looks whether it is cancelled.
pub proof fn law_server_messages_received(
    sending: SendSurroundings,
    messages: Seq<ServerMessageView>,
)
    requires
        forall|n: nat| #[trigger] (sending.accepts)(n),
        forall|i: int|
            0 <= i < messages.len() ==> server_payload(#[trigger] messages[i]) is Some
                && fits_frame(server_payload(messages[i])->0),
    ensures
        ({
            let queue = server_queue(messages);
            let sent = transmission_run(
                Side::Server,
                sending,
                between_messages(queue, seq![], seq![], 0),
                queue_phases(Side::Server, queue, sending.accepts, 0),
            );
            let received = reception_run(
                Side::Client,
                client_surroundings(),
                between_frames(sent.written, seq![]),
                phases_per_frame() * messages.len() + 2,
            );
            &&& sent.queue.len() == 0
            &&& received.phase is CheckCancel
            &&& received.rest.len() == 0
            &&& received.delivered.len() == messages.len()
            &&& forall|i: int|
                0 <= i < messages.len() ==> reads_as_server_message(
                    #[trigger] received.delivered[i],
                    messages[i],
                )
        }),
{
    lemma_server_queue(messages);
    law_sent_is_received(
        Side::Server,
        sending,
        Side::Client,
        client_surroundings(),
        server_queue(messages),
    );
}

} // verus!
