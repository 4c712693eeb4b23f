use game_core::accept::{
    accept_step, welcome, AcceptEvent, AcceptNotice, AcceptPhase,
};
use game_core::frame::{serialize_client_message, DELIMITER};
use game_core::message::{
    deserialize_client_message, deserialize_server_message, ReliableClientMessage,
    ReliableServerMessage,
};
use game_core::player::player_id;
use game_core::receive::{receive_step, ReceiveEvent, ReceiveNotice, ReceivePhase};
use game_core::send::{quit_message, send_step, SendEvent, SendNotice, SendPhase};
use game_core::side::Side;

/// Runs the receiving task on a stream until it ends, or until it has passed
/// `phases` phases.
fn receive(side: Side, stream: &[u8], phases: usize) -> (ReceivePhase, Vec<Vec<u8>>, Vec<ReceiveNotice>) {
    let mut rest = stream;
    let mut phase = ReceivePhase::CheckCancel;
    let mut body = Vec::new();
    let mut delivered = Vec::new();
    let mut notices = Vec::new();
    for _ in 0..phases {
        let event = match phase {
            ReceivePhase::CheckCancel => ReceiveEvent::Cancelled(false),
            ReceivePhase::ReadDelimiter => ReceiveEvent::Delimiter(if rest.is_empty() {
                None
            } else {
                let read = [rest[0]];
                rest = &rest[1..];
                Some(read)
            }),
            ReceivePhase::ReadSize => ReceiveEvent::Size(if rest.len() < 4 {
                rest = &[];
                None
            } else {
                let read = [rest[0], rest[1], rest[2], rest[3]];
                rest = &rest[4..];
                Some(read)
            }),
            ReceivePhase::ReadBody { size } => {
                let size = size as usize;
                ReceiveEvent::Body(if rest.len() < size {
                    rest = &[];
                    false
                } else {
                    body = rest[..size].to_vec();
                    rest = &rest[size..];
                    true
                })
            }
            ReceivePhase::Decode => {
                ReceiveEvent::Decoded(deserialize_client_message(&body).is_ok())
            }
            ReceivePhase::Deliver => {
                delivered.push(body.clone());
                ReceiveEvent::Delivered(true)
            }
            ReceivePhase::Stopped | ReceivePhase::Crashed => break,
        };
        let step = receive_step(side, event);
        phase = step.next;
        notices.extend(step.notice);
    }
    (phase, delivered, notices)
}

fn framed(id: &str) -> Vec<u8> {
    serialize_client_message(&quit_message(&id.to_string())).unwrap()
}

#[test]
fn frames_are_received_in_order() {
    let ids = ["7", "123456789", "", "18446744073709551615"];
    let mut stream = Vec::new();
    let mut bodies = Vec::new();
    for id in ids {
        stream.extend(framed(id));
        bodies.push(framed(id)[5..].to_vec());
    }
    for side in [Side::Client, Side::Server] {
        let (phase, delivered, notices) = receive(side, &stream, 6 * ids.len());
        assert_eq!(phase, ReceivePhase::CheckCancel);
        assert_eq!(delivered, bodies);
        assert!(notices.is_empty());
    }
}

#[test]
fn noise_before_a_frame_is_passed_over() {
    let mut stream = vec![0u8, 1, 2];
    stream.extend(framed("7"));
    let (phase, delivered, notices) = receive(Side::Server, &stream, 2 * 3 + 6);
    assert_eq!(phase, ReceivePhase::CheckCancel);
    assert_eq!(delivered, vec![framed("7")[5..].to_vec()]);
    assert_eq!(notices, vec![ReceiveNotice::DelimiterInvalid; 3]);
}

#[test]
fn cut_frame_is_dropped() {
    let whole = framed("7");
    for kept in 1..whole.len() {
        let steps = if kept < 5 { 3 } else { 4 };
        let (phase, delivered, notices) = receive(Side::Client, &whole[..kept], steps);
        assert_eq!(phase, ReceivePhase::CheckCancel);
        assert!(delivered.is_empty());
        let expected =
            if kept < 5 { ReceiveNotice::SizeUnread } else { ReceiveNotice::BodyUnread };
        assert_eq!(notices, vec![expected]);
        let (phase, delivered, _) = receive(Side::Server, &whole[..kept], steps);
        assert_eq!(phase, ReceivePhase::CheckCancel);
        assert!(delivered.is_empty());
    }
}

#[test]
fn server_stops_at_the_end_of_the_stream() {
    let (phase, _, notices) = receive(Side::Server, &[], 100);
    assert_eq!(phase, ReceivePhase::Stopped);
    assert_eq!(notices, vec![ReceiveNotice::DelimiterUnread]);
}

#[test]
fn client_goes_on_at_the_end_of_the_stream() {
    let (phase, _, notices) = receive(Side::Client, &[], 20);
    assert_eq!(phase, ReceivePhase::CheckCancel);
    assert_eq!(notices, vec![ReceiveNotice::DelimiterUnread; 10]);
}

#[test]
fn body_that_is_no_message_is_a_panic() {
    let stream = [DELIMITER[0], 0, 0, 0, 1, 5];
    for side in [Side::Client, Side::Server] {
        let (phase, delivered, _) = receive(side, &stream, 100);
        assert_eq!(phase, ReceivePhase::Crashed);
        assert!(delivered.is_empty());
    }
}

#[test]
fn receiving_stops_when_cancelled() {
    for side in [Side::Client, Side::Server] {
        let step = receive_step(side, ReceiveEvent::Cancelled(true));
        assert_eq!(step.next, ReceivePhase::Stopped);
        assert_eq!(step.notice, Some(ReceiveNotice::Cancelled));
    }
}

#[test]
fn message_that_cannot_be_handed_on() {
    let step = receive_step(Side::Client, ReceiveEvent::Delivered(false));
    assert_eq!(step.next, ReceivePhase::CheckCancel);
    assert_eq!(step.notice, Some(ReceiveNotice::Undelivered));
    let step = receive_step(Side::Server, ReceiveEvent::Delivered(false));
    assert_eq!(step.next, ReceivePhase::Crashed);
}

#[test]
fn body_that_cannot_be_read_is_reported_by_the_client() {
    let step = receive_step(Side::Client, ReceiveEvent::Body(false));
    assert_eq!((step.next, step.notice), (ReceivePhase::CheckCancel, Some(ReceiveNotice::BodyUnread)));
    let step = receive_step(Side::Server, ReceiveEvent::Body(false));
    assert_eq!((step.next, step.notice), (ReceivePhase::CheckCancel, None));
}

#[test]
fn size_is_read_from_the_frame() {
    let step = receive_step(Side::Server, ReceiveEvent::Size(Some([0, 0, 1, 2])));
    assert_eq!(step.next, ReceivePhase::ReadBody { size: 258 });
}

#[test]
fn messages_are_sent_one_after_the_other() {
    for side in [Side::Client, Side::Server] {
        let mut phase = SendPhase::CheckCancel;
        for (event, expected) in [
            (SendEvent::Cancelled(false), SendPhase::TakeMessage),
            (SendEvent::Taken(true), SendPhase::Serialize),
            (SendEvent::Serialized(true), SendPhase::Write),
            (SendEvent::Written(true), SendPhase::TakeMessage),
            (SendEvent::Taken(true), SendPhase::Serialize),
            (SendEvent::Serialized(true), SendPhase::Write),
            (SendEvent::Written(true), SendPhase::TakeMessage),
            (SendEvent::Taken(false), SendPhase::CheckCancel),
            (SendEvent::Cancelled(true), SendPhase::Stopped),
        ] {
            let step = send_step(side, event);
            assert_ne!(phase, step.next);
            phase = step.next;
            assert_eq!(phase, expected);
        }
    }
    let step = send_step(Side::Client, SendEvent::Cancelled(true));
    assert_eq!(step.notice, Some(SendNotice::Cancelled));
}

#[test]
fn server_takes_a_refused_frame_for_a_quit() {
    let step = send_step(Side::Server, SendEvent::Written(false));
    assert_eq!((step.next, step.notice), (SendPhase::ReportQuit, Some(SendNotice::Unsent)));
    let step = send_step(Side::Server, SendEvent::QuitReported(true));
    assert_eq!((step.next, step.notice), (SendPhase::TakeMessage, Some(SendNotice::QuitReported)));
    let step = send_step(Side::Server, SendEvent::QuitReported(false));
    assert_eq!((step.next, step.notice), (SendPhase::TakeMessage, None));
    assert!(matches!(
        quit_message(&"42".to_string()),
        ReliableClientMessage::Quit { player_id } if player_id == "42"
    ));
}

#[test]
fn client_goes_on_after_a_refused_frame() {
    let step = send_step(Side::Client, SendEvent::Written(false));
    assert_eq!((step.next, step.notice), (SendPhase::TakeMessage, Some(SendNotice::Unsent)));
}

#[test]
fn message_that_cannot_be_serialized() {
    let step = send_step(Side::Client, SendEvent::Serialized(false));
    assert_eq!((step.next, step.notice), (SendPhase::TakeMessage, Some(SendNotice::Unserialized)));
    let step = send_step(Side::Server, SendEvent::Serialized(false));
    assert_eq!((step.next, step.notice), (SendPhase::Crashed, None));
}

#[test]
fn player_is_admitted_in_order() {
    let mut notices = Vec::new();
    for (event, expected) in [
        (AcceptEvent::Incoming(true), AcceptPhase::Handshake),
        (AcceptEvent::Connected(true), AcceptPhase::OpenStream),
        (AcceptEvent::StreamOpened(true), AcceptPhase::Register),
        (AcceptEvent::Registered(true), AcceptPhase::WriteHello),
        (AcceptEvent::HelloWritten(true), AcceptPhase::AnnounceJoin),
        (AcceptEvent::JoinAnnounced(true), AcceptPhase::StartTasks),
        (AcceptEvent::TasksStarted, AcceptPhase::AwaitConnection),
        (AcceptEvent::Incoming(false), AcceptPhase::Stopped),
    ] {
        let step = accept_step(event);
        assert_eq!(step.next, expected);
        notices.extend(step.notice);
    }
    assert_eq!(notices, vec![AcceptNotice::ConnectionAccepted, AcceptNotice::StreamOpened]);
}

#[test]
fn failed_admission_is_a_panic() {
    for event in [
        AcceptEvent::Connected(false),
        AcceptEvent::StreamOpened(false),
        AcceptEvent::Registered(false),
        AcceptEvent::HelloWritten(false),
        AcceptEvent::JoinAnnounced(false),
    ] {
        let step = accept_step(event);
        assert_eq!(step.next, AcceptPhase::Crashed);
        assert_eq!(step.notice, None);
    }
}

#[test]
fn player_id_is_decimal() {
    for stable_id in [0usize, 7, 10, 42, 100, 1_234_567_890, usize::MAX] {
        assert_eq!(player_id(stable_id), stable_id.to_string());
    }
}

#[test]
fn player_ids_differ() {
    assert_ne!(player_id(1), player_id(10));
    assert_ne!(player_id(11), player_id(1));
}

#[test]
fn welcome_greets_and_announces() {
    for stable_id in [0usize, 123, usize::MAX] {
        let ready = welcome(stable_id);
        let id = stable_id.to_string();
        assert_eq!(ready.player_id, id);
        assert_eq!(ready.hello[0], DELIMITER[0]);
        let ReliableServerMessage::Hello { player_id } =
            deserialize_server_message(&ready.hello[5..]).unwrap();
        assert_eq!(player_id, id);
        assert!(matches!(
            ready.joined,
            ReliableClientMessage::PlayerJoined { player_id } if player_id == id
        ));
    }
}

#[test]
fn cut_stream_yields_whole_frames() {
    let ids = ["7", "123456789", "x"];
    let mut stream = Vec::new();
    let mut ends = Vec::new();
    for id in ids {
        stream.extend(framed(id));
        ends.push(stream.len());
    }
    for kept in 0..=stream.len() {
        let whole = ends.iter().filter(|end| **end <= kept).count();
        let expected: Vec<Vec<u8>> = ids[..whole].iter().map(|id| framed(id)[5..].to_vec()).collect();
        let (phase, delivered, _) = receive(Side::Server, &stream[..kept], 1000);
        assert_eq!(phase, ReceivePhase::Stopped);
        assert_eq!(delivered, expected);
    }
}
