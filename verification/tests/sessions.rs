use game_core::accept::welcome;
use game_core::frame::{frame_payload, serialize_client_message, serialize_reliable_server_message};
use game_core::message::{ReliableClientMessage, ReliableServerMessage};
use game_core::receive::{decode_at_server, receive_step, ReceiveEvent, ReceivePhase};
use game_core::send::{quit_message, send_step, SendEvent, SendPhase};
use game_core::side::Side;

fn joined(id: &str) -> ReliableClientMessage {
    ReliableClientMessage::PlayerJoined { player_id: id.to_string() }
}

fn text(message: &ReliableClientMessage) -> String {
    match message {
        ReliableClientMessage::PlayerJoined { player_id } => format!("joined {player_id}"),
        ReliableClientMessage::Quit { player_id } => format!("quit {player_id}"),
    }
}

/// The receiving task of the server, on a stream that arrives in chunks.
struct ReceivingTask {
    phase: ReceivePhase,
    chunks: Vec<Vec<u8>>,
    body: Vec<u8>,
    message: Option<ReliableClientMessage>,
    open: bool,
}

impl ReceivingTask {
    fn new(chunks: Vec<Vec<u8>>) -> ReceivingTask {
        ReceivingTask {
            phase: ReceivePhase::CheckCancel,
            chunks,
            body: Vec::new(),
            message: None,
            open: true,
        }
    }

    fn read(&mut self, asked: usize) -> Option<Vec<u8>> {
        let mut bytes = Vec::new();
        while bytes.len() < asked && !self.chunks.is_empty() {
            let missing = asked - bytes.len();
            if self.chunks[0].len() <= missing {
                bytes.extend(self.chunks.remove(0));
            } else {
                bytes.extend(self.chunks[0].drain(..missing));
            }
        }
        if bytes.len() == asked {
            Some(bytes)
        } else {
            None
        }
    }

    fn step(&mut self, cancelled: bool, inbox: &mut Vec<String>) {
        let event = match self.phase {
            ReceivePhase::CheckCancel => ReceiveEvent::Cancelled(cancelled),
            ReceivePhase::ReadDelimiter => {
                ReceiveEvent::Delimiter(self.read(1).map(|bytes| [bytes[0]]))
            }
            ReceivePhase::ReadSize => {
                ReceiveEvent::Size(self.read(4).map(|b| [b[0], b[1], b[2], b[3]]))
            }
            ReceivePhase::ReadBody { size } => match self.read(size as usize) {
                Some(body) => {
                    self.body = body;
                    ReceiveEvent::Body(true)
                }
                None => ReceiveEvent::Body(false),
            },
            ReceivePhase::Decode => {
                let (event, read) = decode_at_server(&self.body);
                self.message = read.ok();
                event
            }
            ReceivePhase::Deliver => {
                let message = self.message.take().unwrap();
                if self.open {
                    inbox.push(text(&message));
                }
                ReceiveEvent::Delivered(self.open)
            }
            ReceivePhase::Stopped | ReceivePhase::Crashed => return,
        };
        self.phase = receive_step(Side::Server, event).next;
    }
}

/// The sending task, which is handed frames, or `None` for a message that
/// cannot be serialized.
struct SendingTask {
    phase: SendPhase,
    queue: Vec<Option<Vec<u8>>>,
    frame: Option<Vec<u8>>,
    tried: Vec<Vec<u8>>,
    written: Vec<u8>,
    quits: usize,
}

impl SendingTask {
    fn new(queue: Vec<Option<Vec<u8>>>) -> SendingTask {
        SendingTask {
            phase: SendPhase::CheckCancel,
            queue,
            frame: None,
            tried: Vec::new(),
            written: Vec::new(),
            quits: 0,
        }
    }

    fn step(&mut self, side: Side, cancelled: bool, accepts: fn(usize) -> bool) {
        let event = match self.phase {
            SendPhase::CheckCancel => SendEvent::Cancelled(cancelled),
            SendPhase::TakeMessage => SendEvent::Taken(if self.queue.is_empty() {
                false
            } else {
                self.frame = self.queue.remove(0);
                true
            }),
            SendPhase::Serialize => SendEvent::Serialized(self.frame.is_some()),
            SendPhase::Write => {
                let accepted = accepts(self.tried.len());
                let frame = self.frame.take().unwrap();
                if accepted {
                    self.written.extend(&frame);
                }
                self.tried.push(frame);
                SendEvent::Written(accepted)
            }
            SendPhase::ReportQuit => {
                self.quits += 1;
                SendEvent::QuitReported(true)
            }
            SendPhase::Stopped | SendPhase::Crashed => return,
        };
        self.phase = send_step(side, event).next;
    }
}

fn framed(message: &ReliableClientMessage) -> Vec<u8> {
    serialize_client_message(message).unwrap()
}

fn hello(id: &str) -> Vec<u8> {
    serialize_reliable_server_message(&ReliableServerMessage::Hello { player_id: id.to_string() })
        .unwrap()
}

#[test]
fn good_frames_before_a_bad_one_are_handed_on() {
    let mut stream = framed(&joined("a"));
    stream.extend(framed(&quit_message(&"b".to_string())));
    stream.extend(frame_payload(&[1, 2, 3]));
    stream.extend(framed(&joined("never")));
    let mut receiver = ReceivingTask::new(vec![stream]);
    let mut inbox = Vec::new();
    for _ in 0..6 * 2 + 5 {
        assert_ne!(receiver.phase, ReceivePhase::Crashed);
        receiver.step(false, &mut inbox);
    }
    assert_eq!(receiver.phase, ReceivePhase::Crashed);
    assert_eq!(inbox, vec!["joined a".to_string(), "quit b".to_string()]);
    assert_eq!(receiver.chunks, vec![framed(&joined("never"))]);
}

#[test]
fn cancellation_waits_for_the_frame_under_way() {
    for begun in 0..=6 {
        let mut stream = framed(&joined("a"));
        stream.extend(framed(&joined("b")));
        stream.extend(framed(&joined("c")));
        let mut receiver = ReceivingTask::new(vec![stream]);
        let mut inbox = Vec::new();
        for _ in 0..6 + begun {
            receiver.step(false, &mut inbox);
        }
        for _ in 0..20 {
            receiver.step(true, &mut inbox);
        }
        assert_eq!(receiver.phase, ReceivePhase::Stopped);
        let expected = if begun == 0 { vec!["joined a"] } else { vec!["joined a", "joined b"] };
        assert_eq!(inbox, expected);
    }
}

#[test]
fn closed_channel_is_a_panic_at_the_server() {
    let mut receiver = ReceivingTask::new(vec![framed(&joined("a"))]);
    receiver.open = false;
    let mut inbox = Vec::new();
    for _ in 0..6 {
        receiver.step(false, &mut inbox);
    }
    assert_eq!(receiver.phase, ReceivePhase::Crashed);
    assert!(inbox.is_empty());
}

#[test]
fn chunks_do_not_matter() {
    let mut stream = framed(&joined("first"));
    stream.extend([1, 2]);
    stream.extend(framed(&quit_message(&"18446744073709551615".to_string())));
    for len in 1..=stream.len() {
        let chunks = stream.chunks(len).map(|chunk| chunk.to_vec()).collect();
        let mut receiver = ReceivingTask::new(chunks);
        let mut inbox = Vec::new();
        for _ in 0..6 + 2 * 2 + 6 + 2 {
            receiver.step(false, &mut inbox);
        }
        assert_eq!(receiver.phase, ReceivePhase::Stopped);
        assert_eq!(inbox, vec!["joined first", "quit 18446744073709551615"]);
    }
}

#[test]
fn first_frame_comes_before_what_the_rest_yields() {
    let rest = framed(&joined("rest"));
    let mut whole = framed(&joined("first"));
    whole.extend(&rest);
    let mut together = Vec::new();
    let mut receiver = ReceivingTask::new(vec![whole]);
    for _ in 0..6 + 8 {
        receiver.step(false, &mut together);
    }
    let mut alone = Vec::new();
    let mut other = ReceivingTask::new(vec![rest]);
    for _ in 0..8 {
        other.step(false, &mut alone);
    }
    assert_eq!(receiver.phase, other.phase);
    assert_eq!(together[0], "joined first");
    assert_eq!(together[1..], alone[..]);
}

#[test]
fn refused_frames_are_counted_as_quits() {
    let queue = vec![Some(hello("1")), Some(hello("2")), Some(hello("3"))];
    let mut sender = SendingTask::new(queue);
    let accepts = |tried: usize| tried % 2 == 1;
    for _ in 0..1 + 4 + 3 + 4 {
        sender.step(Side::Server, false, accepts);
    }
    assert_eq!(sender.phase, SendPhase::TakeMessage);
    assert_eq!(sender.tried, vec![hello("1"), hello("2"), hello("3")]);
    assert_eq!(sender.written, hello("2"));
    assert_eq!(sender.quits, 2);
}

#[test]
fn client_tries_what_can_be_serialized() {
    let queue =
        vec![Some(framed(&joined("1"))), None, Some(framed(&joined("2"))), None];
    let mut sender = SendingTask::new(queue);
    for _ in 0..1 + 3 + 2 + 3 + 2 {
        sender.step(Side::Client, false, |tried| tried != 0);
    }
    assert_eq!(sender.phase, SendPhase::TakeMessage);
    assert_eq!(sender.tried, vec![framed(&joined("1")), framed(&joined("2"))]);
    assert_eq!(sender.written, framed(&joined("2")));
    assert_eq!(sender.quits, 0);
    for cancelled in [false, true] {
        sender.step(Side::Client, cancelled, |_| true);
        sender.step(Side::Client, cancelled, |_| true);
    }
    assert_eq!(sender.phase, SendPhase::Stopped);
}

#[test]
fn message_that_cannot_be_serialized_crashes_the_server() {
    let mut sender = SendingTask::new(vec![Some(hello("1")), None, Some(hello("2"))]);
    for _ in 0..20 {
        sender.step(Side::Server, false, |_| true);
    }
    assert_eq!(sender.phase, SendPhase::Crashed);
    assert_eq!(sender.written, hello("1"));
}

#[test]
fn game_hears_of_the_player_first() {
    let admitted = welcome(7);
    let mut inbox = vec![text(&admitted.joined)];
    let mut stream = framed(&joined("x"));
    stream.extend(framed(&quit_message(&"x".to_string())));
    let mut receiver = ReceivingTask::new(vec![stream]);
    for _ in 0..6 * 2 + 2 {
        receiver.step(false, &mut inbox);
    }
    assert_eq!(receiver.phase, ReceivePhase::Stopped);
    assert_eq!(inbox, vec!["joined 7", "joined x", "quit x"]);
}

#[test]
fn both_directions_go_at_once() {
    for schedule in [
        "rsrsrsrsrsrssss".to_string(),
        "sssssssrrrrrr".to_string(),
        "rrrrrrsssssss".to_string(),
    ] {
        let mut receiver = ReceivingTask::new(vec![framed(&joined("in"))]);
        let mut sender = SendingTask::new(vec![Some(hello("1")), Some(hello("2"))]);
        let mut inbox = Vec::new();
        for turn in schedule.chars() {
            if turn == 'r' {
                receiver.step(false, &mut inbox);
            } else if sender.phase != SendPhase::TakeMessage || !sender.queue.is_empty() {
                sender.step(Side::Server, false, |_| true);
            }
        }
        assert_eq!(inbox, vec!["joined in"]);
        let mut expected = hello("1");
        expected.extend(hello("2"));
        assert_eq!(sender.written, expected);
    }
}

#[test]
fn one_flag_stops_both_tasks() {
    let mut receiver = ReceivingTask::new(vec![framed(&joined("in"))]);
    let mut sender = SendingTask::new(vec![]);
    let mut inbox = Vec::new();
    for cancelled in [false, false, true, true, true, true, true, true] {
        receiver.step(cancelled, &mut inbox);
        sender.step(Side::Server, cancelled, |_| true);
    }
    assert_eq!(receiver.phase, ReceivePhase::Stopped);
    assert_eq!(sender.phase, SendPhase::Stopped);
    assert_eq!(inbox, vec!["joined in"]);
}

#[test]
fn players_do_not_touch_each_other() {
    let mut left = ReceivingTask::new(vec![framed(&joined("left"))]);
    let mut right = ReceivingTask::new(vec![framed(&joined("right"))]);
    let mut left_inbox = Vec::new();
    let mut right_inbox = Vec::new();
    for _ in 0..8 {
        left.step(true, &mut left_inbox);
        right.step(false, &mut right_inbox);
    }
    assert_eq!(left.phase, ReceivePhase::Stopped);
    assert!(left_inbox.is_empty());
    assert_eq!(right_inbox, vec!["joined right"]);
}
