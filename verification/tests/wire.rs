use game_core::frame::{
    decode_size, encode_size, frame_payload, framed_from, serialize_client_message,
    serialize_reliable_server_message, SerializeError, DELIMITER,
};
use game_core::message::{
    client_message_from, client_message_value, deserialize_client_message,
    deserialize_server_message, server_message_from, server_message_value, DeserializeError,
    ReliableClientMessage, ReliableServerMessage,
};
use game_core::receive::{decode_at_client, decode_at_server, ReceiveEvent};

fn joined(id: &str) -> ReliableClientMessage {
    ReliableClientMessage::PlayerJoined { player_id: id.to_string() }
}

fn quit(id: &str) -> ReliableClientMessage {
    ReliableClientMessage::Quit { player_id: id.to_string() }
}

fn hello(id: &str) -> ReliableServerMessage {
    ReliableServerMessage::Hello { player_id: id.to_string() }
}

#[test]
fn size_is_big_endian() {
    assert_eq!(encode_size(0), [0, 0, 0, 0]);
    assert_eq!(encode_size(258), [0, 0, 1, 2]);
    assert_eq!(encode_size(0x0102_0304), [1, 2, 3, 4]);
    assert_eq!(encode_size(u32::MAX), [255, 255, 255, 255]);
    assert_eq!(decode_size([0, 0, 1, 2]), 258);
    assert_eq!(decode_size([1, 2, 3, 4]), 0x0102_0304);
    assert_eq!(decode_size([255, 255, 255, 255]), u32::MAX);
}

#[test]
fn size_agrees_with_std() {
    for size in [0u32, 1, 255, 256, 65_535, 65_536, 0xdead_beef, u32::MAX] {
        assert_eq!(encode_size(size), size.to_be_bytes());
        assert_eq!(decode_size(size.to_be_bytes()), size);
    }
}

#[test]
fn frame_has_delimiter_size_and_body() {
    assert_eq!(frame_payload(&[1, 2]), vec![DELIMITER[0], 0, 0, 0, 2, 1, 2]);
    assert_eq!(frame_payload(&[]), vec![DELIMITER[0], 0, 0, 0, 0]);
}

#[test]
fn long_frame_has_its_size_in_two_bytes() {
    let body = vec![9u8; 300];
    let framed = frame_payload(&body);
    assert_eq!(framed.len(), 305);
    assert_eq!(&framed[..5], &[DELIMITER[0], 0, 0, 1, 44]);
    assert_eq!(&framed[5..], &body[..]);
}

#[test]
fn short_client_message_on_the_wire() {
    let framed = serialize_client_message(&joined("ab")).unwrap();
    assert_eq!(
        framed,
        vec![
            DELIMITER[0], 0, 0, 0, 12, 0, 0, 0, 0, b'a', b'b', 255, 255, 255, 255, 255, 255
        ]
    );
    let framed = serialize_client_message(&quit("ab")).unwrap();
    assert_eq!(framed[5], 1);
    assert_eq!(&framed[9..11], b"ab");
}

#[test]
fn short_server_message_on_the_wire() {
    let framed = serialize_reliable_server_message(&hello("12345678")).unwrap();
    assert_eq!(framed.len(), 17);
    assert_eq!(&framed[5..9], &[0, 0, 0, 0]);
    assert_eq!(&framed[9..], b"12345678");
}

#[test]
fn long_server_message_on_the_wire() {
    let id = "18446744073709551615";
    let framed = serialize_reliable_server_message(&hello(id)).unwrap();
    assert_eq!(&framed[..5], &[DELIMITER[0], 0, 0, 0, 32]);
    assert_eq!(&framed[5..25], id.as_bytes());
    assert_eq!(&framed[25..], &[0, 0, 0, 0, 0x94, 0, 0, 0, 0xe8, 0xff, 0xff, 0xff]);
}

#[test]
fn archive_length_follows_the_text() {
    for (text_bytes, archive) in [(0, 12), (1, 12), (8, 12), (9, 24), (12, 24), (13, 28), (70, 84)]
    {
        let id = "x".repeat(text_bytes);
        assert_eq!(serialize_client_message(&joined(&id)).unwrap().len(), 5 + archive);
        assert_eq!(serialize_client_message(&quit(&id)).unwrap().len(), 5 + archive);
        assert_eq!(serialize_reliable_server_message(&hello(&id)).unwrap().len(), 5 + archive);
    }
}

#[test]
fn client_messages_are_read_back() {
    for id in ["", "7", "12345678", "123456789", "18446744073709551615", "zoë", "\u{1f600}"] {
        let framed = serialize_client_message(&joined(id)).unwrap();
        let read = deserialize_client_message(&framed[5..]).unwrap();
        assert!(matches!(read, ReliableClientMessage::PlayerJoined { player_id } if player_id == id));
        let framed = serialize_client_message(&quit(id)).unwrap();
        let read = deserialize_client_message(&framed[5..]).unwrap();
        assert!(matches!(read, ReliableClientMessage::Quit { player_id } if player_id == id));
    }
}

#[test]
fn server_messages_are_read_back() {
    for id in ["", "7", "12345678", "123456789", "18446744073709551615", "zoë"] {
        let framed = serialize_reliable_server_message(&hello(id)).unwrap();
        let ReliableServerMessage::Hello { player_id } =
            deserialize_server_message(&framed[5..]).unwrap();
        assert_eq!(player_id, id);
    }
}

#[test]
fn body_is_read_at_any_address() {
    let framed = serialize_client_message(&quit("123456789")).unwrap();
    for shift in 0..16 {
        let mut buffer = vec![0u8; shift];
        buffer.extend_from_slice(&framed[5..]);
        let read = deserialize_client_message(&buffer[shift..]).unwrap();
        assert!(matches!(read, ReliableClientMessage::Quit { player_id } if player_id == "123456789"));
    }
}

#[test]
fn body_that_is_no_archive_is_refused() {
    for body in [vec![], vec![0u8; 11], vec![2u8; 12], vec![0u8, 0, 0, 0, 0xc0, 0xc0, 1, 1, 1, 1, 1, 1]] {
        assert!(matches!(deserialize_client_message(&body), Err(DeserializeError::Archive(_))));
        assert!(matches!(deserialize_server_message(&body), Err(DeserializeError::Archive(_))));
    }
}

#[test]
fn server_message_of_unknown_variant_is_refused() {
    let framed = serialize_client_message(&quit("7")).unwrap();
    assert!(matches!(
        deserialize_server_message(&framed[5..]),
        Err(DeserializeError::UnknownVariant)
    ));
}

#[test]
fn messages_and_values_stand_for_each_other() {
    assert_eq!(client_message_value(&joined("a")), Ok("a".to_string()));
    assert_eq!(client_message_value(&quit("a")), Err("a".to_string()));
    assert_eq!(server_message_value(&hello("a")), Ok("a".to_string()));
    assert!(matches!(
        client_message_from(Ok("a".to_string())),
        ReliableClientMessage::PlayerJoined { player_id } if player_id == "a"
    ));
    assert!(matches!(
        client_message_from(Err("a".to_string())),
        ReliableClientMessage::Quit { player_id } if player_id == "a"
    ));
    assert!(matches!(
        server_message_from(Ok("a".to_string())),
        Some(ReliableServerMessage::Hello { player_id }) if player_id == "a"
    ));
    assert!(server_message_from(Err("a".to_string())).is_none());
}

#[test]
fn frame_follows_the_attempt_to_archive() {
    assert_eq!(framed_from(Ok(vec![1, 2, 3])).unwrap(), vec![DELIMITER[0], 0, 0, 0, 3, 1, 2, 3]);
    let error = <rkyv::rancor::Error as rkyv::rancor::Source>::new(std::fmt::Error);
    let shown = error.to_string();
    match framed_from(Err(error)) {
        Err(SerializeError(kept)) => assert_eq!(kept.to_string(), shown),
        Ok(_) => panic!("a frame without a body"),
    }
}

#[test]
fn server_decodes_client_messages() {
    let framed = serialize_client_message(&joined("7")).unwrap();
    let (event, message) = decode_at_server(&framed[5..]);
    assert!(matches!(event, ReceiveEvent::Decoded(true)));
    assert!(matches!(
        message,
        Ok(ReliableClientMessage::PlayerJoined { player_id }) if player_id == "7"
    ));
    let (event, message) = decode_at_server(&[1, 2, 3]);
    assert!(matches!(event, ReceiveEvent::Decoded(false)));
    assert!(matches!(message, Err(DeserializeError::Archive(_))));
}

#[test]
fn client_decodes_server_messages() {
    let framed = serialize_reliable_server_message(&hello("7")).unwrap();
    let (event, message) = decode_at_client(&framed[5..]);
    assert!(matches!(event, ReceiveEvent::Decoded(true)));
    assert!(matches!(
        message,
        Ok(ReliableServerMessage::Hello { player_id }) if player_id == "7"
    ));
    let framed = serialize_client_message(&quit("7")).unwrap();
    let (event, message) = decode_at_client(&framed[5..]);
    assert!(matches!(event, ReceiveEvent::Decoded(false)));
    assert!(matches!(message, Err(DeserializeError::UnknownVariant)));
}
