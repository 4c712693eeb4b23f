use game_core::channels::{
    poll_players, poll_report, poll_reports, ChannelMap, MessageChannels, PollReport, Polled,
};
use game_core::client::{accept_failure_text, Client};
use game_core::config::{
    configure_server, server_names, server_settings, settings_from, CLIENT_PORT, MAX_UNI_STREAMS, SERVER_ADDRESS,
    SERVER_NAME, SERVER_PORT,
};
use game_core::message::{ReliableClientMessage, ReliableServerMessage};
use game_core::send::quit_message;

#[test]
fn channel_map_keeps_one_entry_per_player() {
    let mut map: ChannelMap<u32> = ChannelMap::new();
    assert_eq!(map.len(), 0);
    assert_eq!(map.insert("a".to_string(), 1), None);
    assert_eq!(map.insert("b".to_string(), 2), None);
    assert_eq!(map.insert("a".to_string(), 3), Some(1));
    assert_eq!(map.len(), 2);
    let mut seen: Vec<(String, u32)> =
        (0..map.len()).map(|i| (map.player_at(i).clone(), *map.channels_at(i))).collect();
    seen.sort();
    assert_eq!(seen, vec![("a".to_string(), 3), ("b".to_string(), 2)]);
}

#[test]
fn poll_report_depends_on_the_outcome() {
    let id = "7".to_string();
    assert!(poll_report(&id, Polled::Empty).is_none());
    assert!(matches!(
        poll_report(&id, Polled::Closed),
        Some(PollReport::Closed { player_id }) if player_id == "7"
    ));
    assert!(matches!(
        poll_report(&id, Polled::Message(quit_message(&"8".to_string()))),
        Some(PollReport::Received { player_id, message: ReliableClientMessage::Quit { player_id: other } })
            if player_id == "7" && other == "8"
    ));
}

#[test]
fn reports_follow_the_outcomes() {
    let mut map: ChannelMap<u32> = ChannelMap::new();
    for id in ["a", "b", "c"] {
        assert_eq!(map.insert(id.to_string(), 0), None);
    }
    let outcomes = vec![
        Polled::Closed,
        Polled::Empty,
        Polled::Message(quit_message(&"x".to_string())),
    ];
    let reports = poll_reports(&map, outcomes);
    assert_eq!(reports.len(), 2);
    assert!(matches!(
        &reports[0],
        PollReport::Closed { player_id } if player_id == map.player_at(0)
    ));
    assert!(matches!(
        &reports[1],
        PollReport::Received { player_id, message: ReliableClientMessage::Quit { player_id: other } }
            if player_id == map.player_at(2) && other == "x"
    ));
}

#[test]
fn rounds_take_from_the_front_of_every_queue() {
    let mut map: ChannelMap<MessageChannels> = ChannelMap::new();
    let mut senders = Vec::new();
    let queues = [("7", vec!["a", "b", "c"]), ("8", vec!["d"]), ("9", vec!["e", "f"])];
    for (id, waiting) in &queues {
        let (cancel_sender, _) = tokio::sync::watch::channel(false);
        let (client_sender, reliable_receiver) = async_channel::unbounded();
        let (reliable_sender, server_receiver) = async_channel::unbounded();
        for text in waiting {
            client_sender.try_send(quit_message(&text.to_string())).unwrap();
        }
        let channels = MessageChannels { cancel_sender, reliable_receiver, reliable_sender };
        assert!(map.insert(id.to_string(), channels).is_none());
        senders.push((client_sender, server_receiver));
    }
    for round in 0..4 {
        let mut seen = Vec::new();
        for report in poll_players(&map) {
            match report {
                PollReport::Received {
                    player_id,
                    message: ReliableClientMessage::Quit { player_id: text },
                } => seen.push((player_id, text)),
                other => panic!("unexpected report: {other:?}"),
            }
        }
        seen.sort();
        let mut expected = Vec::new();
        for (id, waiting) in &queues {
            if round < waiting.len() {
                expected.push((id.to_string(), waiting[round].to_string()));
            }
        }
        assert_eq!(seen, expected);
        assert_eq!(map.len(), 3);
        for number in 0..map.len() {
            let (_, waiting) = queues.iter().find(|(id, _)| id == map.player_at(number)).unwrap();
            let left = waiting.len().saturating_sub(round + 1);
            assert_eq!(map.channels_at(number).reliable_receiver.len(), left);
        }
    }
}

#[test]
fn players_are_polled_once_each() {
    let mut map: ChannelMap<MessageChannels> = ChannelMap::new();
    let mut senders = Vec::new();
    let mut receivers = Vec::new();
    for id in ["silent", "talking", "gone"] {
        let (cancel_sender, _) = tokio::sync::watch::channel(false);
        let (client_sender, reliable_receiver) = async_channel::unbounded();
        let (reliable_sender, server_receiver) = async_channel::unbounded();
        let channels = MessageChannels { cancel_sender, reliable_receiver, reliable_sender };
        assert!(map.insert(id.to_string(), channels).is_none());
        senders.push(client_sender);
        receivers.push(server_receiver);
    }
    senders[1].try_send(quit_message(&"x".to_string())).unwrap();
    senders[1].try_send(quit_message(&"y".to_string())).unwrap();
    senders.pop();
    for expected in ["x", "y"] {
        let reports = poll_players(&map);
        assert_eq!(reports.len(), 2);
        let mut received = 0;
        let mut closed = 0;
        for report in reports {
            match report {
                PollReport::Received { player_id, message } => {
                    assert_eq!(player_id, "talking");
                    assert!(matches!(
                        message,
                        ReliableClientMessage::Quit { player_id } if player_id == expected
                    ));
                    received += 1;
                }
                PollReport::Closed { player_id } => {
                    assert_eq!(player_id, "gone");
                    closed += 1;
                }
            }
        }
        assert_eq!((received, closed), (1, 1));
    }
    assert_eq!(poll_players(&map).len(), 1);
}

#[test]
fn server_is_configured_for_its_name() {
    let settings = configure_server().unwrap();
    assert_eq!(settings.max_concurrent_uni_streams, 0);
    let name = SERVER_NAME.as_bytes();
    assert!(settings.certificate.windows(name.len()).any(|window| window == name));
    assert!(!settings.private_key.is_empty());
    let other = configure_server().unwrap();
    assert_ne!(settings.private_key, other.private_key);
}

#[test]
fn certificate_belongs_to_its_key() {
    let first = configure_server().unwrap();
    let second = configure_server().unwrap();
    let accepted = |certificate: &[u8], private_key: &[u8]| {
        let certificate = quinn::rustls::pki_types::CertificateDer::from(certificate.to_vec());
        let key = quinn::rustls::pki_types::PrivatePkcs8KeyDer::from(private_key.to_vec());
        quinn::ServerConfig::with_single_cert(vec![certificate], key.into()).is_ok()
    };
    assert!(accepted(&first.certificate, &first.private_key));
    assert!(accepted(&second.certificate, &second.private_key));
    assert!(!accepted(&first.certificate, &second.private_key));
}

#[test]
fn server_settings_hold_what_they_are_given() {
    let settings = server_settings(vec![1, 2], vec![3]);
    assert_eq!(settings.certificate, vec![1, 2]);
    assert_eq!(settings.private_key, vec![3]);
    assert_eq!(settings.max_concurrent_uni_streams, MAX_UNI_STREAMS);
    assert_eq!(server_names(), vec!["localhost".to_string()]);
}

#[test]
fn settings_follow_the_attempt_at_a_certificate() {
    let settings = settings_from(Ok((vec![1, 2], vec![3]))).unwrap();
    assert_eq!(settings.certificate, vec![1, 2]);
    assert_eq!(settings.private_key, vec![3]);
    assert_eq!(settings.max_concurrent_uni_streams, 0);
    assert_eq!(
        settings_from(Err(rcgen::Error::RingUnspecified)).unwrap_err(),
        rcgen::Error::RingUnspecified
    );
}

#[test]
fn server_is_found_at_its_address() {
    assert_eq!(SERVER_ADDRESS, [127, 0, 0, 1]);
    assert_eq!(SERVER_PORT, 8080);
    assert_eq!(CLIENT_PORT, 0);
}

#[test]
fn new_client_has_no_player_id() {
    let (cancel_sender, cancel_receiver) = tokio::sync::watch::channel(false);
    let (server_sender, server_receiver) = async_channel::unbounded::<ReliableServerMessage>();
    let (client_sender, client_receiver) = async_channel::unbounded::<ReliableClientMessage>();
    let client = Client::connected(
        cancel_sender,
        server_receiver,
        client_sender,
        tokio::task::JoinSet::new(),
    );
    assert_eq!(client.local_player_id, "");
    client.client_sender.try_send(quit_message(&"1".to_string())).unwrap();
    assert!(client_receiver.try_recv().is_ok());
    server_sender
        .try_send(ReliableServerMessage::Hello { player_id: "1".to_string() })
        .unwrap();
    assert!(client.server_receiver.try_recv().is_ok());
    client.cancel_sender.send(true).unwrap();
    assert!(*cancel_receiver.borrow());
}

#[test]
fn failure_to_accept_is_explained() {
    assert_eq!(
        accept_failure_text("timed out"),
        "Failed to accept bidirectional stream: timed out"
    );
}
