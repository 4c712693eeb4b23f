//! The messages that client and server exchange.
use crate::archive::{
    archived_bytes, archived_value, lemma_unarchiving_failed, unarchive, unarchiving_failed,
    value_view,
};
use vstd::prelude::*;

verus! {

/// The name by which the server knows a player.
pub type PlayerId = String;

/// What the client tells the server.
#[derive(Debug)]
pub enum ReliableClientMessage {
    /// A player has joined.
    PlayerJoined { player_id: PlayerId },
    /// A player has left.
    Quit { player_id: PlayerId },
}

/// What the server tells a client.
#[derive(Debug)]
pub enum ReliableServerMessage {
    /// The greeting, which tells a new player their id.
    Hello { player_id: PlayerId },
}

/// A client message, seen through its player id.
pub enum ClientMessageView {
    PlayerJoined { player_id: Seq<char> },
    Quit { player_id: Seq<char> },
}

/// A server message, seen through its player id.
pub enum ServerMessageView {
    Hello { player_id: Seq<char> },
}

impl View for ReliableClientMessage {
    type V = ClientMessageView;

    open spec fn view(&self) -> ClientMessageView {
        match *self {
            ReliableClientMessage::PlayerJoined { player_id } => ClientMessageView::PlayerJoined {
                player_id: player_id@,
            },
            ReliableClientMessage::Quit { player_id } => ClientMessageView::Quit {
                player_id: player_id@,
            },
        }
    }
}

impl View for ReliableServerMessage {
    type V = ServerMessageView;

    open spec fn view(&self) -> ServerMessageView {
        match *self {
            ReliableServerMessage::Hello { player_id } => ServerMessageView::Hello {
                player_id: player_id@,
            },
        }
    }
}

/// The value that stands for a client message in an archive.
pub open spec fn client_value(message: ClientMessageView) -> Result<Seq<char>, Seq<char>> {
    match message {
        ClientMessageView::PlayerJoined { player_id } => Ok(player_id),
        ClientMessageView::Quit { player_id } => Err(player_id),
    }
}

/// The client message that a value in an archive stands for.
pub open spec fn client_message_of(value: Result<Seq<char>, Seq<char>>) -> ClientMessageView {
    match value {
        Ok(player_id) => ClientMessageView::PlayerJoined { player_id },
        Err(player_id) => ClientMessageView::Quit { player_id },
    }
}

/// The value that stands for a server message in an archive.
pub open spec fn server_value(message: ServerMessageView) -> Result<Seq<char>, Seq<char>> {
    match message {
        ServerMessageView::Hello { player_id } => Ok(player_id),
    }
}

/// The server message that a value in an archive stands for, if any.
pub open spec fn server_message_of(value: Result<Seq<char>, Seq<char>>) -> Option<
    ServerMessageView,
> {
    match value {
        Ok(player_id) => Some(ServerMessageView::Hello { player_id }),
        Err(_) => None,
    }
}

/// The body of a client message on the wire, or `None` where it has none.
pub open spec fn client_payload(message: ClientMessageView) -> Option<Seq<u8>> {
    archived_bytes(client_value(message))
}

/// The body of a server message on the wire, or `None` where it has none.
pub open spec fn server_payload(message: ServerMessageView) -> Option<Seq<u8>> {
    archived_bytes(server_value(message))
}

/// The client message that a body on the wire holds, if any.
pub open spec fn client_payload_message(payload: Seq<u8>) -> Option<ClientMessageView> {
    match archived_value(payload) {
        Some(value) => Some(client_message_of(value)),
        None => None,
    }
}

/// The server message that a body on the wire holds, if any.
pub open spec fn server_payload_message(payload: Seq<u8>) -> Option<ServerMessageView> {
    match archived_value(payload) {
        Some(value) => server_message_of(value),
        None => None,
    }
}

/// Why a body could not be read as a message.
#[derive(Debug)]
pub enum DeserializeError {
    /// The bytes are no archive.
    Archive(rkyv::rancor::Error),
    /// The archive holds a variant that no message has.
    UnknownVariant,
}

/// The value that stands for a client message in an archive.
pub fn client_message_value(message: &ReliableClientMessage) -> (value: Result<String, String>)
    ensures
        value_view(value) == client_value(message@),
        match *message {
            ReliableClientMessage::PlayerJoined { player_id } => value matches Ok(text) && text@
                == player_id@,
            ReliableClientMessage::Quit { player_id } => value matches Err(text) && text@
                == player_id@,
        },
{
    match message {
        ReliableClientMessage::PlayerJoined { player_id } => Ok(player_id.clone()),
        ReliableClientMessage::Quit { player_id } => Err(player_id.clone()),
    }
}

/// The value that stands for a server message in an archive.
pub fn server_message_value(message: &ReliableServerMessage) -> (value: Result<String, String>)
    ensures
        value_view(value) == server_value(message@),
        match *message {
            ReliableServerMessage::Hello { player_id } => value matches Ok(text) && text@
                == player_id@,
        },
{
    match message {
        ReliableServerMessage::Hello { player_id } => Ok(player_id.clone()),
    }
}

/// The client message that a value in an archive stands for.
pub fn client_message_from(value: Result<String, String>) -> (message: ReliableClientMessage)
    ensures
        message@ == client_message_of(value_view(value)),
        match value {
            Ok(text) => message matches ReliableClientMessage::PlayerJoined { player_id }
                && player_id@ == text@,
            Err(text) => message matches ReliableClientMessage::Quit { player_id } && player_id@
                == text@,
        },
{
    match value {
        Ok(player_id) => ReliableClientMessage::PlayerJoined { player_id },
        Err(player_id) => ReliableClientMessage::Quit { player_id },
    }
}

/// The server message that a value in an archive stands for, if any.
pub fn server_message_from(value: Result<String, String>) -> (message: Option<
    ReliableServerMessage,
>)
    ensures
        match server_message_of(value_view(value)) {
            Some(expected) => message is Some && message->0@ == expected,
            None => message is None,
        },
        match value {
            Ok(text) => message matches Some(ReliableServerMessage::Hello { player_id })
                && player_id@ == text@,
            Err(_) => message is None,
        },
{
    match value {
        Ok(player_id) => Some(ReliableServerMessage::Hello { player_id }),
        Err(_) => None,
    }
}

/// Reads the body of a client message.
pub fn deserialize_client_message(payload: &[u8]) -> (message: Result<
    ReliableClientMessage,
    DeserializeError,
>)
    ensures
        match archived_value(payload@) {
            Some(Ok(text)) => message matches Ok(
                ReliableClientMessage::PlayerJoined { player_id },
            ) && player_id@ == text,
            Some(Err(text)) => message matches Ok(ReliableClientMessage::Quit { player_id })
                && player_id@ == text,
            None => message is Err,
        },
        match client_payload_message(payload@) {
            Some(expected) => message is Ok && message->Ok_0@ == expected,
            None => message matches Err(DeserializeError::Archive(error)) && unarchiving_failed(
                payload@,
                error,
            ),
        },
        forall|sent: ClientMessageView|
            #[trigger] client_payload(sent) == Some(payload@) && payload@.len() <= u32::MAX
                ==> message is Ok && message->Ok_0@ == sent,
{
    match unarchive(payload) {
        Ok(value) => {
            let message = client_message_from(value);
            assert forall|sent: ClientMessageView|
                #[trigger] client_payload(sent) == Some(payload@) && payload@.len()
                    <= u32::MAX implies message@ == sent by {
                assert(archived_bytes(client_value(sent)) == Some(payload@));
            }
            Ok(message)
        },
        Err(error) => {
            assert forall|sent: ClientMessageView|
                #[trigger] client_payload(sent) == Some(payload@) && payload@.len()
                    <= u32::MAX implies false by {
                assert(archived_bytes(client_value(sent)) == Some(payload@));
            }
            proof {
                lemma_unarchiving_failed(payload, error);
            }
            Err(DeserializeError::Archive(error))
        },
    }
}

/// Reads the body of a server message.
pub fn deserialize_server_message(payload: &[u8]) -> (message: Result<
    ReliableServerMessage,
    DeserializeError,
>)
    ensures
        match archived_value(payload@) {
            Some(Ok(text)) => message matches Ok(ReliableServerMessage::Hello { player_id })
                && player_id@ == text,
            Some(Err(_)) => message matches Err(DeserializeError::UnknownVariant),
            None => message is Err,
        },
        match archived_value(payload@) {
            Some(value) => match server_message_of(value) {
                Some(expected) => message is Ok && message->Ok_0@ == expected,
                None => message matches Err(DeserializeError::UnknownVariant),
            },
            None => message matches Err(DeserializeError::Archive(error)) && unarchiving_failed(
                payload@,
                error,
            ),
        },
        forall|sent: ServerMessageView|
            #[trigger] server_payload(sent) == Some(payload@) && payload@.len() <= u32::MAX
                ==> message is Ok && message->Ok_0@ == sent,
{
    match unarchive(payload) {
        Ok(value) => {
            assert forall|sent: ServerMessageView|
                #[trigger] server_payload(sent) == Some(payload@) && payload@.len()
                    <= u32::MAX implies value_view(value) == server_value(sent) by {
                assert(archived_bytes(server_value(sent)) == Some(payload@));
            }
            match server_message_from(value) {
                Some(message) => Ok(message),
                None => Err(DeserializeError::UnknownVariant),
            }
        },
        Err(error) => {
            assert forall|sent: ServerMessageView|
                #[trigger] server_payload(sent) == Some(payload@) && payload@.len()
                    <= u32::MAX implies false by {
                assert(archived_bytes(server_value(sent)) == Some(payload@));
            }
            proof {
                lemma_unarchiving_failed(payload, error);
            }
            Err(DeserializeError::Archive(error))
        },
    }
}

/// Whenever `deserialize_client_message` reads the body, it gives the message.
pub open spec fn reads_as_client_message(body: Seq<u8>, message: ClientMessageView) -> bool {
    forall|payload: &[u8], read: Result<ReliableClientMessage, DeserializeError>|
        payload@ == body && #[trigger] call_ensures(deserialize_client_message, (payload,), read)
            ==> read is Ok && read->Ok_0@ == message
}

/// Whenever `deserialize_server_message` reads the body, it gives the message.
pub open spec fn reads_as_server_message(body: Seq<u8>, message: ServerMessageView) -> bool {
    forall|payload: &[u8], read: Result<ReliableServerMessage, DeserializeError>|
        payload@ == body && #[trigger] call_ensures(deserialize_server_message, (payload,), read)
            ==> read is Ok && read->Ok_0@ == message
}

/// A client message that was written as a body is read back from it.
pub proof fn law_client_message_read_back(message: ClientMessageView)
    requires
        client_payload(message) is Some,
        client_payload(message)->0.len() <= u32::MAX,
    ensures
        reads_as_client_message(client_payload(message)->0, message),
{
}

/// A server message that was written as a body is read back from it.
pub proof fn law_server_message_read_back(message: ServerMessageView)
    requires
        server_payload(message) is Some,
        server_payload(message)->0.len() <= u32::MAX,
    ensures
        reads_as_server_message(server_payload(message)->0, message),
{
}

/// A message is seen as the variant that it is, with its player id.
pub proof fn law_messages_seen_as_they_are(
    client: ReliableClientMessage,
    server: ReliableServerMessage,
)
    ensures
        match client {
            ReliableClientMessage::PlayerJoined { player_id } => client@ == (
            ClientMessageView::PlayerJoined { player_id: player_id@ }),
            ReliableClientMessage::Quit { player_id } => client@ == (ClientMessageView::Quit {
                player_id: player_id@,
            }),
        },
        match server {
            ReliableServerMessage::Hello { player_id } => server@ == (ServerMessageView::Hello {
                player_id: player_id@,
            }),
        },
{
}

/// Whatever the player ids, joining is archived in one way and quitting in the
/// other, and the text that is archived is the player id: two messages are
/// archived as the same variant if and only if they are of the same kind, and
/// with the same text if and only if they are of the same player.
pub proof fn law_joining_and_quitting_kept_apart(
    left: ReliableClientMessage,
    left_value: Result<String, String>,
    right: ReliableClientMessage,
    right_value: Result<String, String>,
)
    requires
        call_ensures(client_message_value, (&left,), left_value),
        call_ensures(client_message_value, (&right,), right_value),
    ensures
        left_value is Ok <==> left is PlayerJoined,
        left_value is Ok == right_value is Ok <==> left is PlayerJoined == right is PlayerJoined,
        left matches ReliableClientMessage::PlayerJoined { player_id } ==> left_value->Ok_0@
            == player_id@,
        left matches ReliableClientMessage::Quit { player_id } ==> left_value->Err_0@
            == player_id@,
{
}

/// What is read is of the kind of its variant, whatever its text: joining
/// exactly if the value is `Ok`, of the player whose id the text is.
pub proof fn law_variant_tells_the_message(
    value: Result<String, String>,
    message: ReliableClientMessage,
)
    requires
        call_ensures(client_message_from, (value,), message),
    ensures
        message is PlayerJoined <==> value is Ok,
        message matches ReliableClientMessage::PlayerJoined { player_id } ==> player_id@
            == value->Ok_0@,
        message matches ReliableClientMessage::Quit { player_id } ==> player_id@
            == value->Err_0@,
{
}

/// Every greeting is archived as the one variant of server messages, with the
/// player id as its text, whatever that id; and a value is read as a greeting
/// exactly if it is of that variant, of the player whose id its text is.
pub proof fn law_greeting_is_the_one_variant(
    message: ReliableServerMessage,
    archived: Result<String, String>,
    value: Result<String, String>,
    read: Option<ReliableServerMessage>,
)
    requires
        call_ensures(server_message_value, (&message,), archived),
        call_ensures(server_message_from, (value,), read),
    ensures
        archived is Ok,
        message matches ReliableServerMessage::Hello { player_id } && archived->Ok_0@
            == player_id@,
        read is Some <==> value is Ok,
        read matches Some(ReliableServerMessage::Hello { player_id }) ==> player_id@
            == value->Ok_0@,
{
}

/// The body of a message is the archive of its player id under its variant,
/// and the message in a body is told by the variant and the text in the
/// archive.
pub proof fn law_bodies_are_archives(player_id: Seq<char>, body: Seq<u8>)
    ensures
        client_payload(ClientMessageView::PlayerJoined { player_id }) == archived_bytes(
            Ok(player_id),
        ),
        client_payload(ClientMessageView::Quit { player_id }) == archived_bytes(Err(player_id)),
        server_payload(ServerMessageView::Hello { player_id }) == archived_bytes(Ok(player_id)),
        client_payload_message(body) == match archived_value(body) {
            Some(Ok(text)) => Some(ClientMessageView::PlayerJoined { player_id: text }),
            Some(Err(text)) => Some(ClientMessageView::Quit { player_id: text }),
            None => None,
        },
        server_payload_message(body) == match archived_value(body) {
            Some(Ok(text)) => Some(ServerMessageView::Hello { player_id: text }),
            _ => None,
        },
{
}

} // verus!
