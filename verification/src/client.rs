//! The game's handle on its connection to the server.
use crate::message::{PlayerId, ReliableClientMessage, ReliableServerMessage};
use vstd::prelude::*;

verus! {

/// `tokio`'s set of running tasks, carried through unread.
#[verifier::external_type_specification]
#[verifier::external_body]
#[verifier::reject_recursive_types(T)]
pub struct ExJoinSet<T>(tokio::task::JoinSet<T>);

/// A connected client.
#[derive(Debug)]
pub struct Client {
    /// Cancels the tasks of the connection.
    pub cancel_sender: tokio::sync::watch::Sender<bool>,
    /// What the server tells the game.
    pub server_receiver: async_channel::Receiver<ReliableServerMessage>,
    /// What the game tells the server.
    pub client_sender: async_channel::Sender<ReliableClientMessage>,
    /// The tasks of the connection, which end when the client is dropped.
    pub join_set: tokio::task::JoinSet<()>,
    /// The id of this client's player, empty as long as it is unknown.
    pub local_player_id: PlayerId,
}

impl Client {
    /// A client that has just connected and does not know its player id yet.
    pub fn connected(
        cancel_sender: tokio::sync::watch::Sender<bool>,
        server_receiver: async_channel::Receiver<ReliableServerMessage>,
        client_sender: async_channel::Sender<ReliableClientMessage>,
        join_set: tokio::task::JoinSet<()>,
    ) -> (client: Self)
        ensures
            client.cancel_sender == cancel_sender,
            client.server_receiver == server_receiver,
            client.client_sender == client_sender,
            client.join_set == join_set,
            client.local_player_id@ == Seq::<char>::empty(),
    {
        Client {
            cancel_sender,
            server_receiver,
            client_sender,
            join_set,
            local_player_id: PlayerId::default(),
        }
    }
}

/// What is said of a client that could not accept the stream of the server.
pub open spec fn accept_failure(reason: Seq<char>) -> Seq<char> {
    "Failed to accept bidirectional stream: "@ + reason
}

/// Says that a client could not accept the stream of the server.
pub fn accept_failure_text(reason: &str) -> (text: String)
    ensures
        text@ == accept_failure(reason@),
        text@ == "Failed to accept bidirectional stream: "@ + reason@,
{
    "Failed to accept bidirectional stream: ".to_string().concat(reason)
}

} // verus!
