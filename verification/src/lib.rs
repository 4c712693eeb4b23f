//! Core of a small client/server game: the wire format of the reliable
//! messages, the decisions of the tasks that carry them, and the server's
//! table of players.
pub mod accept;
pub mod admission;
pub mod archive;
pub mod arrival;
pub mod channels;
pub mod client;
pub mod config;
pub mod delivery;
pub mod frame;
pub mod message;
pub mod player;
pub mod polling;
pub mod receive;
pub mod send;
pub mod session;
pub mod side;
pub mod stream;
