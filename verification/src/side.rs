//! The two ends of a connection.
use vstd::prelude::*;

verus! {

/// The end of a connection at which a task runs.
#[derive(Debug, Clone, Copy, PartialEq, Eq, Structural)]
pub enum Side {
    Client,
    Server,
}

} // verus!
