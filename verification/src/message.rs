//! The messages that clients send to the word counter.

use vstd::prelude::*;

verus! {

/// The field of a stream entry under which a message travels.
pub const REDIS_MSG_KEY: &'static str = "msg";

/// A message to the word counter.
#[derive(Debug, PartialEq, Eq)]
pub enum Message {
    /// Count the words of `data`.
    Count { client_id: String, data: String },
    /// The client has left.
    Disconnect { client_id: String },
    /// Stop counting.
    Terminate,
}

} // verus!
