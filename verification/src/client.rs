//! What a client of the word counter sends.

use crate::message::Message;
use vstd::prelude::*;

verus! {

pub const DEFAULT_REPEATS: usize = 10;

pub const DEFAULT_DATA: &'static str = "hello world";

/// Whether `msg` asks to count `data` for the client `client_id`.
pub open spec fn is_count(msg: Message, client_id: Seq<char>, data: Seq<char>) -> bool {
    msg matches Message::Count { client_id: from, data: text } && from@ == client_id && text@
        == data
}

/// Whether `msg` says that the client `client_id` has left.
pub open spec fn is_disconnect(msg: Message, client_id: Seq<char>) -> bool {
    msg matches Message::Disconnect { client_id: from } && from@ == client_id
}

/// The messages of a client, in the order in which it sends them: `data`
/// to be counted, `repeats` times over, and then its leave.
pub fn client_messages(client_id: &String, data: &String, repeats: usize) -> (messages: Vec<
    Message,
>)
    ensures
        messages@.len() == repeats + 1,
        forall|i: int| 0 <= i < repeats ==> is_count(#[trigger] messages@[i], client_id@, data@),
        is_disconnect(messages@[repeats as int], client_id@),
{
    let mut messages: Vec<Message> = Vec::with_capacity(repeats);
    let mut sent: usize = 0;
    while sent < repeats
        invariant
            sent <= repeats,
            messages@.len() == sent,
            forall|i: int| 0 <= i < sent ==> is_count(#[trigger] messages@[i], client_id@, data@),
        decreases repeats - sent,
    {
        messages.push(Message::Count { client_id: client_id.clone(), data: data.clone() });
        sent += 1;
    }
    messages.push(Message::Disconnect { client_id: client_id.clone() });
    messages
}

} // verus!
