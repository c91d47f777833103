//! Channel names of a group of numbered replicas, each of which listens on
//! an inbox of its own and greets the replicas numbered below it.

use crate::decimal::{decimal, push_decimal};
use vstd::prelude::*;
use vstd::string::StringExecFns;

verus! {

/// The name of the inbox of the replica numbered `replica_id`.
pub open spec fn inbox_name(replica_id: nat) -> Seq<char> {
    "inbox-"@ + decimal(replica_id)
}

/// The channel on which the replica numbered `replica_id` listens.
pub fn inbox(replica_id: usize) -> (name: String)
    ensures
        name@ == inbox_name(replica_id as nat),
{
    let mut name = String::from_str("inbox-");
    push_decimal(&mut name, replica_id as u64);
    name
}

/// The channels to which the replica numbered `replica_id` announces
/// itself: the inboxes of all replicas numbered below it, in ascending
/// order.
pub fn recipients(replica_id: usize) -> (names: Vec<String>)
    ensures
        names@.len() == replica_id,
        forall|i: int| 0 <= i < replica_id ==> (#[trigger] names@[i])@ == inbox_name(i as nat),
{
    let mut names: Vec<String> = Vec::new();
    let mut i: usize = 0;
    while i < replica_id
        invariant
            i <= replica_id,
            names@.len() == i,
            forall|j: int| 0 <= j < i ==> (#[trigger] names@[j])@ == inbox_name(j as nat),
        decreases replica_id - i,
    {
        names.push(inbox(i));
        i += 1;
    }
    names
}

} // verus!
