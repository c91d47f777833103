//! What a producer pushes to the sink.

use crate::decimal::{decimal, push_decimal};
use vstd::prelude::*;
use vstd::string::StringExecFns;

verus! {

/// The text of the message numbered `number` of the producer `producer_id`.
pub open spec fn data_text(producer_id: Seq<char>, number: nat) -> Seq<char> {
    producer_id + " := "@ + decimal(number)
}

/// The data of the message numbered `number` that the producer
/// `producer_id` pushes.
pub fn producer_data(producer_id: &str, number: u32) -> (data: String)
    ensures
        data@ == data_text(producer_id@, number as nat),
{
    let mut data = String::from_str(producer_id);
    data.append(" := ");
    push_decimal(&mut data, number as u64);
    data
}

} // verus!
