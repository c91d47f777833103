//! Writing text into a byte buffer of fixed size, such as an array on the
//! stack, without allocating.

use crate::decimal::{decimal_bytes, push_decimal_bytes};
use vstd::prelude::*;

verus! {

/// The error of a write that does not fit: the buffer holds `capacity`
/// bytes and `needed` were to be written.
#[derive(Debug, Clone, Copy, PartialEq, Eq, Structural)]
pub struct BufferFull {
    pub capacity: usize,
    pub needed: usize,
}

/// The buffer `before` after as many bytes of `data` as fit were written
/// from its start.
pub open spec fn overwritten(before: Seq<u8>, data: Seq<u8>) -> Seq<u8> {
    if data.len() <= before.len() {
        data + before.skip(data.len() as int)
    } else {
        data.take(before.len() as int)
    }
}

/// Writes `data` to the start of `buf`.
///
/// If successful, returns the number of bytes written. If `data` is longer
/// than `buf`, the bytes that fit are written and the error is returned.
pub fn write_bytes(buf: &mut [u8], data: &[u8]) -> (written: Result<usize, BufferFull>)
    ensures
        final(buf)@ == overwritten(old(buf)@, data@),
        data@.len() <= old(buf)@.len() ==> written == Ok::<usize, BufferFull>(data@.len() as usize),
        data@.len() > old(buf)@.len() ==> written == Err::<usize, BufferFull>(
            BufferFull { capacity: old(buf)@.len() as usize, needed: data@.len() as usize },
        ),
{
    let capacity = buf.len();
    let needed = data.len();
    let count = if needed <= capacity {
        needed
    } else {
        capacity
    };
    let mut i: usize = 0;
    while i < count
        invariant
            i <= count,
            count <= data@.len(),
            count <= buf@.len(),
            buf@.len() == old(buf)@.len(),
            forall|j: int| 0 <= j < i ==> buf@[j] == data@[j],
            forall|j: int| i <= j < buf@.len() ==> buf@[j] == old(buf)@[j],
        decreases count - i,
    {
        buf[i] = data[i];
        i += 1;
    }
    assert(buf@ =~= overwritten(old(buf)@, data@));
    if needed <= capacity {
        Ok(needed)
    } else {
        Err(BufferFull { capacity, needed })
    }
}

/// Writes the decimal notation of `value` to the start of `buf`, as
/// `write_bytes` does with its bytes.
pub fn write_decimal(buf: &mut [u8], value: u64) -> (written: Result<usize, BufferFull>)
    ensures
        final(buf)@ == overwritten(old(buf)@, decimal_bytes(value as nat)),
        decimal_bytes(value as nat).len() <= old(buf)@.len() ==> written == Ok::<usize, BufferFull>(
            decimal_bytes(value as nat).len() as usize,
        ),
        decimal_bytes(value as nat).len() > old(buf)@.len() ==> written == Err::<
            usize,
            BufferFull,
        >(
            BufferFull {
                capacity: old(buf)@.len() as usize,
                needed: decimal_bytes(value as nat).len() as usize,
            },
        ),
{
    let mut digits: Vec<u8> = Vec::new();
    push_decimal_bytes(&mut digits, value);
    assert(digits@ =~= decimal_bytes(value as nat));
    write_bytes(buf, digits.as_slice())
}

} // verus!
