//! The part of a receive buffer that the next read may fill.

use vstd::prelude::*;

verus! {

/// Where the span that follows `offset` bytes starts in a buffer of `len`
/// bytes: at `offset`, and at the end of the buffer where `offset` lies
/// beyond it.
pub open spec fn span_start(len: nat, offset: usize) -> int {
    if offset <= len {
        offset as int
    } else {
        len as int
    }
}

/// The span of `receive` that follows the `offset` bytes accumulated so far.
/// Whatever is written through the span lands behind those bytes and leaves
/// them as they are.
pub fn remaining_span<'a>(receive: &'a mut [u8], offset: usize) -> (span: &'a mut [u8])
    ensures
        span@ == old(receive)@.skip(span_start(old(receive)@.len(), offset)),
        final(receive)@ == old(receive)@.take(span_start(old(receive)@.len(), offset))
            + final(span)@,
{
    let len = receive.len();
    let start = if offset <= len {
        offset
    } else {
        len
    };
    let (_, span) = receive.split_at_mut(start);
    span
}

} // verus!
