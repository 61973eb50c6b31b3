//! Laws of a block of samples.

use vstd::prelude::*;

use crate::buffer::Buffer;
use crate::exceptions::CustomError;

verus! {

/// A block is replaced as a whole by one of its length and by no other; what is stored
/// singly goes to its place and nowhere else.
pub proof fn a_block_keeps_its_length<T: Copy + Default, const N: usize>(
    b: &mut Buffer<T, N>,
    src: &[T],
    r: Result<(), CustomError>,
    c: &mut Buffer<T, N>,
    i: usize,
    x: T,
    s: Result<(), CustomError>,
    j: int,
)
    requires
        call_ensures(Buffer::<T, N>::write, (b, src), r),
        call_ensures(Buffer::<T, N>::set, (c, i, x), s),
        0 <= j < N,
    ensures
        r is Ok <==> src@.len() == N,
        r is Ok ==> final(b)@ == src@,
        r matches Err(e) ==> e == CustomError::MismatchInputLength && final(b)@ == old(b)@,
        s is Ok <==> i < N,
        s is Ok && j == i ==> final(c)@[j] == x,
        j != i ==> final(c)@[j] == old(c)@[j],
        s matches Err(e) ==> e == CustomError::InvalidIndex && final(c)@ == old(c)@,
{
    broadcast use Buffer::lemma_len;
}

} // verus!
