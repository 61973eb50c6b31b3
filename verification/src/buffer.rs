//! A block of samples of fixed length.

pub mod laws;

use std::ops::Deref;

use vstd::prelude::*;

use crate::exceptions::CustomError;

verus! {

/// `N` elements of type `T`, the unit in which a ring hands data over.
#[derive(Debug)]
pub struct Buffer<T: Copy + Default, const N: usize>([T; N]);

impl<T: Copy + Default, const N: usize> View for Buffer<T, N> {
    type V = Seq<T>;

    closed spec fn view(&self) -> Seq<T> {
        self.0@
    }
}

impl<T: Copy + Default, const N: usize> Buffer<T, N> {
    /// A buffer always holds exactly `N` elements.
    pub broadcast proof fn lemma_len(self)
        ensures
            (#[trigger] self@).len() == N,
    {
    }

    /// A buffer filled with one value of `T::default()`.
    pub fn new() -> (b: Self)
        ensures
            exists|d: T|
                call_ensures(T::default, (), d) && b@ == Seq::new(N as nat, |i: int| d),
    {
        let d = T::default();
        let b = Self([d; N]);
        assert(b@ =~= Seq::new(N as nat, |i: int| d));
        b
    }

    /// Replace the whole content. A source of any other length is refused and
    /// leaves the buffer as it was.
    pub fn write(&mut self, src: &[T]) -> (r: Result<(), CustomError>)
        ensures
            src@.len() == N ==> r == Ok::<(), CustomError>(()) && final(self)@ == src@,
            src@.len() != N ==> r == Err::<(), CustomError>(CustomError::MismatchInputLength)
                && final(self)@ == old(self)@,
    {
        if src.len() != N {
            return Err(CustomError::MismatchInputLength);
        }
        let mut i: usize = 0;
        while i < N
            invariant
                i <= N,
                src@.len() == N,
                forall|j: int| 0 <= j < i ==> self.0@[j] == src@[j],
            decreases N - i,
        {
            self.0[i] = src[i];
            i += 1;
        }
        assert(self.0@ =~= src@);
        Ok(())
    }

    /// Store a single element. Lets a producer that computes its data one
    /// element at a time fill the buffer in place.
    pub fn set(&mut self, i: usize, x: T) -> (r: Result<(), CustomError>)
        ensures
            i < N ==> r == Ok::<(), CustomError>(()) && final(self)@ == old(self)@.update(i as int, x),
            i >= N ==> r == Err::<(), CustomError>(CustomError::InvalidIndex)
                && final(self)@ == old(self)@,
    {
        if i < N {
            self.0[i] = x;
            Ok(())
        } else {
            Err(CustomError::InvalidIndex)
        }
    }
}

impl<T: Copy + Default, const N: usize> Deref for Buffer<T, N> {
    type Target = [T];

    fn deref(&self) -> (r: &[T])
        ensures
            r@ == self@,
    {
        self.0.as_slice()
    }
}

} // verus!
