//! A run of bytes that is read from the front.

use vstd::prelude::*;
use vstd::slice::slice_subrange;

use crate::text::copy_bytes;

verus! {

/// Reads bytes from the front of a slice. Its view is the bytes that are left.
pub struct ByteReader<'a> {
    rest: &'a [u8],
}

impl<'a> View for ByteReader<'a> {
    type V = Seq<u8>;

    closed spec fn view(&self) -> Seq<u8> {
        self.rest@
    }
}

impl<'a> ByteReader<'a> {
    /// A reader before the first byte of `data`.
    pub fn new(data: &'a [u8]) -> (reader: Self)
        ensures
            reader@ == data@,
    {
        ByteReader { rest: data }
    }

    /// How many bytes are left.
    pub fn remaining(&self) -> (n: usize)
        ensures
            n == self@.len(),
    {
        self.rest.len()
    }

    /// Takes the next `n` bytes, or nothing where fewer are left.
    pub fn read_exact(&mut self, n: u64) -> (bytes: Option<Vec<u8>>)
        ensures
            match bytes {
                Some(b) => {
                    &&& n <= old(self)@.len()
                    &&& b@ == old(self)@.take(n as int)
                    &&& final(self)@ == old(self)@.skip(n as int)
                },
                None => n > old(self)@.len() && final(self)@ == old(self)@,
            },
    {
        if n > self.rest.len() as u64 {
            return None;
        }
        let n = n as usize;
        let bytes = copy_bytes(slice_subrange(self.rest, 0, n));
        self.rest = slice_subrange(self.rest, n, self.rest.len());
        Some(bytes)
    }
}

} // verus!
