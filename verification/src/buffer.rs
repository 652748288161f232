//! A growable output buffer of bytes.
use vstd::prelude::*;
use crate::binio::{be16_bytes, be32_bytes, push_bytes, push_u16, push_u32};

verus! {

/// Bytes written so far; every write appends.
pub struct Buffer {
    pub data: Vec<u8>,
}

impl View for Buffer {
    type V = Seq<u8>;

    open spec fn view(&self) -> Seq<u8> {
        self.data@
    }
}

impl Buffer {
    /// An empty buffer.
    pub fn new() -> (b: Buffer)
        ensures
            b@ == Seq::<u8>::empty(),
    {
        Buffer { data: Vec::new() }
    }

    /// How many bytes have been written.
    pub fn pos(&self) -> (r: usize)
        ensures
            r == self@.len(),
    {
        self.data.len()
    }

    /// Appends `bytes`.
    pub fn write_bytes(&mut self, bytes: &[u8])
        ensures
            final(self)@ == old(self)@ + bytes@,
    {
        push_bytes(&mut self.data, bytes);
    }

    /// Appends `x` as two big-endian bytes.
    pub fn write_u16be(&mut self, x: u16)
        ensures
            final(self)@ == old(self)@ + be16_bytes(x),
    {
        push_u16(&mut self.data, x);
    }

    /// Appends `x` as four big-endian bytes.
    pub fn write_u32be(&mut self, x: u32)
        ensures
            final(self)@ == old(self)@ + be32_bytes(x),
    {
        push_u32(&mut self.data, x);
    }
}

} // verus!
