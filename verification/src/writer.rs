//! An append-only byte buffer for outgoing datagrams.

use vstd::prelude::*;
use crate::wire::{le16_bytes, le32_bytes};

verus! {

/// Collects the bytes of an outgoing message.
pub struct Writer {
    buffer: Vec<u8>,
}

impl View for Writer {
    type V = Seq<u8>;

    closed spec fn view(&self) -> Seq<u8> {
        self.buffer@
    }
}

impl Writer {
    pub fn new() -> (w: Self)
        ensures
            w@ == Seq::<u8>::empty(),
    {
        Writer { buffer: Vec::new() }
    }

    pub fn append_u8(&mut self, value: u8)
        ensures
            final(self)@ == old(self)@.push(value),
    {
        self.buffer.push(value);
    }

    pub fn append_u16le(&mut self, value: u16)
        ensures
            final(self)@ == old(self)@ + le16_bytes(value),
    {
        self.buffer.push((value % 256) as u8);
        self.buffer.push((value / 256) as u8);
        assert(self.buffer@ =~= old(self)@ + le16_bytes(value));
    }

    pub fn append_u32le(&mut self, value: u32)
        ensures
            final(self)@ == old(self)@ + le32_bytes(value),
    {
        self.buffer.push((value % 256) as u8);
        self.buffer.push(((value / 256) % 256) as u8);
        self.buffer.push(((value / 65536) % 256) as u8);
        self.buffer.push((value / 16777216) as u8);
        assert(self.buffer@ =~= old(self)@ + le32_bytes(value));
    }

    pub fn append_bytes(&mut self, value: &[u8])
        ensures
            final(self)@ == old(self)@ + value@,
    {
        let mut i: usize = 0;
        while i < value.len()
            invariant
                i <= value@.len(),
                self.buffer@ == old(self)@ + value@.take(i as int),
            decreases value@.len() - i,
        {
            self.buffer.push(value[i]);
            i = i + 1;
            assert(self.buffer@ =~= old(self)@ + value@.take(i as int));
        }
        assert(value@.take(i as int) =~= value@);
    }

    pub fn contents(&self) -> (r: &[u8])
        ensures
            r@ == self@,
    {
        self.buffer.as_slice()
    }
}

} // verus!
