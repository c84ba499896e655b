//! Little-endian decoding of instruction operands.
use vstd::prelude::*;

verus! {

/// The value of two bytes read little-endian.
pub open spec fn le_u16(b: Seq<u8>, i: int) -> nat {
    (b[i] as nat) + 256 * (b[i + 1] as nat)
}

/// The value of four bytes read little-endian.
pub open spec fn le_u32(b: Seq<u8>, i: int) -> nat {
    le_u16(b, i) + 65536 * le_u16(b, i + 2)
}

/// The value of eight bytes read little-endian.
pub open spec fn le_u64(b: Seq<u8>, i: int) -> nat {
    le_u32(b, i) + 4294967296 * le_u32(b, i + 4)
}

/// A cursor over a byte buffer. Reading past the end is excluded by each
/// read's precondition.
#[derive(Debug)]
pub struct PanickingByteBufferReader<'a> {
    bytes: &'a [u8],
    i: usize,
}

impl<'a> PanickingByteBufferReader<'a> {
    pub closed spec fn buffer(&self) -> Seq<u8> {
        self.bytes@
    }

    pub closed spec fn pos(&self) -> nat {
        self.i as nat
    }

    pub fn new(bytes: &'a [u8]) -> (r: Self)
        ensures
            r.buffer() == bytes@,
            r.pos() == 0,
    {
        Self { bytes, i: 0 }
    }

    pub fn current_index(&self) -> (r: usize)
        ensures
            r == self.pos(),
    {
        self.i
    }

    pub fn is_at_end(&self) -> (r: bool)
        ensures
            r == (self.pos() >= self.buffer().len()),
    {
        self.i >= self.bytes.len()
    }

    pub fn read_u8(&mut self) -> (r: u8)
        requires
            old(self).pos() + 1 <= old(self).buffer().len(),
        ensures
            r == old(self).buffer()[old(self).pos() as int],
            final(self).buffer() == old(self).buffer(),
            final(self).pos() == old(self).pos() + 1,
    {
        let val = self.bytes[self.i];
        self.i = self.i + 1;
        val
    }

    pub fn read_u16_le(&mut self) -> (r: u16)
        requires
            old(self).pos() + 2 <= old(self).buffer().len(),
        ensures
            r == le_u16(old(self).buffer(), old(self).pos() as int),
            final(self).buffer() == old(self).buffer(),
            final(self).pos() == old(self).pos() + 2,
    {
        let b0 = self.bytes[self.i] as u16;
        let b1 = self.bytes[self.i + 1] as u16;
        self.i = self.i + 2;
        b0 + b1 * 256
    }

    pub fn read_u32_le(&mut self) -> (r: u32)
        requires
            old(self).pos() + 4 <= old(self).buffer().len(),
        ensures
            r == le_u32(old(self).buffer(), old(self).pos() as int),
            final(self).buffer() == old(self).buffer(),
            final(self).pos() == old(self).pos() + 4,
    {
        let lo = self.read_u16_le() as u32;
        let hi = self.read_u16_le() as u32;
        lo + hi * 65536
    }

    pub fn read_u64_le(&mut self) -> (r: u64)
        requires
            old(self).pos() + 8 <= old(self).buffer().len(),
        ensures
            r == le_u64(old(self).buffer(), old(self).pos() as int),
            final(self).buffer() == old(self).buffer(),
            final(self).pos() == old(self).pos() + 8,
    {
        let lo = self.read_u32_le() as u64;
        let hi = self.read_u32_le() as u64;
        lo + hi * 4294967296
    }
}

} // verus!
