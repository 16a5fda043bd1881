use vstd::prelude::*;

verus! {

/// Bytes read front to back from a position.
#[derive(Clone, Debug)]
pub struct SliceReader {
    pub pos: usize,
    pub data: Vec<u8>,
}

impl SliceReader {
    pub fn new(data: Vec<u8>) -> (r: Self)
        ensures
            r.pos == 0,
            r.data@ == data@,
    {
        SliceReader { pos: 0, data }
    }

    pub fn is_empty(&self) -> (r: bool)
        ensures
            r == (self.data@.len() == 0),
    {
        self.data.len() == 0
    }

    /// Some byte is left at the position.
    pub fn can_read(&self) -> (r: bool)
        ensures
            r == (self.pos < self.data@.len()),
    {
        self.pos < self.data.len()
    }

    /// At least `n` bytes are left at the position.
    pub fn has(&self, n: usize) -> (r: bool)
        ensures
            r == (self.pos + n <= self.data@.len()),
    {
        self.pos <= self.data.len() && n <= self.data.len() - self.pos
    }

    pub fn pos(&self) -> (r: usize)
        ensures
            r == self.pos,
    {
        self.pos
    }

    pub fn set_pos(&mut self, pos: usize)
        ensures
            final(self).pos == pos,
            final(self).data == old(self).data,
    {
        self.pos = pos;
    }

    /// A copy of the bytes from `start` up to `end`.
    pub fn get_slice(&self, start: usize, end: usize) -> (r: Vec<u8>)
        requires
            start <= end <= self.data@.len(),
        ensures
            r@ == self.data@.subrange(start as int, end as int),
    {
        crate::memlist::copy_range(&self.data, start, end - start)
    }

    pub fn get_data(&self) -> (r: &Vec<u8>)
        ensures
            r@ == self.data@,
    {
        &self.data
    }

    pub fn read_u8(&mut self) -> (r: u8)
        requires
            old(self).pos < old(self).data@.len(),
        ensures
            r == old(self).data@[old(self).pos as int],
            final(self).pos == old(self).pos + 1,
            final(self).data == old(self).data,
    {
        // Reading the length bounds it by usize::MAX.
        let _len = self.data.len();
        let addr = self.pos;
        self.pos = self.pos + 1;
        self.data[addr]
    }

    /// The big-endian 16-bit value at the position.
    pub fn read_u16(&mut self) -> (r: u16)
        requires
            old(self).pos + 2 <= old(self).data@.len(),
        ensures
            r as nat == crate::memlist::be16(old(self).data@, old(self).pos as int),
            final(self).pos == old(self).pos + 2,
            final(self).data == old(self).data,
    {
        // Reading the length bounds it by usize::MAX.
        let _len = self.data.len();
        let addr = self.pos;
        self.pos = self.pos + 2;
        (self.data[addr] as u16) * 256 + self.data[addr + 1] as u16
    }
}

} // verus!
