use vstd::prelude::*;
use crate::error::Error;

verus! {

/// `d` with `b` written from `pos`, over what was there and past its end.
pub open spec fn written(d: Seq<u8>, pos: int, b: Seq<u8>) -> Seq<u8> {
    if pos + b.len() < d.len() {
        d.subrange(0, pos) + b + d.subrange(pos + b.len(), d.len() as int)
    } else {
        d.subrange(0, pos) + b
    }
}

/// The big-endian bytes of a 16-bit value.
pub open spec fn be16_bytes(n: u16) -> Seq<u8> {
    seq![(n / 256) as u8, (n % 256) as u8]
}

/// The big-endian bytes of a 32-bit value.
pub open spec fn be32_bytes(n: u32) -> Seq<u8> {
    be16_bytes((n / 65536) as u16) + be16_bytes((n % 65536) as u16)
}

/// A stream of bytes with a position, read and written in big-endian order.
#[derive(Debug)]
pub struct File {
    pub data: Vec<u8>,
    pub pos: usize,
}

impl File {
    /// A stream over the bytes of a file, at its start.
    pub fn open(data: Vec<u8>) -> (r: Self)
        ensures
            r.data@ == data@,
            r.pos == 0,
    {
        File { data, pos: 0 }
    }

    pub open spec fn wf(&self) -> bool {
        self.pos <= self.data@.len()
    }

    /// Moves to `off`, which must lie inside the stream.
    pub fn seek(&mut self, off: u64) -> (r: Result<(), Error>)
        ensures
            final(self).data == old(self).data,
            off <= old(self).data@.len() ==> r is Ok && final(self).pos == off,
            off > old(self).data@.len() ==> r == Err::<(), Error>(Error::EndOfData) && final(self).pos == old(self).pos,
    {
        if off > self.data.len() as u64 {
            return Err(Error::EndOfData);
        }
        self.pos = off as usize;
        Ok(())
    }

    /// The rest of the stream.
    pub fn read_all(&mut self) -> (r: Vec<u8>)
        requires
            old(self).wf(),
        ensures
            r@ == old(self).data@.subrange(old(self).pos as int, old(self).data@.len() as int),
            final(self).pos == old(self).data@.len(),
            final(self).data == old(self).data,
    {
        let n = self.data.len();
        let r = crate::memlist::copy_range(&self.data, self.pos, n - self.pos);
        self.pos = n;
        r
    }

    /// Fills `buf` from the stream, or fails where too few bytes are left.
    pub fn read(&mut self, buf: &mut [u8]) -> (r: Result<(), Error>)
        requires
            old(self).wf(),
        ensures
            final(self).data == old(self).data,
            final(self).wf(),
            old(self).pos + old(buf)@.len() <= old(self).data@.len() ==> r is Ok && final(buf)@ == old(self).data@.subrange(
                old(self).pos as int,
                old(self).pos + old(buf)@.len(),
            ) && final(self).pos == old(self).pos + old(buf)@.len(),
            old(self).pos + old(buf)@.len() > old(self).data@.len() ==> r == Err::<(), Error>(Error::EndOfData)
                && final(self).pos == old(self).pos && final(buf)@ == old(buf)@,
    {
        let n = buf.len();
        if n > self.data.len() - self.pos {
            return Err(Error::EndOfData);
        }
        let mut i: usize = 0;
        while i < n
            invariant
                i <= n,
                n == buf@.len(),
                n == old(buf)@.len(),
                self.pos + n <= self.data@.len(),
                self.data@.len() <= usize::MAX,
                self.data == old(self).data,
                self.pos == old(self).pos,
                forall|k: int| 0 <= k < i ==> #[trigger] buf@[k] == self.data@[self.pos + k],
            decreases n - i,
        {
            buf[i] = self.data[self.pos + i];
            i = i + 1;
        }
        assert(buf@ =~= self.data@.subrange(self.pos as int, self.pos + n));
        self.pos = self.pos + n;
        Ok(())
    }

    pub fn read_u8(&mut self) -> (r: Result<u8, Error>)
        requires
            old(self).wf(),
        ensures
            final(self).data == old(self).data,
            final(self).wf(),
            old(self).pos < old(self).data@.len() ==> r == Ok::<u8, Error>(old(self).data@[old(self).pos as int])
                && final(self).pos == old(self).pos + 1,
            old(self).pos >= old(self).data@.len() ==> r == Err::<u8, Error>(Error::EndOfData) && final(self).pos
                == old(self).pos,
    {
        if self.pos >= self.data.len() {
            return Err(Error::EndOfData);
        }
        let b = self.data[self.pos];
        self.pos = self.pos + 1;
        Ok(b)
    }

    pub fn read_u16(&mut self) -> (r: Result<u16, Error>)
        requires
            old(self).wf(),
        ensures
            final(self).data == old(self).data,
            final(self).wf(),
            old(self).pos + 2 <= old(self).data@.len() ==> r is Ok && r->Ok_0 as nat == crate::memlist::be16(
                old(self).data@,
                old(self).pos as int,
            ) && final(self).pos == old(self).pos + 2,
            old(self).pos + 2 > old(self).data@.len() ==> r == Err::<u16, Error>(Error::EndOfData),
    {
        if self.data.len() - self.pos < 2 {
            return Err(Error::EndOfData);
        }
        let hi = self.read_u8()?;
        let lo = self.read_u8()?;
        Ok((hi as u16) * 256 + lo as u16)
    }

    pub fn read_u32(&mut self) -> (r: Result<u32, Error>)
        requires
            old(self).wf(),
        ensures
            final(self).data == old(self).data,
            final(self).wf(),
            old(self).pos + 4 <= old(self).data@.len() ==> r is Ok && r->Ok_0 as nat == crate::memlist::be32(
                old(self).data@,
                old(self).pos as int,
            ) && final(self).pos == old(self).pos + 4,
            old(self).pos + 4 > old(self).data@.len() ==> r == Err::<u32, Error>(Error::EndOfData),
    {
        if self.data.len() - self.pos < 4 {
            return Err(Error::EndOfData);
        }
        let hi = self.read_u16()?;
        let lo = self.read_u16()?;
        Ok((hi as u32) * 65536 + lo as u32)
    }

    /// Writes `buf` at the position, over what is there and past the end.
    pub fn write(&mut self, buf: &[u8]) -> (r: Result<(), Error>)
        requires
            old(self).wf(),
            old(self).pos + buf@.len() <= usize::MAX,
        ensures
            r is Ok,
            final(self).wf(),
            final(self).data@ == written(old(self).data@, old(self).pos as int, buf@),
            final(self).pos == old(self).pos + buf@.len(),
    {
        let mut i: usize = 0;
        let n = buf.len();
        while i < n
            invariant
                i <= n,
                n == buf@.len(),
                old(self).pos + n <= usize::MAX,
                self.pos == old(self).pos + i,
                self.data@ == written(old(self).data@, old(self).pos as int, buf@.subrange(0, i as int)),
                old(self).pos <= old(self).data@.len(),
            decreases n - i,
        {
            let ghost before = self.data@;
            if self.pos < self.data.len() {
                self.data.set(self.pos, buf[i]);
            } else {
                self.data.push(buf[i]);
            }
            self.pos = self.pos + 1;
            i = i + 1;
            assert(self.data@ =~= written(old(self).data@, old(self).pos as int, buf@.subrange(0, i as int)));
        }
        assert(buf@.subrange(0, n as int) =~= buf@);
        Ok(())
    }

    pub fn write_u8(&mut self, b: u8) -> (r: Result<(), Error>)
        requires
            old(self).wf(),
            old(self).pos + 1 <= usize::MAX,
        ensures
            r is Ok,
            final(self).wf(),
            final(self).data@ == written(old(self).data@, old(self).pos as int, seq![b]),
            final(self).pos == old(self).pos + 1,
    {
        let buf: Vec<u8> = vec![b];
        assert(buf@ =~= seq![b]);
        self.write(buf.as_slice())
    }

    pub fn write_u16(&mut self, n: u16) -> (r: Result<(), Error>)
        requires
            old(self).wf(),
            old(self).pos + 2 <= usize::MAX,
        ensures
            r is Ok,
            final(self).wf(),
            final(self).data@ == written(old(self).data@, old(self).pos as int, be16_bytes(n)),
            final(self).pos == old(self).pos + 2,
    {
        let buf: Vec<u8> = vec![(n / 256) as u8, (n % 256) as u8];
        assert(buf@ =~= be16_bytes(n));
        self.write(buf.as_slice())
    }

    pub fn write_u32(&mut self, n: u32) -> (r: Result<(), Error>)
        requires
            old(self).wf(),
            old(self).pos + 4 <= usize::MAX,
        ensures
            r is Ok,
            final(self).wf(),
            final(self).data@ == written(old(self).data@, old(self).pos as int, be32_bytes(n)),
            final(self).pos == old(self).pos + 4,
    {
        let hi = (n / 65536) as u16;
        let lo = (n % 65536) as u16;
        let buf: Vec<u8> = vec![(hi / 256) as u8, (hi % 256) as u8, (lo / 256) as u8, (lo % 256) as u8];
        assert(buf@ =~= be32_bytes(n));
        self.write(buf.as_slice())
    }

    /// Writes a value held in `buf` low byte first (1, 2 or 4 bytes) with its
    /// high byte first.
    pub fn write_be(&mut self, buf: &[u8]) -> (r: Result<(), Error>)
        requires
            old(self).wf(),
            old(self).pos + 4 <= usize::MAX,
        ensures
            final(self).wf(),
            buf@.len() == 1 || buf@.len() == 2 || buf@.len() == 4 ==> r is Ok && final(self).data@ == written(
                old(self).data@,
                old(self).pos as int,
                buf@.reverse(),
            ),
            !(buf@.len() == 1 || buf@.len() == 2 || buf@.len() == 4) ==> r == Err::<(), Error>(Error::UnsupportedSize)
                && final(self).data == old(self).data,
    {
        let n = buf.len();
        if n != 1 && n != 2 && n != 4 {
            return Err(Error::UnsupportedSize);
        }
        let mut rev: Vec<u8> = Vec::new();
        let mut i: usize = n;
        while i > 0
            invariant
                i <= n,
                n == buf@.len(),
                rev@ == buf@.subrange(i as int, n as int).reverse(),
            decreases i,
        {
            i = i - 1;
            rev.push(buf[i]);
            assert(rev@ =~= buf@.subrange(i as int, n as int).reverse());
        }
        assert(buf@.subrange(0, n as int) =~= buf@);
        self.write(rev.as_slice())
    }
}

} // verus!
