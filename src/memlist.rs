use vstd::prelude::*;
use crate::error::Error;

verus! {

/// Where a resource is in its life.
#[derive(Clone, Copy, Debug, PartialEq, Eq, Structural)]
pub enum MemEntryState {
    NotNeeded,
    Loaded,
    LoadMe,
    EndOfMemList,
}

/// The state that a directory byte stands for.
pub open spec fn state_of(b: u8) -> Result<MemEntryState, Error> {
    if b == 0 {
        Ok(MemEntryState::NotNeeded)
    } else if b == 1 {
        Ok(MemEntryState::Loaded)
    } else if b == 2 {
        Ok(MemEntryState::LoadMe)
    } else if b == 0xFF {
        Ok(MemEntryState::EndOfMemList)
    } else {
        Err(Error::Directory)
    }
}

impl MemEntryState {
    pub fn new(state: u8) -> (r: Result<Self, Error>)
        ensures
            r == state_of(state),
    {
        if state == 0 {
            Ok(MemEntryState::NotNeeded)
        } else if state == 1 {
            Ok(MemEntryState::Loaded)
        } else if state == 2 {
            Ok(MemEntryState::LoadMe)
        } else if state == 0xFF {
            Ok(MemEntryState::EndOfMemList)
        } else {
            Err(Error::Directory)
        }
    }
}

/// What a resource holds.
#[derive(Clone, Copy, Debug, PartialEq, Eq, Structural)]
pub enum ResType {
    Sound,
    Music,
    /// A full-screen image.
    PolyAnim,
    Palette,
    Bytecode,
    PolyCinematic,
    Unknown(u8),
}

/// The kind that a directory byte stands for; other codes are kept as they are.
pub open spec fn res_type_of(code: u8) -> ResType {
    if code == 0 {
        ResType::Sound
    } else if code == 1 {
        ResType::Music
    } else if code == 2 {
        ResType::PolyAnim
    } else if code == 3 {
        ResType::Palette
    } else if code == 4 {
        ResType::Bytecode
    } else if code == 5 {
        ResType::PolyCinematic
    } else {
        ResType::Unknown(code)
    }
}

impl ResType {
    pub fn new(code: u8) -> (r: Self)
        ensures
            r == res_type_of(code),
    {
        if code == 0 {
            ResType::Sound
        } else if code == 1 {
            ResType::Music
        } else if code == 2 {
            ResType::PolyAnim
        } else if code == 3 {
            ResType::Palette
        } else if code == 4 {
            ResType::Bytecode
        } else if code == 5 {
            ResType::PolyCinematic
        } else {
            ResType::Unknown(code)
        }
    }
}

/// One descriptor of the resource directory.
#[derive(Debug)]
pub struct MemEntry {
    pub state: MemEntryState,
    pub res_type: ResType,
    pub buf_offset: usize,
    pub unk4: u16,
    pub rank_num: u8,
    pub bank_id: u8,
    pub bank_offset: u64,
    pub unk_c: u16,
    pub packed_size: usize,
    pub unk10: u16,
    pub size: usize,
    pub buffer: Vec<u8>,
}

impl MemEntry {
    pub fn from_buf_u8(&self, offset: usize) -> (r: u8)
        requires
            offset < self.buffer@.len(),
        ensures
            r == self.buffer@[offset as int],
    {
        self.buffer[offset]
    }

    pub fn from_buf_be_u16(&self, offset: usize) -> (r: u16)
        requires
            offset + 1 < self.buffer@.len(),
        ensures
            r as nat == be16(self.buffer@, offset as int),
    {
        // Reading the length bounds it by usize::MAX.
        let _len = self.buffer.len();
        (self.buffer[offset] as u16) * 256 + self.buffer[offset + 1] as u16
    }

    /// A copy of `size` bytes of the buffer from `offset`.
    pub fn to_slice(&self, offset: usize, size: usize) -> (r: Vec<u8>)
        requires
            offset + size <= self.buffer@.len(),
        ensures
            r@ == self.buffer@.subrange(offset as int, offset + size),
    {
        copy_range(&self.buffer, offset, size)
    }

    /// Overwrites the buffer from `offset` with `src`.
    pub fn from_slice(&mut self, src: &[u8], offset: usize)
        requires
            offset + src@.len() <= old(self).buffer@.len(),
        ensures
            final(self).buffer@ == old(self).buffer@.subrange(0, offset as int) + src@
                + old(self).buffer@.subrange(offset + src@.len(), old(self).buffer@.len() as int),
            *final(self) == (MemEntry { buffer: final(self).buffer, ..*old(self) }),
    {
        let mut i: usize = 0;
        // Reading the length bounds it by usize::MAX.
        let _len = self.buffer.len();
        while i < src.len()
            invariant
                i <= src@.len(),
                self.buffer@.len() <= usize::MAX,
                offset + src@.len() <= old(self).buffer@.len(),
                self.buffer@.len() == old(self).buffer@.len(),
                *self == (MemEntry { buffer: self.buffer, ..*old(self) }),
                forall|k: int| 0 <= k < self.buffer@.len() ==> #[trigger] self.buffer@[k] == if offset <= k < offset + i {
                    src@[k - offset]
                } else {
                    old(self).buffer@[k]
                },
            decreases src@.len() - i,
        {
            self.buffer.set(offset + i, src[i]);
            i = i + 1;
        }
        assert(self.buffer@ =~= old(self).buffer@.subrange(0, offset as int) + src@
            + old(self).buffer@.subrange(offset + src@.len(), old(self).buffer@.len() as int));
    }

    /// The resource's bytes.
    pub fn read_bank(&self) -> (r: &Vec<u8>)
        ensures
            r@ == self.buffer@,
    {
        &self.buffer
    }
}

/// Size of one record of the directory file.
pub const RECORD_SIZE: usize = 20;

/// The state byte of record `k`.
pub open spec fn rec_state(d: Seq<u8>, k: int) -> u8 {
    d[20 * k]
}

/// The directory holds `n` descriptors: `n` whole records with a known state,
/// then a whole record whose state byte ends the table.
pub open spec fn dir_has(d: Seq<u8>, n: nat) -> bool {
    &&& 20 * n + 20 <= d.len()
    &&& rec_state(d, n as int) == 0xFF
    &&& forall|k: int| 0 <= k < n ==> #[trigger] rec_state(d, k) <= 2
}

/// The descriptor that record `k` encodes, with an empty buffer.
pub open spec fn entry_is(e: MemEntry, d: Seq<u8>, k: int) -> bool {
    entry_fields(e, d, k) && e.buffer@.len() == 0
}

/// The fields of the descriptor that record `k` encodes.
pub open spec fn entry_fields(e: MemEntry, d: Seq<u8>, k: int) -> bool {
    let o = 20 * k;
    &&& state_of(d[o]) == Ok::<MemEntryState, Error>(e.state)
    &&& e.res_type == res_type_of(d[o + 1])
    &&& e.buf_offset as nat == be16(d, o + 2)
    &&& e.rank_num == d[o + 6]
    &&& e.bank_id == d[o + 7]
    &&& e.bank_offset as nat == be32(d, o + 8)
    &&& e.packed_size as nat == be16(d, o + 14)
    &&& e.size as nat == be16(d, o + 18)
}

/// The resource directory.
#[derive(Debug)]
pub struct MemList {
    pub entries: Vec<MemEntry>,
}

impl MemList {
    pub fn new() -> (r: Self)
        ensures
            r.entries@.len() == 0,
    {
        MemList { entries: Vec::new() }
    }

    /// Reads the descriptor table from the bytes of the directory file.
    pub fn load(&mut self, data: &[u8]) -> (r: Result<(), Error>)
        ensures
            r is Ok <==> exists|n: nat| dir_has(data@, n),
            r is Ok ==> dir_has(data@, final(self).entries@.len()) && forall|k: int|
                0 <= k < final(self).entries@.len() ==> entry_is(#[trigger] final(self).entries@[k], data@, k),
            r is Err ==> r == Err::<(), Error>(Error::Directory) && final(self).entries@ == old(self).entries@,
    {
        let mut entries: Vec<MemEntry> = Vec::new();
        let mut off: usize = 0;
        let len = data.len();
        loop
            invariant
                len == data@.len(),
                off == 20 * entries@.len(),
                off <= len + 20,
                forall|k: int| 0 <= k < entries@.len() ==> #[trigger] rec_state(data@, k) <= 2 && 20 * k + 20 <= len,
                forall|k: int| 0 <= k < entries@.len() ==> entry_is(#[trigger] entries@[k], data@, k),
                self.entries@ == old(self).entries@,
            decreases len + 20 - off,
        {
            if len < RECORD_SIZE || off > len - RECORD_SIZE {
                proof {
                    assert forall|n: nat| !dir_has(data@, n) by {
                        if dir_has(data@, n) && n > entries@.len() {
                            assert(rec_state(data@, entries@.len() as int) <= 2);
                        }
                    }
                }
                return Err(Error::Directory);
            }
            let state = match MemEntryState::new(data[off]) {
                Ok(s) => s,
                Err(e) => {
                    proof {
                        assert forall|n: nat| !dir_has(data@, n) by {
                            if dir_has(data@, n) && n > entries@.len() {
                                assert(rec_state(data@, entries@.len() as int) <= 2);
                            }
                        }
                    }
                    return Err(e);
                },
            };
            if state == MemEntryState::EndOfMemList {
                assert(dir_has(data@, entries@.len()));
                self.entries = entries;
                return Ok(());
            }
            let entry = MemEntry {
                state,
                res_type: ResType::new(data[off + 1]),
                buf_offset: read_be16(data, off + 2) as usize,
                unk4: read_be16(data, off + 4),
                rank_num: data[off + 6],
                bank_id: data[off + 7],
                bank_offset: (read_be16(data, off + 8) as u64) * 65536 + read_be16(data, off + 10) as u64,
                unk_c: read_be16(data, off + 12),
                packed_size: read_be16(data, off + 14) as usize,
                unk10: read_be16(data, off + 16),
                size: read_be16(data, off + 18) as usize,
                buffer: Vec::new(),
            };
            entries.push(entry);
            off = off + RECORD_SIZE;
        }
    }

    /// Marks every resource but palettes and bytecode as not needed.
    pub fn invalidate_res(&mut self)
        ensures
            final(self).entries@.len() == old(self).entries@.len(),
            forall|k: int| 0 <= k < final(self).entries@.len() ==> #[trigger] final(self).entries@[k] == (
            if spared_by_res(old(self).entries@[k].res_type) {
                old(self).entries@[k]
            } else {
                dropped(old(self).entries@[k])
            }),
    {
        let mut i: usize = 0;
        while i < self.entries.len()
            invariant
                i <= self.entries@.len(),
                self.entries@.len() == old(self).entries@.len(),
                forall|k: int| 0 <= k < self.entries@.len() ==> #[trigger] self.entries@[k] == (
                if k >= i || spared_by_res(old(self).entries@[k].res_type) {
                    old(self).entries@[k]
                } else {
                    dropped(old(self).entries@[k])
                }),
            decreases old(self).entries@.len() - i,
        {
            let t = self.entries[i].res_type;
            if t != ResType::Palette && t != ResType::Bytecode {
                self.entries[i].state = MemEntryState::NotNeeded;
            }
            i = i + 1;
        }
    }

    /// Marks every resource as not needed.
    pub fn invalidate_all(&mut self)
        ensures
            final(self).entries@.len() == old(self).entries@.len(),
            forall|k: int| 0 <= k < final(self).entries@.len() ==> #[trigger] final(self).entries@[k] == dropped(
                old(self).entries@[k],
            ),
    {
        let mut i: usize = 0;
        while i < self.entries.len()
            invariant
                i <= self.entries@.len(),
                self.entries@.len() == old(self).entries@.len(),
                forall|k: int| 0 <= k < self.entries@.len() ==> #[trigger] self.entries@[k] == (if k >= i {
                    old(self).entries@[k]
                } else {
                    dropped(old(self).entries@[k])
                }),
            decreases old(self).entries@.len() - i,
        {
            self.entries[i].state = MemEntryState::NotNeeded;
            i = i + 1;
        }
    }
}

/// A directory has at most one length.
pub proof fn lemma_dir_unique(d: Seq<u8>, n: nat, m: nat)
    requires
        dir_has(d, n),
        dir_has(d, m),
    ensures
        n == m,
{
    if n < m {
        assert(rec_state(d, n as int) <= 2);
    } else if m < n {
        assert(rec_state(d, m as int) <= 2);
    }
}

/// The descriptor marked as not needed.
pub open spec fn dropped(e: MemEntry) -> MemEntry {
    MemEntry { state: MemEntryState::NotNeeded, ..e }
}

/// Kinds that routine invalidation leaves loaded.
pub open spec fn spared_by_res(t: ResType) -> bool {
    t == ResType::Palette || t == ResType::Bytecode
}

/// Reads the big-endian 16-bit value at `i`.
pub fn read_be16(d: &[u8], i: usize) -> (r: u16)
    requires
        i + 1 < d@.len(),
    ensures
        r as nat == be16(d@, i as int),
{
    (d[i] as u16) * 256 + d[i + 1] as u16
}

/// The big-endian 16-bit value at `i`.
pub open spec fn be16(d: Seq<u8>, i: int) -> nat {
    d[i] as nat * 256 + d[i + 1] as nat
}

/// The big-endian 32-bit value at `i`.
pub open spec fn be32(d: Seq<u8>, i: int) -> nat {
    be16(d, i) * 65536 + be16(d, i + 2)
}

/// A copy of `size` bytes of `v` from `offset`.
pub fn copy_range(v: &Vec<u8>, offset: usize, size: usize) -> (r: Vec<u8>)
    requires
        offset + size <= v@.len(),
    ensures
        r@ == v@.subrange(offset as int, offset + size),
{
    let mut out: Vec<u8> = Vec::new();
    let mut i: usize = 0;
    // Reading the length bounds it by usize::MAX.
    let _len = v.len();
    while i < size
        invariant
            i <= size,
            v@.len() <= usize::MAX,
            offset + size <= v@.len(),
            out@ == v@.subrange(offset as int, offset + i),
        decreases size - i,
    {
        out.push(v[offset + i]);
        i = i + 1;
        assert(out@ =~= v@.subrange(offset as int, offset + i));
    }
    out
}

} // verus!
