use vstd::prelude::*;
use crate::error::Error;
use crate::memlist::MemEntry;

verus! {

/// Why a packed resource could not be unpacked.
#[derive(Clone, Copy, Debug, PartialEq, Eq, Structural)]
pub enum UnpackError {
    /// The running checksum was not zero once the output was complete.
    Checksum,
    /// The stream ended early, or a unit pointed outside the output buffer.
    Malformed,
}

/// The big-endian word made of the four bytes just before `pos`.
pub open spec fn be_word(p: Seq<u8>, pos: int) -> u32 {
    ((p[pos - 4] as u32) << 24u32) | ((p[pos - 3] as u32) << 16u32) | ((p[pos - 2] as u32) << 8u32)
        | (p[pos - 1] as u32)
}

/// The bit reader of the codec: words are taken from the back of the stream.
pub struct BitState {
    pub pos: nat,
    pub chk: u32,
    pub crc: u32,
}

/// One bit: a rotate right of the shift register; an empty register is refilled
/// from the next word, which is folded into the checksum.
pub open spec fn next_bit(p: Seq<u8>, s: BitState) -> Option<(BitState, bool)> {
    let chk1 = s.chk >> 1u32;
    if chk1 == 0 {
        if s.pos < 4 || s.pos > p.len() {
            None
        } else {
            let w = be_word(p, s.pos as int);
            Some((BitState { pos: (s.pos - 4) as nat, chk: (w >> 1u32) | 0x8000_0000u32, crc: s.crc ^ w }, w & 1 == 1))
        }
    } else {
        Some((BitState { chk: chk1, ..s }, s.chk & 1 == 1))
    }
}

/// `n` bits, the first one read being the most significant.
pub open spec fn bits(p: Seq<u8>, s: BitState, n: nat) -> Option<(BitState, nat)>
    decreases n,
{
    if n == 0 {
        Some((s, 0))
    } else {
        match bits(p, s, (n - 1) as nat) {
            None => None,
            Some((s1, v)) => match next_bit(p, s1) {
                None => None,
                Some((s2, b)) => Some((s2, 2 * v + if b { 1nat } else { 0nat })),
            },
        }
    }
}


/// The whole decoder state: the bit reader, the output buffer and the write
/// position (bytes still to produce, which are also the free slots in front).
pub struct Dec {
    pub bits: BitState,
    pub buf: Seq<u8>,
    pub wpos: nat,
}

/// `k` literal bytes, eight bits each, written back to front.
pub open spec fn literals(p: Seq<u8>, d: Dec, k: nat) -> Option<Dec>
    decreases k,
{
    if k == 0 {
        Some(d)
    } else {
        match literals(p, d, (k - 1) as nat) {
            None => None,
            Some(d1) => match bits(p, d1.bits, 8) {
                None => None,
                Some((b, v)) => if d1.wpos == 0 {
                    None
                } else {
                    Some(Dec { bits: b, buf: d1.buf.update(d1.wpos - 1, v as u8), wpos: (d1.wpos - 1) as nat })
                },
            },
        }
    }
}

/// `k` bytes copied from `off` places behind the write position.
pub open spec fn copies(d: Dec, off: nat, k: nat) -> Dec
    decreases k,
{
    if k == 0 {
        d
    } else {
        let d1 = copies(d, off, (k - 1) as nat);
        Dec {
            bits: d1.bits,
            buf: d1.buf.update(d1.wpos - 1, d1.buf[d1.wpos + off - 1]),
            wpos: (d1.wpos - 1) as nat,
        }
    }
}

/// A literal run: a `width`-bit count field, plus `add` plus one bytes.
pub open spec fn literal_run(p: Seq<u8>, d: Dec, width: nat, add: nat) -> Option<Dec> {
    match bits(p, d.bits, width) {
        None => None,
        Some((b, v)) => if v + add + 1 > d.wpos {
            None
        } else {
            literals(p, Dec { bits: b, ..d }, v + add + 1)
        },
    }
}

/// A back-reference of `len` plus one bytes with a `width`-bit offset field.
/// The offset must point at a byte already written.
pub open spec fn back_ref(p: Seq<u8>, d: Dec, width: nat, len: nat) -> Option<Dec> {
    match bits(p, d.bits, width) {
        None => None,
        Some((b, off)) => if len + 1 > d.wpos || off == 0 || d.wpos + off - 1 >= d.buf.len() {
            None
        } else {
            Some(copies(Dec { bits: b, ..d }, off, len + 1))
        },
    }
}

/// One unit of the stream, chosen by its leading bits.
pub open spec fn unit(p: Seq<u8>, d: Dec) -> Option<Dec> {
    match next_bit(p, d.bits) {
        None => None,
        Some((b1, bit)) => if !bit {
            match next_bit(p, b1) {
                None => None,
                Some((b2, bit2)) => if !bit2 {
                    literal_run(p, Dec { bits: b2, ..d }, 3, 0)
                } else {
                    back_ref(p, Dec { bits: b2, ..d }, 8, 1)
                },
            }
        } else {
            match bits(p, b1, 2) {
                None => None,
                Some((b2, c)) => if c == 3 {
                    literal_run(p, Dec { bits: b2, ..d }, 8, 8)
                } else if c < 2 {
                    back_ref(p, Dec { bits: b2, ..d }, c + 9, c + 2)
                } else {
                    match bits(p, b2, 8) {
                        None => None,
                        Some((b3, len)) => back_ref(p, Dec { bits: b3, ..d }, 12, len),
                    }
                },
            }
        },
    }
}

/// Units until the output is full.
pub open spec fn run(p: Seq<u8>, d: Dec) -> Option<Dec>
    decreases d.wpos,
{
    if d.wpos == 0 {
        Some(d)
    } else {
        match unit(p, d) {
            None => None,
            Some(d2) => if d2.wpos < d.wpos {
                run(p, d2)
            } else {
                None
            },
        }
    }
}

/// The state after the three header words: output size, checksum, first shift register.
pub open spec fn start(p: Seq<u8>) -> Dec {
    let size = be_word(p, p.len() as int);
    let crc = be_word(p, p.len() - 4);
    let chk = be_word(p, p.len() - 8);
    Dec {
        bits: BitState { pos: (p.len() - 12) as nat, chk, crc: crc ^ chk },
        buf: Seq::new(size as nat, |i: int| 0u8),
        wpos: size as nat,
    }
}

/// What unpacking a packed stream gives.
pub open spec fn unpack_spec(p: Seq<u8>) -> Result<Seq<u8>, UnpackError> {
    if p.len() < 12 {
        Err(UnpackError::Malformed)
    } else {
        match run(p, start(p)) {
            None => Err(UnpackError::Malformed),
            Some(d) => if d.bits.crc == 0 {
                Ok(d.buf)
            } else {
                Err(UnpackError::Checksum)
            },
        }
    }
}

/// What loading a resource from its bank gives: `packed` bytes at `offset`,
/// kept as they are when they are as long as the resource, unpacked otherwise;
/// the result must be `size` bytes long.
pub open spec fn load_entry(bank: Seq<u8>, offset: nat, packed: nat, size: nat) -> Result<Seq<u8>, Error> {
    if offset + packed > bank.len() {
        Err(Error::BankRange)
    } else {
        let raw = bank.subrange(offset as int, (offset + packed) as int);
        if packed == size {
            Ok(raw)
        } else {
            match unpack_spec(raw) {
                Err(UnpackError::Checksum) => Err(Error::Checksum),
                Err(UnpackError::Malformed) => Err(Error::Malformed),
                Ok(v) => if v.len() == size {
                    Ok(v)
                } else {
                    Err(Error::SizeMismatch)
                },
            }
        }
    }
}

/// Whatever a descriptor loads is exactly as long as the size it declares.
pub proof fn load_entry_has_declared_size(bank: Seq<u8>, offset: nat, packed: nat, size: nat)
    requires
        load_entry(bank, offset, packed, size) is Ok,
    ensures
        load_entry(bank, offset, packed, size)->Ok_0.len() == size,
{
}

/// `q` differs from `p` at most in the checksum word, the second word from the end.
pub open spec fn same_but_checksum(p: Seq<u8>, q: Seq<u8>) -> bool {
    &&& p.len() == q.len()
    &&& p.len() >= 12
    &&& forall|i: int| 0 <= i < p.len() && !(p.len() - 8 <= i < p.len() - 4) ==> #[trigger] q[i] == p[i]
}

/// Two bit readers at the same place, whose checksums differ by `x`.
pub open spec fn bits_rel(s: BitState, t: BitState, x: u32, lim: int) -> bool {
    s.pos == t.pos && s.chk == t.chk && t.crc == s.crc ^ x && s.pos <= lim
}

/// Two decoder states alike but for their checksums, which differ by `x`.
pub open spec fn dec_rel(d: Dec, e: Dec, x: u32, lim: int) -> bool {
    bits_rel(d.bits, e.bits, x, lim) && d.buf == e.buf && d.wpos == e.wpos
}

proof fn lemma_next_bit_rel(p: Seq<u8>, q: Seq<u8>, s: BitState, t: BitState, x: u32)
    requires
        same_but_checksum(p, q),
        bits_rel(s, t, x, p.len() - 12),
    ensures
        next_bit(p, s) is Some <==> next_bit(q, t) is Some,
        next_bit(p, s) is Some ==> next_bit(p, s)->Some_0.1 == next_bit(q, t)->Some_0.1 && bits_rel(
            next_bit(p, s)->Some_0.0,
            next_bit(q, t)->Some_0.0,
            x,
            p.len() - 12,
        ),
{
    if s.chk >> 1u32 == 0 && s.pos >= 4 {
        let i = s.pos as int;
        assert(q[i - 4] == p[i - 4] && q[i - 3] == p[i - 3] && q[i - 2] == p[i - 2] && q[i - 1] == p[i - 1]);
        let w = be_word(p, i);
        let c = s.crc;
        assert((c ^ x) ^ w == (c ^ w) ^ x) by (bit_vector);
    }
}

proof fn lemma_bits_rel(p: Seq<u8>, q: Seq<u8>, s: BitState, t: BitState, x: u32, n: nat)
    requires
        same_but_checksum(p, q),
        bits_rel(s, t, x, p.len() - 12),
    ensures
        bits(p, s, n) is Some <==> bits(q, t, n) is Some,
        bits(p, s, n) is Some ==> bits(p, s, n)->Some_0.1 == bits(q, t, n)->Some_0.1 && bits_rel(
            bits(p, s, n)->Some_0.0,
            bits(q, t, n)->Some_0.0,
            x,
            p.len() - 12,
        ),
    decreases n,
{
    if n > 0 {
        lemma_bits_rel(p, q, s, t, x, (n - 1) as nat);
        if bits(p, s, (n - 1) as nat) is Some {
            lemma_next_bit_rel(p, q, bits(p, s, (n - 1) as nat)->Some_0.0, bits(q, t, (n - 1) as nat)->Some_0.0, x);
        }
    }
}

proof fn lemma_literals_rel(p: Seq<u8>, q: Seq<u8>, d: Dec, e: Dec, x: u32, k: nat)
    requires
        same_but_checksum(p, q),
        dec_rel(d, e, x, p.len() - 12),
    ensures
        literals(p, d, k) is Some <==> literals(q, e, k) is Some,
        literals(p, d, k) is Some ==> dec_rel(literals(p, d, k)->Some_0, literals(q, e, k)->Some_0, x, p.len() - 12),
    decreases k,
{
    if k > 0 {
        lemma_literals_rel(p, q, d, e, x, (k - 1) as nat);
        if literals(p, d, (k - 1) as nat) is Some {
            let d1 = literals(p, d, (k - 1) as nat)->Some_0;
            let e1 = literals(q, e, (k - 1) as nat)->Some_0;
            lemma_bits_rel(p, q, d1.bits, e1.bits, x, 8);
        }
    }
}

proof fn lemma_copies_rel(d: Dec, e: Dec, x: u32, lim: int, off: nat, k: nat)
    requires
        dec_rel(d, e, x, lim),
    ensures
        dec_rel(copies(d, off, k), copies(e, off, k), x, lim),
    decreases k,
{
    if k > 0 {
        lemma_copies_rel(d, e, x, lim, off, (k - 1) as nat);
    }
}

proof fn lemma_unit_rel(p: Seq<u8>, q: Seq<u8>, d: Dec, e: Dec, x: u32)
    requires
        same_but_checksum(p, q),
        dec_rel(d, e, x, p.len() - 12),
    ensures
        unit(p, d) is Some <==> unit(q, e) is Some,
        unit(p, d) is Some ==> dec_rel(unit(p, d)->Some_0, unit(q, e)->Some_0, x, p.len() - 12),
{
    let lim = p.len() - 12;
    lemma_next_bit_rel(p, q, d.bits, e.bits, x);
    if next_bit(p, d.bits) is Some {
        let (b1, bit) = next_bit(p, d.bits)->Some_0;
        let c1 = next_bit(q, e.bits)->Some_0.0;
        if !bit {
            lemma_next_bit_rel(p, q, b1, c1, x);
            if next_bit(p, b1) is Some {
                let (b2, bit2) = next_bit(p, b1)->Some_0;
                let c2 = next_bit(q, c1)->Some_0.0;
                let w: nat = if !bit2 { 3 } else { 8 };
                lemma_bits_rel(p, q, b2, c2, x, w);
                if bits(p, b2, w) is Some {
                    let (b, v) = bits(p, b2, w)->Some_0;
                    let c = bits(q, c2, w)->Some_0.0;
                    if !bit2 {
                        lemma_literals_rel(p, q, Dec { bits: b, ..d }, Dec { bits: c, ..e }, x, v + 1);
                    } else {
                        lemma_copies_rel(Dec { bits: b, ..d }, Dec { bits: c, ..e }, x, lim, v, 2);
                    }
                }
            }
        } else {
            lemma_bits_rel(p, q, b1, c1, x, 2);
            if bits(p, b1, 2) is Some {
                let (b2, sel) = bits(p, b1, 2)->Some_0;
                let c2 = bits(q, c1, 2)->Some_0.0;
                if sel == 3 {
                    lemma_bits_rel(p, q, b2, c2, x, 8);
                    if bits(p, b2, 8) is Some {
                        let (b, v) = bits(p, b2, 8)->Some_0;
                        let c = bits(q, c2, 8)->Some_0.0;
                        lemma_literals_rel(p, q, Dec { bits: b, ..d }, Dec { bits: c, ..e }, x, v + 9);
                    }
                } else if sel < 2 {
                    lemma_bits_rel(p, q, b2, c2, x, sel + 9);
                    if bits(p, b2, sel + 9) is Some {
                        let (b, v) = bits(p, b2, sel + 9)->Some_0;
                        let c = bits(q, c2, sel + 9)->Some_0.0;
                        lemma_copies_rel(Dec { bits: b, ..d }, Dec { bits: c, ..e }, x, lim, v, sel + 3);
                    }
                } else {
                    lemma_bits_rel(p, q, b2, c2, x, 8);
                    if bits(p, b2, 8) is Some {
                        let (b3, len) = bits(p, b2, 8)->Some_0;
                        let c3 = bits(q, c2, 8)->Some_0.0;
                        lemma_bits_rel(p, q, b3, c3, x, 12);
                        if bits(p, b3, 12) is Some {
                            let (b, v) = bits(p, b3, 12)->Some_0;
                            let c = bits(q, c3, 12)->Some_0.0;
                            lemma_copies_rel(Dec { bits: b, ..d }, Dec { bits: c, ..e }, x, lim, v, len + 1);
                        }
                    }
                }
            }
        }
    }
}

proof fn lemma_run_rel(p: Seq<u8>, q: Seq<u8>, d: Dec, e: Dec, x: u32)
    requires
        same_but_checksum(p, q),
        dec_rel(d, e, x, p.len() - 12),
    ensures
        run(p, d) is Some <==> run(q, e) is Some,
        run(p, d) is Some ==> dec_rel(run(p, d)->Some_0, run(q, e)->Some_0, x, p.len() - 12),
    decreases d.wpos,
{
    if d.wpos > 0 {
        lemma_unit_rel(p, q, d, e, x);
        if unit(p, d) is Some {
            let d2 = unit(p, d)->Some_0;
            if d2.wpos < d.wpos {
                lemma_run_rel(p, q, d2, unit(q, e)->Some_0, x);
            }
        }
    }
}

/// A stream that unpacks with a correct checksum fails the checksum once its
/// checksum word is changed: that word is read only into the checksum.
pub proof fn changed_checksum_word_is_caught(p: Seq<u8>, q: Seq<u8>)
    requires
        unpack_spec(p) is Ok,
        same_but_checksum(p, q),
        be_word(q, p.len() - 4) != be_word(p, p.len() - 4),
    ensures
        unpack_spec(q) == Err::<Seq<u8>, UnpackError>(UnpackError::Checksum),
{
    let n = p.len() as int;
    assert(q[n - 1] == p[n - 1] && q[n - 2] == p[n - 2] && q[n - 3] == p[n - 3] && q[n - 4] == p[n - 4]);
    assert(q[n - 9] == p[n - 9] && q[n - 10] == p[n - 10] && q[n - 11] == p[n - 11] && q[n - 12] == p[n - 12]);
    let a = be_word(p, n - 4);
    let b = be_word(q, n - 4);
    let chk = be_word(p, n - 8);
    let x = a ^ b;
    assert((a ^ chk) ^ x == b ^ chk) by (bit_vector)
        requires x == a ^ b;
    assert(start(q).buf =~= start(p).buf);
    lemma_run_rel(p, q, start(p), start(q), x);
    let d = run(p, start(p))->Some_0;
    assert(d.bits.crc == 0);
    assert(x != 0) by (bit_vector)
        requires x == a ^ b, a != b;
    assert((0u32 ^ x) == x) by (bit_vector);
}

/// The counters of one decoding run.
#[derive(Clone, Copy, Debug, PartialEq, Eq, Structural)]
pub struct UnpackContext {
    pub size: u16,
    pub crc: u32,
    pub chk: u32,
    pub data_size: u32,
}

/// The packed stream, read four bytes at a time from its end.
pub struct PackedData {
    pub data: Vec<u8>,
    pub pos: usize,
}

impl PackedData {
    pub fn new(data: Vec<u8>) -> (r: Self)
        ensures
            r.data@ == data@,
            r.pos == data@.len(),
    {
        let pos = data.len();
        PackedData { data, pos }
    }

    /// Pops the word that ends at the current position.
    pub fn read(&mut self) -> (r: Result<u32, UnpackError>)
        requires
            old(self).pos <= old(self).data@.len(),
        ensures
            final(self).data@ == old(self).data@,
            old(self).pos < 4 ==> r == Err::<u32, UnpackError>(UnpackError::Malformed) && *final(self) == *old(self),
            old(self).pos >= 4 ==> r == Ok::<u32, UnpackError>(be_word(old(self).data@, old(self).pos as int))
                && final(self).pos == old(self).pos - 4,
    {
        if self.pos < 4 {
            return Err(UnpackError::Malformed);
        }
        self.pos = self.pos - 4;
        let p = self.pos;
        Ok(((self.data[p] as u32) << 24u32) | ((self.data[p + 1] as u32) << 16u32) | ((self.data[p + 2] as u32) << 8u32)
            | (self.data[p + 3] as u32))
    }
}

/// The output, filled from its end.
pub struct UnpackedData {
    pub data: Vec<u8>,
    pub pos: usize,
}

impl UnpackedData {
    pub fn new(size: usize) -> (r: Self)
        ensures
            r.data@ == Seq::new(size as nat, |i: int| 0u8),
            r.pos == size,
    {
        let mut data: Vec<u8> = Vec::new();
        let mut i: usize = 0;
        while i < size
            invariant
                i <= size,
                data@ == Seq::new(i as nat, |k: int| 0u8),
            decreases size - i,
        {
            data.push(0);
            i = i + 1;
            assert(data@ =~= Seq::new(i as nat, |k: int| 0u8));
        }
        UnpackedData { data, pos: size }
    }

    /// Writes one byte just before the current position.
    pub fn write(&mut self, b: u8)
        requires
            0 < old(self).pos <= old(self).data@.len(),
        ensures
            final(self).pos == old(self).pos - 1,
            final(self).data@ == old(self).data@.update(old(self).pos - 1, b),
    {
        self.pos = self.pos - 1;
        let p = self.pos;
        self.data.set(p, b);
    }
}

/// The decoder: its counters, its input and its output.
pub struct Bank {
    pub unp_ctx: UnpackContext,
    pub packed: PackedData,
    pub unpacked: UnpackedData,
}

impl Bank {
    /// The bit reader's state as the specification sees it.
    pub open spec fn bit_state(&self) -> BitState {
        BitState { pos: self.packed.pos as nat, chk: self.unp_ctx.chk, crc: self.unp_ctx.crc }
    }

    /// Everything but the bit reader is left alone.
    pub open spec fn same_but_bits(&self, o: &Bank) -> bool {
        &&& self.packed.data@ == o.packed.data@
        &&& self.unpacked == o.unpacked
        &&& self.unp_ctx.size == o.unp_ctx.size
        &&& self.unp_ctx.data_size == o.unp_ctx.data_size
    }

    /// The decoder state as the specification sees it.
    pub open spec fn dec(&self) -> Dec {
        Dec { bits: self.bit_state(), buf: self.unpacked.data@, wpos: self.unpacked.pos as nat }
    }

    /// The positions stay inside their buffers and the remaining count is the write position.
    pub open spec fn wf(&self) -> bool {
        &&& self.packed.pos <= self.packed.data@.len()
        &&& self.unpacked.pos <= self.unpacked.data@.len()
        &&& self.unp_ctx.data_size as nat == self.unpacked.pos as nat
    }

    /// A literal run: `num_chunks` bits of count, plus `add_count` plus one bytes.
    pub fn dec_unk1(&mut self, num_chunks: u8, add_count: u8) -> (r: Result<(), UnpackError>)
        requires
            num_chunks <= 12,
            old(self).wf(),
        ensures
            r is Ok ==> final(self).wf(),
            final(self).packed.data@ == old(self).packed.data@,
            final(self).unp_ctx.size == old(self).unp_ctx.size,
            match literal_run(old(self).packed.data@, old(self).dec(), num_chunks as nat, add_count as nat) {
                None => r == Err::<(), UnpackError>(UnpackError::Malformed),
                Some(d) => r is Ok && final(self).dec() == d,
            },
    {
        let ghost p = old(self).packed.data@;
        let code = self.get_code(num_chunks)?;
        let count: u32 = code as u32 + add_count as u32 + 1;
        if count > self.unp_ctx.data_size {
            return Err(UnpackError::Malformed);
        }
        self.unp_ctx.data_size = self.unp_ctx.data_size - count;
        let ghost d1 = self.dec();
        let mut j: u32 = 0;
        while j < count
            invariant
                j <= count,
                p == self.packed.data@,
                p == old(self).packed.data@,
                self.unp_ctx.size == old(self).unp_ctx.size,
                self.packed.pos <= self.packed.data@.len(),
                self.unpacked.pos <= self.unpacked.data@.len(),
                self.unpacked.data@.len() == d1.buf.len(),
                self.unpacked.pos as nat == d1.wpos - j,
                self.unp_ctx.data_size as nat + count == d1.wpos,
                literals(p, d1, j as nat) == Some(self.dec()),
                d1.buf == old(self).unpacked.data@,
                d1.wpos == old(self).unpacked.pos as nat,
                old(self).unp_ctx.data_size as nat == old(self).unpacked.pos as nat,
                bits(p, old(self).bit_state(), num_chunks as nat) == Some((d1.bits, code as nat)),
                count == code as nat + add_count as nat + 1,
            decreases count - j,
        {
            let res = self.get_code(8);
            let v = match res {
                Ok(v) => v,
                Err(e) => {
                    proof {
                        reveal_with_fuel(literals, 2);
                        lemma_literals_stuck(p, d1, (j + 1) as nat, count as nat);
                    }
                    return Err(e);
                },
            };
            proof {
                reveal_with_fuel(literals, 2);
                reveal_with_fuel(pow2, 9);
            }
            self.unpacked.write(v as u8);
            j = j + 1;
        }
        Ok(())
    }

    /// A back-reference of `unp_ctx.size` plus one bytes with a `num_chunks`-bit offset.
    pub fn dec_unk2(&mut self, num_chunks: u8) -> (r: Result<(), UnpackError>)
        requires
            num_chunks <= 12,
            old(self).wf(),
        ensures
            r is Ok ==> final(self).wf(),
            final(self).packed.data@ == old(self).packed.data@,
            final(self).unp_ctx.size == old(self).unp_ctx.size,
            match back_ref(old(self).packed.data@, old(self).dec(), num_chunks as nat, old(self).unp_ctx.size as nat) {
                None => r == Err::<(), UnpackError>(UnpackError::Malformed),
                Some(d) => r is Ok && final(self).dec() == d,
            },
    {
        let ghost p = old(self).packed.data@;
        let i = self.get_code(num_chunks)? as usize;
        let count: u32 = self.unp_ctx.size as u32 + 1;
        if count > self.unp_ctx.data_size || i == 0 || i - 1 >= self.unpacked.data.len() - self.unpacked.pos {
            return Err(UnpackError::Malformed);
        }
        self.unp_ctx.data_size = self.unp_ctx.data_size - count;
        let ghost d1 = self.dec();
        let mut j: u32 = 0;
        while j < count
            invariant
                j <= count,
                1 <= i,
                d1.wpos + i - 1 < d1.buf.len(),
                p == self.packed.data@,
                p == old(self).packed.data@,
                self.unp_ctx.size == old(self).unp_ctx.size,
                self.packed.pos <= self.packed.data@.len(),
                self.unpacked.pos <= self.unpacked.data@.len(),
                self.unpacked.data@.len() == d1.buf.len(),
                self.unpacked.pos as nat == d1.wpos - j,
                self.unp_ctx.data_size as nat + count == d1.wpos,
                copies(d1, i as nat, j as nat) == self.dec(),
                d1.buf == old(self).unpacked.data@,
                d1.wpos == old(self).unpacked.pos as nat,
                old(self).unp_ctx.data_size as nat == old(self).unpacked.pos as nat,
                bits(p, old(self).bit_state(), num_chunks as nat) == Some((d1.bits, i as nat)),
                count == old(self).unp_ctx.size as nat + 1,
            decreases count - j,
        {
            let wp = self.unpacked.pos;
            // Reading the length bounds it by usize::MAX.
            let _n = self.unpacked.data.len();
            let src: usize = wp + (i - 1);
            let val = self.unpacked.data[src];
            self.unpacked.write(val);
            j = j + 1;
        }
        Ok(())
    }

    /// One unit of the stream.
    pub fn decode_unit(&mut self) -> (r: Result<(), UnpackError>)
        requires
            old(self).wf(),
        ensures
            r is Ok ==> final(self).wf(),
            final(self).packed.data@ == old(self).packed.data@,
            match unit(old(self).packed.data@, old(self).dec()) {
                None => r == Err::<(), UnpackError>(UnpackError::Malformed),
                Some(d) => r is Ok && final(self).dec() == d,
            },
    {
        if !self.next_chunk()? {
            self.unp_ctx.size = 1;
            if !self.next_chunk()? {
                self.dec_unk1(3, 0)
            } else {
                self.dec_unk2(8)
            }
        } else {
            let c = self.get_code(2)?;
            proof {
                reveal_with_fuel(pow2, 3);
            }
            if c == 3 {
                self.dec_unk1(8, 8)
            } else if c < 2 {
                self.unp_ctx.size = c + 2;
                self.dec_unk2(c as u8 + 9)
            } else {
                self.unp_ctx.size = self.get_code(8)?;
                self.dec_unk2(12)
            }
        }
    }

    /// An idle decoder.
    pub fn new() -> (r: Bank)
        ensures
            r.wf(),
    {
        Bank {
            unp_ctx: UnpackContext { size: 0, crc: 0, chk: 0, data_size: 0 },
            packed: PackedData { data: Vec::new(), pos: 0 },
            unpacked: UnpackedData { data: Vec::new(), pos: 0 },
        }
    }

    /// The bytes of bank `bank_id` (numbered from 1) among the banks' bytes.
    pub fn read_bank<'a>(&self, banks: &'a Vec<Vec<u8>>, bank_id: u8) -> (r: Result<&'a Vec<u8>, Error>)
        ensures
            1 <= bank_id <= banks@.len() ==> r is Ok && r->Ok_0@ == banks@[bank_id - 1]@,
            !(1 <= bank_id <= banks@.len()) ==> r is Err && r->Err_0 == Error::BankRange,
    {
        if bank_id == 0 || bank_id as usize > banks.len() {
            return Err(Error::BankRange);
        }
        Ok(&banks[bank_id as usize - 1])
    }

    /// The bytes of the resource that `me` describes, taken from the bank it names.
    pub fn read(&mut self, banks: &Vec<Vec<u8>>, me: &MemEntry) -> (r: Result<Vec<u8>, Error>)
        ensures
            !(1 <= me.bank_id <= banks@.len()) ==> r == Err::<Vec<u8>, Error>(Error::BankRange),
            1 <= me.bank_id <= banks@.len() ==> match load_entry(
                banks@[me.bank_id - 1]@,
                me.bank_offset as nat,
                me.packed_size as nat,
                me.size as nat,
            ) {
                Ok(v) => r is Ok && r->Ok_0@ == v,
                Err(e) => r == Err::<Vec<u8>, Error>(e),
            },
    {
        let bank = self.read_bank(banks, me.bank_id)?;
        self.read_entry_data(bank.as_slice(), me)
    }

    /// The bytes of the resource that `me` describes, taken from its bank's bytes.
    pub fn read_entry_data(&mut self, src: &[u8], me: &MemEntry) -> (r: Result<Vec<u8>, Error>)
        ensures
            match load_entry(src@, me.bank_offset as nat, me.packed_size as nat, me.size as nat) {
                Ok(v) => r is Ok && r->Ok_0@ == v,
                Err(e) => r == Err::<Vec<u8>, Error>(e),
            },
            r is Ok ==> r->Ok_0@.len() == me.size,
    {
        let len = src.len();
        if me.bank_offset > len as u64 || me.packed_size as u64 > len as u64 - me.bank_offset {
            return Err(Error::BankRange);
        }
        let start = me.bank_offset as usize;
        let mut buf: Vec<u8> = Vec::new();
        let mut i: usize = 0;
        while i < me.packed_size
            invariant
                i <= me.packed_size,
                start + me.packed_size <= len,
                len == src@.len(),
                start == me.bank_offset,
                buf@ == src@.subrange(start as int, start + i),
            decreases me.packed_size - i,
        {
            buf.push(src[start + i]);
            i = i + 1;
            assert(buf@ =~= src@.subrange(start as int, start + i));
        }
        if me.packed_size == me.size {
            return Ok(buf);
        }
        self.packed = PackedData::new(buf);
        match self.unpack() {
            Ok(v) => {
                if v.len() == me.size {
                    Ok(v)
                } else {
                    Err(Error::SizeMismatch)
                }
            },
            Err(UnpackError::Checksum) => Err(Error::Checksum),
            Err(UnpackError::Malformed) => Err(Error::Malformed),
        }
    }

    /// Unpacks the stream held in `packed`, from its end back to its start.
    pub fn unpack(&mut self) -> (r: Result<Vec<u8>, UnpackError>)
        requires
            old(self).packed.pos == old(self).packed.data@.len(),
        ensures
            match unpack_spec(old(self).packed.data@) {
                Ok(v) => r is Ok && r->Ok_0@ == v,
                Err(e) => r == Err::<Vec<u8>, UnpackError>(e),
            },
    {
        let ghost p = old(self).packed.data@;
        if self.packed.pos < 12 {
            return Err(UnpackError::Malformed);
        }
        self.unp_ctx.size = 0;
        self.unp_ctx.data_size = self.packed.read()?;
        self.unp_ctx.crc = self.packed.read()?;
        self.unp_ctx.chk = self.packed.read()?;
        self.unp_ctx.crc = self.unp_ctx.crc ^ self.unp_ctx.chk;
        self.unpacked = UnpackedData::new(self.unp_ctx.data_size as usize);
        assert(self.dec() == start(p));
        while self.unp_ctx.data_size > 0
            invariant
                self.wf(),
                self.packed.data@ == p,
                run(p, self.dec()) == run(p, start(p)),
                p.len() >= 12,
                p == old(self).packed.data@,
            decreases self.unp_ctx.data_size,
        {
            let ghost d = self.dec();
            let res = self.decode_unit();
            if res.is_err() {
                return Err(UnpackError::Malformed);
            }
            proof {
                lemma_unit_shrinks(p, d);
                reveal_with_fuel(run, 1);
            }
        }
        proof {
            reveal_with_fuel(run, 1);
        }
        if self.unp_ctx.crc != 0 {
            return Err(UnpackError::Checksum);
        }
        Ok(self.unpacked.data.clone())
    }

    /// Rotate right through carry: returns the lowest bit, shifts in `cf` at the top.
    pub fn rcr(&mut self, cf: bool) -> (r: bool)
        ensures
            r == (old(self).unp_ctx.chk & 1 == 1),
            final(self).unp_ctx.chk == if cf {
                (old(self).unp_ctx.chk >> 1u32) | 0x8000_0000u32
            } else {
                old(self).unp_ctx.chk >> 1u32
            },
            final(self).unp_ctx.crc == old(self).unp_ctx.crc,
            final(self).packed == old(self).packed,
            final(self).same_but_bits(old(self)),
    {
        let rcf = (self.unp_ctx.chk & 1) == 1;
        self.unp_ctx.chk = self.unp_ctx.chk >> 1u32;
        if cf {
            self.unp_ctx.chk = self.unp_ctx.chk | 0x8000_0000u32;
        }
        rcf
    }

    /// Reads one bit of the stream.
    pub fn next_chunk(&mut self) -> (r: Result<bool, UnpackError>)
        requires
            old(self).packed.pos <= old(self).packed.data@.len(),
        ensures
            final(self).same_but_bits(old(self)),
            final(self).packed.pos <= final(self).packed.data@.len(),
            match next_bit(old(self).packed.data@, old(self).bit_state()) {
                None => r == Err::<bool, UnpackError>(UnpackError::Malformed),
                Some((s, b)) => r == Ok::<bool, UnpackError>(b) && final(self).bit_state() == s,
            },
    {
        let mut cf = self.rcr(false);
        if self.unp_ctx.chk == 0 {
            let w = self.packed.read()?;
            self.unp_ctx.chk = w;
            self.unp_ctx.crc = self.unp_ctx.crc ^ w;
            cf = self.rcr(true);
        }
        Ok(cf)
    }

    /// Reads `num_chunks` bits, the first one read being the most significant.
    pub fn get_code(&mut self, num_chunks: u8) -> (r: Result<u16, UnpackError>)
        requires
            num_chunks <= 12,
            old(self).packed.pos <= old(self).packed.data@.len(),
        ensures
            final(self).same_but_bits(old(self)),
            final(self).packed.pos <= final(self).packed.data@.len(),
            match bits(old(self).packed.data@, old(self).bit_state(), num_chunks as nat) {
                None => r == Err::<u16, UnpackError>(UnpackError::Malformed),
                Some((s, v)) => v < 0x1000 && v < pow2(num_chunks as nat) && r == Ok::<u16, UnpackError>(v as u16) && final(self).bit_state() == s,
            },
    {
        let ghost p = old(self).packed.data@;
        let ghost s0 = old(self).bit_state();
        let mut c: u16 = 0;
        let mut i: u8 = 0;
        while i < num_chunks
            invariant
                i <= num_chunks <= 12,
                self.same_but_bits(old(self)),
                p == self.packed.data@,
                p == old(self).packed.data@,
                s0 == old(self).bit_state(),
                self.packed.pos <= self.packed.data@.len(),
                bits(p, s0, i as nat) == Some((self.bit_state(), c as nat)),
                (c as nat) < pow2(i as nat),
            decreases num_chunks - i,
        {
            let ghost before = self.bit_state();
            let res = self.next_chunk();
            proof {
                reveal_with_fuel(bits, 2);
                lemma_pow2_step(i as nat);
                lemma_pow2_mono(i as nat, 11);
                reveal_with_fuel(pow2, 12);
            }
            let b = match res {
                Ok(b) => b,
                Err(e) => {
                    proof {
                        lemma_bits_stuck(p, s0, (i + 1) as nat, num_chunks as nat);

                    }
                    return Err(e);
                },
            };
            c = if b { 2 * c + 1 } else { 2 * c };
            i = i + 1;
        }
        proof {
            lemma_pow2_12(num_chunks as nat);
        }
        Ok(c)
    }
}

pub open spec fn pow2(n: nat) -> nat
    decreases n,
{
    if n == 0 { 1 } else { 2 * pow2((n - 1) as nat) }
}

proof fn lemma_pow2_step(n: nat)
    ensures pow2(n + 1) == 2 * pow2(n),
{
}

proof fn lemma_literals_len(p: Seq<u8>, d: Dec, k: nat)
    requires
        literals(p, d, k) is Some,
        d.wpos <= d.buf.len(),
    ensures
        literals(p, d, k)->Some_0.wpos + k == d.wpos,
        literals(p, d, k)->Some_0.buf.len() == d.buf.len(),
    decreases k,
{
    if k > 0 {
        lemma_literals_len(p, d, (k - 1) as nat);
    }
}

proof fn lemma_copies_len(d: Dec, off: nat, k: nat)
    requires
        k <= d.wpos <= d.buf.len(),
    ensures
        copies(d, off, k).wpos + k == d.wpos,
        copies(d, off, k).buf.len() == d.buf.len(),
        copies(d, off, k).bits == d.bits,
    decreases k,
{
    if k > 0 {
        lemma_copies_len(d, off, (k - 1) as nat);
    }
}

/// Every unit writes at least one byte and keeps the buffer's length.
proof fn lemma_unit_shrinks(p: Seq<u8>, d: Dec)
    requires
        unit(p, d) is Some,
        d.wpos <= d.buf.len(),
    ensures
        unit(p, d)->Some_0.wpos < d.wpos,
        unit(p, d)->Some_0.buf.len() == d.buf.len(),
{
    let (b1, bit) = next_bit(p, d.bits)->Some_0;
    if !bit {
        let (b2, bit2) = next_bit(p, b1)->Some_0;
        if !bit2 {
            let (b, v) = bits(p, b2, 3)->Some_0;
            lemma_literals_len(p, Dec { bits: b, ..d }, v + 1);
        } else {
            let (b, off) = bits(p, b2, 8)->Some_0;
            lemma_copies_len(Dec { bits: b, ..d }, off, 2);
        }
    } else {
        let (b2, c) = bits(p, b1, 2)->Some_0;
        if c == 3 {
            let (b, v) = bits(p, b2, 8)->Some_0;
            lemma_literals_len(p, Dec { bits: b, ..d }, v + 9);
        } else if c < 2 {
            let (b, off) = bits(p, b2, c + 9)->Some_0;
            lemma_copies_len(Dec { bits: b, ..d }, off, c + 3);
        } else {
            let (b3, len) = bits(p, b2, 8)->Some_0;
            let (b, off) = bits(p, b3, 12)->Some_0;
            lemma_copies_len(Dec { bits: b, ..d }, off, len + 1);
        }
    }
}

/// Once a literal byte cannot be read, the run fails.
proof fn lemma_literals_stuck(p: Seq<u8>, d: Dec, k: nat, n: nat)
    requires
        k <= n,
        literals(p, d, k) is None,
    ensures
        literals(p, d, n) is None,
    decreases n,
{
    if k < n {
        lemma_literals_stuck(p, d, k, (n - 1) as nat);
    }
}

proof fn lemma_pow2_mono(a: nat, b: nat)
    requires a <= b,
    ensures pow2(a) <= pow2(b),
    decreases b,
{
    if a < b {
        lemma_pow2_mono(a, (b - 1) as nat);
    }
}

/// Once the bit reader has failed, reading more bits fails too.
proof fn lemma_bits_stuck(p: Seq<u8>, s: BitState, k: nat, n: nat)
    requires
        k <= n,
        bits(p, s, k) is None,
    ensures
        bits(p, s, n) is None,
    decreases n,
{
    if k < n {
        lemma_bits_stuck(p, s, k, (n - 1) as nat);
    }
}

proof fn lemma_pow2_12(n: nat)
    requires n <= 12,
    ensures pow2(n) <= 0x1000,
{
    lemma_pow2_mono(n, 12);
    reveal_with_fuel(pow2, 13);
}

} // verus!
