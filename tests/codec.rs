use raw_engine::bank::{Bank, PackedData, UnpackError};
use raw_engine::error::Error;
use raw_engine::memlist::{MemEntry, MemEntryState, ResType};

/// Bits in the order the decoder reads them.
struct Bits(Vec<bool>);

impl Bits {
    fn new() -> Self {
        Bits(Vec::new())
    }

    /// `n` bits of `v`, most significant first.
    fn put(&mut self, v: u32, n: u32) {
        for i in (0..n).rev() {
            self.0.push((v >> i) & 1 == 1);
        }
    }

    fn literals(&mut self, bytes: &[u8]) {
        assert!(!bytes.is_empty() && bytes.len() <= 8);
        self.put(0, 2);
        self.put(bytes.len() as u32 - 1, 3);
        for b in bytes {
            self.put(*b as u32, 8);
        }
    }

    fn long_literals(&mut self, bytes: &[u8]) {
        assert!(bytes.len() >= 9 && bytes.len() <= 264);
        self.put(1, 1);
        self.put(3, 2);
        self.put(bytes.len() as u32 - 9, 8);
        for b in bytes {
            self.put(*b as u32, 8);
        }
    }

    /// Two bytes copied from `offset` places back (8-bit offset).
    fn copy2(&mut self, offset: u32) {
        self.put(1, 2);
        self.put(offset, 8);
    }

    /// Three bytes copied with a 9-bit offset.
    fn copy3(&mut self, offset: u32) {
        self.put(1, 1);
        self.put(0, 2);
        self.put(offset, 9);
    }

    /// `count` bytes copied with a 12-bit offset.
    fn copy_n(&mut self, count: u32, offset: u32) {
        self.put(1, 1);
        self.put(2, 2);
        self.put(count - 1, 8);
        self.put(offset, 12);
    }

    /// The packed stream for `size` output bytes.
    fn pack(&self, size: u32) -> Vec<u8> {
        let bits = &self.0;
        let first = bits.len().min(31);
        let mut chk: u32 = 1 << first;
        for i in 0..first {
            if bits[i] {
                chk |= 1 << i;
            }
        }
        let mut words = vec![chk];
        let mut i = first;
        while i < bits.len() {
            let mut w: u32 = 0;
            for j in 0..32 {
                if i + j < bits.len() && bits[i + j] {
                    w |= 1 << j;
                }
            }
            words.push(w);
            i += 32;
        }
        let crc = words.iter().fold(0u32, |a, w| a ^ w);
        let mut out = Vec::new();
        for w in words.iter().skip(1).rev() {
            out.extend_from_slice(&w.to_be_bytes());
        }
        out.extend_from_slice(&chk.to_be_bytes());
        out.extend_from_slice(&crc.to_be_bytes());
        out.extend_from_slice(&size.to_be_bytes());
        out
    }
}

fn unpack(packed: Vec<u8>) -> Result<Vec<u8>, UnpackError> {
    let mut bank = Bank::new();
    bank.packed = PackedData::new(packed);
    bank.unpack()
}

fn entry(bank_offset: u64, packed_size: usize, size: usize) -> MemEntry {
    MemEntry {
        state: MemEntryState::NotNeeded,
        res_type: ResType::Bytecode,
        buf_offset: 0,
        unk4: 0,
        rank_num: 0,
        bank_id: 1,
        bank_offset,
        unk_c: 0,
        packed_size,
        unk10: 0,
        size,
        buffer: Vec::new(),
    }
}

#[test]
fn literal_run_of_four() {
    let mut b = Bits::new();
    b.literals(&[3, 2, 1, 0]);
    assert_eq!(unpack(b.pack(4)), Ok(vec![0, 1, 2, 3]));
}

#[test]
fn load_bank_entry_unpacks_literal_run() {
    let mut b = Bits::new();
    b.literals(&[3, 2, 1, 0]);
    let mut packed = b.pack(4);
    packed.resize(16, 0);
    packed.rotate_right(16 - b.pack(4).len());
    assert_eq!(packed.len(), 16);
    let me = entry(0, 16, 4);
    let mut bank = Bank::new();
    assert_eq!(bank.read_entry_data(&packed, &me), Ok(vec![0, 1, 2, 3]));
}

#[test]
fn round_trip_with_back_references() {
    let mut b = Bits::new();
    // Emitted back to front: a b c, then a b c again, then b c, then five more.
    b.literals(&[10, 20, 30]);
    b.copy3(3);
    b.copy2(2);
    b.copy_n(5, 1);
    let emitted = [10u8, 20, 30, 10, 20, 30, 20, 30, 30, 30, 30, 30, 30];
    let mut expected = emitted.to_vec();
    expected.reverse();
    assert_eq!(unpack(b.pack(emitted.len() as u32)), Ok(expected));
}

#[test]
fn round_trip_long_literal_run() {
    let bytes: Vec<u8> = (0..40u8).collect();
    let mut b = Bits::new();
    b.long_literals(&bytes);
    let mut expected = bytes.clone();
    expected.reverse();
    assert_eq!(unpack(b.pack(40)), Ok(expected));
}

#[test]
fn flipped_header_bits_fail_the_checksum() {
    let mut b = Bits::new();
    b.literals(&[7, 7, 7]);
    b.copy2(1);
    let good = b.pack(5);
    assert_eq!(unpack(good.clone()), Ok(vec![7; 5]));
    let n = good.len();
    for byte in n - 8..n - 4 {
        for bit in 0..8 {
            let mut bad = good.clone();
            bad[byte] ^= 1 << bit;
            assert_eq!(unpack(bad), Err(UnpackError::Checksum));
        }
    }
    for byte in n - 12..n - 4 {
        for bit in 0..8 {
            let mut bad = good.clone();
            bad[byte] ^= 1 << bit;
            assert!(unpack(bad).is_err());
        }
    }
}

#[test]
fn short_stream_is_malformed() {
    assert_eq!(unpack(vec![0; 8]), Err(UnpackError::Malformed));
}

#[test]
fn back_reference_before_any_output_is_malformed() {
    let mut b = Bits::new();
    b.copy2(1);
    assert_eq!(unpack(b.pack(2)), Err(UnpackError::Malformed));
}

#[test]
fn run_longer_than_output_is_malformed() {
    let mut b = Bits::new();
    b.literals(&[1, 2, 3]);
    assert_eq!(unpack(b.pack(2)), Err(UnpackError::Malformed));
}

#[test]
fn verbatim_entry_is_returned_as_is() {
    let bank_bytes = vec![9u8, 8, 7, 6, 5, 4];
    let me = entry(2, 3, 3);
    let mut bank = Bank::new();
    assert_eq!(bank.read_entry_data(&bank_bytes, &me), Ok(vec![7, 6, 5]));
}

#[test]
fn entry_past_bank_end_is_refused() {
    let bank_bytes = vec![0u8; 4];
    let me = entry(2, 3, 3);
    let mut bank = Bank::new();
    assert_eq!(bank.read_entry_data(&bank_bytes, &me), Err(Error::BankRange));
}

#[test]
fn unpacked_length_must_match_descriptor() {
    let mut b = Bits::new();
    b.literals(&[3, 2, 1, 0]);
    let packed = b.pack(4);
    let me = entry(0, packed.len(), 5);
    let mut bank = Bank::new();
    assert_eq!(bank.read_entry_data(&packed, &me), Err(Error::SizeMismatch));
}

#[test]
fn corrupt_entry_reports_checksum() {
    let mut b = Bits::new();
    b.literals(&[3, 2, 1, 0]);
    let mut packed = b.pack(4);
    let n = packed.len();
    packed[n - 5] ^= 0x10;
    let me = entry(0, n, 4);
    let mut bank = Bank::new();
    assert_eq!(bank.read_entry_data(&packed, &me), Err(Error::Checksum));
}

#[test]
fn read_picks_the_named_bank() {
    let banks = vec![vec![1u8, 2, 3, 4], vec![5u8, 6, 7, 8]];
    let mut me = entry(1, 2, 2);
    me.bank_id = 2;
    let mut bank = Bank::new();
    assert_eq!(bank.read(&banks, &me), Ok(vec![6, 7]));
    assert_eq!(bank.read_bank(&banks, 1), Ok(&vec![1u8, 2, 3, 4]));
    me.bank_id = 3;
    assert_eq!(bank.read(&banks, &me), Err(Error::BankRange));
    me.bank_id = 0;
    assert_eq!(bank.read(&banks, &me), Err(Error::BankRange));
}
