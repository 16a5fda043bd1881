use vstd::prelude::*;
use crate::bank::{Bank, load_entry, load_entry_has_declared_size};
use crate::error::Error;
use crate::memlist::{MemEntry, MemEntryState, MemList, dir_has, entry_fields, be16, be32, lemma_dir_unique};

verus! {

/// Record `k` of the directory loads from the banks: its bank id is zero
/// (nothing to load) or names one of the banks, from which it loads.
pub open spec fn record_loads(banks: Seq<Seq<u8>>, d: Seq<u8>, k: int) -> bool {
    let o = 20 * k;
    let bank_id = d[o + 7];
    bank_id == 0 || (bank_id <= banks.len() && load_entry(
        banks[bank_id - 1],
        be32(d, o + 8),
        be16(d, o + 14),
        be16(d, o + 18),
    ) is Ok)
}

/// Descriptor `e` is record `k`, holding what its bank gives (nothing for bank zero).
pub open spec fn stored(e: MemEntry, banks: Seq<Seq<u8>>, d: Seq<u8>, k: int) -> bool {
    &&& entry_fields(e, d, k)
    &&& if e.bank_id == 0 {
        e.buffer@.len() == 0
    } else {
        load_entry(banks[e.bank_id - 1], e.bank_offset as nat, e.packed_size as nat, e.size as nat) == Ok::<
            Seq<u8>,
            Error,
        >(e.buffer@)
    }
}

/// Every descriptor that storage loaded from a bank holds exactly as many bytes
/// as its unpacked size.
pub proof fn stored_entry_has_declared_size(e: MemEntry, banks: Seq<Seq<u8>>, d: Seq<u8>, k: int)
    requires
        stored(e, banks, d, k),
        e.bank_id != 0,
    ensures
        e.buffer@.len() == e.size,
{
    load_entry_has_declared_size(banks[e.bank_id - 1], e.bank_offset as nat, e.packed_size as nat, e.size as nat);
}

/// The bytes of each bank.
pub open spec fn banks_view(banks: Seq<Vec<u8>>) -> Seq<Seq<u8>> {
    Seq::new(banks.len(), |i: int| banks[i]@)
}

/// The directory and the banks, with every resource's bytes.
#[derive(Debug)]
pub struct Storage {
    pub mem_list: MemList,
    pub banks: Vec<Vec<u8>>,
}

impl Storage {
    pub fn new() -> (r: Self)
        ensures
            r.mem_list.entries@.len() == 0,
            r.banks@.len() == 0,
    {
        Storage { mem_list: MemList::new(), banks: Vec::new() }
    }

    pub fn bank_data(&self, bank_id: usize) -> (r: &Vec<u8>)
        requires
            bank_id < self.banks@.len(),
        ensures
            r@ == self.banks@[bank_id as int]@,
    {
        &self.banks[bank_id]
    }

    /// Takes the banks' bytes (bank 1 first) and the directory's bytes, reads the
    /// directory and gives every descriptor that names a bank the bytes it describes.
    pub fn load(&mut self, banks: Vec<Vec<u8>>, directory: &[u8]) -> (r: Result<(), Error>)
        ensures
            r is Ok <==> exists|n: nat|
                dir_has(directory@, n) && forall|k: int|
                    0 <= k < n ==> #[trigger] record_loads(banks_view(banks@), directory@, k),
            r is Ok ==> dir_has(directory@, final(self).mem_list.entries@.len()),
            r is Ok ==> forall|k: int|
                0 <= k < final(self).mem_list.entries@.len() ==> #[trigger] stored(
                    final(self).mem_list.entries@[k],
                    banks_view(banks@),
                    directory@,
                    k,
                ),
    {
        let ghost bv = banks_view(banks@);
        self.banks = banks;
        let mut list = MemList::new();
        let res = list.load(directory);
        if res.is_err() {
            return Err(Error::Directory);
        }
        let ghost n = list.entries@.len();
        self.mem_list = list;
        let mut bank = Bank::new();
        let mut i: usize = 0;
        while i < self.mem_list.entries.len()
            invariant
                bv == banks_view(banks@),
                bv == banks_view(self.banks@),
                dir_has(directory@, n),
                self.mem_list.entries@.len() == n,
                forall|k: int| 0 <= k < n ==> entry_fields(#[trigger] self.mem_list.entries@[k], directory@, k),
                forall|k: int| 0 <= k < i ==> #[trigger] stored(self.mem_list.entries@[k], bv, directory@, k),
                forall|k: int| i <= k < n ==> (#[trigger] self.mem_list.entries@[k]).buffer@.len() == 0,
                forall|k: int| 0 <= k < i ==> #[trigger] record_loads(bv, directory@, k),
            decreases n - i,
        {
            let bank_id = self.mem_list.entries[i].bank_id;
            if bank_id != 0 {
                if bank_id as usize > self.banks.len() {
                    proof {
                        assert(!record_loads(bv, directory@, i as int));
                        assert forall|m: nat| !(dir_has(directory@, m) && forall|k: int|
                            0 <= k < m ==> #[trigger] record_loads(bv, directory@, k)) by {
                            if dir_has(directory@, m) {
                                lemma_dir_unique(directory@, n, m);
                            }
                        }
                    }
                    return Err(Error::BankRange);
                }
                let res = bank.read_entry_data(&self.banks[bank_id as usize - 1], &self.mem_list.entries[i]);
                match res {
                    Ok(data) => {
                        self.mem_list.entries[i].buffer = data;
                    },
                    Err(e) => {
                        proof {
                            assert(!record_loads(bv, directory@, i as int));
                            assert forall|m: nat| !(dir_has(directory@, m) && forall|k: int|
                                0 <= k < m ==> #[trigger] record_loads(bv, directory@, k)) by {
                                if dir_has(directory@, m) {
                                    lemma_dir_unique(directory@, n, m);
                                }
                            }
                        }
                        return Err(e);
                    },
                }
            }
            i = i + 1;
        }
        Ok(())
    }

    /// The index of the descriptor waiting to load with the highest rank (the
    /// last such one where ranks tie).
    pub fn get_max_rank_entry_to_load(&self) -> (r: Option<usize>)
        ensures
            max_rank_pending(self.mem_list.entries@, r),
            r == pick(self.mem_list.entries@),
    {
        let mut best: Option<usize> = None;
        let mut max_num: u8 = 0;
        let mut i: usize = 0;
        while i < self.mem_list.entries.len()
            invariant
                i <= self.mem_list.entries@.len(),
                max_rank_pending(self.mem_list.entries@.subrange(0, i as int), best),
                best == pick(self.mem_list.entries@.subrange(0, i as int)),
                best is Some ==> max_num == self.mem_list.entries@[best->Some_0 as int].rank_num,
            decreases self.mem_list.entries@.len() - i,
        {
            let me = &self.mem_list.entries[i];
            if me.state == MemEntryState::LoadMe && (best.is_none() || max_num <= me.rank_num) {
                max_num = me.rank_num;
                best = Some(i);
            }
            i = i + 1;
            assert(self.mem_list.entries@.subrange(0, i as int) =~= self.mem_list.entries@.subrange(0, i - 1).push(self.mem_list.entries@[i - 1]));
            assert(self.mem_list.entries@.subrange(0, i as int).drop_last() =~= self.mem_list.entries@.subrange(0, i - 1));
        }
        assert(self.mem_list.entries@.subrange(0, i as int) =~= self.mem_list.entries@);
        best
    }

    /// The index of the first loaded descriptor placed at `offset`.
    pub fn get_loaded_entry_with_offset(&self, offset: usize) -> (r: Option<usize>)
        ensures
            match r {
                None => forall|k: int| 0 <= k < self.mem_list.entries@.len() ==> !loaded_at(#[trigger] self.mem_list.entries@[k], offset),
                Some(i) => i < self.mem_list.entries@.len() && loaded_at(self.mem_list.entries@[i as int], offset)
                    && forall|k: int| 0 <= k < i ==> !loaded_at(#[trigger] self.mem_list.entries@[k], offset),
            },
    {
        let mut i: usize = 0;
        while i < self.mem_list.entries.len()
            invariant
                i <= self.mem_list.entries@.len(),
                forall|k: int| 0 <= k < i ==> !loaded_at(#[trigger] self.mem_list.entries@[k], offset),
            decreases self.mem_list.entries@.len() - i,
        {
            if self.mem_list.entries[i].state == MemEntryState::Loaded && self.mem_list.entries[i].buf_offset == offset {
                return Some(i);
            }
            i = i + 1;
        }
        None
    }
}

/// A loaded descriptor placed at `offset`.
pub open spec fn loaded_at(e: MemEntry, offset: usize) -> bool {
    e.state == MemEntryState::Loaded && e.buf_offset == offset
}

/// The pending descriptor of highest rank, the last one among equals.
pub open spec fn pick(es: Seq<MemEntry>) -> Option<usize>
    decreases es.len(),
{
    if es.len() == 0 {
        None
    } else {
        let p = pick(es.drop_last());
        let i = es.len() - 1;
        if es[i].state == MemEntryState::LoadMe && (p is None || es[p->Some_0 as int].rank_num <= es[i].rank_num) {
            Some(i as usize)
        } else {
            p
        }
    }
}

/// `r` names the pending descriptor of highest rank, the last one among equals;
/// `None` when nothing is pending.
pub open spec fn max_rank_pending(es: Seq<MemEntry>, r: Option<usize>) -> bool {
    match r {
        None => forall|k: int| 0 <= k < es.len() ==> #[trigger] es[k].state != MemEntryState::LoadMe,
        Some(i) => {
            &&& i < es.len()
            &&& es[i as int].state == MemEntryState::LoadMe
            &&& forall|k: int|
                0 <= k < es.len() && #[trigger] es[k].state == MemEntryState::LoadMe ==> es[k].rank_num <= es[i as int].rank_num
            &&& forall|k: int|
                i < k < es.len() && #[trigger] es[k].state == MemEntryState::LoadMe ==> es[k].rank_num < es[i as int].rank_num
        },
    }
}

} // verus!
