use raw_engine::error::Error;
use raw_engine::memlist::{MemEntryState, MemList, ResType};
use raw_engine::parts::{GAME_PART1, GAME_PART3};
use raw_engine::resource::Resource;
use raw_engine::storage::Storage;

/// One 20-byte directory record.
fn record(state: u8, kind: u8, buf_offset: u16, rank: u8, bank_id: u8, bank_offset: u32, packed: u16, size: u16) -> Vec<u8> {
    let mut r = vec![state, kind];
    r.extend_from_slice(&buf_offset.to_be_bytes());
    r.extend_from_slice(&[0, 0, rank, bank_id]);
    r.extend_from_slice(&bank_offset.to_be_bytes());
    r.extend_from_slice(&[0, 0]);
    r.extend_from_slice(&packed.to_be_bytes());
    r.extend_from_slice(&[0, 0]);
    r.extend_from_slice(&size.to_be_bytes());
    r
}

fn end_record() -> Vec<u8> {
    record(0xFF, 0, 0, 0, 0, 0, 0, 0)
}

/// A directory of `n` small verbatim resources in bank 1, each four bytes of
/// its own index, ranked by `rank(i)`.
fn game_data(n: usize, rank: impl Fn(usize) -> u8) -> (Vec<Vec<u8>>, Vec<u8>) {
    let mut bank = Vec::new();
    let mut dir = Vec::new();
    for i in 0..n {
        let kind = match i {
            0x14 => 3,
            0x15 => 4,
            _ => 5,
        };
        dir.extend(record(0, kind, (i * 4) as u16, rank(i), 1, (i * 4) as u32, 4, 4));
        bank.extend_from_slice(&[i as u8; 4]);
    }
    dir.extend(end_record());
    (vec![bank], dir)
}

#[test]
fn test_storage_load() {
    let (banks, dir) = game_data(0x20, |_| 1);
    let mut storage = Storage::new();
    assert_eq!(storage.load(banks, &dir), Ok(()));
    assert_eq!(storage.mem_list.entries.len(), 0x20);
    assert_eq!(storage.mem_list.entries[7].buffer, vec![7u8; 4]);
}

#[test]
fn test_read_entries() {
    let (banks, dir) = game_data(0x20, |_| 1);
    let mut res = Resource::new(Storage::new());
    assert_eq!(res.init(banks, &dir), Ok(()));
    assert_eq!(res.storage.mem_list.entries.len(), 0x20);
}

#[test]
fn directory_fields_are_read() {
    let mut dir = record(1, 9, 0x1234, 7, 3, 0x0102_0304, 0x10, 0x20);
    dir.extend(end_record());
    let mut list = MemList::new();
    assert_eq!(list.load(&dir), Ok(()));
    let e = &list.entries[0];
    assert_eq!(e.state, MemEntryState::Loaded);
    assert_eq!(e.res_type, ResType::Unknown(9));
    assert_eq!(e.buf_offset, 0x1234);
    assert_eq!(e.rank_num, 7);
    assert_eq!(e.bank_id, 3);
    assert_eq!(e.bank_offset, 0x0102_0304);
    assert_eq!(e.packed_size, 0x10);
    assert_eq!(e.size, 0x20);
}

#[test]
fn directory_without_end_is_refused() {
    let dir = record(0, 1, 0, 0, 1, 0, 4, 4);
    let mut list = MemList::new();
    assert_eq!(list.load(&dir), Err(Error::Directory));
}

#[test]
fn directory_with_unknown_state_is_refused() {
    let mut dir = record(7, 1, 0, 0, 1, 0, 4, 4);
    dir.extend(end_record());
    let mut list = MemList::new();
    assert_eq!(list.load(&dir), Err(Error::Directory));
}

#[test]
fn entry_states_and_kinds() {
    assert_eq!(MemEntryState::new(2), Ok(MemEntryState::LoadMe));
    assert_eq!(MemEntryState::new(0xFF), Ok(MemEntryState::EndOfMemList));
    assert_eq!(MemEntryState::new(3), Err(Error::Directory));
    assert_eq!(ResType::new(4), ResType::Bytecode);
    assert_eq!(ResType::new(200), ResType::Unknown(200));
}

#[test]
fn storage_refuses_missing_bank() {
    let mut dir = record(0, 1, 0, 0, 2, 0, 4, 4);
    dir.extend(end_record());
    let mut storage = Storage::new();
    assert_eq!(storage.load(vec![vec![0; 4]], &dir), Err(Error::BankRange));
}

#[test]
fn highest_rank_loads_first_and_last_of_equals_wins() {
    let (banks, dir) = game_data(6, |i| [3, 9, 2, 9, 1, 0][i]);
    let mut storage = Storage::new();
    storage.load(banks, &dir).unwrap();
    assert_eq!(storage.get_max_rank_entry_to_load(), None);
    for i in [0usize, 1, 3, 4] {
        storage.mem_list.entries[i].state = MemEntryState::LoadMe;
    }
    assert_eq!(storage.get_max_rank_entry_to_load(), Some(3));
}

#[test]
fn setup_part_loads_the_part_resources() {
    let (banks, dir) = game_data(0x20, |_| 1);
    let mut res = Resource::new(Storage::new());
    res.init(banks, &dir).unwrap();
    res.reset_mem_block();
    assert_eq!(res.setup_part(GAME_PART1), Ok(()));
    assert_eq!(res.current_part_id(), GAME_PART1);
    assert_eq!(res.seg_code_idx(), 0x15);
    assert_eq!(res.seg_cinematic_idx(), 0x16);
    for i in 0..0x20 {
        let want = if (0x14..=0x16).contains(&i) { MemEntryState::Loaded } else { MemEntryState::NotNeeded };
        assert_eq!(res.storage.mem_list.entries[i].state, want);
    }
    assert_eq!(res.mem_to_slice(0x15 * 4, 4), vec![0x15u8; 4]);
    assert_eq!(res.from_mem_u8(0, 0x16 * 4), 0x16);
}

#[test]
fn setup_part_refuses_unknown_part() {
    let mut res = Resource::new(Storage::new());
    assert_eq!(res.setup_part(0x1234), Err(Error::InvalidPart));
}

#[test]
fn setup_part_needs_the_slots_in_the_directory() {
    let (banks, dir) = game_data(4, |_| 1);
    let mut res = Resource::new(Storage::new());
    res.init(banks, &dir).unwrap();
    assert_eq!(res.setup_part(GAME_PART3), Err(Error::OutOfRange));
}

#[test]
fn nothing_loads_without_room() {
    let (banks, dir) = game_data(0x20, |_| 1);
    let mut res = Resource::new(Storage::new());
    res.init(banks, &dir).unwrap();
    assert_eq!(res.setup_part(GAME_PART1), Ok(()));
    assert_eq!(res.storage.mem_list.entries[0x15].state, MemEntryState::NotNeeded);
}

#[test]
fn bank_zero_is_not_loaded() {
    let mut dir = Vec::new();
    for i in 0..0x17u16 {
        dir.extend(record(0, 5, i * 4, 1, if i == 0x15 { 0 } else { 1 }, i as u32 * 4, 4, 4));
    }
    dir.extend(end_record());
    let mut res = Resource::new(Storage::new());
    res.init(vec![vec![1u8; 0x17 * 4]], &dir).unwrap();
    res.reset_mem_block();
    assert_eq!(res.setup_part(GAME_PART1), Ok(()));
    assert_eq!(res.storage.mem_list.entries[0x15].state, MemEntryState::NotNeeded);
    assert_eq!(res.storage.mem_list.entries[0x14].state, MemEntryState::Loaded);
}

#[test]
fn resource_past_directory_asks_for_a_part() {
    let (banks, dir) = game_data(0x20, |_| 1);
    let mut res = Resource::new(Storage::new());
    res.init(banks, &dir).unwrap();
    res.reset_mem_block();
    res.load_parts_or_mem_entry(0x3E81);
    assert_eq!(res.requested_next_part, Some(0x3E81));
    res.load_parts_or_mem_entry(3);
    assert_eq!(res.storage.mem_list.entries[3].state, MemEntryState::Loaded);
}

#[test]
fn invalidation_spares_palette_and_bytecode() {
    let (banks, dir) = game_data(0x20, |_| 1);
    let mut res = Resource::new(Storage::new());
    res.init(banks, &dir).unwrap();
    res.reset_mem_block();
    res.setup_part(GAME_PART1).unwrap();
    res.invalidate_res();
    assert_eq!(res.storage.mem_list.entries[0x14].state, MemEntryState::Loaded);
    assert_eq!(res.storage.mem_list.entries[0x15].state, MemEntryState::Loaded);
    assert_eq!(res.storage.mem_list.entries[0x16].state, MemEntryState::NotNeeded);
    res.invalidate_all();
    assert_eq!(res.storage.mem_list.entries[0x14].state, MemEntryState::NotNeeded);
}
