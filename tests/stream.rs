use raw_engine::error::Error;
use raw_engine::file::File;
use raw_engine::memlist::MemEntryState;
use raw_engine::program::Program;
use raw_engine::resource::Resource;
use raw_engine::serializer::{Mode, Serializer, Ver};
use raw_engine::slice_reader::SliceReader;
use raw_engine::storage::Storage;
use raw_engine::vm_context::VmContext;

#[test]
fn reads_big_endian_values() {
    let mut f = File::open(vec![0x12, 0x34, 0x56, 0x78, 0x9A, 0xBC, 0xDE]);
    assert_eq!(f.read_u8(), Ok(0x12));
    assert_eq!(f.read_u16(), Ok(0x3456));
    let mut buf = [0u8; 2];
    assert_eq!(f.read(&mut buf), Ok(()));
    assert_eq!(buf, [0x78, 0x9A]);
    assert_eq!(f.read_u32(), Err(Error::EndOfData));
    let mut big = [0u8; 3];
    assert_eq!(f.read(&mut big), Err(Error::EndOfData));
    assert_eq!(f.read_all(), vec![0xBC, 0xDE]);
    assert_eq!(f.read_u8(), Err(Error::EndOfData));
    assert_eq!(f.seek(1), Ok(()));
    assert_eq!(f.read_u32(), Ok(0x3456_789A));
    assert_eq!(f.seek(8), Err(Error::EndOfData));
}

#[test]
fn writes_big_endian_values() {
    let mut f = File::open(Vec::new());
    f.write_u8(1).unwrap();
    f.write_u16(0x0203).unwrap();
    f.write_u32(0x0405_0607).unwrap();
    f.write(&[8, 9]).unwrap();
    f.write_be(&[0x0B, 0x0A]).unwrap();
    assert_eq!(f.data, vec![1, 2, 3, 4, 5, 6, 7, 8, 9, 0x0A, 0x0B]);
    assert_eq!(f.write_be(&[1, 2, 3]), Err(Error::UnsupportedSize));
    f.seek(1).unwrap();
    f.write_u16(0xFFEE).unwrap();
    assert_eq!(f.data[..4], [1, 0xFF, 0xEE, 4]);
}

#[test]
fn slice_reader_reads_in_order() {
    let mut sr = SliceReader::new(vec![1, 2, 3, 4]);
    assert!(sr.can_read());
    assert!(!sr.is_empty());
    assert_eq!(sr.read_u8(), 1);
    assert_eq!(sr.read_u16(), 0x0203);
    assert_eq!(sr.pos(), 3);
    assert_eq!(sr.get_slice(1, 3), vec![2, 3]);
    sr.set_pos(4);
    assert!(!sr.can_read());
    assert_eq!(sr.get_data(), &vec![1, 2, 3, 4]);
}

#[test]
fn deep_calls_overflow() {
    // call 0x0000, forever
    let mut p = Program::new(0, 0, vec![0x04, 0x00, 0x00]);
    p.parse().unwrap();
    p.start();
    let mut ctx = VmContext::new(Resource::new(Storage::new()));
    for _ in 0..64 {
        assert_eq!(p.step(&mut ctx), Ok(()));
    }
    assert_eq!(p.step(&mut ctx), Err(Error::StackOverflow));
}

#[test]
fn channel_that_never_yields_is_runaway() {
    // jmp 0x0000, forever
    let mut p = Program::new(0, 0, vec![0x07, 0x00, 0x00]);
    p.parse().unwrap();
    p.start();
    let mut ctx = VmContext::new(Resource::new(Storage::new()));
    assert_eq!(p.exec(&mut ctx, 100), Err(Error::Runaway));
}

#[test]
fn bytes_that_decode_to_nothing_are_refused() {
    let mut p = Program::new(0, 0, vec![0x06, 0x20]);
    assert_eq!(p.parse(), Err(Error::InvalidOpcode));
}

#[test]
fn saved_state_loads_back() {
    let mut ctx = VmContext::new(Resource::new(Storage::new()));
    ctx.variables[0] = -2;
    ctx.variables[255] = 0x1234;
    ctx.threads_data[5].pc_offset = 0x0C00;
    ctx.threads_data[63].requested_state_active = false;
    let mut ser = Serializer::new(File::open(Vec::new()), Mode::Save, Ver(2));
    assert_eq!(ctx.save_or_load(&mut ser), Ok(()));
    assert_eq!(ser.stream.data.len(), 896);
    assert_eq!(&ser.stream.data[0..2], &[0xFF, 0xFE]);
    let saved = ser.stream.data.clone();
    let mut other = VmContext::new(Resource::new(Storage::new()));
    let mut ser = Serializer::new(File::open(saved.clone()), Mode::Load, Ver(2));
    assert_eq!(other.save_or_load(&mut ser), Ok(()));
    assert_eq!(other.variables, ctx.variables);
    assert_eq!(other.threads_data, ctx.threads_data);
    let mut old_state = Serializer::new(File::open(saved.clone()), Mode::Load, Ver(0));
    let mut third = VmContext::new(Resource::new(Storage::new()));
    assert_eq!(third.save_or_load(&mut old_state), Ok(()));
    assert_eq!(third.variables[0], 0);
    let mut short = Serializer::new(File::open(saved[..100].to_vec()), Mode::Load, Ver(1));
    assert_eq!(third.save_or_load(&mut short), Err(Error::EndOfData));
}

#[test]
fn saved_resources_load_back() {
    let mut dir = Vec::new();
    for i in 0..3u8 {
        dir.extend_from_slice(&[0, 5, 0, i * 4, 0, 0, 1, 1, 0, 0, 0, i * 4, 0, 0, 0, 4, 0, 0, 0, 4]);
    }
    dir.extend_from_slice(&[0xFF; 20]);
    let mut res = Resource::new(Storage::new());
    res.init(vec![vec![7u8; 12]], &dir).unwrap();
    res.storage.mem_list.entries[1].state = MemEntryState::Loaded;
    let mut ser = Serializer::new(File::open(Vec::new()), Mode::Save, Ver(2));
    assert_eq!(res.save_or_load(&mut ser), Ok(()));
    assert_eq!(ser.stream.data, vec![0, 0, 0, 1, 0]);
    let mut saved = ser.stream.data.clone();
    saved[0] = 0x3E;
    saved[1] = 0x81;
    let mut other = Resource::new(Storage::new());
    other.init(vec![vec![7u8; 12]], &dir).unwrap();
    let mut ser = Serializer::new(File::open(saved), Mode::Load, Ver(2));
    assert_eq!(other.save_or_load(&mut ser), Ok(()));
    assert_eq!(other.current_part_id(), 0x3E81);
    assert_eq!(other.seg_code_idx(), 0x18);
    assert_eq!(other.storage.mem_list.entries[1].state, MemEntryState::Loaded);
    let mut bad = Serializer::new(File::open(vec![0, 0, 0, 9, 0]), Mode::Load, Ver(2));
    assert_eq!(other.save_or_load(&mut bad), Err(Error::Directory));
}
