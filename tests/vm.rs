use raw_engine::command::{Command, JmpType, OpType, ResetType};
use raw_engine::engine::Engine;
use raw_engine::error::Error;
use raw_engine::memlist::{MemEntryState, ResType};
use raw_engine::program::Program;
use raw_engine::resource::Resource;
use raw_engine::slice_reader::SliceReader;
use raw_engine::storage::Storage;
use raw_engine::system::{PlayerInput, Request};
use raw_engine::vm::VirtualMachine;
use raw_engine::vm_context::VmContext;

fn record(state: u8, kind: u8, buf_offset: u16, rank: u8, bank_id: u8, bank_offset: u32, packed: u16, size: u16) -> Vec<u8> {
    let mut r = vec![state, kind];
    r.extend_from_slice(&buf_offset.to_be_bytes());
    r.extend_from_slice(&[0, 0, rank, bank_id]);
    r.extend_from_slice(&bank_offset.to_be_bytes());
    r.extend_from_slice(&[0, 0]);
    r.extend_from_slice(&packed.to_be_bytes());
    r.extend_from_slice(&[0, 0]);
    r.extend_from_slice(&size.to_be_bytes());
    r
}

/// A game whose first part's bytecode is `code`; every other resource is four bytes.
fn game_with_code(code: &[u8]) -> (Vec<Vec<u8>>, Vec<u8>) {
    let mut bank = Vec::new();
    let mut dir = Vec::new();
    let mut buf_offset: u16 = 0;
    for i in 0..0x18usize {
        let bytes: Vec<u8> = if i == 0x15 { code.to_vec() } else { vec![i as u8; 4] };
        let kind = if i == 0x15 { 4 } else { 5 };
        let n = bytes.len() as u16;
        dir.extend(record(0, kind, buf_offset, 1, 1, bank.len() as u32, n, n));
        bank.extend(bytes);
        buf_offset += n;
    }
    dir.extend(record(0xFF, 0, 0, 0, 0, 0, 0, 0));
    (vec![bank], dir)
}

fn context() -> VmContext {
    VmContext::new(Resource::new(Storage::new()))
}

fn program(code: &[u8]) -> Program {
    let mut p = Program::new(0, 0, code.to_vec());
    p.parse().unwrap();
    p.start();
    p
}

#[test]
fn test_engine() {
    let (banks, dir) = game_with_code(&[0x10, 0x00, 0x06, 0x07, 0x00, 0x00]);
    let mut engine = Engine::new();
    assert_eq!(engine.init(banks, &dir, 1234), Ok(()));
    let mut input = PlayerInput::new();
    assert_eq!(engine.run(&mut input, 3), Ok(()));
    let presents = engine.vm.ctx.requests.iter().filter(|r| matches!(r, Request::Present { page: 0, .. })).count();
    assert_eq!(presents, 3);
    assert_eq!(engine.vm.ctx.threads_data[0].pc_offset, 3);
}

#[test]
fn quitting_runs_no_frame() {
    let (banks, dir) = game_with_code(&[0x10, 0x00, 0x06, 0x07, 0x00, 0x00]);
    let mut engine = Engine::new();
    engine.init(banks, &dir, 0).unwrap();
    let mut input = PlayerInput::new();
    input.quit = true;
    assert!(engine.is_quit(&input));
    assert_eq!(engine.run(&mut input, 3), Ok(()));
    assert_eq!(engine.vm.ctx.threads_data[0].pc_offset, 0);
}

#[test]
fn ret_with_empty_stack_underflows() {
    let mut dir = record(0, 4, 0, 1, 1, 0, 4, 4);
    dir.extend(record(0xFF, 0, 0, 0, 0, 0, 0, 0));
    let mut storage = Storage::new();
    storage.load(vec![vec![0x05, 0x06, 0x06, 0x06]], &dir).unwrap();
    assert_eq!(storage.mem_list.entries[0].res_type, ResType::Bytecode);
    let mut p = program(&storage.mem_list.entries[0].buffer);
    let mut ctx = context();
    assert_eq!(p.step(&mut ctx), Err(Error::StackUnderflow));
    let mut p = program(&storage.mem_list.entries[0].buffer);
    assert_eq!(p.exec(&mut ctx, 10), Err(Error::StackUnderflow));
}

#[test]
fn call_and_return() {
    // call 0x0005; pause; ... at 5: ret
    let mut p = program(&[0x04, 0x00, 0x05, 0x06, 0x06, 0x05]);
    let mut ctx = context();
    p.step(&mut ctx).unwrap();
    assert_eq!(p.addr(), 5);
    p.step(&mut ctx).unwrap();
    assert_eq!(p.addr(), 3);
}

#[test]
fn jump_to_no_instruction_is_unresolved() {
    let mut p = program(&[0x07, 0x00, 0x02, 0x06]);
    let mut ctx = context();
    assert_eq!(p.step(&mut ctx), Err(Error::UnresolvedJump));
    assert_eq!(p.goto_addr(3), Ok(()));
    assert_eq!(p.ip(), 1);
}

#[test]
fn add_const_wraps_around() {
    // mov v0, 32767; add v0, 1
    let mut p = program(&[0x00, 0x00, 0x7F, 0xFF, 0x03, 0x00, 0x00, 0x01]);
    let mut ctx = context();
    p.step(&mut ctx).unwrap();
    assert_eq!(ctx.variables[0], 32767);
    p.step(&mut ctx).unwrap();
    assert_eq!(ctx.variables[0], -32768);
}

#[test]
fn variable_arithmetic() {
    let code = [
        0x00, 0x01, 0x00, 0x06, // v1 = 6
        0x01, 0x02, 0x01, // v2 = v1
        0x02, 0x02, 0x01, // v2 += v1
        0x13, 0x02, 0x01, // v2 -= v1
        0x16, 0x02, 0x00, 0x02, // v2 <<= 2
        0x17, 0x02, 0x00, 0x01, // v2 >>= 1
        0x14, 0x02, 0x00, 0x0A, // v2 &= 10
        0x15, 0x02, 0x00, 0x01, // v2 |= 1
    ];
    let mut p = program(&code);
    let mut ctx = context();
    p.step(&mut ctx).unwrap();
    assert_eq!(ctx.variables[1], 6);
    for want in [6i16, 12, 6, 24, 12, 8, 9] {
        p.step(&mut ctx).unwrap();
        assert_eq!(ctx.variables[2], want);
    }
}

#[test]
fn jnz_counts_down() {
    // v3 = 2; loop: jnz v3, loop(4); pause
    let mut p = program(&[0x00, 0x03, 0x00, 0x02, 0x09, 0x03, 0x00, 0x04, 0x06]);
    let mut ctx = context();
    p.step(&mut ctx).unwrap();
    p.step(&mut ctx).unwrap();
    assert_eq!(ctx.variables[3], 1);
    assert_eq!(p.addr(), 4);
    p.step(&mut ctx).unwrap();
    assert_eq!(ctx.variables[3], 0);
    assert_eq!(p.addr(), 8);
}

#[test]
fn conditional_jump_relations() {
    // v4 = 5; jg v4, 3 -> 0x000B; pause; (0x0B) kill
    let code = [0x00, 0x04, 0x00, 0x05, 0x0A, 0x02, 0x04, 0x03, 0x00, 0x0B, 0x06, 0x11];
    let mut p = program(&code);
    let mut ctx = context();
    p.step(&mut ctx).unwrap();
    p.step(&mut ctx).unwrap();
    assert_eq!(p.addr(), 11);
    p.step(&mut ctx).unwrap();
    assert!(!p.is_active());
    assert!(ctx.goto_next_thread);
}

#[test]
fn decode_forms() {
    let mut sr = SliceReader::new(vec![0x82, 0x10, 0x20, 0xF0]);
    let op = sr.read_u8();
    assert_eq!(Command::parse(op, &mut sr), Ok(Command::Video1 { offset: 0x0420, x: 0x20, y: 199 }));
    let mut sr = SliceReader::new(vec![0x0A, 0x40, 0x07, 0x01, 0x02, 0x00, 0x10]);
    let op = sr.read_u8();
    assert_eq!(
        Command::parse(op, &mut sr),
        Ok(Command::CondJmp { jmp_type: JmpType::Je, var_id: 7, op2: OpType::Val2(0x0102), offset: 0x0010 })
    );
    let mut sr = SliceReader::new(vec![0x0C, 0x0A, 0x03, 0x02]);
    let op = sr.read_u8();
    assert_eq!(
        Command::parse(op, &mut sr),
        Ok(Command::ResetThread { reset_type: ResetType::Empty, first: 10, last: 3 })
    );
    assert_eq!(sr.pos(), 4);
    let mut short = SliceReader::new(vec![0x0C, 0x0A, 0x03]);
    let op = short.read_u8();
    assert_eq!(Command::parse(op, &mut short), Err(Error::InvalidOpcode));
    let mut sr = SliceReader::new(vec![0x7B, 0x00, 0x10, 0x05, 0x06, 0x07]);
    let op = sr.read_u8();
    assert_eq!(
        Command::parse(op, &mut sr),
        Ok(Command::Video2 {
            cinematic: false,
            offset: 0x20,
            x: OpType::Val2(0x105),
            y: OpType::Val1(6),
            zoom: OpType::Val1(0x40),
        })
    );
    assert_eq!(sr.pos(), 5);
    let mut sr = SliceReader::new(vec![0x3F]);
    let op = sr.read_u8();
    assert_eq!(Command::parse(op, &mut sr), Err(Error::InvalidOpcode));
    let mut sr = SliceReader::new(vec![0x00, 0x01]);
    let op = sr.read_u8();
    assert_eq!(Command::parse(op, &mut sr), Err(Error::InvalidOpcode));
}

#[test]
fn reset_range_of_one_channel() {
    let mut ctx = context();
    let before = ctx.threads_data.clone();
    assert_eq!(ctx.reset_threads(ResetType::Freeze, 5, 5), Ok(()));
    for k in 0..64 {
        if k == 5 {
            assert!(!ctx.threads_data[k].requested_state_active);
            assert_eq!(ctx.threads_data[k].requested_pc_offset, before[k].requested_pc_offset);
        } else {
            assert_eq!(ctx.threads_data[k], before[k]);
        }
    }
}

#[test]
fn reversed_reset_range_does_nothing() {
    let mut sr = SliceReader::new(vec![0x0C, 10, 3, 2]);
    let op = sr.read_u8();
    let cmd = Command::parse(op, &mut sr).unwrap();
    let mut ctx = context();
    let before = ctx.threads_data.clone();
    for t in [ResetType::Freeze, ResetType::Unfreeze, ResetType::Delete] {
        assert_eq!(ctx.reset_threads(t, 10, 3), Ok(()));
        assert_eq!(ctx.threads_data, before);
    }
    let mut p = program(&[0x0C, 10, 3, 2]);
    assert!(matches!(cmd, Command::ResetThread { .. }));
    assert_eq!(p.step(&mut ctx), Ok(()));
    assert_eq!(ctx.threads_data, before);
    assert_eq!(ctx.reset_threads(ResetType::Delete, 60, 64), Err(Error::OutOfRange));
}

#[test]
fn set_vector_takes_effect_at_the_barrier() {
    let (banks, dir) = game_with_code(&[0x08, 0x02, 0x00, 0x09, 0x06, 0x06, 0x06, 0x06, 0x06, 0x06, 0x06, 0x06]);
    let mut engine = Engine::new();
    engine.init(banks, &dir, 0).unwrap();
    let vm: &mut VirtualMachine = &mut engine.vm;
    vm.check_thread_requests().unwrap();
    vm.host_frame().unwrap();
    assert_eq!(vm.ctx.threads_data[2].pc_offset, 0xFFFF);
    assert_eq!(vm.ctx.threads_data[2].requested_pc_offset, 9);
    vm.check_thread_requests().unwrap();
    assert_eq!(vm.ctx.threads_data[2].pc_offset, 9);
    assert_eq!(vm.ctx.threads_data[2].requested_pc_offset, 0xFFFF);
}

#[test]
fn sound_and_music_requests() {
    let (banks, dir) = game_with_code(&[0x06]);
    let mut engine = Engine::new();
    engine.init(banks, &dir, 0).unwrap();
    let ctx = &mut engine.vm.ctx;
    let n = ctx.requests.len();
    assert_eq!(ctx.play_sound(0x16, 2, 0x50, 5), Ok(()));
    assert_eq!(ctx.requests[n], Request::PlaySound { data_offset: ctx.res.storage.mem_list.entries[0x16].buf_offset + 8, freq: 0x0E91, volume: 0x3F, channel: 1 });
    assert_eq!(ctx.play_sound(0x16, 40, 1, 0), Err(Error::OutOfRange));
    assert_eq!(ctx.play_sound(0x40, 1, 1, 0), Err(Error::OutOfRange));
    assert_eq!(ctx.res.storage.mem_list.entries[3].state, MemEntryState::NotNeeded);
    let n = ctx.requests.len();
    assert_eq!(ctx.play_sound(3, 1, 1, 0), Ok(()));
    assert_eq!(ctx.requests.len(), n);
    ctx.play_music(0, 7, 0);
    assert_eq!(ctx.requests[n], Request::SetMusicDelay { delay: 7 });
    ctx.update_mem_list(0);
    assert_eq!(ctx.requests[n + 2], Request::StopAllSounds);
}

#[test]
fn player_input_sets_variables() {
    let mut ctx = context();
    let mut input = PlayerInput::new();
    input.dir_mask = 2 | 8;
    input.button = true;
    ctx.inp_update_player(&mut input);
    assert_eq!(ctx.variables[0xFC], 1);
    assert_eq!(ctx.variables[0xE5], 1);
    assert_eq!(ctx.variables[0xFB], 1);
    assert_eq!(ctx.variables[0xFD], 5);
    assert_eq!(ctx.variables[0xFA], 1);
    assert_eq!(ctx.variables[0xFE], 0x85);
}

#[test]
fn first_part_program_is_patched() {
    let mut code = vec![0x06u8; 0xE00];
    code[0xCB9] = 0;
    let p = Program::new(0x15, 0x3E80, code.clone());
    assert_eq!(p.code[0xCB9], 0x81);
    assert_eq!(p.code[0xCBC], 0x0D);
    assert_eq!(p.code[0xCBD], 0x24);
    assert_eq!(p.code[0xD52], 0x0D);
    assert_eq!(p.code[0xD53], 0x5A);
    let q = Program::new(0x15, 0x3E81, code.clone());
    assert_eq!(q.code, code);
}

#[test]
fn killed_channel_is_saved_inactive() {
    // set-vector channel 1 to 0x0005; pause | (5) kill
    let (banks, dir) = game_with_code(&[0x08, 0x01, 0x00, 0x05, 0x06, 0x11]);
    let mut engine = Engine::new();
    engine.init(banks, &dir, 0).unwrap();
    let mut input = PlayerInput::new();
    engine.run(&mut input, 1).unwrap();
    assert_eq!(engine.vm.ctx.threads_data[0].pc_offset, 5);
    assert_eq!(engine.vm.ctx.threads_data[1].pc_offset, 0xFFFF);
    assert_eq!(engine.vm.ctx.threads_data[1].requested_pc_offset, 5);
    engine.run(&mut input, 1).unwrap();
    assert_eq!(engine.vm.ctx.threads_data[0].pc_offset, 0xFFFF);
    assert_eq!(engine.vm.ctx.threads_data[1].pc_offset, 0xFFFF);
    assert_eq!(engine.vm.ctx.threads_data[1].requested_pc_offset, 0xFFFF);
}

#[test]
fn part_switch_waits_for_the_barrier() {
    let (banks, dir) = game_with_code(&[0x06, 0x07, 0x00, 0x00]);
    let mut engine = Engine::new();
    engine.init(banks, &dir, 0).unwrap();
    engine.vm.ctx.threads_data[9].pc_offset = 1;
    engine.vm.ctx.update_mem_list(0x3E81);
    assert_eq!(engine.vm.ctx.res.requested_next_part, Some(0x3E81));
    assert_eq!(engine.vm.ctx.res.current_part_id(), 0x3E80);
    assert_eq!(engine.vm.check_thread_requests(), Err(Error::OutOfRange));
}
