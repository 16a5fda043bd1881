use vstd::prelude::*;
use crate::error::Error;
use crate::memlist::be16;
use crate::slice_reader::SliceReader;

verus! {

/// An operand: a variable, an 8-bit value or a 16-bit value.
#[derive(Clone, Copy, Debug, PartialEq, Eq, Structural)]
pub enum OpType {
    Var(u8),
    Val1(u8),
    Val2(u16),
}

/// The relation of a conditional jump.
#[derive(Clone, Copy, Debug, PartialEq, Eq, Structural)]
pub enum JmpType {
    Je,
    Jne,
    Jg,
    Jge,
    Jl,
    Jle,
    Unknown(u8),
}

pub open spec fn jmp_type_of(oc: u8) -> JmpType {
    if oc == 0 {
        JmpType::Je
    } else if oc == 1 {
        JmpType::Jne
    } else if oc == 2 {
        JmpType::Jg
    } else if oc == 3 {
        JmpType::Jge
    } else if oc == 4 {
        JmpType::Jl
    } else if oc == 5 {
        JmpType::Jle
    } else {
        JmpType::Unknown(oc)
    }
}

impl JmpType {
    pub fn new(oc: u8) -> (r: Self)
        ensures
            r == jmp_type_of(oc),
    {
        match oc {
            0 => JmpType::Je,
            1 => JmpType::Jne,
            2 => JmpType::Jg,
            3 => JmpType::Jge,
            4 => JmpType::Jl,
            5 => JmpType::Jle,
            _ => JmpType::Unknown(oc),
        }
    }
}

/// What a reset of a range of channels does.
#[derive(Clone, Copy, Debug, PartialEq, Eq, Structural)]
pub enum ResetType {
    /// An empty range: nothing happens.
    Empty,
    Freeze,
    Unfreeze,
    Delete,
    Unknown(u8),
}

pub open spec fn reset_type_of(oc: u8) -> ResetType {
    if oc == 0 {
        ResetType::Freeze
    } else if oc == 1 {
        ResetType::Unfreeze
    } else if oc == 2 {
        ResetType::Delete
    } else {
        ResetType::Unknown(oc)
    }
}

impl ResetType {
    pub fn new(oc: u8) -> (r: Self)
        ensures
            r == reset_type_of(oc),
    {
        match oc {
            0 => ResetType::Freeze,
            1 => ResetType::Unfreeze,
            2 => ResetType::Delete,
            _ => ResetType::Unknown(oc),
        }
    }
}

/// One decoded instruction.
#[allow(inconsistent_fields)]
#[derive(Clone, Copy, Debug, PartialEq, Eq, Structural)]
pub enum Command {
    MovConst { var_id: u8, val: u16 },
    Mov { dst_id: u8, src_id: u8 },
    Add { dst_id: u8, src_id: u8 },
    AddConst { var_id: u8, val: u16 },
    Call { offset: u16 },
    Ret,
    PauseThread,
    Jmp { offset: u16 },
    SetVect { thr_id: u8, offset: u16 },
    Jnz { var_id: u8, offset: u16 },
    CondJmp { jmp_type: JmpType, var_id: u8, op2: OpType, offset: u16 },
    SetPalette { pal_id: u16 },
    ResetThread { reset_type: ResetType, first: u8, last: u8 },
    SelectVideoPage { page_id: u8 },
    FillVideoPage { page_id: u8, color: u8 },
    CopyVideoPage { src_page_id: u8, dst_page_id: u8 },
    BlitFramebuffer { page_id: u8 },
    KillThread,
    DrawString { str_id: u16, x: u8, y: u8, color: u8 },
    Sub { dst_id: u8, src_id: u8 },
    And { var_id: u8, val: u16 },
    Or { var_id: u8, val: u16 },
    Shl { var_id: u8, val: u16 },
    Shr { var_id: u8, val: u16 },
    PlaySound { res_id: u16, freq: u8, vol: u8, channel: u8 },
    UpdateMemList { res_id: u16 },
    PlayMusic { res_id: u16, delay: u16, pos: u8 },
    /// Draws the polygon at `offset` of the cinematic data, black, at unit zoom.
    Video1 { offset: usize, x: u8, y: u8 },
    Video2 { cinematic: bool, offset: usize, x: OpType, y: OpType, zoom: OpType },
}

impl Command {
    /// Decodes the instruction whose opcode byte `opcode` was just read; its
    /// operands follow at the reader's position.
    pub fn parse(opcode: u8, sr: &mut SliceReader) -> (r: Result<Command, Error>)
        requires
            old(sr).pos <= old(sr).data@.len(),
        ensures
            final(sr).data == old(sr).data,
            match decode(old(sr).data@, opcode, old(sr).pos as int) {
                None => r == Err::<Command, Error>(Error::InvalidOpcode),
                Some((cmd, end)) => r == Ok::<Command, Error>(cmd) && final(sr).pos == end,
            },
    {
        reveal(decode);
        if opcode <= 0x1A && opcode != 0x0A && opcode != 0x0C {
            return Self::parse_fixed(opcode, sr);
        }
        if opcode == 0x0A {
            return Self::parse_cond_jmp(sr);
        }
        if opcode == 0x0C {
            if !sr.has(3) {
                return Err(Error::InvalidOpcode);
            }
            let first = sr.read_u8();
            let last = sr.read_u8();
            let mode = sr.read_u8();
            if last < first {
                return Ok(Command::ResetThread { reset_type: ResetType::Empty, first, last });
            }
            let reset_type = ResetType::new(mode);
            return Ok(Command::ResetThread { reset_type, first, last });
        }
        if opcode & 0x80 != 0 {
            if !sr.has(3) {
                return Err(Error::InvalidOpcode);
            }
            let lo = sr.read_u8();
            let offset = (((opcode as usize) * 256 + lo as usize) * 2) % 0x10000;
            let x = sr.read_u8();
            let mut y = sr.read_u8();
            if y > 199 {
                y = 199;
            }
            return Ok(Command::Video1 { offset, x, y });
        }
        if opcode & 0x40 != 0 {
            return Self::parse_video2(opcode, sr);
        }
        Err(Error::InvalidOpcode)
    }

    fn parse_fixed(op: u8, sr: &mut SliceReader) -> (r: Result<Command, Error>)
        requires
            old(sr).pos <= old(sr).data@.len(),
            op <= 0x1A && op != 0x0A && op != 0x0C,
        ensures
            final(sr).data == old(sr).data,
            match decode(old(sr).data@, op, old(sr).pos as int) {
                None => r == Err::<Command, Error>(Error::InvalidOpcode),
                Some((cmd, end)) => r == Ok::<Command, Error>(cmd) && final(sr).pos == end,
            },
    {
        reveal(decode);
        let n: usize = if op == 0x05 || op == 0x06 || op == 0x11 {
            0
        } else if op == 0x0D || op == 0x10 {
            1
        } else if op == 0x01 || op == 0x02 || op == 0x04 || op == 0x07 || op == 0x0B || op == 0x0E || op == 0x0F
            || op == 0x13 || op == 0x19 {
            2
        } else if op == 0x00 || op == 0x03 || op == 0x08 || op == 0x09 || op == 0x14 || op == 0x15 || op == 0x16
            || op == 0x17 {
            3
        } else {
            5
        };
        if !sr.has(n) {
            return Err(Error::InvalidOpcode);
        }
        let cmd = match op {
            0x00 => {
                let var_id = sr.read_u8();
                Command::MovConst { var_id, val: sr.read_u16() }
            },
            0x01 => {
                let dst_id = sr.read_u8();
                Command::Mov { dst_id, src_id: sr.read_u8() }
            },
            0x02 => {
                let dst_id = sr.read_u8();
                Command::Add { dst_id, src_id: sr.read_u8() }
            },
            0x03 => {
                let var_id = sr.read_u8();
                Command::AddConst { var_id, val: sr.read_u16() }
            },
            0x04 => Command::Call { offset: sr.read_u16() },
            0x05 => Command::Ret,
            0x06 => Command::PauseThread,
            0x07 => Command::Jmp { offset: sr.read_u16() },
            0x08 => {
                let thr_id = sr.read_u8();
                Command::SetVect { thr_id, offset: sr.read_u16() }
            },
            0x09 => {
                let var_id = sr.read_u8();
                Command::Jnz { var_id, offset: sr.read_u16() }
            },
            0x0B => Command::SetPalette { pal_id: sr.read_u16() },
            0x0D => Command::SelectVideoPage { page_id: sr.read_u8() },
            0x0E => {
                let page_id = sr.read_u8();
                Command::FillVideoPage { page_id, color: sr.read_u8() }
            },
            0x0F => {
                let src_page_id = sr.read_u8();
                Command::CopyVideoPage { src_page_id, dst_page_id: sr.read_u8() }
            },
            0x10 => Command::BlitFramebuffer { page_id: sr.read_u8() },
            0x11 => Command::KillThread,
            0x12 => {
                let str_id = sr.read_u16();
                let x = sr.read_u8();
                let y = sr.read_u8();
                Command::DrawString { str_id, x, y, color: sr.read_u8() }
            },
            0x13 => {
                let dst_id = sr.read_u8();
                Command::Sub { dst_id, src_id: sr.read_u8() }
            },
            0x14 => {
                let var_id = sr.read_u8();
                Command::And { var_id, val: sr.read_u16() }
            },
            0x15 => {
                let var_id = sr.read_u8();
                Command::Or { var_id, val: sr.read_u16() }
            },
            0x16 => {
                let var_id = sr.read_u8();
                Command::Shl { var_id, val: sr.read_u16() }
            },
            0x17 => {
                let var_id = sr.read_u8();
                Command::Shr { var_id, val: sr.read_u16() }
            },
            0x18 => {
                let res_id = sr.read_u16();
                let freq = sr.read_u8();
                let vol = sr.read_u8();
                Command::PlaySound { res_id, freq, vol, channel: sr.read_u8() }
            },
            0x19 => Command::UpdateMemList { res_id: sr.read_u16() },
            _ => {
                let res_id = sr.read_u16();
                let delay = sr.read_u16();
                Command::PlayMusic { res_id, delay, pos: sr.read_u8() }
            },
        };
        Ok(cmd)
    }

    fn parse_cond_jmp(sr: &mut SliceReader) -> (r: Result<Command, Error>)
        requires
            old(sr).pos <= old(sr).data@.len(),
        ensures
            final(sr).data == old(sr).data,
            match decode_cond_jmp(old(sr).data@, old(sr).pos as int) {
                None => r == Err::<Command, Error>(Error::InvalidOpcode),
                Some((cmd, end)) => r == Ok::<Command, Error>(cmd) && final(sr).pos == end,
            },
    {
        if !sr.has(3) {
            return Err(Error::InvalidOpcode);
        }
        let oc = sr.read_u8();
        let var_id = sr.read_u8();
        let op2 = if oc & 0x80 != 0 {
            OpType::Var(sr.read_u8())
        } else if oc & 0x40 != 0 {
            if !sr.has(2) {
                return Err(Error::InvalidOpcode);
            }
            OpType::Val2(sr.read_u16())
        } else {
            OpType::Val1(sr.read_u8())
        };
        if !sr.has(2) || (oc & 7) > 5 {
            return Err(Error::InvalidOpcode);
        }
        let jmp_type = JmpType::new(oc & 7);
        Ok(Command::CondJmp { jmp_type, var_id, op2, offset: sr.read_u16() })
    }

    fn parse_video2(op: u8, sr: &mut SliceReader) -> (r: Result<Command, Error>)
        requires
            old(sr).pos <= old(sr).data@.len(),
        ensures
            final(sr).data == old(sr).data,
            match decode_video2(old(sr).data@, op, old(sr).pos as int) {
                None => r == Err::<Command, Error>(Error::InvalidOpcode),
                Some((cmd, end)) => r == Ok::<Command, Error>(cmd) && final(sr).pos == end,
            },
    {
        let x_wide = op & 0x20 == 0 && op & 0x10 == 0;
        let y_wide = op & 0x08 == 0 && op & 0x04 == 0;
        let z_byte = (op & 0x02 == 0 && op & 0x01 != 0) || (op & 0x02 != 0 && op & 0x01 == 0);
        let n: usize = 2 + (if x_wide { 2usize } else { 1 }) + (if y_wide { 2usize } else { 1 }) + (if z_byte {
            1usize
        } else {
            0
        });
        if !sr.has(n) {
            return Err(Error::InvalidOpcode);
        }
        let offset = (sr.read_u16() as usize) * 2;
        let x = if op & 0x20 == 0 {
            if op & 0x10 == 0 {
                OpType::Val2(sr.read_u16())
            } else {
                OpType::Var(sr.read_u8())
            }
        } else if op & 0x10 != 0 {
            OpType::Val2(sr.read_u8() as u16 + 0x100)
        } else {
            OpType::Val1(sr.read_u8())
        };
        let y = if op & 0x08 == 0 {
            if op & 0x04 == 0 {
                OpType::Val2(sr.read_u16())
            } else {
                OpType::Var(sr.read_u8())
            }
        } else {
            OpType::Val1(sr.read_u8())
        };
        let mut cinematic = true;
        let zoom = if op & 0x02 == 0 {
            if op & 0x01 == 0 {
                OpType::Val1(0x40)
            } else {
                OpType::Var(sr.read_u8())
            }
        } else if op & 0x01 != 0 {
            cinematic = false;
            OpType::Val1(0x40)
        } else {
            OpType::Val1(sr.read_u8())
        };
        Ok(Command::Video2 { cinematic, offset, x, y, zoom })
    }
}

/// The 16-bit value at `i`, as the decoder stores it.
pub open spec fn w16(c: Seq<u8>, i: int) -> u16 {
    be16(c, i) as u16
}

/// Operand bytes of the fixed-length opcodes.
pub open spec fn fixed_len(op: u8) -> nat {
    if op == 0x05 || op == 0x06 || op == 0x11 {
        0
    } else if op == 0x0D || op == 0x10 {
        1
    } else if op == 0x01 || op == 0x02 || op == 0x04 || op == 0x07 || op == 0x0B || op == 0x0E || op == 0x0F
        || op == 0x13 || op == 0x19 {
        2
    } else if op == 0x00 || op == 0x03 || op == 0x08 || op == 0x09 || op == 0x14 || op == 0x15 || op == 0x16
        || op == 0x17 {
        3
    } else {
        5
    }
}

/// The fixed-length instruction `op` with its operands from `p`.
pub open spec fn fixed_cmd(op: u8, c: Seq<u8>, p: int) -> Command {
    if op == 0x00 {
        Command::MovConst { var_id: c[p], val: w16(c, p + 1) }
    } else if op == 0x01 {
        Command::Mov { dst_id: c[p], src_id: c[p + 1] }
    } else if op == 0x02 {
        Command::Add { dst_id: c[p], src_id: c[p + 1] }
    } else if op == 0x03 {
        Command::AddConst { var_id: c[p], val: w16(c, p + 1) }
    } else if op == 0x04 {
        Command::Call { offset: w16(c, p) }
    } else if op == 0x05 {
        Command::Ret
    } else if op == 0x06 {
        Command::PauseThread
    } else if op == 0x07 {
        Command::Jmp { offset: w16(c, p) }
    } else if op == 0x08 {
        Command::SetVect { thr_id: c[p], offset: w16(c, p + 1) }
    } else if op == 0x09 {
        Command::Jnz { var_id: c[p], offset: w16(c, p + 1) }
    } else if op == 0x0B {
        Command::SetPalette { pal_id: w16(c, p) }
    } else if op == 0x0D {
        Command::SelectVideoPage { page_id: c[p] }
    } else if op == 0x0E {
        Command::FillVideoPage { page_id: c[p], color: c[p + 1] }
    } else if op == 0x0F {
        Command::CopyVideoPage { src_page_id: c[p], dst_page_id: c[p + 1] }
    } else if op == 0x10 {
        Command::BlitFramebuffer { page_id: c[p] }
    } else if op == 0x11 {
        Command::KillThread
    } else if op == 0x12 {
        Command::DrawString { str_id: w16(c, p), x: c[p + 2], y: c[p + 3], color: c[p + 4] }
    } else if op == 0x13 {
        Command::Sub { dst_id: c[p], src_id: c[p + 1] }
    } else if op == 0x14 {
        Command::And { var_id: c[p], val: w16(c, p + 1) }
    } else if op == 0x15 {
        Command::Or { var_id: c[p], val: w16(c, p + 1) }
    } else if op == 0x16 {
        Command::Shl { var_id: c[p], val: w16(c, p + 1) }
    } else if op == 0x17 {
        Command::Shr { var_id: c[p], val: w16(c, p + 1) }
    } else if op == 0x18 {
        Command::PlaySound { res_id: w16(c, p), freq: c[p + 2], vol: c[p + 3], channel: c[p + 4] }
    } else if op == 0x19 {
        Command::UpdateMemList { res_id: w16(c, p) }
    } else {
        Command::PlayMusic { res_id: w16(c, p), delay: w16(c, p + 2), pos: c[p + 4] }
    }
}

/// The instruction whose opcode byte is at `p - 1`, with the position after it;
/// `None` where no instruction starts or the bytes end inside one.
#[verifier::opaque]
pub open spec fn decode(c: Seq<u8>, op: u8, p: int) -> Option<(Command, int)> {
    if op <= 0x1A && op != 0x0A && op != 0x0C {
        if p + fixed_len(op) <= c.len() {
            Some((fixed_cmd(op, c, p), p + fixed_len(op)))
        } else {
            None
        }
    } else if op == 0x0A {
        decode_cond_jmp(c, p)
    } else if op == 0x0C {
        if p + 3 > c.len() {
            None
        } else if c[p + 1] < c[p] {
            Some((Command::ResetThread { reset_type: ResetType::Empty, first: c[p], last: c[p + 1] }, p + 3))
        } else {
            Some((Command::ResetThread { reset_type: reset_type_of(c[p + 2]), first: c[p], last: c[p + 1] }, p + 3))
        }
    } else if op & 0x80 != 0 {
        if p + 3 > c.len() {
            None
        } else {
            let offset = ((op as nat * 256 + c[p] as nat) * 2) % 0x10000;
            let y = if c[p + 2] > 199 { 199u8 } else { c[p + 2] };
            Some((Command::Video1 { offset: offset as usize, x: c[p + 1], y }, p + 3))
        }
    } else if op & 0x40 != 0 {
        decode_video2(c, op, p)
    } else {
        None
    }
}

/// A conditional jump: relation and operand kind, variable, operand, target.
pub open spec fn decode_cond_jmp(c: Seq<u8>, p: int) -> Option<(Command, int)> {
    if p + 3 > c.len() {
        None
    } else {
        let oc = c[p];
        let wide = oc & 0x80 == 0 && oc & 0x40 != 0;
        let q = if wide { p + 4 } else { p + 3 };
        let op2 = if oc & 0x80 != 0 {
            OpType::Var(c[p + 2])
        } else if oc & 0x40 != 0 {
            OpType::Val2(w16(c, p + 2))
        } else {
            OpType::Val1(c[p + 2])
        };
        if q + 2 > c.len() || (oc & 7) > 5 {
            None
        } else {
            Some((Command::CondJmp { jmp_type: jmp_type_of(oc & 7), var_id: c[p + 1], op2, offset: w16(c, q) }, q + 2))
        }
    }
}

/// The long polygon form: each of x, y and zoom is encoded as the opcode's bits say.
pub open spec fn decode_video2(c: Seq<u8>, op: u8, p: int) -> Option<(Command, int)> {
    let xp = p + 2;
    let x_wide = op & 0x20 == 0 && op & 0x10 == 0;
    let yp = if x_wide { xp + 2 } else { xp + 1 };
    let y_wide = op & 0x08 == 0 && op & 0x04 == 0;
    let zp = if y_wide { yp + 2 } else { yp + 1 };
    let z_byte = (op & 0x02 == 0 && op & 0x01 != 0) || (op & 0x02 != 0 && op & 0x01 == 0);
    let end = if z_byte { zp + 1 } else { zp };
    if end > c.len() {
        None
    } else {
        let x = if op & 0x20 == 0 {
            if op & 0x10 == 0 { OpType::Val2(w16(c, xp)) } else { OpType::Var(c[xp]) }
        } else if op & 0x10 != 0 {
            OpType::Val2((c[xp] as nat + 0x100) as u16)
        } else {
            OpType::Val1(c[xp])
        };
        let y = if op & 0x08 == 0 {
            if op & 0x04 == 0 { OpType::Val2(w16(c, yp)) } else { OpType::Var(c[yp]) }
        } else {
            OpType::Val1(c[yp])
        };
        let zoom = if op & 0x02 == 0 {
            if op & 0x01 == 0 { OpType::Val1(0x40) } else { OpType::Var(c[zp]) }
        } else if op & 0x01 != 0 {
            OpType::Val1(0x40)
        } else {
            OpType::Val1(c[zp])
        };
        let cinematic = !(op & 0x02 != 0 && op & 0x01 != 0);
        Some((Command::Video2 { cinematic, offset: (be16(c, p) * 2) as usize, x, y, zoom }, end))
    }
}

} // verus!
