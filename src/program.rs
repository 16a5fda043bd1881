use vstd::prelude::*;
use crate::command::{Command, JmpType, OpType, ResetType, decode};
use crate::system::Request;
use crate::vm_context::{VmContext, VM_NUM_THREADS, VM_VARIABLE_SCROLL_Y, ThreadData, ctx_is, blit_post, mem_list_post, music_request, sound_result, sound_request};
use crate::error::Error;
use crate::parts::GAME_PART_FIRST;
use crate::slice_reader::SliceReader;

verus! {

/// Nested calls a program may make.
pub const MAX_CALL_DEPTH: usize = 64;

/// Where the first part's program is patched, and what goes there: two
/// conditional jumps of the copy protection are made to always pass.
pub open spec fn patched(c: Seq<u8>) -> Seq<u8> {
    c.update(0xCB9, 0x81).update(0xCBC, 0x0D).update(0xCBD, 0x24).update(0xD52, 0x0D).update(0xD53, 0x5A)
}

/// The bytes from `p` on are a whole number of instructions.
#[verifier::opaque]
pub open spec fn decodes(c: Seq<u8>, p: int) -> bool
    decreases c.len() - p,
{
    if p >= c.len() {
        p == c.len()
    } else if p < 0 {
        false
    } else {
        match decode(c, c[p], p + 1) {
            None => false,
            Some((_, e)) => if p < e <= c.len() {
                decodes(c, e)
            } else {
                false
            },
        }
    }
}

/// Instruction `k` is (address, instruction, length), decoded at its address.
pub open spec fn instr_at(c: Seq<u8>, ins: Seq<(usize, Command, usize)>, k: int) -> bool {
    let (a, cmd, n) = ins[k];
    a < c.len() && decode(c, c[a as int], a + 1) == Some((cmd, a + n))
}

/// The instructions cover the bytes from `0` up to `end`, one after another.
#[verifier::opaque]
pub open spec fn chain(c: Seq<u8>, ins: Seq<(usize, Command, usize)>, end: int) -> bool {
    &&& forall|k: int| 0 <= k < ins.len() ==> instr_at(c, ins, k)
    &&& ins.len() > 0 ==> ins[0].0 == 0
    &&& forall|k: int| 0 < k < ins.len() ==> #[trigger] ins[k].0 == ins[k - 1].0 + ins[k - 1].2
    &&& end == if ins.len() == 0 { 0 } else { ins.last().0 + ins.last().2 }
}

/// `m` maps each address to one plus the index of the instruction there, zero
/// where none starts.
#[verifier::opaque]
pub open spec fn addr_map(ins: Seq<(usize, Command, usize)>, m: Seq<usize>) -> bool {
    &&& forall|a: int| 0 <= a < m.len() && #[trigger] m[a] != 0 ==> m[a] - 1 < ins.len() && ins[m[a] - 1].0 == a
    &&& forall|k: int| 0 <= k < ins.len() ==> #[trigger] ins[k].0 < m.len() && m[ins[k].0 as int] == k + 1
}

/// A loaded bytecode resource, decoded.
pub struct Program {
    pub id: usize,
    pub part_id: u16,
    pub code: Vec<u8>,
    pub active: bool,
    pub instructions: Vec<(usize, Command, usize)>,
    pub addr_ip: Vec<usize>,
    pub ip: usize,
    pub return_stack: Vec<usize>,
}

impl Program {
    /// The address table matches the instructions.
    pub open spec fn wf(&self) -> bool {
        &&& addr_map(self.instructions@, self.addr_ip@)
        &&& forall|k: int| 0 <= k < self.instructions@.len() ==> instr_at(self.code@, self.instructions@, k)
    }

    /// Holds the bytes of resource `id`; the first part's program gets its copy
    /// protection patched out.
    pub fn new(id: usize, part_id: u16, code: Vec<u8>) -> (r: Self)
        ensures
            r.wf(),
            r.id == id,
            r.part_id == part_id,
            r.code@ == if part_id == GAME_PART_FIRST && code@.len() > 0xD53 {
                patched(code@)
            } else {
                code@
            },
            r.instructions@.len() == 0,
            r.ip == 0,
            !r.active,
            r.return_stack@.len() == 0,
    {
        proof {
            reveal(addr_map);
        }
        let mut code = code;
        if part_id == GAME_PART_FIRST && code.len() > 0xD53 {
            let ip: usize = 0xCB9;
            code.set(ip, 0x81);
            code.set(ip + 0x03, 0x0D);
            code.set(ip + 0x04, 0x24);
            code.set(ip + 0x99, 0x0D);
            code.set(ip + 0x9A, 0x5A);
        }
        Program {
            id,
            part_id,
            code,
            active: false,
            instructions: Vec::new(),
            addr_ip: Vec::new(),
            ip: 0,
            return_stack: Vec::new(),
        }
    }

    pub fn ip(&self) -> (r: usize)
        ensures
            r == self.ip,
    {
        self.ip
    }

    /// The address of the current instruction.
    pub fn addr(&self) -> (r: usize)
        requires
            self.ip < self.instructions@.len(),
        ensures
            r == self.instructions@[self.ip as int].0,
    {
        self.instructions[self.ip].0
    }

    pub fn is_active(&self) -> (r: bool)
        ensures
            r == self.active,
    {
        self.active
    }

    pub fn start(&mut self)
        ensures
            final(self).ip == 0,
            final(self).active,
            final(self).code == old(self).code,
            final(self).instructions == old(self).instructions,
            final(self).addr_ip == old(self).addr_ip,
            final(self).return_stack == old(self).return_stack,
            final(self).part_id == old(self).part_id,
            final(self).id == old(self).id,
    {
        self.ip = 0;
        self.active = true;
    }

    /// Moves to the instruction at `addr`.
    pub fn goto_addr(&mut self, addr: u16) -> (r: Result<(), Error>)
        requires
            old(self).wf(),
        ensures
            final(self).wf(),
            final(self).code == old(self).code,
            final(self).instructions == old(self).instructions,
            final(self).addr_ip == old(self).addr_ip,
            final(self).return_stack == old(self).return_stack,
            final(self).active == old(self).active,
            final(self).part_id == old(self).part_id,
            final(self).id == old(self).id,
            r is Ok <==> has_addr(old(self).instructions@, addr as int),
            r is Ok ==> at_addr(*final(self), addr as int),
            r is Err ==> r == Err::<(), Error>(Error::UnresolvedJump) && final(self).ip == old(self).ip,
    {
        reveal(addr_map);
        let a = addr as usize;
        if a < self.addr_ip.len() && self.addr_ip[a] != 0 {
            self.ip = self.addr_ip[a] - 1;
            Ok(())
        } else {
            proof {
                if has_addr(self.instructions@, addr as int) {
                    let k = choose|k: int| 0 <= k < self.instructions@.len() && #[trigger] self.instructions@[k].0 == addr;
                    assert(self.addr_ip@[self.instructions@[k].0 as int] == k + 1);
                }
            }
            Err(Error::UnresolvedJump)
        }
    }

    /// Decodes the whole program, from address 0 to its end.
    pub fn parse(&mut self) -> (r: Result<(), Error>)
        requires
            old(self).wf(),
        ensures
            final(self).wf(),
            final(self).code == old(self).code,
            final(self).part_id == old(self).part_id,
            final(self).id == old(self).id,
            final(self).active == old(self).active,
            final(self).ip == old(self).ip,
            final(self).return_stack == old(self).return_stack,
            r is Ok <==> decodes(old(self).code@, 0),
            r is Ok ==> chain(final(self).code@, final(self).instructions@, final(self).code@.len() as int),
            r is Err ==> r == Err::<(), Error>(Error::InvalidOpcode),
    {
        let ghost c = self.code@;
        let n = self.code.len();
        let mut addr_ip: Vec<usize> = Vec::new();
        let mut k: usize = 0;
        while k < n
            invariant
                k <= n,
                addr_ip@ == Seq::new(k as nat, |i: int| 0usize),
            decreases n - k,
        {
            addr_ip.push(0);
            k = k + 1;
            assert(addr_ip@ =~= Seq::new(k as nat, |i: int| 0usize));
        }
        let mut instructions: Vec<(usize, Command, usize)> = Vec::new();
        let mut sr = SliceReader::new(self.code.clone());
        assert(sr.data@ =~= c);
        proof {
            lemma_chain_start(c, addr_ip@);
            assert(instructions@ =~= Seq::empty());
        }
        while sr.can_read()
            invariant
                sr.data@ == c,
                c == self.code@,
                c == old(self).code@,
                n == c.len(),
                sr.pos <= n,
                addr_ip@.len() == n,
                chain(c, instructions@, sr.pos as int),
                instructions@.len() <= sr.pos,
                addr_map(instructions@, addr_ip@),
                forall|a: int| sr.pos <= a < n ==> #[trigger] addr_ip@[a] == 0,
                decodes(c, 0) == decodes(c, sr.pos as int),
                self.part_id == old(self).part_id,
                self.id == old(self).id,
                self.active == old(self).active,
                self.ip == old(self).ip,
                self.return_stack == old(self).return_stack,
                self.wf() == old(self).wf(),
                old(self).wf(),
            decreases n - sr.pos,
        {
            let addr = sr.pos();
            let opcode = sr.read_u8();
            let cmd = match Command::parse(opcode, &mut sr) {
                Ok(cmd) => cmd,
                Err(e) => {
                    proof {
                        lemma_decodes_fail(c, addr as int);
                    }
                    return Err(e);
                },
            };
            let ghost old_ins = instructions@;
            let ghost old_map = addr_ip@;
            let end = sr.pos();
            proof {
                lemma_decode_end(c, opcode, addr + 1);
                lemma_chain_push(c, old_ins, old_map, addr as int, cmd, end as int);
            }
            addr_ip.set(addr, instructions.len() + 1);
            instructions.push((addr, cmd, end - addr));
        }
        proof {
            lemma_chain_start(c, Seq::empty());
            lemma_wf_of_chain(c, instructions@, addr_ip@);
        }
        self.instructions = instructions;
        self.addr_ip = addr_ip;
        Ok(())
    }
}

/// The value of an operand.
pub open spec fn operand(v: Seq<i16>, o: OpType) -> i16 {
    match o {
        OpType::Var(i) => v[i as int],
        OpType::Val1(x) => x as i16,
        OpType::Val2(x) => x as i16,
    }
}

/// The value of a zoom operand.
pub open spec fn zoom_operand(v: Seq<i16>, o: OpType) -> u16 {
    match o {
        OpType::Var(i) => v[i as int] as u16,
        OpType::Val1(x) => x as u16,
        OpType::Val2(x) => x,
    }
}

/// Whether a conditional jump is taken.
pub open spec fn cond_holds(t: JmpType, a: i16, b: i16) -> bool {
    match t {
        JmpType::Je => a == b,
        JmpType::Jne => a != b,
        JmpType::Jg => a > b,
        JmpType::Jge => a >= b,
        JmpType::Jl => a < b,
        JmpType::Jle => a <= b,
        JmpType::Unknown(_) => false,
    }
}

/// A left shift of a 16-bit variable; all bits go at sixteen places or more.
pub open spec fn shl16(v: i16, n: u16) -> i16 {
    if n >= 16 {
        0
    } else {
        ((v as u16) << (n as u16)) as i16
    }
}

/// An arithmetic right shift of a 16-bit variable; only the sign is left at
/// sixteen places or more.
pub open spec fn shr16(v: i16, n: u16) -> i16 {
    if n >= 16 {
        if v < 0 { -1i16 } else { 0i16 }
    } else {
        v >> (n as i16)
    }
}

/// The instructions that only compute on the variables.
pub open spec fn var_only(cmd: Command) -> bool {
    match cmd {
        Command::MovConst { .. } | Command::Mov { .. } | Command::Add { .. } | Command::AddConst { .. } | Command::Sub {
            ..
        } | Command::And { .. } | Command::Or { .. } | Command::Shl { .. } | Command::Shr { .. } => true,
        _ => false,
    }
}

/// The variables after such an instruction; arithmetic wraps around at 16 bits.
pub open spec fn var_effect(cmd: Command, v: Seq<i16>) -> Seq<i16> {
    match cmd {
        Command::MovConst { var_id, val } => v.update(var_id as int, val as i16),
        Command::Mov { dst_id, src_id } => v.update(dst_id as int, v[src_id as int]),
        Command::Add { dst_id, src_id } => v.update(dst_id as int, v[dst_id as int].wrapping_add(v[src_id as int])),
        Command::AddConst { var_id, val } => v.update(var_id as int, v[var_id as int].wrapping_add(val as i16)),
        Command::Sub { dst_id, src_id } => v.update(dst_id as int, v[dst_id as int].wrapping_sub(v[src_id as int])),
        Command::And { var_id, val } => v.update(var_id as int, v[var_id as int] & (val as i16)),
        Command::Or { var_id, val } => v.update(var_id as int, v[var_id as int] | (val as i16)),
        Command::Shl { var_id, val } => v.update(var_id as int, shl16(v[var_id as int], val)),
        Command::Shr { var_id, val } => v.update(var_id as int, shr16(v[var_id as int], val)),
        _ => v,
    }
}

/// No channel's live program counter or active flag changed.
pub open spec fn live_kept(a: Seq<ThreadData>, b: Seq<ThreadData>) -> bool {
    &&& a.len() == b.len()
    &&& forall|k: int| 0 <= k < a.len() ==> #[trigger] b[k].pc_offset == a[k].pc_offset && b[k].cur_state_active
        == a[k].cur_state_active
}

/// The current instruction is the one at `addr`.
pub open spec fn at_addr(p: Program, addr: int) -> bool {
    p.ip < p.instructions@.len() && p.instructions@[p.ip as int].0 == addr
}

/// A decoded instruction ends inside the bytes, after its opcode.
proof fn lemma_decode_end(c: Seq<u8>, op: u8, p: int)
    requires
        0 <= p,
        decode(c, op, p) is Some,
    ensures
        p <= decode(c, op, p)->Some_0.1 <= c.len(),
{
    reveal(decode);
}

/// Appending the instruction decoded at the end of a chain extends the chain and
/// the address table.
proof fn lemma_chain_push(
    c: Seq<u8>,
    ins: Seq<(usize, Command, usize)>,
    m: Seq<usize>,
    addr: int,
    cmd: Command,
    end: int,
)
    requires
        chain(c, ins, addr),
        addr_map(ins, m),
        m.len() == c.len(),
        0 <= addr < end <= c.len(),
        forall|a: int| addr <= a < c.len() ==> #[trigger] m[a] == 0,
        decode(c, c[addr], addr + 1) == Some((cmd, end)),
        end - addr <= usize::MAX,
        ins.len() + 1 <= usize::MAX,
        c.len() <= usize::MAX,
    ensures
        chain(c, ins.push((addr as usize, cmd, (end - addr) as usize)), end),
        addr_map(ins.push((addr as usize, cmd, (end - addr) as usize)), m.update(addr, (ins.len() + 1) as usize)),
        forall|a: int| end <= a < c.len() ==> #[trigger] m.update(addr, (ins.len() + 1) as usize)[a] == 0,
        decodes(c, addr) == decodes(c, end),
{
    reveal(chain);
    reveal(addr_map);
    reveal(decodes);
    let ins2 = ins.push((addr as usize, cmd, (end - addr) as usize));
    let m2 = m.update(addr, (ins.len() + 1) as usize);
    assert(instr_at(c, ins2, ins.len() as int));
    assert forall|j: int| 0 <= j < ins2.len() implies instr_at(c, ins2, j) by {
        if j < ins.len() {
            assert(ins2[j] == ins[j]);
            assert(instr_at(c, ins, j));
        }
    }
    assert forall|j: int| 0 < j < ins2.len() implies #[trigger] ins2[j].0 == ins2[j - 1].0 + ins2[j - 1].2 by {
        if j < ins.len() {
            assert(ins2[j] == ins[j]);
            assert(ins2[j - 1] == ins[j - 1]);
        }
    }
    lemma_chain_below(c, ins, addr);
    assert forall|a: int| 0 <= a < m2.len() && #[trigger] m2[a] != 0 implies m2[a] - 1 < ins2.len() && ins2[m2[a]
        - 1].0 == a by {
        if a != addr {
            assert(m[a] == m2[a]);
        }
    }
    assert forall|j: int| 0 <= j < ins2.len() implies #[trigger] ins2[j].0 < m2.len() && m2[ins2[j].0 as int] == j
        + 1 by {
        if j < ins.len() {
            assert(ins2[j] == ins[j]);
        }
    }
}

/// A chain's instructions each decode at their address.
proof fn lemma_wf_of_chain(c: Seq<u8>, ins: Seq<(usize, Command, usize)>, m: Seq<usize>)
    requires
        chain(c, ins, c.len() as int),
    ensures
        forall|k: int| 0 <= k < ins.len() ==> instr_at(c, ins, k),
{
    reveal(chain);
}

/// Where no instruction can be decoded, the rest does not decode.
proof fn lemma_decodes_fail(c: Seq<u8>, addr: int)
    requires
        0 <= addr < c.len(),
        decode(c, c[addr], addr + 1) is None,
    ensures
        !decodes(c, addr),
{
    reveal(decodes);
}

/// An empty program, and the start of every program, are a chain with an empty table.
proof fn lemma_chain_start(c: Seq<u8>, m: Seq<usize>)
    requires
        forall|a: int| 0 <= a < m.len() ==> #[trigger] m[a] == 0,
    ensures
        chain(c, Seq::empty(), 0),
        addr_map(Seq::empty(), m),
        decodes(c, c.len() as int),
{
    reveal(chain);
    reveal(addr_map);
    reveal(decodes);
}

/// Every instruction of a chain that ends at `end` starts before it.
proof fn lemma_chain_below(c: Seq<u8>, ins: Seq<(usize, Command, usize)>, end: int)
    requires
        chain(c, ins, end),
    ensures
        forall|k: int| 0 <= k < ins.len() ==> #[trigger] ins[k].0 < end,
    decreases ins.len(),
{
    reveal(chain);
    if ins.len() > 0 {
        let k0 = ins.len() - 1;
        assert(instr_at(c, ins, k0));
        lemma_decode_end(c, c[ins[k0].0 as int], ins[k0].0 + 1);
        let pre = ins.drop_last();
        assert forall|j: int| 0 <= j < pre.len() implies instr_at(c, pre, j) by {
            assert(pre[j] == ins[j]);
            assert(instr_at(c, ins, j));
        }
        assert forall|j: int| 0 < j < pre.len() implies #[trigger] pre[j].0 == pre[j - 1].0 + pre[j - 1].2 by {
            assert(pre[j] == ins[j]);
            assert(pre[j - 1] == ins[j - 1]);
        }
        if pre.len() > 0 {
            assert(ins[k0].0 == pre.last().0 + pre.last().2);
        }
        lemma_chain_below(c, pre, ins[k0].0 as int);
        assert forall|k: int| 0 <= k < ins.len() implies #[trigger] ins[k].0 < end by {
            if k < k0 {
                assert(ins[k] == pre[k]);
            }
        }
    }
}

impl Program {
    /// The same code and instructions.
    pub open spec fn same_code(&self, o: &Program) -> bool {
        &&& self.code == o.code
        &&& self.instructions == o.instructions
        &&& self.addr_ip == o.addr_ip
        &&& self.part_id == o.part_id
        &&& self.id == o.id
    }

    /// Jumps to `addr`, or fails where no instruction starts there.
    fn jump(&mut self, addr: u16) -> (r: Result<(), Error>)
        requires
            old(self).wf(),
        ensures
            final(self).wf(),
            final(self).same_code(old(self)),
            final(self).return_stack == old(self).return_stack,
            final(self).active == old(self).active,
            jumped(*old(self), *final(self), addr, r),
    {
        self.goto_addr(addr)
    }

    /// Runs the current instruction.
    pub fn step(&mut self, ctx: &mut VmContext) -> (r: Result<(), Error>)
        requires
            old(self).wf(),
            old(ctx).wf(),
        ensures
            final(self).wf(),
            final(ctx).wf(),
            final(self).same_code(old(self)),
            live_kept(old(ctx).threads_data@, final(ctx).threads_data@),
            step_rel(*old(self), *old(ctx), *final(self), *final(ctx), r),
            old(self).ip >= old(self).instructions@.len() ==> r == Err::<(), Error>(Error::OutOfRange),
            old(self).ip < old(self).instructions@.len() ==> step_post(
                old(self).instructions@[old(self).ip as int].1,
                *old(self),
                *final(self),
                *old(ctx),
                *final(ctx),
                r,
            ),
    {
        if self.ip >= self.instructions.len() {
            return Err(Error::OutOfRange);
        }
        let (addr, cmd, _) = self.instructions[self.ip];
        let next = self.ip + 1;
        match cmd {
            Command::MovConst { var_id, val } => {
                ctx.variables.set(var_id as usize, val as i16);
                self.ip = next;
            },
            Command::Mov { dst_id, src_id } => {
                let v = ctx.variables[src_id as usize];
                ctx.variables.set(dst_id as usize, v);
                self.ip = next;
            },
            Command::Add { dst_id, src_id } => {
                let v = ctx.variables[dst_id as usize].wrapping_add(ctx.variables[src_id as usize]);
                ctx.variables.set(dst_id as usize, v);
                self.ip = next;
            },
            Command::AddConst { var_id, val } => {
                if self.part_id == 0x3E86 && addr == 0x6D48 {
                    // The gun sound of this part never stops looping: play the stopping sound.
                    ctx.play_sound(0x5B, 1, 64, 1)?;
                }
                let v = ctx.variables[var_id as usize].wrapping_add(val as i16);
                ctx.variables.set(var_id as usize, v);
                self.ip = next;
            },
            Command::Sub { dst_id, src_id } => {
                let v = ctx.variables[dst_id as usize].wrapping_sub(ctx.variables[src_id as usize]);
                ctx.variables.set(dst_id as usize, v);
                self.ip = next;
            },
            Command::And { var_id, val } => {
                let v = ctx.variables[var_id as usize] & (val as i16);
                ctx.variables.set(var_id as usize, v);
                self.ip = next;
            },
            Command::Or { var_id, val } => {
                let v = ctx.variables[var_id as usize] | (val as i16);
                ctx.variables.set(var_id as usize, v);
                self.ip = next;
            },
            Command::Shl { var_id, val } => {
                let x = ctx.variables[var_id as usize];
                let v: i16 = if val >= 16 { 0 } else { ((x as u16) << (val as u16)) as i16 };
                ctx.variables.set(var_id as usize, v);
                self.ip = next;
            },
            Command::Shr { var_id, val } => {
                let x = ctx.variables[var_id as usize];
                let v: i16 = if val >= 16 {
                    if x < 0 { -1 } else { 0 }
                } else {
                    x >> (val as i16)
                };
                ctx.variables.set(var_id as usize, v);
                self.ip = next;
            },
            Command::Call { offset } => {
                if self.return_stack.len() >= MAX_CALL_DEPTH {
                    return Err(Error::StackOverflow);
                }
                self.jump(offset)?;
                self.return_stack.push(next);
            },
            Command::Ret => {
                if self.return_stack.len() == 0 {
                    return Err(Error::StackUnderflow);
                }
                match self.return_stack.pop() {
                    Some(ip) => {
                        self.ip = ip;
                    },
                    None => {
                        return Err(Error::StackUnderflow);
                    },
                }
            },
            Command::PauseThread => {
                ctx.goto_next_thread = true;
                self.ip = next;
            },
            Command::Jmp { offset } => {
                self.jump(offset)?;
            },
            Command::SetVect { thr_id, offset } => {
                ctx.set_vect(thr_id, offset)?;
                self.ip = next;
            },
            Command::Jnz { var_id, offset } => {
                let v = ctx.variables[var_id as usize].wrapping_sub(1);
                ctx.variables.set(var_id as usize, v);
                if v != 0 {
                    self.jump(offset)?;
                } else {
                    self.ip = next;
                }
            },
            Command::CondJmp { jmp_type, var_id, op2, offset } => {
                let a = ctx.variables[var_id as usize];
                let b = match op2 {
                    OpType::Var(i) => ctx.variables[i as usize],
                    OpType::Val1(x) => x as i16,
                    OpType::Val2(x) => x as i16,
                };
                let taken = match jmp_type {
                    JmpType::Je => a == b,
                    JmpType::Jne => a != b,
                    JmpType::Jg => a > b,
                    JmpType::Jge => a >= b,
                    JmpType::Jl => a < b,
                    JmpType::Jle => a <= b,
                    JmpType::Unknown(_) => false,
                };
                if taken {
                    self.jump(offset)?;
                } else {
                    self.ip = next;
                }
            },
            Command::SetPalette { pal_id } => {
                ctx.requests.push(Request::SetPalette { pal_id: (pal_id >> 8u16) as u8 });
                self.ip = next;
            },
            Command::ResetThread { reset_type, first, last } => {
                ctx.reset_threads(reset_type, first, last)?;
                self.ip = next;
            },
            Command::SelectVideoPage { page_id } => {
                ctx.requests.push(Request::SelectPage { page: page_id });
                self.ip = next;
            },
            Command::FillVideoPage { page_id, color } => {
                ctx.requests.push(Request::FillPage { page: page_id, color });
                self.ip = next;
            },
            Command::CopyVideoPage { src_page_id, dst_page_id } => {
                let vscroll = ctx.variables[VM_VARIABLE_SCROLL_Y];
                ctx.requests.push(Request::CopyPage { src: src_page_id, dst: dst_page_id, vscroll });
                self.ip = next;
            },
            Command::BlitFramebuffer { page_id } => {
                ctx.blit_framebuffer(page_id);
                self.ip = next;
            },
            Command::KillThread => {
                self.active = false;
                ctx.goto_next_thread = true;
                self.ip = next;
            },
            Command::DrawString { str_id, x, y, color } => {
                ctx.requests.push(Request::DrawString { color, x, y, str_id });
                self.ip = next;
            },
            Command::PlaySound { res_id, freq, vol, channel } => {
                ctx.play_sound(res_id, freq, vol, channel)?;
                self.ip = next;
            },
            Command::UpdateMemList { res_id } => {
                ctx.update_mem_list(res_id);
                self.ip = next;
            },
            Command::PlayMusic { res_id, delay, pos } => {
                ctx.play_music(res_id, delay, pos);
                self.ip = next;
            },
            Command::Video1 { offset, x, y } => {
                ctx.requests.push(
                    Request::DrawPolygon { cinematic: true, offset, color: 0xFF, zoom: 0x40, x: x as i16, y: y as i16 },
                );
                self.ip = next;
            },
            Command::Video2 { cinematic, offset, x, y, zoom } => {
                let xv = match x {
                    OpType::Var(i) => ctx.variables[i as usize],
                    OpType::Val1(v) => v as i16,
                    OpType::Val2(v) => v as i16,
                };
                let yv = match y {
                    OpType::Var(i) => ctx.variables[i as usize],
                    OpType::Val1(v) => v as i16,
                    OpType::Val2(v) => v as i16,
                };
                let zv = match zoom {
                    OpType::Var(i) => ctx.variables[i as usize] as u16,
                    OpType::Val1(v) => v as u16,
                    OpType::Val2(v) => v,
                };
                ctx.requests.push(Request::DrawPolygon { cinematic, offset, color: 0xFF, zoom: zv, x: xv, y: yv });
                self.ip = next;
            },
        }
        Ok(())
    }
}

/// The program moved on to its next instruction.
pub open spec fn advanced(p0: Program, p1: Program) -> bool {
    p1 == (Program { ip: (p0.ip + 1) as usize, ..p0 })
}

/// A jump to `addr`: to the instruction there, or, where none starts, an error
/// with the program as it was.
pub open spec fn jumped(p0: Program, p1: Program, addr: u16, r: Result<(), Error>) -> bool {
    if has_addr(p0.instructions@, addr as int) {
        r is Ok && at_addr(p1, addr as int) && p1 == (Program { ip: p1.ip, ..p0 })
    } else {
        r == Err::<(), Error>(Error::UnresolvedJump) && p1 == p0
    }
}

/// The program moved on and the context has these variables, channels and requests.
pub open spec fn next_with(
    p0: Program,
    p1: Program,
    c0: VmContext,
    c1: VmContext,
    r: Result<(), Error>,
    v: Seq<i16>,
    t: Seq<ThreadData>,
    q: Seq<Request>,
) -> bool {
    r is Ok && advanced(p0, p1) && ctx_is(c0, c1, v, t, q)
}

/// The program moved on and one request was made.
pub open spec fn next_request(p0: Program, p1: Program, c0: VmContext, c1: VmContext, r: Result<(), Error>, q: Request) -> bool {
    next_with(p0, p1, c0, c1, r, c0.variables@, c0.threads_data@, c0.requests@.push(q))
}

/// An error that leaves the program and the context as they were.
pub open spec fn failed(p0: Program, p1: Program, c0: VmContext, c1: VmContext, r: Result<(), Error>, e: Error) -> bool {
    r == Err::<(), Error>(e) && p1 == p0 && c1 == c0
}

/// What one instruction does to the program and the shared state.
pub open spec fn step_post(
    cmd: Command,
    p0: Program,
    p1: Program,
    c0: VmContext,
    c1: VmContext,
    r: Result<(), Error>,
) -> bool {
    let next = (p0.ip + 1) as usize;
    let v = c0.variables@;
    let t = c0.threads_data@;
    let q = c0.requests@;
    match cmd {
        Command::Call { offset } => if p0.return_stack@.len() >= MAX_CALL_DEPTH {
            failed(p0, p1, c0, c1, r, Error::StackOverflow)
        } else if !has_addr(p0.instructions@, offset as int) {
            failed(p0, p1, c0, c1, r, Error::UnresolvedJump)
        } else {
            &&& r is Ok
            &&& c1 == c0
            &&& at_addr(p1, offset as int)
            &&& p1 == (Program { ip: p1.ip, return_stack: p1.return_stack, ..p0 })
            &&& p1.return_stack@ == p0.return_stack@.push(next)
        },
        Command::Ret => if p0.return_stack@.len() == 0 {
            failed(p0, p1, c0, c1, r, Error::StackUnderflow)
        } else {
            &&& r is Ok
            &&& c1 == c0
            &&& p1 == (Program { ip: p1.ip, return_stack: p1.return_stack, ..p0 })
            &&& p1.ip == p0.return_stack@.last()
            &&& p1.return_stack@ == p0.return_stack@.drop_last()
        },
        Command::Jmp { offset } => c1 == c0 && jumped(p0, p1, offset, r),
        Command::Jnz { var_id, offset } => {
            let nv = v[var_id as int].wrapping_sub(1);
            &&& ctx_is(c0, c1, v.update(var_id as int, nv), t, q)
            &&& nv != 0 ==> jumped(p0, p1, offset, r)
            &&& nv == 0 ==> r is Ok && advanced(p0, p1)
        },
        Command::CondJmp { jmp_type, var_id, op2, offset } => {
            let taken = cond_holds(jmp_type, v[var_id as int], operand(v, op2));
            &&& c1 == c0
            &&& taken ==> jumped(p0, p1, offset, r)
            &&& !taken ==> r is Ok && advanced(p0, p1)
        },
        Command::PauseThread => r is Ok && advanced(p0, p1) && c1 == (VmContext { goto_next_thread: true, ..c0 }),
        Command::KillThread => r is Ok && p1 == (Program { ip: next, active: false, ..p0 }) && c1 == (VmContext {
            goto_next_thread: true,
            ..c0
        }),
        Command::SetVect { thr_id, offset } => if thr_id as usize >= VM_NUM_THREADS {
            failed(p0, p1, c0, c1, r, Error::OutOfRange)
        } else {
            next_with(
                p0,
                p1,
                c0,
                c1,
                r,
                v,
                t.update(thr_id as int, ThreadData { requested_pc_offset: offset, ..t[thr_id as int] }),
                q,
            )
        },
        Command::ResetThread { reset_type, first, last } => if first <= last && last as usize >= VM_NUM_THREADS {
            failed(p0, p1, c0, c1, r, Error::OutOfRange)
        } else {
            next_with(p0, p1, c0, c1, r, v, crate::vm_context::reset_spec(t, reset_type, first, last), q)
        },
        Command::SetPalette { pal_id } => next_request(p0, p1, c0, c1, r, Request::SetPalette { pal_id: (pal_id >> 8u16) as u8 }),
        Command::SelectVideoPage { page_id } => next_request(p0, p1, c0, c1, r, Request::SelectPage { page: page_id }),
        Command::FillVideoPage { page_id, color } => next_request(p0, p1, c0, c1, r, Request::FillPage { page: page_id, color }),
        Command::CopyVideoPage { src_page_id, dst_page_id } => next_request(
            p0,
            p1,
            c0,
            c1,
            r,
            Request::CopyPage { src: src_page_id, dst: dst_page_id, vscroll: v[VM_VARIABLE_SCROLL_Y as int] },
        ),
        Command::DrawString { str_id, x, y, color } => next_request(p0, p1, c0, c1, r, Request::DrawString { color, x, y, str_id }),
        Command::BlitFramebuffer { page_id } => r is Ok && advanced(p0, p1) && blit_post(c0, c1, page_id),
        Command::PlaySound { res_id, freq, vol, channel } => match sound_result(c0.res.entries(), res_id, freq, vol) {
            Err(e) => failed(p0, p1, c0, c1, r, e),
            Ok(_) => next_with(p0, p1, c0, c1, r, v, t, match sound_request(c0.res.entries(), res_id, freq, vol, channel) {
                Some(s) => q.push(s),
                None => q,
            }),
        },
        Command::UpdateMemList { res_id } => r is Ok && advanced(p0, p1) && mem_list_post(c0, c1, res_id),
        Command::PlayMusic { res_id, delay, pos } => next_request(p0, p1, c0, c1, r, music_request(res_id, delay, pos)),
        Command::Video1 { offset, x, y } => next_request(
            p0,
            p1,
            c0,
            c1,
            r,
            Request::DrawPolygon { cinematic: true, offset, color: 0xFF, zoom: 0x40, x: x as i16, y: y as i16 },
        ),
        Command::Video2 { cinematic, offset, x, y, zoom } => next_request(
            p0,
            p1,
            c0,
            c1,
            r,
            Request::DrawPolygon {
                cinematic,
                offset,
                color: 0xFF,
                zoom: zoom_operand(v, zoom),
                x: operand(v, x),
                y: operand(v, y),
            },
        ),
        _ => if gun_sound_fix(p0, cmd) {
            match sound_result(c0.res.entries(), 0x5B, 1, 64) {
                Err(e) => failed(p0, p1, c0, c1, r, e),
                Ok(_) => next_with(p0, p1, c0, c1, r, var_effect(cmd, v), t, match sound_request(c0.res.entries(), 0x5B, 1, 64, 1) {
                    Some(s) => q.push(s),
                    None => q,
                }),
            }
        } else {
            next_with(p0, p1, c0, c1, r, var_effect(cmd, v), t, q)
        },
    }
}

/// The one place where an addition also plays a sound (which may fail).
pub open spec fn gun_sound_fix(p: Program, cmd: Command) -> bool {
    &&& cmd is AddConst
    &&& p.part_id == 0x3E86
    &&& p.instructions@[p.ip as int].0 == 0x6D48
}

/// A run of a channel: each state follows from the one before by an instruction
/// that succeeded, started before the channel yielded.
pub open spec fn exec_trace(ps: Seq<Program>, cs: Seq<VmContext>) -> bool {
    &&& ps.len() >= 1
    &&& cs.len() == ps.len()
    &&& forall|i: int| 0 <= i < ps.len() - 1 ==> #[trigger] trace_step(ps, cs, i)
}

/// State `i + 1` of a run follows from state `i` by one instruction.
pub open spec fn trace_step(ps: Seq<Program>, cs: Seq<VmContext>, i: int) -> bool {
    &&& !cs[i].goto_next_thread
    &&& ps[i].ip < ps[i].instructions@.len()
    &&& step_post(ps[i].instructions@[ps[i].ip as int].1, ps[i], ps[i + 1], cs[i], cs[i + 1], Ok(()))
}

/// One instruction; an error, changing nothing, once the program ran past its end.
pub open spec fn step_rel(p0: Program, c0: VmContext, p1: Program, c1: VmContext, r: Result<(), Error>) -> bool {
    if p0.ip >= p0.instructions@.len() {
        failed(p0, p1, c0, c1, r, Error::OutOfRange)
    } else {
        step_post(p0.instructions@[p0.ip as int].1, p0, p1, c0, c1, r)
    }
}

/// How a run with a budget of `budget` instructions ends: it yields within the
/// budget; or it ran the whole budget without yielding (`Runaway`); or an
/// instruction within the budget failed, and its error is the result.
pub open spec fn exec_outcome(
    p0: Program,
    c0: VmContext,
    p1: Program,
    c1: VmContext,
    budget: u64,
    r: Result<(), Error>,
) -> bool {
    exists|ps: Seq<Program>, cs: Seq<VmContext>|
        #[trigger] exec_trace(ps, cs) && ps[0] == p0 && cs[0] == c0 && ps.len() <= budget + 1 && match r {
            Ok(_) => ps.last() == p1 && cs.last() == c1 && c1.goto_next_thread,
            Err(Error::Runaway) => ps.len() == budget + 1 && ps.last() == p1 && cs.last() == c1
                && !c1.goto_next_thread,
            Err(_) => ps.len() <= budget && !cs.last().goto_next_thread && step_rel(ps.last(), cs.last(), p1, c1, r),
        }
}

/// `p1, c1` follow from `p0, c0` by a run of the channel.
pub open spec fn exec_reach(p0: Program, c0: VmContext, p1: Program, c1: VmContext) -> bool {
    exists|ps: Seq<Program>, cs: Seq<VmContext>|
        #[trigger] exec_trace(ps, cs) && ps[0] == p0 && cs[0] == c0 && ps.last() == p1 && cs.last() == c1
}

impl Program {
    /// Runs the channel from the current instruction until it yields, for at most
    /// `budget` instructions.
    pub fn exec(&mut self, ctx: &mut VmContext, budget: u64) -> (r: Result<(), Error>)
        requires
            old(self).wf(),
            old(ctx).wf(),
        ensures
            final(self).wf(),
            final(ctx).wf(),
            final(self).same_code(old(self)),
            live_kept(old(ctx).threads_data@, final(ctx).threads_data@),
            r is Ok ==> final(ctx).goto_next_thread,
            r is Ok ==> exec_reach(*old(self), *old(ctx), *final(self), *final(ctx)),
            exec_outcome(*old(self), *old(ctx), *final(self), *final(ctx), budget, r),
    {
        let mut steps: u64 = 0;
        let ghost mut ps: Seq<Program> = seq![*self];
        let ghost mut cs: Seq<VmContext> = seq![*ctx];
        while !ctx.goto_next_thread
            invariant
                self.wf(),
                ctx.wf(),
                self.same_code(old(self)),
                live_kept(old(ctx).threads_data@, ctx.threads_data@),
                exec_trace(ps, cs),
                ps[0] == *old(self),
                cs[0] == *old(ctx),
                ps.last() == *self,
                cs.last() == *ctx,
                steps as int == ps.len() - 1,
                steps <= budget,
            decreases budget - steps,
        {
            if steps >= budget {
                assert(exec_trace(ps, cs));
                return Err(Error::Runaway);
            }
            let ghost p = *self;
            let ghost c = *ctx;
            let r = self.step(ctx);
            match r {
                Ok(()) => {},
                Err(e) => {
                    assert(exec_trace(ps, cs));
                    assert(e != Error::Runaway);
                    return Err(e);
                },
            }
            proof {
                let ps2 = ps.push(*self);
                let cs2 = cs.push(*ctx);
                assert forall|i: int| 0 <= i < ps2.len() - 1 implies #[trigger] trace_step(ps2, cs2, i) by {
                    if i < ps.len() - 1 {
                        assert(trace_step(ps, cs, i));
                        assert(ps2[i] == ps[i] && ps2[i + 1] == ps[i + 1] && cs2[i] == cs[i] && cs2[i + 1] == cs[i + 1]);
                    } else {
                        assert(ps2[i] == p && cs2[i] == c && ps2[i + 1] == *self && cs2[i + 1] == *ctx);
                    }
                }
                ps = ps2;
                cs = cs2;
            }
            steps = steps + 1;
        }
        assert(exec_trace(ps, cs));
        Ok(())
    }
}

/// Some instruction starts at `addr`.
pub open spec fn has_addr(ins: Seq<(usize, Command, usize)>, addr: int) -> bool {
    exists|k: int| 0 <= k < ins.len() && #[trigger] ins[k].0 == addr
}

} // verus!
