use vstd::prelude::*;
use crate::error::Error;
use crate::program::{Program, live_kept, at_addr, exec_reach, exec_outcome, has_addr, patched, decodes, chain};
use crate::system::Request;
use crate::parts::GAME_PART_FIRST;
use crate::resource::{part_ok, switched};
use crate::vm_context::ctx_is;
use crate::resource::Resource;
use crate::system::PlayerInput;
use crate::vm_context::{
    VmContext,
    ThreadData,
    barrier_one,
    barrier_spec,
    VM_INACTIVE_THREAD,
    VM_NO_SETVEC_REQUESTED,
    VM_DELETE_THREAD,
    VM_NUM_THREADS,
    VM_NUM_VARIABLES,
    VM_VARIABLE_RANDOM_SEED,
    player_vars,
    part_start_threads,
    typed,
};
use crate::parts::GAME_PART10;
use crate::command::Command;
use crate::program::step_post;

verus! {

/// Instructions one channel may run in a frame before it counts as runaway.
pub const STEP_BUDGET: u64 = 1_000_000;

/// The scheduler: the shared state and the decoded programs, one per bytecode
/// resource met so far.
pub struct VirtualMachine {
    pub ctx: VmContext,
    pub programs: Vec<Program>,
    /// Index in `programs` of the current part's program.
    pub program_id: usize,
}

impl VirtualMachine {
    pub open spec fn wf(&self) -> bool {
        &&& self.ctx.wf()
        &&& forall|i: int| 0 <= i < self.programs@.len() ==> (#[trigger] self.programs@[i]).wf()
    }

    pub fn new(res: Resource) -> (r: Self)
        requires
            res.wf(),
        ensures
            r.wf(),
            r.programs@.len() == 0,
            r.ctx.res == res,
    {
        VirtualMachine { ctx: VmContext::new(res), programs: Vec::new(), program_id: 0 }
    }

    pub fn init(&mut self, seed: i16)
        requires
            old(self).wf(),
        ensures
            final(self).wf(),
            final(self).ctx.variables@ == Seq::new(VM_NUM_VARIABLES as nat, |i: int| 0i16).update(0x54, 0x81).update(
                VM_VARIABLE_RANDOM_SEED as int,
                seed,
            ),
            final(self).ctx.threads_data == old(self).ctx.threads_data,
            final(self).ctx.res == old(self).ctx.res,
            final(self).ctx.requests == old(self).ctx.requests,
            final(self).programs == old(self).programs,
            final(self).program_id == old(self).program_id,
    {
        self.ctx.init(seed);
    }

    pub fn toggle_fast_mode(&mut self)
        requires
            old(self).wf(),
        ensures
            final(self).wf(),
            final(self).ctx.fast_mode == !old(self).ctx.fast_mode,
            *final(self) == (VirtualMachine { ctx: VmContext { fast_mode: !old(self).ctx.fast_mode, ..old(self).ctx }, ..*old(self) }),
    {
        self.ctx.toggle_fast_mode();
    }

    /// Switches to a part and starts its program, decoding it the first time.
    pub fn init_for_part(&mut self, part_id: u16) -> (r: Result<(), Error>)
        requires
            old(self).wf(),
        ensures
            final(self).wf(),
            part_started(*old(self), *final(self), part_id, r),
    {
        let started = self.ctx.init_for_part(part_id);
        if started.is_err() {
            return started;
        }
        let code_idx = self.ctx.res.data.seg_code_idx;
        let mut i: usize = 0;
        while i < self.programs.len()
            invariant
                self.wf(),
                i <= self.programs@.len(),
                forall|k: int| 0 <= k < i ==> (#[trigger] self.programs@[k]).id != code_idx,
                code_idx == self.ctx.res.data.seg_code_idx,
                self.programs == old(self).programs,
                self.program_id == old(self).program_id,
                ctx_started(old(self).ctx, self.ctx, part_id),
                part_ok(old(self).ctx.res, part_id),
            decreases self.programs@.len() - i,
        {
            if self.programs[i].id == code_idx {
                self.program_id = i;
                return Ok(());
            }
            i = i + 1;
        }
        assert(!has_program(old(self).programs@, code_idx));
        if code_idx >= self.ctx.res.storage.mem_list.entries.len() {
            return Err(Error::OutOfRange);
        }
        let code = self.ctx.res.storage.mem_list.entries[code_idx].buffer.clone();
        assert(code@ =~= self.ctx.res.entries()[code_idx as int].buffer@);
        let mut program = Program::new(code_idx, part_id, code);
        let parsed = program.parse();
        if parsed.is_err() {
            return parsed;
        }
        program.start();
        self.programs.push(program);
        self.program_id = self.programs.len() - 1;
        assert(self.programs@.drop_last() =~= old(self).programs@);
        Ok(())
    }

    /// The barrier between two frames: a part switch asked for during the last
    /// frame starts the new part; then every channel takes what was requested of
    /// it. This is the only place where requests take effect.
    pub fn check_thread_requests(&mut self) -> (r: Result<(), Error>)
        requires
            old(self).wf(),
        ensures
            final(self).wf(),
            r is Ok ==> final(self).ctx.res.requested_next_part is None,
            old(self).ctx.res.requested_next_part is None ==> r is Ok && final(self).ctx.threads_data@ == barrier_spec(
                old(self).ctx.threads_data@,
            ),
            barrier_post(*old(self), *final(self), r),
            old(self).ctx.res.requested_next_part is Some ==> (r is Ok <==> part_ok(
                old(self).ctx.res,
                old(self).ctx.res.requested_next_part->Some_0,
            ) && program_ready(old(self).programs@, final(self).ctx.res, old(self).ctx.res.requested_next_part->Some_0)),
            old(self).ctx.res.requested_next_part is Some && r is Ok ==> final(self).ctx.res.data.current_part_id
                == old(self).ctx.res.requested_next_part->Some_0 && final(self).ctx.threads_data@ == barrier_spec(
                part_start_threads(),
            ),
    {
        let ghost mut mid = *self;
        if let Some(part) = self.ctx.res.requested_next_part {
            let started = self.init_for_part(part);
            proof {
                mid = *self;
            }
            if started.is_err() {
                assert(part_started(*old(self), mid, part, started));
                return started;
            }
            self.ctx.res.requested_next_part = None;
        }
        let ghost start = self.ctx.threads_data@;
        assert(old(self).ctx.res.requested_next_part is Some ==> program_ready(
            old(self).programs@,
            self.ctx.res,
            old(self).ctx.res.requested_next_part->Some_0,
        ));
        let mut i: usize = 0;
        while i < VM_NUM_THREADS
            invariant
                self.wf(),
                i <= VM_NUM_THREADS,
                self.ctx.res.requested_next_part is None,
                old(self).ctx.res.requested_next_part is None ==> start == old(self).ctx.threads_data@,
                old(self).ctx.res.requested_next_part is None ==> mid == *old(self),
                old(self).ctx.res.requested_next_part is Some ==> part_started(
                    *old(self),
                    mid,
                    old(self).ctx.res.requested_next_part->Some_0,
                    Ok(()),
                ),
                start == mid.ctx.threads_data@,
                self.programs == mid.programs,
                self.program_id == mid.program_id,
                self.ctx.variables == mid.ctx.variables,
                self.ctx.requests == mid.ctx.requests,
                self.ctx.fast_mode == mid.ctx.fast_mode,
                self.ctx.input == mid.ctx.input,
                self.ctx.goto_next_thread == mid.ctx.goto_next_thread,
                self.ctx.res == (crate::resource::Resource { requested_next_part: self.ctx.res.requested_next_part, ..mid.ctx.res }),
                old(self).ctx.res.requested_next_part is Some ==> part_ok(
                    old(self).ctx.res,
                    old(self).ctx.res.requested_next_part->Some_0,
                ) && program_ready(old(self).programs@, self.ctx.res, old(self).ctx.res.requested_next_part->Some_0),
                old(self).ctx.res.requested_next_part is Some ==> start == part_start_threads()
                    && self.ctx.res.data.current_part_id == old(self).ctx.res.requested_next_part->Some_0,
                start.len() == VM_NUM_THREADS,
                forall|k: int| 0 <= k < VM_NUM_THREADS ==> #[trigger] self.ctx.threads_data@[k] == if k < i {
                    barrier_one(start[k])
                } else {
                    start[k]
                },
            decreases VM_NUM_THREADS - i,
        {
            let t = self.ctx.threads_data[i];
            let nt = if t.requested_pc_offset == VM_NO_SETVEC_REQUESTED {
                ThreadData { cur_state_active: t.requested_state_active, ..t }
            } else {
                ThreadData {
                    pc_offset: if t.requested_pc_offset == VM_DELETE_THREAD {
                        VM_INACTIVE_THREAD
                    } else {
                        t.requested_pc_offset
                    },
                    requested_pc_offset: VM_NO_SETVEC_REQUESTED,
                    cur_state_active: t.requested_state_active,
                    requested_state_active: t.requested_state_active,
                }
            };
            self.ctx.threads_data.set(i, nt);
            i = i + 1;
        }
        assert(self.ctx.threads_data@ =~= barrier_spec(start));
        Ok(())
    }

    /// One frame: every active channel with a program counter, in ascending order,
    /// runs from where it stands until it yields, and where it stopped is saved.
    pub fn host_frame(&mut self) -> (r: Result<(), Error>)
        requires
            old(self).wf(),
            old(self).program_id < old(self).programs@.len(),
        ensures
            final(self).wf(),
            final(self).programs@.len() == old(self).programs@.len(),
            r is Ok ==> frame_kept(old(self).ctx.threads_data@, final(self).ctx.threads_data@, VM_NUM_THREADS as int),
            frame_post(*old(self), *final(self), r),
            r is Ok ==> final(self).program_id == old(self).program_id && exists|
                ps: Seq<Program>,
                cs: Seq<VmContext>,
            |
                #[trigger] frame_trace(ps, cs, VM_NUM_THREADS as int) && ps[0] == old(self).programs@[old(
                    self,
                ).program_id as int] && cs[0] == old(self).ctx && ps.last() == final(self).programs@[old(
                    self,
                ).program_id as int] && cs.last() == final(self).ctx,
            r is Err ==> final(self).program_id == old(self).program_id && exists|
                ps: Seq<Program>,
                cs: Seq<VmContext>,
                k: int,
            |
                #[trigger] frame_trace(ps, cs, k) && 0 <= k < VM_NUM_THREADS && ps[0] == old(self).programs@[old(
                    self,
                ).program_id as int] && cs[0] == old(self).ctx && failing_turn(
                    ps[k],
                    cs[k],
                    final(self).programs@[old(self).program_id as int],
                    final(self).ctx,
                    k,
                    r,
                ),
    {
        let pid = self.program_id;
        let ghost mut ps: Seq<Program> = seq![self.programs@[pid as int]];
        let ghost mut cs: Seq<VmContext> = seq![self.ctx];
        let mut i: usize = 0;
        while i < VM_NUM_THREADS
            invariant
                self.wf(),
                i <= VM_NUM_THREADS,
                pid == self.program_id,
                pid < self.programs@.len(),
                self.programs@.len() == old(self).programs@.len(),
                frame_kept(old(self).ctx.threads_data@, self.ctx.threads_data@, i as int),
                frame_trace(ps, cs, i as int),
                self.programs@ == old(self).programs@.update(pid as int, self.programs@[pid as int]),
                ps[0] == old(self).programs@[pid as int],
                cs[0] == old(self).ctx,
                ps.last() == self.programs@[pid as int],
                cs.last() == self.ctx,
                pid == old(self).program_id,
            decreases VM_NUM_THREADS - i,
        {
            let t = self.ctx.threads_data[i];
            let ghost p0 = self.programs@[pid as int];
            let ghost c0 = self.ctx;
            let ghost o = old(self).ctx.threads_data@;
            let ghost mid = self.ctx.threads_data@;
            if t.cur_state_active && t.pc_offset != VM_INACTIVE_THREAD {
                let ghost before = self.programs@;
                let mut program = self.programs.remove(pid);
                assert(program.wf());
                let res = self.run_channel(&mut program, t.pc_offset);
                self.programs.insert(pid, program);
                assert(self.programs@ =~= before.update(pid as int, program));
                let pc = match res {
                    Ok(pc) => pc,
                    Err(e) => {
                        assert(self.programs@[pid as int] == program);
                        assert(self.programs@ =~= old(self).programs@.update(pid as int, self.programs@[pid as int]));
                        assert(frame_trace(ps, cs, i as int));
                        assert(failing_turn(ps[i as int], cs[i as int], program, self.ctx, i as int, Err::<(), Error>(e)));
                        return Err(e);
                    },
                };
                let ghost cb = self.ctx;
                let ghost after = self.ctx.threads_data@;
                let t2 = self.ctx.threads_data[i];
                self.ctx.threads_data.set(i, ThreadData { pc_offset: pc, ..t2 });
                proof {
                    let n = self.ctx.threads_data@;
                    assert forall|k: int| 0 <= k < o.len() implies #[trigger] n[k].cur_state_active == o[k].cur_state_active by {
                        assert(mid[k].cur_state_active == o[k].cur_state_active);
                        assert(after[k].pc_offset == mid[k].pc_offset);
                    }
                    assert forall|k: int|
                        0 <= k < o.len() && (k >= i + 1 || !o[k].cur_state_active || o[k].pc_offset == VM_INACTIVE_THREAD)
                            implies #[trigger] n[k].pc_offset == o[k].pc_offset by {
                        assert(mid[k].cur_state_active == o[k].cur_state_active);
                        assert(after[k].pc_offset == mid[k].pc_offset);
                        if k != i {
                            assert(mid[k].pc_offset == o[k].pc_offset || (k < i && o[k].cur_state_active && o[k].pc_offset != VM_INACTIVE_THREAD));
                        }
                    }
                    assert(with_pc(cb, self.ctx, i as int, stop_pc(program)));
                    assert(self.programs@[pid as int] == program);
                    assert(channel_turn(p0, c0, self.programs@[pid as int], self.ctx, i as int));
                }
            } else {
                assert(channel_turn(p0, c0, self.programs@[pid as int], self.ctx, i as int));
            }
            proof {
                let ps2 = ps.push(self.programs@[pid as int]);
                let cs2 = cs.push(self.ctx);
                assert forall|k: int| 0 <= k < i + 1 implies #[trigger] channel_turn(ps2[k], cs2[k], ps2[k + 1], cs2[k + 1], k) by {
                    if k < i {
                        assert(channel_turn(ps[k], cs[k], ps[k + 1], cs[k + 1], k));
                        assert(ps2[k] == ps[k] && ps2[k + 1] == ps[k + 1] && cs2[k] == cs[k] && cs2[k + 1] == cs[k + 1]);
                    } else {
                        assert(ps2[k] == p0 && cs2[k] == c0);
                    }
                }
                ps = ps2;
                cs = cs2;
            }
            i = i + 1;
        }
        assert(frame_trace(ps, cs, VM_NUM_THREADS as int));
        Ok(())
    }

    /// Runs one channel of `program` from `pc` until it yields; gives where it
    /// stopped, or the inactive mark once it killed itself.
    fn run_channel(&mut self, program: &mut Program, pc: u16) -> (r: Result<u16, Error>)
        requires
            old(self).wf(),
            old(program).wf(),
        ensures
            final(self).wf(),
            final(program).wf(),
            final(self).programs == old(self).programs,
            final(self).program_id == old(self).program_id,
            live_kept(old(self).ctx.threads_data@, final(self).ctx.threads_data@),
            r is Err ==> channel_fails(
                *old(program),
                old(self).ctx,
                *final(program),
                final(self).ctx,
                pc,
                Err::<(), Error>(r->Err_0),
            ),
            r is Ok ==> r == Ok::<u16, Error>(stop_pc(*final(program))) && final(self).ctx.goto_next_thread && exists|
                pa: Program,
            | #[trigger] positioned(pa, *old(program), pc) && exec_reach(
                pa,
                VmContext { goto_next_thread: false, ..old(self).ctx },
                *final(program),
                final(self).ctx,
            ),
    {
        program.goto_addr(pc)?;
        program.active = true;
        let ghost pa = *program;
        self.ctx.goto_next_thread = false;
        assert(self.ctx == VmContext { goto_next_thread: false, ..old(self).ctx });
        assert(positioned(pa, *old(program), pc));
        let res = program.exec(&mut self.ctx, STEP_BUDGET);
        if let Err(e) = res {
            return Err(e);
        }
        if !program.is_active() {
            return Ok(VM_INACTIVE_THREAD);
        }
        if program.ip() >= program.instructions.len() {
            return Err(Error::OutOfRange);
        }
        Ok(program.addr() as u16)
    }

    /// Saves or loads the variables and channels, then the current part and the
    /// state of every resource.
    pub fn save_or_load(&mut self, ser: &mut crate::serializer::Serializer) -> (r: Result<(), Error>)
        requires
            old(self).wf(),
            old(ser).stream.wf(),
            old(ser).stream.pos + crate::vm_context::SNAPSHOT_LEN + 2 + old(self).ctx.res.entries().len() <= usize::MAX,
        ensures
            final(self).wf(),
            final(ser).stream.wf(),
            final(self).programs == old(self).programs,
    {
        self.ctx.save_or_load(ser)?;
        self.ctx.res.save_or_load(ser)
    }

    pub fn inp_update_player(&mut self, input: &mut PlayerInput)
        requires
            old(self).wf(),
        ensures
            final(self).wf(),
            final(self).ctx.variables@ == player_vars(
                old(self).ctx.variables@,
                *old(input),
                old(self).ctx.res.data.current_part_id == GAME_PART10 && typed(old(input).last_char),
            ),
            final(self).ctx.threads_data == old(self).ctx.threads_data,
            input_post(*old(self), *old(input), *final(self), *final(input)),
    {
        self.ctx.inp_update_player(input);
    }
}

/// Starting part `part_id`: sound stops, one variable takes its fixed value, the
/// part's resources are switched to and its channels reset; its program is the one
/// decoded before for the same resource, or a new one built, decoded and started.
pub open spec fn part_started(v0: VirtualMachine, v1: VirtualMachine, part_id: u16, r: Result<(), Error>) -> bool {
    let idx = v1.ctx.res.data.seg_code_idx;
    &&& ctx_started(v0.ctx, v1.ctx, part_id)
    &&& !part_ok(v0.ctx.res, part_id) ==> r is Err && v1.programs == v0.programs
    &&& part_ok(v0.ctx.res, part_id) ==> (r is Ok <==> program_ready(v0.programs@, v1.ctx.res, part_id))
    &&& r is Err ==> v1.programs == v0.programs && v1.program_id == v0.program_id
    &&& r is Ok ==> {
        &&& v1.ctx.res.data.current_part_id == part_id
        &&& v1.program_id < v1.programs@.len()
        &&& v1.programs@[v1.program_id as int].id == idx
        &&& has_program(v0.programs@, idx) ==> v1.programs == v0.programs
        &&& !has_program(v0.programs@, idx) ==> {
            &&& v1.programs@.drop_last() == v0.programs@
            &&& v1.programs@.len() == v0.programs@.len() + 1
            &&& v1.program_id == v0.programs@.len()
            &&& started_program(v1.programs@.last(), v1.ctx.res, part_id)
        }
    }
}

/// Taking the player's input: only the variables it sets, and a typed letter that
/// is consumed, change.
pub open spec fn input_post(v0: VirtualMachine, i0: PlayerInput, v1: VirtualMachine, i1: PlayerInput) -> bool {
    let take = v0.ctx.res.data.current_part_id == GAME_PART10 && typed(i0.last_char);
    &&& i1 == (PlayerInput { last_char: if take { 0 } else { i0.last_char }, ..i0 })
    &&& v1.programs == v0.programs
    &&& v1.program_id == v0.program_id
    &&& v1.ctx.variables@ == player_vars(v0.ctx.variables@, i0, take)
    &&& v1.ctx.input == i1
    &&& v1.ctx.threads_data == v0.ctx.threads_data
    &&& v1.ctx.res == v0.ctx.res
    &&& v1.ctx.requests == v0.ctx.requests
    &&& v1.ctx.fast_mode == v0.ctx.fast_mode
    &&& v1.ctx.goto_next_thread == v0.ctx.goto_next_thread
}

/// The barrier: a pending part switch starts that part, then every channel takes
/// what was requested of it; nothing else changes.
pub open spec fn barrier_post(v0: VirtualMachine, v1: VirtualMachine, r: Result<(), Error>) -> bool {
    match v0.ctx.res.requested_next_part {
        None => r is Ok && v1.programs == v0.programs && v1.program_id == v0.program_id && ctx_is(
            v0.ctx,
            v1.ctx,
            v0.ctx.variables@,
            barrier_spec(v0.ctx.threads_data@),
            v0.ctx.requests@,
        ),
        Some(p) => exists|m: VirtualMachine|
            #[trigger] part_started(v0, m, p, r) && (r is Err ==> v1 == m) && (r is Ok ==> {
                &&& v1.programs == m.programs
                &&& v1.program_id == m.program_id
                &&& v1.ctx.res == (Resource { requested_next_part: None, ..m.ctx.res })
                &&& ctx_is(
                    (VmContext { res: v1.ctx.res, ..m.ctx }),
                    v1.ctx,
                    m.ctx.variables@,
                    barrier_spec(m.ctx.threads_data@),
                    m.ctx.requests@,
                )
            }),
    }
}

/// A frame of the current program: every channel had its turn, or one failed.
pub open spec fn frame_post(v0: VirtualMachine, v1: VirtualMachine, r: Result<(), Error>) -> bool {
    let pid = v0.program_id;
    &&& v1.program_id == pid
    &&& v1.programs@.len() == v0.programs@.len()
    &&& v1.programs@ == v0.programs@.update(pid as int, v1.programs@[pid as int])
    &&& r is Ok ==> exists|ps: Seq<Program>, cs: Seq<VmContext>|
        #[trigger] frame_trace(ps, cs, VM_NUM_THREADS as int) && ps[0] == v0.programs@[pid as int] && cs[0] == v0.ctx
            && ps.last() == v1.programs@[pid as int] && cs.last() == v1.ctx
    &&& r is Err ==> exists|ps: Seq<Program>, cs: Seq<VmContext>, k: int|
        #[trigger] frame_trace(ps, cs, k) && 0 <= k < VM_NUM_THREADS && ps[0] == v0.programs@[pid as int] && cs[0]
            == v0.ctx && failing_turn(ps[k], cs[k], v1.programs@[pid as int], v1.ctx, k, r)
}

/// The shared state once part `part_id` was asked for.
pub open spec fn ctx_started(c0: VmContext, c1: VmContext, part_id: u16) -> bool {
    &&& c1.variables@ == c0.variables@.update(0xE4, 0x14)
    &&& c1.requests@ == c0.requests@.push(Request::StopMusic).push(Request::StopAllSounds)
    &&& c1.fast_mode == c0.fast_mode
    &&& c1.input == c0.input
    &&& c1.goto_next_thread == c0.goto_next_thread
    &&& !part_ok(c0.res, part_id) ==> c1.res == c0.res
    &&& part_ok(c0.res, part_id) ==> {
        &&& c1.threads_data@ == part_start_threads()
        &&& c1.res.data.current_part_id == part_id
        &&& part_id == c0.res.data.current_part_id ==> c1.res == c0.res
        &&& part_id != c0.res.data.current_part_id ==> switched(c0.res, c1.res, part_id)
    }
}

/// Some decoded program is the one of resource `id`.
pub open spec fn has_program(ps: Seq<Program>, id: usize) -> bool {
    exists|k: int| 0 <= k < ps.len() && #[trigger] ps[k].id == id
}

/// The bytes a part's program runs: its resource's, with the copy protection
/// patched out in the first part.
pub open spec fn part_code(b: Seq<u8>, part_id: u16) -> Seq<u8> {
    if part_id == GAME_PART_FIRST && b.len() > 0xD53 {
        patched(b)
    } else {
        b
    }
}

/// The part's program can run: it was decoded before, or its resource is in the
/// directory and its bytes decode.
pub open spec fn program_ready(ps: Seq<Program>, res: Resource, part_id: u16) -> bool {
    let idx = res.data.seg_code_idx;
    has_program(ps, idx) || (idx < res.entries().len() && decodes(part_code(res.entries()[idx as int].buffer@, part_id), 0))
}

/// A program built for the part from its bytecode resource, decoded, and started.
pub open spec fn started_program(p: Program, res: Resource, part_id: u16) -> bool {
    let idx = res.data.seg_code_idx;
    &&& idx < res.entries().len()
    &&& p.id == idx
    &&& p.part_id == part_id
    &&& p.code@ == part_code(res.entries()[idx as int].buffer@, part_id)
    &&& chain(p.code@, p.instructions@, p.code@.len() as int)
    &&& p.ip == 0
    &&& p.active
    &&& p.return_stack@.len() == 0
}

/// `p` is `p0` moved to the instruction at `pc`, and running.
pub open spec fn positioned(p: Program, p0: Program, pc: u16) -> bool {
    &&& at_addr(p, pc as int)
    &&& p.active
    &&& p.same_code(&p0)
    &&& p.return_stack == p0.return_stack
}

/// Where a channel stopped: the address of its next instruction, or the
/// inactive mark once it killed itself.
pub open spec fn stop_pc(p: Program) -> u16 {
    if p.active {
        p.instructions@[p.ip as int].0 as u16
    } else {
        VM_INACTIVE_THREAD
    }
}

/// `c1` is `c` with channel `k`'s program counter set to `pc`.
pub open spec fn with_pc(c: VmContext, c1: VmContext, k: int, pc: u16) -> bool {
    &&& c1.threads_data@ == c.threads_data@.update(k, ThreadData { pc_offset: pc, ..c.threads_data@[k] })
    &&& c1.variables == c.variables
    &&& c1.res == c.res
    &&& c1.requests == c.requests
    &&& c1.fast_mode == c.fast_mode
    &&& c1.input == c.input
    &&& c1.goto_next_thread == c.goto_next_thread
}

/// Channel `k`'s turn in a frame: one that is active and stands somewhere runs
/// from there until it yields, and where it stopped is saved; others are skipped.
pub open spec fn channel_turn(p0: Program, c0: VmContext, p1: Program, c1: VmContext, k: int) -> bool {
    let t = c0.threads_data@[k];
    if !t.cur_state_active || t.pc_offset == VM_INACTIVE_THREAD {
        p1 == p0 && c1 == c0
    } else {
        exists|pa: Program, cb: VmContext|
            positioned(pa, p0, t.pc_offset) && #[trigger] exec_reach(
                pa,
                VmContext { goto_next_thread: false, ..c0 },
                p1,
                cb,
            ) && cb.goto_next_thread && with_pc(cb, c1, k, stop_pc(p1))
    }
}

/// Channel `k`'s run from `pc` failed with `r`: no instruction starts at `pc`, or its
/// run failed, or it stopped past the last instruction.
pub open spec fn channel_fails(p0: Program, c0: VmContext, p1: Program, c1: VmContext, pc: u16, r: Result<(), Error>) -> bool {
    ||| (!has_addr(p0.instructions@, pc as int) && r == Err::<(), Error>(Error::UnresolvedJump) && p1 == p0 && c1 == c0)
    ||| exists|pa: Program|
        #[trigger] positioned(pa, p0, pc) && ((r is Err && exec_outcome(
            pa,
            VmContext { goto_next_thread: false, ..c0 },
            p1,
            c1,
            STEP_BUDGET,
            r,
        )) || (exec_reach(pa, VmContext { goto_next_thread: false, ..c0 }, p1, c1) && c1.goto_next_thread && p1.active
            && p1.ip >= p1.instructions@.len() && r == Err::<(), Error>(Error::OutOfRange)))
}

/// Channel `k` is active, stands somewhere, and its run fails with `r`.
pub open spec fn failing_turn(p0: Program, c0: VmContext, p1: Program, c1: VmContext, k: int, r: Result<(), Error>) -> bool {
    let t = c0.threads_data@[k];
    t.cur_state_active && t.pc_offset != VM_INACTIVE_THREAD && channel_fails(p0, c0, p1, c1, t.pc_offset, r)
}

/// A frame: the channels take their turns in ascending order.
pub open spec fn frame_trace(ps: Seq<Program>, cs: Seq<VmContext>, n: int) -> bool {
    &&& ps.len() == n + 1
    &&& cs.len() == n + 1
    &&& forall|k: int| 0 <= k < n ==> #[trigger] channel_turn(ps[k], cs[k], ps[k + 1], cs[k + 1], k)
}

/// During a frame no channel's active flag changes, and the program counter
/// changes only for channels below `done` that were active with a program counter.
pub open spec fn frame_kept(a: Seq<ThreadData>, b: Seq<ThreadData>, done: int) -> bool {
    &&& a.len() == b.len()
    &&& forall|k: int| 0 <= k < a.len() ==> #[trigger] b[k].cur_state_active == a[k].cur_state_active
    &&& forall|k: int|
        0 <= k < a.len() && (k >= done || !a[k].cur_state_active || a[k].pc_offset == VM_INACTIVE_THREAD)
            ==> #[trigger] b[k].pc_offset == a[k].pc_offset
}

/// A set-vector that channel A runs for channel B leaves B's live program
/// counter as it was for the rest of the frame, whatever runs after it; once the
/// barrier has passed, B stands at the requested address (a delete request leaves
/// it inactive), unless a later request in the same frame replaced it.
pub proof fn set_vector_takes_effect_at_barrier(
    p0: Program,
    p1: Program,
    c0: VmContext,
    c1: VmContext,
    frame_end: Seq<ThreadData>,
    b: u8,
    addr: u16,
)
    requires
        p0.ip < p0.instructions@.len(),
        p0.instructions@[p0.ip as int].1 == (Command::SetVect { thr_id: b, offset: addr }),
        step_post(p0.instructions@[p0.ip as int].1, p0, p1, c0, c1, Ok(())),
        c0.threads_data@.len() == VM_NUM_THREADS,
        (b as usize) < VM_NUM_THREADS,
        live_kept(c1.threads_data@, frame_end),
        frame_end[b as int].requested_pc_offset == addr,
        addr != VM_NO_SETVEC_REQUESTED,
    ensures
        c1.threads_data@[b as int].pc_offset == c0.threads_data@[b as int].pc_offset,
        frame_end[b as int].pc_offset == c0.threads_data@[b as int].pc_offset,
        barrier_spec(frame_end)[b as int].pc_offset == if addr == VM_DELETE_THREAD {
            VM_INACTIVE_THREAD
        } else {
            addr
        },
{
    assert(frame_end[b as int].pc_offset == c1.threads_data@[b as int].pc_offset);
}

} // verus!
