use vstd::prelude::*;
use crate::error::Error;
use crate::parts::GAME_PART_FIRST;
use crate::resource::Resource;
use crate::storage::Storage;
use crate::system::PlayerInput;
use crate::vm::{VirtualMachine, program_ready, barrier_post, input_post, frame_post};
use crate::vm_context::VmContext;
use crate::vm_context::{part_start_threads, VM_NUM_VARIABLES, VM_VARIABLE_RANDOM_SEED};
use crate::memlist::dir_has;
use crate::storage::{banks_view, record_loads};
use crate::resource::{part_ok, slots_in};
use crate::parts::part_table;

verus! {

/// The directory and the banks load (see `Storage::load`).
pub open spec fn storage_loads(banks: Seq<Vec<u8>>, directory: Seq<u8>) -> bool {
    exists|n: nat|
        dir_has(directory, n) && forall|k: int| 0 <= k < n ==> #[trigger] record_loads(banks_view(banks), directory, k)
}

/// The first part can be switched to from part `cur` with `n` descriptors.
pub open spec fn first_part_ok(cur: u16, n: nat) -> bool {
    cur == GAME_PART_FIRST || slots_in(part_table(0), n)
}

/// The engine's own keys: fast mode flips, the save slot moves within the slots
/// there are, and the keys are consumed.
pub open spec fn keys_post(e0: Engine, i0: PlayerInput, e1: Engine, i1: PlayerInput) -> bool {
    &&& e1.vm == (VirtualMachine {
        ctx: VmContext { fast_mode: e0.vm.ctx.fast_mode != i0.fast_mode, ..e0.vm.ctx },
        ..e0.vm
    })
    &&& e1.state_slot == if 0 <= e0.state_slot + i0.state_slot < MAX_SAVE_SLOTS {
        (e0.state_slot + i0.state_slot) as u8
    } else {
        e0.state_slot
    }
    &&& i1 == (PlayerInput { fast_mode: false, state_slot: 0, save: false, load: false, ..i0 })
}

/// One frame: the barrier, the player's input, the engine's keys, then every
/// channel of the current program; the first step that fails ends it with its error.
pub open spec fn frame_run(e0: Engine, i0: PlayerInput, e1: Engine, i1: PlayerInput, r: Result<(), Error>) -> bool {
    exists|b: VirtualMachine, rb: Result<(), Error>|
        #[trigger] barrier_post(e0.vm, b, rb) && if rb is Err {
            r == rb && e1 == (Engine { vm: b, ..e0 }) && i1 == i0
        } else {
            exists|u: VirtualMachine, iu: PlayerInput|
                #[trigger] input_post(b, i0, u, iu) && exists|k: Engine, ik: PlayerInput|
                    #[trigger] keys_post(Engine { vm: u, ..e0 }, iu, k, ik) && i1 == ik && if k.vm.program_id
                        >= k.vm.programs@.len() {
                        r == Err::<(), Error>(Error::OutOfRange) && e1 == k
                    } else {
                        e1.state_slot == k.state_slot && frame_post(k.vm, e1.vm, r)
                    }
        }
}

/// Frames that ran to their end, each started while the player had not quit.
pub open spec fn run_trace(es: Seq<Engine>, ins: Seq<PlayerInput>) -> bool {
    &&& es.len() >= 1
    &&& ins.len() == es.len()
    &&& forall|j: int| 0 <= j < es.len() - 1 ==> #[trigger] frame_ran(es, ins, j)
}

/// Frame `j` of a run started before any quit and succeeded.
pub open spec fn frame_ran(es: Seq<Engine>, ins: Seq<PlayerInput>, j: int) -> bool {
    !ins[j].quit && frame_run(es[j], ins[j], es[j + 1], ins[j + 1], Ok(()))
}

/// Save slots the player can pick from.
pub const MAX_SAVE_SLOTS: i8 = 100;

/// The whole engine: the scheduler, its resources, and the chosen save slot.
pub struct Engine {
    pub vm: VirtualMachine,
    pub state_slot: u8,
}

impl Engine {
    pub open spec fn wf(&self) -> bool {
        &&& self.vm.wf()
        &&& self.state_slot < 100
    }

    pub fn new() -> (r: Self)
        ensures
            r.wf(),
            r.state_slot == 0,
            r.vm.ctx.res.entries().len() == 0,
            r.vm.ctx.res.storage.banks@.len() == 0,
            r.vm.ctx.res.data.current_part_id == 0,
            r.vm.programs@.len() == 0,
    {
        Engine { vm: VirtualMachine::new(Resource::new(Storage::new())), state_slot: 0 }
    }

    pub fn is_quit(&self, input: &PlayerInput) -> (r: bool)
        ensures
            r == input.quit,
    {
        input.quit
    }

    /// Reads the directory and the banks, clears the memory block and the
    /// variables, and starts the first part (the protection screen).
    pub fn init(&mut self, banks: Vec<Vec<u8>>, directory: &[u8], seed: i16) -> (r: Result<(), Error>)
        requires
            old(self).wf(),
        ensures
            final(self).wf(),
            final(self).state_slot == old(self).state_slot,
            !storage_loads(banks@, directory@) ==> r is Err,
            storage_loads(banks@, directory@) ==> (r is Ok <==> first_part_ok(
                old(self).vm.ctx.res.data.current_part_id,
                final(self).vm.ctx.res.entries().len(),
            ) && program_ready(old(self).vm.programs@, final(self).vm.ctx.res, GAME_PART_FIRST)),
            r is Ok ==> final(self).vm.ctx.res.data.current_part_id == GAME_PART_FIRST,
            r is Ok ==> final(self).vm.program_id < final(self).vm.programs@.len(),
            r is Ok ==> final(self).vm.ctx.threads_data@ == part_start_threads(),
            r is Ok ==> final(self).vm.ctx.variables@ == Seq::new(VM_NUM_VARIABLES as nat, |i: int| 0i16).update(
                0x54,
                0x81,
            ).update(VM_VARIABLE_RANDOM_SEED as int, seed).update(0xE4, 0x14),
    {
        let ghost bv = banks@;
        let loaded = self.vm.ctx.res.init(banks, directory);
        if loaded.is_err() {
            return loaded;
        }
        self.vm.ctx.res.reset_mem_block();
        self.vm.init(seed);
        assert(part_ok(self.vm.ctx.res, GAME_PART_FIRST) == first_part_ok(
            old(self).vm.ctx.res.data.current_part_id,
            self.vm.ctx.res.entries().len(),
        ));
        self.vm.init_for_part(GAME_PART_FIRST)
    }

    /// Runs up to `frames` frames with this input, stopping once the player quits:
    /// the barrier, the player's input, the engine's own keys, then every channel.
    pub fn run(&mut self, input: &mut PlayerInput, frames: u32) -> (r: Result<(), Error>)
        requires
            old(self).wf(),
        ensures
            final(self).wf(),
            old(input).quit || frames == 0 ==> r is Ok && *final(self) == *old(self) && *final(input) == *old(input),
            exists|es: Seq<Engine>, ins: Seq<PlayerInput>|
                #[trigger] run_trace(es, ins) && es[0] == *old(self) && ins[0] == *old(input) && es.len() <= frames + 1
                    && (r is Ok ==> es.last() == *final(self) && ins.last() == *final(input) && (es.len() == frames + 1
                    || ins.last().quit)) && (r is Err ==> es.len() <= frames && !ins.last().quit && frame_run(
                    es.last(),
                    ins.last(),
                    *final(self),
                    *final(input),
                    r,
                )),
    {
        let mut n: u32 = 0;
        let ghost mut es: Seq<Engine> = seq![*self];
        let ghost mut ins: Seq<PlayerInput> = seq![*input];
        while n < frames && !self.is_quit(input)
            invariant
                self.wf(),
                n == 0 ==> *self == *old(self) && *input == *old(input),
                old(input).quit || frames == 0 ==> n == 0,
                run_trace(es, ins),
                es[0] == *old(self),
                ins[0] == *old(input),
                es.last() == *self,
                ins.last() == *input,
                es.len() == n + 1,
                n <= frames,
            decreases frames - n,
        {
            let ghost e0 = *self;
            let ghost i0 = *input;
            let rb = self.vm.check_thread_requests();
            let ghost b = self.vm;
            if rb.is_err() {
                assert(barrier_post(e0.vm, b, rb));
                assert(frame_run(e0, i0, *self, *input, rb));
                return rb;
            }
            self.vm.inp_update_player(input);
            let ghost u = self.vm;
            let ghost iu = *input;
            self.process_input(input);
            let ghost k = *self;
            assert(input_post(b, i0, u, iu));
            assert(keys_post(Engine { vm: u, ..e0 }, iu, k, *input));
            if self.vm.program_id >= self.vm.programs.len() {
                assert(frame_run(e0, i0, *self, *input, Err::<(), Error>(Error::OutOfRange)));
                return Err(Error::OutOfRange);
            }
            let rh = self.vm.host_frame();
            assert(frame_post(k.vm, self.vm, rh));
            assert(barrier_post(e0.vm, b, rb));
            assert(frame_run(e0, i0, *self, *input, rh));
            if rh.is_err() {
                return rh;
            }
            proof {
                let es2 = es.push(*self);
                let ins2 = ins.push(*input);
                assert forall|j: int| 0 <= j < es2.len() - 1 implies #[trigger] frame_ran(es2, ins2, j) by {
                    if j < es.len() - 1 {
                        assert(frame_ran(es, ins, j));
                        assert(es2[j] == es[j] && es2[j + 1] == es[j + 1] && ins2[j] == ins[j] && ins2[j + 1] == ins[j + 1]);
                    } else {
                        assert(es2[j] == e0 && ins2[j] == i0 && es2[j + 1] == *self && ins2[j + 1] == *input);
                    }
                }
                es = es2;
                ins = ins2;
            }
            n = n + 1;
        }
        assert(run_trace(es, ins));
        Ok(())
    }

    /// The engine's own keys: fast mode, and moving the save slot (within the
    /// slots there are).
    pub fn process_input(&mut self, input: &mut PlayerInput)
        requires
            old(self).wf(),
        ensures
            final(self).wf(),
            final(self).vm.ctx.fast_mode == (old(self).vm.ctx.fast_mode != old(input).fast_mode),
            keys_post(*old(self), *old(input), *final(self), *final(input)),
            final(self).state_slot == if 0 <= old(self).state_slot + old(input).state_slot < MAX_SAVE_SLOTS {
                (old(self).state_slot + old(input).state_slot) as u8
            } else {
                old(self).state_slot
            },
            *final(input) == (PlayerInput { fast_mode: false, state_slot: 0, save: false, load: false, ..*old(input) }),
    {
        input.save = false;
        input.load = false;
        if input.fast_mode {
            self.vm.toggle_fast_mode();
            input.fast_mode = false;
        }
        if input.state_slot != 0 {
            let slot: i16 = self.state_slot as i16 + input.state_slot as i16;
            if slot >= 0 && slot < MAX_SAVE_SLOTS as i16 {
                self.state_slot = slot as u8;
            }
            input.state_slot = 0;
        }
    }
}

} // verus!
