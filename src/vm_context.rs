use vstd::prelude::*;
use crate::command::ResetType;
use crate::error::Error;
use crate::memlist::MemEntryState;
use crate::parts::{GAME_PART1, GAME_PART2, GAME_PART10, GAME_PART_FIRST, GAME_PART_LAST};
use crate::resource::{Resource, part_ok, switched, valid_part};
use crate::system::{PlayerInput, Request, DIR_DOWN, DIR_LEFT, DIR_RIGHT, DIR_UP};
use crate::serializer::{Mode, Serializer, Ver};
use crate::file::written;

verus! {

pub const VM_NUM_THREADS: usize = 64;
pub const VM_NUM_VARIABLES: usize = 256;
/// No jump requested for the next frame.
pub const VM_NO_SETVEC_REQUESTED: u16 = 0xFFFF;
/// The program counter of a channel that does not run.
pub const VM_INACTIVE_THREAD: u16 = 0xFFFF;
/// A requested program counter that deactivates the channel at the next frame.
pub const VM_DELETE_THREAD: u16 = 0xFFFE;

pub const VM_VARIABLE_RANDOM_SEED: usize = 0x3C;
pub const VM_VARIABLE_LAST_KEYCHAR: usize = 0xDA;
pub const VM_VARIABLE_HERO_POS_UP_DOWN: usize = 0xE5;
pub const VM_VARIABLE_MUS_MARK: usize = 0xF4;
pub const VM_VARIABLE_SCROLL_Y: usize = 0xF9;
pub const VM_VARIABLE_HERO_ACTION: usize = 0xFA;
pub const VM_VARIABLE_HERO_POS_JUMP_DOWN: usize = 0xFB;
pub const VM_VARIABLE_HERO_POS_LEFT_RIGHT: usize = 0xFC;
pub const VM_VARIABLE_HERO_POS_MASK: usize = 0xFD;
pub const VM_VARIABLE_HERO_ACTION_POS_MASK: usize = 0xFE;
pub const VM_VARIABLE_PAUSE_SLICES: usize = 0xFF;

/// The state of one channel: where it stands, and what was asked of it for the
/// next frame.
#[derive(Clone, Copy, Debug, PartialEq, Eq, Structural)]
pub struct ThreadData {
    pub pc_offset: u16,
    pub requested_pc_offset: u16,
    pub cur_state_active: bool,
    pub requested_state_active: bool,
}

impl ThreadData {
    /// A channel that does not run and has nothing requested.
    pub fn new() -> (r: Self)
        ensures
            r == idle_thread(),
    {
        ThreadData {
            pc_offset: VM_INACTIVE_THREAD,
            requested_pc_offset: VM_NO_SETVEC_REQUESTED,
            cur_state_active: true,
            requested_state_active: true,
        }
    }
}

pub open spec fn idle_thread() -> ThreadData {
    ThreadData {
        pc_offset: VM_INACTIVE_THREAD,
        requested_pc_offset: VM_NO_SETVEC_REQUESTED,
        cur_state_active: true,
        requested_state_active: true,
    }
}

/// What a reset of channels `first..=last` does to one channel.
pub open spec fn reset_one(t: ThreadData, reset_type: ResetType) -> ThreadData {
    match reset_type {
        ResetType::Delete => ThreadData { requested_pc_offset: VM_DELETE_THREAD, ..t },
        ResetType::Freeze => ThreadData { requested_state_active: false, ..t },
        ResetType::Unfreeze => ThreadData { requested_state_active: true, ..t },
        _ => t,
    }
}

/// The channels after a reset of `first..=last`.
pub open spec fn reset_spec(ts: Seq<ThreadData>, reset_type: ResetType, first: u8, last: u8) -> Seq<ThreadData> {
    Seq::new(
        ts.len(),
        |k: int|
            if first <= k <= last {
                reset_one(ts[k], reset_type)
            } else {
                ts[k]
            },
    )
}

/// The next frame's view of one channel: requests become current.
pub open spec fn barrier_one(t: ThreadData) -> ThreadData {
    if t.requested_pc_offset == VM_NO_SETVEC_REQUESTED {
        ThreadData { cur_state_active: t.requested_state_active, ..t }
    } else {
        ThreadData {
            pc_offset: if t.requested_pc_offset == VM_DELETE_THREAD {
                VM_INACTIVE_THREAD
            } else {
                t.requested_pc_offset
            },
            requested_pc_offset: VM_NO_SETVEC_REQUESTED,
            cur_state_active: t.requested_state_active,
            requested_state_active: t.requested_state_active,
        }
    }
}

/// The channels after the barrier.
pub open spec fn barrier_spec(ts: Seq<ThreadData>) -> Seq<ThreadData> {
    Seq::new(ts.len(), |k: int| barrier_one(ts[k]))
}

/// The frequency, in Hz, of each of the forty notes a sound can be played at.
pub open spec fn frequency_spec(i: int) -> u16 {
    let t = seq![
        0x0CFFu16, 0x0DC3, 0x0E91, 0x0F6F, 0x1056, 0x114E, 0x1259, 0x136C,
        0x149F, 0x15D9, 0x1726, 0x1888, 0x19FD, 0x1B86, 0x1D21, 0x1EDE,
        0x20AB, 0x229C, 0x24B3, 0x26D7, 0x293F, 0x2BB2, 0x2E4C, 0x3110,
        0x33FB, 0x370D, 0x3A43, 0x3DDF, 0x4157, 0x4538, 0x4998, 0x4DAE,
        0x5240, 0x5764, 0x5C9A, 0x61C8, 0x6793, 0x6E19, 0x7485, 0x7BBD,
    ];
    t[i]
}

/// The frequency of note `i`.
pub fn frequency(i: u8) -> (r: u16)
    requires
        i < 40,
    ensures
        r == frequency_spec(i as int),
{
    let t: Vec<u16> = vec![
        0x0CFFu16, 0x0DC3, 0x0E91, 0x0F6F, 0x1056, 0x114E, 0x1259, 0x136C,
        0x149F, 0x15D9, 0x1726, 0x1888, 0x19FD, 0x1B86, 0x1D21, 0x1EDE,
        0x20AB, 0x229C, 0x24B3, 0x26D7, 0x293F, 0x2BB2, 0x2E4C, 0x3110,
        0x33FB, 0x370D, 0x3A43, 0x3DDF, 0x4157, 0x4538, 0x4998, 0x4DAE,
        0x5240, 0x5764, 0x5C9A, 0x61C8, 0x6793, 0x6E19, 0x7485, 0x7BBD,
    ];
    assert(t@ == seq![
        0x0CFFu16, 0x0DC3, 0x0E91, 0x0F6F, 0x1056, 0x114E, 0x1259, 0x136C,
        0x149F, 0x15D9, 0x1726, 0x1888, 0x19FD, 0x1B86, 0x1D21, 0x1EDE,
        0x20AB, 0x229C, 0x24B3, 0x26D7, 0x293F, 0x2BB2, 0x2E4C, 0x3110,
        0x33FB, 0x370D, 0x3A43, 0x3DDF, 0x4157, 0x4538, 0x4998, 0x4DAE,
        0x5240, 0x5764, 0x5C9A, 0x61C8, 0x6793, 0x6E19, 0x7485, 0x7BBD,
    ]);
    t[i as usize]
}


/// The state that every channel shares: the variables, the channels, the
/// resources, and the requests made of the collaborators this frame.
pub struct VmContext {
    pub res: Resource,
    pub fast_mode: bool,
    pub variables: Vec<i16>,
    pub threads_data: Vec<ThreadData>,
    /// Set when the running channel yields.
    pub goto_next_thread: bool,
    /// The input of the current frame.
    pub input: PlayerInput,
    pub requests: Vec<Request>,
}

impl VmContext {
    /// 256 variables, 64 channels, and sound in range of the resource table.
    pub open spec fn wf(&self) -> bool {
        &&& self.variables@.len() == VM_NUM_VARIABLES
        &&& self.threads_data@.len() == VM_NUM_THREADS
        &&& self.res.wf()
    }

    pub fn new(res: Resource) -> (r: Self)
        requires
            res.wf(),
        ensures
            r.wf(),
            r.res == res,
            r.variables@ == Seq::new(VM_NUM_VARIABLES as nat, |i: int| 0i16),
            r.threads_data@ == Seq::new(VM_NUM_THREADS as nat, |i: int| idle_thread()),
            !r.fast_mode,
            r.requests@.len() == 0,
    {
        let mut variables: Vec<i16> = Vec::new();
        let mut i: usize = 0;
        while i < VM_NUM_VARIABLES
            invariant
                i <= VM_NUM_VARIABLES,
                variables@ == Seq::new(i as nat, |k: int| 0i16),
            decreases VM_NUM_VARIABLES - i,
        {
            variables.push(0);
            i = i + 1;
            assert(variables@ =~= Seq::new(i as nat, |k: int| 0i16));
        }
        let threads_data = idle_threads();
        VmContext {
            res,
            fast_mode: false,
            variables,
            threads_data,
            goto_next_thread: false,
            input: PlayerInput::new(),
            requests: Vec::new(),
        }
    }

    pub fn toggle_fast_mode(&mut self)
        ensures
            *final(self) == (VmContext { fast_mode: !old(self).fast_mode, ..*old(self) }),
    {
        self.fast_mode = !self.fast_mode;
    }

    /// Clears the variables but two: one fixed by the game, and the random seed.
    pub fn init(&mut self, seed: i16)
        requires
            old(self).wf(),
        ensures
            final(self).wf(),
            final(self).variables@ == Seq::new(VM_NUM_VARIABLES as nat, |i: int| 0i16).update(0x54, 0x81).update(
                VM_VARIABLE_RANDOM_SEED as int,
                seed,
            ),
            !final(self).fast_mode,
            final(self).threads_data == old(self).threads_data,
            final(self).res == old(self).res,
            final(self).requests == old(self).requests,
            final(self).input == old(self).input,
            final(self).goto_next_thread == old(self).goto_next_thread,
    {
        let mut i: usize = 0;
        while i < VM_NUM_VARIABLES
            invariant
                i <= VM_NUM_VARIABLES,
                self.wf(),
                self.threads_data == old(self).threads_data,
                self.res == old(self).res,
                self.requests == old(self).requests,
                self.input == old(self).input,
                self.goto_next_thread == old(self).goto_next_thread,
                forall|k: int| 0 <= k < i ==> self.variables@[k] == 0,
            decreases VM_NUM_VARIABLES - i,
        {
            self.variables.set(i, 0);
            i = i + 1;
        }
        self.variables.set(0x54, 0x81);
        self.variables.set(VM_VARIABLE_RANDOM_SEED, seed);
        self.fast_mode = false;
        assert(self.variables@ =~= Seq::new(VM_NUM_VARIABLES as nat, |i: int| 0i16).update(0x54, 0x81).update(
            VM_VARIABLE_RANDOM_SEED as int,
            seed,
        ));
    }

    /// Stops all sound, switches to the part, and starts it over: every channel
    /// idle but the first, which starts at address 0.
    pub fn init_for_part(&mut self, part_id: u16) -> (r: Result<(), Error>)
        requires
            old(self).wf(),
        ensures
            final(self).wf(),
            final(self).requests@ == old(self).requests@.push(Request::StopMusic).push(Request::StopAllSounds),
            final(self).variables@ == old(self).variables@.update(0xE4, 0x14),
            final(self).fast_mode == old(self).fast_mode,
            final(self).input == old(self).input,
            final(self).goto_next_thread == old(self).goto_next_thread,
            (r is Ok) == part_ok(old(self).res, part_id),
            r is Err ==> final(self).res == old(self).res && final(self).threads_data == old(self).threads_data,
            r is Err ==> r == Err::<(), Error>(if valid_part(part_id) { Error::OutOfRange } else { Error::InvalidPart }),
            r is Ok ==> final(self).threads_data@ == part_start_threads(),
            r is Ok ==> final(self).res.data.current_part_id == part_id,
            r is Ok && part_id == old(self).res.data.current_part_id ==> final(self).res == old(self).res,
            r is Ok && part_id != old(self).res.data.current_part_id ==> switched(old(self).res, final(self).res, part_id),
            final(self).res.requested_next_part == old(self).res.requested_next_part,
            final(self).res.storage.banks == old(self).res.storage.banks,
    {
        self.requests.push(Request::StopMusic);
        self.requests.push(Request::StopAllSounds);
        self.variables.set(0xE4, 0x14);
        let res = self.res.setup_part(part_id);
        if res.is_err() {
            return res;
        }
        assert(self.res.data.current_part_id == part_id);
        let mut threads = idle_threads();
        threads.set(0, ThreadData { pc_offset: 0, ..ThreadData::new() });
        self.threads_data = threads;
        Ok(())
    }

    /// Sets the channels `first..=last` as the reset type says; an empty range
    /// does nothing.
    pub fn reset_threads(&mut self, reset_type: ResetType, first: u8, last: u8) -> (r: Result<(), Error>)
        requires
            old(self).wf(),
        ensures
            final(self).wf(),
            first <= last && last as usize >= VM_NUM_THREADS ==> r == Err::<(), Error>(Error::OutOfRange)
                && *final(self) == *old(self),
            !(first <= last && last as usize >= VM_NUM_THREADS) ==> r is Ok && ctx_is(
                *old(self),
                *final(self),
                old(self).variables@,
                reset_spec(old(self).threads_data@, reset_type, first, last),
                old(self).requests@,
            ),
    {
        if last < first {
            assert(self.threads_data@ =~= reset_spec(old(self).threads_data@, reset_type, first, last));
            return Ok(());
        }
        if last as usize >= VM_NUM_THREADS {
            return Err(Error::OutOfRange);
        }
        let mut i: usize = first as usize;
        while i <= last as usize
            invariant
                first <= i <= last as usize + 1,
                (last as usize) < VM_NUM_THREADS,
                self.wf(),
                self.variables == old(self).variables,
                self.res == old(self).res,
                self.requests == old(self).requests,
                self.goto_next_thread == old(self).goto_next_thread,
                self.fast_mode == old(self).fast_mode,
                self.input == old(self).input,
                forall|k: int| 0 <= k < VM_NUM_THREADS ==> #[trigger] self.threads_data@[k] == if first <= k < i {
                    reset_one(old(self).threads_data@[k], reset_type)
                } else {
                    old(self).threads_data@[k]
                },
            decreases last as usize + 1 - i,
        {
            let t = self.threads_data[i];
            let nt = match reset_type {
                ResetType::Delete => ThreadData { requested_pc_offset: VM_DELETE_THREAD, ..t },
                ResetType::Freeze => ThreadData { requested_state_active: false, ..t },
                ResetType::Unfreeze => ThreadData { requested_state_active: true, ..t },
                _ => t,
            };
            self.threads_data.set(i, nt);
            i = i + 1;
        }
        assert(self.threads_data@ =~= reset_spec(old(self).threads_data@, reset_type, first, last));
        Ok(())
    }

    /// Asks channel `thr_id` to continue at `offset` from the next frame.
    pub fn set_vect(&mut self, thr_id: u8, offset: u16) -> (r: Result<(), Error>)
        requires
            old(self).wf(),
        ensures
            final(self).wf(),
            thr_id as usize >= VM_NUM_THREADS ==> r == Err::<(), Error>(Error::OutOfRange) && *final(self)
                == *old(self),
            (thr_id as usize) < VM_NUM_THREADS ==> r is Ok && ctx_is(
                *old(self),
                *final(self),
                old(self).variables@,
                old(self).threads_data@.update(
                    thr_id as int,
                    ThreadData { requested_pc_offset: offset, ..old(self).threads_data@[thr_id as int] },
                ),
                old(self).requests@,
            ),
    {
        if thr_id as usize >= VM_NUM_THREADS {
            return Err(Error::OutOfRange);
        }
        let t = self.threads_data[thr_id as usize];
        self.threads_data.set(thr_id as usize, ThreadData { requested_pc_offset: offset, ..t });
        Ok(())
    }
}

impl VmContext {
    /// Takes this frame's input: the player's directions and button go to their
    /// variables; in the last part a typed letter (or backspace) goes to its variable
    /// and is consumed.
    pub fn inp_update_player(&mut self, input: &mut PlayerInput)
        requires
            old(self).wf(),
        ensures
            final(self).wf(),
            final(self).variables@ == player_vars(
                old(self).variables@,
                *old(input),
                old(self).res.data.current_part_id == GAME_PART10 && typed(old(input).last_char),
            ),
            final(input).last_char == if old(self).res.data.current_part_id == GAME_PART10 && typed(old(input).last_char) {
                0
            } else {
                old(input).last_char
            },
            final(self).input == *final(input),
            final(self).threads_data == old(self).threads_data,
            final(self).res == old(self).res,
            final(self).requests == old(self).requests,
            final(self).fast_mode == old(self).fast_mode,
            final(self).goto_next_thread == old(self).goto_next_thread,
            *final(input) == (PlayerInput { last_char: final(input).last_char, ..*old(input) }),
    {
        let take_char = self.res.data.current_part_id == GAME_PART10 && (input.last_char == 8
            || input.last_char == 0 || (input.last_char >= 0x61 && input.last_char <= 0x7A));
        if take_char {
            self.variables.set(VM_VARIABLE_LAST_KEYCHAR, (input.last_char & 0xDF) as i16);
            input.last_char = 0;
        }
        let d = input.dir_mask;
        let right = d & DIR_RIGHT != 0;
        let left = d & DIR_LEFT != 0;
        let down = d & DIR_DOWN != 0;
        let up = d & DIR_UP != 0;
        let lr: i16 = if left { -1 } else if right { 1 } else { 0 };
        let m: i16 = (if right { 1i16 } else { 0 }) + (if left { 2i16 } else { 0 }) + (if down { 4i16 } else { 0 }) + (
        if up {
            8i16
        } else {
            0
        });
        self.variables.set(VM_VARIABLE_HERO_POS_UP_DOWN, if up { -1 } else if down { 1 } else { 0 });
        self.variables.set(VM_VARIABLE_HERO_POS_JUMP_DOWN, if up { -1 } else if down { 1 } else { 0 });
        self.variables.set(VM_VARIABLE_HERO_POS_LEFT_RIGHT, lr);
        self.variables.set(VM_VARIABLE_HERO_POS_MASK, m);
        self.variables.set(VM_VARIABLE_HERO_ACTION, if input.button { 1 } else { 0 });
        self.variables.set(VM_VARIABLE_HERO_ACTION_POS_MASK, if input.button { m + 0x80 } else { m });
        self.input = *input;
    }

    /// Pause (outside the first two parts) and the code key, which jumps to the
    /// password screen from any part but the first and the last.
    pub fn inp_handle_special_keys(&mut self)
        requires
            old(self).wf(),
        ensures
            final(self).wf(),
            special_keys_post(*old(self), *final(self)),
    {
        let part = self.res.data.current_part_id;
        if self.input.pause {
            if part != GAME_PART1 && part != GAME_PART2 {
                self.requests.push(Request::WaitForUnpause);
            }
            self.input.pause = false;
        }
        if self.input.code {
            self.input.code = false;
            if part != GAME_PART_LAST && part != GAME_PART_FIRST {
                self.res.requested_next_part = Some(GAME_PART_LAST);
            }
        }
    }

    /// Shows a page: special keys are handled, and the frame is held for as many
    /// twentieths of a second as the pause variable says (none in fast mode).
    pub fn blit_framebuffer(&mut self, page_id: u8)
        requires
            old(self).wf(),
        ensures
            final(self).wf(),
            blit_post(*old(self), *final(self), page_id),
    {
        self.inp_handle_special_keys();
        if self.res.data.current_part_id == GAME_PART_FIRST && self.variables[0x67] == 1 {
            self.variables.set(0xDC, 0x21);
        }
        let hold_ms: i32 = if self.fast_mode {
            0
        } else {
            self.variables[VM_VARIABLE_PAUSE_SLICES] as i32 * 20
        };
        self.variables.set(0xF7, 0);
        self.requests.push(Request::Present { page: page_id, hold_ms });
    }

    /// Plays a loaded sound resource on one of the four channels; volume zero
    /// stops the channel. A resource that is not loaded is not played.
    pub fn play_sound(&mut self, res_id: u16, freq: u8, vol: u8, channel: u8) -> (r: Result<(), Error>)
        requires
            old(self).wf(),
        ensures
            final(self).wf(),
            r == sound_result(old(self).res.entries(), res_id, freq, vol),
            r is Err ==> *final(self) == *old(self),
            r is Ok ==> ctx_is(
                *old(self),
                *final(self),
                old(self).variables@,
                old(self).threads_data@,
                match sound_request(old(self).res.entries(), res_id, freq, vol, channel) {
                    Some(q) => old(self).requests@.push(q),
                    None => old(self).requests@,
                },
            ),
    {
        if res_id as usize >= self.res.storage.mem_list.entries.len() {
            return Err(Error::OutOfRange);
        }
        let e = &self.res.storage.mem_list.entries[res_id as usize];
        if e.state != MemEntryState::Loaded {
            return Ok(());
        }
        if vol == 0 {
            self.requests.push(Request::StopSound { channel: channel & 3 });
            return Ok(());
        }
        if freq >= 40 {
            return Err(Error::OutOfRange);
        }
        let data_offset = e.buf_offset.wrapping_add(8);
        let volume = if vol > 0x3F { 0x3F } else { vol };
        self.requests.push(Request::PlaySound { data_offset, freq: frequency(freq), volume, channel: channel & 3 });
        Ok(())
    }

    /// Starts a music resource, changes the music's pace, or stops it.
    pub fn play_music(&mut self, res_id: u16, delay: u16, pos: u8)
        ensures
            ctx_is(
                *old(self),
                *final(self),
                old(self).variables@,
                old(self).threads_data@,
                old(self).requests@.push(music_request(res_id, delay, pos)),
            ),
    {
        if res_id != 0 {
            self.requests.push(Request::PlayMusic { res_id, delay, pos });
        } else if delay != 0 {
            self.requests.push(Request::SetMusicDelay { delay });
        } else {
            self.requests.push(Request::StopMusic);
        }
    }

    /// Id zero stops all sound and frees every resource but palettes and bytecode;
    /// any other id loads that resource, or asks for that part.
    pub fn update_mem_list(&mut self, res_id: u16)
        requires
            old(self).wf(),
        ensures
            final(self).wf(),
            mem_list_post(*old(self), *final(self), res_id),
    {
        if res_id == 0 {
            self.requests.push(Request::StopMusic);
            self.requests.push(Request::StopAllSounds);
            self.res.invalidate_res();
        } else {
            self.res.load_parts_or_mem_entry(res_id);
        }
    }
}

/// `c1` is `c0` with these variables, channels and requests, and nothing else changed.
pub open spec fn ctx_is(c0: VmContext, c1: VmContext, v: Seq<i16>, t: Seq<ThreadData>, q: Seq<Request>) -> bool {
    &&& c1.variables@ == v
    &&& c1.threads_data@ == t
    &&& c1.requests@ == q
    &&& c1.res == c0.res
    &&& c1.fast_mode == c0.fast_mode
    &&& c1.input == c0.input
    &&& c1.goto_next_thread == c0.goto_next_thread
}

/// What the music collaborator is asked: start a module, change the pace, or stop.
pub open spec fn music_request(res_id: u16, delay: u16, pos: u8) -> Request {
    if res_id != 0 {
        Request::PlayMusic { res_id, delay, pos }
    } else if delay != 0 {
        Request::SetMusicDelay { delay }
    } else {
        Request::StopMusic
    }
}

/// The pause key (outside the first two parts) and the code key (which asks for the
/// password screen from any part but the first and the last) are taken.
pub open spec fn special_keys_post(c0: VmContext, c1: VmContext) -> bool {
    let part = c0.res.data.current_part_id;
    &&& c1.variables == c0.variables
    &&& c1.threads_data == c0.threads_data
    &&& c1.fast_mode == c0.fast_mode
    &&& c1.goto_next_thread == c0.goto_next_thread
    &&& c1.input == (PlayerInput { pause: false, code: false, ..c0.input })
    &&& c1.requests@ == if c0.input.pause && part != GAME_PART1 && part != GAME_PART2 {
        c0.requests@.push(Request::WaitForUnpause)
    } else {
        c0.requests@
    }
    &&& c1.res == (Resource {
        requested_next_part: if c0.input.code && part != GAME_PART_LAST && part != GAME_PART_FIRST {
            Some(GAME_PART_LAST)
        } else {
            c0.res.requested_next_part
        },
        ..c0.res
    })
}

/// Showing a page: the special keys are taken, then the page is presented and held
/// for as many twentieths of a second as the pause variable says (none in fast mode).
pub open spec fn blit_post(c0: VmContext, c1: VmContext, page: u8) -> bool {
    exists|k: VmContext|
        #[trigger] special_keys_post(c0, k) && c1.threads_data == c0.threads_data && c1.fast_mode == c0.fast_mode
            && c1.goto_next_thread == c0.goto_next_thread && c1.input == k.input && c1.res == k.res
            && c1.requests@ == k.requests@.push(
            Request::Present {
                page,
                hold_ms: if c0.fast_mode {
                    0
                } else {
                    (c0.variables@[VM_VARIABLE_PAUSE_SLICES as int] as int * 20) as i32
                },
            },
        ) && c1.variables@ == (if c0.res.data.current_part_id == GAME_PART_FIRST && c0.variables@[0x67] == 1 {
            c0.variables@.update(0xDC, 0x21)
        } else {
            c0.variables@
        }).update(0xF7, 0)
}

/// Updating the memory list: id zero stops all sound and frees every resource but
/// palettes and bytecode; any other id is a resource or part request.
pub open spec fn mem_list_post(c0: VmContext, c1: VmContext, id: u16) -> bool {
    &&& c1.variables == c0.variables
    &&& c1.threads_data == c0.threads_data
    &&& c1.fast_mode == c0.fast_mode
    &&& c1.input == c0.input
    &&& c1.goto_next_thread == c0.goto_next_thread
    &&& if id == 0 {
        &&& c1.requests@ == c0.requests@.push(Request::StopMusic).push(Request::StopAllSounds)
        &&& c1.res.entries() == crate::resource::routine_dropped(c0.res.entries())
        &&& c1.res.data == (crate::resource::ResourceData {
            script_cur_off: c0.res.data.script_bak_off,
            ..c0.res.data
        })
        &&& c1.res.mem_buf == c0.res.mem_buf
        &&& c1.res.storage.banks == c0.res.storage.banks
        &&& c1.res.requested_next_part == c0.res.requested_next_part
    } else {
        c1.requests == c0.requests && crate::resource::request_post(c0.res, c1.res, id)
    }
}

/// A letter, backspace, or nothing: what the password screen takes.
pub open spec fn typed(c: u8) -> bool {
    c == 8 || c == 0 || (0x61 <= c <= 0x7A)
}

/// The variables after taking the player's input.
pub open spec fn player_vars(v: Seq<i16>, input: PlayerInput, take_char: bool) -> Seq<i16> {
    let d = input.dir_mask;
    let right = d & DIR_RIGHT != 0;
    let left = d & DIR_LEFT != 0;
    let down = d & DIR_DOWN != 0;
    let up = d & DIR_UP != 0;
    let m = (if right { 1int } else { 0 }) + (if left { 2int } else { 0 }) + (if down { 4int } else { 0 }) + (if up {
        8int
    } else {
        0
    });
    let ud: i16 = if up { -1i16 } else if down { 1i16 } else { 0i16 };
    let v0 = if take_char {
        v.update(VM_VARIABLE_LAST_KEYCHAR as int, (input.last_char & 0xDF) as i16)
    } else {
        v
    };
    v0.update(VM_VARIABLE_HERO_POS_UP_DOWN as int, ud).update(VM_VARIABLE_HERO_POS_JUMP_DOWN as int, ud).update(
        VM_VARIABLE_HERO_POS_LEFT_RIGHT as int,
        if left { -1i16 } else if right { 1i16 } else { 0i16 },
    ).update(VM_VARIABLE_HERO_POS_MASK as int, m as i16).update(
        VM_VARIABLE_HERO_ACTION as int,
        if input.button { 1i16 } else { 0i16 },
    ).update(VM_VARIABLE_HERO_ACTION_POS_MASK as int, if input.button { (m + 0x80) as i16 } else { m as i16 })
}

/// Whether playing a sound succeeds: the resource must exist, and the note must be
/// one of the forty where the sound is loaded and played.
pub open spec fn sound_result(es: Seq<crate::memlist::MemEntry>, res_id: u16, freq: u8, vol: u8) -> Result<(), Error> {
    if res_id >= es.len() {
        Err(Error::OutOfRange)
    } else if es[res_id as int].state == MemEntryState::Loaded && vol != 0 && freq >= 40 {
        Err(Error::OutOfRange)
    } else {
        Ok(())
    }
}

/// What playing a sound asks of the audio collaborator, if anything.
pub open spec fn sound_request(
    es: Seq<crate::memlist::MemEntry>,
    res_id: u16,
    freq: u8,
    vol: u8,
    channel: u8,
) -> Option<Request> {
    let e = es[res_id as int];
    if e.state != MemEntryState::Loaded {
        None
    } else if vol == 0 {
        Some(Request::StopSound { channel: channel & 3 })
    } else {
        Some(
            Request::PlaySound {
                data_offset: e.buf_offset.wrapping_add(8),
                freq: frequency_spec(freq as int),
                volume: if vol > 0x3F { 0x3F } else { vol },
                channel: channel & 3,
            },
        )
    }
}

/// Bytes of a saved VM state: each variable in two bytes, then each channel in six.
pub const SNAPSHOT_LEN: usize = 896;

/// Byte `i` of the saved state: variables high byte first, then for each channel
/// its program counter, its requested program counter, and its two flags.
pub open spec fn snapshot_byte(v: Seq<i16>, t: Seq<ThreadData>, i: int) -> u8 {
    if i < 512 {
        let n = v[i / 2] as u16;
        if i % 2 == 0 { (n / 256) as u8 } else { (n % 256) as u8 }
    } else {
        let c = t[(i - 512) / 6];
        let j = (i - 512) % 6;
        if j == 0 {
            (c.pc_offset / 256) as u8
        } else if j == 1 {
            (c.pc_offset % 256) as u8
        } else if j == 2 {
            (c.requested_pc_offset / 256) as u8
        } else if j == 3 {
            (c.requested_pc_offset % 256) as u8
        } else if j == 4 {
            if c.cur_state_active { 1u8 } else { 0u8 }
        } else {
            if c.requested_state_active { 1u8 } else { 0u8 }
        }
    }
}

pub open spec fn snapshot(v: Seq<i16>, t: Seq<ThreadData>) -> Seq<u8> {
    Seq::new(SNAPSHOT_LEN as nat, |i: int| snapshot_byte(v, t, i))
}

/// The variables that a saved state holds.
pub open spec fn snapshot_vars(b: Seq<u8>) -> Seq<i16> {
    Seq::new(VM_NUM_VARIABLES as nat, |k: int| ((b[2 * k] as nat * 256 + b[2 * k + 1] as nat) as u16) as i16)
}

/// The channels that a saved state holds.
pub open spec fn snapshot_threads(b: Seq<u8>) -> Seq<ThreadData> {
    Seq::new(
        VM_NUM_THREADS as nat,
        |k: int|
            {
                let o = 512 + 6 * k;
                ThreadData {
                    pc_offset: (b[o] as nat * 256 + b[o + 1] as nat) as u16,
                    requested_pc_offset: (b[o + 2] as nat * 256 + b[o + 3] as nat) as u16,
                    cur_state_active: b[o + 4] != 0,
                    requested_state_active: b[o + 5] != 0,
                }
            },
    )
}

/// Byte `j` of channel `k`'s six.
proof fn lemma_slot(k: int, j: int)
    requires
        0 <= k,
        0 <= j < 6,
    ensures
        (6 * k + j) / 6 == k,
        (6 * k + j) % 6 == j,
{
    vstd::arithmetic::div_mod::lemma_fundamental_div_mod_converse(6 * k + j, 6, k, j);
}

proof fn lemma_u16_bytes(n: u16)
    ensures
        (((n / 256) as u8) as nat * 256 + ((n % 256) as u8) as nat) as u16 == n,
{
    assert(((n / 256) as u8) as nat == n / 256);
    assert(((n % 256) as u8) as nat == n % 256);
}

/// Loading a saved state gives back the variables and channels that were saved.
pub proof fn snapshot_round_trip(v: Seq<i16>, t: Seq<ThreadData>)
    requires
        v.len() == VM_NUM_VARIABLES,
        t.len() == VM_NUM_THREADS,
    ensures
        snapshot_vars(snapshot(v, t)) == v,
        snapshot_threads(snapshot(v, t)) == t,
{
    let b = snapshot(v, t);
    assert forall|k: int| 0 <= k < VM_NUM_VARIABLES implies #[trigger] snapshot_vars(b)[k] == v[k] by {
        let x = v[k];
        let n = x as u16;
        lemma_u16_bytes(n);
        assert((2 * k) / 2 == k && (2 * k + 1) / 2 == k && (2 * k) % 2 == 0 && (2 * k + 1) % 2 == 1);
        assert((n as i16) == x) by (bit_vector)
            requires n == x as u16;
    }
    assert(snapshot_vars(b) =~= v);
    assert forall|k: int| 0 <= k < VM_NUM_THREADS implies #[trigger] snapshot_threads(b)[k] == t[k] by {
        let o = 512 + 6 * k;
        assert forall|j: int| 0 <= j < 6 implies #[trigger] ((o + j - 512) / 6) == k && (o + j - 512) % 6 == j by {
            lemma_slot(k, j);
        }
        lemma_u16_bytes(t[k].pc_offset);
        lemma_u16_bytes(t[k].requested_pc_offset);
        assert(b[o] == snapshot_byte(v, t, o));
        assert(b[o + 1] == snapshot_byte(v, t, o + 1));
        assert(b[o + 2] == snapshot_byte(v, t, o + 2));
        assert(b[o + 3] == snapshot_byte(v, t, o + 3));
        assert(b[o + 4] == snapshot_byte(v, t, o + 4));
        assert(b[o + 5] == snapshot_byte(v, t, o + 5));
    }
    assert(snapshot_threads(b) =~= t);
}

impl VmContext {
    /// Writes the variables and channels to a saved state, or reads them back
    /// from one; states older than the first version hold none.
    pub fn save_or_load(&mut self, ser: &mut Serializer) -> (r: Result<(), crate::error::Error>)
        requires
            old(self).wf(),
            old(ser).stream.wf(),
            old(ser).stream.pos + SNAPSHOT_LEN <= usize::MAX,
        ensures
            final(self).wf(),
            final(ser).stream.wf(),
            final(ser).mode == old(ser).mode,
            final(self).res == old(self).res,
            final(ser).stream.pos <= old(ser).stream.pos + SNAPSHOT_LEN,
            final(ser).save_ver == old(ser).save_ver,
            !old(ser).has_entries_spec(Ver(1)) ==> r is Ok && *final(self) == *old(self) && *final(ser) == *old(ser),
            old(ser).has_entries_spec(Ver(1)) && old(ser).mode == Mode::Save ==> r is Ok && final(ser).stream.data@
                == written(
                old(ser).stream.data@,
                old(ser).stream.pos as int,
                snapshot(old(self).variables@, old(self).threads_data@),
            ) && *final(self) == *old(self),
            old(ser).has_entries_spec(Ver(1)) && old(ser).mode == Mode::Load ==> {
                let s = old(ser).stream;
                if s.pos + SNAPSHOT_LEN <= s.data@.len() {
                    let b = s.data@.subrange(s.pos as int, s.pos + SNAPSHOT_LEN);
                    r is Ok && final(self).variables@ == snapshot_vars(b) && final(self).threads_data@
                        == snapshot_threads(b)
                } else {
                    r is Err && final(self).variables == old(self).variables && final(self).threads_data
                        == old(self).threads_data
                }
            },
    {
        if !ser.has_entries(Ver(1)) {
            return Ok(());
        }
        match ser.mode() {
            Mode::Save => {
                let bytes = self.snapshot_bytes();
                ser.stream.write(bytes.as_slice())
            },
            Mode::Load => {
                let mut buf: Vec<u8> = vec![0u8; SNAPSHOT_LEN];
                ser.stream.read(buf.as_mut_slice())?;
                self.restore(&buf);
                Ok(())
            },
        }
    }

    /// The saved form of the variables and channels.
    pub fn snapshot_bytes(&self) -> (r: Vec<u8>)
        requires
            self.wf(),
        ensures
            r@ == snapshot(self.variables@, self.threads_data@),
    {
        let mut out: Vec<u8> = Vec::new();
        let mut k: usize = 0;
        while k < VM_NUM_VARIABLES
            invariant
                self.wf(),
                k <= VM_NUM_VARIABLES,
                out@ == snapshot(self.variables@, self.threads_data@).subrange(0, 2 * k as int),
            decreases VM_NUM_VARIABLES - k,
        {
            let n = self.variables[k] as u16;
            out.push((n / 256) as u8);
            out.push((n % 256) as u8);
            k = k + 1;
            assert(out@ =~= snapshot(self.variables@, self.threads_data@).subrange(0, 2 * k as int));
        }
        let mut k: usize = 0;
        while k < VM_NUM_THREADS
            invariant
                self.wf(),
                k <= VM_NUM_THREADS,
                out@ == snapshot(self.variables@, self.threads_data@).subrange(0, 512 + 6 * k as int),
            decreases VM_NUM_THREADS - k,
        {
            let c = self.threads_data[k];
            out.push((c.pc_offset / 256) as u8);
            out.push((c.pc_offset % 256) as u8);
            out.push((c.requested_pc_offset / 256) as u8);
            out.push((c.requested_pc_offset % 256) as u8);
            out.push(if c.cur_state_active { 1 } else { 0 });
            out.push(if c.requested_state_active { 1 } else { 0 });
            k = k + 1;
            proof {
                let o = 512 + 6 * (k - 1);
                assert forall|j: int| 0 <= j < 6 implies #[trigger] ((o + j - 512) / 6) == k - 1 && (o + j - 512) % 6 == j by {
                    lemma_slot(k - 1, j);
                }
            }
            assert(out@ =~= snapshot(self.variables@, self.threads_data@).subrange(0, 512 + 6 * k as int));
        }
        assert(out@ =~= snapshot(self.variables@, self.threads_data@));
        out
    }

    /// Takes the variables and channels from a saved form.
    pub fn restore(&mut self, b: &Vec<u8>)
        requires
            old(self).wf(),
            b@.len() == SNAPSHOT_LEN,
        ensures
            final(self).wf(),
            final(self).variables@ == snapshot_vars(b@),
            final(self).threads_data@ == snapshot_threads(b@),
            final(self).res == old(self).res,
            final(self).requests == old(self).requests,
    {
        let mut k: usize = 0;
        while k < VM_NUM_VARIABLES
            invariant
                self.wf(),
                b@.len() == SNAPSHOT_LEN,
                k <= VM_NUM_VARIABLES,
                self.res == old(self).res,
                self.requests == old(self).requests,
                forall|j: int| 0 <= j < k ==> #[trigger] self.variables@[j] == snapshot_vars(b@)[j],
            decreases VM_NUM_VARIABLES - k,
        {
            let n: u16 = (b[2 * k] as u16) * 256 + b[2 * k + 1] as u16;
            self.variables.set(k, n as i16);
            k = k + 1;
        }
        assert(self.variables@ =~= snapshot_vars(b@));
        let mut k: usize = 0;
        while k < VM_NUM_THREADS
            invariant
                self.wf(),
                b@.len() == SNAPSHOT_LEN,
                k <= VM_NUM_THREADS,
                self.res == old(self).res,
                self.requests == old(self).requests,
                self.variables@ == snapshot_vars(b@),
                forall|j: int| 0 <= j < k ==> #[trigger] self.threads_data@[j] == snapshot_threads(b@)[j],
            decreases VM_NUM_THREADS - k,
        {
            let o = 512 + 6 * k;
            let t = ThreadData {
                pc_offset: (b[o] as u16) * 256 + b[o + 1] as u16,
                requested_pc_offset: (b[o + 2] as u16) * 256 + b[o + 3] as u16,
                cur_state_active: b[o + 4] != 0,
                requested_state_active: b[o + 5] != 0,
            };
            self.threads_data.set(k, t);
            k = k + 1;
        }
        assert(self.threads_data@ =~= snapshot_threads(b@));
    }
}

/// The channels when a part starts: all idle but the first, at address 0.
pub open spec fn part_start_threads() -> Seq<ThreadData> {
    Seq::new(VM_NUM_THREADS as nat, |i: int| idle_thread()).update(0, ThreadData { pc_offset: 0, ..idle_thread() })
}

/// Sixty-four idle channels.
pub fn idle_threads() -> (r: Vec<ThreadData>)
    ensures
        r@ == Seq::new(VM_NUM_THREADS as nat, |i: int| idle_thread()),
{
    let mut threads: Vec<ThreadData> = Vec::new();
    let mut i: usize = 0;
    while i < VM_NUM_THREADS
        invariant
            i <= VM_NUM_THREADS,
            threads@ == Seq::new(i as nat, |k: int| idle_thread()),
        decreases VM_NUM_THREADS - i,
    {
        threads.push(ThreadData::new());
        i = i + 1;
        assert(threads@ =~= Seq::new(i as nat, |k: int| idle_thread()));
    }
    threads
}

} // verus!
