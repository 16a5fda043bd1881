use vstd::prelude::*;
use crate::error::Error;
use crate::memlist::{MemEntry, MemEntryState, ResType};
use crate::parts::{GAME_PART_FIRST, GAME_PART_LAST, MEMLIST_PART_NONE, part_resources, part_table};
use crate::memlist::{dir_has, state_of, be16};
use crate::serializer::{Mode, Serializer, Ver};
use crate::file::{written, be16_bytes};
use crate::storage::{Storage, banks_view, record_loads, stored, pick};

verus! {

/// Bytes of the memory block that resources are loaded into.
pub const MEM_BLOCK_SIZE: usize = 614400;

/// Bytes kept at the end of the memory block for video.
pub const VID_RESERVE: usize = 32768;

/// The bookkeeping of the memory block and of the current part.
#[derive(Clone, Copy, Debug, PartialEq, Eq, Structural)]
pub struct ResourceData {
    pub current_part_id: u16,
    pub script_bak_off: usize,
    pub script_cur_off: usize,
    pub vid_bak_off: usize,
    pub vid_cur_off: usize,
    pub use_seg_video2: bool,
    pub seg_palette_idx: usize,
    pub seg_code_idx: usize,
    pub seg_cinematic_idx: usize,
    pub seg_video2_idx: usize,
}

/// A descriptor fits in the memory block: it names a bank, is no full-screen
/// image, and fits both in what is left before the video area and in the block.
pub open spec fn fits(e: MemEntry, cur: usize, bak: usize) -> bool {
    &&& e.bank_id != 0
    &&& e.res_type != ResType::PolyAnim
    &&& e.size <= bak - cur
    &&& e.buf_offset + e.buffer@.len() <= MEM_BLOCK_SIZE
}

/// Loading every pending descriptor, highest rank first: each one is loaded into
/// the block if it fits where the block is filled to `cur`, and marked as not
/// needed otherwise. Gives the descriptors, the new fill mark, and the block.
pub open spec fn settle(es: Seq<MemEntry>, cur: usize, bak: usize, mem: Seq<u8>, fuel: nat) -> (
    Seq<MemEntry>,
    usize,
    Seq<u8>,
)
    decreases fuel,
{
    if fuel == 0 {
        (es, cur, mem)
    } else {
        match pick(es) {
            None => (es, cur, mem),
            Some(i) => {
                let e = es[i as int];
                if fits(e, cur, bak) {
                    settle(
                        es.update(i as int, with_state(e, MemEntryState::Loaded)),
                        (cur + e.size) as usize,
                        bak,
                        placed(mem, e.buf_offset as int, e.buffer@),
                        (fuel - 1) as nat,
                    )
                } else {
                    settle(es.update(i as int, with_state(e, MemEntryState::NotNeeded)), cur, bak, mem, (fuel - 1) as nat)
                }
            },
        }
    }
}

proof fn lemma_pending_le_len(s: Seq<MemEntry>)
    ensures
        pending_count(s) <= s.len(),
    decreases s.len(),
{
    if s.len() > 0 {
        lemma_pending_le_len(s.drop_last());
    }
}

/// The descriptor with another state.
pub open spec fn with_state(e: MemEntry, s: MemEntryState) -> MemEntry {
    MemEntry { state: s, ..e }
}

/// How many descriptors wait to load.
pub open spec fn pending_count(s: Seq<MemEntry>) -> nat
    decreases s.len(),
{
    if s.len() == 0 {
        0
    } else {
        pending_count(s.drop_last()) + if s.last().state == MemEntryState::LoadMe {
            1nat
        } else {
            0nat
        }
    }
}

proof fn lemma_pending_update(s: Seq<MemEntry>, i: int, e: MemEntry)
    requires
        0 <= i < s.len(),
        s[i].state == MemEntryState::LoadMe,
        e.state != MemEntryState::LoadMe,
    ensures
        pending_count(s.update(i, e)) < pending_count(s),
    decreases s.len(),
{
    let t = s.update(i, e);
    if i < s.len() - 1 {
        lemma_pending_update(s.drop_last(), i, e);
        assert(t.drop_last() =~= s.drop_last().update(i, e));
    } else {
        assert(t.drop_last() =~= s.drop_last());
    }
}

/// The current part's palette, bytecode and cinematic slots are recorded.
pub open spec fn parts_recorded(d: ResourceData) -> bool {
    let t = part_table(d.current_part_id - GAME_PART_FIRST);
    d.seg_palette_idx == t.0 && d.seg_code_idx == t.1 && d.seg_cinematic_idx == t.2
}

/// Switching to `part_id` succeeds: it is the current part, or a part of the game
/// whose resource slots are inside the directory.
pub open spec fn part_ok(r: Resource, part_id: u16) -> bool {
    part_id == r.data.current_part_id || (valid_part(part_id) && slots_in(
        part_table(part_id - GAME_PART_FIRST),
        r.entries().len(),
    ))
}

/// A part id of the game.
pub open spec fn valid_part(part_id: u16) -> bool {
    GAME_PART_FIRST <= part_id <= GAME_PART_LAST
}

/// The part's resource slots are inside a directory of `n` descriptors.
pub open spec fn slots_in(t: (usize, usize, usize, usize), n: nat) -> bool {
    t.0 < n && t.1 < n && t.2 < n && t.3 < n
}

/// Descriptor `k` is one of the part's resources.
pub open spec fn in_part(t: (usize, usize, usize, usize), k: int) -> bool {
    k == t.0 || k == t.1 || k == t.2 || (t.3 != MEMLIST_PART_NONE && k == t.3)
}

/// All descriptors marked as not needed but the part's, which wait to load.
pub open spec fn part_marked(es: Seq<MemEntry>, t: (usize, usize, usize, usize)) -> Seq<MemEntry> {
    Seq::new(
        es.len(),
        |k: int|
            with_state(
                es[k],
                if in_part(t, k) {
                    MemEntryState::LoadMe
                } else {
                    MemEntryState::NotNeeded
                },
            ),
    )
}

/// `b` is `a` after switching to part `part_id`: the block was emptied, the part's
/// resources were loaded in rank order as far as they fit, nothing else is needed,
/// and the part's slots and id are recorded.
pub open spec fn switched(a: Resource, b: Resource, part_id: u16) -> bool {
    let t = part_table(part_id - GAME_PART_FIRST);
    &&& settled(part_marked(a.entries(), t), b.entries())
    &&& (b.entries(), b.data.script_cur_off, b.mem_buf@) == settle(
        part_marked(a.entries(), t),
        0,
        a.data.vid_bak_off,
        a.mem_buf@,
        a.entries().len(),
    )
    &&& b.data.current_part_id == part_id
    &&& b.data.seg_palette_idx == t.0
    &&& b.data.seg_code_idx == t.1
    &&& b.data.seg_cinematic_idx == t.2
    &&& b.data.seg_video2_idx == if t.3 != MEMLIST_PART_NONE {
        t.3
    } else {
        a.data.seg_video2_idx
    }
    &&& b.data.script_bak_off == b.data.script_cur_off
    &&& b.data.vid_bak_off == a.data.vid_bak_off
}

/// Every descriptor marked as not needed but palettes and bytecode.
pub open spec fn routine_dropped(es: Seq<MemEntry>) -> Seq<MemEntry> {
    Seq::new(
        es.len(),
        |k: int|
            if crate::memlist::spared_by_res(es[k].res_type) {
                es[k]
            } else {
                crate::memlist::dropped(es[k])
            },
    )
}

/// What asking for resource `id` does: past the directory it asks for that part;
/// a descriptor that is not needed is marked to load and everything waiting loads;
/// anything else stays as it is.
pub open spec fn request_post(r0: Resource, r1: Resource, id: u16) -> bool {
    &&& r1.storage.banks == r0.storage.banks
    &&& if id >= r0.entries().len() {
        r1.requested_next_part == Some(id) && paging(r1) == paging(r0) && r1.data == r0.data
    } else if r0.entries()[id as int].state != MemEntryState::NotNeeded {
        paging(r1) == paging(r0) && r1.data == r0.data && r1.requested_next_part == r0.requested_next_part
    } else {
        &&& r1.requested_next_part == r0.requested_next_part
        &&& paging(r1) == settle(
            r0.entries().update(id as int, with_state(r0.entries()[id as int], MemEntryState::LoadMe)),
            r0.data.script_cur_off,
            r0.data.vid_bak_off,
            r0.mem_buf@,
            r0.entries().len(),
        )
        &&& r1.data == (ResourceData { script_cur_off: r1.data.script_cur_off, ..r0.data })
    }
}

/// The descriptors, how far the memory block is filled, and the block.
pub open spec fn paging(r: Resource) -> (Seq<MemEntry>, usize, Seq<u8>) {
    (r.entries(), r.data.script_cur_off, r.mem_buf@)
}

/// The byte that stands for a state in a saved state.
pub open spec fn state_byte(s: MemEntryState) -> u8 {
    match s {
        MemEntryState::NotNeeded => 0,
        MemEntryState::Loaded => 1,
        MemEntryState::LoadMe => 2,
        MemEntryState::EndOfMemList => 0xFF,
    }
}

/// The saved form of the resources: the current part, then each descriptor's state.
pub open spec fn res_snapshot(r: Resource) -> Seq<u8> {
    be16_bytes(r.data.current_part_id) + Seq::new(r.entries().len(), |k: int| state_byte(r.entries()[k].state))
}

/// The states that saved bytes `b` give the descriptors `es`, where each byte is a state.
pub open spec fn states_ok(es: Seq<MemEntry>, b: Seq<u8>) -> bool {
    b.len() == es.len() && forall|k: int| 0 <= k < es.len() ==> #[trigger] state_of(b[k]) is Ok
}

pub open spec fn restored(es: Seq<MemEntry>, b: Seq<u8>) -> Seq<MemEntry> {
    Seq::new(es.len(), |k: int| with_state(es[k], state_of(b[k])->Ok_0))
}

/// The bookkeeping once part `p` is the current one again.
pub open spec fn data_for_part(d: ResourceData, p: u16) -> ResourceData {
    if valid_part(p) {
        let t = part_table(p - GAME_PART_FIRST);
        ResourceData { current_part_id: p, seg_palette_idx: t.0, seg_code_idx: t.1, seg_cinematic_idx: t.2, ..d }
    } else {
        ResourceData { current_part_id: p, ..d }
    }
}

/// Loading what was saved gives back the current part and every descriptor's state.
pub proof fn resource_snapshot_round_trip(r: Resource)
    ensures
        be16(res_snapshot(r), 0) == r.data.current_part_id,
        states_ok(r.entries(), res_snapshot(r).subrange(2, res_snapshot(r).len() as int)),
        restored(r.entries(), res_snapshot(r).subrange(2, res_snapshot(r).len() as int)) == r.entries(),
{
    let s = res_snapshot(r);
    let b = s.subrange(2, s.len() as int);
    let n = r.data.current_part_id;
    assert(s[0] == (n / 256) as u8 && s[1] == (n % 256) as u8);
    assert forall|k: int| 0 <= k < r.entries().len() implies #[trigger] state_of(b[k]) == Ok::<MemEntryState, Error>(
        r.entries()[k].state,
    ) by {
        assert(b[k] == s[k + 2]);
    }
    assert(restored(r.entries(), b) =~= r.entries());
}

/// `mem` with `b` written from `off`.
pub open spec fn placed(mem: Seq<u8>, off: int, b: Seq<u8>) -> Seq<u8> {
    mem.subrange(0, off) + b + mem.subrange(off + b.len(), mem.len() as int)
}

/// From `a` to `b` only states changed, and only those of descriptors that waited
/// to load: each is still waiting, loaded, or not needed; loaded ones name a bank and
/// are no full-screen image; those that name no bank are not needed.
pub open spec fn settling(a: Seq<MemEntry>, b: Seq<MemEntry>) -> bool {
    &&& a.len() == b.len()
    &&& forall|k: int| 0 <= k < a.len() ==> #[trigger] b[k] == with_state(a[k], b[k].state)
    &&& forall|k: int| 0 <= k < a.len() && a[k].state != MemEntryState::LoadMe ==> #[trigger] b[k].state == a[k].state
    &&& forall|k: int| 0 <= k < a.len() && a[k].state == MemEntryState::LoadMe ==> {
        ||| #[trigger] b[k].state == MemEntryState::LoadMe
        ||| b[k].state == MemEntryState::NotNeeded
        ||| (b[k].state == MemEntryState::Loaded && a[k].bank_id != 0 && a[k].res_type != ResType::PolyAnim)
    }
}

/// As `settling`, with nothing left waiting.
pub open spec fn settled(a: Seq<MemEntry>, b: Seq<MemEntry>) -> bool {
    &&& settling(a, b)
    &&& forall|k: int| 0 <= k < b.len() ==> #[trigger] b[k].state != MemEntryState::LoadMe
}

/// The resource directory, the memory block, and the current part.
pub struct Resource {
    pub storage: Storage,
    /// A part switch asked for by the bytecode, taken at the next frame.
    pub requested_next_part: Option<u16>,
    pub mem_buf: Vec<u8>,
    pub data: ResourceData,
}

impl Resource {
    /// The offsets into the memory block stay in order and inside it.
    pub open spec fn wf(&self) -> bool {
        &&& self.mem_buf@.len() == MEM_BLOCK_SIZE
        &&& self.data.script_cur_off <= self.data.vid_bak_off <= MEM_BLOCK_SIZE
        &&& self.data.script_bak_off <= self.data.vid_bak_off
        &&& self.data.vid_cur_off <= MEM_BLOCK_SIZE
        &&& valid_part(self.data.current_part_id) ==> parts_recorded(self.data)
    }

    pub open spec fn entries(&self) -> Seq<MemEntry> {
        self.storage.mem_list.entries@
    }

    /// Descriptor `i` can be placed in the memory block now.
    pub open spec fn loadable(&self, i: int) -> bool {
        let e = self.entries()[i];
        &&& e.bank_id != 0
        &&& e.res_type != ResType::PolyAnim
        &&& e.size <= self.data.vid_bak_off - self.data.script_cur_off
        &&& e.buf_offset + e.buffer@.len() <= MEM_BLOCK_SIZE
    }

    pub fn new(storage: Storage) -> (r: Self)
        ensures
            r.wf(),
            r.storage == storage,
            r.requested_next_part is None,
            r.data.current_part_id == 0,
            r.data.script_cur_off == 0,
            r.data.vid_bak_off == 0,
    {
        let mut mem_buf: Vec<u8> = Vec::new();
        let mut i: usize = 0;
        while i < MEM_BLOCK_SIZE
            invariant
                i <= MEM_BLOCK_SIZE,
                mem_buf@.len() == i,
            decreases MEM_BLOCK_SIZE - i,
        {
            mem_buf.push(0);
            i = i + 1;
        }
        Resource {
            storage,
            requested_next_part: None,
            mem_buf,
            data: ResourceData {
                current_part_id: 0,
                script_bak_off: 0,
                script_cur_off: 0,
                vid_bak_off: 0,
                vid_cur_off: 0,
                use_seg_video2: false,
                seg_palette_idx: 0,
                seg_code_idx: 0,
                seg_cinematic_idx: 0,
                seg_video2_idx: 0,
            },
        }
    }

    pub fn current_part_id(&self) -> (r: u16)
        ensures
            r == self.data.current_part_id,
    {
        self.data.current_part_id
    }

    pub fn use_seg_video2(&self) -> (r: bool)
        ensures
            r == self.data.use_seg_video2,
    {
        self.data.use_seg_video2
    }

    pub fn set_use_seg_video2(&mut self, val: bool)
        ensures
            final(self).data == (ResourceData { use_seg_video2: val, ..old(self).data }),
            final(self).storage == old(self).storage,
            final(self).mem_buf == old(self).mem_buf,
            final(self).requested_next_part == old(self).requested_next_part,
    {
        self.data.use_seg_video2 = val;
    }

    pub fn seg_code_idx(&self) -> (r: usize)
        ensures
            r == self.data.seg_code_idx,
    {
        self.data.seg_code_idx
    }

    pub fn seg_cinematic_idx(&self) -> (r: usize)
        ensures
            r == self.data.seg_cinematic_idx,
    {
        self.data.seg_cinematic_idx
    }

    pub fn seg_video2_idx(&self) -> (r: usize)
        ensures
            r == self.data.seg_video2_idx,
    {
        self.data.seg_video2_idx
    }

    /// Clears the memory block and places the video area at its end.
    pub fn reset_mem_block(&mut self)
        requires
            old(self).wf(),
        ensures
            final(self).wf(),
            final(self).mem_buf@ == Seq::new(MEM_BLOCK_SIZE as nat, |i: int| 0u8),
            final(self).data == (ResourceData {
                script_bak_off: 0,
                script_cur_off: 0,
                vid_bak_off: (MEM_BLOCK_SIZE - VID_RESERVE) as usize,
                vid_cur_off: (MEM_BLOCK_SIZE - VID_RESERVE) as usize,
                ..old(self).data
            }),
            final(self).storage == old(self).storage,
            final(self).requested_next_part == old(self).requested_next_part,
    {
        self.memset(0, 0, MEM_BLOCK_SIZE);
        assert(self.mem_buf@ =~= Seq::new(MEM_BLOCK_SIZE as nat, |i: int| 0u8));
        self.data.script_bak_off = 0;
        self.data.script_cur_off = 0;
        self.data.vid_bak_off = MEM_BLOCK_SIZE - VID_RESERVE;
        self.data.vid_cur_off = self.data.vid_bak_off;
    }

    /// Sets `size` bytes of the memory block from `offset` to `val`.
    pub fn memset(&mut self, offset: usize, val: u8, size: usize)
        requires
            old(self).wf(),
            offset + size <= MEM_BLOCK_SIZE,
        ensures
            final(self).wf(),
            final(self).mem_buf@.len() == old(self).mem_buf@.len(),
            forall|k: int| 0 <= k < MEM_BLOCK_SIZE ==> #[trigger] final(self).mem_buf@[k] == if offset <= k < offset + size {
                val
            } else {
                old(self).mem_buf@[k]
            },
            final(self).data == old(self).data,
            final(self).storage == old(self).storage,
            final(self).requested_next_part == old(self).requested_next_part,
    {
        let mut i: usize = 0;
        while i < size
            invariant
                i <= size,
                offset + size <= MEM_BLOCK_SIZE,
                self.wf(),
                self.data == old(self).data,
                self.storage == old(self).storage,
                self.requested_next_part == old(self).requested_next_part,
                forall|k: int| 0 <= k < MEM_BLOCK_SIZE ==> #[trigger] self.mem_buf@[k] == if offset <= k < offset + i {
                    val
                } else {
                    old(self).mem_buf@[k]
                },
            decreases size - i,
        {
            self.mem_buf.set(offset + i, val);
            i = i + 1;
        }
    }

    /// A copy of `size` bytes of the memory block from `offset`.
    pub fn mem_to_slice(&self, offset: usize, size: usize) -> (r: Vec<u8>)
        requires
            offset + size <= self.mem_buf@.len(),
        ensures
            r@ == self.mem_buf@.subrange(offset as int, offset + size),
    {
        crate::memlist::copy_range(&self.mem_buf, offset, size)
    }

    pub fn from_mem_u8(&self, _page_idx: usize, offset: usize) -> (r: u8)
        requires
            offset < self.mem_buf@.len(),
        ensures
            r == self.mem_buf@[offset as int],
    {
        self.mem_buf[offset]
    }

    pub fn from_mem_be_u16(&self, _page_idx: usize, offset: usize) -> (r: u16)
        requires
            offset + 1 < self.mem_buf@.len(),
        ensures
            r as nat == crate::memlist::be16(self.mem_buf@, offset as int),
    {
        // Reading the length bounds it by usize::MAX.
        let _len = self.mem_buf.len();
        (self.mem_buf[offset] as u16) * 256 + self.mem_buf[offset + 1] as u16
    }

    /// `size` bytes of the current palette resource from `offset`.
    pub fn read_palette(&self, offset: usize, size: usize) -> (r: Vec<u8>)
        requires
            self.data.seg_palette_idx + offset + size <= self.mem_buf@.len(),
        ensures
            r@ == self.mem_buf@.subrange(
                self.data.seg_palette_idx + offset,
                self.data.seg_palette_idx + offset + size,
            ),
    {
        // Reading the length bounds it by usize::MAX.
        let _len = self.mem_buf.len();
        self.mem_to_slice(self.data.seg_palette_idx + offset, size)
    }

    /// Loads descriptor `i`, which waits to load: its bytes go to its place in the
    /// memory block. One that names no bank, is a full-screen image, or does not fit
    /// in what is left of the block is marked as not needed instead.
    pub fn load_entry_at(&mut self, i: usize)
        requires
            old(self).wf(),
            i < old(self).entries().len(),
            old(self).entries()[i as int].state == MemEntryState::LoadMe,
        ensures
            final(self).wf(),
            final(self).entries() == old(self).entries().update(
                i as int,
                with_state(
                    old(self).entries()[i as int],
                    if old(self).loadable(i as int) {
                        MemEntryState::Loaded
                    } else {
                        MemEntryState::NotNeeded
                    },
                ),
            ),
            final(self).data == (if old(self).loadable(i as int) {
                ResourceData {
                    script_cur_off: (old(self).data.script_cur_off + old(self).entries()[i as int].size) as usize,
                    ..old(self).data
                }
            } else {
                old(self).data
            }),
            old(self).loadable(i as int) ==> final(self).mem_buf@ == placed(
                old(self).mem_buf@,
                old(self).entries()[i as int].buf_offset as int,
                old(self).entries()[i as int].buffer@,
            ),
            !old(self).loadable(i as int) ==> final(self).mem_buf@ == old(self).mem_buf@,
            final(self).storage.banks == old(self).storage.banks,
            final(self).requested_next_part == old(self).requested_next_part,
    {
        let ghost es = self.entries();
        let e = &self.storage.mem_list.entries[i];
        let fits = e.bank_id != 0 && e.res_type != ResType::PolyAnim
            && e.size <= self.data.vid_bak_off - self.data.script_cur_off && e.buf_offset <= MEM_BLOCK_SIZE
            && e.buffer.len() <= MEM_BLOCK_SIZE - e.buf_offset;
        if !fits {
            self.storage.mem_list.entries[i].state = MemEntryState::NotNeeded;
            assert(self.entries() =~= es.update(i as int, with_state(es[i as int], MemEntryState::NotNeeded)));
            return;
        }
        let off = self.storage.mem_list.entries[i].buf_offset;
        let n = self.storage.mem_list.entries[i].buffer.len();
        let mut j: usize = 0;
        while j < n
            invariant
                j <= n,
                n == es[i as int].buffer@.len(),
                off == es[i as int].buf_offset,
                off + n <= MEM_BLOCK_SIZE,
                self.entries() == es,
                i < es.len(),
                self.wf(),
                self.data == old(self).data,
                self.storage.banks == old(self).storage.banks,
                self.requested_next_part == old(self).requested_next_part,
                forall|k: int| 0 <= k < MEM_BLOCK_SIZE ==> #[trigger] self.mem_buf@[k] == if off <= k < off + j {
                    es[i as int].buffer@[k - off]
                } else {
                    old(self).mem_buf@[k]
                },
            decreases n - j,
        {
            let b = self.storage.mem_list.entries[i].buffer[j];
            self.mem_buf.set(off + j, b);
            j = j + 1;
        }
        assert(self.mem_buf@ =~= placed(old(self).mem_buf@, off as int, es[i as int].buffer@));
        let size = self.storage.mem_list.entries[i].size;
        self.storage.mem_list.entries[i].state = MemEntryState::Loaded;
        self.data.script_cur_off = self.data.script_cur_off + size;
        assert(self.entries() =~= es.update(i as int, with_state(es[i as int], MemEntryState::Loaded)));
    }

    /// Loads every descriptor that waits to load, highest rank first.
    pub fn load_marked_as_needed(&mut self)
        requires
            old(self).wf(),
        ensures
            final(self).wf(),
            settled(old(self).entries(), final(self).entries()),
            final(self).data == (ResourceData { script_cur_off: final(self).data.script_cur_off, ..old(self).data }),
            (final(self).entries(), final(self).data.script_cur_off, final(self).mem_buf@) == settle(
                old(self).entries(),
                old(self).data.script_cur_off,
                old(self).data.vid_bak_off,
                old(self).mem_buf@,
                old(self).entries().len(),
            ),
            final(self).storage.banks == old(self).storage.banks,
            final(self).requested_next_part == old(self).requested_next_part,
    {
        let ghost mut fuel: nat = old(self).entries().len();
        proof {
            lemma_pending_le_len(old(self).entries());
        }
        loop
            invariant
                self.wf(),
                settling(old(self).entries(), self.entries()),
                self.data == (ResourceData { script_cur_off: self.data.script_cur_off, ..old(self).data }),
                self.storage.banks == old(self).storage.banks,
                self.requested_next_part == old(self).requested_next_part,
                fuel <= old(self).entries().len(),
                pending_count(self.entries()) <= fuel,
                self.entries().len() == old(self).entries().len(),
                settle(self.entries(), self.data.script_cur_off, self.data.vid_bak_off, self.mem_buf@, fuel) == settle(
                    old(self).entries(),
                    old(self).data.script_cur_off,
                    old(self).data.vid_bak_off,
                    old(self).mem_buf@,
                    old(self).entries().len(),
                ),
            decreases pending_count(self.entries()),
        {
            match self.storage.get_max_rank_entry_to_load() {
                None => {
                    return;
                },
                Some(i) => {
                    let ghost before = self.entries();
                    let ghost ok = self.loadable(i as int);
                    self.load_entry_at(i);
                    proof {
                        lemma_pending_update(
                            before,
                            i as int,
                            with_state(before[i as int], if ok {
                                MemEntryState::Loaded
                            } else {
                                MemEntryState::NotNeeded
                            }),
                        );
                        fuel = (fuel - 1) as nat;
                    }
                },
            }
        }
    }

    /// Marks every resource but palettes and bytecode as not needed, and frees the
    /// memory block back to where the current part's resources end.
    pub fn invalidate_res(&mut self)
        requires
            old(self).wf(),
        ensures
            final(self).wf(),
            final(self).entries().len() == old(self).entries().len(),
            forall|k: int| 0 <= k < final(self).entries().len() ==> #[trigger] final(self).entries()[k] == (
            if crate::memlist::spared_by_res(old(self).entries()[k].res_type) {
                old(self).entries()[k]
            } else {
                crate::memlist::dropped(old(self).entries()[k])
            }),
            final(self).data == (ResourceData { script_cur_off: old(self).data.script_bak_off, ..old(self).data }),
            final(self).mem_buf == old(self).mem_buf,
            final(self).storage.banks == old(self).storage.banks,
            final(self).requested_next_part == old(self).requested_next_part,
            final(self).entries() == routine_dropped(old(self).entries()),
    {
        self.storage.mem_list.invalidate_res();
        self.data.script_cur_off = self.data.script_bak_off;
        assert(self.entries() =~= routine_dropped(old(self).entries()));
    }

    /// Marks every resource as not needed and frees the whole memory block.
    pub fn invalidate_all(&mut self)
        requires
            old(self).wf(),
        ensures
            final(self).wf(),
            final(self).entries().len() == old(self).entries().len(),
            forall|k: int| 0 <= k < final(self).entries().len() ==> #[trigger] final(self).entries()[k] == crate::memlist::dropped(
                old(self).entries()[k],
            ),
            final(self).data == (ResourceData { script_cur_off: 0, ..old(self).data }),
            final(self).mem_buf == old(self).mem_buf,
            final(self).storage.banks == old(self).storage.banks,
            final(self).requested_next_part == old(self).requested_next_part,
    {
        self.storage.mem_list.invalidate_all();
        self.data.script_cur_off = 0;
    }

    /// An id past the directory asks for a part switch at the next frame; any other
    /// id marks that resource to load and loads it, if it is not needed so far.
    pub fn load_parts_or_mem_entry(&mut self, resource_id: u16)
        requires
            old(self).wf(),
        ensures
            final(self).wf(),
            resource_id >= old(self).entries().len() ==> final(self).requested_next_part == Some(resource_id)
                && final(self).entries() == old(self).entries() && final(self).data == old(self).data,
            resource_id < old(self).entries().len() && old(self).entries()[resource_id as int].state
                != MemEntryState::NotNeeded ==> final(self).entries() == old(self).entries() && final(self).data
                == old(self).data,
            resource_id < old(self).entries().len() && old(self).entries()[resource_id as int].state
                == MemEntryState::NotNeeded ==> settled(
                old(self).entries().update(
                    resource_id as int,
                    with_state(old(self).entries()[resource_id as int], MemEntryState::LoadMe),
                ),
                final(self).entries(),
            ),
            resource_id < old(self).entries().len() && old(self).entries()[resource_id as int].state
                == MemEntryState::NotNeeded ==> paging(*final(self)) == settle(
                old(self).entries().update(
                    resource_id as int,
                    with_state(old(self).entries()[resource_id as int], MemEntryState::LoadMe),
                ),
                old(self).data.script_cur_off,
                old(self).data.vid_bak_off,
                old(self).mem_buf@,
                old(self).entries().len(),
            ),
            resource_id < old(self).entries().len() ==> final(self).requested_next_part == old(self).requested_next_part,
            final(self).data.current_part_id == old(self).data.current_part_id,
            request_post(*old(self), *final(self), resource_id),
    {
        let id = resource_id as usize;
        if id >= self.storage.mem_list.entries.len() {
            self.requested_next_part = Some(resource_id);
        } else if self.storage.mem_list.entries[id].state == MemEntryState::NotNeeded {
            let ghost es = self.entries();
            self.storage.mem_list.entries[id].state = MemEntryState::LoadMe;
            assert(self.entries() =~= es.update(id as int, with_state(es[id as int], MemEntryState::LoadMe)));
            self.load_marked_as_needed();
        }
    }

    /// Makes `part_id` the current part: every resource is marked as not needed, then
    /// the part's palette, bytecode and polygon resources are loaded. Switching to the
    /// current part does nothing.
    pub fn setup_part(&mut self, part_id: u16) -> (r: Result<(), Error>)
        requires
            old(self).wf(),
        ensures
            final(self).wf(),
            final(self).requested_next_part == old(self).requested_next_part,
            part_id == old(self).data.current_part_id ==> r is Ok && final(self).entries() == old(self).entries()
                && final(self).data == old(self).data,
            part_id != old(self).data.current_part_id && !valid_part(part_id) ==> r == Err::<(), Error>(
                Error::InvalidPart,
            ) && final(self).entries() == old(self).entries() && final(self).data == old(self).data,
            part_id != old(self).data.current_part_id && valid_part(part_id) && !slots_in(
                part_table(part_id - GAME_PART_FIRST),
                old(self).entries().len(),
            ) ==> r == Err::<(), Error>(Error::OutOfRange) && final(self).entries() == old(self).entries()
                && final(self).data == old(self).data,
            part_id != old(self).data.current_part_id && valid_part(part_id) && slots_in(
                part_table(part_id - GAME_PART_FIRST),
                old(self).entries().len(),
            ) ==> r is Ok && switched(*old(self), *final(self), part_id),
            (r is Ok) == part_ok(*old(self), part_id),
            r is Err || part_id == old(self).data.current_part_id ==> *final(self) == *old(self),
            final(self).storage.banks == old(self).storage.banks,
    {
        if part_id == self.data.current_part_id {
            return Ok(());
        }
        if part_id < GAME_PART_FIRST || part_id > GAME_PART_LAST {
            return Err(Error::InvalidPart);
        }
        let (palette_idx, code_idx, video_cinematic_idx, video2_idx) = part_resources(
            (part_id - GAME_PART_FIRST) as usize,
        );
        let n = self.storage.mem_list.entries.len();
        if palette_idx >= n || code_idx >= n || video_cinematic_idx >= n || video2_idx >= n {
            return Err(Error::OutOfRange);
        }
        let ghost es = self.entries();
        self.invalidate_all();
        self.storage.mem_list.entries[palette_idx].state = MemEntryState::LoadMe;
        self.storage.mem_list.entries[code_idx].state = MemEntryState::LoadMe;
        self.storage.mem_list.entries[video_cinematic_idx].state = MemEntryState::LoadMe;
        if video2_idx != MEMLIST_PART_NONE {
            self.storage.mem_list.entries[video2_idx].state = MemEntryState::LoadMe;
        }
        assert(self.entries() =~= part_marked(es, part_table(part_id - GAME_PART_FIRST)));
        self.load_marked_as_needed();
        self.data.seg_palette_idx = palette_idx;
        self.data.seg_code_idx = code_idx;
        self.data.seg_cinematic_idx = video_cinematic_idx;
        if video2_idx != MEMLIST_PART_NONE {
            self.data.seg_video2_idx = video2_idx;
        }
        self.data.current_part_id = part_id;
        self.data.script_bak_off = self.data.script_cur_off;
        Ok(())
    }

    /// Writes the current part and every descriptor's state to a saved state, or
    /// reads them back from one (where the bytes are well formed).
    pub fn save_or_load(&mut self, ser: &mut Serializer) -> (r: Result<(), Error>)
        requires
            old(self).wf(),
            old(ser).stream.wf(),
            old(ser).stream.pos + 2 + old(self).entries().len() <= usize::MAX,
        ensures
            final(self).wf(),
            final(ser).stream.wf(),
            final(ser).mode == old(ser).mode,
            final(self).storage.banks == old(self).storage.banks,
            !old(ser).has_entries_spec(Ver(1)) ==> r is Ok && *final(self) == *old(self) && *final(ser) == *old(ser),
            old(ser).has_entries_spec(Ver(1)) && old(ser).mode == Mode::Save ==> r is Ok && *final(self) == *old(self)
                && final(ser).stream.data@ == written(old(ser).stream.data@, old(ser).stream.pos as int, res_snapshot(*old(self))),
            old(ser).has_entries_spec(Ver(1)) && old(ser).mode == Mode::Load ==> {
                let s = old(ser).stream;
                let n = old(self).entries().len();
                if s.pos + 2 + n <= s.data@.len() && states_ok(
                    old(self).entries(),
                    s.data@.subrange(s.pos + 2, s.pos + 2 + n),
                ) {
                    &&& r is Ok
                    &&& final(self).entries() == restored(old(self).entries(), s.data@.subrange(s.pos + 2, s.pos + 2 + n))
                    &&& final(self).data == data_for_part(old(self).data, be16(s.data@, s.pos as int) as u16)
                    &&& final(self).mem_buf == old(self).mem_buf
                    &&& final(self).requested_next_part == old(self).requested_next_part
                } else {
                    r is Err && *final(self) == *old(self)
                }
            },
    {
        if !ser.has_entries(Ver(1)) {
            return Ok(());
        }
        let n = self.storage.mem_list.entries.len();
        match ser.mode() {
            Mode::Save => {
                let part = self.data.current_part_id;
                let mut out: Vec<u8> = vec![(part / 256) as u8, (part % 256) as u8];
                let mut k: usize = 0;
                while k < n
                    invariant
                        k <= n,
                        n == self.entries().len(),
                        out@ == res_snapshot(*self).subrange(0, k + 2),
                    decreases n - k,
                {
                    let st = self.storage.mem_list.entries[k].state;
                    let b: u8 = match st {
                        MemEntryState::NotNeeded => 0,
                        MemEntryState::Loaded => 1,
                        MemEntryState::LoadMe => 2,
                        MemEntryState::EndOfMemList => 0xFF,
                    };
                    out.push(b);
                    k = k + 1;
                    assert(out@ =~= res_snapshot(*self).subrange(0, k + 2));
                }
                assert(out@ =~= res_snapshot(*self));
                ser.stream.write(out.as_slice())
            },
            Mode::Load => {
                let ghost s = ser.stream;
                let len = ser.stream.data.len();
                if len - ser.stream.pos < 2 || n > len - ser.stream.pos - 2 {
                    return Err(Error::EndOfData);
                }
                let part = ser.stream.read_u16()?;
                let mut states: Vec<MemEntryState> = Vec::new();
                let mut k: usize = 0;
                while k < n
                    invariant
                        k <= n,
                        n == self.entries().len(),
                        *self == *old(self),
                        self.wf(),
                        ser.mode == old(ser).mode,
                        ser.mode == Mode::Load,
                        ser.save_ver == old(ser).save_ver,
                        old(ser).has_entries_spec(Ver(1)),
                        s == old(ser).stream,
                        ser.stream.wf(),
                        ser.stream.data == s.data,
                        ser.stream.pos == s.pos + 2 + k,
                        s.pos + 2 + n <= s.data@.len(),
                        states@.len() == k,
                        forall|j: int| 0 <= j < k ==> state_of(#[trigger] s.data@[s.pos + 2 + j]) == Ok::<MemEntryState, Error>(states@[j]),
                    decreases n - k,
                {
                    let b = ser.stream.read_u8()?;
                    match MemEntryState::new(b) {
                        Ok(st) => {
                            states.push(st);
                        },
                        Err(e) => {
                            proof {
                                let w = s.data@.subrange(s.pos + 2, s.pos + 2 + n);
                                assert(w[k as int] == s.data@[s.pos + 2 + k]);
                            }
                            return Err(e);
                        },
                    }
                    k = k + 1;
                }
                let ghost es = self.entries();
                let mut k: usize = 0;
                while k < n
                    invariant
                        k <= n,
                        n == es.len(),
                        states@.len() == n,
                        self.entries().len() == n,
                        self.data == old(self).data,
                        self.mem_buf == old(self).mem_buf,
                        self.requested_next_part == old(self).requested_next_part,
                        self.storage.banks == old(self).storage.banks,
                        es == old(self).entries(),
                        self.wf(),
                        ser.mode == old(ser).mode,
                        ser.stream.wf(),
                        forall|j: int| 0 <= j < n ==> #[trigger] self.entries()[j] == if j < k {
                            with_state(es[j], states@[j])
                        } else {
                            es[j]
                        },
                    decreases n - k,
                {
                    self.storage.mem_list.entries[k].state = states[k];
                    k = k + 1;
                }
                let ghost w = s.data@.subrange(s.pos + 2, s.pos + 2 + n);
                assert forall|j: int| 0 <= j < n implies state_of(#[trigger] w[j]) == Ok::<MemEntryState, Error>(states@[j]) by {
                    assert(w[j] == s.data@[s.pos + 2 + j]);
                }
                assert(self.entries() =~= restored(es, w));
                self.data.current_part_id = part;
                if part >= GAME_PART_FIRST && part <= GAME_PART_LAST {
                    let (palette_idx, code_idx, cinematic_idx, _video2) = part_resources((part - GAME_PART_FIRST) as usize);
                    self.data.seg_palette_idx = palette_idx;
                    self.data.seg_code_idx = code_idx;
                    self.data.seg_cinematic_idx = cinematic_idx;
                }
                Ok(())
            },
        }
    }

    /// Takes the banks' and the directory's bytes and loads every resource's bytes.
    pub fn init(&mut self, banks: Vec<Vec<u8>>, directory: &[u8]) -> (r: Result<(), Error>)
        requires
            old(self).wf(),
        ensures
            final(self).wf(),
            final(self).data == old(self).data,
            r is Ok <==> exists|n: nat|
                dir_has(directory@, n) && forall|k: int|
                    0 <= k < n ==> #[trigger] record_loads(banks_view(banks@), directory@, k),
            r is Ok ==> dir_has(directory@, final(self).entries().len()),
            r is Ok ==> forall|k: int|
                0 <= k < final(self).entries().len() ==> #[trigger] stored(
                    final(self).entries()[k],
                    banks_view(banks@),
                    directory@,
                    k,
                ),
    {
        self.storage.load(banks, directory)
    }
}

} // verus!
