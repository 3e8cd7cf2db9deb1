//! The frame pool with its clock-sweep eviction, and the manager that maps
//! pages onto frames.
use crate::clock::{
    all_pinned, clock_sweep, is_pinned, lemma_sweep_outcome, lemma_total_usage_update,
    next_slot, only_counters_lowered, prev_slot, pinned_have_credit, pinned_run, second_chance, total_usage,
    FrameView,
};
use crate::disk::{PageId, INVALID_PAGE_ID_RAW, PAGE_SIZE};
use vstd::arithmetic::div_mod::{lemma_mod_self_0, lemma_small_mod};
use std::collections::HashMap;
use vstd::prelude::*;
use vstd::relations::injective_on;
use vstd::set_lib::{lemma_int_range, lemma_len_subset, lemma_map_size, set_int_range};

verus! {

broadcast use vstd::std_specs::hash::group_hash_axioms;

/// Index of a frame in its pool.
#[derive(Clone, Copy, Debug, PartialEq, Eq, Hash, Structural)]
pub struct BufferId(usize);

impl View for BufferId {
    type V = int;

    closed spec fn view(&self) -> int {
        self.0 as int
    }
}

impl BufferId {
    pub fn index(&self) -> (r: usize)
        ensures
            r == self@,
    {
        self.0
    }
}

/// The bytes of one page, the page they belong to, and whether they were
/// changed since they were last read from or written to disk.
pub struct Buffer {
    pub page_id: PageId,
    pub page: Vec<u8>,
    pub is_dirty: bool,
}

/// A slot of the pool: a buffer, its replacement counter, and the number of
/// live handles to it.
pub struct Frame {
    usage_count: u64,
    pin_count: u64,
    buffer: Buffer,
}

impl View for Frame {
    type V = FrameView;

    closed spec fn view(&self) -> FrameView {
        FrameView {
            page_id: self.buffer.page_id.0,
            page: self.buffer.page@,
            is_dirty: self.buffer.is_dirty,
            usage_count: self.usage_count,
            pin_count: self.pin_count,
        }
    }
}

impl Frame {
    pub fn usage_count(&self) -> (r: u64)
        ensures
            r == self@.usage_count,
    {
        self.usage_count
    }

    pub fn pin_count(&self) -> (r: u64)
        ensures
            r == self@.pin_count,
    {
        self.pin_count
    }

    pub fn buffer(&self) -> (r: &Buffer)
        ensures
            r.page_id.0 == self@.page_id,
            r.page@ == self@.page,
            r.is_dirty == self@.is_dirty,
    {
        &self.buffer
    }
}

/// The frames of a pool in slot order, and the slot where the next sweep starts.
pub struct PoolView {
    pub frames: Seq<FrameView>,
    pub cursor: int,
}

/// A frame as the pool creates it: no page, zeroed bytes, clean, unused.
pub open spec fn fresh_frame() -> FrameView {
    FrameView {
        page_id: INVALID_PAGE_ID_RAW,
        page: Seq::new(PAGE_SIZE as nat, |i: int| 0u8),
        is_dirty: false,
        usage_count: 0,
        pin_count: 0,
    }
}

/// At least one frame, the cursor on a frame, every buffer one page long,
/// and no pinned frame with an empty counter.
pub open spec fn pool_consistent(v: PoolView) -> bool {
    &&& v.frames.len() >= 1
    &&& 0 <= v.cursor < v.frames.len()
    &&& forall|i: int| 0 <= i < v.frames.len() ==> (#[trigger] v.frames[i]).page.len() == PAGE_SIZE
    &&& pinned_have_credit(v.frames)
}

/// A fixed array of frames and the persisted cursor of the clock sweep.
pub struct BufferPool {
    buffers: Vec<Frame>,
    next_victim_id: BufferId,
}

impl View for BufferPool {
    type V = PoolView;

    closed spec fn view(&self) -> PoolView {
        PoolView {
            frames: self.buffers@.map_values(|f: Frame| f@),
            cursor: self.next_victim_id@,
        }
    }
}

impl BufferPool {
    pub open spec fn wf(&self) -> bool {
        pool_consistent(self@)
    }

    /// A pool of `pool_size` fresh frames, with the cursor on slot zero.
    pub fn new(pool_size: usize) -> (r: BufferPool)
        requires
            pool_size >= 1,
        ensures
            r.wf(),
            r@.frames.len() == pool_size,
            r@.cursor == 0,
            forall|i: int| 0 <= i < pool_size ==> #[trigger] r@.frames[i] == fresh_frame(),
    {
        let mut buffers: Vec<Frame> = Vec::new();
        while buffers.len() < pool_size
            invariant
                buffers.len() <= pool_size,
                forall|i: int| 0 <= i < buffers.len() ==> (#[trigger] buffers@[i])@ == fresh_frame(),
            decreases pool_size - buffers.len(),
        {
            let page: Vec<u8> = vec![0u8; PAGE_SIZE];
            let frame = Frame {
                usage_count: 0,
                pin_count: 0,
                buffer: Buffer { page_id: PageId::invalid(), page, is_dirty: false },
            };
            assert(frame@.page =~= fresh_frame().page);
            buffers.push(frame);
        }
        let r = BufferPool { buffers, next_victim_id: BufferId(0) };
        assert forall|i: int| 0 <= i < pool_size implies #[trigger] r@.frames[i] == fresh_frame() by {
            assert(r.buffers@[i]@ == fresh_frame());
        }
        r
    }

    pub fn size(&self) -> (r: usize)
        ensures
            r == self@.frames.len(),
    {
        self.buffers.len()
    }

    /// The frame in slot `id`.
    pub fn frame(&self, id: BufferId) -> (r: &Frame)
        requires
            id@ < self@.frames.len(),
        ensures
            r@ == self@.frames[id@],
    {
        &self.buffers[id.0]
    }

    /// The slot after `buffer_id`, wrapping to slot zero after the last one.
    pub fn increment_id(&self, buffer_id: BufferId) -> (r: BufferId)
        requires
            0 <= buffer_id@ < self@.frames.len(),
        ensures
            r@ == next_slot(buffer_id@, self@.frames.len() as int),
    {
        let n = self.buffers.len();
        let next = buffer_id.0 + 1;
        proof {
            if next < n {
                lemma_small_mod(next as nat, n as nat);
            } else {
                lemma_mod_self_0(n as int);
            }
        }
        BufferId(next % n)
    }

    /// Chooses the frame to reuse by one clock sweep from the cursor, or
    /// finds that every frame is pinned.
    pub fn evict(&mut self) -> (r: Option<BufferId>)
        requires
            old(self).wf(),
        ensures
            final(self).wf(),
            ({
                let o = clock_sweep(old(self)@.frames, old(self)@.cursor, 0);
                &&& final(self)@.frames == o.frames
                &&& final(self)@.cursor == o.cursor
                &&& (r is None <==> o.victim is None)
                &&& (r matches Some(b) ==> o.victim == Some(b@))
            }),
            only_counters_lowered(old(self)@.frames, final(self)@.frames),
            r is None <==> all_pinned(old(self)@.frames),
            r is None ==> final(self)@.frames == old(self)@.frames,
            r matches Some(b) ==> {
                &&& b@ == final(self)@.cursor
                &&& final(self)@.frames[b@].usage_count == 0
                &&& !is_pinned(final(self)@.frames[b@])
            },
    {
        let pool_size = self.size();
        let mut consecutive_pinned: usize = 0;
        let ghost start = self@;
        let ghost goal = clock_sweep(start.frames, start.cursor, 0);
        proof {
            lemma_sweep_outcome(start.frames, start.cursor, 0);
        }
        loop
            invariant
                start == old(self)@,
                goal == clock_sweep(start.frames, start.cursor, 0),
                goal.victim is None <==> all_pinned(start.frames),
                goal.victim is None ==> goal.frames == start.frames,
                goal.victim is Some ==> {
                    &&& goal.victim == Some(goal.cursor)
                    &&& goal.frames[goal.cursor].usage_count == 0
                    &&& !is_pinned(goal.frames[goal.cursor])
                },
                only_counters_lowered(start.frames, goal.frames),
                pool_consistent(PoolView { frames: goal.frames, cursor: goal.cursor }),
                pool_consistent(self@),
                self@.frames.len() == pool_size,
                consecutive_pinned < pool_size,
                pinned_run(self@.frames, self@.cursor, consecutive_pinned as nat),
                only_counters_lowered(start.frames, self@.frames),
                ({
                    let o = clock_sweep(self@.frames, self@.cursor, consecutive_pinned as nat);
                    &&& o.frames == goal.frames
                    &&& o.cursor == goal.cursor
                    &&& o.victim == goal.victim
                }),
            decreases total_usage(self@.frames), pool_size - consecutive_pinned,
        {
            let id = self.next_victim_id;
            let ghost before = self@;
            assert(self.buffers@[id@]@ == before.frames[id@]);
            if self.buffers[id.0].usage_count == 0 {
                return Some(id);
            }
            if self.buffers[id.0].pin_count == 0 {
                proof {
                    lemma_total_usage_update(before.frames, id@, second_chance(before.frames[id@]));
                }
                let lowered = self.buffers[id.0].usage_count - 1;
                self.buffers[id.0].usage_count = lowered;
                consecutive_pinned = 0;
                assert(self@.frames =~= before.frames.update(id@, second_chance(before.frames[id@])));
            } else {
                consecutive_pinned += 1;
                if consecutive_pinned >= pool_size {
                    return None;
                }
            }
            self.next_victim_id = self.increment_id(self.next_victim_id);
            proof {
                assert forall|k: int| 1 <= k <= consecutive_pinned implies #[trigger] is_pinned(
                    self@.frames[prev_slot(self@.cursor, k, pool_size as int)],
                ) by {
                    if k >= 2 {
                        assert(prev_slot(self@.cursor, k, pool_size as int)
                            == prev_slot(before.cursor, k - 1, pool_size as int));
                    }
                }
            }
        }
    }
}

/// std's I/O error, handed through from the disk layer unchanged.
#[verifier::external_type_specification]
#[verifier::external_body]
pub struct ExIoError(std::io::Error);

/// Why a page could not be handed out.
pub enum Error {
    /// The disk layer failed while writing back or reading in.
    Io(std::io::Error),
    /// Every frame is pinned, so no page can be loaded now.
    NoFreeBuffer,
}

/// The frames of the pool, the sweep cursor, and the lookup table from page
/// to frame.
pub struct ManagerView {
    pub frames: Seq<FrameView>,
    pub cursor: int,
    pub table: Map<u64, usize>,
}

/// Each entry of the table names a frame that holds its page, and each frame
/// that holds a real page has the one entry that names it.
pub open spec fn table_matches(frames: Seq<FrameView>, table: Map<u64, usize>) -> bool {
    &&& forall|p: u64| #[trigger]
        table.contains_key(p) ==> table[p] < frames.len() && frames[table[p] as int].page_id == p
    &&& forall|b: int|
        0 <= b < frames.len() && (#[trigger] frames[b]).page_id != INVALID_PAGE_ID_RAW
            ==> table.contains_key(frames[b].page_id) && table[frames[b].page_id] == b
}

pub open spec fn manager_consistent(v: ManagerView) -> bool {
    &&& v.table.dom().finite()
    &&& pool_consistent(PoolView { frames: v.frames, cursor: v.cursor })
    &&& table_matches(v.frames, v.table)
}

/// The load that a miss on `page_id` starts: the victim that the sweep
/// picks, and the bytes to write back first if the victim is dirty; none when
/// every frame is pinned.
pub open spec fn planned_load(v: ManagerView, page_id: u64) -> Option<LoadView> {
    let o = clock_sweep(v.frames, v.cursor, 0);
    match o.victim {
        Some(b) => Some(
            LoadView {
                buffer: b,
                page_id,
                evicted_page_id: o.frames[b].page_id,
                write_back: if o.frames[b].is_dirty {
                    Some(o.frames[b].page)
                } else {
                    None
                },
            },
        ),
        None => None,
    }
}

/// A hit: the counter gains one unit unless it is at its limit, and one
/// more handle is alive.
pub open spec fn touched(f: FrameView) -> FrameView {
    FrameView {
        usage_count: if f.usage_count == u64::MAX {
            u64::MAX
        } else {
            (f.usage_count + 1) as u64
        },
        pin_count: (f.pin_count + 1) as u64,
        ..f
    }
}

/// A frame just filled with `page` for `page_id`: clean, with one unit of
/// credit, and the one handle that the load hands out.
pub open spec fn loaded(page_id: u64, page: Seq<u8>) -> FrameView {
    FrameView { page_id, page, is_dirty: false, usage_count: 1, pin_count: 1 }
}

/// A live claim on the page in one frame; while it exists the frame is not
/// evicted. It is given back with `BufferPoolManager::release`.
pub struct PageHandle {
    buffer_id: BufferId,
    page_id: PageId,
}

pub struct HandleView {
    pub buffer: int,
    pub page_id: u64,
}

impl View for PageHandle {
    type V = HandleView;

    closed spec fn view(&self) -> HandleView {
        HandleView { buffer: self.buffer_id@, page_id: self.page_id.0 }
    }
}

impl PageHandle {
    pub fn buffer_id(&self) -> (r: BufferId)
        ensures
            r@ == self@.buffer,
    {
        self.buffer_id
    }

    pub fn page_id(&self) -> (r: PageId)
        ensures
            r.0 == self@.page_id,
    {
        self.page_id
    }
}

/// A miss in progress: the victim frame, the page asked for, the page that
/// the victim holds, and that page's bytes while they still have to be
/// written back.
pub struct Load {
    buffer_id: BufferId,
    page_id: PageId,
    evicted_page_id: PageId,
    write_back: Option<Vec<u8>>,
}

pub struct LoadView {
    pub buffer: int,
    pub page_id: u64,
    pub evicted_page_id: u64,
    pub write_back: Option<Seq<u8>>,
}

impl View for Load {
    type V = LoadView;

    closed spec fn view(&self) -> LoadView {
        LoadView {
            buffer: self.buffer_id@,
            page_id: self.page_id.0,
            evicted_page_id: self.evicted_page_id.0,
            write_back: match self.write_back {
                Some(v) => Some(v@),
                None => None,
            },
        }
    }
}

impl Load {
    pub fn buffer_id(&self) -> (r: BufferId)
        ensures
            r@ == self@.buffer,
    {
        self.buffer_id
    }

    pub fn page_id(&self) -> (r: PageId)
        ensures
            r.0 == self@.page_id,
    {
        self.page_id
    }

    pub fn evicted_page_id(&self) -> (r: PageId)
        ensures
            r.0 == self@.evicted_page_id,
    {
        self.evicted_page_id
    }

    /// The bytes to write at `evicted_page_id` before the new page is read.
    pub fn write_back(&self) -> (r: Option<&Vec<u8>>)
        ensures
            r is None <==> self@.write_back is None,
            r matches Some(v) ==> self@.write_back == Some(v@),
    {
        match &self.write_back {
            Some(v) => Some(v),
            None => None,
        }
    }
}

/// What a fetch needs next: nothing, on a hit; on a miss, the disk work of
/// the load.
pub enum Fetch {
    Hit(PageHandle),
    Miss(Load),
}

/// `load` still describes the pool: its victim is unpinned and holds the
/// evicted page, the page asked for is not resident, and the bytes to write
/// back are the victim's, present exactly while the victim is dirty.
pub open spec fn load_current(v: ManagerView, l: LoadView) -> bool {
    &&& 0 <= l.buffer < v.frames.len()
    &&& v.frames[l.buffer].page_id == l.evicted_page_id
    &&& !is_pinned(v.frames[l.buffer])
    &&& !v.table.contains_key(l.page_id)
    &&& match l.write_back {
        Some(w) => v.frames[l.buffer].is_dirty && v.frames[l.buffer].page == w,
        None => !v.frames[l.buffer].is_dirty,
    }
}

/// `h` is alive on this pool: its frame is pinned and holds its page.
pub open spec fn handle_live(v: ManagerView, h: HandleView) -> bool {
    &&& 0 <= h.buffer < v.frames.len()
    &&& is_pinned(v.frames[h.buffer])
    &&& v.frames[h.buffer].page_id == h.page_id
}

/// A resident page's frame can take one more handle.
pub open spec fn has_pin_room(v: ManagerView, page_id: u64) -> bool {
    v.table.contains_key(page_id) ==> v.frames[v.table[page_id] as int].pin_count < u64::MAX
}

/// Maps pages onto the frames of a pool; the one way to reach a page's bytes.
pub struct BufferPoolManager {
    pool: BufferPool,
    page_table: HashMap<u64, usize>,
}

impl View for BufferPoolManager {
    type V = ManagerView;

    closed spec fn view(&self) -> ManagerView {
        ManagerView { frames: self.pool@.frames, cursor: self.pool@.cursor, table: self.page_table@ }
    }
}

/// `page` with the bytes from `offset` on replaced by `data`.
pub open spec fn spliced(page: Seq<u8>, offset: int, data: Seq<u8>) -> Seq<u8> {
    page.subrange(0, offset) + data + page.subrange(offset + data.len(), page.len() as int)
}

fn same_bytes(a: &Vec<u8>, b: &Vec<u8>) -> (r: bool)
    ensures
        r == (a@ == b@),
{
    if a.len() != b.len() {
        return false;
    }
    let mut i: usize = 0;
    while i < a.len()
        invariant
            a.len() == b.len(),
            i <= a.len(),
            forall|j: int| 0 <= j < i ==> a@[j] == b@[j],
        decreases a.len() - i,
    {
        if a[i] != b[i] {
            return false;
        }
        i += 1;
    }
    assert(a@ =~= b@);
    true
}

impl BufferPoolManager {
    pub open spec fn wf(&self) -> bool {
        manager_consistent(self@)
    }

    /// A manager over a pool of `pool_size` fresh frames and an empty table.
    pub fn new(pool_size: usize) -> (r: BufferPoolManager)
        requires
            pool_size >= 1,
        ensures
            r.wf(),
            r@.frames.len() == pool_size,
            r@.cursor == 0,
            r@.table == Map::<u64, usize>::empty(),
            forall|i: int| 0 <= i < pool_size ==> #[trigger] r@.frames[i] == fresh_frame(),
    {
        let pool = BufferPool::new(pool_size);
        let page_table: HashMap<u64, usize> = HashMap::new();
        BufferPoolManager { pool, page_table }
    }

    pub fn capacity(&self) -> (r: usize)
        ensures
            r == self@.frames.len(),
    {
        self.pool.size()
    }

    /// The frame that holds `page_id`, if the page is resident.
    pub fn lookup(&self, page_id: PageId) -> (r: Option<BufferId>)
        requires
            self.wf(),
        ensures
            r is None <==> !self@.table.contains_key(page_id.0),
            r matches Some(b) ==> b@ == self@.table[page_id.0],
    {
        match self.page_table.get(&page_id.0) {
            Some(b) => Some(BufferId(*b)),
            None => None,
        }
    }

    /// The number of entries in the lookup table.
    pub fn resident_count(&self) -> (r: usize)
        ensures
            r == self@.table.len(),
    {
        self.page_table.len()
    }

    /// The frame in slot `id`.
    pub fn frame(&self, id: BufferId) -> (r: &Frame)
        requires
            id@ < self@.frames.len(),
        ensures
            r@ == self@.frames[id@],
    {
        self.pool.frame(id)
    }

    /// Whether the frame that holds `page_id`, if any, can take one more handle.
    pub fn can_pin(&self, page_id: PageId) -> (r: bool)
        requires
            self.wf(),
        ensures
            r == has_pin_room(self@, page_id.0),
    {
        match self.page_table.get(&page_id.0) {
            Some(b) => self.pool.buffers[*b].pin_count < u64::MAX,
            None => true,
        }
    }

    /// Whether `h` is alive on this pool.
    pub fn holds(&self, h: &PageHandle) -> (r: bool)
        ensures
            r == handle_live(self@, h@),
    {
        let b = h.buffer_id.0;
        b < self.pool.buffers.len() && self.pool.buffers[b].pin_count > 0
            && self.pool.buffers[b].buffer.page_id.0 == h.page_id.0
    }

    /// Whether `load` still describes this pool.
    pub fn load_is_current(&self, load: &Load) -> (r: bool)
        ensures
            r == load_current(self@, load@),
    {
        let b = load.buffer_id.0;
        if b >= self.pool.buffers.len() {
            return false;
        }
        let frame = &self.pool.buffers[b];
        if frame.buffer.page_id.0 != load.evicted_page_id.0 || frame.pin_count > 0 {
            return false;
        }
        if self.page_table.contains_key(&load.page_id.0) {
            return false;
        }
        match &load.write_back {
            Some(w) => frame.buffer.is_dirty && same_bytes(&frame.buffer.page, w),
            None => !frame.buffer.is_dirty,
        }
    }
}

impl BufferPoolManager {
    /// Asks for `page_id`. On a hit the frame's counter is raised and a
    /// handle comes back at once. On a miss the sweep picks a victim and the
    /// load that follows is described; the frames keep their pages until
    /// `complete_load`. When every frame is pinned the answer is
    /// `NoFreeBuffer`.
    pub fn fetch_page(&mut self, page_id: PageId) -> (r: Result<Fetch, Error>)
        requires
            old(self).wf(),
            has_pin_room(old(self)@, page_id.0),
        ensures
            final(self).wf(),
            final(self)@.table == old(self)@.table,
            old(self)@.table.contains_key(page_id.0) ==> {
                let b = old(self)@.table[page_id.0] as int;
                &&& r matches Ok(Fetch::Hit(h)) && h@ == (HandleView { buffer: b, page_id: page_id.0 })
                &&& final(self)@.frames == old(self)@.frames.update(b, touched(old(self)@.frames[b]))
                &&& final(self)@.cursor == old(self)@.cursor
            },
            !old(self)@.table.contains_key(page_id.0) ==> {
                let o = clock_sweep(old(self)@.frames, old(self)@.cursor, 0);
                &&& final(self)@.frames == o.frames
                &&& final(self)@.cursor == o.cursor
                &&& (planned_load(old(self)@, page_id.0) is None <==> r matches Err(
                    Error::NoFreeBuffer,
                ))
                &&& (planned_load(old(self)@, page_id.0) is None <==> all_pinned(old(self)@.frames))
                &&& (planned_load(old(self)@, page_id.0) matches Some(l) ==> r matches Ok(
                    Fetch::Miss(m),
                ) && m@ == l)
            },
            old(self)@.table.contains_key(page_id.0) && old(self)@.frames[old(self)@.table[page_id.0] as int].usage_count < u64::MAX
                ==> final(self)@.frames[old(self)@.table[page_id.0] as int].usage_count
                > old(self)@.frames[old(self)@.table[page_id.0] as int].usage_count,
            r is Err ==> r matches Err(Error::NoFreeBuffer),
            r matches Ok(Fetch::Miss(l)) ==> load_current(final(self)@, l@),
    {
        let ghost start = self@;
        match self.page_table.get(&page_id.0) {
            Some(b) => {
                let b = *b;
                let usage = self.pool.buffers[b].usage_count;
                let pins = self.pool.buffers[b].pin_count;
                self.pool.buffers[b].usage_count = if usage == u64::MAX {
                    usage
                } else {
                    usage + 1
                };
                self.pool.buffers[b].pin_count = pins + 1;
                assert(self@.frames =~= start.frames.update(b as int, touched(start.frames[b as int])));
                return Ok(Fetch::Hit(PageHandle { buffer_id: BufferId(b), page_id }));
            },
            None => {},
        }
        match self.pool.evict() {
            None => Err(Error::NoFreeBuffer),
            Some(victim) => {
                let frame = &self.pool.buffers[victim.0];
                let ghost fv = self@.frames[victim@];
                assert(frame@ == fv);
                let write_back = if frame.buffer.is_dirty {
                    let bytes = frame.buffer.page.clone();
                    assert(bytes@ =~= fv.page);
                    Some(bytes)
                } else {
                    None
                };
                Ok(
                    Fetch::Miss(
                        Load {
                            buffer_id: victim,
                            page_id,
                            evicted_page_id: frame.buffer.page_id,
                            write_back,
                        },
                    ),
                )
            },
        }
    }
}

/// A miss on a pool that is still as `new` made it reuses the frame under the
/// cursor and has nothing to write back: the read of the page is the only
/// disk work.
pub proof fn lemma_miss_on_fresh_pool(v: ManagerView, page_id: u64)
    requires
        manager_consistent(v),
        forall|i: int| 0 <= i < v.frames.len() ==> #[trigger] v.frames[i] == fresh_frame(),
    ensures
        planned_load(v, page_id) == Some(
            LoadView {
                buffer: v.cursor,
                page_id,
                evicted_page_id: INVALID_PAGE_ID_RAW,
                write_back: None,
            },
        ),
{
    assert(v.frames[v.cursor] == fresh_frame());
}

/// A miss whose victim is dirty starts with a write of the victim's page
/// under its old identifier and with its old bytes; the read of the new page
/// (`complete_load`) is only open to a load whose write-back is done.
pub proof fn lemma_dirty_victim_written_first(v: ManagerView, page_id: u64)
    requires
        manager_consistent(v),
        planned_load(v, page_id) is Some,
    ensures
        ({
            let l = planned_load(v, page_id)->Some_0;
            let victim = v.frames[l.buffer];
            &&& victim.is_dirty ==> l.write_back == Some(victim.page)
            &&& !victim.is_dirty ==> l.write_back is None
            &&& l.evicted_page_id == victim.page_id
        }),
{
    lemma_sweep_outcome(v.frames, v.cursor, 0);
    let o = clock_sweep(v.frames, v.cursor, 0);
    let b = o.victim->Some_0;
    assert(o.frames[b] == (FrameView { usage_count: o.frames[b].usage_count, ..v.frames[b] }));
}

/// The lookup table never has more entries than the pool has frames, and
/// each entry names a frame that holds its page.
pub proof fn lemma_table_bounded(v: ManagerView)
    requires
        manager_consistent(v),
    ensures
        v.table.len() <= v.frames.len(),
        forall|p: u64| #[trigger]
            v.table.contains_key(p) ==> v.frames[v.table[p] as int].page_id == p,
{
    let dom = v.table.dom();
    let f = |p: u64| v.table[p] as int;
    let image = dom.map(f);
    assert(injective_on(f, dom)) by {
        assert forall|a: u64, b: u64| dom.contains(a) && dom.contains(b) && #[trigger] f(a) == #[trigger] f(
            b,
        ) implies a == b by {
            assert(v.frames[v.table[a] as int].page_id == a);
            assert(v.frames[v.table[b] as int].page_id == b);
        }
    }
    lemma_map_size(dom, image, f);
    lemma_int_range(0, v.frames.len() as int);
    assert(image.subset_of(set_int_range(0, v.frames.len() as int))) by {
        assert forall|i: int| image.contains(i) implies set_int_range(0, v.frames.len() as int).contains(i) by {
            let p = choose|p: u64| dom.contains(p) && f(p) == i;
        }
    }
    lemma_len_subset(image, set_int_range(0, v.frames.len() as int));
}

impl BufferPoolManager {
    /// Takes the outcome of writing a dirty victim back to disk. After a
    /// failure nothing has changed and the error is handed on; after a
    /// success the victim is clean and the load goes on to the read.
    pub fn write_back_done(&mut self, load: Load, outcome: Result<(), std::io::Error>) -> (r:
        Result<Load, Error>)
        requires
            old(self).wf(),
            load_current(old(self)@, load@),
            load@.write_back is Some,
        ensures
            final(self).wf(),
            outcome matches Err(e) ==> r matches Err(Error::Io(e2)) && e2 == e && final(self)@
                == old(self)@,
            outcome is Ok ==> {
                &&& r matches Ok(l) && l@ == (LoadView { write_back: None, ..load@ })
                &&& final(self)@.frames == old(self)@.frames.update(
                    load@.buffer,
                    FrameView { is_dirty: false, ..old(self)@.frames[load@.buffer] },
                )
                &&& final(self)@.table == old(self)@.table
                &&& final(self)@.cursor == old(self)@.cursor
            },
            r matches Ok(l) ==> load_current(final(self)@, l@),
    {
        match outcome {
            Err(e) => Err(Error::Io(e)),
            Ok(()) => {
                let ghost start = self@;
                let b = load.buffer_id.0;
                self.pool.buffers[b].buffer.is_dirty = false;
                assert(self@.frames =~= start.frames.update(
                    b as int,
                    FrameView { is_dirty: false, ..start.frames[b as int] },
                ));
                Ok(
                    Load {
                        buffer_id: load.buffer_id,
                        page_id: load.page_id,
                        evicted_page_id: load.evicted_page_id,
                        write_back: None,
                    },
                )
            },
        }
    }

    /// Takes the outcome of reading the page asked for. After a failure
    /// nothing has changed and the error is handed on; after a success the
    /// victim holds the new page, clean, with one unit of credit and the
    /// handle that comes back, and the table names it in place of the
    /// evicted page.
    pub fn complete_load(&mut self, load: Load, outcome: Result<Vec<u8>, std::io::Error>) -> (r:
        Result<PageHandle, Error>)
        requires
            old(self).wf(),
            load_current(old(self)@, load@),
            load@.write_back is None,
            outcome matches Ok(d) ==> d@.len() == PAGE_SIZE,
        ensures
            final(self).wf(),
            outcome matches Err(e) ==> r matches Err(Error::Io(e2)) && e2 == e && final(self)@
                == old(self)@,
            outcome matches Ok(d) ==> {
                &&& r matches Ok(h) && h@ == (HandleView {
                    buffer: load@.buffer,
                    page_id: load@.page_id,
                })
                &&& final(self)@.frames == old(self)@.frames.update(
                    load@.buffer,
                    loaded(load@.page_id, d@),
                )
                &&& final(self)@.table == old(self)@.table.remove(load@.evicted_page_id).insert(
                    load@.page_id,
                    load@.buffer as usize,
                )
                &&& final(self)@.cursor == old(self)@.cursor
            },
    {
        match outcome {
            Err(e) => Err(Error::Io(e)),
            Ok(data) => {
                let ghost start = self@;
                let ghost bytes = data@;
                let b = load.buffer_id.0;
                self.pool.buffers[b] = Frame {
                    usage_count: 1,
                    pin_count: 1,
                    buffer: Buffer { page_id: load.page_id, page: data, is_dirty: false },
                };
                self.page_table.remove(&load.evicted_page_id.0);
                self.page_table.insert(load.page_id.0, b);
                let ghost v = self@;
                assert(v.frames =~= start.frames.update(b as int, loaded(load@.page_id, bytes)));
                assert forall|q: int|
                    0 <= q < v.frames.len() && (#[trigger] v.frames[q]).page_id
                        != INVALID_PAGE_ID_RAW implies v.table.contains_key(v.frames[q].page_id)
                    && v.table[v.frames[q].page_id] == q by {
                    if q != b {
                        assert(start.frames[q] == v.frames[q]);
                    }
                }
                Ok(PageHandle { buffer_id: load.buffer_id, page_id: load.page_id })
            },
        }
    }

    /// Gives back a handle; when no handle to a frame is left, the frame
    /// may be evicted again.
    pub fn release(&mut self, h: PageHandle)
        requires
            old(self).wf(),
            handle_live(old(self)@, h@),
        ensures
            final(self).wf(),
            final(self)@.frames == old(self)@.frames.update(
                h@.buffer,
                FrameView {
                    pin_count: (old(self)@.frames[h@.buffer].pin_count - 1) as u64,
                    ..old(self)@.frames[h@.buffer]
                },
            ),
            final(self)@.table == old(self)@.table,
            final(self)@.cursor == old(self)@.cursor,
    {
        let ghost start = self@;
        let b = h.buffer_id.0;
        let pins = self.pool.buffers[b].pin_count;
        self.pool.buffers[b].pin_count = pins - 1;
        assert(self@.frames =~= start.frames.update(
            b as int,
            FrameView { pin_count: (pins - 1) as u64, ..start.frames[b as int] },
        ));
    }

    /// Records that the bytes behind `h` were changed and must reach disk
    /// before the frame is reused.
    pub fn mark_dirty(&mut self, h: &PageHandle)
        requires
            old(self).wf(),
            handle_live(old(self)@, h@),
        ensures
            final(self).wf(),
            final(self)@.frames == old(self)@.frames.update(
                h@.buffer,
                FrameView { is_dirty: true, ..old(self)@.frames[h@.buffer] },
            ),
            final(self)@.table == old(self)@.table,
            final(self)@.cursor == old(self)@.cursor,
    {
        let ghost start = self@;
        let b = h.buffer_id.0;
        self.pool.buffers[b].buffer.is_dirty = true;
        assert(self@.frames =~= start.frames.update(
            b as int,
            FrameView { is_dirty: true, ..start.frames[b as int] },
        ));
    }

    /// The bytes of the page behind `h`.
    pub fn page(&self, h: &PageHandle) -> (r: &[u8])
        requires
            handle_live(self@, h@),
        ensures
            r@ == self@.frames[h@.buffer].page,
    {
        self.pool.buffers[h.buffer_id.0].buffer.page.as_slice()
    }

    /// Copies `data` into the page behind `h` from `offset` on. The frame is
    /// not marked dirty: that is the holder's call.
    pub fn write_bytes(&mut self, h: &PageHandle, offset: usize, data: &[u8])
        requires
            old(self).wf(),
            handle_live(old(self)@, h@),
            offset + data@.len() <= PAGE_SIZE,
        ensures
            final(self).wf(),
            final(self)@.frames == old(self)@.frames.update(
                h@.buffer,
                FrameView {
                    page: spliced(old(self)@.frames[h@.buffer].page, offset as int, data@),
                    ..old(self)@.frames[h@.buffer]
                },
            ),
            final(self)@.table == old(self)@.table,
            final(self)@.cursor == old(self)@.cursor,
    {
        let ghost start = self@;
        let b = h.buffer_id.0;
        let ghost old_page = start.frames[b as int].page;
        let mut i: usize = 0;
        while i < data.len()
            invariant
                b < self.pool.buffers@.len(),
                self.pool.buffers@.len() == start.frames.len(),
                i <= data@.len(),
                offset + data@.len() <= PAGE_SIZE,
                old_page.len() == PAGE_SIZE,
                forall|j: int|
                    0 <= j < start.frames.len() && j != b ==> #[trigger] self@.frames[j]
                        == start.frames[j],
                self@.frames[b as int] == (FrameView { page: self@.frames[b as int].page, ..start.frames[b as int] }),
                self@.frames[b as int].page.len() == PAGE_SIZE,
                forall|j: int|
                    0 <= j < PAGE_SIZE ==> #[trigger] self@.frames[b as int].page[j] == if offset
                        <= j < offset + i {
                        data@[j - offset]
                    } else {
                        old_page[j]
                    },
                self@.table == start.table,
                self@.cursor == start.cursor,
            decreases data@.len() - i,
        {
            let ghost before = self@;
            self.pool.buffers[b].buffer.page.set(offset + i, data[i]);
            assert(self@.frames =~= before.frames.update(
                b as int,
                FrameView { page: before.frames[b as int].page.update(offset + i, data@[i as int]), ..before.frames[b as int] },
            ));
            i += 1;
        }
        let ghost want = spliced(old_page, offset as int, data@);
        assert(self@.frames[b as int].page =~= want);
        assert(self@.frames =~= start.frames.update(
            b as int,
            FrameView { page: want, ..start.frames[b as int] },
        ));
    }
}

} // verus!
