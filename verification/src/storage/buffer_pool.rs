//! The buffer pool: a fixed array of frames, a table from page to frame, and
//! a clock replacer that picks the frame to give up on a miss.
//!
//! Bringing a page in takes disk work that the pool does not do itself. A
//! miss is therefore handled in two steps with the disk work between them:
//! `get_frame_for_page` picks and pins the victim and hands out its buffer,
//! the caller writes the old page back if asked to, clears the buffer and
//! reads the new page into it, and `install_page` puts the result in place.

use crate::storage::page::{page_array, valid_image, Page, PageId, PAGE_SIZE};
use crate::storage::replacer::{ClockReplacer, ClockView, FrameState};
use std::collections::HashMap;
use vstd::prelude::*;

verus! {

broadcast use vstd::std_specs::hash::group_hash_axioms;

/// Page id of a frame that has never held a page.
pub const INVALID_PAGE_ID: PageId = 0xFFFF_FFFF;

pub type FrameId = usize;

/// One slot of the pool.
#[derive(Debug)]
pub struct Frame {
    pub page_id: PageId,
    pub data: Vec<u8>,
    pub is_dirty: bool,
}

/// A frame as a mathematical value.
pub struct FrameView {
    pub page_id: PageId,
    pub data: Seq<u8>,
    pub is_dirty: bool,
}

impl View for Frame {
    type V = FrameView;

    open spec fn view(&self) -> FrameView {
        FrameView { page_id: self.page_id, data: self.data@, is_dirty: self.is_dirty }
    }
}

/// The views of a sequence of frames.
pub open spec fn frame_views(frames: Seq<Frame>) -> Seq<FrameView> {
    Seq::new(frames.len(), |f: int| frames[f]@)
}

/// A frame that has never held a page: no page id, a page of zeros, clean.
pub open spec fn empty_frame() -> FrameView {
    FrameView {
        page_id: INVALID_PAGE_ID,
        data: Seq::new(PAGE_SIZE as nat, |k: int| 0u8),
        is_dirty: false,
    }
}

/// The message of the error that a pool gives when every frame is pinned.
pub open spec fn no_free_frame_message() -> Seq<char> {
    "No free frame available"@
}

/// The pool as a mathematical value.
pub struct PoolView {
    pub frames: Seq<FrameView>,
    pub page_table: Map<PageId, usize>,
    pub clock: ClockView,
}

impl PoolView {
    /// What always holds of a pool: the replacer watches exactly the frames,
    /// a frame's buffer is a whole page unless it has been handed out for
    /// loading, and every entry of the page table names a frame that holds
    /// the entry's page.
    pub open spec fn wf(self) -> bool {
        &&& self.clock.wf()
        &&& self.clock.frames.len() == self.frames.len()
        &&& self.page_table.dom().finite()
        &&& forall|f: int|
            0 <= f < self.frames.len() ==> {
                let len = (#[trigger] self.frames[f]).data.len();
                len == PAGE_SIZE || len == 0
            }
        &&& forall|p: PageId| #[trigger]
            self.page_table.contains_key(p) ==> {
                &&& p != INVALID_PAGE_ID
                &&& self.page_table[p] < self.frames.len()
                &&& self.frames[self.page_table[p] as int].page_id == p
            }
    }

    /// Frame `f` holds a page.
    pub open spec fn resident(self, f: int) -> bool {
        0 <= f < self.frames.len() && self.frames[f].page_id != INVALID_PAGE_ID
    }

    /// Every frame that holds a page is the one that the page table gives for
    /// that page. With `wf` this makes table entries and resident frames
    /// correspond one to one, so no page is held twice.
    pub open spec fn consistent(self) -> bool {
        forall|f: int| #[trigger]
            self.resident(f) ==> {
                &&& self.page_table.contains_key(self.frames[f].page_id)
                &&& self.page_table[self.frames[f].page_id] == f
            }
    }

    /// How a request for the frame of `page_id` turns the pool `self` into
    /// `after`. A page in the table is a hit: its frame is pinned. Otherwise
    /// the clock is swept: the victim is pinned and its buffer handed out,
    /// with the order to write it back first if the frame is dirty and holds
    /// a page; or no frame is free and the request fails.
    pub open spec fn requested(
        self,
        page_id: PageId,
        request: Result<FrameRequest, String>,
        after: PoolView,
    ) -> bool {
        let swept = self.clock.sweep(2 * self.frames.len());
        &&& after.page_table == self.page_table
        &&& match request {
            Ok(FrameRequest::Hit(f)) => {
                &&& self.page_table.contains_key(page_id)
                &&& f == self.page_table[page_id]
                &&& after.frames == self.frames
                &&& after.clock == self.clock.pinned(f as int)
            },
            Ok(FrameRequest::Miss(load)) => {
                let held = self.frames[load.frame_id as int];
                &&& !self.page_table.contains_key(page_id)
                &&& self.clock.has_unpinned()
                &&& swept.0 == Some(load.frame_id as nat)
                &&& load.frame_id < self.frames.len()
                &&& !self.clock.frames[load.frame_id as int].is_pinned
                &&& load.page_id == page_id
                &&& load.old_page_id == held.page_id
                &&& load.write_back == (held.is_dirty && held.page_id != INVALID_PAGE_ID)
                &&& load.buffer@ == held.data
                &&& after.frames == self.frames.update(
                    load.frame_id as int,
                    FrameView { data: Seq::empty(), ..held },
                )
                &&& after.clock == swept.1.pinned(load.frame_id as int)
            },
            Err(message) => {
                &&& !self.page_table.contains_key(page_id)
                &&& !self.clock.has_unpinned()
                &&& message@ == no_free_frame_message()
                &&& after.frames == self.frames
                &&& after.clock == swept.1
            },
        }
    }

    /// The pool with the guard on frame `f` released. A write guard leaves
    /// the frame dirty.
    pub open spec fn released(self, f: FrameId, dirty: bool) -> PoolView {
        PoolView {
            frames: if dirty {
                self.frames.update(f as int, FrameView { is_dirty: true, ..self.frames[f as int] })
            } else {
                self.frames
            },
            page_table: self.page_table,
            clock: self.clock.unpinned(f as int),
        }
    }

    /// The pool after frame `f` took `page_id` with `data` as its content:
    /// the frame is clean, the entry of the page it held before is gone, and
    /// the table gives `f` for `page_id`.
    pub open spec fn installed(self, f: FrameId, page_id: PageId, data: Seq<u8>) -> PoolView {
        let old_page = self.frames[f as int].page_id;
        let table = if old_page != INVALID_PAGE_ID {
            self.page_table.remove(old_page)
        } else {
            self.page_table
        };
        PoolView {
            frames: self.frames.update(f as int, FrameView { page_id, data, is_dirty: false }),
            page_table: table.insert(page_id, f),
            clock: self.clock,
        }
    }

    /// Installing a page keeps the pool well formed. It keeps it consistent
    /// too, provided that no other frame holds that page already.
    pub proof fn lemma_installed(self, f: FrameId, page_id: PageId, data: Seq<u8>)
        requires
            self.wf(),
            f < self.frames.len(),
            page_id != INVALID_PAGE_ID,
            data.len() == PAGE_SIZE,
        ensures
            self.installed(f, page_id, data).wf(),
            self.consistent() && (self.page_table.contains_key(page_id)
                ==> self.page_table[page_id] == f) ==> self.installed(
                f,
                page_id,
                data,
            ).consistent(),
    {
        let after = self.installed(f, page_id, data);
        let old_page = self.frames[f as int].page_id;
        assert forall|q: int| 0 <= q < after.frames.len() implies {
            let len = (#[trigger] after.frames[q]).data.len();
            len == PAGE_SIZE || len == 0
        } by {
            let before = self.frames[q];
        }
        assert forall|p: PageId| #[trigger] after.page_table.contains_key(p) implies {
            &&& p != INVALID_PAGE_ID
            &&& after.page_table[p] < after.frames.len()
            &&& after.frames[after.page_table[p] as int].page_id == p
        } by {
            if p != page_id {
                assert(self.page_table.contains_key(p));
            }
        }
        if self.consistent() && (self.page_table.contains_key(page_id) ==> self.page_table[page_id]
            == f) {
            assert forall|q: int| #[trigger] after.resident(q) implies {
                &&& after.page_table.contains_key(after.frames[q].page_id)
                &&& after.page_table[after.frames[q].page_id] == q
            } by {
                if q != f {
                    assert(self.resident(q));
                    if old_page != INVALID_PAGE_ID {
                        assert(self.resident(f as int));
                    }
                }
            }
        }
    }
    /// A change that leaves the page table and every frame's page id alone,
    /// keeps buffers whole or handed out, and keeps the clock in step with
    /// the frames, keeps the pool well formed, and consistent if it was.
    pub proof fn lemma_same_pages(self, after: PoolView)
        requires
            self.wf(),
            after.page_table == self.page_table,
            after.frames.len() == self.frames.len(),
            forall|f: int|
                0 <= f < self.frames.len() ==> (#[trigger] after.frames[f]).page_id
                    == self.frames[f].page_id,
            forall|f: int|
                0 <= f < self.frames.len() ==> {
                    let len = (#[trigger] after.frames[f]).data.len();
                    len == PAGE_SIZE || len == 0
                },
            after.clock.wf(),
            after.clock.frames.len() == self.clock.frames.len(),
        ensures
            after.wf(),
            self.consistent() ==> after.consistent(),
    {
        assert forall|p: PageId| #[trigger] after.page_table.contains_key(p) implies {
            &&& p != INVALID_PAGE_ID
            &&& after.page_table[p] < after.frames.len()
            &&& after.frames[after.page_table[p] as int].page_id == p
        } by {
            assert(self.page_table.contains_key(p));
            let named = after.frames[self.page_table[p] as int];
        }
        if self.consistent() {
            assert forall|q: int| #[trigger] after.resident(q) implies {
                &&& after.page_table.contains_key(after.frames[q].page_id)
                &&& after.page_table[after.frames[q].page_id] == q
            } by {
                let now = after.frames[q];
                assert(self.resident(q));
            }
        }
    }

    /// The pool after a request for the frame of `page_id`, whatever the
    /// request came to.
    pub open spec fn after_request(self, page_id: PageId) -> PoolView {
        let swept = self.clock.sweep(2 * self.frames.len());
        if self.page_table.contains_key(page_id) {
            PoolView { clock: self.clock.pinned(self.page_table[page_id] as int), ..self }
        } else {
            match swept.0 {
                Some(f) => PoolView {
                    frames: self.frames.update(
                        f as int,
                        FrameView { data: Seq::empty(), ..self.frames[f as int] },
                    ),
                    page_table: self.page_table,
                    clock: swept.1.pinned(f as int),
                },
                None => PoolView { clock: swept.1, ..self },
            }
        }
    }

    /// A request turns the pool into `after_request`.
    pub proof fn lemma_requested(
        self,
        page_id: PageId,
        request: Result<FrameRequest, String>,
        after: PoolView,
    )
        requires
            self.wf(),
            self.requested(page_id, request, after),
        ensures
            after == self.after_request(page_id),
    {
        self.clock.lemma_sweep_finds();
    }

    /// Whether a step may be taken: a page is installed in an existing
    /// frame, under a page id, with a whole page of content, and not while
    /// another frame holds that page; a guard is released on an existing
    /// frame.
    pub open spec fn allows(self, op: PoolOp) -> bool {
        match op {
            PoolOp::Request(page_id) => true,
            PoolOp::Install(f, page_id, data) => {
                &&& f < self.frames.len()
                &&& page_id != INVALID_PAGE_ID
                &&& data.len() == PAGE_SIZE
                &&& self.page_table.contains_key(page_id) ==> self.page_table[page_id] == f
            },
            PoolOp::Release(f, dirty) => f < self.frames.len(),
        }
    }

    /// The pool after a step.
    pub open spec fn after(self, op: PoolOp) -> PoolView {
        match op {
            PoolOp::Request(page_id) => self.after_request(page_id),
            PoolOp::Install(f, page_id, data) => self.installed(f, page_id, data),
            PoolOp::Release(f, dirty) => self.released(f, dirty),
        }
    }

    /// The pool after a trace of steps.
    pub open spec fn after_all(self, ops: Seq<PoolOp>) -> PoolView
        decreases ops.len(),
    {
        if ops.len() == 0 {
            self
        } else {
            self.after_all(ops.drop_last()).after(ops.last())
        }
    }

    /// Whether each step of a trace may be taken when its turn comes.
    pub open spec fn allows_all(self, ops: Seq<PoolOp>) -> bool
        decreases ops.len(),
    {
        ops.len() > 0 ==> self.allows_all(ops.drop_last()) && self.after_all(
            ops.drop_last(),
        ).allows(ops.last())
    }

    /// A step keeps the number of frames, keeps the pool well formed, and
    /// keeps it consistent.
    pub proof fn lemma_step(self, op: PoolOp)
        requires
            self.wf(),
            self.allows(op),
        ensures
            self.after(op).wf(),
            self.after(op).frames.len() == self.frames.len(),
            self.consistent() ==> self.after(op).consistent(),
    {
        match op {
            PoolOp::Request(page_id) => {
                self.clock.lemma_sweep_safe(2 * self.frames.len());
                if self.page_table.contains_key(page_id) {
                    assert(self.page_table[page_id] < self.frames.len());
                }
                self.lemma_same_pages(self.after_request(page_id));
            },
            PoolOp::Install(f, page_id, data) => {
                self.lemma_installed(f, page_id, data);
            },
            PoolOp::Release(f, dirty) => {
                self.lemma_same_pages(self.released(f, dirty));
            },
        }
    }

    /// Whatever the trace of requests, installs and releases on a pool that
    /// starts well formed and consistent: the number of frames stays, so no
    /// more pages are resident than there are frames; and the pool stays
    /// well formed and consistent, so every resident frame has its one entry
    /// in the page table.
    pub proof fn lemma_trace(self, ops: Seq<PoolOp>)
        requires
            self.wf(),
            self.consistent(),
            self.allows_all(ops),
        ensures
            self.after_all(ops).wf(),
            self.after_all(ops).consistent(),
            self.after_all(ops).frames.len() == self.frames.len(),
            self.after_all(ops).page_table.dom().len() <= self.frames.len(),
        decreases ops.len(),
    {
        if ops.len() > 0 {
            self.lemma_trace(ops.drop_last());
            self.after_all(ops.drop_last()).lemma_step(ops.last());
        }
        self.after_all(ops).lemma_table_matches_frames();
    }

    /// In a well-formed pool no more pages are in the table than there are
    /// frames, and no two pages share a frame. In a consistent one the
    /// resident frames are exactly the frames that the table names, so each
    /// resident frame has one entry and only one.
    pub proof fn lemma_table_matches_frames(self)
        requires
            self.wf(),
        ensures
            self.page_table.dom().len() <= self.frames.len(),
            forall|p: PageId, q: PageId|
                self.page_table.contains_key(p) && self.page_table.contains_key(q)
                    && self.page_table[p] == self.page_table[q] ==> p == q,
            forall|p: PageId| #[trigger]
                self.page_table.contains_key(p) ==> self.resident(self.page_table[p] as int),
            self.consistent() ==> forall|f: int| #[trigger]
                self.resident(f) ==> self.page_table.contains_key(self.frames[f].page_id)
                    && self.page_table[self.frames[f].page_id] == f,
    {
        let pages = self.page_table.dom();
        let frame_of = |p: PageId| self.page_table[p] as int;
        let named = pages.map(frame_of);
        assert(vstd::relations::injective_on(frame_of, pages)) by {
            assert forall|p: PageId, q: PageId|
                pages.contains(p) && pages.contains(q) && #[trigger] frame_of(p)
                    == #[trigger] frame_of(q) implies p == q by {
                assert(self.page_table.contains_key(p) && self.page_table.contains_key(q));
            }
        }
        vstd::set_lib::lemma_map_size(pages, named, frame_of);
        let all = vstd::set_lib::set_int_range(0, self.frames.len() as int);
        vstd::set_lib::lemma_int_range(0, self.frames.len() as int);
        assert(named.subset_of(all)) by {
            assert forall|f: int| named.contains(f) implies all.contains(f) by {
                let p = choose|p: PageId| pages.contains(p) && f == frame_of(p);
                assert(self.page_table.contains_key(p));
            }
        }
        vstd::set_lib::lemma_len_subset(named, all);
        assert forall|p: PageId, q: PageId|
            self.page_table.contains_key(p) && self.page_table.contains_key(q)
                && self.page_table[p] == self.page_table[q] implies p == q by {}
    }

    /// A miss that is installed before anything else touches the table keeps
    /// the pool well formed and consistent, and leaves the page in the frame
    /// that was picked for it, clean and with the loaded content.
    pub proof fn lemma_miss_then_install(
        self,
        page_id: PageId,
        load: PageLoad,
        picked: PoolView,
        data: Seq<u8>,
    )
        requires
            self.wf(),
            self.consistent(),
            picked.wf(),
            page_id != INVALID_PAGE_ID,
            data.len() == PAGE_SIZE,
            self.requested(page_id, Ok(FrameRequest::Miss(load)), picked),
        ensures
            picked.installed(load.frame_id, page_id, data).wf(),
            picked.installed(load.frame_id, page_id, data).consistent(),
            picked.installed(load.frame_id, page_id, data).page_table[page_id] == load.frame_id,
            picked.installed(load.frame_id, page_id, data).frames[load.frame_id as int] == (
            FrameView { page_id, data, is_dirty: false }),
    {
        assert forall|q: int| #[trigger] picked.resident(q) implies {
            &&& picked.page_table.contains_key(picked.frames[q].page_id)
            &&& picked.page_table[picked.frames[q].page_id] == q
        } by {
            assert(self.resident(q));
        }
        picked.lemma_installed(load.frame_id, page_id, data);
    }
}

/// A step that a caller takes on the pool.
pub enum PoolOp {
    /// Asks for the frame of a page.
    Request(PageId),
    /// Installs a page with its content in a frame.
    Install(FrameId, PageId, Seq<u8>),
    /// Releases the guard on a frame; a write guard if the flag is set.
    Release(FrameId, bool),
}

/// A miss in progress: the frame that was picked and pinned, and what the
/// caller has to do before `install_page`.
#[derive(Debug)]
pub struct PageLoad {
    /// The frame that will hold the page.
    pub frame_id: FrameId,
    /// The page to read.
    pub page_id: PageId,
    /// The page that the frame held, or `INVALID_PAGE_ID`.
    pub old_page_id: PageId,
    /// Whether the buffer must first be written to disk as `old_page_id`.
    pub write_back: bool,
    /// The frame's buffer, handed out for the disk work.
    pub buffer: Vec<u8>,
}

/// What a request for a page's frame came to.
#[derive(Debug)]
pub enum FrameRequest {
    /// The page is in the pool, in this frame, which is now pinned.
    Hit(FrameId),
    /// The page has to be loaded.
    Miss(PageLoad),
}

/// What fetching a page came to: a guard at once, or a load to carry out.
#[derive(Debug)]
pub enum Fetch<G> {
    Ready(G),
    Load(PageLoad),
}

/// The buffer pool.
pub struct BufferPoolManager {
    pool_size: usize,
    frames: Vec<Frame>,
    page_table: HashMap<PageId, FrameId>,
    replacer: ClockReplacer,
}

impl View for BufferPoolManager {
    type V = PoolView;

    closed spec fn view(&self) -> PoolView {
        PoolView {
            frames: frame_views(self.frames@),
            page_table: self.page_table@,
            clock: self.replacer@,
        }
    }
}

impl BufferPoolManager {
    /// The pool is well formed, and its recorded size is its number of frames.
    pub closed spec fn wf(&self) -> bool {
        &&& self@.wf()
        &&& self.pool_size == self.frames@.len()
    }

    /// A well-formed pool has a well-formed view.
    pub proof fn lemma_wf(&self)
        requires
            self.wf(),
        ensures
            self@.wf(),
    {
    }

    /// A pool of `pool_size` empty frames, none pinned, with an empty page
    /// table.
    pub fn new(pool_size: usize) -> (pool: BufferPoolManager)
        ensures
            pool.wf(),
            pool@.consistent(),
            pool@.frames == Seq::new(pool_size as nat, |f: int| empty_frame()),
            pool@.page_table == Map::<PageId, usize>::empty(),
            pool@.clock.hand == 0,
            pool@.clock.frames == Seq::new(
                pool_size as nat,
                |f: int| FrameState { is_pinned: false, ref_bit: false },
            ),
    {
        let mut frames: Vec<Frame> = Vec::new();
        let mut f: usize = 0;
        while f < pool_size
            invariant
                f <= pool_size,
                frames@.len() == f,
                forall|k: int| 0 <= k < f ==> (#[trigger] frames@[k])@ == empty_frame(),
            decreases pool_size - f,
        {
            let data: Vec<u8> = vec![0u8; PAGE_SIZE];
            assert(data@ =~= empty_frame().data);
            frames.push(Frame { page_id: INVALID_PAGE_ID, data, is_dirty: false });
            f = f + 1;
        }
        let pool = BufferPoolManager {
            pool_size,
            frames,
            page_table: HashMap::new(),
            replacer: ClockReplacer::new(pool_size),
        };
        assert(pool@.frames =~= Seq::new(pool_size as nat, |f: int| empty_frame()));
        pool
    }

    /// Number of frames.
    pub fn pool_size(&self) -> (n: usize)
        requires
            self.wf(),
        ensures
            n == self@.frames.len(),
    {
        self.pool_size
    }

    /// Tells whether a frame exists and holds a valid page image.
    pub fn frame_is_valid(&self, frame_id: FrameId) -> (ok: bool)
        ensures
            ok == (frame_id < self@.frames.len() && valid_image(self@.frames[frame_id as int].data)),
    {
        if frame_id >= self.frames.len() {
            return false;
        }
        assert(self.frames@[frame_id as int]@ == self@.frames[frame_id as int]);
        if self.frames[frame_id].data.len() != PAGE_SIZE {
            return false;
        }
        let image = page_array(self.frames[frame_id].data.as_slice());
        Page::is_valid(&image)
    }

    /// The frames, for reading.
    pub fn frames(&self) -> (frames: &Vec<Frame>)
        ensures
            frame_views(frames@) == self@.frames,
    {
        &self.frames
    }

    /// Finds the frame for a page, which must not be `INVALID_PAGE_ID`. On a
    /// hit the frame is pinned and given.
    /// On a miss the replacer's victim is pinned and its buffer is handed out
    /// in a `PageLoad`; the frame keeps its page id and its table entry until
    /// `install_page`. With every frame pinned there is no victim, and the
    /// request fails.
    pub fn get_frame_for_page(&mut self, page_id: PageId) -> (request: Result<
        FrameRequest,
        String,
    >)
        requires
            old(self).wf(),
            page_id != INVALID_PAGE_ID,
        ensures
            final(self).wf(),
            old(self)@.consistent() ==> final(self)@.consistent(),
            old(self)@.requested(page_id, request, final(self)@),
    {
        let ghost before = self@;
        match self.page_table.get(&page_id) {
            Some(frame) => {
                let f: usize = *frame;
                self.replacer.pin(f);
                proof {
                    before.lemma_same_pages(self@);
                }
                return Ok(FrameRequest::Hit(f));
            },
            None => {},
        }
        let found = self.replacer.victim();
        let f: usize = match found {
            Some(f) => f,
            None => {
                proof {
                    before.lemma_same_pages(self@);
                }
                return Err(String::from_str("No free frame available"));
            },
        };
        self.replacer.pin(f);
        let ghost held = self.frames@[f as int]@;
        assert(held == before.frames[f as int]);
        let old_page_id: PageId = self.frames[f].page_id;
        let is_dirty: bool = self.frames[f].is_dirty;
        let mut buffer: Vec<u8> = Vec::new();
        std::mem::swap(&mut buffer, &mut self.frames[f].data);
        proof {
            assert(self@.frames =~= before.frames.update(
                f as int,
                FrameView { data: Seq::empty(), ..held },
            ));
            before.lemma_same_pages(self@);
        }
        Ok(
            FrameRequest::Miss(
                PageLoad {
                    frame_id: f,
                    page_id,
                    old_page_id,
                    write_back: is_dirty && old_page_id != INVALID_PAGE_ID,
                    buffer,
                },
            ),
        )
    }

    /// Puts a loaded page in place: the frame takes the page id and the
    /// buffer and is clean, the entry of the page it held before leaves the
    /// table, and the table gives the frame for the new page. Where another
    /// frame already holds that page, the table now gives this one.
    pub fn install_page(&mut self, frame_id: FrameId, page_id: PageId, buffer: Vec<u8>) -> (f:
        FrameId)
        requires
            old(self).wf(),
            frame_id < old(self)@.frames.len(),
            page_id != INVALID_PAGE_ID,
            buffer@.len() == PAGE_SIZE,
        ensures
            f == frame_id,
            final(self).wf(),
            final(self)@ == old(self)@.installed(frame_id, page_id, buffer@),
            old(self)@.consistent() && (old(self)@.page_table.contains_key(page_id) ==> old(
                self,
            )@.page_table[page_id] == frame_id) ==> final(self)@.consistent(),
    {
        let ghost before = self@;
        proof {
            before.lemma_installed(frame_id, page_id, buffer@);
        }
        let old_page_id: PageId = self.frames[frame_id].page_id;
        if old_page_id != INVALID_PAGE_ID {
            self.page_table.remove(&old_page_id);
        }
        self.frames[frame_id] = Frame { page_id, data: buffer, is_dirty: false };
        self.page_table.insert(page_id, frame_id);
        proof {
            assert(self@.frames =~= before.installed(frame_id, page_id, buffer@).frames);
            assert(self@.page_table =~= before.installed(frame_id, page_id, buffer@).page_table);
        }
        frame_id
    }

    /// Fetches a page for reading: a guard on its frame if the page is in the
    /// pool, else the load to carry out before `finish_fetch`.
    pub fn fetch_page(&mut self, page_id: PageId) -> (fetched: Result<Fetch<PageGuard>, String>)
        requires
            old(self).wf(),
            page_id != INVALID_PAGE_ID,
        ensures
            final(self).wf(),
            old(self)@.consistent() ==> final(self)@.consistent(),
            match fetched {
                Ok(Fetch::Ready(guard)) => old(self)@.requested(
                    page_id,
                    Ok(FrameRequest::Hit(guard.frame())),
                    final(self)@,
                ) && guard.frame() < final(self)@.frames.len(),
                Ok(Fetch::Load(load)) => old(self)@.requested(
                    page_id,
                    Ok(FrameRequest::Miss(load)),
                    final(self)@,
                ),
                Err(message) => old(self)@.requested(page_id, Err(message), final(self)@),
            },
    {
        proof {
            self.lemma_wf();
        }
        match self.get_frame_for_page(page_id) {
            Ok(FrameRequest::Hit(frame_id)) => Ok(Fetch::Ready(PageGuard { frame_id })),
            Ok(FrameRequest::Miss(load)) => Ok(Fetch::Load(load)),
            Err(message) => Err(message),
        }
    }

    /// Fetches a page for writing: as `fetch_page`, with a write guard.
    pub fn fetch_page_mut(&mut self, page_id: PageId) -> (fetched: Result<
        Fetch<PageWriteGuard>,
        String,
    >)
        requires
            old(self).wf(),
            page_id != INVALID_PAGE_ID,
        ensures
            final(self).wf(),
            old(self)@.consistent() ==> final(self)@.consistent(),
            match fetched {
                Ok(Fetch::Ready(guard)) => old(self)@.requested(
                    page_id,
                    Ok(FrameRequest::Hit(guard.frame())),
                    final(self)@,
                ) && guard.frame() < final(self)@.frames.len(),
                Ok(Fetch::Load(load)) => old(self)@.requested(
                    page_id,
                    Ok(FrameRequest::Miss(load)),
                    final(self)@,
                ),
                Err(message) => old(self)@.requested(page_id, Err(message), final(self)@),
            },
    {
        proof {
            self.lemma_wf();
        }
        match self.get_frame_for_page(page_id) {
            Ok(FrameRequest::Hit(frame_id)) => Ok(Fetch::Ready(PageWriteGuard { frame_id })),
            Ok(FrameRequest::Miss(load)) => Ok(Fetch::Load(load)),
            Err(message) => Err(message),
        }
    }

    /// Ends a load that `fetch_page` asked for: installs the page and gives
    /// the guard on its frame.
    pub fn finish_fetch(&mut self, frame_id: FrameId, page_id: PageId, buffer: Vec<u8>) -> (guard:
        PageGuard)
        requires
            old(self).wf(),
            frame_id < old(self)@.frames.len(),
            page_id != INVALID_PAGE_ID,
            buffer@.len() == PAGE_SIZE,
        ensures
            guard.frame() == frame_id,
            final(self).wf(),
            final(self)@ == old(self)@.installed(frame_id, page_id, buffer@),
            old(self)@.consistent() && (old(self)@.page_table.contains_key(page_id) ==> old(
                self,
            )@.page_table[page_id] == frame_id) ==> final(self)@.consistent(),
    {
        let frame_id = self.install_page(frame_id, page_id, buffer);
        PageGuard { frame_id }
    }

    /// Ends a load that `fetch_page_mut` asked for: installs the page and
    /// gives the write guard on its frame.
    pub fn finish_fetch_mut(&mut self, frame_id: FrameId, page_id: PageId, buffer: Vec<u8>) -> (guard:
        PageWriteGuard)
        requires
            old(self).wf(),
            frame_id < old(self)@.frames.len(),
            page_id != INVALID_PAGE_ID,
            buffer@.len() == PAGE_SIZE,
        ensures
            guard.frame() == frame_id,
            final(self).wf(),
            final(self)@ == old(self)@.installed(frame_id, page_id, buffer@),
            old(self)@.consistent() && (old(self)@.page_table.contains_key(page_id) ==> old(
                self,
            )@.page_table[page_id] == frame_id) ==> final(self)@.consistent(),
    {
        let frame_id = self.install_page(frame_id, page_id, buffer);
        PageWriteGuard { frame_id }
    }
}

/// Overwrites a buffer with zeros, so that what a short read leaves
/// untouched is known.
pub fn clear_buffer(buffer: &mut Vec<u8>)
    ensures
        final(buffer)@ == Seq::new(old(buffer)@.len(), |k: int| 0u8),
{
    let len: usize = buffer.len();
    let mut k: usize = 0;
    while k < len
        invariant
            k <= len == buffer@.len(),
            forall|j: int| 0 <= j < k ==> buffer@[j] == 0u8,
        decreases len - k,
    {
        buffer[k] = 0u8;
        k = k + 1;
    }
    assert(buffer@ =~= Seq::new(old(buffer)@.len(), |k: int| 0u8));
}

/// Shared access to a pinned frame. Releasing the guard unpins the frame.
#[derive(Debug)]
pub struct PageGuard {
    frame_id: FrameId,
}

/// Exclusive access to a pinned frame. Releasing the guard marks the frame
/// dirty and unpins it.
#[derive(Debug)]
pub struct PageWriteGuard {
    frame_id: FrameId,
}

impl PageGuard {
    /// The guarded frame.
    pub closed spec fn frame(&self) -> FrameId {
        self.frame_id
    }

    pub fn frame_id(&self) -> (f: usize)
        ensures
            f == self.frame(),
    {
        self.frame_id
    }

    /// The page that the guarded frame holds at the moment.
    pub fn page_id(&self, pool: &BufferPoolManager) -> (page_id: u32)
        requires
            pool.wf(),
            self.frame() < pool@.frames.len(),
        ensures
            page_id == pool@.frames[self.frame() as int].page_id,
    {
        pool.frames[self.frame_id].page_id
    }

    /// The pool's frames, for reading; the guarded one is at `frame_id()`.
    pub fn get<'a>(&self, pool: &'a BufferPoolManager) -> (frames: &'a Vec<Frame>)
        ensures
            frame_views(frames@) == pool@.frames,
    {
        &pool.frames
    }

    /// Gives the frame up: it is unpinned and counts as referenced.
    pub fn release(self, pool: &mut BufferPoolManager)
        requires
            old(pool).wf(),
            self.frame() < old(pool)@.frames.len(),
        ensures
            final(pool).wf(),
            final(pool)@ == old(pool)@.released(self.frame(), false),
            old(pool)@.consistent() ==> final(pool)@.consistent(),
    {
        let ghost before = pool@;
        pool.replacer.unpin(self.frame_id);
        proof {
            before.lemma_same_pages(pool@);
        }
    }
}

impl PageWriteGuard {
    /// The guarded frame.
    pub closed spec fn frame(&self) -> FrameId {
        self.frame_id
    }

    pub fn frame_id(&self) -> (f: usize)
        ensures
            f == self.frame(),
    {
        self.frame_id
    }

    /// The page that the guarded frame holds at the moment.
    pub fn page_id(&self, pool: &BufferPoolManager) -> (page_id: u32)
        requires
            pool.wf(),
            self.frame() < pool@.frames.len(),
        ensures
            page_id == pool@.frames[self.frame() as int].page_id,
    {
        pool.frames[self.frame_id].page_id
    }

    /// The pool's frames, for writing; the guarded one is at `frame_id()`.
    pub fn get_mut<'a>(&'a mut self, pool: &'a mut BufferPoolManager) -> (frames: &'a mut Vec<
        Frame,
    >)
        requires
            old(pool).wf(),
        ensures
            final(self).frame() == old(self).frame(),
            frame_views(frames@) == old(pool)@.frames,
            final(pool)@ == (PoolView { frames: frame_views(final(frames)@), ..old(pool)@ }),
            final(frames)@.len() == frames@.len() && final(pool)@.wf() ==> final(pool).wf(),
    {
        &mut pool.frames
    }

    /// Gives the frame up: it is marked dirty, whether or not it was written
    /// to, then unpinned, and counts as referenced.
    pub fn release(self, pool: &mut BufferPoolManager)
        requires
            old(pool).wf(),
            self.frame() < old(pool)@.frames.len(),
        ensures
            final(pool).wf(),
            final(pool)@ == old(pool)@.released(self.frame(), true),
            old(pool)@.consistent() ==> final(pool)@.consistent(),
    {
        let ghost before = pool@;
        pool.frames[self.frame_id].is_dirty = true;
        pool.replacer.unpin(self.frame_id);
        proof {
            assert(pool@.frames =~= before.released(self.frame_id, true).frames);
            before.lemma_same_pages(pool@);
        }
    }
}

} // verus!
