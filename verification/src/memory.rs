//! The address-translation layer: physical frames, virtual pages, frame
//! allocation from the boot-reported memory map, and the four-level
//! page-table hierarchy with its walk and insert operations.
//!
//! Physical memory is mirrored into virtual memory at a fixed offset the
//! boot loader establishes; the translation layer is handed that offset
//! and the top-level table's frame (read from the control register by the
//! surrounding program) and from then on works purely on plain values.

use vstd::prelude::*;

verus! {

/// Size of one physical frame and one virtual page, in bytes.
pub const FRAME_SIZE: u64 = 4096;

/// A frame-sized, frame-aligned unit of physical memory.
#[derive(Clone, Copy, PartialEq, Eq, Structural, Debug)]
pub struct PhysFrame {
    /// Physical address of the frame's first byte; a multiple of the
    /// frame size.
    pub start_address: u64,
}

impl PhysFrame {
    /// The frame is aligned to the frame size.
    pub open spec fn wf(self) -> bool {
        self.start_address % 4096 == 0
    }

    /// The frame containing a physical address: the address rounded down
    /// to the frame size.
    pub fn containing_address(address: u64) -> (r: PhysFrame)
        ensures
            r.start_address == address - (address % 4096),
            r.wf(),
            r.start_address <= address,
    {
        proof {
            assert((address & 0xffff_ffff_ffff_f000) == address - address % 4096
                && (address & 0xffff_ffff_ffff_f000) % 4096 == 0 && (address
                & 0xffff_ffff_ffff_f000) <= address) by (bit_vector);
        }
        PhysFrame { start_address: address & 0xffff_ffff_ffff_f000 }
    }
}

/// A canonical virtual address: the top sixteen bits replicate bit 47, so
/// the address lies in the low or the high half of the address space.
pub open spec fn spec_canonical(address: u64) -> bool {
    address < 0x0000_8000_0000_0000 || address >= 0xffff_8000_0000_0000
}

/// A page-sized, page-aligned region of canonical virtual memory.
#[derive(Clone, Copy, PartialEq, Eq, Structural, Debug)]
pub struct Page {
    /// Virtual address of the page's first byte; a multiple of the page
    /// size, canonical.
    pub start_address: u64,
}

impl Page {
    /// The page is aligned and its address canonical.
    pub open spec fn wf(self) -> bool {
        self.start_address % 4096 == 0 && spec_canonical(self.start_address)
    }

    /// The page containing a virtual address: the address rounded down to
    /// the page size. Only canonical addresses name pages.
    pub fn containing_address(address: u64) -> (r: Page)
        requires
            spec_canonical(address),
        ensures
            r.start_address == address - (address % 4096),
            r.wf(),
    {
        proof {
            assert((address & 0xffff_ffff_ffff_f000) == address - address % 4096
                && (address & 0xffff_ffff_ffff_f000) % 4096 == 0 && ((address
                < 0x0000_8000_0000_0000 || address >= 0xffff_8000_0000_0000) ==> ((address
                & 0xffff_ffff_ffff_f000) < 0x0000_8000_0000_0000 || (address
                & 0xffff_ffff_ffff_f000) >= 0xffff_8000_0000_0000))) by (bit_vector);
        }
        Page { start_address: address & 0xffff_ffff_ffff_f000 }
    }

    /// Index into the level-4 table: bits 39..48 of the address.
    pub open spec fn spec_l4_index(self) -> int {
        ((self.start_address >> 39) & 0x1ff) as int
    }

    /// Index into the level-3 table: bits 30..39 of the address.
    pub open spec fn spec_l3_index(self) -> int {
        ((self.start_address >> 30) & 0x1ff) as int
    }

    /// Index into the level-2 table: bits 21..30 of the address.
    pub open spec fn spec_l2_index(self) -> int {
        ((self.start_address >> 21) & 0x1ff) as int
    }

    /// Index into the level-1 table: bits 12..21 of the address.
    pub open spec fn spec_l1_index(self) -> int {
        ((self.start_address >> 12) & 0x1ff) as int
    }

    /// Index into the level-4 table: bits 39..48 of the address.
    pub fn l4_index(&self) -> (r: usize)
        ensures
            r == self.spec_l4_index(),
            r < 512,
    {
        let a = self.start_address;
        proof {
            assert(((a >> 39) & 0x1ff) < 512) by (bit_vector);
        }
        ((a >> 39) & 0x1ff) as usize
    }

    /// Index into the level-3 table: bits 30..39 of the address.
    pub fn l3_index(&self) -> (r: usize)
        ensures
            r == self.spec_l3_index(),
            r < 512,
    {
        let a = self.start_address;
        proof {
            assert(((a >> 30) & 0x1ff) < 512) by (bit_vector);
        }
        ((a >> 30) & 0x1ff) as usize
    }

    /// Index into the level-2 table: bits 21..30 of the address.
    pub fn l2_index(&self) -> (r: usize)
        ensures
            r == self.spec_l2_index(),
            r < 512,
    {
        let a = self.start_address;
        proof {
            assert(((a >> 21) & 0x1ff) < 512) by (bit_vector);
        }
        ((a >> 21) & 0x1ff) as usize
    }

    /// Index into the level-1 table: bits 12..21 of the address.
    pub fn l1_index(&self) -> (r: usize)
        ensures
            r == self.spec_l1_index(),
            r < 512,
    {
        let a = self.start_address;
        proof {
            assert(((a >> 12) & 0x1ff) < 512) by (bit_vector);
        }
        ((a >> 12) & 0x1ff) as usize
    }
}

/// Two well-formed pages with the same four table indices are the same
/// page: the indices cover bits 12..48, alignment fixes the low bits, and
/// canonicality fixes the high bits from bit 47.
pub proof fn lemma_page_indices_injective(a: Page, b: Page)
    requires
        a.wf(),
        b.wf(),
        a.spec_l4_index() == b.spec_l4_index(),
        a.spec_l3_index() == b.spec_l3_index(),
        a.spec_l2_index() == b.spec_l2_index(),
        a.spec_l1_index() == b.spec_l1_index(),
    ensures
        a == b,
{
    let x = a.start_address;
    let y = b.start_address;
    assert(x == y) by (bit_vector)
        requires
            x % 4096 == 0,
            y % 4096 == 0,
            x < 0x0000_8000_0000_0000 || x >= 0xffff_8000_0000_0000,
            y < 0x0000_8000_0000_0000 || y >= 0xffff_8000_0000_0000,
            (x >> 39) & 0x1ff == (y >> 39) & 0x1ff,
            (x >> 30) & 0x1ff == (y >> 30) & 0x1ff,
            (x >> 21) & 0x1ff == (y >> 21) & 0x1ff,
            (x >> 12) & 0x1ff == (y >> 12) & 0x1ff,
    ;
}

/// The capability to hand out physical frames. Each handed-out frame is
/// exclusively owned by the caller from then on; there is no free list
/// and no reissue.
pub trait FrameAllocator {
    /// The start addresses of the frames still to be handed out, in the
    /// order they will appear.
    spec fn spec_remaining(&self) -> Seq<u64>;

    /// Hand out the next frame of the sequence, or report exhaustion once
    /// the sequence is empty.
    fn allocate_frame(&mut self) -> (r: Option<PhysFrame>)
        ensures
            old(self).spec_remaining().len() == 0 ==> r is None && final(self).spec_remaining()
                == old(self).spec_remaining(),
            old(self).spec_remaining().len() > 0 ==> r == Some(
                PhysFrame { start_address: old(self).spec_remaining()[0] },
            ) && final(self).spec_remaining() == old(self).spec_remaining().skip(1),
    ;
}

/// The null strategy: no memory information is available yet, so every
/// request reports exhaustion.
pub struct EmptyFrameAllocator;

impl FrameAllocator for EmptyFrameAllocator {
    open spec fn spec_remaining(&self) -> Seq<u64> {
        Seq::empty()
    }

    fn allocate_frame(&mut self) -> (r: Option<PhysFrame>) {
        None
    }
}

/// The null strategy never holds a frame: its sequence of frames to hand
/// out is empty from the start, so every call — the first included —
/// reports exhaustion.
pub proof fn lemma_null_strategy_exhausted(a: EmptyFrameAllocator)
    ensures
        a.spec_remaining().len() == 0,
{
}

/// One record of the boot-reported memory map: a contiguous physical
/// address range and whether it is usable for allocation.
#[derive(Clone, Copy, PartialEq, Eq, Structural, Debug)]
pub struct MemoryRegion {
    /// First address of the range.
    pub start: u64,
    /// First address past the range.
    pub end: u64,
    /// Whether the boot loader reported the range as usable.
    pub usable: bool,
}

impl MemoryRegion {
    /// Physical addresses stay below the architectural limit, so frame
    /// arithmetic cannot wrap.
    pub open spec fn wf(self) -> bool {
        self.end <= 0x0010_0000_0000_0000
    }
}

/// The frames a single address range yields: one per frame-sized step
/// from its start, each rounded down to frame alignment, while the step's
/// address is below the range's end.
pub open spec fn spec_range_frames(start: int, end: int) -> Seq<u64>
    decreases (end - start + 4095) / 4096,
{
    if start >= end || start < 0 {
        Seq::empty()
    } else {
        seq![(start - (start % 4096)) as u64] + spec_range_frames(start + 4096, end)
    }
}

/// The frames the whole memory map yields: the usable regions' frames,
/// region by region in reported order.
pub open spec fn spec_map_frames(m: Seq<MemoryRegion>) -> Seq<u64>
    decreases m.len(),
{
    if m.len() == 0 {
        Seq::empty()
    } else {
        (if m[0].usable {
            spec_range_frames(m[0].start as int, m[0].end as int)
        } else {
            Seq::empty()
        }) + spec_map_frames(m.skip(1))
    }
}

/// The region-sequence strategy: the usable regions of the boot-reported
/// memory map, sliced into frames, handed out front to back.
pub struct BootInfoFrameAllocator {
    /// Start addresses of every frame the map yields, in order.
    pub frames: Vec<u64>,
    /// How many frames have already been handed out.
    pub next: usize,
}

impl FrameAllocator for BootInfoFrameAllocator {
    open spec fn spec_remaining(&self) -> Seq<u64> {
        if self.next <= self.frames@.len() {
            self.frames@.skip(self.next as int)
        } else {
            Seq::empty()
        }
    }

    fn allocate_frame(&mut self) -> (r: Option<PhysFrame>) {
        if self.next < self.frames.len() {
            let addr = self.frames[self.next];
            self.next = self.next + 1;
            proof {
                assert(final(self).spec_remaining() =~= old(self).spec_remaining().skip(1));
            }
            Some(PhysFrame { start_address: addr })
        } else {
            None
        }
    }
}

/// Build the region-sequence allocator from the boot-reported memory map:
/// regions not marked usable contribute nothing; each usable region is
/// sliced into frame-aligned, frame-sized steps; regions are visited in
/// reported order and each region's frames ascend.
pub fn init_frame_allocator(memory_map: &Vec<MemoryRegion>) -> (r: BootInfoFrameAllocator)
    requires
        forall|i: int| 0 <= i < memory_map@.len() ==> (#[trigger] memory_map@[i]).wf(),
    ensures
        r.spec_remaining() == spec_map_frames(memory_map@),
        r.next == 0,
{
    let mut frames: Vec<u64> = Vec::new();
    let n = memory_map.len();
    let mut i: usize = 0;
    proof {
        assert(memory_map@.skip(0) =~= memory_map@);
        assert(Seq::<u64>::empty() + spec_map_frames(memory_map@) =~= spec_map_frames(
            memory_map@,
        ));
    }
    while i < n
        invariant
            i <= n,
            n == memory_map@.len(),
            forall|k: int| 0 <= k < memory_map@.len() ==> (#[trigger] memory_map@[k]).wf(),
            spec_map_frames(memory_map@) == frames@ + spec_map_frames(memory_map@.skip(i as int)),
        decreases n - i,
    {
        let region = memory_map[i];
        let ghost rest = spec_map_frames(memory_map@.skip(i + 1));
        proof {
            assert(memory_map@.skip(i as int)[0] == memory_map@[i as int]);
            assert(memory_map@.skip(i as int).skip(1) =~= memory_map@.skip(i + 1));
        }
        if region.usable {
            let mut addr: u64 = region.start;
            proof {
                assert(frames@ + (spec_range_frames(region.start as int, region.end as int)
                    + rest) =~= frames@ + spec_range_frames(region.start as int, region.end as int)
                    + rest);
            }
            while addr < region.end
                invariant
                    region.wf(),
                    rest == spec_map_frames(memory_map@.skip(i + 1)),
                    spec_map_frames(memory_map@) == frames@ + spec_range_frames(
                        addr as int,
                        region.end as int,
                    ) + rest,
                decreases (region.end - addr + 4095) / 4096,
            {
                let ghost frames0 = frames@;
                let f = PhysFrame::containing_address(addr);
                frames.push(f.start_address);
                proof {
                    assert(spec_range_frames(addr as int, region.end as int) == seq![
                        f.start_address,
                    ] + spec_range_frames(addr + 4096, region.end as int));
                    assert(frames0 + spec_range_frames(addr as int, region.end as int) =~= frames@
                        + spec_range_frames(addr + 4096, region.end as int));
                }
                addr = addr + FRAME_SIZE;
            }
            proof {
                assert(spec_range_frames(addr as int, region.end as int)
                    =~= Seq::<u64>::empty());
                assert(frames@ + Seq::<u64>::empty() + rest =~= frames@ + rest);
            }
        } else {
            proof {
                assert(frames@ + (Seq::<u64>::empty() + rest) =~= frames@ + rest);
            }
        }
        i = i + 1;
    }
    proof {
        assert(memory_map@.skip(n as int) =~= Seq::<MemoryRegion>::empty());
        assert(frames@ + Seq::<u64>::empty() =~= frames@);
    }
    BootInfoFrameAllocator { frames, next: 0 }
}

/// A mapping request failed.
#[derive(Clone, Copy, PartialEq, Eq, Structural, Debug)]
pub enum MapError {
    /// The frame allocator could not supply a frame for a required
    /// intermediate table.
    FrameAllocationFailed,
    /// The target entry already maps the page to a different frame.
    PageAlreadyMapped,
}

/// One page-table entry: absent, a link to the next-level table (its
/// physical address and its slot in the arena of tables reachable through
/// the offset mapping), or a leaf mapping to a physical frame.
#[derive(Clone, Copy, PartialEq, Eq, Structural, Debug)]
pub enum PageTableEntry {
    /// The entry is unused.
    Absent,
    /// A present link to the next-level table.
    Table { addr: u64, index: usize },
    /// A present leaf mapping.
    Frame { addr: u64, writable: bool },
}

/// The table a link entry points to, or -1 for any other entry.
pub open spec fn spec_child(e: PageTableEntry) -> int {
    match e {
        PageTableEntry::Table { index, .. } => index as int,
        _ => -1,
    }
}

/// The translator bound to the active top-level table: the fixed offset at
/// which physical memory is mirrored into virtual memory, the top-level
/// table's frame, and the hierarchy of 512-entry tables reachable from it,
/// held row-major in one arena (table `t` owns entries `t*512 .. t*512+512`;
/// table 0 is the top level).
pub struct Mapper {
    /// Virtual base at which all of physical memory is mirrored.
    pub physical_memory_offset: u64,
    /// The top-level table's physical frame, as read from the control
    /// register at initialization.
    pub l4_frame: PhysFrame,
    /// All table entries, 512 per table, row-major by table.
    pub entries: Vec<PageTableEntry>,
    /// The level (4 down to 1) of each table in the arena.
    pub levels: Vec<u8>,
}

impl Mapper {
    /// The entry at slot `i` of table `t`.
    pub open spec fn entry_at(self, t: int, i: int) -> PageTableEntry {
        self.entries@[t * 512 + i]
    }

    /// Well-formedness of the hierarchy: the arena starts with the
    /// level-4 root; every link steps down exactly one level and lands
    /// inside the arena; leaf mappings appear only in level-1 tables; no
    /// table is linked twice and none links back to the root.
    pub open spec fn wf(self) -> bool {
        &&& self.levels@.len() >= 1
        &&& self.entries@.len() == self.levels@.len() * 512
        &&& self.levels@[0] == 4
        &&& forall|t: int| 0 <= t < self.levels@.len() ==> 1 <= (#[trigger] self.levels@[t]) <= 4
        &&& forall|t: int, i: int|
            0 <= t < self.levels@.len() && 0 <= i < 512 ==> #[trigger] self.wf_entry(t, i)
        &&& forall|j1: int, j2: int|
            0 <= j1 < self.entries@.len() && 0 <= j2 < self.entries@.len() && j1 != j2 && (
            #[trigger] self.entries@[j1]) is Table && (#[trigger] self.entries@[j2]) is Table
                ==> spec_child(self.entries@[j1]) != spec_child(self.entries@[j2])
        &&& forall|j: int|
            0 <= j < self.entries@.len() && (#[trigger] self.entries@[j]) is Table ==> spec_child(
                self.entries@[j],
            ) != 0
    }

    /// Well-formedness of one entry of table `t`.
    pub open spec fn wf_entry(self, t: int, i: int) -> bool {
        match self.entry_at(t, i) {
            PageTableEntry::Absent => true,
            PageTableEntry::Table { addr, index } => {
                &&& self.levels@[t] >= 2
                &&& index < self.levels@.len()
                &&& self.levels@[index as int] == self.levels@[t] - 1
            },
            PageTableEntry::Frame { .. } => self.levels@[t] == 1,
        }
    }

    /// The walk: follow the page's four indices through the hierarchy; the
    /// physical address mapped at the leaf, or `None` wherever the path is
    /// broken.
    pub open spec fn spec_translate(self, page: Page) -> Option<u64> {
        match self.entry_at(0, page.spec_l4_index()) {
            PageTableEntry::Table { index: t3, .. } => match self.entry_at(
                t3 as int,
                page.spec_l3_index(),
            ) {
                PageTableEntry::Table { index: t2, .. } => match self.entry_at(
                    t2 as int,
                    page.spec_l2_index(),
                ) {
                    PageTableEntry::Table { index: t1, .. } => match self.entry_at(
                        t1 as int,
                        page.spec_l1_index(),
                    ) {
                        PageTableEntry::Frame { addr, .. } => Some(addr),
                        _ => None,
                    },
                    _ => None,
                },
                _ => None,
            },
            _ => None,
        }
    }

    /// How many intermediate tables a mapping of `page` would still have
    /// to create: the number of absent links on its path.
    pub open spec fn spec_missing_tables(self, page: Page) -> int {
        match self.entry_at(0, page.spec_l4_index()) {
            PageTableEntry::Absent => 3,
            PageTableEntry::Table { index: t3, .. } => match self.entry_at(
                t3 as int,
                page.spec_l3_index(),
            ) {
                PageTableEntry::Absent => 2,
                PageTableEntry::Table { index: t2, .. } => match self.entry_at(
                    t2 as int,
                    page.spec_l2_index(),
                ) {
                    PageTableEntry::Absent => 1,
                    _ => 0,
                },
                _ => 0,
            },
            _ => 0,
        }
    }

    /// What a mapping request must return: success when the page already
    /// maps to the requested frame (idempotent) or is unmapped and enough
    /// frames remain for the missing tables; the aliasing error when the
    /// page maps to a different frame; exhaustion otherwise.
    pub open spec fn spec_map_outcome(self, page: Page, frame: PhysFrame, avail: Seq<u64>) -> Result<
        (),
        MapError,
    > {
        if self.spec_translate(page) == Some(frame.start_address) {
            Ok(())
        } else if self.spec_translate(page) is Some {
            Err(MapError::PageAlreadyMapped)
        } else if avail.len() >= self.spec_missing_tables(page) {
            Ok(())
        } else {
            Err(MapError::FrameAllocationFailed)
        }
    }
}

/// Every index a page derives lies inside a 512-entry table.
pub proof fn lemma_index_range(p: Page)
    ensures
        0 <= p.spec_l4_index() < 512,
        0 <= p.spec_l3_index() < 512,
        0 <= p.spec_l2_index() < 512,
        0 <= p.spec_l1_index() < 512,
{
    let x = p.start_address;
    assert(((x >> 39) & 0x1ff) < 512 && ((x >> 30) & 0x1ff) < 512 && ((x >> 21) & 0x1ff) < 512 && ((
    x >> 12) & 0x1ff) < 512) by (bit_vector);
}

/// A link anywhere in a well-formed arena lands inside the arena: the
/// linked table's number is below the number of tables.
proof fn lemma_entry_child_bound(s: Mapper, j: int)
    requires
        s.wf(),
        0 <= j < s.entries@.len(),
        s.entries@[j] is Table,
    ensures
        0 < spec_child(s.entries@[j]) < s.levels@.len(),
{
    let a = j / 512;
    let b = j % 512;
    vstd::arithmetic::div_mod::lemma_fundamental_div_mod(j, 512);
    assert(0 <= b < 512) by (nonlinear_arith)
        requires
            b == j % 512,
            j >= 0,
    ;
    assert(0 <= a < s.levels@.len()) by (nonlinear_arith)
        requires
            a == j / 512,
            0 <= j < s.levels@.len() * 512,
    ;
    assert(a * 512 + b == j);
    assert(s.entry_at(a, b) == s.entries@[j]);
    assert(s.wf_entry(a, b));
    assert(spec_child(s.entries@[j]) != 0);
}

/// Two distinct (table, slot) pairs name two distinct arena positions.
pub proof fn lemma_slot_distinct(a: int, b: int, c: int, d: int)
    requires
        0 <= b < 512,
        0 <= d < 512,
        a != c || b != d,
    ensures
        a * 512 + b != c * 512 + d,
{
    assert(a * 512 + b != c * 512 + d) by (nonlinear_arith)
        requires
            0 <= b < 512,
            0 <= d < 512,
            a != c || b != d,
    ;
}

/// Bind the translation layer to the active hierarchy: the caller has
/// mapped all of physical memory at `physical_memory_offset` and read the
/// top-level table's frame from the control register. The model starts
/// from an empty top-level table, so no page translates yet.
pub fn init(physical_memory_offset: u64, l4_frame: PhysFrame) -> (r: Mapper)
    ensures
        r.wf(),
        r.physical_memory_offset == physical_memory_offset,
        r.l4_frame == l4_frame,
        forall|p: Page| r.spec_translate(p) is None,
        forall|p: Page| r.spec_missing_tables(p) == 3,
{
    let mut entries: Vec<PageTableEntry> = Vec::new();
    let mut k: usize = 0;
    while k < 512
        invariant
            k <= 512,
            entries@.len() == k,
            forall|j: int| 0 <= j < k ==> (#[trigger] entries@[j]) == PageTableEntry::Absent,
        decreases 512 - k,
    {
        entries.push(PageTableEntry::Absent);
        k = k + 1;
    }
    let mut levels: Vec<u8> = Vec::new();
    levels.push(4);
    let r = Mapper { physical_memory_offset, l4_frame, entries, levels };
    proof {
        assert forall|p: Page| #[trigger] r.spec_translate(p) is None by {
            lemma_index_range(p);
            assert(r.entry_at(0, p.spec_l4_index()) == PageTableEntry::Absent);
        };
        assert forall|p: Page| #[trigger] r.spec_missing_tables(p) == 3 by {
            lemma_index_range(p);
            assert(r.entry_at(0, p.spec_l4_index()) == PageTableEntry::Absent);
        };
    }
    r
}

impl Mapper {
    /// Follow the link at slot `idx` of table `t`, creating the next-level
    /// table from the allocator when the link is absent. Translations are
    /// unchanged either way: a freshly created table is empty.
    fn descend<A: FrameAllocator>(&mut self, t: usize, idx: usize, allocator: &mut A) -> (r:
        Result<usize, MapError>)
        requires
            old(self).wf(),
            t < old(self).levels@.len(),
            idx < 512,
            old(self).levels@[t as int] >= 2,
        ensures
            final(self).wf(),
            final(self).physical_memory_offset == old(self).physical_memory_offset,
            final(self).l4_frame == old(self).l4_frame,
            final(self).levels@.len() >= old(self).levels@.len(),
            forall|p: Page|
                #[trigger] final(self).spec_translate(p) == old(self).spec_translate(p),
            forall|a: int, b: int|
                0 <= a < old(self).levels@.len() && 0 <= b < 512 && (a != t || b != idx)
                    ==> #[trigger] final(self).entry_at(a, b) == old(self).entry_at(a, b),
            forall|a: int| 0 <= a < old(self).levels@.len() ==> #[trigger] final(self).levels@[a]
                == old(self).levels@[a],
            match r {
                Ok(n) => {
                    &&& n < final(self).levels@.len()
                    &&& final(self).levels@[n as int] == old(self).levels@[t as int] - 1
                    &&& final(self).entry_at(t as int, idx as int) is Table
                    &&& spec_child(final(self).entry_at(t as int, idx as int)) == n
                },
                Err(e) => e == MapError::FrameAllocationFailed,
            },
            match old(self).entry_at(t as int, idx as int) {
                PageTableEntry::Table { index, .. } => {
                    &&& r == Ok::<usize, MapError>(index)
                    &&& *final(self) == *old(self)
                    &&& final(allocator).spec_remaining() == old(allocator).spec_remaining()
                },
                PageTableEntry::Absent => {
                    if old(allocator).spec_remaining().len() == 0 {
                        &&& r == Err::<usize, MapError>(MapError::FrameAllocationFailed)
                        &&& *final(self) == *old(self)
                        &&& final(allocator).spec_remaining() == old(allocator).spec_remaining()
                    } else {
                        &&& (r matches Ok(n) && n as int == old(self).levels@.len())
                        &&& final(allocator).spec_remaining() == old(
                            allocator,
                        ).spec_remaining().skip(1)
                        &&& final(self).levels@.len() == old(self).levels@.len() + 1
                        &&& (forall|b: int|
                            0 <= b < 512 ==> #[trigger] final(self).entry_at(
                                old(self).levels@.len() as int,
                                b,
                            ) == PageTableEntry::Absent)
                    }
                },
                PageTableEntry::Frame { .. } => false,
            },
    {
        let el = self.entries.len();
        proof {
            let ghost ln = old(self).levels@.len() as int;
            assert(t * 512 + idx < ln * 512) by (nonlinear_arith)
                requires
                    t < ln,
                    idx < 512,
            ;
        }
        let j = t * 512 + idx;
        let e = self.entries[j];
        proof {
            assert(old(self).wf_entry(t as int, idx as int));
        }
        match e {
            PageTableEntry::Table { addr: _, index } => {
                Ok(index)
            },
            PageTableEntry::Frame { addr: _, writable: _ } => {
                proof {
                    assert(false);
                }
                Err(MapError::FrameAllocationFailed)
            },
            PageTableEntry::Absent => {
                match allocator.allocate_frame() {
                    None => Err(MapError::FrameAllocationFailed),
                    Some(f) => {
                        let n = self.levels.len();
                        let parent_level = self.levels[t];
                        self.levels.push(parent_level - 1);
                        let ghost entries0 = self.entries@;
                        let ghost levels1 = self.levels@;
                        let mut k: usize = 0;
                        while k < 512
                            invariant
                                k <= 512,
                                self.physical_memory_offset == old(self).physical_memory_offset,
                                self.l4_frame == old(self).l4_frame,
                                self.levels@ == levels1,
                                self.entries@.len() == entries0.len() + k,
                                forall|q: int|
                                    0 <= q < entries0.len() ==> (#[trigger] self.entries@[q])
                                        == entries0[q],
                                forall|q: int|
                                    entries0.len() <= q < self.entries@.len() ==> (
                                    #[trigger] self.entries@[q]) == PageTableEntry::Absent,
                            decreases 512 - k,
                        {
                            self.entries.push(PageTableEntry::Absent);
                            k = k + 1;
                        }
                        self.entries[j] = PageTableEntry::Table {
                            addr: f.start_address,
                            index: n,
                        };
                        proof {
                            assert(self.entries@ =~= old(self).entries@.update(
                                t as int * 512 + idx as int,
                                PageTableEntry::Table { addr: f.start_address, index: n },
                            ) + Seq::new(512, |q: int| PageTableEntry::Absent));
                            lemma_descend_grow(*old(self), *self, t as int, idx as int,
                                f.start_address, n);
                        }
                        Ok(n)
                    },
                }
            },
        }
    }
}

/// After a fresh, empty next-level table is linked into a previously
/// absent slot, the hierarchy is still well-formed and no page's
/// translation has changed: every walk that reaches the new link next
/// reads the empty table and still finds nothing.
proof fn lemma_descend_grow(s: Mapper, f: Mapper, t: int, idx: int, fa: u64, nn: usize)
    requires
        s.wf(),
        nn as int == s.levels@.len(),
        0 <= t < s.levels@.len(),
        0 <= idx < 512,
        s.levels@[t] >= 2,
        s.entry_at(t, idx) == PageTableEntry::Absent,
        f.physical_memory_offset == s.physical_memory_offset,
        f.l4_frame == s.l4_frame,
        f.levels@ == s.levels@.push((s.levels@[t] - 1) as u8),
        f.entries@ == s.entries@.update(
            t * 512 + idx,
            PageTableEntry::Table { addr: fa, index: nn },
        ) + Seq::new(512, |q: int| PageTableEntry::Absent),
    ensures
        f.wf(),
        forall|p: Page| #[trigger] f.spec_translate(p) == s.spec_translate(p),
        forall|a: int, b: int|
            0 <= a < s.levels@.len() && 0 <= b < 512 && (a != t || b != idx)
                ==> #[trigger] f.entry_at(a, b) == s.entry_at(a, b),
        forall|b: int|
            0 <= b < 512 ==> #[trigger] f.entry_at(s.levels@.len() as int, b)
                == PageTableEntry::Absent,
        f.entry_at(t, idx) == (PageTableEntry::Table { addr: fa, index: nn }),
        spec_child(f.entry_at(t, idx)) == s.levels@.len() as int,
        f.levels@[s.levels@.len() as int] == s.levels@[t] - 1,
{
    let n = s.levels@.len() as int;
    let slot = t * 512 + idx;
    assert(s.entries@.len() == n * 512);
    assert(slot < n * 512 && 0 <= slot) by (nonlinear_arith)
        requires
            0 <= t < n,
            0 <= idx < 512,
            slot == t * 512 + idx,
    ;
    assert(f.entries@.len() == n * 512 + 512);
    assert(f.entries@.len() == f.levels@.len() * 512) by (nonlinear_arith)
        requires
            f.entries@.len() == n * 512 + 512,
            f.levels@.len() == n + 1,
    ;
    // old slots other than the modified one are unchanged
    assert forall|a: int, b: int|
        0 <= a < n && 0 <= b < 512 && (a != t || b != idx) implies #[trigger] f.entry_at(a, b)
        == s.entry_at(a, b) by {
        lemma_slot_distinct(a, b, t, idx);
        assert(a * 512 + b < n * 512 && 0 <= a * 512 + b) by (nonlinear_arith)
            requires
                0 <= a < n,
                0 <= b < 512,
        ;
    };
    // the fresh table is empty
    assert forall|b: int| 0 <= b < 512 implies #[trigger] f.entry_at(n, b)
        == PageTableEntry::Absent by {
        assert(n * 512 <= n * 512 + b < n * 512 + 512);
    };
    assert(f.entry_at(t, idx) == (PageTableEntry::Table { addr: fa, index: nn }));
    // well-formedness
    assert forall|a: int, b: int| 0 <= a < f.levels@.len() && 0 <= b < 512 implies #[trigger] f
        .wf_entry(a, b) by {
        if a == n {
            assert(f.entry_at(a, b) == PageTableEntry::Absent);
        } else if a == t && b == idx {
            assert(f.levels@[t] == s.levels@[t]);
            assert(f.levels@[n] == s.levels@[t] - 1);
        } else {
            assert(s.wf_entry(a, b));
            assert(f.entry_at(a, b) == s.entry_at(a, b));
            match s.entry_at(a, b) {
                PageTableEntry::Table { addr, index } => {
                    assert(f.levels@[a] == s.levels@[a]);
                    assert(f.levels@[index as int] == s.levels@[index as int]);
                },
                _ => {
                    assert(f.levels@[a] == s.levels@[a]);
                },
            }
        }
    };
    assert forall|j1: int, j2: int|
        0 <= j1 < f.entries@.len() && 0 <= j2 < f.entries@.len() && j1 != j2 && (
        #[trigger] f.entries@[j1]) is Table && (#[trigger] f.entries@[j2]) is Table implies
        spec_child(f.entries@[j1]) != spec_child(f.entries@[j2]) by {
        if j1 >= n * 512 + 0 && j1 < f.entries@.len() && j1 >= s.entries@.len() {
            assert(f.entries@[j1] == PageTableEntry::Absent);
        }
        if j2 >= s.entries@.len() {
            assert(f.entries@[j2] == PageTableEntry::Absent);
        }
        if j1 < s.entries@.len() && j2 < s.entries@.len() {
            if j1 == slot {
                assert(spec_child(f.entries@[j1]) == n);
                assert(f.entries@[j2] == s.entries@[j2]);
                if s.entries@[j2] is Table {
                    lemma_entry_child_bound(s, j2);
                }
            } else if j2 == slot {
                assert(spec_child(f.entries@[j2]) == n);
                assert(f.entries@[j1] == s.entries@[j1]);
                if s.entries@[j1] is Table {
                    lemma_entry_child_bound(s, j1);
                }
            } else {
                assert(f.entries@[j1] == s.entries@[j1]);
                assert(f.entries@[j2] == s.entries@[j2]);
            }
        }
    };
    assert forall|j: int|
        0 <= j < f.entries@.len() && (#[trigger] f.entries@[j]) is Table implies spec_child(
        f.entries@[j]) != 0 by {
        if j >= s.entries@.len() {
            assert(f.entries@[j] == PageTableEntry::Absent);
        } else if j == slot {
            assert(spec_child(f.entries@[j]) == n);
        } else {
            assert(f.entries@[j] == s.entries@[j]);
        }
    };
    assert(f.wf());
    // translations are unchanged
    assert forall|p: Page| #[trigger] f.spec_translate(p) == s.spec_translate(p) by {
        lemma_index_range(p);
        lemma_walk_preserved(s, f, t, idx, p);
    };
}

/// The walk of any page finds the same result after a fresh empty table
/// is linked into a previously absent slot: either the walk never reads
/// the modified slot, or it read absence before and now steps into the
/// empty table and stops one level later.
proof fn lemma_walk_preserved(s: Mapper, f: Mapper, t: int, idx: int, p: Page)
    requires
        s.wf(),
        0 <= t < s.levels@.len(),
        0 <= idx < 512,
        s.entry_at(t, idx) == PageTableEntry::Absent,
        f.entries@.len() == s.entries@.len() + 512,
        forall|a: int, b: int|
            0 <= a < s.levels@.len() && 0 <= b < 512 && (a != t || b != idx)
                ==> #[trigger] f.entry_at(a, b) == s.entry_at(a, b),
        forall|b: int|
            0 <= b < 512 ==> #[trigger] f.entry_at(s.levels@.len() as int, b)
                == PageTableEntry::Absent,
        f.entry_at(t, idx) is Table,
        spec_child(f.entry_at(t, idx)) == s.levels@.len() as int,
    ensures
        f.spec_translate(p) == s.spec_translate(p),
{
    let n = s.levels@.len() as int;
    let i4 = p.spec_l4_index();
    let i3 = p.spec_l3_index();
    let i2 = p.spec_l2_index();
    let i1 = p.spec_l1_index();
    lemma_index_range(p);
    if t == 0 && idx == i4 {
        assert(s.spec_translate(p) is None);
        assert(f.entry_at(0, i4) is Table && spec_child(f.entry_at(0, i4)) == n);
        assert(f.entry_at(n, i3) == PageTableEntry::Absent);
        assert(f.spec_translate(p) is None);
    } else {
        assert(f.entry_at(0, i4) == s.entry_at(0, i4));
        match s.entry_at(0, i4) {
            PageTableEntry::Table { index: c3, .. } => {
                assert(s.wf_entry(0, i4));
                assert(c3 < s.levels@.len());
                if c3 as int == t && i3 == idx {
                    assert(s.spec_translate(p) is None);
                    assert(spec_child(f.entry_at(c3 as int, i3)) == n);
                    assert(f.entry_at(n, i2) == PageTableEntry::Absent);
                    assert(f.spec_translate(p) is None);
                } else {
                    assert(f.entry_at(c3 as int, i3) == s.entry_at(c3 as int, i3));
                    match s.entry_at(c3 as int, i3) {
                        PageTableEntry::Table { index: c2, .. } => {
                            assert(s.wf_entry(c3 as int, i3));
                            assert(c2 < s.levels@.len());
                            if c2 as int == t && i2 == idx {
                                assert(s.spec_translate(p) is None);
                                assert(spec_child(f.entry_at(c2 as int, i2)) == n);
                                assert(f.entry_at(n, i1) == PageTableEntry::Absent);
                                assert(f.spec_translate(p) is None);
                            } else {
                                assert(f.entry_at(c2 as int, i2) == s.entry_at(c2 as int, i2));
                                match s.entry_at(c2 as int, i2) {
                                    PageTableEntry::Table { index: c1, .. } => {
                                        assert(s.wf_entry(c2 as int, i2));
                                        assert(c1 < s.levels@.len());
                                        if c1 as int == t && i1 == idx {
                                            assert(s.spec_translate(p) is None);
                                            assert(f.entry_at(c1 as int, i1) is Table);
                                            assert(f.spec_translate(p) is None);
                                        } else {
                                            assert(f.entry_at(c1 as int, i1) == s.entry_at(
                                                c1 as int,
                                                i1,
                                            ));
                                        }
                                    },
                                    _ => {},
                                }
                            }
                        },
                        _ => {},
                    }
                }
            },
            _ => {},
        }
    }
}

/// After a leaf mapping is written into a previously absent level-1 slot
/// on a complete path, the hierarchy is still well-formed, the mapped page
/// translates to the new frame, and every other page translates as
/// before: links are unique, so the only path to the changed slot is the
/// mapped page's own.
proof fn lemma_leaf_update(s: Mapper, f: Mapper, t3: usize, t2: usize, t1: usize, page: Page, fa: u64, wr: bool)
    requires
        s.wf(),
        page.wf(),
        s.entry_at(0, page.spec_l4_index()) is Table,
        spec_child(s.entry_at(0, page.spec_l4_index())) == t3 as int,
        s.entry_at(t3 as int, page.spec_l3_index()) is Table,
        spec_child(s.entry_at(t3 as int, page.spec_l3_index())) == t2 as int,
        s.entry_at(t2 as int, page.spec_l2_index()) is Table,
        spec_child(s.entry_at(t2 as int, page.spec_l2_index())) == t1 as int,
        t1 < s.levels@.len(),
        s.levels@[t1 as int] == 1,
        f.physical_memory_offset == s.physical_memory_offset,
        f.l4_frame == s.l4_frame,
        f.levels@ == s.levels@,
        f.entries@ == s.entries@.update(
            t1 as int * 512 + page.spec_l1_index(),
            PageTableEntry::Frame { addr: fa, writable: wr },
        ),
    ensures
        f.wf(),
        f.spec_translate(page) == Some(fa),
        forall|p: Page|
            p.wf() && p.start_address != page.start_address ==> #[trigger] f.spec_translate(p)
                == s.spec_translate(p),
{
    let i4 = page.spec_l4_index();
    let i3 = page.spec_l3_index();
    let i2 = page.spec_l2_index();
    let i1 = page.spec_l1_index();
    lemma_index_range(page);
    let slot = t1 as int * 512 + i1;
    assert(0 <= slot < s.entries@.len()) by (nonlinear_arith)
        requires
            slot == t1 as int * 512 + i1,
            0 <= (t1 as int) < s.levels@.len(),
            0 <= i1 < 512,
            s.entries@.len() == s.levels@.len() * 512,
    ;
    // unchanged slots
    assert forall|a: int, b: int|
        0 <= a < s.levels@.len() && 0 <= b < 512 && (a != t1 as int || b != i1) implies #[trigger] f
        .entry_at(a, b) == s.entry_at(a, b) by {
        lemma_slot_distinct(a, b, t1 as int, i1);
        assert(0 <= a * 512 + b < s.entries@.len()) by (nonlinear_arith)
            requires
                0 <= a < s.levels@.len(),
                0 <= b < 512,
                s.entries@.len() == s.levels@.len() * 512,
        ;
    };
    assert(f.entry_at(t1 as int, i1) == (PageTableEntry::Frame { addr: fa, writable: wr }));
    // well-formedness
    assert forall|a: int, b: int| 0 <= a < f.levels@.len() && 0 <= b < 512 implies #[trigger] f
        .wf_entry(a, b) by {
        if a == t1 as int && b == i1 {
        } else {
            assert(s.wf_entry(a, b));
            assert(f.entry_at(a, b) == s.entry_at(a, b));
        }
    };
    assert forall|j1: int, j2: int|
        0 <= j1 < f.entries@.len() && 0 <= j2 < f.entries@.len() && j1 != j2 && (
        #[trigger] f.entries@[j1]) is Table && (#[trigger] f.entries@[j2]) is Table implies
        spec_child(f.entries@[j1]) != spec_child(f.entries@[j2]) by {
        assert(f.entries@[j1] == s.entries@[j1] || j1 == slot);
        assert(f.entries@[j2] == s.entries@[j2] || j2 == slot);
    };
    assert forall|j: int|
        0 <= j < f.entries@.len() && (#[trigger] f.entries@[j]) is Table implies spec_child(
        f.entries@[j]) != 0 by {
        assert(f.entries@[j] == s.entries@[j] || j == slot);
    };
    assert(f.wf());
    // the mapped page now translates to the new frame: no link points back
    // to the root, so the path tables are all distinct from table 0
    assert(s.wf_entry(0, i4));
    assert(s.wf_entry(t3 as int, i3));
    assert(s.wf_entry(t2 as int, i2));
    assert(s.entries@[i4] == s.entry_at(0, i4));
    assert(spec_child(s.entries@[i4]) != 0);
    let w4 = t3 as int * 512 + i3;
    assert(0 <= w4 < s.entries@.len()) by (nonlinear_arith)
        requires
            w4 == t3 as int * 512 + i3,
            0 <= (t3 as int) < s.levels@.len(),
            0 <= i3 < 512,
            s.entries@.len() == s.levels@.len() * 512,
    ;
    assert(s.entries@[w4] == s.entry_at(t3 as int, i3));
    assert(spec_child(s.entries@[w4]) != 0);
    let w3 = t2 as int * 512 + i2;
    assert(0 <= w3 < s.entries@.len()) by (nonlinear_arith)
        requires
            w3 == t2 as int * 512 + i2,
            0 <= (t2 as int) < s.levels@.len(),
            0 <= i2 < 512,
            s.entries@.len() == s.levels@.len() * 512,
    ;
    assert(s.entries@[w3] == s.entry_at(t2 as int, i2));
    assert(spec_child(s.entries@[w3]) != 0);
    assert(t3 as int != 0 && t2 as int != 0 && t1 as int != 0);
    assert(f.entry_at(0, i4) == s.entry_at(0, i4));
    assert(s.wf_entry(0, i4));
    assert(s.levels@[t3 as int] == 3);
    assert(t3 as int != t1 as int);
    assert(f.entry_at(t3 as int, i3) == s.entry_at(t3 as int, i3));
    assert(s.wf_entry(t3 as int, i3));
    assert(s.levels@[t2 as int] == 2);
    assert(t2 as int != t1 as int);
    assert(f.entry_at(t2 as int, i2) == s.entry_at(t2 as int, i2));
    assert(f.spec_translate(page) == Some(fa));
    // any other well-formed page walks as before
    assert forall|p: Page|
        p.wf() && p.start_address != page.start_address implies #[trigger] f.spec_translate(p)
        == s.spec_translate(p) by {
        lemma_index_range(p);
        let a4 = p.spec_l4_index();
        let a3 = p.spec_l3_index();
        let a2 = p.spec_l2_index();
        let a1 = p.spec_l1_index();
        assert(f.entry_at(0, a4) == s.entry_at(0, a4));
        match s.entry_at(0, a4) {
            PageTableEntry::Table { index: b3, .. } => {
                assert(s.wf_entry(0, a4));
                assert(s.levels@[b3 as int] == 3);
                assert(b3 as int != t1 as int);
                assert(f.entry_at(b3 as int, a3) == s.entry_at(b3 as int, a3));
                match s.entry_at(b3 as int, a3) {
                    PageTableEntry::Table { index: b2, .. } => {
                        assert(s.wf_entry(b3 as int, a3));
                        assert(s.levels@[b2 as int] == 2);
                        assert(b2 as int != t1 as int);
                        assert(f.entry_at(b2 as int, a2) == s.entry_at(b2 as int, a2));
                        match s.entry_at(b2 as int, a2) {
                            PageTableEntry::Table { index: b1, .. } => {
                                assert(s.wf_entry(b2 as int, a2));
                                if b1 == t1 {
                                    // the only link to the leaf table is the page's own path
                                    let q1 = b2 as int * 512 + a2;
                                    let q2 = t2 as int * 512 + i2;
                                    assert(0 <= q1 < s.entries@.len() && 0 <= q2
                                        < s.entries@.len()) by (nonlinear_arith)
                                        requires
                                            q1 == b2 as int * 512 + a2,
                                            q2 == t2 as int * 512 + i2,
                                            0 <= (b2 as int) < s.levels@.len(),
                                            0 <= (t2 as int) < s.levels@.len(),
                                            0 <= a2 < 512,
                                            0 <= i2 < 512,
                                            s.entries@.len() == s.levels@.len() * 512,
                                    ;
                                    if q1 != q2 {
                                        assert(spec_child(s.entries@[q1]) != spec_child(
                                            s.entries@[q2],
                                        ));
                                        assert(false);
                                    }
                                    lemma_slot_equal(b2 as int, a2, t2 as int, i2);
                                    let q3 = b3 as int * 512 + a3;
                                    let q4 = t3 as int * 512 + i3;
                                    assert(0 <= q3 < s.entries@.len() && 0 <= q4
                                        < s.entries@.len()) by (nonlinear_arith)
                                        requires
                                            q3 == b3 as int * 512 + a3,
                                            q4 == t3 as int * 512 + i3,
                                            0 <= (b3 as int) < s.levels@.len(),
                                            0 <= (t3 as int) < s.levels@.len(),
                                            0 <= a3 < 512,
                                            0 <= i3 < 512,
                                            s.entries@.len() == s.levels@.len() * 512,
                                    ;
                                    if q3 != q4 {
                                        assert(spec_child(s.entries@[q3]) != spec_child(
                                            s.entries@[q4],
                                        ));
                                        assert(false);
                                    }
                                    lemma_slot_equal(b3 as int, a3, t3 as int, i3);
                                    let q5 = 0 as int * 512 + a4;
                                    let q6 = 0 as int * 512 + i4;
                                    if q5 != q6 {
                                        assert(spec_child(s.entries@[q5]) != spec_child(
                                            s.entries@[q6],
                                        ));
                                        assert(false);
                                    }
                                    assert(a4 == i4 && a3 == i3 && a2 == i2);
                                    if a1 == i1 {
                                        lemma_page_indices_injective(p, page);
                                        assert(false);
                                    }
                                    assert(f.entry_at(b1 as int, a1) == s.entry_at(b1 as int, a1));
                                } else {
                                    assert(f.entry_at(b1 as int, a1) == s.entry_at(b1 as int, a1));
                                }
                            },
                            _ => {},
                        }
                    },
                    _ => {},
                }
            },
            _ => {},
        }
    };
}

/// Equal arena positions decompose into equal (table, slot) pairs.
proof fn lemma_slot_equal(a: int, b: int, c: int, d: int)
    requires
        0 <= b < 512,
        0 <= d < 512,
        a * 512 + b == c * 512 + d,
    ensures
        a == c && b == d,
{
    if a != c || b != d {
        lemma_slot_distinct(a, b, c, d);
    }
}

impl Mapper {
    /// Map `page` to `frame`, allocating any missing intermediate tables
    /// from the allocator, each initialized empty before it is linked in.
    /// Succeeds exactly when the page already maps to this frame
    /// (idempotent, nothing changes) or is unmapped and the allocator can
    /// supply the missing tables; a page mapped to a different frame is an
    /// aliasing conflict; no other page's translation ever changes.
    pub fn map_to<A: FrameAllocator>(
        &mut self,
        page: Page,
        frame: PhysFrame,
        writable: bool,
        allocator: &mut A,
    ) -> (r: Result<(), MapError>)
        requires
            old(self).wf(),
            page.wf(),
        ensures
            final(self).wf(),
            final(self).physical_memory_offset == old(self).physical_memory_offset,
            final(self).l4_frame == old(self).l4_frame,
            r == old(self).spec_map_outcome(page, frame, old(allocator).spec_remaining()),
            r is Ok ==> final(self).spec_translate(page) == Some(frame.start_address),
            r is Ok ==> final(allocator).spec_remaining() == old(allocator).spec_remaining().skip(
                old(self).spec_missing_tables(page),
            ),
            old(self).spec_translate(page) == Some(frame.start_address) ==> *final(self)
                == *old(self) && final(allocator).spec_remaining() == old(
                allocator,
            ).spec_remaining(),
            r == Err::<(), MapError>(MapError::PageAlreadyMapped) ==> *final(self) == *old(self)
                && final(allocator).spec_remaining() == old(allocator).spec_remaining(),
            r == Err::<(), MapError>(MapError::FrameAllocationFailed) ==> final(allocator)
                .spec_remaining().len() == 0,
            r is Err ==> forall|p: Page|
                #[trigger] final(self).spec_translate(p) == old(self).spec_translate(p),
            forall|p: Page|
                p.wf() && p.start_address != page.start_address ==> #[trigger] final(self)
                    .spec_translate(p) == old(self).spec_translate(p),
    {
        let ghost s0 = *old(self);
        let ghost a0 = old(allocator).spec_remaining();
        let i4 = page.l4_index();
        let i3 = page.l3_index();
        let i2 = page.l2_index();
        let i1 = page.l1_index();
        proof {
            lemma_index_range(page);
            assert(a0.skip(0) =~= a0);
        }
        // level 4 -> 3
        let r3 = self.descend(0, i4, allocator);
        let t3 = match r3 {
            Ok(n) => n,
            Err(e) => {
                proof {
                    assert(s0.entry_at(0, i4 as int) is Absent);
                    assert(s0.spec_translate(page) is None);
                    assert(s0.spec_missing_tables(page) == 3);
                    assert(a0.len() == 0);
                }
                return Err(e);
            },
        };
        let ghost s1 = *self;
        let ghost a1 = allocator.spec_remaining();
        let ghost c1: int = if s0.entry_at(0, i4 as int) is Table {
            0
        } else {
            1
        };
        proof {
            if s0.entry_at(0, i4 as int) is Table {
                assert(s1 == s0 && a1 == a0);
            } else {
                assert(s0.spec_translate(page) is None);
                assert(s0.spec_missing_tables(page) == 3);
                assert(s1.spec_missing_tables(page) == 2);
                assert(a1 == a0.skip(1) && a0.len() >= 1);
            }
            assert(s1.levels@[t3 as int] == 3);
            assert(s0.spec_missing_tables(page) == s1.spec_missing_tables(page) + c1);
        }
        // level 3 -> 2
        let r2 = self.descend(t3, i3, allocator);
        let t2 = match r2 {
            Ok(n) => n,
            Err(e) => {
                proof {
                    assert(s1.entry_at(t3 as int, i3 as int) is Absent);
                    assert(s1.spec_missing_tables(page) == 2);
                    assert(a1.len() == 0);
                    assert(a0.len() == c1);
                    assert(s0.spec_missing_tables(page) == 2 + c1);
                    if c1 == 0 {
                        assert(s0.spec_translate(page) is None);
                    }
                }
                return Err(e);
            },
        };
        let ghost s2 = *self;
        let ghost a2 = allocator.spec_remaining();
        let ghost c2: int = if s1.entry_at(t3 as int, i3 as int) is Table {
            c1
        } else {
            c1 + 1
        };
        proof {
            assert(s2.entry_at(0, i4 as int) == s1.entry_at(0, i4 as int));
            if s1.entry_at(t3 as int, i3 as int) is Table {
                assert(s2 == s1 && a2 == a1);
            } else {
                assert(s1.spec_missing_tables(page) == 2);
                assert(s2.spec_missing_tables(page) == 1);
                assert(a2 == a1.skip(1) && a1.len() >= 1);
                assert(a2 =~= a0.skip(c2));
                assert(s0.spec_translate(page) is None);
            }
            assert(s2.levels@[t2 as int] == 2);
            assert(s2.levels@[t3 as int] == 3);
            assert(a2 == a0.skip(c2) && a0.len() >= c2);
            assert(s0.spec_missing_tables(page) == s2.spec_missing_tables(page) + c2);
            assert(c2 == 0 ==> s2 == s0);
            assert(c2 > 0 ==> s0.spec_translate(page) is None);
        }
        // level 2 -> 1
        let r1 = self.descend(t2, i2, allocator);
        let t1 = match r1 {
            Ok(n) => n,
            Err(e) => {
                proof {
                    assert(s2.entry_at(t2 as int, i2 as int) is Absent);
                    assert(s2.spec_missing_tables(page) == 1);
                    assert(a2.len() == 0);
                    assert(a0.len() == c2);
                    assert(s0.spec_missing_tables(page) == 1 + c2);
                    if c2 == 0 {
                        assert(s0.spec_translate(page) is None);
                    }
                }
                return Err(e);
            },
        };
        let ghost s3 = *self;
        let ghost a3 = allocator.spec_remaining();
        let ghost c3: int = if s2.entry_at(t2 as int, i2 as int) is Table {
            c2
        } else {
            c2 + 1
        };
        proof {
            assert(s3.entry_at(0, i4 as int) == s2.entry_at(0, i4 as int));
            assert(s3.entry_at(t3 as int, i3 as int) == s2.entry_at(t3 as int, i3 as int));
            if s2.entry_at(t2 as int, i2 as int) is Table {
                assert(s3 == s2 && a3 == a2);
            } else {
                assert(s2.spec_missing_tables(page) == 1);
                assert(s3.spec_missing_tables(page) == 0);
                assert(a3 == a2.skip(1) && a2.len() >= 1);
                assert(a3 =~= a0.skip(c3));
                assert(s0.spec_translate(page) is None);
            }
            assert(s3.levels@[t1 as int] == 1);
            assert(s3.levels@[t2 as int] == 2);
            assert(s3.levels@[t3 as int] == 3);
            assert(a3 == a0.skip(c3) && a0.len() >= c3);
            assert(s0.spec_missing_tables(page) == s3.spec_missing_tables(page) + c3);
            assert(s3.spec_missing_tables(page) == 0);
            assert(s0.spec_missing_tables(page) == c3);
            assert(c3 == 0 ==> s3 == s0);
            assert(c3 > 0 ==> s0.spec_translate(page) is None);
        }
        // leaf
        let el = self.entries.len();
        proof {
            let ghost ln = s3.levels@.len() as int;
            assert(t1 * 512 + i1 < ln * 512) by (nonlinear_arith)
                requires
                    (t1 as int) < ln,
                    i1 < 512,
            ;
            assert(s3.entries@.len() == ln * 512);
            assert(t1 * 512 + i1 < el);
        }
        let j = t1 * 512 + i1;
        let e = self.entries[j];
        proof {
            assert(e == s3.entry_at(t1 as int, i1 as int));
            assert(s3.wf_entry(t1 as int, i1 as int));
        }
        match e {
            PageTableEntry::Table { .. } => {
                proof {
                    assert(false);
                }
                Err(MapError::FrameAllocationFailed)
            },
            PageTableEntry::Frame { addr, writable: _ } => {
                proof {
                    assert(s3.spec_translate(page) == Some(addr));
                    assert(s0.spec_translate(page) == Some(addr));
                    assert(c3 == 0 && s3 == s0 && a3 == a0);
                }
                if addr == frame.start_address {
                    Ok(())
                } else {
                    Err(MapError::PageAlreadyMapped)
                }
            },
            PageTableEntry::Absent => {
                proof {
                    assert(s3.spec_translate(page) is None);
                    assert(s0.spec_translate(page) is None);
                }
                self.entries[j] = PageTableEntry::Frame {
                    addr: frame.start_address,
                    writable,
                };
                proof {
                    assert(self.entries@ =~= s3.entries@.update(
                        t1 as int * 512 + page.spec_l1_index(),
                        PageTableEntry::Frame { addr: frame.start_address, writable },
                    ));
                    lemma_leaf_update(s3, *self, t3, t2, t1, page, frame.start_address, writable);
                }
                Ok(())
            },
        }
    }

    /// Walk the hierarchy for `page`: the physical address it maps to, or
    /// `None` if its path is broken anywhere.
    pub fn translate_page(&self, page: Page) -> (r: Option<u64>)
        requires
            self.wf(),
        ensures
            r == self.spec_translate(page),
    {
        let i4 = page.l4_index();
        let i3 = page.l3_index();
        let i2 = page.l2_index();
        let i1 = page.l1_index();
        let el = self.entries.len();
        proof {
            assert(self.levels@.len() * 512 >= 1 * 512) by (nonlinear_arith)
                requires
                    self.levels@.len() >= 1,
            ;
        }
        let e4 = self.entries[i4];
        proof {
            assert(e4 == self.entry_at(0, i4 as int));
            assert(self.wf_entry(0, i4 as int));
        }
        match e4 {
            PageTableEntry::Table { addr: _, index: t3 } => {
                proof {
                    assert((t3 as int) < self.levels@.len());
                    assert(t3 * 512 + i3 < self.levels@.len() * 512) by (nonlinear_arith)
                        requires
                            (t3 as int) < self.levels@.len(),
                            i3 < 512,
                    ;
                    assert(t3 * 512 + i3 < el);
                }
                let e3 = self.entries[t3 * 512 + i3];
                proof {
                    assert(e3 == self.entry_at(t3 as int, i3 as int));
                    assert(self.wf_entry(t3 as int, i3 as int));
                }
                match e3 {
                    PageTableEntry::Table { addr: _, index: t2 } => {
                        proof {
                            assert((t2 as int) < self.levels@.len());
                            assert(t2 * 512 + i2 < self.levels@.len() * 512) by (nonlinear_arith)
                                requires
                                    (t2 as int) < self.levels@.len(),
                                    i2 < 512,
                            ;
                            assert(t2 * 512 + i2 < el);
                        }
                        let e2 = self.entries[t2 * 512 + i2];
                        proof {
                            assert(e2 == self.entry_at(t2 as int, i2 as int));
                            assert(self.wf_entry(t2 as int, i2 as int));
                        }
                        match e2 {
                            PageTableEntry::Table { addr: _, index: t1 } => {
                                proof {
                                    assert((t1 as int) < self.levels@.len());
                                    assert(t1 * 512 + i1 < self.levels@.len() * 512)
                                        by (nonlinear_arith)
                                        requires
                                            (t1 as int) < self.levels@.len(),
                                            i1 < 512,
                                    ;
                                    assert(t1 * 512 + i1 < el);
                                }
                                let e1 = self.entries[t1 * 512 + i1];
                                proof {
                                    assert(e1 == self.entry_at(t1 as int, i1 as int));
                                }
                                match e1 {
                                    PageTableEntry::Frame { addr, writable: _ } => Some(addr),
                                    _ => None,
                                }
                            },
                            _ => None,
                        }
                    },
                    _ => None,
                }
            },
            _ => None,
        }
    }

    /// Where a physical frame is visible in virtual memory: pure address
    /// arithmetic, the frame's start plus the fixed physical-memory
    /// offset. Total; the offset mapping covers all of physical memory.
    pub fn translate_physical(&self, frame: PhysFrame) -> (r: u64)
        requires
            frame.start_address + self.physical_memory_offset <= u64::MAX,
        ensures
            r == frame.start_address + self.physical_memory_offset,
    {
        frame.start_address + self.physical_memory_offset
    }
}

/// Physical address of the text-mode display buffer, the fixed example
/// target of the demonstration mapping.
pub const VGA_BUFFER_ADDRESS: u64 = 0xb8000;

/// Map `page` to the frame backing the text-mode display, present and
/// writable, allocating intermediate tables from `frame_allocator`. The
/// failure cases — allocator exhaustion while a table is missing, or the
/// page already mapped elsewhere — are propagated for the caller to treat
/// as fatal.
pub fn create_example_mapping<A: FrameAllocator>(
    page: Page,
    mapper: &mut Mapper,
    frame_allocator: &mut A,
) -> (r: Result<(), MapError>)
    requires
        old(mapper).wf(),
        page.wf(),
    ensures
        final(mapper).wf(),
        r == old(mapper).spec_map_outcome(
            page,
            PhysFrame { start_address: VGA_BUFFER_ADDRESS },
            old(frame_allocator).spec_remaining(),
        ),
        r is Ok ==> final(mapper).spec_translate(page) == Some(VGA_BUFFER_ADDRESS),
        r is Err ==> forall|p: Page|
            #[trigger] final(mapper).spec_translate(p) == old(mapper).spec_translate(p),
        forall|p: Page|
            p.wf() && p.start_address != page.start_address ==> #[trigger] final(mapper)
                .spec_translate(p) == old(mapper).spec_translate(p),
{
    let frame = PhysFrame::containing_address(VGA_BUFFER_ADDRESS);
    proof {
        assert(frame.start_address == VGA_BUFFER_ADDRESS);
    }
    mapper.map_to(page, frame, true, frame_allocator)
}

/// Mapping the same page twice: a second request with a different frame
/// is an aliasing conflict whatever frames the allocator still holds,
/// while repeating the request with the same frame succeeds and leaves
/// the translation as it was.
pub proof fn lemma_remap_conflict(
    m: Mapper,
    page: Page,
    f1: PhysFrame,
    f2: PhysFrame,
    avail: Seq<u64>,
)
    requires
        m.wf(),
        m.spec_translate(page) == Some(f1.start_address),
    ensures
        m.spec_map_outcome(page, f1, avail) == Ok::<(), MapError>(()),
        f2.start_address != f1.start_address ==> m.spec_map_outcome(page, f2, avail) == Err::<
            (),
            MapError,
        >(MapError::PageAlreadyMapped),
{
}

} // verus!
