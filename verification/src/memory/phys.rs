//! The physical frame allocator: one chunk with a bitmap for each usable
//! area of the memory map.

use vstd::prelude::*;
use crate::memory::addr::{
    align_up_spec,
    lemma_align_bounds,
    round_up,
    PageSize,
    PhysFrame,
    FRAME_SIZE,
    HUGE_FRAME_SIZE,
    PHYSICAL_LIMIT,
};
use crate::memory::area::{
    get_usable_areas,
    lemma_usable_area,
    lemma_usable_areas,
    usable_area,
    usable_areas,
    Area,
    MemoryRegion,
};
use crate::meta::{kernel_end, kernel_offset, KernelImage};
use crate::memory::bitmap::{
    all_clear,
    all_set,
    count_clear,
    is_first_clear,
    lemma_count_clear_update,
    lemma_count_clear_zero,
    Bitmap,
};

verus! {

/// Number of bytes that the header of a chunk takes in the metadata region:
/// four words of eight bytes.
pub const CHUNK_HEADER_SIZE: u64 = 32;

/// What the view of a chunk holds: the address of its first frame and, for
/// each of its frames, whether the frame is allocated.
pub struct ChunkView {
    pub base: u64,
    pub flags: Seq<bool>,
}

impl ChunkView {
    /// The address just past the last frame of the chunk.
    pub open spec fn end(self) -> int {
        self.base + self.flags.len() * FRAME_SIZE
    }

    /// The address of frame `i` of the chunk.
    pub open spec fn frame(self, i: int) -> int {
        self.base + i * FRAME_SIZE
    }

    /// The chunk starts at a frame boundary and ends inside physical memory.
    pub open spec fn valid(self) -> bool {
        &&& self.base % FRAME_SIZE == 0
        &&& self.end() <= PHYSICAL_LIMIT
    }

    /// Whether the address lies in one of the chunk's frames.
    pub open spec fn holds(self, address: int) -> bool {
        self.base <= address < self.end()
    }
}

/// The chunks are valid, and each ends before the next one starts.
pub open spec fn ordered(view: Seq<ChunkView>) -> bool {
    &&& forall|c: int| 0 <= c < view.len() ==> (#[trigger] view[c]).valid()
    &&& forall|c: int, d: int| 0 <= c < d < view.len() ==> (#[trigger] view[c]).end() <= (
    #[trigger] view[d]).base
}

/// Frame `i` of chunk `c` is the first free frame: every chunk before `c` is
/// full, and `i` is the lowest free frame of chunk `c`.
pub open spec fn is_first_free(view: Seq<ChunkView>, c: int, i: int) -> bool {
    &&& 0 <= c < view.len()
    &&& forall|k: int| 0 <= k < c ==> all_set(#[trigger] view[k].flags)
    &&& is_first_clear(view[c].flags, i)
}

/// No chunk has a free frame.
pub open spec fn saturated(view: Seq<ChunkView>) -> bool {
    forall|k: int| 0 <= k < view.len() ==> all_set(#[trigger] view[k].flags)
}

/// The chunk and the place of the first free frame, if any frame is free.
pub open spec fn first_free(view: Seq<ChunkView>) -> Option<(int, int)> {
    if exists|c: int, i: int| is_first_free(view, c, i) {
        Some(choose|c: int, i: int| is_first_free(view, c, i))
    } else {
        None
    }
}

/// The chunks with the flag of frame `i` of chunk `c` written.
pub open spec fn mark(view: Seq<ChunkView>, c: int, i: int, value: bool) -> Seq<ChunkView> {
    view.update(c, ChunkView { base: view[c].base, flags: view[c].flags.update(i, value) })
}

/// The address that the next allocation returns, if any frame is free.
pub open spec fn next_address(view: Seq<ChunkView>) -> Option<int> {
    match first_free(view) {
        Some((c, i)) => Some(view[c].frame(i)),
        None => None,
    }
}

/// The chunks after the next allocation.
pub open spec fn allocate(view: Seq<ChunkView>) -> Seq<ChunkView> {
    match first_free(view) {
        Some((c, i)) => mark(view, c, i, true),
        None => view,
    }
}

/// Whether one of the chunks tracks the frame at the address.
pub open spec fn tracks(view: Seq<ChunkView>, address: int) -> bool {
    exists|c: int| 0 <= c < view.len() && (#[trigger] view[c]).holds(address)
}

/// The chunk that tracks the address.
pub open spec fn owner(view: Seq<ChunkView>, address: int) -> int {
    choose|c: int| 0 <= c < view.len() && (#[trigger] view[c]).holds(address)
}

/// The chunks after the frame at the address was given back.
pub open spec fn release(view: Seq<ChunkView>, address: int) -> Seq<ChunkView> {
    let c = owner(view, address);
    mark(view, c, (address - view[c].base) / FRAME_SIZE as int, false)
}

/// The number of free frames in all chunks.
pub open spec fn free_frames(view: Seq<ChunkView>) -> nat
    decreases view.len(),
{
    if view.len() == 0 {
        0
    } else {
        free_frames(view.drop_last()) + count_clear(view.last().flags)
    }
}

/// The number of frames in all chunks.
pub open spec fn total_frames(view: Seq<ChunkView>) -> nat
    decreases view.len(),
{
    if view.len() == 0 {
        0
    } else {
        total_frames(view.drop_last()) + view.last().flags.len()
    }
}

/// Every tracked frame below the limit is allocated.
pub open spec fn reserved_below(view: Seq<ChunkView>, limit: int) -> bool {
    forall|c: int, i: int|
        0 <= c < view.len() && 0 <= i < view[c].flags.len() && view[c].frame(i) < limit
            ==> #[trigger] view[c].flags[i]
}

/// There is at most one first free frame.
pub proof fn lemma_first_free_unique(view: Seq<ChunkView>, c: int, i: int)
    requires
        is_first_free(view, c, i),
    ensures
        first_free(view) == Some((c, i)),
        !saturated(view),
{
    let (d, j) = choose|d: int, j: int| is_first_free(view, d, j);
    if d < c {
        assert(all_set(view[d].flags));
    }
    if c < d {
        assert(all_set(view[c].flags));
    }
    assert(d == c);
    if j < i {
        assert(view[c].flags[j]);
    }
    if i < j {
        assert(view[c].flags[i]);
    }
}

/// Where every chunk is full there is no first free frame.
pub proof fn lemma_saturated(view: Seq<ChunkView>)
    requires
        saturated(view),
    ensures
        first_free(view).is_none(),
{
    if exists|c: int, i: int| is_first_free(view, c, i) {
        let (c, i) = choose|c: int, i: int| is_first_free(view, c, i);
        assert(all_set(view[c].flags));
    }
}

/// Writing one flag changes the number of free frames by what it changes in
/// its chunk.
pub proof fn lemma_free_frames_mark(view: Seq<ChunkView>, c: int, i: int, value: bool)
    requires
        0 <= c < view.len(),
        0 <= i < view[c].flags.len(),
    ensures
        view[c].flags[i] == value ==> free_frames(mark(view, c, i, value)) == free_frames(view),
        !view[c].flags[i] && value ==> free_frames(mark(view, c, i, value)) == free_frames(view)
            - 1,
        view[c].flags[i] && !value ==> free_frames(mark(view, c, i, value)) == free_frames(view)
            + 1,
        total_frames(mark(view, c, i, value)) == total_frames(view),
    decreases view.len(),
{
    let marked = mark(view, c, i, value);
    if c == view.len() - 1 {
        assert(marked.drop_last() =~= view.drop_last());
        lemma_count_clear_update(view[c].flags, i, value);
    } else {
        assert(marked.drop_last() =~= mark(view.drop_last(), c, i, value));
        lemma_free_frames_mark(view.drop_last(), c, i, value);
    }
}

/// No frame is free exactly when every chunk is full.
pub proof fn lemma_free_frames_zero(view: Seq<ChunkView>)
    ensures
        free_frames(view) == 0 <==> saturated(view),
        free_frames(view) <= total_frames(view),
    decreases view.len(),
{
    if view.len() > 0 {
        lemma_free_frames_zero(view.drop_last());
        lemma_count_clear_zero(view.last().flags);
        if saturated(view) {
            assert forall|k: int| 0 <= k < view.drop_last().len() implies all_set(
                #[trigger] view.drop_last()[k].flags,
            ) by {
                assert(all_set(view[k].flags));
            }
            assert(all_set(view[view.len() - 1].flags));
        }
        if free_frames(view) == 0 {
            assert forall|k: int| 0 <= k < view.len() implies all_set(#[trigger] view[k].flags) by {
                if k < view.len() - 1 {
                    assert(all_set(view.drop_last()[k].flags));
                }
            }
        }
    }
}

/// Among ordered chunks an address lies in one chunk at most.
pub proof fn lemma_owner(view: Seq<ChunkView>, c: int, address: int)
    requires
        ordered(view),
        0 <= c < view.len(),
        view[c].holds(address),
    ensures
        tracks(view, address),
        owner(view, address) == c,
{
    let d = owner(view, address);
    if d < c {
        assert(view[d].end() <= view[c].base);
    }
    if c < d {
        assert(view[c].end() <= view[d].base);
    }
}

/// Whether the tracked frame at the address is allocated.
pub open spec fn allocated(view: Seq<ChunkView>, address: int) -> bool {
    let c = owner(view, address);
    view[c].flags[(address - view[c].base) / FRAME_SIZE as int]
}

/// The chunks with every frame below the limit marked allocated.
pub open spec fn reserve(view: Seq<ChunkView>, limit: int) -> Seq<ChunkView> {
    Seq::new(
        view.len(),
        |c: int|
            ChunkView {
                base: view[c].base,
                flags: Seq::new(
                    view[c].flags.len(),
                    |i: int| view[c].flags[i] || view[c].frame(i) < limit,
                ),
            },
    )
}

/// Where every frame below a limit is allocated, so is every frame below a
/// lower limit.
pub proof fn lemma_reserved_lower(view: Seq<ChunkView>, limit: int, lower: int)
    requires
        reserved_below(view, limit),
        lower <= limit,
    ensures
        reserved_below(view, lower),
{
}

/// Ordered chunks hold no more frames than lie below the end of the last
/// chunk.
pub proof fn lemma_total_frames_bounded(view: Seq<ChunkView>)
    requires
        ordered(view),
    ensures
        view.len() == 0 ==> total_frames(view) == 0,
        view.len() > 0 ==> total_frames(view) * FRAME_SIZE <= view.last().end(),
        total_frames(view) * FRAME_SIZE <= PHYSICAL_LIMIT,
    decreases view.len(),
{
    if view.len() > 0 {
        let before = view.drop_last();
        assert(ordered(before)) by {
            assert forall|c: int| 0 <= c < before.len() implies (#[trigger] before[c]).valid() by {
                assert(view[c].valid());
            }
            assert forall|c: int, d: int| 0 <= c < d < before.len() implies (
            #[trigger] before[c]).end() <= (#[trigger] before[d]).base by {
                assert(view[c].end() <= view[d].base);
            }
        }
        lemma_total_frames_bounded(before);
        assert(view[view.len() - 1].valid());
        if before.len() > 0 {
            assert(view[before.len() - 1].end() <= view[view.len() - 1].base);
            assert(before.last() == view[before.len() - 1]);
        }
        assert(total_frames(view) * FRAME_SIZE == total_frames(before) * FRAME_SIZE
            + view.last().flags.len() * FRAME_SIZE) by (nonlinear_arith)
            requires
                total_frames(view) == total_frames(before) + view.last().flags.len(),
        ;
    }
}

/// The number of frames in an area.
pub open spec fn area_frames(area: Area) -> int {
    (area.end - area.start) / FRAME_SIZE as int
}

/// The number of bytes in the bitmap of an area: one bit for each frame,
/// rounded up to whole bytes.
pub open spec fn bitmap_bytes(area: Area) -> int {
    (area_frames(area) + 7) / 8
}

/// The number of bytes that the headers and bitmaps of the areas take.
pub open spec fn metadata_bytes(areas: Seq<Area>) -> int
    decreases areas.len(),
{
    if areas.len() == 0 {
        0
    } else {
        metadata_bytes(areas.drop_last()) + CHUNK_HEADER_SIZE + bitmap_bytes(areas.last())
    }
}

/// Where the header of chunk `k` lies in the metadata region: behind the
/// headers and bitmaps of the chunks before it.
pub open spec fn chunk_offset(areas: Seq<Area>, k: int) -> int {
    metadata_bytes(areas.take(k))
}

/// The size of the metadata region: what the headers and bitmaps take,
/// rounded up to a huge page.
pub open spec fn metadata_size(areas: Seq<Area>) -> int {
    align_up_spec(metadata_bytes(areas), HUGE_FRAME_SIZE as int)
}

/// The chunks of a new allocator: one for each area, every frame free.
pub open spec fn fresh(areas: Seq<Area>) -> Seq<ChunkView> {
    Seq::new(
        areas.len(),
        |k: int|
            ChunkView {
                base: areas[k].start,
                flags: Seq::new(area_frames(areas[k]) as nat, |i: int| false),
            },
    )
}

/// Whether an allocator can be laid out for the areas with its metadata at
/// `base`: there is an area, the areas lie in physical memory in rising
/// order without overlap, each bitmap can be indexed, and the metadata
/// region ends inside the address space.
pub open spec fn plannable(areas: Seq<Area>, base: int) -> bool {
    &&& areas.len() > 0
    &&& forall|k: int|
        0 <= k < areas.len() ==> (#[trigger] areas[k]).end <= PHYSICAL_LIMIT && area_frames(areas[k])
            + 7 <= usize::MAX
    &&& forall|k: int|
        0 <= k < areas.len() - 1 ==> (#[trigger] areas[k]).end <= areas[k + 1].start
    &&& base + metadata_size(areas) <= u64::MAX
}

/// Each area is made of whole frames and holds at least one.
pub open spec fn whole(areas: Seq<Area>) -> bool {
    forall|k: int|
        0 <= k < areas.len() ==> {
            &&& (#[trigger] areas[k]).start % FRAME_SIZE == 0
            &&& areas[k].end % FRAME_SIZE == 0
            &&& areas[k].start + FRAME_SIZE <= areas[k].end
        }
}

/// The usable areas of a memory map are whole.
pub proof fn lemma_usable_whole(regions: Seq<MemoryRegion>)
    ensures
        whole(usable_areas(regions, PageSize::Size4KiB)),
{
    let areas = usable_areas(regions, PageSize::Size4KiB);
    lemma_usable_areas(regions, PageSize::Size4KiB);
    assert forall|k: int| 0 <= k < areas.len() implies {
        &&& (#[trigger] areas[k]).start % FRAME_SIZE == 0
        &&& areas[k].end % FRAME_SIZE == 0
        &&& areas[k].start + FRAME_SIZE <= areas[k].end
    } by {
        let r = choose|r: int|
            0 <= r < regions.len() && usable_area(regions[r], PageSize::Size4KiB) == Some(areas[k]);
        lemma_usable_area(regions[r], PageSize::Size4KiB);
    }
}

/// The headers and bitmaps of the first areas take no more than those of
/// all areas, and each area adds its header and its bitmap.
pub proof fn lemma_metadata_take(areas: Seq<Area>, k: int)
    requires
        whole(areas),
        0 <= k <= areas.len(),
    ensures
        0 <= chunk_offset(areas, k) <= metadata_bytes(areas),
        k < areas.len() ==> chunk_offset(areas, k + 1) == chunk_offset(areas, k)
            + CHUNK_HEADER_SIZE + bitmap_bytes(areas[k]),
        k < areas.len() ==> bitmap_bytes(areas[k]) >= 1,
    decreases areas.len() - k,
{
    if k < areas.len() {
        assert(areas.take(k + 1).drop_last() =~= areas.take(k));
        assert(areas[k].start + FRAME_SIZE <= areas[k].end);
        lemma_metadata_take(areas, k + 1);
        lemma_metadata_nonnegative(areas, k);
    } else {
        assert(areas.take(k) =~= areas);
        lemma_metadata_nonnegative(areas, k);
    }
}

/// The headers and bitmaps of whole areas take no negative number of
/// bytes.
pub proof fn lemma_metadata_nonnegative(areas: Seq<Area>, k: int)
    requires
        whole(areas),
        0 <= k <= areas.len(),
    ensures
        0 <= chunk_offset(areas, k),
    decreases k,
{
    if k > 0 {
        assert(areas.take(k).drop_last() =~= areas.take(k - 1));
        assert(areas[k - 1].start + FRAME_SIZE <= areas[k - 1].end);
        lemma_metadata_nonnegative(areas, k - 1);
    }
}

/// A frame that a new allocator tracks lies in one of the areas that the
/// allocator was made for.
pub proof fn lemma_tracked_in_area(areas: Seq<Area>, address: int)
    requires
        whole(areas),
        tracks(fresh(areas), address),
    ensures
        exists|k: int| 0 <= k < areas.len() && (#[trigger] areas[k]).start <= address < areas[k].end,
{
    let view = fresh(areas);
    let k = owner(view, address);
    assert(view[k].holds(address));
    assert(areas[k].start + FRAME_SIZE <= areas[k].end);
    vstd::arithmetic::div_mod::lemma_fundamental_div_mod(
        areas[k].end - areas[k].start,
        FRAME_SIZE as int,
    );
    assert(area_frames(areas[k]) * FRAME_SIZE <= areas[k].end - areas[k].start) by {
        vstd::arithmetic::div_mod::lemma_mod_bound(areas[k].end - areas[k].start, FRAME_SIZE as int);
        assert(area_frames(areas[k]) * FRAME_SIZE == FRAME_SIZE * area_frames(areas[k]))
            by (nonlinear_arith);
    }
}

/// Where each of the first `k` areas ends before the next one starts, each
/// of them ends before the last of them does.
pub proof fn lemma_rising(areas: Seq<Area>, k: int)
    requires
        whole(areas),
        0 <= k <= areas.len(),
        forall|j: int| 0 <= j < k - 1 ==> (#[trigger] areas[j]).end <= areas[j + 1].start,
    ensures
        forall|j: int| 0 <= j < k ==> (#[trigger] areas[j]).end <= areas[k - 1].end,
    decreases k,
{
    if k > 1 {
        lemma_rising(areas, k - 1);
        assert(areas[k - 2].end <= areas[k - 1].start);
        assert(areas[k - 1].start + FRAME_SIZE <= areas[k - 1].end);
    }
}

/// One chunk of the allocator: the frames of one usable area, the places
/// of its header and bitmap in the metadata region, and its bitmap.
pub struct MemoryChunk {
    num_frames: usize,
    address: u64,
    bitmap: u64,
    next: u64,
    bits: Bitmap,
}

impl View for MemoryChunk {
    type V = ChunkView;

    closed spec fn view(&self) -> ChunkView {
        ChunkView { base: self.address, flags: self.bits@ }
    }
}

impl MemoryChunk {
    /// The bitmap fits the frames, and the frames are valid.
    pub closed spec fn wf(&self) -> bool {
        &&& self.bits.wf()
        &&& self.bits.frames() == self.num_frames
        &&& self@.valid()
    }

    /// The bits of the last byte of the chunk's bitmap that track no frame.
    pub closed spec fn spare(&self) -> Seq<bool> {
        self.bits.tail()
    }

    /// The address of the chunk's bitmap in the metadata region.
    pub closed spec fn bitmap_address(&self) -> u64 {
        self.bitmap
    }

    /// The address of the next chunk's header in the metadata region, or
    /// zero for the last chunk.
    pub closed spec fn next_header(&self) -> u64 {
        self.next
    }

    /// A well-formed chunk tracks as many frames as it has flags.
    pub proof fn lemma_frames(&self)
        requires
            self.wf(),
        ensures
            self@.flags.len() == self.frames(),
    {
        self.bits.lemma_len();
    }

    /// The number of frames of the chunk.
    pub closed spec fn frames(&self) -> nat {
        self.num_frames as nat
    }

    /// A chunk of `size` free frames that start at `address`, with its
    /// bitmap at `bitmap` in the metadata region and no chunk after it.
    pub fn new(size: usize, address: u64, bitmap: u64) -> (chunk: MemoryChunk)
        requires
            size + 7 <= usize::MAX,
            address % FRAME_SIZE == 0,
            address + size * FRAME_SIZE <= PHYSICAL_LIMIT,
        ensures
            chunk.wf(),
            chunk.frames() == size,
            chunk@.base == address,
            chunk@.flags == Seq::new(size as nat, |i: int| false),
            chunk.bitmap_address() == bitmap,
            chunk.next_header() == 0,
            all_clear(chunk.spare()),
    {
        MemoryChunk { num_frames: size, address, bitmap, next: 0, bits: Bitmap::new(size) }
    }

    /// Makes the chunk one of `size` free frames that start at `address`,
    /// with its bitmap at `bitmap` and no chunk after it.
    pub fn set(&mut self, size: usize, address: u64, bitmap: u64)
        requires
            size + 7 <= usize::MAX,
            address % FRAME_SIZE == 0,
            address + size * FRAME_SIZE <= PHYSICAL_LIMIT,
        ensures
            final(self).wf(),
            final(self).frames() == size,
            final(self)@.base == address,
            final(self)@.flags == Seq::new(size as nat, |i: int| false),
            final(self).bitmap_address() == bitmap,
            final(self).next_header() == 0,
            all_clear(final(self).spare()),
    {
        self.num_frames = size;
        self.address = address;
        self.bitmap = bitmap;
        self.next = 0;
        self.bits = Bitmap::new(size);
    }

    /// The chunk's bitmap.
    pub fn bitmap(&self) -> (bits: &Bitmap)
        requires
            self.wf(),
        ensures
            bits.wf(),
            bits@ == self@.flags,
            bits.frames() == self.frames(),
            bits.tail() == self.spare(),
    {
        &self.bits
    }

    /// The number of bytes in the chunk's bitmap.
    pub fn bitmap_size(&self) -> (bytes: usize)
        requires
            self.wf(),
        ensures
            bytes == (self.frames() + 7) / 8,
    {
        self.bits.bytes()
    }

    /// The number of bytes of memory that the chunk tracks.
    pub fn size(&self) -> (bytes: u64)
        requires
            self.wf(),
        ensures
            bytes == self.frames() * FRAME_SIZE,
    {
        proof {
            self.bits.lemma_len();
        }
        self.num_frames as u64 * FRAME_SIZE
    }

    /// The address of the chunk's bitmap in the metadata region.
    pub fn bitmap_ptr(&self) -> (address: u64)
        ensures
            address == self.bitmap_address(),
    {
        self.bitmap
    }

    /// The address of the next chunk's header in the metadata region, or
    /// zero for the last chunk.
    pub fn next(&self) -> (address: u64)
        ensures
            address == self.next_header(),
    {
        self.next
    }

    /// The address of the chunk's first frame.
    pub fn address(&self) -> (address: u64)
        ensures
            address == self@.base,
    {
        self.address
    }

    /// The number of frames of the chunk.
    pub fn num_frames(&self) -> (n: usize)
        ensures
            n == self.frames(),
    {
        self.num_frames
    }
}

/// Where the metadata of an allocator lies: the virtual address and the
/// size of the metadata region and, for each chunk, the address of its
/// bitmap and the address of the next chunk's header (zero for the last).
pub struct Placement {
    pub base: u64,
    pub size: u64,
    pub chunks: Seq<(u64, u64)>,
}

/// The placement of the metadata for the areas from `base` on: each header
/// is followed by its bitmap, and each bitmap by the next header.
pub open spec fn placed(areas: Seq<Area>, base: int) -> Placement {
    Placement {
        base: base as u64,
        size: metadata_size(areas) as u64,
        chunks: Seq::new(
            areas.len(),
            |k: int|
                (
                    (base + chunk_offset(areas, k) + CHUNK_HEADER_SIZE) as u64,
                    if k + 1 < areas.len() {
                        (base + chunk_offset(areas, k + 1)) as u64
                    } else {
                        0u64
                    },
                ),
        ),
    }
}

/// Whether the areas lie in physical memory in rising order without
/// overlap, each with a bitmap that can be indexed.
fn areas_fit(areas: &Vec<Area>) -> (fit: bool)
    requires
        whole(areas@),
    ensures
        fit == {
            &&& forall|k: int|
                0 <= k < areas@.len() ==> (#[trigger] areas@[k]).end <= PHYSICAL_LIMIT
                    && area_frames(areas@[k]) + 7 <= usize::MAX
            &&& forall|k: int|
                0 <= k < areas@.len() - 1 ==> (#[trigger] areas@[k]).end <= areas@[k + 1].start
        },
{
    let mut k: usize = 0;
    while k < areas.len()
        invariant
            whole(areas@),
            k <= areas@.len(),
            forall|j: int|
                0 <= j < k ==> (#[trigger] areas@[j]).end <= PHYSICAL_LIMIT && area_frames(areas@[j])
                    + 7 <= usize::MAX,
            forall|j: int| 0 <= j < k - 1 ==> (#[trigger] areas@[j]).end <= areas@[j + 1].start,
        decreases areas@.len() - k,
    {
        let area = areas[k];
        proof {
            assert(areas@[k as int].start + FRAME_SIZE <= areas@[k as int].end);
        }
        if area.end > PHYSICAL_LIMIT || (area.end - area.start) / FRAME_SIZE > (usize::MAX - 7) as u64 {
            return false;
        }
        if k > 0 && areas[k - 1].end > area.start {
            proof {
                assert(!(areas@[k - 1].end <= areas@[k - 1 + 1].start));
            }
            return false;
        }
        k += 1;
    }
    true
}

/// The number of bytes that the headers and bitmaps of the areas take, or
/// `None` where it does not fit in 64 bits.
fn measure(areas: &Vec<Area>) -> (bytes: Option<u64>)
    requires
        whole(areas@),
    ensures
        bytes.is_some() <==> metadata_bytes(areas@) <= u64::MAX,
        bytes matches Some(b) ==> b == metadata_bytes(areas@),
{
    let mut total: u64 = 0;
    let mut k: usize = 0;
    proof {
        assert(areas@.take(0) =~= Seq::<Area>::empty());
    }
    while k < areas.len()
        invariant
            whole(areas@),
            k <= areas@.len(),
            total == chunk_offset(areas@, k as int),
        decreases areas@.len() - k,
    {
        let area = areas[k];
        proof {
            lemma_metadata_take(areas@, k as int);
            lemma_metadata_take(areas@, k + 1);
            assert(areas@[k as int].start + FRAME_SIZE <= areas@[k as int].end);
        }
        let frames: u64 = (area.end - area.start) / FRAME_SIZE;
        let bitmap: u64 = (frames + 7) / 8;
        total = match total.checked_add(CHUNK_HEADER_SIZE + bitmap) {
            Some(sum) => sum,
            None => {
                return None;
            },
        };
        k += 1;
    }
    proof {
        assert(areas@.take(k as int) =~= areas@);
    }
    Some(total)
}

/// The chunks for the areas, every frame free, with their headers and
/// bitmaps placed one after the other from `base` on.
fn lay_out(areas: &Vec<Area>, base: u64) -> (chunks: Vec<MemoryChunk>)
    requires
        whole(areas@),
        plannable(areas@, base as int),
    ensures
        chunks@.len() == areas@.len(),
        forall|j: int| 0 <= j < chunks@.len() ==> (#[trigger] chunks@[j]).wf(),
        forall|j: int| 0 <= j < chunks@.len() ==> all_clear((#[trigger] chunks@[j]).spare()),
        forall|j: int| 0 <= j < chunks@.len() ==> (#[trigger] chunks@[j])@ == fresh(areas@)[j],
        forall|j: int|
            0 <= j < chunks@.len() ==> ((#[trigger] chunks@[j]).bitmap_address(), chunks@[j].next_header())
                == placed(areas@, base as int).chunks[j],
{
    let n: usize = areas.len();
    let mut chunks: Vec<MemoryChunk> = Vec::new();
    let mut cur: u64 = base;
    let mut k: usize = 0;
    proof {
        assert(areas@.take(0) =~= Seq::<Area>::empty());
    }
    while k < n
        invariant
            n == areas@.len(),
            whole(areas@),
            plannable(areas@, base as int),
            k <= n,
            chunks@.len() == k,
            cur == base + chunk_offset(areas@, k as int),
            forall|j: int| 0 <= j < k ==> (#[trigger] chunks@[j]).wf(),
            forall|j: int| 0 <= j < k ==> all_clear((#[trigger] chunks@[j]).spare()),
            forall|j: int| 0 <= j < k ==> (#[trigger] chunks@[j])@ == fresh(areas@)[j],
            forall|j: int|
                0 <= j < k ==> ((#[trigger] chunks@[j]).bitmap_address(), chunks@[j].next_header())
                    == placed(areas@, base as int).chunks[j],
        decreases n - k,
    {
        let area = areas[k];
        proof {
            lemma_metadata_take(areas@, k as int);
            lemma_metadata_take(areas@, k + 1);
            lemma_align_bounds(metadata_bytes(areas@), HUGE_FRAME_SIZE as int);
            assert(areas@[k as int].start + FRAME_SIZE <= areas@[k as int].end);
            assert(areas@[k as int].end <= PHYSICAL_LIMIT);
        }
        let frames: u64 = (area.end - area.start) / FRAME_SIZE;
        let bitmap: u64 = cur + CHUNK_HEADER_SIZE;
        let next: u64 = bitmap + (frames + 7) / 8;
        let mut chunk = MemoryChunk::new(frames as usize, area.start, bitmap);
        if k + 1 < n {
            chunk.next = next;
        }
        chunks.push(chunk);
        cur = next;
        k += 1;
    }
    chunks
}

/// The physical frame allocator.
pub struct BitmapAllocator {
    chunks: Vec<MemoryChunk>,
    metadata_base: u64,
    metadata_size: u64,
}

impl View for BitmapAllocator {
    type V = Seq<ChunkView>;

    closed spec fn view(&self) -> Seq<ChunkView> {
        Seq::new(self.chunks@.len(), |c: int| self.chunks@[c]@)
    }
}

impl BitmapAllocator {
    /// Every chunk is well formed, and the chunks are ordered by address.
    pub closed spec fn wf(&self) -> bool {
        &&& forall|c: int| 0 <= c < self.chunks@.len() ==> (#[trigger] self.chunks@[c]).wf()
        &&& ordered(self@)
    }

    /// For each chunk, the bits of the last byte of its bitmap that track
    /// no frame.
    pub closed spec fn spare(&self) -> Seq<Seq<bool>> {
        Seq::new(self.chunks@.len(), |c: int| self.chunks@[c].spare())
    }

    /// Where the allocator's metadata lies.
    pub closed spec fn placement(&self) -> Placement {
        Placement {
            base: self.metadata_base,
            size: self.metadata_size,
            chunks: Seq::new(
                self.chunks@.len(),
                |k: int| (self.chunks@[k].bitmap_address(), self.chunks@[k].next_header()),
            ),
        }
    }

    /// The virtual address at which the metadata region starts.
    pub fn metadata_base(&self) -> (address: u64)
        ensures
            address == self.placement().base,
    {
        self.metadata_base
    }

    /// The number of bytes of the metadata region.
    pub fn metadata_size(&self) -> (bytes: u64)
        ensures
            bytes == self.placement().size,
    {
        self.metadata_size
    }

    /// The number of chunks.
    pub fn chunk_count(&self) -> (n: usize)
        ensures
            n == self@.len(),
    {
        self.chunks.len()
    }

    /// Chunk `k` of the allocator, or `None` where there are no more than
    /// `k` chunks.
    pub fn get_chunk(&self, k: usize) -> (chunk: Option<&MemoryChunk>)
        requires
            self.wf(),
        ensures
            chunk.is_some() <==> k < self@.len(),
            chunk matches Some(c) ==> {
                &&& c.wf()
                &&& c@ == self@[k as int]
                &&& c.spare() == self.spare()[k as int]
                &&& (c.bitmap_address(), c.next_header()) == self.placement().chunks[k as int]
            },
    {
        if k < self.chunks.len() {
            Some(&self.chunks[k])
        } else {
            None
        }
    }

    /// An allocator with one chunk for each usable area of the memory map,
    /// every frame free. The headers and bitmaps are laid out one after
    /// the other from the higher-half mirror of the end of the kernel
    /// image. `None` where no allocator can be laid out for the map.
    pub fn new(regions: &Vec<MemoryRegion>, image: &KernelImage) -> (pmm: Option<BitmapAllocator>)
        ensures
            ({
                let areas = usable_areas(regions@, PageSize::Size4KiB);
                let base = image@.end + image@.offset;
                &&& pmm.is_some() <==> plannable(areas, base)
                &&& pmm matches Some(p) ==> {
                    &&& p.wf()
                    &&& p@ == fresh(areas)
                    &&& p.placement() == placed(areas, base)
                    &&& p.spare().len() == areas.len()
                    &&& forall|k: int| 0 <= k < areas.len() ==> all_clear(#[trigger] p.spare()[k])
                }
            }),
    {
        let areas = get_usable_areas(regions, PageSize::Size4KiB);
        let base: u64 = kernel_end(image) + kernel_offset(image);
        proof {
            lemma_usable_whole(regions@);
        }
        if areas.len() == 0 || !areas_fit(&areas) {
            return None;
        }
        let required: u64 = match measure(&areas) {
            Some(bytes) => match round_up(bytes, PageSize::Size2MiB) {
                Some(required) => required,
                None => {
                    return None;
                },
            },
            None => {
                proof {
                    lemma_metadata_take(areas@, areas@.len() as int);
                    lemma_align_bounds(metadata_bytes(areas@), HUGE_FRAME_SIZE as int);
                }
                return None;
            },
        };
        if required > u64::MAX - base {
            return None;
        }
        let chunks = lay_out(&areas, base);
        let pmm = BitmapAllocator { chunks, metadata_base: base, metadata_size: required };
        proof {
            assert(pmm@ =~= fresh(areas@));
            assert forall|c: int, d: int| 0 <= c < d < pmm@.len() implies (#[trigger] pmm@[c]).end()
                <= (#[trigger] pmm@[d]).base by {
                lemma_rising(areas@, d);
                assert(areas@[c].end <= areas@[d - 1].end);
                assert(areas@[d - 1].end <= areas@[d].start);
                assert(areas@[c].start + FRAME_SIZE <= areas@[c].end);
                assert(pmm@[c].base + area_frames(areas@[c]) * FRAME_SIZE <= areas@[c].end);
            }
            assert forall|c: int| 0 <= c < pmm@.len() implies (#[trigger] pmm@[c]).valid() by {
                assert(chunks@[c].wf());
            }
            assert(pmm.placement().chunks =~= placed(areas@, base as int).chunks);
        }
        Some(pmm)
    }

    /// The allocator for the memory map with the kernel image and the
    /// allocator's own metadata taken out: every frame below the end of
    /// the image plus the size of the metadata region is marked allocated.
    pub fn init(regions: &Vec<MemoryRegion>, image: &KernelImage) -> (pmm: Option<BitmapAllocator>)
        ensures
            ({
                let areas = usable_areas(regions@, PageSize::Size4KiB);
                let base = image@.end + image@.offset;
                let limit = image@.end + metadata_size(areas);
                &&& pmm.is_some() <==> plannable(areas, base)
                &&& pmm matches Some(p) ==> {
                    &&& p.wf()
                    &&& p@ == reserve(fresh(areas), limit)
                    &&& reserved_below(p@, limit)
                    &&& reserved_below(p@, image@.end as int)
                    &&& p.placement() == placed(areas, base)
                    &&& p.spare().len() == areas.len()
                    &&& forall|k: int| 0 <= k < areas.len() ==> all_clear(#[trigger] p.spare()[k])
                }
            }),
    {
        match BitmapAllocator::new(regions, image) {
            Some(mut pmm) => {
                        proof {
                    let areas = usable_areas(regions@, PageSize::Size4KiB);
                    lemma_usable_whole(regions@);
                    lemma_metadata_take(areas, areas.len() as int);
                    lemma_align_bounds(metadata_bytes(areas), HUGE_FRAME_SIZE as int);
                    assert(pmm.metadata_size == pmm.placement().size);
                }
                let limit: u64 = kernel_end(image) + pmm.metadata_size;
                pmm.reserve_below(limit);
                proof {
                    lemma_reserved_lower(pmm@, limit as int, image@.end as int);
                }
                Some(pmm)
            },
            None => None,
        }
    }

    /// The chunks of a well-formed allocator are ordered.
    pub proof fn lemma_ordered(&self)
        requires
            self.wf(),
        ensures
            ordered(self@),
    {
    }

    /// Takes the first free frame: the lowest free frame of the first chunk
    /// that has one. Returns `None` only when no chunk has a free frame.
    pub fn allocate_frame(&mut self) -> (frame: Option<PhysFrame>)
        requires
            old(self).wf(),
        ensures
            final(self).wf(),
            final(self)@ == allocate(old(self)@),
            match frame {
                Some(f) => next_address(old(self)@) == Some(f.base() as int) && f.extent()
                    == PageSize::Size4KiB,
                None => next_address(old(self)@).is_none(),
            },
            frame.is_none() <==> saturated(old(self)@),
            frame.is_some() ==> free_frames(final(self)@) == free_frames(old(self)@) - 1,
            final(self).placement() == old(self).placement(),
            final(self).spare() == old(self).spare(),
    {
        let mut c: usize = 0;
        while c < self.chunks.len()
            invariant
                self.wf(),
                self@ == old(self)@,
                self.placement() == old(self).placement(),
                self.spare() == old(self).spare(),
                c <= self.chunks@.len(),
                forall|k: int| 0 <= k < c ==> all_set(#[trigger] self@[k].flags),
            decreases self.chunks@.len() - c,
        {
            let ghost before = self@;
            proof {
                self.chunks@[c as int].lemma_frames();
            }
            let taken = self.chunks[c].bits.next();
            if let Some(i) = taken {
                let address: u64 = self.chunks[c].address + (i as u64) * FRAME_SIZE;
                proof {
                    assert(self@ =~= mark(before, c as int, i as int, true));
                    assert(self.placement().chunks =~= old(self).placement().chunks);
                    assert(self.spare() =~= old(self).spare());
                    lemma_first_free_unique(before, c as int, i as int);
                    lemma_free_frames_mark(before, c as int, i as int, true);
                    assert(ordered(self@));
                    assert(address as int % FRAME_SIZE as int == 0) by {
                        vstd::arithmetic::div_mod::lemma_mod_multiples_vanish(
                            i as int,
                            before[c as int].base as int,
                            FRAME_SIZE as int,
                        );
                    }
                }
                return PhysFrame::from_start_address(address, PageSize::Size4KiB);
            }
            proof {
                assert(self@ =~= before);
                assert(self.placement().chunks =~= old(self).placement().chunks);
                    assert(self.spare() =~= old(self).spare());
            }
            c += 1;
        }
        proof {
            lemma_saturated(self@);
        }
        None
    }

    /// The chunk and the place of the frame at the address, if a chunk
    /// tracks it.
    fn locate(&self, address: u64) -> (place: Option<(usize, usize)>)
        requires
            self.wf(),
        ensures
            place.is_some() <==> tracks(self@, address as int),
            place matches Some((c, i)) ==> {
                &&& c == owner(self@, address as int)
                &&& c < self@.len()
                &&& i == (address - self@[c as int].base) / FRAME_SIZE as int
                &&& i < self@[c as int].flags.len()
            },
    {
        let mut c: usize = 0;
        while c < self.chunks.len()
            invariant
                self.wf(),
                c <= self.chunks@.len(),
                forall|k: int| 0 <= k < c ==> !(#[trigger] self@[k]).holds(address as int),
            decreases self.chunks@.len() - c,
        {
            proof {
                self.chunks@[c as int].lemma_frames();
                assert(self@[c as int].valid());
            }
            let base: u64 = self.chunks[c].address;
            let frames: u64 = self.chunks[c].num_frames as u64;
            if base <= address && (address - base) / FRAME_SIZE < frames {
                proof {
                    lemma_owner(self@, c as int, address as int);
                }
                return Some((c, ((address - base) / FRAME_SIZE) as usize));
            }
            c += 1;
        }
        None
    }

    /// Whether the allocator tracks the frame: it is a small frame that
    /// lies in one of the chunks.
    pub fn owns(&self, frame: &PhysFrame) -> (owned: bool)
        requires
            self.wf(),
        ensures
            owned == (frame.extent() == PageSize::Size4KiB && tracks(self@, frame.base() as int)),
    {
        match frame.size() {
            PageSize::Size4KiB => self.locate(frame.start_address()).is_some(),
            PageSize::Size2MiB => false,
        }
    }

    /// Whether the tracked frame is allocated.
    pub fn is_allocated(&self, frame: &PhysFrame) -> (taken: bool)
        requires
            self.wf(),
            tracks(self@, frame.base() as int),
        ensures
            taken == allocated(self@, frame.base() as int),
    {
        match self.locate(frame.start_address()) {
            Some((c, i)) => {
                proof {
                    self.chunks@[c as int].lemma_frames();
                }
                self.chunks[c].bits.is_one(i)
            },
            None => false,
        }
    }

    /// Gives a frame back: marks it free. The frame must be a small frame
    /// that the allocator tracks.
    pub fn deallocate_frame(&mut self, frame: PhysFrame)
        requires
            old(self).wf(),
            frame.extent() == PageSize::Size4KiB,
            tracks(old(self)@, frame.base() as int),
        ensures
            final(self).wf(),
            final(self)@ == release(old(self)@, frame.base() as int),
            free_frames(final(self)@) == free_frames(old(self)@) + if allocated(
                old(self)@,
                frame.base() as int,
            ) {
                1nat
            } else {
                0nat
            },
            final(self).placement() == old(self).placement(),
            final(self).spare() == old(self).spare(),
    {
        let ghost before = self@;
        match self.locate(frame.start_address()) {
            Some((c, i)) => {
                proof {
                    self.chunks@[c as int].lemma_frames();
                }
                self.chunks[c].bits.set_zero(i);
                proof {
                    assert(self@ =~= mark(before, c as int, i as int, false));
                    assert(self.placement().chunks =~= old(self).placement().chunks);
                    assert(self.spare() =~= old(self).spare());
                    lemma_free_frames_mark(before, c as int, i as int, false);
                    assert(ordered(self@));
                }
            },
            None => {},
        }
    }

    /// Marks every tracked frame whose address is below the limit as
    /// allocated, so that it is never handed out.
    pub fn reserve_below(&mut self, limit: u64)
        requires
            old(self).wf(),
        ensures
            final(self).wf(),
            final(self)@ == reserve(old(self)@, limit as int),
            reserved_below(final(self)@, limit as int),
            final(self).placement() == old(self).placement(),
            final(self).spare() == old(self).spare(),
    {
        let mut c: usize = 0;
        while c < self.chunks.len()
            invariant
                self.wf(),
                self.placement() == old(self).placement(),
                self.spare() == old(self).spare(),
                c <= self.chunks@.len(),
                self@.len() == old(self)@.len(),
                forall|k: int| 0 <= k < c ==> #[trigger] self@[k] == reserve(old(self)@, limit as int)[k],
                forall|k: int| c <= k < self@.len() ==> #[trigger] self@[k] == old(self)@[k],
            decreases self.chunks@.len() - c,
        {
            let ghost start = self@;
            proof {
                self.chunks@[c as int].lemma_frames();
                assert(self@[c as int].valid());
            }
            let base: u64 = self.chunks[c].address;
            let frames: usize = self.chunks[c].num_frames;
            let mut i: usize = 0;
            while i < frames && base + (i as u64) * FRAME_SIZE < limit
                invariant
                    self.wf(),
                    self.placement() == old(self).placement(),
                    self.spare() == old(self).spare(),
                    c < self.chunks@.len(),
                    self@.len() == start.len(),
                    i <= frames,
                    frames == start[c as int].flags.len(),
                    base == start[c as int].base,
                    start[c as int].valid(),
                    forall|k: int| 0 <= k < self@.len() && k != c ==> #[trigger] self@[k] == start[k],
                    self@[c as int].base == base,
                    self@[c as int].flags.len() == frames,
                    forall|j: int|
                        0 <= j < frames ==> #[trigger] self@[c as int].flags[j] == (start[c as int].flags[j]
                            || (j < i && start[c as int].frame(j) < limit)),
                decreases frames - i,
            {
                let ghost inner = self@;
                proof {
                    self.chunks@[c as int].lemma_frames();
                }
                self.chunks[c].bits.set_one(i);
                proof {
                    assert(self@ =~= mark(inner, c as int, i as int, true));
                    assert(self.placement().chunks =~= old(self).placement().chunks);
                    assert(self.spare() =~= old(self).spare());
                    assert(ordered(self@));
                }
                i += 1;
            }
            proof {
                let target = reserve(old(self)@, limit as int)[c as int];
                assert forall|j: int| 0 <= j < frames implies self@[c as int].flags[j]
                    == target.flags[j] by {
                    if j >= i && i < frames {
                        assert(base + i * FRAME_SIZE <= base + j * FRAME_SIZE) by (nonlinear_arith)
                            requires
                                i <= j,
                        ;
                    }
                    if j < i {
                        assert(base + j * FRAME_SIZE <= base + (i - 1) * FRAME_SIZE)
                            by (nonlinear_arith)
                            requires
                                j <= i - 1,
                        ;
                    }
                }
                assert(self@[c as int].flags =~= target.flags);
            }
            c += 1;
        }
        proof {
            assert(self@ =~= reserve(old(self)@, limit as int));
        }
    }

    /// The number of free frames in all chunks.
    pub fn free_frames(&self) -> (n: u64)
        requires
            self.wf(),
        ensures
            n == free_frames(self@),
    {
        let mut n: u64 = 0;
        let mut c: usize = 0;
        proof {
            lemma_total_frames_bounded(self@);
            lemma_free_frames_zero(self@);
        }
        while c < self.chunks.len()
            invariant
                self.wf(),
                c <= self.chunks@.len(),
                n == free_frames(self@.take(c as int)),
                total_frames(self@) * FRAME_SIZE <= PHYSICAL_LIMIT,
            decreases self.chunks@.len() - c,
        {
            proof {
                assert(self@.take(c + 1).drop_last() =~= self@.take(c as int));
                lemma_free_frames_zero(self@.take(c + 1));
                lemma_total_frames_take(self@, c + 1);
            }
            n += self.chunks[c].bits.free() as u64;
            c += 1;
        }
        proof {
            assert(self@.take(c as int) =~= self@);
        }
        n
    }

    /// The number of frames in all chunks, free or allocated.
    pub fn total_frames(&self) -> (n: u64)
        requires
            self.wf(),
        ensures
            n == total_frames(self@),
    {
        let mut n: u64 = 0;
        let mut c: usize = 0;
        proof {
            lemma_total_frames_bounded(self@);
        }
        while c < self.chunks.len()
            invariant
                self.wf(),
                c <= self.chunks@.len(),
                n == total_frames(self@.take(c as int)),
                total_frames(self@) * FRAME_SIZE <= PHYSICAL_LIMIT,
            decreases self.chunks@.len() - c,
        {
            proof {
                assert(self@.take(c + 1).drop_last() =~= self@.take(c as int));
                lemma_total_frames_take(self@, c + 1);
                self.chunks@[c as int].lemma_frames();
            }
            n += self.chunks[c].num_frames as u64;
            c += 1;
        }
        proof {
            assert(self@.take(c as int) =~= self@);
        }
        n
    }
}

/// The first chunks hold no more frames than all chunks.
pub proof fn lemma_total_frames_take(view: Seq<ChunkView>, n: int)
    requires
        0 <= n <= view.len(),
    ensures
        total_frames(view.take(n)) <= total_frames(view),
    decreases view.len() - n,
{
    if n < view.len() {
        assert(view.take(n + 1).drop_last() =~= view.take(n));
        lemma_total_frames_take(view, n + 1);
    } else {
        assert(view.take(n) =~= view);
    }
}

} // verus!
