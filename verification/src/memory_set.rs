//! Address spaces: framed regions of virtual pages, each page backed by a
//! frame of bytes owned by the region.

use vstd::prelude::*;
use crate::config::PAGE_SIZE;

verus! {

/// Permission bit: the page may be read.
pub const PERM_R: u8 = 2;
/// Permission bit: the page may be written.
pub const PERM_W: u8 = 4;
/// Permission bit: the page may be executed.
pub const PERM_X: u8 = 8;
/// Permission bit: the page is accessible from user mode.
pub const PERM_U: u8 = 16;

/// The page that holds address `addr`.
pub open spec fn spec_floor(addr: usize) -> usize {
    addr / PAGE_SIZE
}

/// The first page that starts at or after address `addr`.
pub open spec fn spec_ceil(addr: usize) -> usize {
    if addr % PAGE_SIZE == 0 {
        addr / PAGE_SIZE
    } else {
        (addr / PAGE_SIZE + 1) as usize
    }
}

/// Page number of the page that holds `addr`.
pub fn floor(addr: usize) -> (vpn: usize)
    ensures
        vpn == spec_floor(addr),
        vpn * PAGE_SIZE <= addr < (vpn + 1) * PAGE_SIZE,
{
    addr / PAGE_SIZE
}

/// Page number of the first page boundary at or after `addr`.
pub fn ceil(addr: usize) -> (vpn: usize)
    ensures
        vpn == spec_ceil(addr),
        spec_floor(addr) <= vpn <= spec_floor(addr) + 1,
        (vpn - 1) * PAGE_SIZE < addr <= vpn * PAGE_SIZE || (addr == 0 && vpn == 0),
{
    if addr % PAGE_SIZE == 0 {
        addr / PAGE_SIZE
    } else {
        addr / PAGE_SIZE + 1
    }
}

/// What a lookup in the page table yields for a mapped page.
#[derive(Clone, Copy, Debug, PartialEq, Eq, Structural)]
pub struct PageTableEntry {
    /// Whether the entry maps a frame.
    pub valid: bool,
    /// Permission bits of the mapping.
    pub perm: u8,
}

impl PageTableEntry {
    /// Whether the entry maps a frame.
    pub fn is_valid(&self) -> (r: bool)
        ensures
            r == self.valid,
    {
        self.valid
    }

    /// Whether the page may be read.
    pub fn readable(&self) -> (r: bool)
        ensures
            r == (self.perm & PERM_R != 0),
    {
        self.perm & PERM_R != 0
    }

    /// Whether the page may be written.
    pub fn writable(&self) -> (r: bool)
        ensures
            r == (self.perm & PERM_W != 0),
    {
        self.perm & PERM_W != 0
    }

    /// Whether the page may be executed.
    pub fn executable(&self) -> (r: bool)
        ensures
            r == (self.perm & PERM_X != 0),
    {
        self.perm & PERM_X != 0
    }
}

/// Mathematical model of one framed region: the half-open page range
/// `[start, end)`, its permission bits and the bytes of each of its pages.
pub struct Region {
    pub start: usize,
    pub end: usize,
    pub perm: u8,
    pub frames: Seq<Seq<u8>>,
}

impl Region {
    /// One frame of `PAGE_SIZE` bytes for each page of the range.
    pub open spec fn wf(self) -> bool {
        &&& self.start <= self.end
        &&& self.frames.len() == self.end - self.start
        &&& forall|k: int| 0 <= k < self.frames.len() ==> (#[trigger] self.frames[k]).len() == PAGE_SIZE
    }

    /// Whether page `vpn` lies in the region's range.
    pub open spec fn contains(self, vpn: usize) -> bool {
        self.start <= vpn < self.end
    }

    /// Whether the region's range is exactly `[lo, hi)`.
    pub open spec fn spans(self, lo: usize, hi: usize) -> bool {
        self.start == lo && self.end == hi
    }

    /// No page lies in both regions.
    pub open spec fn disjoint(self, other: Region) -> bool {
        ||| self.start == self.end
        ||| other.start == other.end
        ||| self.end <= other.start
        ||| other.end <= self.start
    }

    /// A fresh region over `[lo, hi)` whose frames are all zero.
    pub open spec fn fresh(lo: usize, hi: usize, perm: u8) -> Region {
        Region {
            start: lo,
            end: hi,
            perm,
            frames: Seq::new((hi - lo) as nat, |k: int| Seq::new(PAGE_SIZE as nat, |b: int| 0u8)),
        }
    }
}

/// Mathematical model of an address space: its regions in the order in which
/// they were recorded. The page table is what the regions cover.
pub struct AddressSpace {
    pub regions: Seq<Region>,
}

impl AddressSpace {
    /// Every region is well formed and no page lies in two regions.
    pub open spec fn wf(self) -> bool {
        &&& forall|i: int| 0 <= i < self.regions.len() ==> (#[trigger] self.regions[i]).wf()
        &&& forall|i: int, j: int|
            0 <= i < j < self.regions.len() ==> (#[trigger] self.regions[i]).disjoint(
                #[trigger] self.regions[j],
            )
    }

    /// Whether region `i` exists and covers page `vpn`.
    pub open spec fn covers_at(self, i: int, vpn: usize) -> bool {
        0 <= i < self.regions.len() && self.regions[i].contains(vpn)
    }

    /// Whether the page table maps page `vpn`.
    pub open spec fn is_mapped(self, vpn: usize) -> bool {
        exists|i: int| self.covers_at(i, vpn)
    }

    /// Index of the region that covers `vpn`, where one does.
    pub open spec fn region_of(self, vpn: usize) -> int {
        choose|i: int| self.covers_at(i, vpn)
    }

    /// Whether any page of `[lo, hi)` is mapped.
    pub open spec fn any_mapped(self, lo: usize, hi: usize) -> bool {
        exists|vpn: usize| lo <= vpn < hi && self.is_mapped(vpn)
    }

    /// Whether region `i` is the first recorded region spanning exactly `[lo, hi)`.
    pub open spec fn is_first_exact(self, i: int, lo: usize, hi: usize) -> bool {
        &&& 0 <= i < self.regions.len()
        &&& self.regions[i].spans(lo, hi)
        &&& forall|j: int| 0 <= j < i ==> !(#[trigger] self.regions[j]).spans(lo, hi)
    }

    /// Whether some recorded region spans exactly `[lo, hi)`.
    pub open spec fn has_exact(self, lo: usize, hi: usize) -> bool {
        exists|i: int| 0 <= i < self.regions.len() && (#[trigger] self.regions[i]).spans(lo, hi)
    }

    /// The address space with a fresh zeroed region over `[lo, hi)` recorded last.
    pub open spec fn inserted(self, lo: usize, hi: usize, perm: u8) -> AddressSpace {
        AddressSpace { regions: self.regions.push(Region::fresh(lo, hi, perm)) }
    }

    /// The address space without the first region spanning exactly `[lo, hi)`;
    /// unchanged where there is none.
    pub open spec fn removed(self, lo: usize, hi: usize) -> AddressSpace {
        if self.has_exact(lo, hi) {
            AddressSpace {
                regions: self.regions.remove(choose|i: int| self.is_first_exact(i, lo, hi)),
            }
        } else {
            self
        }
    }

    /// The bytes of mapped page `vpn`.
    pub open spec fn page(self, vpn: usize) -> Seq<u8> {
        let r = self.regions[self.region_of(vpn)];
        r.frames[vpn - r.start]
    }

    /// The byte at virtual address `va`, whose page is mapped.
    pub open spec fn byte(self, va: usize) -> u8 {
        self.page(spec_floor(va))[(va % PAGE_SIZE) as int]
    }

    /// The permission bits under which page `vpn` is mapped.
    pub open spec fn perm_of(self, vpn: usize) -> u8 {
        self.regions[self.region_of(vpn)].perm
    }

    /// Whether `other` has the same regions, whatever their frames hold.
    pub open spec fn same_layout(self, other: AddressSpace) -> bool {
        &&& self.regions.len() == other.regions.len()
        &&& forall|i: int|
            0 <= i < self.regions.len() ==> {
                &&& (#[trigger] self.regions[i]).start == other.regions[i].start
                &&& self.regions[i].end == other.regions[i].end
                &&& self.regions[i].perm == other.regions[i].perm
            }
    }

    /// Whether the page of every address in `[lo, lo + len)` is mapped.
    pub open spec fn range_mapped(self, lo: usize, len: usize) -> bool {
        forall|va: usize| lo <= va < lo + len ==> self.is_mapped(#[trigger] spec_floor(va))
    }

    /// Whether the bytes at `[lo, lo + data.len())` are those of `data`.
    pub open spec fn holds(self, lo: usize, data: Seq<u8>) -> bool {
        forall|va: usize| lo <= va < lo + data.len() ==> #[trigger] self.byte(va) == data[va - lo]
    }
}

/// One framed region of an address space together with its frames.
pub struct MapArea {
    pub start_vpn: usize,
    pub end_vpn: usize,
    pub perm: u8,
    pub frames: Vec<Vec<u8>>,
}

impl View for MapArea {
    type V = Region;

    open spec fn view(&self) -> Region {
        Region {
            start: self.start_vpn,
            end: self.end_vpn,
            perm: self.perm,
            frames: Seq::new(self.frames@.len(), |k: int| self.frames@[k]@),
        }
    }
}

/// The address space of one task.
pub struct MemorySet {
    pub areas: Vec<MapArea>,
}

impl View for MemorySet {
    type V = AddressSpace;

    open spec fn view(&self) -> AddressSpace {
        AddressSpace { regions: Seq::new(self.areas@.len(), |i: int| self.areas@[i]@) }
    }
}

impl MemorySet {
    /// The invariant of an address space, stated on its model.
    pub open spec fn wf(&self) -> bool {
        self@.wf()
    }

    /// An address space with no region.
    pub fn new_bare() -> (ms: MemorySet)
        ensures
            ms.wf(),
            ms@.regions.len() == 0,
    {
        MemorySet { areas: Vec::new() }
    }

    /// Index of the region that covers `vpn`, if any.
    pub fn find_area(&self, vpn: usize) -> (r: Option<usize>)
        ensures
            r.is_some() == self@.is_mapped(vpn),
            r.is_some() ==> self@.covers_at(r.unwrap() as int, vpn),
            self.wf() && r.is_some() ==> r.unwrap() == self@.region_of(vpn),
    {
        let mut i: usize = 0;
        while i < self.areas.len()
            invariant
                i <= self.areas.len(),
                forall|j: int| 0 <= j < i ==> !self@.covers_at(j, vpn),
            decreases self.areas.len() - i,
        {
            if self.areas[i].start_vpn <= vpn && vpn < self.areas[i].end_vpn {
                proof {
                    assert(self@.covers_at(i as int, vpn));
                    if self.wf() {
                        let c = self@.region_of(vpn);
                        assert(self@.covers_at(c, vpn));
                        if c < i {
                        } else if c > i {
                            assert(self@.regions[i as int].disjoint(self@.regions[c]));
                        }
                    }
                }
                return Some(i);
            }
            i += 1;
        }
        None
    }

    /// Looks page `vpn` up in the page table. Allocates nothing.
    pub fn translate(&self, vpn: usize) -> (r: Option<PageTableEntry>)
        ensures
            r.is_some() == self@.is_mapped(vpn),
            self.wf() && r.is_some() ==> r.unwrap() == (PageTableEntry {
                valid: true,
                perm: self@.perm_of(vpn),
            }),
            r.is_some() ==> r.unwrap().valid && exists|i: int|
                self@.covers_at(i, vpn) && r.unwrap().perm == self@.regions[i].perm,
    {
        match self.find_area(vpn) {
            Some(i) => Some(PageTableEntry { valid: true, perm: self.areas[i].perm }),
            None => None,
        }
    }

    /// Reads the byte at virtual address `va`, whose page is mapped.
    pub fn read_byte(&self, va: usize) -> (b: u8)
        requires
            self.wf(),
            self@.is_mapped(spec_floor(va)),
        ensures
            b == self@.byte(va),
    {
        let vpn: usize = floor(va);
        let found = self.find_area(vpn);
        let i: usize = found.unwrap();
        let k: usize = vpn - self.areas[i].start_vpn;
        proof {
            assert(self@.regions[i as int].wf());
            assert(self@.regions[i as int].frames[k as int].len() == PAGE_SIZE);
        }
        self.areas[i].frames[k][va % PAGE_SIZE]
    }

    /// Copies the bytes of `src` into this address space at virtual address
    /// `dst`, page by page: a destination that crosses page boundaries is
    /// served from each page's own frame. Returns the number of bytes
    /// copied, which is the length of `src`.
    pub fn write_translated_byte_buffer(&mut self, src: &Vec<u8>, dst: usize) -> (n: usize)
        requires
            old(self).wf(),
            dst + src@.len() <= usize::MAX,
            old(self)@.range_mapped(dst, src@.len() as usize),
        ensures
            n == src@.len(),
            final(self).wf(),
            final(self)@.same_layout(old(self)@),
            final(self)@.holds(dst, src@),
            forall|va: usize|
                old(self)@.is_mapped(spec_floor(va)) && !(dst <= va < dst + src@.len())
                    ==> #[trigger] final(self)@.byte(va) == old(self)@.byte(va),
    {
        let len: usize = src.len();
        let mut pos: usize = 0;
        while pos < len
            invariant
                pos <= len,
                len == src@.len(),
                dst + len <= usize::MAX,
                self.wf(),
                old(self).wf(),
                self@.same_layout(old(self)@),
                old(self)@.range_mapped(dst, len),
                forall|va: usize| dst <= va < dst + pos ==> #[trigger] self@.byte(va) == src@[va - dst],
                forall|va: usize|
                    old(self)@.is_mapped(spec_floor(va)) && !(dst <= va < dst + pos)
                        ==> #[trigger] self@.byte(va) == old(self)@.byte(va),
            decreases len - pos,
        {
            let va: usize = dst + pos;
            let vpn: usize = floor(va);
            let off: usize = va % PAGE_SIZE;
            let room: usize = PAGE_SIZE - off;
            let chunk: usize = if len - pos < room { len - pos } else { room };
            let ghost before = self@;
            proof {
                assert(old(self)@.is_mapped(spec_floor(va)));
                lemma_same_layout(before, old(self)@, vpn);
            }
            let found = self.find_area(vpn);
            let i: usize = found.unwrap();
            let k: usize = vpn - self.areas[i].start_vpn;
            proof {
                assert(before.regions[i as int].wf());
                assert(before.regions[i as int].frames[k as int].len() == PAGE_SIZE);
            }
            fill_frame(&mut self.areas[i].frames[k], off, src, pos, chunk);
            proof {
                let after = self@;
                assert(after.regions.len() == before.regions.len());
                assert forall|x: int| 0 <= x < after.regions.len() && x != i implies after.regions[x]
                    == before.regions[x] by {}
                let ra = after.regions[i as int];
                let rb = before.regions[i as int];
                assert(ra.start == rb.start && ra.end == rb.end && ra.perm == rb.perm);
                assert(ra.frames.len() == rb.frames.len());
                assert forall|y: int| 0 <= y < ra.frames.len() && y != k implies ra.frames[y]
                    == rb.frames[y] by {}
                assert(after.wf()) by {
                    assert forall|x: int| 0 <= x < after.regions.len() implies (
                    #[trigger] after.regions[x]).wf() by {
                        assert(before.regions[x].wf());
                    }
                    assert forall|x: int, y: int| 0 <= x < y < after.regions.len() implies (
                    #[trigger] after.regions[x]).disjoint(#[trigger] after.regions[y]) by {
                        assert(before.regions[x].disjoint(before.regions[y]));
                    }
                }
                assert(after.same_layout(before));
                assert(after.same_layout(old(self)@));
                assert forall|a: usize| dst <= a < dst + pos + chunk implies #[trigger] after.byte(a)
                    == src@[a - dst] by {
                    lemma_same_layout(before, old(self)@, spec_floor(a));
                    lemma_same_layout(after, before, spec_floor(a));
                    assert(old(self)@.is_mapped(spec_floor(a)));
                    let j = before.region_of(spec_floor(a));
                    assert(before.covers_at(j, spec_floor(a)));
                    if a < dst + pos {
                        assert(before.byte(a) == src@[a - dst]);
                    }
                }
                assert forall|a: usize|
                    old(self)@.is_mapped(spec_floor(a)) && !(dst <= a < dst + pos + chunk) implies
                    #[trigger] after.byte(a) == old(self)@.byte(a) by {
                    lemma_same_layout(before, old(self)@, spec_floor(a));
                    lemma_same_layout(after, before, spec_floor(a));
                    let j = before.region_of(spec_floor(a));
                    assert(before.covers_at(j, spec_floor(a)));
                    assert(before.byte(a) == old(self)@.byte(a));
                }
            }
            pos += chunk;
        }
        len
    }

    /// Records a fresh region over `[start_vpn, end_vpn)` and backs each of
    /// its pages with a zeroed frame.
    pub fn insert_framed_area(&mut self, start_vpn: usize, end_vpn: usize, perm: u8)
        requires
            old(self).wf(),
            start_vpn <= end_vpn,
            !old(self)@.any_mapped(start_vpn, end_vpn),
        ensures
            final(self).wf(),
            final(self)@ == old(self)@.inserted(start_vpn, end_vpn, perm),
    {
        let mut frames: Vec<Vec<u8>> = Vec::new();
        let mut vpn: usize = start_vpn;
        while vpn < end_vpn
            invariant
                start_vpn <= vpn <= end_vpn,
                frames@.len() == vpn - start_vpn,
                forall|k: int| 0 <= k < frames@.len() ==> (#[trigger] frames@[k])@ =~= Seq::new(PAGE_SIZE as nat, |b: int| 0u8),
            decreases end_vpn - vpn,
        {
            let frame: Vec<u8> = vec![0u8; PAGE_SIZE];
            frames.push(frame);
            vpn += 1;
        }
        let area = MapArea { start_vpn, end_vpn, perm, frames };
        proof {
            assert(area@.frames =~= Region::fresh(start_vpn, end_vpn, perm).frames);
            assert(area@ == Region::fresh(start_vpn, end_vpn, perm));
        }
        self.areas.push(area);
        proof {
            let old_space = old(self)@;
            assert(self@.regions =~= old_space.inserted(start_vpn, end_vpn, perm).regions);
            lemma_inserted_wf(old_space, start_vpn, end_vpn, perm);
        }
    }

    /// Removes the first recorded region that spans exactly the pages of
    /// `[start_va, end_va)`, frames included. Without such a region nothing
    /// changes and the answer is `false`.
    pub fn remove_framed_area(&mut self, start_va: usize, end_va: usize) -> (r: bool)
        requires
            old(self).wf(),
        ensures
            final(self).wf(),
            r == old(self)@.has_exact(spec_floor(start_va), spec_ceil(end_va)),
            final(self)@ == old(self)@.removed(spec_floor(start_va), spec_ceil(end_va)),
            !r ==> *final(self) == *old(self),
    {
        let lo = floor(start_va);
        let hi = ceil(end_va);
        let mut i: usize = 0;
        while i < self.areas.len()
            invariant
                i <= self.areas.len(),
                *self == *old(self),
                self.wf(),
                lo == spec_floor(start_va),
                hi == spec_ceil(end_va),
                forall|j: int| 0 <= j < i ==> !(#[trigger] self@.regions[j]).spans(lo, hi),
            decreases self.areas.len() - i,
        {
            if self.areas[i].start_vpn == lo && self.areas[i].end_vpn == hi {
                let _ = self.areas.remove(i);
                proof {
                    let old_space = old(self)@;
                    assert(old_space.regions[i as int].spans(lo, hi));
                    assert(old_space.is_first_exact(i as int, lo, hi));
                    let c = choose|c: int| old_space.is_first_exact(c, lo, hi);
                    assert(old_space.is_first_exact(c, lo, hi));
                    assert(c == i);
                    assert(self@.regions =~= old_space.regions.remove(i as int));
                    lemma_removed_wf(old_space, i as int);
                }
                return true;
            }
            i += 1;
        }
        false
    }
}

/// Copies `n` bytes of `src`, from index `from` on, into `frame` at offset `off`.
fn fill_frame(frame: &mut Vec<u8>, off: usize, src: &Vec<u8>, from: usize, n: usize)
    requires
        off + n <= old(frame)@.len(),
        from + n <= src@.len(),
    ensures
        final(frame)@.len() == old(frame)@.len(),
        forall|x: int| off <= x < off + n ==> final(frame)@[x] == src@[from + x - off],
        forall|x: int|
            0 <= x < old(frame)@.len() && !(off <= x < off + n) ==> final(frame)@[x] == old(frame)@[x],
{
    let mut j: usize = 0;
    while j < n
        invariant
            j <= n,
            off + n <= frame.len(),
            from + n <= src.len(),
            frame@.len() == old(frame)@.len(),
            forall|x: int| off <= x < off + j ==> frame@[x] == src@[from + x - off],
            forall|x: int|
                0 <= x < frame@.len() && !(off <= x < off + j) ==> frame@[x] == old(frame)@[x],
        decreases n - j,
    {
        frame[off + j] = src[from + j];
        j += 1;
    }
}

/// In a well-formed address space, the region that covers a page is the
/// only one that does.
pub proof fn lemma_region_of(s: AddressSpace, i: int, vpn: usize)
    requires
        s.wf(),
        s.covers_at(i, vpn),
    ensures
        s.region_of(vpn) == i,
        s.is_mapped(vpn),
{
    let c = s.region_of(vpn);
    assert(s.covers_at(c, vpn));
    if c < i {
        assert(s.regions[c].disjoint(s.regions[i]));
    } else if i < c {
        assert(s.regions[i].disjoint(s.regions[c]));
    }
}

/// Address spaces of the same layout map the same pages through the same regions.
pub proof fn lemma_same_layout(s: AddressSpace, t: AddressSpace, vpn: usize)
    requires
        s.wf(),
        t.wf(),
        s.same_layout(t),
    ensures
        s.is_mapped(vpn) == t.is_mapped(vpn),
        s.is_mapped(vpn) ==> s.region_of(vpn) == t.region_of(vpn),
{
    if s.is_mapped(vpn) {
        let i = s.region_of(vpn);
        assert(s.covers_at(i, vpn));
        assert(t.covers_at(i, vpn));
        lemma_region_of(t, i, vpn);
    }
    if t.is_mapped(vpn) {
        let i = t.region_of(vpn);
        assert(t.covers_at(i, vpn));
        assert(s.covers_at(i, vpn));
    }
}

/// Bytes that were written stay as they were when another write goes to a
/// range that does not meet theirs.
pub proof fn lemma_holds_beside_write(
    before: AddressSpace,
    after: AddressSpace,
    lo: usize,
    data: Seq<u8>,
    dst: usize,
    len: usize,
)
    requires
        before.holds(lo, data),
        before.range_mapped(lo, data.len() as usize),
        lo + data.len() <= usize::MAX,
        lo + data.len() <= dst || dst + len <= lo,
        forall|va: usize|
            before.is_mapped(spec_floor(va)) && !(dst <= va < dst + len) ==> #[trigger] after.byte(va)
                == before.byte(va),
    ensures
        after.holds(lo, data),
{
    assert forall|va: usize| lo <= va < lo + data.len() implies #[trigger] after.byte(va) == data[va
        - lo] by {
        assert(before.is_mapped(spec_floor(va)));
        assert(before.byte(va) == data[va - lo]);
    }
}

/// Recording a fresh region leaves every mapped page as it was: its bytes
/// and its permissions.
pub proof fn lemma_inserted_keeps_pages(s: AddressSpace, lo: usize, hi: usize, perm: u8, vpn: usize)
    requires
        s.wf(),
        lo <= hi,
        !s.any_mapped(lo, hi),
        s.is_mapped(vpn),
    ensures
        s.inserted(lo, hi, perm).is_mapped(vpn),
        s.inserted(lo, hi, perm).page(vpn) == s.page(vpn),
        s.inserted(lo, hi, perm).perm_of(vpn) == s.perm_of(vpn),
{
    let t = s.inserted(lo, hi, perm);
    let i = s.region_of(vpn);
    assert(s.covers_at(i, vpn));
    assert(t.regions[i] == s.regions[i]);
    assert(t.covers_at(i, vpn));
    lemma_inserted_wf(s, lo, hi, perm);
    lemma_region_of(t, i, vpn);
}

/// After a fresh region is recorded, exactly its pages are mapped besides
/// those that were, and each of its pages reads as zero.
pub proof fn lemma_inserted_maps_range(s: AddressSpace, lo: usize, hi: usize, perm: u8, vpn: usize)
    requires
        s.wf(),
        lo <= hi,
        !s.any_mapped(lo, hi),
    ensures
        s.inserted(lo, hi, perm).is_mapped(vpn) == (s.is_mapped(vpn) || lo <= vpn < hi),
        lo <= vpn < hi ==> s.inserted(lo, hi, perm).perm_of(vpn) == perm && s.inserted(
            lo,
            hi,
            perm,
        ).page(vpn) == Seq::new(PAGE_SIZE as nat, |b: int| 0u8),
{
    let t = s.inserted(lo, hi, perm);
    let n = s.regions.len() as int;
    lemma_inserted_wf(s, lo, hi, perm);
    if lo <= vpn < hi {
        assert(t.covers_at(n, vpn));
        lemma_region_of(t, n, vpn);
    }
    if s.is_mapped(vpn) {
        lemma_inserted_keeps_pages(s, lo, hi, perm, vpn);
    }
    if t.is_mapped(vpn) {
        let i = t.region_of(vpn);
        assert(t.covers_at(i, vpn));
        if i < n {
            assert(t.regions[i] == s.regions[i]);
            assert(s.covers_at(i, vpn));
        }
    }
}

/// Recording a fresh region over unmapped pages keeps an address space well formed.
pub proof fn lemma_inserted_wf(s: AddressSpace, lo: usize, hi: usize, perm: u8)
    requires
        s.wf(),
        lo <= hi,
        !s.any_mapped(lo, hi),
    ensures
        s.inserted(lo, hi, perm).wf(),
{
    let t = s.inserted(lo, hi, perm);
    let n = s.regions.len() as int;
    assert(t.regions[n].wf());
    assert forall|i: int, j: int| 0 <= i < j < t.regions.len() implies (#[trigger] t.regions[i]).disjoint(
        #[trigger] t.regions[j],
    ) by {
        if j == n {
            let r = s.regions[i];
            assert(r.wf());
            if !(r.start == r.end || lo == hi || r.end <= lo || hi <= r.start) {
                let v: usize = if r.start >= lo { r.start } else { lo };
                assert(s.covers_at(i, v));
                assert(s.is_mapped(v));
                assert(lo <= v < hi);
            }
        } else {
            assert(t.regions[i] == s.regions[i]);
            assert(t.regions[j] == s.regions[j]);
        }
    }
}

/// Dropping one region keeps an address space well formed.
pub proof fn lemma_removed_wf(s: AddressSpace, i: int)
    requires
        s.wf(),
        0 <= i < s.regions.len(),
    ensures
        (AddressSpace { regions: s.regions.remove(i) }).wf(),
{
    let t = AddressSpace { regions: s.regions.remove(i) };
    assert forall|a: int, b: int| 0 <= a < b < t.regions.len() implies (#[trigger] t.regions[a]).disjoint(
        #[trigger] t.regions[b],
    ) by {
        let a0 = if a < i { a } else { a + 1 };
        let b0 = if b < i { b } else { b + 1 };
        assert(t.regions[a] == s.regions[a0]);
        assert(t.regions[b] == s.regions[b0]);
    }
    assert forall|a: int| 0 <= a < t.regions.len() implies (#[trigger] t.regions[a]).wf() by {
        let a0 = if a < i { a } else { a + 1 };
        assert(t.regions[a] == s.regions[a0]);
    }
}

} // verus!
