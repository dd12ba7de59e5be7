//! The shared byte region that carries the ring across the domain boundary.
//!
//! Both domains address the same bytes, so the layout is a fixed binary
//! contract: two little-endian 64-bit cursors at the front of a header (head
//! at offset 0, tail at the next machine word), then one slot per message.
//! Two interchangeable backends preserve the same addressing contract: a
//! single contiguous allocation with the slots packed right after the header,
//! and a page-per-slot arrangement where the cursors take page zero and slot
//! `i` lives alone on page `i + 1`.

use vstd::bytes::{spec_u64_from_le_bytes, spec_u64_to_le_bytes, u64_from_le_bytes, u64_to_le_bytes};
use vstd::prelude::*;

verus! {

/// Allocation or mapping setup failed; fatal to session start.
#[derive(Copy, Clone, Debug, PartialEq, Eq, Structural)]
pub struct MappingFailure;

/// A mapping request against a region that was already torn down.
#[derive(Copy, Clone, Debug, PartialEq, Eq, Structural)]
pub struct NotMapped;

/// How the region arranges the header and the slot array.
#[derive(Copy, Clone, Debug, PartialEq, Eq, Structural)]
pub enum RegionLayout {
    /// Header, then the slots packed back to back.
    Contiguous { header_bytes: usize },
    /// Cursors on page zero; slot `i` alone on page `i + 1`.
    PagePerSlot { page_size: usize },
}

/// The layout parameters a second domain needs in order to address the same
/// bytes: slot `i` starts at `header_bytes + slot_stride * i`.
#[derive(Copy, Clone, Debug, PartialEq, Eq, Structural)]
pub struct RegionDescriptor {
    pub header_bytes: usize,
    pub slot_stride: usize,
    pub slot_size: usize,
    pub slot_count: usize,
    pub region_len: usize,
}

/// A byte region holding the cursor pair and the slot array, identical from
/// both domains' point of view.
pub struct SharedRegion {
    layout: RegionLayout,
    slot_size: usize,
    slot_count: usize,
    bytes: Vec<u8>,
    active: bool,
}

impl SharedRegion {
    /// Fixed byte length of every slot.
    pub closed spec fn spec_slot_size(&self) -> int {
        self.slot_size as int
    }

    /// Number of slots in the ring.
    pub closed spec fn spec_slot_count(&self) -> int {
        self.slot_count as int
    }

    /// Whether the region is still mapped (not yet torn down).
    pub closed spec fn spec_active(&self) -> bool {
        self.active
    }

    /// Bytes reserved in front of the slot array; the cursors live here.
    pub closed spec fn spec_header_bytes(&self) -> int {
        match self.layout {
            RegionLayout::Contiguous { header_bytes } => header_bytes as int,
            RegionLayout::PagePerSlot { page_size } => page_size as int,
        }
    }

    /// Distance between the starts of consecutive slots.
    pub closed spec fn spec_slot_stride(&self) -> int {
        match self.layout {
            RegionLayout::Contiguous { .. } => self.slot_size as int,
            RegionLayout::PagePerSlot { page_size } => page_size as int,
        }
    }

    /// Offset of slot `i`: the shared addressing contract of both backends.
    pub open spec fn spec_slot_offset(&self, i: int) -> int {
        self.spec_header_bytes() + self.spec_slot_stride() * i
    }

    /// Well-formed region: sane slot geometry, room for the two cursors in
    /// the header, and a backing allocation that covers every slot.
    pub closed spec fn wf(&self) -> bool {
        &&& self.slot_size >= 1
        &&& self.slot_count >= 2
        &&& match self.layout {
            RegionLayout::Contiguous { header_bytes } => {
                &&& header_bytes >= 16
                &&& self.bytes@.len() == header_bytes + self.slot_size * self.slot_count
            },
            RegionLayout::PagePerSlot { page_size } => {
                &&& page_size >= 16
                &&& self.slot_size <= page_size
                &&& self.bytes@.len() == page_size * (self.slot_count + 1)
            },
        }
    }

    /// The producer cursor, as stored in the header.
    pub closed spec fn spec_head(&self) -> u64 {
        spec_u64_from_le_bytes(self.bytes@.subrange(0, 8))
    }

    /// The consumer cursor, as stored in the header.
    pub closed spec fn spec_tail(&self) -> u64 {
        spec_u64_from_le_bytes(self.bytes@.subrange(8, 16))
    }

    /// Total byte length of the backing allocation.
    pub closed spec fn spec_region_len(&self) -> int {
        self.bytes@.len() as int
    }

    /// The payload bytes of slot `i`.
    pub closed spec fn spec_slot(&self, i: int) -> Seq<u8> {
        self.bytes@.subrange(self.spec_slot_offset(i), self.spec_slot_offset(i) + self.slot_size)
    }

    /// Slot `i` lies wholly behind the header and inside the allocation, and
    /// consecutive slots do not overlap.
    pub proof fn lemma_slot_bounds(&self, i: int)
        requires
            self.wf(),
            0 <= i < self.spec_slot_count(),
        ensures
            16 <= self.spec_header_bytes() <= self.spec_slot_offset(i),
            self.spec_slot_offset(i) + self.spec_slot_size() <= self.spec_slot_offset(i)
                + self.spec_slot_stride(),
            self.spec_slot_offset(i) + self.spec_slot_stride() <= self.spec_region_len(),
    {
        let ss = self.spec_slot_size();
        let st = self.spec_slot_stride();
        let h = self.spec_header_bytes();
        let n = self.spec_slot_count();
        assert(0 <= st * i && st * i + st <= st * n) by (nonlinear_arith)
            requires
                0 <= i < n,
                st > 0,
        ;
        match self.layout {
            RegionLayout::Contiguous { header_bytes } => {
                assert(self.bytes@.len() == h + st * n);
            },
            RegionLayout::PagePerSlot { page_size } => {
                assert(st * n + st == st * (n + 1)) by (nonlinear_arith);
                assert(self.bytes@.len() == st * (n + 1));
            },
        }
    }

    /// Distinct slots occupy disjoint byte ranges.
    pub proof fn lemma_slots_disjoint(&self, i: int, j: int)
        requires
            self.wf(),
            0 <= i < self.spec_slot_count(),
            0 <= j < self.spec_slot_count(),
            i < j,
        ensures
            self.spec_slot_offset(i) + self.spec_slot_size() <= self.spec_slot_offset(j),
    {
        let st = self.spec_slot_stride();
        assert(st * i + st <= st * j) by (nonlinear_arith)
            requires
                i < j,
                st > 0,
        ;
        assert(self.spec_slot_size() <= st);
    }

    /// The backing allocation covers at least the 16-byte cursor header.
    proof fn lemma_min_len(&self)
        requires
            self.wf(),
        ensures
            self.bytes@.len() >= self.spec_header_bytes() >= 16,
    {
        match self.layout {
            RegionLayout::Contiguous { header_bytes } => {
                assert(self.slot_size * self.slot_count >= 0) by (nonlinear_arith);
            },
            RegionLayout::PagePerSlot { page_size } => {
                assert(page_size * (self.slot_count + 1) >= page_size) by (nonlinear_arith)
                    requires
                        page_size >= 0,
                        self.slot_count >= 0,
                ;
            },
        }
    }

    /// Byte offset of slot `i`, in bounds together with the whole slot.
    fn slot_offset_exec(&self, i: usize) -> (off: usize)
        requires
            self.wf(),
            i < self.spec_slot_count(),
        ensures
            off == self.spec_slot_offset(i as int),
            off + self.spec_slot_size() <= self.spec_region_len(),
    {
        proof {
            self.lemma_slot_bounds(i as int);
        }
        let blen = self.bytes.len();
        let stride = match self.layout {
            RegionLayout::Contiguous { .. } => self.slot_size,
            RegionLayout::PagePerSlot { page_size } => page_size,
        };
        let header = match self.layout {
            RegionLayout::Contiguous { header_bytes } => header_bytes,
            RegionLayout::PagePerSlot { page_size } => page_size,
        };
        proof {
            assert(stride == self.spec_slot_stride());
            assert(header == self.spec_header_bytes());
            assert(header + stride * (i as int) + stride <= blen);
        }
        header + stride * i
    }

    /// A contiguous region sized `header_bytes + slot_size * slot_count`,
    /// with both cursors set to zero. Fails with `MappingFailure` exactly
    /// when that size does not fit the machine.
    pub fn create(slot_size: usize, slot_count: usize, header_bytes: usize) -> (r: Result<
        SharedRegion,
        MappingFailure,
    >)
        requires
            slot_size >= 1,
            slot_count >= 2,
            header_bytes >= 16,
        ensures
            r is Ok <==> header_bytes + slot_size * slot_count <= usize::MAX,
            r matches Ok(region) ==> {
                &&& region.wf()
                &&& region.spec_slot_size() == slot_size
                &&& region.spec_slot_count() == slot_count
                &&& region.spec_header_bytes() == header_bytes
                &&& region.spec_slot_stride() == slot_size
                &&& region.spec_head() == 0
                &&& region.spec_tail() == 0
                &&& region.spec_active()
            },
    {
        let data_len = match slot_size.checked_mul(slot_count) {
            Some(l) => l,
            None => {
                proof {
                    assert(header_bytes + slot_size * slot_count > usize::MAX);
                }
                return Err(MappingFailure);
            },
        };
        let total = match header_bytes.checked_add(data_len) {
            Some(t) => t,
            None => {
                return Err(MappingFailure);
            },
        };
        let bytes = vec![0u8; total];
        let mut region = SharedRegion {
            layout: RegionLayout::Contiguous { header_bytes },
            slot_size,
            slot_count,
            bytes,
            active: true,
        };
        region.store_head(0);
        region.store_tail(0);
        Ok(region)
    }

    /// A page-per-slot region: the cursor header takes page zero and each
    /// slot its own page, `page_size * (slot_count + 1)` bytes in all. Fails
    /// with `MappingFailure` exactly when that size does not fit the machine.
    pub fn create_paged(slot_size: usize, slot_count: usize, page_size: usize) -> (r: Result<
        SharedRegion,
        MappingFailure,
    >)
        requires
            slot_size >= 1,
            slot_count >= 2,
            page_size >= 16,
            slot_size <= page_size,
        ensures
            r is Ok <==> page_size * (slot_count + 1) <= usize::MAX,
            r matches Ok(region) ==> {
                &&& region.wf()
                &&& region.spec_slot_size() == slot_size
                &&& region.spec_slot_count() == slot_count
                &&& region.spec_header_bytes() == page_size
                &&& region.spec_slot_stride() == page_size
                &&& region.spec_head() == 0
                &&& region.spec_tail() == 0
                &&& region.spec_active()
            },
    {
        let pages = match slot_count.checked_add(1) {
            Some(p) => p,
            None => {
                proof {
                    assert(page_size * (slot_count + 1) > usize::MAX) by (nonlinear_arith)
                        requires
                            page_size >= 16,
                            slot_count + 1 > usize::MAX,
                    ;
                }
                return Err(MappingFailure);
            },
        };
        let total = match page_size.checked_mul(pages) {
            Some(t) => t,
            None => {
                return Err(MappingFailure);
            },
        };
        let bytes = vec![0u8; total];
        let mut region = SharedRegion {
            layout: RegionLayout::PagePerSlot { page_size },
            slot_size,
            slot_count,
            bytes,
            active: true,
        };
        region.store_head(0);
        region.store_tail(0);
        Ok(region)
    }

    /// Fixed byte length of every slot.
    pub fn slot_size(&self) -> (n: usize)
        ensures
            n == self.spec_slot_size(),
    {
        self.slot_size
    }

    /// Number of slots in the ring.
    pub fn slot_count(&self) -> (n: usize)
        ensures
            n == self.spec_slot_count(),
    {
        self.slot_count
    }

    /// The producer cursor, read from the header.
    pub fn load_head(&self) -> (v: u64)
        requires
            self.wf(),
        ensures
            v == self.spec_head(),
    {
        proof {
            self.lemma_min_len();
        }
        u64_from_le_bytes(&self.bytes[0..8])
    }

    /// The consumer cursor, read from the header.
    pub fn load_tail(&self) -> (v: u64)
        requires
            self.wf(),
        ensures
            v == self.spec_tail(),
    {
        proof {
            self.lemma_min_len();
        }
        u64_from_le_bytes(&self.bytes[8..16])
    }

    /// Publishes a new producer cursor; every other byte of the region, and
    /// the region's shape, stay as they were.
    pub fn store_head(&mut self, v: u64)
        requires
            old(self).wf(),
        ensures
            final(self).wf(),
            final(self).spec_head() == v,
            final(self).spec_tail() == old(self).spec_tail(),
            forall|i: int|
                0 <= i < old(self).spec_slot_count() ==> final(self).spec_slot(i) == old(
                    self,
                ).spec_slot(i),
            final(self).layout_unchanged(*old(self)),
    {
        let word = u64_to_le_bytes(v);
        proof {
            self.lemma_min_len();
            vstd::bytes::lemma_auto_spec_u64_to_from_le_bytes();
        }
        splice(&mut self.bytes, 0, word.as_slice());
        proof {
            self.lemma_cursor_store_frame(*old(self), 0, spec_u64_to_le_bytes(v));
        }
    }

    /// Publishes a new consumer cursor; every other byte of the region, and
    /// the region's shape, stay as they were.
    pub fn store_tail(&mut self, v: u64)
        requires
            old(self).wf(),
        ensures
            final(self).wf(),
            final(self).spec_tail() == v,
            final(self).spec_head() == old(self).spec_head(),
            forall|i: int|
                0 <= i < old(self).spec_slot_count() ==> final(self).spec_slot(i) == old(
                    self,
                ).spec_slot(i),
            final(self).layout_unchanged(*old(self)),
    {
        let word = u64_to_le_bytes(v);
        proof {
            self.lemma_min_len();
            vstd::bytes::lemma_auto_spec_u64_to_from_le_bytes();
        }
        splice(&mut self.bytes, 8, word.as_slice());
        proof {
            self.lemma_cursor_store_frame(*old(self), 8, spec_u64_to_le_bytes(v));
        }
    }

    /// Same layout, geometry, liveness and length as `other`.
    pub open spec fn layout_unchanged(&self, other: SharedRegion) -> bool {
        &&& self.spec_slot_size() == other.spec_slot_size()
        &&& self.spec_slot_count() == other.spec_slot_count()
        &&& self.spec_header_bytes() == other.spec_header_bytes()
        &&& self.spec_slot_stride() == other.spec_slot_stride()
        &&& self.spec_active() == other.spec_active()
    }

    /// Frame argument for a cursor store: writing 8 header bytes at `off`
    /// leaves every slot and the other cursor word intact.
    proof fn lemma_cursor_store_frame(&self, pre: SharedRegion, off: int, word: Seq<u8>)
        requires
            pre.wf(),
            word.len() == 8,
            off == 0 || off == 8,
            self.layout == pre.layout,
            self.slot_size == pre.slot_size,
            self.slot_count == pre.slot_count,
            self.active == pre.active,
            self.bytes@.len() == pre.bytes@.len(),
            forall|m: int|
                0 <= m < pre.bytes@.len() ==> self.bytes@[m] == (if off <= m < off + 8 {
                    word[m - off]
                } else {
                    pre.bytes@[m]
                }),
        ensures
            self.wf(),
            self.bytes@.subrange(off, off + 8) == word,
            off == 0 ==> self.spec_tail() == pre.spec_tail(),
            off == 8 ==> self.spec_head() == pre.spec_head(),
            forall|i: int|
                0 <= i < pre.spec_slot_count() ==> self.spec_slot(i) == pre.spec_slot(i),
    {
        pre.lemma_min_len();
        assert(self.bytes@.subrange(off, off + 8) =~= word);
        if off == 0 {
            assert(self.bytes@.subrange(8, 16) =~= pre.bytes@.subrange(8, 16));
        } else {
            assert(self.bytes@.subrange(0, 8) =~= pre.bytes@.subrange(0, 8));
        }
        assert forall|i: int| 0 <= i < pre.spec_slot_count() implies self.spec_slot(i)
            == pre.spec_slot(i) by {
            pre.lemma_slot_bounds(i);
            assert(self.spec_slot(i) =~= pre.spec_slot(i));
        }
    }

    /// Copies `payload` into slot `i`; every other slot, both cursors, and
    /// the region's shape stay as they were.
    pub fn write_slot(&mut self, i: usize, payload: &[u8])
        requires
            old(self).wf(),
            i < old(self).spec_slot_count(),
            payload@.len() == old(self).spec_slot_size(),
        ensures
            final(self).wf(),
            final(self).spec_slot(i as int) == payload@,
            forall|j: int|
                0 <= j < old(self).spec_slot_count() && j != i ==> final(self).spec_slot(j) == old(
                    self,
                ).spec_slot(j),
            final(self).spec_head() == old(self).spec_head(),
            final(self).spec_tail() == old(self).spec_tail(),
            final(self).layout_unchanged(*old(self)),
    {
        let off = self.slot_offset_exec(i);
        splice(&mut self.bytes, off, payload);
        proof {
            let pre = *old(self);
            pre.lemma_min_len();
            pre.lemma_slot_bounds(i as int);
            assert(self.spec_slot(i as int) =~= payload@);
            assert(self.bytes@.subrange(0, 8) =~= pre.bytes@.subrange(0, 8));
            assert(self.bytes@.subrange(8, 16) =~= pre.bytes@.subrange(8, 16));
            assert forall|j: int|
                0 <= j < pre.spec_slot_count() && j != i implies self.spec_slot(j)
                == pre.spec_slot(j) by {
                pre.lemma_slot_bounds(j);
                if j < i {
                    pre.lemma_slots_disjoint(j, i as int);
                } else {
                    pre.lemma_slots_disjoint(i as int, j);
                }
                assert(self.spec_slot(j) =~= pre.spec_slot(j));
            }
        }
    }

    /// Reads slot `i` out into a fresh buffer of exactly `slot_size` bytes.
    pub fn read_slot(&self, i: usize) -> (out: Vec<u8>)
        requires
            self.wf(),
            i < self.spec_slot_count(),
        ensures
            out@ == self.spec_slot(i as int),
            out@.len() == self.spec_slot_size(),
    {
        let off = self.slot_offset_exec(i);
        copy_range(&self.bytes, off, self.slot_size)
    }

    /// The layout parameters under which a second domain may map the same
    /// bytes. Fails with `NotMapped` exactly when the region was torn down.
    pub fn map_into(&self) -> (r: Result<RegionDescriptor, NotMapped>)
        requires
            self.wf(),
        ensures
            r is Ok <==> self.spec_active(),
            r matches Ok(desc) ==> {
                &&& desc.header_bytes == self.spec_header_bytes()
                &&& desc.slot_stride == self.spec_slot_stride()
                &&& desc.slot_size == self.spec_slot_size()
                &&& desc.slot_count == self.spec_slot_count()
                &&& desc.region_len == self.spec_region_len()
                &&& forall|i: int|
                    0 <= i < self.spec_slot_count() ==> desc.header_bytes + desc.slot_stride * i
                        == #[trigger] self.spec_slot_offset(i)
            },
    {
        if !self.active {
            return Err(NotMapped);
        }
        let (header, stride) = match self.layout {
            RegionLayout::Contiguous { header_bytes } => (header_bytes, self.slot_size),
            RegionLayout::PagePerSlot { page_size } => (page_size, page_size),
        };
        Ok(
            RegionDescriptor {
                header_bytes: header,
                slot_stride: stride,
                slot_size: self.slot_size,
                slot_count: self.slot_count,
                region_len: self.bytes.len(),
            },
        )
    }

    /// Tears the mapping down; later `map_into` requests fail. Idempotent.
    pub fn teardown(&mut self)
        ensures
            !final(self).spec_active(),
            final(self).wf() == old(self).wf(),
            final(self).spec_head() == old(self).spec_head(),
            final(self).spec_tail() == old(self).spec_tail(),
            forall|i: int| #[trigger]
                final(self).spec_slot(i) == old(self).spec_slot(i),
            final(self).spec_slot_size() == old(self).spec_slot_size(),
            final(self).spec_slot_count() == old(self).spec_slot_count(),
    {
        self.active = false;
    }
}

/// Overwrites `dst[off .. off + src.len()]` with `src`, leaving every byte
/// outside that range unchanged.
fn splice(dst: &mut Vec<u8>, off: usize, src: &[u8])
    requires
        off + src@.len() <= old(dst)@.len(),
    ensures
        final(dst)@.len() == old(dst)@.len(),
        forall|m: int|
            0 <= m < old(dst)@.len() ==> final(dst)@[m] == (if off <= m < off + src@.len() {
                src@[m - off]
            } else {
                old(dst)@[m]
            }),
{
    let dlen = dst.len();
    let mut j: usize = 0;
    while j < src.len()
        invariant
            j <= src@.len(),
            off + src@.len() <= dlen,
            dlen == old(dst)@.len(),
            dst@.len() == old(dst)@.len(),
            forall|m: int|
                0 <= m < old(dst)@.len() ==> dst@[m] == (if off <= m < off + j {
                    src@[m - off]
                } else {
                    old(dst)@[m]
                }),
        decreases src@.len() - j,
    {
        dst[off + j] = src[j];
        j += 1;
    }
}

/// A fresh copy of `src[off .. off + len]`.
fn copy_range(src: &Vec<u8>, off: usize, len: usize) -> (out: Vec<u8>)
    requires
        off + len <= src@.len(),
    ensures
        out@ == src@.subrange(off as int, off + len),
{
    let slen = src.len();
    let mut out: Vec<u8> = Vec::new();
    let mut j: usize = 0;
    while j < len
        invariant
            j <= len,
            off + len <= slen,
            slen == src@.len(),
            out@ =~= src@.subrange(off as int, off + j),
        decreases len - j,
    {
        out.push(src[off + j]);
        proof {
            assert(out@ =~= src@.subrange(off as int, off + j + 1));
        }
        j += 1;
    }
    out
}

} // verus!
