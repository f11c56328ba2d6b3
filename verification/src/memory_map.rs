//! The tag that holds the map of physical memory.
//!
//! Behind the tag header come the size of one entry and the entry version,
//! then the entries. One entry lies `entry_size` bytes behind the other,
//! which may be more than the 24 bytes that an entry of this version takes.

use crate::bytes::{
    le_u32, le_u64, lemma_le_u32_round_trip, lemma_le_u64_round_trip, lemma_u32_at_subrange,
    lemma_u64_at_subrange, read_u32, read_u64, u32_at, u64_at,
};
use crate::header::{Tag, TagError, TagView};
use vstd::prelude::*;

verus! {

broadcast use vstd::slice::group_slice_axioms;

/// The type of the tag that holds the memory map.
pub const MEMORY_MAP_TAG_TYPE: u32 = 6;

/// Bytes of the payload taken by the entry size and the entry version,
/// before the first entry.
pub const MEMORY_MAP_FIXED_SIZE: usize = 8;

/// Bytes that one entry takes: base address, length, type, reserved.
pub const MEMORY_AREA_SIZE: usize = 24;

/// One region of physical memory.
#[derive(Clone, Copy, Debug, PartialEq, Eq)]
pub struct MemoryArea {
    /// The address of the region's first byte.
    pub base_addr: u64,
    /// The size of the region in bytes.
    pub length: u64,
    /// The type of the region, as the entry holds it.
    pub typ: u32,
}

/// What a region of physical memory is for.
#[derive(Clone, Copy, Debug, PartialEq, Eq)]
pub enum MemoryAreaType {
    /// Free for use.
    Available,
    /// Not to be used.
    Reserved,
    /// Holds ACPI tables; free once they have been read.
    AcpiAvailable,
    /// Not to be used, and to be kept across hibernation.
    ReservedHibernate,
    /// Defective memory.
    Defective,
    /// A type that this library does not know, with its number.
    Unknown(u32),
}

/// The meaning of the type number `typ` of an entry.
pub open spec fn area_type_of(typ: u32) -> MemoryAreaType {
    if typ == 1 {
        MemoryAreaType::Available
    } else if typ == 2 {
        MemoryAreaType::Reserved
    } else if typ == 3 {
        MemoryAreaType::AcpiAvailable
    } else if typ == 4 {
        MemoryAreaType::ReservedHibernate
    } else if typ == 5 {
        MemoryAreaType::Defective
    } else {
        MemoryAreaType::Unknown(typ)
    }
}

impl MemoryArea {
    /// What the region is for. A type number that is not known is handed
    /// on as it is.
    pub fn area_type(&self) -> (r: MemoryAreaType)
        ensures
            r == area_type_of(self.typ),
    {
        let typ = self.typ;
        if typ == 1 {
            MemoryAreaType::Available
        } else if typ == 2 {
            MemoryAreaType::Reserved
        } else if typ == 3 {
            MemoryAreaType::AcpiAvailable
        } else if typ == 4 {
            MemoryAreaType::ReservedHibernate
        } else if typ == 5 {
            MemoryAreaType::Defective
        } else {
            MemoryAreaType::Unknown(typ)
        }
    }

    /// The address of the region's first byte.
    pub fn start_address(&self) -> (r: u64)
        ensures
            r == self.base_addr,
    {
        self.base_addr
    }

    /// The size of the region in bytes.
    pub fn size(&self) -> (r: u64)
        ensures
            r == self.length,
    {
        self.length
    }

    /// The address behind the region's last byte, unless the region reaches
    /// beyond the last 64-bit address.
    pub fn end_address(&self) -> (r: Option<u64>)
        ensures
            r == (if self.base_addr + self.length <= u64::MAX {
                Some((self.base_addr + self.length) as u64)
            } else {
                None
            }),
    {
        self.base_addr.checked_add(self.length)
    }
}

/// The entry whose 24 bytes start at `bytes[at]`.
pub open spec fn area_at(bytes: Seq<u8>, at: int) -> MemoryArea {
    MemoryArea {
        base_addr: u64_at(bytes, at),
        length: u64_at(bytes, at + 8),
        typ: u32_at(bytes, at + 16),
    }
}

/// The distance in bytes from one entry of tag `t` to the next.
pub open spec fn entry_size(t: TagView) -> u32 {
    u32_at(t.payload, 0)
}

/// The entry version that tag `t` declares.
pub open spec fn entry_version(t: TagView) -> u32 {
    u32_at(t.payload, 4)
}

/// The number of entries of tag `t`: as many as lie within the tag at the
/// distance that it declares.
pub open spec fn area_count(t: TagView) -> nat {
    if entry_size(t) >= MEMORY_AREA_SIZE && t.payload.len() >= MEMORY_MAP_FIXED_SIZE {
        ((t.payload.len() - MEMORY_MAP_FIXED_SIZE) / (entry_size(t) as int)) as nat
    } else {
        0
    }
}

/// The entries of tag `t`, in storage order.
pub open spec fn areas(t: TagView) -> Seq<MemoryArea> {
    Seq::new(
        area_count(t),
        |i: int| area_at(t.payload, MEMORY_MAP_FIXED_SIZE + i * entry_size(t)),
    )
}

/// A tag read as the memory map.
#[derive(Clone, Copy, Debug, PartialEq, Eq)]
pub struct MemoryMapTag<'a> {
    tag: Tag<'a>,
}

impl<'a> View for MemoryMapTag<'a> {
    type V = TagView;

    closed spec fn view(&self) -> TagView {
        self.tag@
    }
}

impl<'a> MemoryMapTag<'a> {
    #[verifier::type_invariant]
    spec fn holds_fixed_fields(self) -> bool {
        self.tag@.payload.len() >= MEMORY_MAP_FIXED_SIZE
    }

    /// Reads `tag` as the memory map. A tag with no room for the entry size
    /// and the entry version is refused.
    pub fn new(tag: Tag<'a>) -> (r: Result<Self, TagError>)
        ensures
            match r {
                Ok(map) => map@ == tag@ && tag@.payload.len() >= MEMORY_MAP_FIXED_SIZE,
                Err(e) => e == TagError::TooShort && tag@.payload.len() < MEMORY_MAP_FIXED_SIZE,
            },
    {
        if tag.payload().len() < MEMORY_MAP_FIXED_SIZE {
            Err(TagError::TooShort)
        } else {
            Ok(MemoryMapTag { tag })
        }
    }

    /// The tag that is read.
    pub fn tag(&self) -> (r: Tag<'a>)
        ensures
            r@ == self@,
            self@.payload.len() >= MEMORY_MAP_FIXED_SIZE,
    {
        proof {
            use_type_invariant(self);
        }
        self.tag
    }

    /// The distance in bytes from one entry to the next.
    pub fn entry_size(&self) -> (r: u32)
        ensures
            r == entry_size(self@),
    {
        proof {
            use_type_invariant(self);
        }
        read_u32(self.tag.payload(), 0)
    }

    /// The entry version.
    pub fn entry_version(&self) -> (r: u32)
        ensures
            r == entry_version(self@),
    {
        proof {
            use_type_invariant(self);
        }
        read_u32(self.tag.payload(), 4)
    }

    /// A cursor at the first entry. The entries are taken at the distance
    /// that the tag declares, as many as lie within the tag. A declared
    /// distance of less than one entry is refused.
    pub fn memory_areas(&self) -> (r: Result<MemoryAreaIter<'a>, TagError>)
        ensures
            match r {
                Ok(iter) => entry_size(self@) >= MEMORY_AREA_SIZE && iter@ == areas(self@),
                Err(e) => e == TagError::BadEntrySize && entry_size(self@) < MEMORY_AREA_SIZE,
            },
    {
        proof {
            use_type_invariant(self);
        }
        let payload = self.tag.payload();
        let entry_size = read_u32(payload, 0) as usize;
        if entry_size < MEMORY_AREA_SIZE {
            return Err(TagError::BadEntrySize);
        }
        let room = payload.len() - MEMORY_MAP_FIXED_SIZE;
        let count = room / entry_size;
        proof {
            assert(count * entry_size <= room) by (nonlinear_arith)
                requires
                    count == room / entry_size,
                    entry_size > 0,
            ;
        }
        let iter = MemoryAreaIter { payload, entry_size, index: 0, count };
        proof {
            assert(iter@ =~= areas(self@));
        }
        Ok(iter)
    }
}

/// A cursor over the entries of a memory map. Its view is the entries that
/// it has yet to yield.
#[derive(Clone, Copy, Debug)]
pub struct MemoryAreaIter<'a> {
    payload: &'a [u8],
    entry_size: usize,
    index: usize,
    count: usize,
}

impl<'a> View for MemoryAreaIter<'a> {
    type V = Seq<MemoryArea>;

    closed spec fn view(&self) -> Seq<MemoryArea> {
        Seq::new(
            (self.count - self.index) as nat,
            |i: int|
                area_at(self.payload@, MEMORY_MAP_FIXED_SIZE + (self.index + i) * self.entry_size),
        )
    }
}

impl<'a> MemoryAreaIter<'a> {
    #[verifier::type_invariant]
    spec fn within_payload(self) -> bool {
        &&& self.entry_size >= MEMORY_AREA_SIZE
        &&& self.index <= self.count
        &&& MEMORY_MAP_FIXED_SIZE + self.count * self.entry_size <= self.payload@.len()
    }

    /// Yields the next entry and moves behind it.
    pub fn next(&mut self) -> (r: Option<MemoryArea>)
        ensures
            match r {
                Some(area) => {
                    &&& old(self)@.len() > 0
                    &&& area == old(self)@[0]
                    &&& final(self)@ == old(self)@.skip(1)
                },
                None => old(self)@.len() == 0 && final(self)@ == old(self)@,
            },
    {
        proof {
            use_type_invariant(&*self);
        }
        if self.index >= self.count {
            return None;
        }
        proof {
            let (i, n, e) = (self.index as int, self.count as int, self.entry_size as int);
            assert(0 <= i * e && i * e + e <= n * e) by (nonlinear_arith)
                requires
                    0 <= i < n,
                    0 <= e,
            ;
            assert(self.payload@.len() == self.payload.len());
        }
        let at = MEMORY_MAP_FIXED_SIZE + self.index * self.entry_size;
        let area = MemoryArea {
            base_addr: read_u64(self.payload, at),
            length: read_u64(self.payload, at + 8),
            typ: read_u32(self.payload, at + 16),
        };
        self.index = self.index + 1;
        proof {
            assert(self@ =~= old(self)@.skip(1)) by {
                let e = self.entry_size as int;
                assert forall|k: int| 0 <= k < self@.len() implies self@[k] == old(self)@.skip(
                    1,
                )[k] by {
                    assert((self.index + k) * e == (old(self).index + (k + 1)) * e);
                }
            }
        }
        Some(area)
    }

    /// The number of entries that the cursor has yet to yield.
    pub fn remaining(&self) -> (r: usize)
        ensures
            r == self@.len(),
    {
        proof {
            use_type_invariant(self);
        }
        self.count - self.index
    }
}

/// The bytes of one entry that takes `entry_size` bytes: base address,
/// length, type, a reserved field, and zero bytes up to the entry size.
#[verifier::opaque]
pub open spec fn encode_area(area: MemoryArea, entry_size: int) -> Seq<u8> {
    le_u64(area.base_addr) + le_u64(area.length) + le_u32(area.typ) + le_u32(0) + Seq::new(
        (entry_size - MEMORY_AREA_SIZE) as nat,
        |i: int| 0u8,
    )
}

/// The bytes of a list of entries, one behind the other.
pub open spec fn encode_areas(areas: Seq<MemoryArea>, entry_size: int) -> Seq<u8>
    decreases areas.len(),
{
    if areas.len() == 0 {
        Seq::empty()
    } else {
        encode_areas(areas.drop_last(), entry_size) + encode_area(areas.last(), entry_size)
    }
}

/// The payload of the memory map tag that holds `areas`.
pub open spec fn encode_memory_map(entry_size: u32, version: u32, areas: Seq<MemoryArea>) -> Seq<
    u8,
> {
    le_u32(entry_size) + le_u32(version) + encode_areas(areas, entry_size as int)
}

/// An entry read inside a part of a sequence is the same entry in the
/// whole.
proof fn lemma_area_at_subrange(s: Seq<u8>, from: int, to: int, at: int)
    requires
        0 <= from,
        to <= s.len(),
        0 <= at,
        from + at + MEMORY_AREA_SIZE <= to,
    ensures
        area_at(s.subrange(from, to), at) == area_at(s, from + at),
{
    lemma_u64_at_subrange(s, from, to, at);
    lemma_u64_at_subrange(s, from, to, at + 8);
    lemma_u32_at_subrange(s, from, to, at + 16);
}

/// The bytes of one entry are as many as the entry size, and hold the
/// entry.
proof fn lemma_encode_area(area: MemoryArea, entry_size: int)
    requires
        entry_size >= MEMORY_AREA_SIZE,
    ensures
        encode_area(area, entry_size).len() == entry_size,
        area_at(encode_area(area, entry_size), 0) == area,
{
    reveal(encode_area);
    let bytes = encode_area(area, entry_size);
    lemma_le_u64_round_trip(area.base_addr);
    lemma_le_u64_round_trip(area.length);
    lemma_le_u32_round_trip(area.typ);
    lemma_le_u32_round_trip(0);
    assert(bytes.subrange(0, 8) =~= le_u64(area.base_addr));
    assert(bytes.subrange(8, 16) =~= le_u64(area.length));
    assert(bytes.subrange(16, 20) =~= le_u32(area.typ));
    lemma_u64_at_subrange(bytes, 0, 8, 0);
    lemma_u64_at_subrange(bytes, 8, 16, 0);
    lemma_u32_at_subrange(bytes, 16, 20, 0);
}

/// The bytes of a list of entries hold each entry at its place.
proof fn lemma_encode_areas(areas: Seq<MemoryArea>, entry_size: int, i: int)
    requires
        entry_size >= MEMORY_AREA_SIZE,
        0 <= i < areas.len(),
    ensures
        encode_areas(areas, entry_size).len() == areas.len() * entry_size,
        0 <= i * entry_size,
        i * entry_size + entry_size <= areas.len() * entry_size,
        area_at(encode_areas(areas, entry_size), i * entry_size) == areas[i],
    decreases areas.len(),
{
    let n = areas.len() as int;
    let all = encode_areas(areas, entry_size);
    let front = encode_areas(areas.drop_last(), entry_size);
    lemma_encode_areas_len(areas.drop_last(), entry_size);
    lemma_encode_area(areas.last(), entry_size);
    assert((n - 1) * entry_size + entry_size == n * entry_size) by (nonlinear_arith);
    assert(0 <= i * entry_size && i * entry_size + entry_size <= n * entry_size)
        by (nonlinear_arith)
        requires
            0 <= i < n,
            entry_size >= 0,
    ;
    if i < n - 1 {
        lemma_encode_areas(areas.drop_last(), entry_size, i);
        assert(all.subrange(0, (n - 1) * entry_size) =~= front);
        lemma_area_at_subrange(all, 0, (n - 1) * entry_size, i * entry_size);
    } else {
        assert(all.subrange((n - 1) * entry_size, n * entry_size) =~= encode_area(
            areas.last(),
            entry_size,
        ));
        lemma_area_at_subrange(all, (n - 1) * entry_size, n * entry_size, 0);
    }
}

/// The bytes of a list of entries are as many as the entries take.
proof fn lemma_encode_areas_len(areas: Seq<MemoryArea>, entry_size: int)
    requires
        entry_size >= MEMORY_AREA_SIZE,
    ensures
        encode_areas(areas, entry_size).len() == areas.len() * entry_size,
    decreases areas.len(),
{
    let n = areas.len() as int;
    if n > 0 {
        lemma_encode_areas_len(areas.drop_last(), entry_size);
        lemma_encode_area(areas.last(), entry_size);
        assert((n - 1) * entry_size + entry_size == n * entry_size) by (nonlinear_arith);
    } else {
        assert(0 * entry_size == 0) by (nonlinear_arith);
    }
}

/// A memory map is read back as it was written: a tag whose payload holds
/// the entries `areas`, at a distance of `entry_size` bytes, has that entry
/// size, that version, and exactly those entries, in their order.
pub proof fn lemma_memory_map_reads_back(
    t: TagView,
    entry_size: u32,
    version: u32,
    areas: Seq<MemoryArea>,
)
    requires
        entry_size >= MEMORY_AREA_SIZE,
        t.payload == encode_memory_map(entry_size, version, areas),
    ensures
        self::entry_size(t) == entry_size,
        entry_version(t) == version,
        self::areas(t) == areas,
{
    let e = entry_size as int;
    let n = areas.len() as int;
    let table = encode_areas(areas, e);
    lemma_le_u32_round_trip(entry_size);
    lemma_le_u32_round_trip(version);
    lemma_encode_areas_len(areas, e);
    assert(t.payload.subrange(0, 4) =~= le_u32(entry_size));
    assert(t.payload.subrange(4, 8) =~= le_u32(version));
    lemma_u32_at_subrange(t.payload, 0, 4, 0);
    lemma_u32_at_subrange(t.payload, 4, 8, 0);
    assert(t.payload.subrange(8, 8 + n * e) =~= table);
    assert((n * e) / e == n) by (nonlinear_arith)
        requires
            e > 0,
            n >= 0,
    ;
    assert(area_count(t) == n);
    assert forall|i: int| 0 <= i < n implies #[trigger] self::areas(t)[i] == areas[i] by {
        lemma_encode_areas(areas, e, i);
        lemma_area_at_subrange(t.payload, 8, 8 + n * e, i * e);
    }
    assert(self::areas(t) =~= areas);
}

} // verus!
