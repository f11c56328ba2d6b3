//! The tag that holds the section headers of the kernel's ELF image.
//!
//! Behind the tag header come three `u32`: the number of section headers,
//! the size of one, and the index of the header of the section that holds
//! the section names. The section headers follow, one `entry_size` bytes
//! behind the other, each in the 64-bit ELF layout of 64 bytes.
//!
//! The names themselves are not in the blob. They lie in memory, in the
//! section that the string table index points to, and are read through a
//! [`StringTable`] over that section's bytes.

use crate::bytes::{read_u32, read_u64, u32_at, u64_at};
use crate::header::{Tag, TagError, TagView};
use crate::text::read_str;
use vstd::prelude::*;
use vstd::slice::slice_subrange;
use vstd::string::StringSliceAdditionalSpecFns;
use vstd::utf8::{decode_utf8, valid_utf8};

verus! {

broadcast use vstd::slice::group_slice_axioms;

/// The type of the tag that holds the ELF section headers.
pub const ELF_SECTIONS_TAG_TYPE: u32 = 9;

/// Bytes of the payload taken by the three counts, before the first section
/// header.
pub const ELF_SECTIONS_FIXED_SIZE: usize = 12;

/// Bytes that one section header takes.
pub const ELF_SECTION_SIZE: usize = 64;

/// The section holds data that can be written while the program runs.
pub const ELF_SECTION_WRITABLE: u64 = 0x1;

/// The section takes up memory while the program runs.
pub const ELF_SECTION_ALLOCATED: u64 = 0x2;

/// The section holds machine instructions.
pub const ELF_SECTION_EXECUTABLE: u64 = 0x4;

/// All the section flags that have a name here.
pub const ELF_SECTION_FLAGS_ALL: u64 = 0x7;

/// A set of section flags: some of the flags that have a name here, and
/// nothing else.
#[derive(Clone, Copy, Debug, PartialEq, Eq)]
pub struct ElfSectionFlags {
    bits: u64,
}

impl View for ElfSectionFlags {
    type V = u64;

    closed spec fn view(&self) -> u64 {
        self.bits
    }
}

impl ElfSectionFlags {
    #[verifier::type_invariant]
    spec fn named_only(self) -> bool {
        self.bits & ELF_SECTION_FLAGS_ALL == self.bits
    }

    /// The named flags among `bits`; the other bits are dropped.
    pub fn from_bits_truncate(bits: u64) -> (r: Self)
        ensures
            r@ == bits & ELF_SECTION_FLAGS_ALL,
    {
        let kept = bits & ELF_SECTION_FLAGS_ALL;
        assert(kept & 0x7 == kept) by (bit_vector)
            requires
                kept == bits & 0x7,
        ;
        ElfSectionFlags { bits: kept }
    }

    /// The flags as bits. No bit is set but those of the named flags.
    pub fn bits(&self) -> (r: u64)
        ensures
            r == self@,
            r & ELF_SECTION_FLAGS_ALL == r,
    {
        proof {
            use_type_invariant(self);
        }
        self.bits
    }

    /// Whether no flag is set.
    pub fn is_empty(&self) -> (r: bool)
        ensures
            r == (self@ == 0),
    {
        self.bits == 0
    }

    /// Whether every flag of `flags` is set.
    pub fn contains(&self, flags: u64) -> (r: bool)
        ensures
            r == (self@ & flags == flags),
    {
        self.bits & flags == flags
    }
}

/// What a section holds.
#[derive(Clone, Copy, Debug, PartialEq, Eq)]
pub enum ElfSectionType {
    Unused,
    ProgramSection,
    LinkerSymbolTable,
    StringTable,
    RelaRelocation,
    SymbolHashTable,
    DynamicLinkingTable,
    Note,
    Uninitialized,
    RelRelocation,
    Reserved,
    DynamicLoaderSymbolTable,
    /// A type in the range kept for the operating system.
    EnvironmentSpecific,
    /// A type in the range kept for the processor.
    ProcessorSpecific,
    /// A type that this library does not know, with its number.
    Unknown(u32),
}

/// The meaning of the type number `typ` of a section header.
pub open spec fn section_type_of(typ: u32) -> ElfSectionType {
    if typ == 0 {
        ElfSectionType::Unused
    } else if typ == 1 {
        ElfSectionType::ProgramSection
    } else if typ == 2 {
        ElfSectionType::LinkerSymbolTable
    } else if typ == 3 {
        ElfSectionType::StringTable
    } else if typ == 4 {
        ElfSectionType::RelaRelocation
    } else if typ == 5 {
        ElfSectionType::SymbolHashTable
    } else if typ == 6 {
        ElfSectionType::DynamicLinkingTable
    } else if typ == 7 {
        ElfSectionType::Note
    } else if typ == 8 {
        ElfSectionType::Uninitialized
    } else if typ == 9 {
        ElfSectionType::RelRelocation
    } else if typ == 10 {
        ElfSectionType::Reserved
    } else if typ == 11 {
        ElfSectionType::DynamicLoaderSymbolTable
    } else if 0x6000_0000 <= typ <= 0x6FFF_FFFF {
        ElfSectionType::EnvironmentSpecific
    } else if 0x7000_0000 <= typ <= 0x7FFF_FFFF {
        ElfSectionType::ProcessorSpecific
    } else {
        ElfSectionType::Unknown(typ)
    }
}

/// One section header.
#[derive(Clone, Copy, Debug, PartialEq, Eq)]
pub struct ElfSection {
    /// Offset of the section's name in the section-name string table.
    pub name_index: u32,
    /// The section's type, as the header holds it.
    pub typ: u32,
    /// The section's flags, as the header holds them.
    pub flags: u64,
    /// The address of the section's first byte in memory.
    pub addr: u64,
    /// Offset of the section in the ELF file.
    pub offset: u64,
    /// The section's size in bytes.
    pub size: u64,
    /// Index of a section that this one refers to.
    pub link: u32,
    /// More about the section; what, depends on its type.
    pub info: u32,
    /// The alignment that the section's address keeps.
    pub addralign: u64,
    /// The size of one entry, for a section that is a table.
    pub entry_size: u64,
}

impl ElfSection {
    /// What the section holds. A type number that is not known is handed on
    /// as it is.
    pub fn section_type(&self) -> (r: ElfSectionType)
        ensures
            r == section_type_of(self.typ),
    {
        let typ = self.typ;
        if typ == 0 {
            ElfSectionType::Unused
        } else if typ == 1 {
            ElfSectionType::ProgramSection
        } else if typ == 2 {
            ElfSectionType::LinkerSymbolTable
        } else if typ == 3 {
            ElfSectionType::StringTable
        } else if typ == 4 {
            ElfSectionType::RelaRelocation
        } else if typ == 5 {
            ElfSectionType::SymbolHashTable
        } else if typ == 6 {
            ElfSectionType::DynamicLinkingTable
        } else if typ == 7 {
            ElfSectionType::Note
        } else if typ == 8 {
            ElfSectionType::Uninitialized
        } else if typ == 9 {
            ElfSectionType::RelRelocation
        } else if typ == 10 {
            ElfSectionType::Reserved
        } else if typ == 11 {
            ElfSectionType::DynamicLoaderSymbolTable
        } else if 0x6000_0000 <= typ && typ <= 0x6FFF_FFFF {
            ElfSectionType::EnvironmentSpecific
        } else if 0x7000_0000 <= typ && typ <= 0x7FFF_FFFF {
            ElfSectionType::ProcessorSpecific
        } else {
            ElfSectionType::Unknown(typ)
        }
    }

    /// The named flags that the section has set.
    pub fn flags(&self) -> (r: ElfSectionFlags)
        ensures
            r@ == self.flags & ELF_SECTION_FLAGS_ALL,
    {
        ElfSectionFlags::from_bits_truncate(self.flags)
    }

    /// Whether the section takes up memory while the program runs.
    pub fn is_allocated(&self) -> (r: bool)
        ensures
            r == (self.flags & ELF_SECTION_ALLOCATED == ELF_SECTION_ALLOCATED),
    {
        self.flags & ELF_SECTION_ALLOCATED == ELF_SECTION_ALLOCATED
    }

    /// The address of the section's first byte in memory.
    pub fn start_address(&self) -> (r: u64)
        ensures
            r == self.addr,
    {
        self.addr
    }

    /// The section's size in bytes.
    pub fn size(&self) -> (r: u64)
        ensures
            r == self.size,
    {
        self.size
    }

    /// The address behind the section's last byte, unless the section
    /// reaches beyond the last 64-bit address.
    pub fn end_address(&self) -> (r: Option<u64>)
        ensures
            r == (if self.addr + self.size <= u64::MAX {
                Some((self.addr + self.size) as u64)
            } else {
                None
            }),
    {
        self.addr.checked_add(self.size)
    }
}

/// The section header whose 64 bytes start at `bytes[at]`.
pub open spec fn section_at(bytes: Seq<u8>, at: int) -> ElfSection {
    ElfSection {
        name_index: u32_at(bytes, at),
        typ: u32_at(bytes, at + 4),
        flags: u64_at(bytes, at + 8),
        addr: u64_at(bytes, at + 16),
        offset: u64_at(bytes, at + 24),
        size: u64_at(bytes, at + 32),
        link: u32_at(bytes, at + 40),
        info: u32_at(bytes, at + 44),
        addralign: u64_at(bytes, at + 48),
        entry_size: u64_at(bytes, at + 56),
    }
}

/// The number of section headers that tag `t` declares.
pub open spec fn number_of_sections(t: TagView) -> u32 {
    u32_at(t.payload, 0)
}

/// The distance in bytes from one section header of tag `t` to the next.
pub open spec fn section_entry_size(t: TagView) -> u32 {
    u32_at(t.payload, 4)
}

/// The index of the header of the section that holds the section names.
pub open spec fn string_table_index(t: TagView) -> u32 {
    u32_at(t.payload, 8)
}

/// What keeps the section headers of tag `t` from being read, if anything.
/// No section headers are as good as section headers that fit.
pub open spec fn sections_fault(t: TagView) -> Option<TagError> {
    if number_of_sections(t) == 0 {
        None
    } else if section_entry_size(t) < ELF_SECTION_SIZE {
        Some(TagError::BadEntrySize)
    } else if ELF_SECTIONS_FIXED_SIZE + number_of_sections(t) * section_entry_size(t)
        > t.payload.len() {
        Some(TagError::EntriesOverrun)
    } else {
        None
    }
}

/// The section headers of tag `t`, in storage order.
pub open spec fn sections_of(t: TagView) -> Seq<ElfSection> {
    Seq::new(
        number_of_sections(t) as nat,
        |i: int| section_at(t.payload, ELF_SECTIONS_FIXED_SIZE + i * section_entry_size(t)),
    )
}

/// The header of the section that holds the section names: the one that
/// the string table index picks, if it picks one.
pub open spec fn string_table_of(t: TagView) -> Option<ElfSection> {
    if string_table_index(t) < number_of_sections(t) {
        Some(sections_of(t)[string_table_index(t) as int])
    } else {
        None
    }
}

/// A tag that declares no section headers has none, and nothing about it
/// is a fault, whatever entry size and string table index it declares.
pub proof fn lemma_no_sections(t: TagView)
    requires
        number_of_sections(t) == 0,
    ensures
        sections_fault(t) is None,
        sections_of(t) == Seq::<ElfSection>::empty(),
        string_table_of(t) is None,
{
    assert(sections_of(t) =~= Seq::<ElfSection>::empty());
}

/// A tag read as the ELF section headers.
#[derive(Clone, Copy, Debug, PartialEq, Eq)]
pub struct ElfSectionsTag<'a> {
    tag: Tag<'a>,
}

impl<'a> View for ElfSectionsTag<'a> {
    type V = TagView;

    closed spec fn view(&self) -> TagView {
        self.tag@
    }
}

impl<'a> ElfSectionsTag<'a> {
    #[verifier::type_invariant]
    spec fn holds_fixed_fields(self) -> bool {
        self.tag@.payload.len() >= ELF_SECTIONS_FIXED_SIZE
    }

    /// Reads `tag` as the ELF section headers. A tag with no room for the
    /// three counts is refused.
    pub fn new(tag: Tag<'a>) -> (r: Result<Self, TagError>)
        ensures
            match r {
                Ok(sections) => sections@ == tag@ && tag@.payload.len()
                    >= ELF_SECTIONS_FIXED_SIZE,
                Err(e) => e == TagError::TooShort && tag@.payload.len() < ELF_SECTIONS_FIXED_SIZE,
            },
    {
        if tag.payload().len() < ELF_SECTIONS_FIXED_SIZE {
            Err(TagError::TooShort)
        } else {
            Ok(ElfSectionsTag { tag })
        }
    }

    /// The tag that is read.
    pub fn tag(&self) -> (r: Tag<'a>)
        ensures
            r@ == self@,
            self@.payload.len() >= ELF_SECTIONS_FIXED_SIZE,
    {
        proof {
            use_type_invariant(self);
        }
        self.tag
    }

    /// The number of section headers.
    pub fn number_of_sections(&self) -> (r: u32)
        ensures
            r == number_of_sections(self@),
    {
        proof {
            use_type_invariant(self);
        }
        read_u32(self.tag.payload(), 0)
    }

    /// The distance in bytes from one section header to the next.
    pub fn entry_size(&self) -> (r: u32)
        ensures
            r == section_entry_size(self@),
    {
        proof {
            use_type_invariant(self);
        }
        read_u32(self.tag.payload(), 4)
    }

    /// The index of the header of the section that holds the section names.
    pub fn string_table_index(&self) -> (r: u32)
        ensures
            r == string_table_index(self@),
    {
        proof {
            use_type_invariant(self);
        }
        read_u32(self.tag.payload(), 8)
    }

    /// A cursor at the first section header. The headers are taken at the
    /// distance that the tag declares, as many as it declares. Headers that
    /// the tag has no room for are refused, and so is a distance of less
    /// than one header; a tag that declares no section headers gives an
    /// empty cursor, whatever else it holds.
    pub fn sections(&self) -> (r: Result<ElfSectionIter<'a>, TagError>)
        ensures
            match sections_fault(self@) {
                None => r matches Ok(iter) && iter@ == sections_of(self@),
                Some(e) => r matches Err(f) && f == e,
            },
    {
        proof {
            use_type_invariant(self);
        }
        let payload = self.tag.payload();
        let count = read_u32(payload, 0);
        let entry_size = read_u32(payload, 4);
        if count == 0 {
            let iter = ElfSectionIter { payload, entry_size: ELF_SECTION_SIZE, index: 0, count: 0 };
            proof {
                assert(iter@ =~= sections_of(self@));
            }
            return Ok(iter);
        }
        if (entry_size as usize) < ELF_SECTION_SIZE {
            return Err(TagError::BadEntrySize);
        }
        proof {
            assert(count * entry_size <= 0xFFFF_FFFF * 0xFFFF_FFFF) by (nonlinear_arith)
                requires
                    0 <= count <= 0xFFFF_FFFF,
                    0 <= entry_size <= 0xFFFF_FFFF,
            ;
        }
        let needed: u64 = (count as u64) * (entry_size as u64);
        let room: u64 = (payload.len() - ELF_SECTIONS_FIXED_SIZE) as u64;
        if needed > room {
            return Err(TagError::EntriesOverrun);
        }
        let iter = ElfSectionIter {
            payload,
            entry_size: entry_size as usize,
            index: 0,
            count: count as usize,
        };
        proof {
            assert(iter@ =~= sections_of(self@));
        }
        Ok(iter)
    }

    /// The header of the section that holds the section names: the one that
    /// the string table index picks. `Ok(None)` where the index picks none
    /// of the section headers.
    pub fn string_table_section(&self) -> (r: Result<Option<ElfSection>, TagError>)
        ensures
            match sections_fault(self@) {
                None => r matches Ok(section) && section == string_table_of(self@),
                Some(e) => r matches Err(f) && f == e,
            },
    {
        let index = self.string_table_index();
        match self.sections() {
            Ok(iter) => Ok(iter.get(index as usize)),
            Err(e) => Err(e),
        }
    }
}

/// A cursor over the section headers of a tag. Its view is the section
/// headers that it has yet to yield.
#[derive(Clone, Copy, Debug)]
pub struct ElfSectionIter<'a> {
    payload: &'a [u8],
    entry_size: usize,
    index: usize,
    count: usize,
}

impl<'a> View for ElfSectionIter<'a> {
    type V = Seq<ElfSection>;

    closed spec fn view(&self) -> Seq<ElfSection> {
        Seq::new(
            (self.count - self.index) as nat,
            |i: int|
                section_at(
                    self.payload@,
                    ELF_SECTIONS_FIXED_SIZE + (self.index + i) * self.entry_size,
                ),
        )
    }
}

impl<'a> ElfSectionIter<'a> {
    #[verifier::type_invariant]
    spec fn within_payload(self) -> bool {
        &&& self.entry_size >= ELF_SECTION_SIZE
        &&& self.index <= self.count
        &&& ELF_SECTIONS_FIXED_SIZE + self.count * self.entry_size <= self.payload@.len()
    }

    /// Reads the section header that lies `i` headers behind the cursor.
    fn read(&self, i: usize) -> (r: ElfSection)
        requires
            i < self@.len(),
        ensures
            r == self@[i as int],
    {
        proof {
            use_type_invariant(self);
            let (k, n, e) = ((self.index + i) as int, self.count as int, self.entry_size as int);
            assert(0 <= k * e && k * e + e <= n * e) by (nonlinear_arith)
                requires
                    0 <= k < n,
                    0 <= e,
            ;
            assert(self.payload@.len() == self.payload.len());
        }
        let at = ELF_SECTIONS_FIXED_SIZE + (self.index + i) * self.entry_size;
        ElfSection {
            name_index: read_u32(self.payload, at),
            typ: read_u32(self.payload, at + 4),
            flags: read_u64(self.payload, at + 8),
            addr: read_u64(self.payload, at + 16),
            offset: read_u64(self.payload, at + 24),
            size: read_u64(self.payload, at + 32),
            link: read_u32(self.payload, at + 40),
            info: read_u32(self.payload, at + 44),
            addralign: read_u64(self.payload, at + 48),
            entry_size: read_u64(self.payload, at + 56),
        }
    }

    /// The number of section headers that the cursor has yet to yield.
    pub fn remaining(&self) -> (r: usize)
        ensures
            r == self@.len(),
    {
        proof {
            use_type_invariant(self);
        }
        self.count - self.index
    }

    /// The section header that lies `i` headers behind the cursor, if there
    /// are that many.
    pub fn get(&self, i: usize) -> (r: Option<ElfSection>)
        ensures
            r == (if i < self@.len() {
                Some(self@[i as int])
            } else {
                None
            }),
    {
        if i < self.remaining() {
            Some(self.read(i))
        } else {
            None
        }
    }

    /// Yields the next section header and moves behind it.
    pub fn next(&mut self) -> (r: Option<ElfSection>)
        ensures
            match r {
                Some(section) => {
                    &&& old(self)@.len() > 0
                    &&& section == old(self)@[0]
                    &&& final(self)@ == old(self)@.skip(1)
                },
                None => old(self)@.len() == 0 && final(self)@ == old(self)@,
            },
    {
        proof {
            use_type_invariant(&*self);
        }
        if self.index >= self.count {
            return None;
        }
        let section = self.read(0);
        self.index = self.index + 1;
        proof {
            assert(self@ =~= old(self)@.skip(1)) by {
                let e = self.entry_size as int;
                assert forall|k: int| 0 <= k < self@.len() implies self@[k] == old(self)@.skip(
                    1,
                )[k] by {
                    assert((self.index + k) * e == (old(self).index + (k + 1)) * e);
                }
            }
        }
        Some(section)
    }
}

/// Why a section has no name to give.
#[derive(Clone, Copy, Debug, PartialEq, Eq)]
pub enum NameError {
    /// The name would start behind the end of the string table.
    OutOfTable,
    /// No zero byte ends the name within the string table.
    Unterminated,
    /// The bytes of the name are not valid UTF-8.
    NotUtf8,
}

/// Whether `end` is where the name that starts at `table[start]` ends: at
/// the first zero byte at or behind `start`.
pub open spec fn is_name_end(table: Seq<u8>, start: int, end: int) -> bool {
    &&& 0 <= start <= end < table.len()
    &&& table[end] == 0
    &&& forall|k: int| start <= k < end ==> table[k] != 0
}

/// Whether a zero byte ends the name that starts at `table[start]`.
pub open spec fn has_name_end(table: Seq<u8>, start: int) -> bool {
    exists|end: int| is_name_end(table, start, end)
}

/// The bytes of the name that starts at `table[start]`, up to the zero byte
/// that ends it, or why there is no such name.
pub open spec fn name_at(table: Seq<u8>, start: int) -> Result<Seq<u8>, NameError> {
    if start >= table.len() {
        Err(NameError::OutOfTable)
    } else if !has_name_end(table, start) {
        Err(NameError::Unterminated)
    } else {
        let name = table.subrange(start, choose|end: int| is_name_end(table, start, end));
        if valid_utf8(name) {
            Ok(name)
        } else {
            Err(NameError::NotUtf8)
        }
    }
}

/// The names of the sections: the bytes of the section that the string
/// table index of the tag points to.
#[derive(Clone, Copy, Debug, PartialEq, Eq)]
pub struct StringTable<'a> {
    bytes: &'a [u8],
}

impl<'a> View for StringTable<'a> {
    type V = Seq<u8>;

    closed spec fn view(&self) -> Seq<u8> {
        self.bytes@
    }
}

impl<'a> StringTable<'a> {
    /// A string table over `bytes`, the contents of the section that holds
    /// the section names.
    pub fn new(bytes: &'a [u8]) -> (r: Self)
        ensures
            r@ == bytes@,
    {
        StringTable { bytes }
    }

    /// The name that starts `index` bytes into the table and ends before
    /// the next zero byte. The search for that byte stays within the table.
    pub fn name_at(&self, index: u32) -> (r: Result<&'a str, NameError>)
        ensures
            match name_at(self@, index as int) {
                Ok(name) => r matches Ok(s) && s.spec_bytes() == name && s@ == decode_utf8(name),
                Err(e) => r matches Err(f) && f == e,
            },
    {
        let start = index as usize;
        let len = self.bytes.len();
        if start >= len {
            return Err(NameError::OutOfTable);
        }
        let mut end = start;
        while end < len && self.bytes[end] != 0
            invariant
                start <= end <= len,
                len == self.bytes@.len(),
                forall|k: int| start <= k < end ==> self.bytes@[k] != 0,
            decreases len - end,
        {
            end = end + 1;
        }
        if end >= len {
            proof {
                assert forall|e: int| !is_name_end(self@, start as int, e) by {
                    if is_name_end(self@, start as int, e) {
                        assert(self.bytes@[e] != 0);
                    }
                }
            }
            return Err(NameError::Unterminated);
        }
        proof {
            assert(is_name_end(self@, start as int, end as int));
            let chosen = choose|e: int| is_name_end(self@, start as int, e);
            assert(is_name_end(self@, start as int, chosen));
            if chosen < end {
                assert(self.bytes@[chosen] != 0);
            }
            if end < chosen {
                assert(self@[end as int] != 0);
            }
        }
        match read_str(slice_subrange(self.bytes, start, end)) {
            Some(s) => Ok(s),
            None => Err(NameError::NotUtf8),
        }
    }

    /// The name of `section`.
    pub fn section_name(&self, section: &ElfSection) -> (r: Result<&'a str, NameError>)
        ensures
            match name_at(self@, section.name_index as int) {
                Ok(name) => r matches Ok(s) && s.spec_bytes() == name && s@ == decode_utf8(name),
                Err(e) => r matches Err(f) && f == e,
            },
    {
        self.name_at(section.name_index)
    }
}

} // verus!
