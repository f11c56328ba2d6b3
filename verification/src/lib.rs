//! Read-only views onto a Multiboot2 boot-information blob.
//!
//! A boot loader leaves a blob in memory for the kernel it starts: a header
//! with the blob's total size, then a list of tags, then the end tag. This
//! library reads such a blob through a byte slice, without copying it and
//! without reading outside it: [`load`] checks that the blob ends with the
//! end tag, and the views it hands out check every length that the blob
//! declares against the room that is there.

pub mod boot_loader_name;
pub mod bytes;
pub mod elf_sections;
pub mod header;
pub mod layout;
pub mod memory_map;
pub mod module;
pub mod text;

pub use boot_loader_name::BootLoaderNameTag;
pub use elf_sections::{
    ElfSection, ElfSectionFlags, ElfSectionIter, ElfSectionType, ElfSectionsTag, NameError,
    StringTable, ELF_SECTION_ALLOCATED, ELF_SECTION_EXECUTABLE, ELF_SECTION_WRITABLE,
};
pub use header::{Tag, TagError, TagIter};
pub use memory_map::{MemoryArea, MemoryAreaIter, MemoryAreaType, MemoryMapTag};
pub use module::{ModuleIter, ModuleTag};

use crate::boot_loader_name::BOOT_LOADER_NAME_TAG_TYPE;
use crate::bytes::{read_u32, u32_at};
use crate::elf_sections::{ELF_SECTIONS_FIXED_SIZE, ELF_SECTIONS_TAG_TYPE};
use crate::header::{
    fault_from, fenced, is_end_tag, tags_from, viewed, TagIterView, TagView, END_TAG_SIZE,
    END_TAG_TYPE,
};
use crate::memory_map::{MEMORY_MAP_FIXED_SIZE, MEMORY_MAP_TAG_TYPE};
use vstd::prelude::*;
use vstd::slice::slice_subrange;
use vstd::utf8::{decode_utf8, valid_utf8};

verus! {

broadcast use vstd::slice::group_slice_axioms;

/// Offset of the first tag: the bytes taken by the total size and the
/// reserved field.
pub const FIRST_TAG_OFFSET: usize = 8;

/// The smallest blob: the header and the end tag.
pub const MIN_TOTAL_SIZE: u32 = 16;

/// Why a blob is not accepted.
#[derive(Clone, Copy, Debug, PartialEq, Eq)]
pub enum LoadError {
    /// The memory handed over ends before the blob does.
    Truncated,
    /// The blob declares a total size with no room for the header and the
    /// end tag.
    TotalSizeTooSmall,
    /// The blob would reach beyond the last address.
    AddressOverflow,
    /// The last eight bytes of the blob are not the end tag.
    NoEndTag,
}

/// What a boot-information view is: the address the blob lies at, and its
/// bytes, as many as its total size.
pub struct BootInformationView {
    pub address: int,
    pub blob: Seq<u8>,
}

impl BootInformationView {
    /// What `load` has checked of every view that it hands out.
    pub open spec fn valid(self) -> bool {
        &&& 0 <= self.address
        &&& self.address + self.blob.len() <= usize::MAX
        &&& MIN_TOTAL_SIZE <= self.blob.len()
        &&& u32_at(self.blob, 0) == self.blob.len()
        &&& is_end_tag(self.blob, self.blob.len() - 8)
    }

    /// The tags of the blob, in storage order, as far as the walk from the
    /// first tag gets.
    pub open spec fn tags(self) -> Seq<TagView> {
        tags_from(self.blob, FIRST_TAG_OFFSET as int)
    }

    /// How the walk over the tags ends: `None` at the end tag.
    pub open spec fn fault(self) -> Option<TagError> {
        fault_from(self.blob, FIRST_TAG_OFFSET as int)
    }

    /// What a search for the first tag of type `typ` gives.
    pub open spec fn lookup(self, typ: u32) -> Result<Option<TagView>, TagError> {
        (TagIterView { blob: self.blob, offset: FIRST_TAG_OFFSET as int }).lookup(typ)
    }
}

/// The total size that the first four bytes of `memory` declare.
pub open spec fn declared_size(memory: Seq<u8>) -> int {
    u32_at(memory, 0) as int
}

/// Whether `load` accepts `memory` as a blob at `address`, and if not, why.
pub open spec fn load_check(address: usize, memory: Seq<u8>) -> Result<(), LoadError> {
    if memory.len() < FIRST_TAG_OFFSET {
        Err(LoadError::Truncated)
    } else if declared_size(memory) < MIN_TOTAL_SIZE {
        Err(LoadError::TotalSizeTooSmall)
    } else if declared_size(memory) > memory.len() {
        Err(LoadError::Truncated)
    } else if address + declared_size(memory) > usize::MAX {
        Err(LoadError::AddressOverflow)
    } else if !is_end_tag(memory, declared_size(memory) - 8) {
        Err(LoadError::NoEndTag)
    } else {
        Ok(())
    }
}

/// Whether the eight bytes before offset `total_size` are the end tag.
fn has_valid_end_tag(memory: &[u8], total_size: usize) -> (r: bool)
    requires
        MIN_TOTAL_SIZE <= total_size <= memory@.len(),
    ensures
        r == is_end_tag(memory@, total_size - 8),
{
    let end_tag_offset = total_size - END_TAG_SIZE as usize;
    let typ = read_u32(memory, end_tag_offset);
    let size = read_u32(memory, end_tag_offset + 4);
    typ == END_TAG_TYPE && size == END_TAG_SIZE
}

/// Takes the blob that lies at `address`, of which `memory` holds the bytes,
/// and checks it: the total size it declares has to lie within `memory` and
/// within the address space, and its last eight bytes have to be the end
/// tag. No view is handed out for a blob that fails.
pub fn load<'a>(address: usize, memory: &'a [u8]) -> (r: Result<BootInformation<'a>, LoadError>)
    ensures
        match load_check(address, memory@) {
            Ok(()) => {
                &&& r matches Ok(info)
                &&& info@.address == address
                &&& info@.blob == memory@.subrange(0, declared_size(memory@))
                &&& info@.valid()
            },
            Err(e) => r == Err::<BootInformation<'a>, LoadError>(e),
        },
{
    if memory.len() < FIRST_TAG_OFFSET {
        return Err(LoadError::Truncated);
    }
    let total_size = read_u32(memory, 0);
    if total_size < MIN_TOTAL_SIZE {
        return Err(LoadError::TotalSizeTooSmall);
    }
    if total_size as usize > memory.len() {
        return Err(LoadError::Truncated);
    }
    if total_size as usize > usize::MAX - address {
        return Err(LoadError::AddressOverflow);
    }
    if !has_valid_end_tag(memory, total_size as usize) {
        return Err(LoadError::NoEndTag);
    }
    let blob = slice_subrange(memory, 0, total_size as usize);
    proof {
        let n = total_size as int;
        assert(u32_at(blob@, 0) == u32_at(memory@, 0));
        assert(u32_at(blob@, n - 8) == u32_at(memory@, n - 8));
        assert(u32_at(blob@, n - 4) == u32_at(memory@, n - 4));
    }
    Ok(BootInformation { address, blob })
}

/// A checked blob: the root of all the views.
#[derive(Clone, Copy, Debug)]
pub struct BootInformation<'a> {
    address: usize,
    blob: &'a [u8],
}

impl<'a> View for BootInformation<'a> {
    type V = BootInformationView;

    closed spec fn view(&self) -> BootInformationView {
        BootInformationView { address: self.address as int, blob: self.blob@ }
    }
}

impl<'a> BootInformation<'a> {
    #[verifier::type_invariant]
    spec fn checked(self) -> bool {
        self@.valid()
    }

    /// The size of the blob in bytes, as its first field declares it.
    pub fn total_size(&self) -> (r: u32)
        ensures
            self@.valid(),
            r == self@.blob.len(),
    {
        proof {
            use_type_invariant(self);
        }
        self.blob.len() as u32
    }

    /// The address of the blob's first byte.
    pub fn start_address(&self) -> (r: usize)
        ensures
            r == self@.address,
    {
        self.address
    }

    /// The address behind the blob's last byte.
    pub fn end_address(&self) -> (r: usize)
        ensures
            r == self@.address + self@.blob.len(),
    {
        proof {
            use_type_invariant(self);
        }
        self.address + self.blob.len()
    }

    /// The bytes of the blob.
    pub fn as_bytes(&self) -> (r: &'a [u8])
        ensures
            r@ == self@.blob,
    {
        self.blob
    }

    /// A cursor at the first tag.
    pub fn tags(&self) -> (r: TagIter<'a>)
        ensures
            r@ == (TagIterView { blob: self@.blob, offset: FIRST_TAG_OFFSET as int }),
    {
        TagIter::new(self.blob, FIRST_TAG_OFFSET)
    }

    /// The first tag of type `typ`, in storage order.
    pub fn get_tag(&self, typ: u32) -> (r: Result<Option<Tag<'a>>, TagError>)
        ensures
            viewed(r) == self@.lookup(typ),
    {
        let mut iter = self.tags();
        iter.find(typ)
    }

    /// The tag that holds the ELF section headers, if the blob has one. A
    /// tag of that type with no room for its fixed fields is an error.
    pub fn elf_sections_tag(&self) -> (r: Result<Option<ElfSectionsTag<'a>>, TagError>)
        ensures
            viewed(r) == fenced(
                self@.lookup(ELF_SECTIONS_TAG_TYPE),
                ELF_SECTIONS_FIXED_SIZE as int,
            ),
    {
        match self.get_tag(ELF_SECTIONS_TAG_TYPE) {
            Ok(Some(tag)) => match ElfSectionsTag::new(tag) {
                Ok(sections) => Ok(Some(sections)),
                Err(e) => Err(e),
            },
            Ok(None) => Ok(None),
            Err(e) => Err(e),
        }
    }

    /// The tag that holds the memory map, if the blob has one. A tag of that
    /// type with no room for its fixed fields is an error.
    pub fn memory_map_tag(&self) -> (r: Result<Option<MemoryMapTag<'a>>, TagError>)
        ensures
            viewed(r) == fenced(self@.lookup(MEMORY_MAP_TAG_TYPE), MEMORY_MAP_FIXED_SIZE as int),
    {
        match self.get_tag(MEMORY_MAP_TAG_TYPE) {
            Ok(Some(tag)) => match MemoryMapTag::new(tag) {
                Ok(map) => Ok(Some(map)),
                Err(e) => Err(e),
            },
            Ok(None) => Ok(None),
            Err(e) => Err(e),
        }
    }

    /// A cursor over the module tags, which stands at the first tag. A blob
    /// may hold any number of them, among tags of other types.
    pub fn module_tags(&self) -> (r: ModuleIter<'a>)
        ensures
            r@ == (TagIterView { blob: self@.blob, offset: FIRST_TAG_OFFSET as int }),
    {
        ModuleIter::new(self.tags())
    }

    /// The tag that names the boot loader, if the blob has one.
    pub fn boot_loader_name_tag(&self) -> (r: Result<Option<BootLoaderNameTag<'a>>, TagError>)
        ensures
            viewed(r) == self@.lookup(BOOT_LOADER_NAME_TAG_TYPE),
    {
        match self.get_tag(BOOT_LOADER_NAME_TAG_TYPE) {
            Ok(Some(tag)) => Ok(Some(BootLoaderNameTag::new(tag))),
            Ok(None) => Ok(None),
            Err(e) => Err(e),
        }
    }
}

/// A search can be made again: what it returns depends on the bytes of the
/// blob and on the type that is looked for, and on nothing else. Two results
/// of one search, whether of a plain search (`min` is 0) or of one that asks
/// for the fixed fields of a type, hold the same.
pub proof fn lemma_search_repeats<T: View<V = TagView>>(
    info: BootInformationView,
    typ: u32,
    min: int,
    first: Result<Option<T>, TagError>,
    second: Result<Option<T>, TagError>,
)
    requires
        viewed(first) == fenced(info.lookup(typ), min),
        viewed(second) == fenced(info.lookup(typ), min),
    ensures
        viewed(first) == viewed(second),
        fenced(info.lookup(typ), 0) == info.lookup(typ),
{
}

/// A name can be read again: two results of reading the bytes `name` as a
/// string are both a string or both none, and two strings hold the same
/// characters.
pub proof fn lemma_name_repeats(name: Seq<u8>, first: Option<&str>, second: Option<&str>)
    requires
        first is Some <==> valid_utf8(name),
        first matches Some(s) ==> s@ == decode_utf8(name),
        second is Some <==> valid_utf8(name),
        second matches Some(s) ==> s@ == decode_utf8(name),
    ensures
        first is Some <==> second is Some,
        first matches Some(a) ==> second matches Some(b) && a@ == b@,
{
}

} // verus!
