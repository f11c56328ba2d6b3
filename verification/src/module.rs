//! The tags that describe the modules loaded beside the kernel.

use crate::bytes::{read_u32, u32_at};
use crate::header::{fenced, viewed, Tag, TagError, TagIter, TagIterView, TagView};
use crate::text::read_str;
use vstd::prelude::*;
use vstd::slice::slice_subrange;
use vstd::string::StringSliceAdditionalSpecFns;
use vstd::utf8::{decode_utf8, valid_utf8};

verus! {

broadcast use vstd::slice::group_slice_axioms;

/// The type of a tag that describes a module.
pub const MODULE_TAG_TYPE: u32 = 3;

/// Bytes of a module tag's payload taken by the two addresses, before the
/// name.
pub const MODULE_FIXED_SIZE: usize = 8;

/// The address at which the module of tag `t` starts.
pub open spec fn module_start(t: TagView) -> u32 {
    u32_at(t.payload, 0)
}

/// The address behind the module of tag `t`.
pub open spec fn module_end(t: TagView) -> u32 {
    u32_at(t.payload, 4)
}

/// The bytes of the name of the module of tag `t`: what its payload holds
/// behind the two addresses.
pub open spec fn module_name(t: TagView) -> Seq<u8> {
    t.payload.subrange(MODULE_FIXED_SIZE as int, t.payload.len() as int)
}

/// A tag read as a module: two addresses, then the module's name.
#[derive(Clone, Copy, Debug, PartialEq, Eq)]
pub struct ModuleTag<'a> {
    tag: Tag<'a>,
}

impl<'a> View for ModuleTag<'a> {
    type V = TagView;

    closed spec fn view(&self) -> TagView {
        self.tag@
    }
}

impl<'a> ModuleTag<'a> {
    #[verifier::type_invariant]
    spec fn holds_addresses(self) -> bool {
        self.tag@.payload.len() >= MODULE_FIXED_SIZE
    }

    /// Reads `tag` as a module. A tag with no room for the two addresses is
    /// refused.
    pub fn new(tag: Tag<'a>) -> (r: Result<Self, TagError>)
        ensures
            match r {
                Ok(module) => module@ == tag@ && tag@.payload.len() >= MODULE_FIXED_SIZE,
                Err(e) => e == TagError::TooShort && tag@.payload.len() < MODULE_FIXED_SIZE,
            },
    {
        if tag.payload().len() < MODULE_FIXED_SIZE {
            Err(TagError::TooShort)
        } else {
            Ok(ModuleTag { tag })
        }
    }

    /// The tag that is read.
    pub fn tag(&self) -> (r: Tag<'a>)
        ensures
            r@ == self@,
            self@.payload.len() >= MODULE_FIXED_SIZE,
    {
        proof {
            use_type_invariant(self);
        }
        self.tag
    }

    /// The address at which the module starts.
    pub fn start_address(&self) -> (r: u32)
        ensures
            r == module_start(self@),
    {
        proof {
            use_type_invariant(self);
        }
        read_u32(self.tag.payload(), 0)
    }

    /// The address behind the module's last byte.
    pub fn end_address(&self) -> (r: u32)
        ensures
            r == module_end(self@),
    {
        proof {
            use_type_invariant(self);
        }
        read_u32(self.tag.payload(), 4)
    }

    /// The bytes of the module's name: the payload behind the two addresses,
    /// up to the end of the tag.
    pub fn name_bytes(&self) -> (r: &'a [u8])
        ensures
            r@ == module_name(self@),
    {
        proof {
            use_type_invariant(self);
        }
        let payload = self.tag.payload();
        slice_subrange(payload, MODULE_FIXED_SIZE, payload.len())
    }

    /// The module's name. Its end is the end of the tag: no terminator is
    /// looked for. `None` if the bytes are not valid UTF-8.
    pub fn name(&self) -> (r: Option<&'a str>)
        ensures
            r is Some <==> valid_utf8(module_name(self@)),
            r matches Some(s) ==> s.spec_bytes() == module_name(self@) && s@ == decode_utf8(
                module_name(self@),
            ),
    {
        read_str(self.name_bytes())
    }
}

/// A cursor over the module tags of a blob.
#[derive(Clone, Copy, Debug)]
pub struct ModuleIter<'a> {
    iter: TagIter<'a>,
}

impl<'a> View for ModuleIter<'a> {
    type V = TagIterView;

    closed spec fn view(&self) -> TagIterView {
        self.iter@
    }
}

impl<'a> ModuleIter<'a> {
    /// A cursor over the module tags at or behind `iter`.
    pub fn new(iter: TagIter<'a>) -> (r: Self)
        ensures
            r@ == iter@,
    {
        ModuleIter { iter }
    }

    /// Yields the next module tag and moves behind it, passing over the
    /// tags of other types. A module tag with no room for its two addresses
    /// is reported, and the cursor moves behind it all the same.
    pub fn next(&mut self) -> (r: Result<Option<ModuleTag<'a>>, TagError>)
        ensures
            viewed(r) == fenced(old(self)@.lookup(MODULE_TAG_TYPE), MODULE_FIXED_SIZE as int),
            final(self)@ == old(self)@.after_lookup(MODULE_TAG_TYPE),
    {
        match self.iter.find(MODULE_TAG_TYPE) {
            Ok(Some(tag)) => match ModuleTag::new(tag) {
                Ok(module) => Ok(Some(module)),
                Err(e) => Err(e),
            },
            Ok(None) => Ok(None),
            Err(e) => Err(e),
        }
    }
}

} // verus!
