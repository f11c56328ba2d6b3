//! The tag that names the boot loader.

use crate::header::{Tag, TagView};
use crate::text::read_str;
use vstd::prelude::*;
use vstd::string::StringSliceAdditionalSpecFns;
use vstd::utf8::{decode_utf8, valid_utf8};

verus! {

/// The type of the tag that names the boot loader.
pub const BOOT_LOADER_NAME_TAG_TYPE: u32 = 2;

/// A tag read as the boot loader's name: its whole payload is the name.
#[derive(Clone, Copy, Debug, PartialEq, Eq)]
pub struct BootLoaderNameTag<'a> {
    tag: Tag<'a>,
}

impl<'a> View for BootLoaderNameTag<'a> {
    type V = TagView;

    closed spec fn view(&self) -> TagView {
        self.tag@
    }
}

impl<'a> BootLoaderNameTag<'a> {
    /// Reads `tag` as the boot loader's name.
    pub fn new(tag: Tag<'a>) -> (r: Self)
        ensures
            r@ == tag@,
    {
        BootLoaderNameTag { tag }
    }

    /// The tag that is read.
    pub fn tag(&self) -> (r: Tag<'a>)
        ensures
            r@ == self@,
    {
        self.tag
    }

    /// The bytes of the name: the payload from its first byte to its last,
    /// as many as the tag's size declares.
    pub fn name_bytes(&self) -> (r: &'a [u8])
        ensures
            r@ == self@.payload,
    {
        self.tag.payload()
    }

    /// The name. Its end is the end of the tag: no terminator is looked
    /// for, and a zero byte in the payload is part of the name. `None` if
    /// the payload is not valid UTF-8.
    pub fn name(&self) -> (r: Option<&'a str>)
        ensures
            r is Some <==> valid_utf8(self@.payload),
            r matches Some(s) ==> s.spec_bytes() == self@.payload && s@ == decode_utf8(
                self@.payload,
            ),
    {
        read_str(self.tag.payload())
    }
}

} // verus!
