//! The tag header that every record starts with, and the cursor that walks
//! the records of a blob.
//!
//! A blob is a run of tags. Each tag starts at a multiple of eight bytes and
//! opens with two little-endian `u32`: its type and its size, the size
//! counting the header itself. The run ends with the end tag, of type 0 and
//! size 8. The cursor never reads outside the blob: a tag that does not fit
//! stops the walk with a [`TagError`].

use crate::bytes::{align_up, read_u32, u32_at};
use vstd::prelude::*;
use vstd::slice::slice_subrange;

verus! {

broadcast use vstd::slice::group_slice_axioms;

/// Bytes taken by the type and size fields at the start of each tag.
pub const TAG_HEADER_SIZE: usize = 8;

/// The type of the tag that ends the list.
pub const END_TAG_TYPE: u32 = 0;

/// The size of the tag that ends the list.
pub const END_TAG_SIZE: u32 = 8;

/// Why the bytes of a blob cannot be read as the structure they claim to be.
#[derive(Clone, Copy, Debug, PartialEq, Eq)]
pub enum TagError {
    /// Fewer than eight bytes are left where a tag header has to start.
    MissingHeader,
    /// A tag declares a size smaller than its own header.
    SizeTooSmall,
    /// A tag, together with the padding behind it, reaches beyond the blob.
    SizeTooLarge,
    /// A tag is shorter than the fixed fields of its type.
    TooShort,
    /// A table declares entries smaller than one entry of its type.
    BadEntrySize,
    /// A table declares more entries than its tag has room for.
    EntriesOverrun,
}

/// What a tag is, apart from where its bytes are kept.
pub struct TagView {
    /// Offset of the tag's header from the start of the blob.
    pub offset: int,
    /// The tag's type.
    pub typ: u32,
    /// The bytes between the header and the end of the tag.
    pub payload: Seq<u8>,
}

impl TagView {
    /// The size that the tag declares: header and payload.
    pub open spec fn size(self) -> int {
        8 + self.payload.len() as int
    }

    /// Offset at which the tag after this one starts.
    pub open spec fn end(self) -> int {
        align_up(self.offset + self.size())
    }
}

/// What the cursor meets at one offset of a blob.
pub enum Step {
    /// The end tag.
    End,
    /// Bytes that are no tag.
    Broken(TagError),
    /// A tag that lies within the blob.
    Tag(TagView),
}

/// Whether the eight bytes at `off` are the end tag.
pub open spec fn is_end_tag(blob: Seq<u8>, off: int) -> bool {
    u32_at(blob, off) == END_TAG_TYPE && u32_at(blob, off + 4) == END_TAG_SIZE
}

/// What the cursor meets at offset `off` of `blob`.
pub open spec fn step_at(blob: Seq<u8>, off: int) -> Step {
    if off < 0 || off + 8 > blob.len() {
        Step::Broken(TagError::MissingHeader)
    } else if is_end_tag(blob, off) {
        Step::End
    } else {
        let size = u32_at(blob, off + 4);
        if size < 8 {
            Step::Broken(TagError::SizeTooSmall)
        } else if align_up(off + size) > blob.len() {
            Step::Broken(TagError::SizeTooLarge)
        } else {
            Step::Tag(
                TagView {
                    offset: off,
                    typ: u32_at(blob, off),
                    payload: blob.subrange(off + 8, off + size),
                },
            )
        }
    }
}

/// The tags that a walk from `off` passes, in storage order, up to the end
/// tag or to the first bytes that are no tag.
pub open spec fn tags_from(blob: Seq<u8>, off: int) -> Seq<TagView>
    decreases blob.len() - off,
{
    match step_at(blob, off) {
        Step::Tag(t) => seq![t] + tags_from(blob, t.end()),
        _ => Seq::empty(),
    }
}

/// The offset at which a walk from `off` stops.
pub open spec fn stop_from(blob: Seq<u8>, off: int) -> int
    decreases blob.len() - off,
{
    match step_at(blob, off) {
        Step::Tag(t) => stop_from(blob, t.end()),
        _ => off,
    }
}

/// How a walk from `off` ends: `None` at the end tag, else the fault met.
pub open spec fn fault_from(blob: Seq<u8>, off: int) -> Option<TagError> {
    match step_at(blob, stop_from(blob, off)) {
        Step::Broken(e) => Some(e),
        _ => None,
    }
}

/// Whether `tags[i]` is the first tag of type `typ` in `tags`.
pub open spec fn is_first_of_type(tags: Seq<TagView>, typ: u32, i: int) -> bool {
    &&& 0 <= i < tags.len()
    &&& tags[i].typ == typ
    &&& forall|j: int| 0 <= j < i ==> (#[trigger] tags[j]).typ != typ
}

/// Whether `tags` holds a tag of type `typ`.
pub open spec fn has_type(tags: Seq<TagView>, typ: u32) -> bool {
    exists|i: int| 0 <= i < tags.len() && (#[trigger] tags[i]).typ == typ
}

/// The first tag of type `typ` in `tags`, if there is one.
pub open spec fn first_of_type(tags: Seq<TagView>, typ: u32) -> Option<TagView> {
    if has_type(tags, typ) {
        Some(tags[choose|i: int| is_first_of_type(tags, typ, i)])
    } else {
        None
    }
}

/// Among the tags up to `tags[n]`, which has type `typ`, one is the first of
/// that type.
proof fn lemma_first_up_to(tags: Seq<TagView>, typ: u32, n: int)
    requires
        0 <= n < tags.len(),
        tags[n].typ == typ,
    ensures
        exists|i: int| 0 <= i <= n && is_first_of_type(tags, typ, i),
    decreases n,
{
    if exists|j: int| 0 <= j < n && (#[trigger] tags[j]).typ == typ {
        let j = choose|j: int| 0 <= j < n && (#[trigger] tags[j]).typ == typ;
        lemma_first_up_to(tags, typ, j);
    } else {
        assert(is_first_of_type(tags, typ, n));
    }
}

/// `first_of_type` is the one tag that `is_first_of_type` holds of, and is
/// `None` exactly where `tags` has no tag of the type.
pub proof fn lemma_first_of_type(tags: Seq<TagView>, typ: u32)
    ensures
        forall|i: int| #[trigger]
            is_first_of_type(tags, typ, i) ==> first_of_type(tags, typ) == Some(tags[i]),
        first_of_type(tags, typ) is None <==> !has_type(tags, typ),
        has_type(tags, typ) ==> exists|i: int| is_first_of_type(tags, typ, i),
{
    if has_type(tags, typ) {
        let n = choose|n: int| 0 <= n < tags.len() && (#[trigger] tags[n]).typ == typ;
        lemma_first_up_to(tags, typ, n);
    }
    assert forall|i: int| #[trigger] is_first_of_type(tags, typ, i) implies first_of_type(
        tags,
        typ,
    ) == Some(tags[i]) by {
        let j = choose|j: int| is_first_of_type(tags, typ, j);
        assert(is_first_of_type(tags, typ, j));
        assert(tags[i].typ == typ);
        if i < j {
            assert(tags[i].typ != typ);
        }
        if j < i {
            assert(tags[j].typ != typ);
        }
    }
}

/// Behind a tag, the walk goes on as a walk that starts behind it; at
/// anything else it stops.
pub proof fn lemma_walk_unfold(blob: Seq<u8>, off: int)
    ensures
        match step_at(blob, off) {
            Step::Tag(t) => {
                &&& tags_from(blob, off) == seq![t] + tags_from(blob, t.end())
                &&& stop_from(blob, off) == stop_from(blob, t.end())
                &&& fault_from(blob, off) == fault_from(blob, t.end())
            },
            _ => {
                &&& tags_from(blob, off) == Seq::<TagView>::empty()
                &&& stop_from(blob, off) == off
            },
        },
{
}

/// A walk that starts behind the `i`-th tag of a walk passes the tags
/// behind that tag, and stops where that walk stops.
pub proof fn lemma_walk_behind(blob: Seq<u8>, off: int, i: int)
    requires
        0 <= i < tags_from(blob, off).len(),
    ensures
        tags_from(blob, tags_from(blob, off)[i].end()) == tags_from(blob, off).skip(i + 1),
        stop_from(blob, tags_from(blob, off)[i].end()) == stop_from(blob, off),
    decreases i,
{
    lemma_walk_unfold(blob, off);
    let tags = tags_from(blob, off);
    let first = tags[0];
    let rest = tags_from(blob, first.end());
    assert(rest =~= tags.skip(1));
    if i > 0 {
        lemma_walk_behind(blob, first.end(), i - 1);
        assert(rest[i - 1] == tags[i]);
        assert(rest.skip(i) =~= tags.skip(i + 1));
    }
}

/// Where a walk stops, no tag is left.
pub proof fn lemma_walk_at_stop(blob: Seq<u8>, off: int)
    ensures
        tags_from(blob, stop_from(blob, off)) == Seq::<TagView>::empty(),
        stop_from(blob, stop_from(blob, off)) == stop_from(blob, off),
    decreases blob.len() - off,
{
    lemma_walk_unfold(blob, off);
    match step_at(blob, off) {
        Step::Tag(t) => {
            lemma_walk_at_stop(blob, t.end());
        },
        _ => {},
    }
}

/// What is left for a cursor after a search: the tags behind the tag that
/// was found, or none where none was found. The walk ends as it would have
/// ended before the search. So a second search goes on where the first
/// stopped, and passes no tag twice.
pub proof fn lemma_after_lookup(cursor: TagIterView, typ: u32)
    ensures
        cursor.after_lookup(typ).stop() == cursor.stop(),
        cursor.after_lookup(typ).fault() == cursor.fault(),
        forall|i: int| #[trigger]
            is_first_of_type(cursor.remaining(), typ, i) ==> cursor.after_lookup(typ).remaining()
                == cursor.remaining().skip(i + 1),
        !has_type(cursor.remaining(), typ) ==> cursor.after_lookup(typ).remaining() == Seq::<
            TagView,
        >::empty(),
{
    let tags = cursor.remaining();
    lemma_first_of_type(tags, typ);
    lemma_walk_at_stop(cursor.blob, cursor.offset);
    assert forall|i: int| #[trigger] is_first_of_type(tags, typ, i) implies cursor.after_lookup(
        typ,
    ).remaining() == tags.skip(i + 1) && cursor.after_lookup(typ).stop() == cursor.stop() by {
        lemma_walk_behind(cursor.blob, cursor.offset, i);
    }
}

/// The tags of type `typ` among `tags`, in their order.
pub open spec fn of_type(tags: Seq<TagView>, typ: u32) -> Seq<TagView> {
    tags.filter(|t: TagView| t.typ == typ)
}

/// Searches for one type, one after the other, yield the tags of that type
/// and no others, each once and in storage order, whatever tags of other
/// types stand between them: a search finds the first of the tags of the
/// type that are left, and leaves the rest of them.
pub proof fn lemma_search_walks_of_type(cursor: TagIterView, typ: u32)
    ensures
        ({
            let wanted = of_type(cursor.remaining(), typ);
            let left = of_type(cursor.after_lookup(typ).remaining(), typ);
            if wanted.len() > 0 {
                first_of_type(cursor.remaining(), typ) == Some(wanted[0]) && left == wanted.skip(1)
            } else {
                first_of_type(cursor.remaining(), typ) is None && left.len() == 0
            }
        }),
{
    let tags = cursor.remaining();
    let pred = |t: TagView| t.typ == typ;
    lemma_first_of_type(tags, typ);
    lemma_after_lookup(cursor, typ);
    if has_type(tags, typ) {
        let i = choose|i: int| is_first_of_type(tags, typ, i);
        let before = tags.take(i);
        let behind = tags.skip(i + 1);
        assert(tags =~= before + (seq![tags[i]] + behind));
        assert(before.all(|t: TagView| !pred(t))) by {
            assert forall|k: int| 0 <= k < before.len() implies !pred(#[trigger] before[k]) by {
                assert(before[k] == tags[k]);
            }
        }
        before.lemma_all_neg_filter_empty(pred);
        Seq::filter_distributes_over_add(before, seq![tags[i]] + behind, pred);
        behind.lemma_filter_prepend(tags[i], pred);
        assert(before.filter(pred) =~= Seq::<TagView>::empty());
        assert(tags.filter(pred) =~= seq![tags[i]] + behind.filter(pred));
        assert(tags.filter(pred).skip(1) =~= behind.filter(pred));
    } else {
        assert(tags.all(|t: TagView| !pred(t))) by {
            assert forall|k: int| 0 <= k < tags.len() implies !pred(#[trigger] tags[k]) by {}
        }
        tags.lemma_all_neg_filter_empty(pred);
        Seq::<TagView>::empty().lemma_filter_len(pred);
    }
}

/// What a search for a tag gives, with each tag found taken by its view.
pub open spec fn viewed<T: View>(r: Result<Option<T>, TagError>) -> Result<Option<T::V>, TagError> {
    match r {
        Ok(Some(t)) => Ok(Some(t@)),
        Ok(None) => Ok(None),
        Err(e) => Err(e),
    }
}

/// A search that has found a tag fails all the same where the tag's payload
/// is shorter than `min` bytes, the fixed fields of its type.
pub open spec fn fenced(found: Result<Option<TagView>, TagError>, min: int) -> Result<
    Option<TagView>,
    TagError,
> {
    match found {
        Ok(Some(t)) => if t.payload.len() < min {
            Err(TagError::TooShort)
        } else {
            Ok(Some(t))
        },
        _ => found,
    }
}

/// One tag of a blob: where it starts, its type, and its payload.
#[derive(Clone, Copy, Debug, PartialEq, Eq)]
pub struct Tag<'a> {
    offset: usize,
    typ: u32,
    payload: &'a [u8],
}

impl<'a> View for Tag<'a> {
    type V = TagView;

    closed spec fn view(&self) -> TagView {
        TagView { offset: self.offset as int, typ: self.typ, payload: self.payload@ }
    }
}

impl<'a> Tag<'a> {
    #[verifier::type_invariant]
    spec fn well_formed(self) -> bool {
        8 + self.payload@.len() <= u32::MAX
    }

    /// Offset of the tag's header from the start of the blob.
    pub fn offset(&self) -> (r: usize)
        ensures
            r == self@.offset,
    {
        self.offset
    }

    /// The tag's type.
    pub fn typ(&self) -> (r: u32)
        ensures
            r == self@.typ,
    {
        self.typ
    }

    /// The size that the tag declares: header and payload.
    pub fn size(&self) -> (r: u32)
        ensures
            r == self@.size(),
    {
        proof {
            use_type_invariant(self);
        }
        (self.payload.len() + TAG_HEADER_SIZE) as u32
    }

    /// The bytes between the header and the end of the tag.
    pub fn payload(&self) -> (r: &'a [u8])
        ensures
            r@ == self@.payload,
    {
        self.payload
    }
}

/// What a cursor is: the blob it walks and the offset it stands at.
pub struct TagIterView {
    pub blob: Seq<u8>,
    pub offset: int,
}

impl TagIterView {
    /// The tags that the cursor has yet to pass.
    pub open spec fn remaining(self) -> Seq<TagView> {
        tags_from(self.blob, self.offset)
    }

    /// The offset at which the cursor will stop.
    pub open spec fn stop(self) -> int {
        stop_from(self.blob, self.offset)
    }

    /// How the cursor's walk will end.
    pub open spec fn fault(self) -> Option<TagError> {
        fault_from(self.blob, self.offset)
    }

    /// What a search for the first tag of type `typ` at or behind the cursor
    /// gives: that tag; or `Ok(None)`, where no tag has the type and the
    /// walk reaches the end tag; or the fault that stops the walk before any
    /// tag of the type.
    pub open spec fn lookup(self, typ: u32) -> Result<Option<TagView>, TagError> {
        match first_of_type(self.remaining(), typ) {
            Some(t) => Ok(Some(t)),
            None => match self.fault() {
                Some(e) => Err(e),
                None => Ok(None),
            },
        }
    }

    /// The cursor after that search: behind the tag found, or where the walk
    /// stops.
    pub open spec fn after_lookup(self, typ: u32) -> TagIterView {
        match first_of_type(self.remaining(), typ) {
            Some(t) => TagIterView { blob: self.blob, offset: t.end() },
            None => TagIterView { blob: self.blob, offset: self.stop() },
        }
    }
}

/// A cursor over the tags of a blob.
#[derive(Clone, Copy, Debug)]
pub struct TagIter<'a> {
    blob: &'a [u8],
    offset: usize,
}

impl<'a> View for TagIter<'a> {
    type V = TagIterView;

    closed spec fn view(&self) -> TagIterView {
        TagIterView { blob: self.blob@, offset: self.offset as int }
    }
}

impl<'a> TagIter<'a> {
    /// A cursor that stands at offset `offset` of `blob`.
    pub fn new(blob: &'a [u8], offset: usize) -> (r: Self)
        ensures
            r@ == (TagIterView { blob: blob@, offset: offset as int }),
    {
        TagIter { blob, offset }
    }

    /// Yields the tag at the cursor and moves behind it. At the end tag, and
    /// at bytes that are no tag, the cursor stays where it is.
    pub fn next(&mut self) -> (r: Result<Option<Tag<'a>>, TagError>)
        ensures
            match step_at(old(self)@.blob, old(self)@.offset) {
                Step::Tag(t) => {
                    &&& r matches Ok(Some(tag))
                    &&& tag@ == t
                    &&& final(self)@ == (TagIterView { blob: old(self)@.blob, offset: t.end() })
                },
                Step::End => r matches Ok(None) && final(self)@ == old(self)@,
                Step::Broken(e) => r == Err::<Option<Tag<'a>>, TagError>(e) && final(self)@ == old(
                    self,
                )@,
            },
    {
        let len = self.blob.len();
        if self.offset > len || len - self.offset < TAG_HEADER_SIZE {
            return Err(TagError::MissingHeader);
        }
        let typ = read_u32(self.blob, self.offset);
        let size = read_u32(self.blob, self.offset + 4);
        if typ == END_TAG_TYPE && size == END_TAG_SIZE {
            return Ok(None);
        }
        if size < END_TAG_SIZE {
            return Err(TagError::SizeTooSmall);
        }
        let room = len - self.offset;
        if size as usize > room {
            return Err(TagError::SizeTooLarge);
        }
        let end = self.offset + size as usize;
        let rest = end % 8;
        let padding: usize = if rest == 0 {
            0
        } else {
            8 - rest
        };
        if padding > len - end {
            return Err(TagError::SizeTooLarge);
        }
        let payload = slice_subrange(self.blob, self.offset + TAG_HEADER_SIZE, end);
        let tag = Tag { offset: self.offset, typ, payload };
        self.offset = end + padding;
        Ok(Some(tag))
    }

    /// Moves to the first tag of type `typ` at or behind the cursor, yields
    /// it and moves behind it. Where there is none, the cursor stops where
    /// the walk ends.
    pub fn find(&mut self, typ: u32) -> (r: Result<Option<Tag<'a>>, TagError>)
        ensures
            viewed(r) == old(self)@.lookup(typ),
            final(self)@ == old(self)@.after_lookup(typ),
    {
        let ghost blob = self@.blob;
        let ghost all = self@.remaining();
        let ghost stop = self@.stop();
        let ghost mut seen: Seq<TagView> = Seq::empty();
        loop
            invariant
                blob == old(self)@.blob,
                all == old(self)@.remaining(),
                stop == old(self)@.stop(),
                self@.blob == blob,
                all == seen + self@.remaining(),
                stop == self@.stop(),
                forall|j: int| 0 <= j < seen.len() ==> (#[trigger] seen[j]).typ != typ,
            decreases blob.len() - self@.offset,
        {
            match self.next() {
                Ok(Some(tag)) => {
                    proof {
                        assert(all =~= seen.push(tag@) + self@.remaining());
                    }
                    if tag.typ() == typ {
                        proof {
                            assert(all[seen.len() as int] == tag@);
                            assert(is_first_of_type(all, typ, seen.len() as int));
                            lemma_first_of_type(all, typ);
                        }
                        return Ok(Some(tag));
                    }
                    proof {
                        seen = seen.push(tag@);
                    }
                },
                Ok(None) => {
                    proof {
                        assert(all =~= seen);
                        lemma_first_of_type(all, typ);
                    }
                    return Ok(None);
                },
                Err(e) => {
                    proof {
                        assert(all =~= seen);
                        lemma_first_of_type(all, typ);
                    }
                    return Err(e);
                },
            }
        }
    }
}

} // verus!
