//! The layout of a blob, written out: the bytes that a list of tags makes,
//! and the proof that the cursor reads from those bytes the tags that went
//! in. Nothing here runs; the library does not write blobs.

use crate::bytes::{
    align_up, le_u32, lemma_le_u32_round_trip, lemma_u32_at_subrange, lemma_u32_at_window, u32_at,
};
use crate::header::{
    fault_from, first_of_type, has_type, is_first_of_type, lemma_first_of_type,
    lemma_walk_unfold, step_at, stop_from, tags_from, Step, TagView, END_TAG_SIZE, END_TAG_TYPE,
};
use crate::{load_check, BootInformationView, MIN_TOTAL_SIZE};
use vstd::prelude::*;

verus! {

/// A tag as a boot loader means it: a type and a payload.
pub struct RawTag {
    pub typ: u32,
    pub payload: Seq<u8>,
}

impl RawTag {
    /// The size that the tag declares: header and payload.
    pub open spec fn size(self) -> int {
        8 + self.payload.len() as int
    }
}

/// What a tag found in a blob says, apart from where it was found.
pub open spec fn raw(t: TagView) -> RawTag {
    RawTag { typ: t.typ, payload: t.payload }
}

/// Whether `t` can stand in a blob: its size fits the size field, and it is
/// not the end tag.
pub open spec fn storable(t: RawTag) -> bool {
    &&& t.size() <= u32::MAX
    &&& !(t.typ == END_TAG_TYPE && t.payload.len() == 0)
}

/// The bytes of one tag: type, size, payload, and zero bytes up to the next
/// multiple of eight.
#[verifier::opaque]
pub open spec fn encode_tag(t: RawTag) -> Seq<u8> {
    le_u32(t.typ) + le_u32(t.size() as u32) + t.payload + Seq::new(
        (align_up(t.size()) - t.size()) as nat,
        |i: int| 0u8,
    )
}

/// The bytes of a list of tags, one behind the other.
pub open spec fn encode_tags(tags: Seq<RawTag>) -> Seq<u8>
    decreases tags.len(),
{
    if tags.len() == 0 {
        Seq::empty()
    } else {
        encode_tag(tags[0]) + encode_tags(tags.drop_first())
    }
}

/// The bytes of the end tag.
pub open spec fn encode_end_tag() -> Seq<u8> {
    le_u32(END_TAG_TYPE) + le_u32(END_TAG_SIZE)
}

/// The total size of the blob that holds `tags`.
pub open spec fn blob_size(tags: Seq<RawTag>) -> int {
    MIN_TOTAL_SIZE + encode_tags(tags).len()
}

/// The bytes of the blob that holds `tags`: total size, reserved field,
/// the tags, the end tag.
pub open spec fn encode_blob(tags: Seq<RawTag>) -> Seq<u8> {
    le_u32(blob_size(tags) as u32) + le_u32(0) + encode_tags(tags) + encode_end_tag()
}

/// Whether `tags` can stand in one blob.
pub open spec fn encodable(tags: Seq<RawTag>) -> bool {
    &&& forall|i: int| 0 <= i < tags.len() ==> storable(#[trigger] tags[i])
    &&& blob_size(tags) <= u32::MAX
}

/// The bytes of one tag are a multiple of eight, and hold its header and
/// its payload where the cursor looks for them.
pub proof fn lemma_encode_tag(t: RawTag)
    requires
        t.size() <= u32::MAX,
    ensures
        encode_tag(t).len() == align_up(t.size()),
        encode_tag(t).len() % 8 == 0,
        encode_tag(t).len() >= 8,
        u32_at(encode_tag(t), 0) == t.typ,
        u32_at(encode_tag(t), 4) == t.size(),
        encode_tag(t).subrange(8, t.size()) == t.payload,
{
    reveal(encode_tag);
    let size = t.size();
    let bytes = encode_tag(t);
    lemma_le_u32_round_trip(t.typ);
    lemma_le_u32_round_trip(size as u32);
    assert(bytes.subrange(0, 4) =~= le_u32(t.typ));
    assert(bytes.subrange(4, 8) =~= le_u32(size as u32));
    lemma_u32_at_window(bytes, 0, le_u32(t.typ));
    lemma_u32_at_window(bytes, 4, le_u32(size as u32));
    assert(bytes.subrange(8, size) =~= t.payload);
}

/// Where the bytes of tag `t` lie at offset `off` of `blob`, the cursor
/// meets `t` there, and the next tag starts right behind those bytes.
pub proof fn lemma_step_at_encoded_tag(blob: Seq<u8>, off: int, t: RawTag)
    requires
        0 <= off,
        off % 8 == 0,
        storable(t),
        off + encode_tag(t).len() <= blob.len(),
        blob.subrange(off, off + encode_tag(t).len()) == encode_tag(t),
    ensures
        step_at(blob, off) == Step::Tag(
            TagView { offset: off, typ: t.typ, payload: t.payload },
        ),
        align_up(off + t.size()) == off + encode_tag(t).len(),
{
    let bytes = encode_tag(t);
    let to = off + bytes.len();
    lemma_encode_tag(t);
    lemma_u32_at_subrange(blob, off, to, 0);
    lemma_u32_at_subrange(blob, off, to, 4);
    assert(blob.subrange(off + 8, off + t.size()) =~= bytes.subrange(8, t.size()));
}

/// Where the bytes of the end tag lie at offset `off` of `blob`, the cursor
/// meets the end tag there.
pub proof fn lemma_step_at_encoded_end_tag(blob: Seq<u8>, off: int)
    requires
        0 <= off,
        off + 8 <= blob.len(),
        blob.subrange(off, off + 8) == encode_end_tag(),
    ensures
        step_at(blob, off) == Step::End,
{
    let bytes = encode_end_tag();
    lemma_le_u32_round_trip(END_TAG_TYPE);
    lemma_le_u32_round_trip(END_TAG_SIZE);
    assert(bytes.subrange(0, 4) =~= le_u32(END_TAG_TYPE));
    assert(bytes.subrange(4, 8) =~= le_u32(END_TAG_SIZE));
    lemma_u32_at_window(bytes, 0, le_u32(END_TAG_TYPE));
    lemma_u32_at_window(bytes, 4, le_u32(END_TAG_SIZE));
    lemma_u32_at_subrange(blob, off, off + 8, 0);
    lemma_u32_at_subrange(blob, off, off + 8, 4);
}

/// A walk that starts where the bytes of `tags` lie, in a blob that has
/// the end tag behind them, passes `tags`, each once and in their order,
/// and stops at the end tag.
pub proof fn lemma_walk_encoded(blob: Seq<u8>, off: int, tags: Seq<RawTag>)
    requires
        0 <= off,
        off % 8 == 0,
        forall|i: int| 0 <= i < tags.len() ==> storable(#[trigger] tags[i]),
        off + encode_tags(tags).len() + 8 <= blob.len(),
        blob.subrange(off, off + encode_tags(tags).len()) == encode_tags(tags),
        blob.subrange(off + encode_tags(tags).len(), off + encode_tags(tags).len() + 8)
            == encode_end_tag(),
    ensures
        tags_from(blob, off).len() == tags.len(),
        forall|i: int| 0 <= i < tags.len() ==> raw(#[trigger] tags_from(blob, off)[i]) == tags[i],
        stop_from(blob, off) == off + encode_tags(tags).len(),
        fault_from(blob, off) is None,
    decreases tags.len(),
{
    let n = encode_tags(tags).len() as int;
    if tags.len() == 0 {
        lemma_step_at_encoded_end_tag(blob, off);
    } else {
        let t = tags[0];
        let rest = tags.drop_first();
        let m = encode_tag(t).len() as int;
        let next = off + m;
        lemma_encode_tag(t);
        assert(blob.subrange(off, next) =~= blob.subrange(off, off + n).subrange(0, m));
        assert(encode_tags(tags).subrange(0, m) =~= encode_tag(t));
        assert(blob.subrange(next, off + n) =~= blob.subrange(off, off + n).subrange(m, n));
        assert(encode_tags(tags).subrange(m, n) =~= encode_tags(rest));
        lemma_step_at_encoded_tag(blob, off, t);
        assert forall|i: int| 0 <= i < rest.len() implies storable(#[trigger] rest[i]) by {
            assert(rest[i] == tags[i + 1]);
        }
        lemma_walk_encoded(blob, next, rest);
        lemma_walk_unfold(blob, off);
        let found = tags_from(blob, off);
        let found_rest = tags_from(blob, next);
        assert forall|i: int| 0 <= i < tags.len() implies raw(#[trigger] found[i]) == tags[i] by {
            if i > 0 {
                assert(found[i] == found_rest[i - 1]);
                assert(rest[i - 1] == tags[i]);
            }
        }
    }
}

/// The tags of a blob are read back as they were written: `load` accepts
/// the blob that holds `tags`, and the walk from its first tag passes
/// `tags`, each once and in their order, and stops at the end tag without
/// a fault.
pub proof fn lemma_encoded_blob_reads_back(address: usize, tags: Seq<RawTag>)
    requires
        encodable(tags),
        address + blob_size(tags) <= usize::MAX,
    ensures
        ({
            let blob = encode_blob(tags);
            let info = BootInformationView { address: address as int, blob };
            &&& blob.len() == blob_size(tags)
            &&& load_check(address, blob) is Ok
            &&& info.valid()
            &&& info.tags().len() == tags.len()
            &&& forall|i: int| 0 <= i < tags.len() ==> raw(#[trigger] info.tags()[i]) == tags[i]
            &&& info.fault() is None
        }),
{
    let blob = encode_blob(tags);
    let total = blob_size(tags) as u32;
    lemma_le_u32_round_trip(total);
    lemma_le_u32_round_trip(0);
    lemma_le_u32_round_trip(END_TAG_TYPE);
    lemma_le_u32_round_trip(END_TAG_SIZE);
    let n = blob.len() as int;
    assert(n == blob_size(tags));
    assert(blob.subrange(0, 4) =~= le_u32(total));
    lemma_u32_at_window(blob, 0, le_u32(total));
    assert(blob.subrange(8, n - 8) =~= encode_tags(tags));
    assert(blob.subrange(n - 8, n) =~= encode_end_tag());
    lemma_step_at_encoded_end_tag(blob, n - 8);
    lemma_walk_encoded(blob, 8, tags);
}

/// Where `found` holds the tags `tags`, the first tag of a type in `found`
/// is the first tag of that type in `tags`.
pub proof fn lemma_first_of_type_in_copy(found: Seq<TagView>, tags: Seq<RawTag>, typ: u32)
    requires
        found.len() == tags.len(),
        forall|i: int| 0 <= i < tags.len() ==> raw(#[trigger] found[i]) == tags[i],
    ensures
        match first_of_type(found, typ) {
            Some(t) => exists|i: int|
                {
                    &&& 0 <= i < tags.len()
                    &&& #[trigger] tags[i] == raw(t)
                    &&& forall|j: int| 0 <= j < i ==> (#[trigger] tags[j]).typ != typ
                },
            None => forall|i: int| 0 <= i < tags.len() ==> (#[trigger] tags[i]).typ != typ,
        },
{
    lemma_first_of_type(found, typ);
    if has_type(found, typ) {
        let i = choose|i: int| is_first_of_type(found, typ, i);
        assert(is_first_of_type(found, typ, i));
        assert(tags[i] == raw(found[i]));
        assert forall|j: int| 0 <= j < i implies (#[trigger] tags[j]).typ != typ by {
            assert(raw(found[j]) == tags[j]);
        }
    } else {
        assert forall|i: int| 0 <= i < tags.len() implies (#[trigger] tags[i]).typ != typ by {
            assert(raw(found[i]) == tags[i]);
        }
    }
}

/// In the blob that holds `tags`, a search for a type finds the first of
/// `tags` that has the type, and fails for no type: it gives `Ok(None)`
/// for the types that none of `tags` has.
pub proof fn lemma_encoded_blob_lookup(address: usize, tags: Seq<RawTag>, typ: u32)
    requires
        encodable(tags),
        address + blob_size(tags) <= usize::MAX,
    ensures
        ({
            let info = BootInformationView { address: address as int, blob: encode_blob(tags) };
            match info.lookup(typ) {
                Ok(Some(t)) => exists|i: int|
                    {
                        &&& 0 <= i < tags.len()
                        &&& #[trigger] tags[i] == raw(t)
                        &&& forall|j: int| 0 <= j < i ==> (#[trigger] tags[j]).typ != typ
                    },
                Ok(None) => forall|i: int| 0 <= i < tags.len() ==> (#[trigger] tags[i]).typ != typ,
                Err(_) => false,
            }
        }),
{
    let info = BootInformationView { address: address as int, blob: encode_blob(tags) };
    lemma_encoded_blob_reads_back(address, tags);
    lemma_first_of_type_in_copy(info.tags(), tags, typ);
}

} // verus!
