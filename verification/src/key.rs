//! Scoped storage-key derivation.
//!
//! A persisted row's physical key is a 256-bit digest of the owner's
//! identity, the entity or anchor id, and a tag naming the kind of row.
//! The tag keeps rows of different kinds apart even when owner and id
//! coincide; [`lemma_key_material_injective`] shows that the digested
//! material never collides across owners, ids, or tags, so the digests
//! collide only where the hash itself does.

use vstd::prelude::*;

verus! {

/// Names the kind of row a key addresses: one tag per entity kind and one
/// per relation kind.
#[derive(Clone, Copy, Debug, PartialEq, Eq, Structural)]
pub enum Tag {
    Role,
    Permission,
    Group,
    Role2User,
    Role2Group,
    Permission2Role,
    User2Group,
}

/// The tag's stable label: the ASCII bytes of its name.
pub open spec fn tag_label(t: Tag) -> Seq<u8> {
    match t {
        Tag::Role => seq![82u8, 111, 108, 101],
        Tag::Permission => seq![80u8, 101, 114, 109, 105, 115, 115, 105, 111, 110],
        Tag::Group => seq![71u8, 114, 111, 117, 112],
        Tag::Role2User => seq![82u8, 111, 108, 101, 50, 85, 115, 101, 114],
        Tag::Role2Group => seq![82u8, 111, 108, 101, 50, 71, 114, 111, 117, 112],
        Tag::Permission2Role => seq![
            80u8, 101, 114, 109, 105, 115, 115, 105, 111, 110, 50, 82, 111, 108, 101,
        ],
        Tag::User2Group => seq![85u8, 115, 101, 114, 50, 71, 114, 111, 117, 112],
    }
}

fn label_bytes(t: Tag) -> (r: Vec<u8>)
    ensures
        r@ == tag_label(t),
{
    match t {
        Tag::Role => vec![82u8, 111, 108, 101],
        Tag::Permission => vec![80u8, 101, 114, 109, 105, 115, 115, 105, 111, 110],
        Tag::Group => vec![71u8, 114, 111, 117, 112],
        Tag::Role2User => vec![82u8, 111, 108, 101, 50, 85, 115, 101, 114],
        Tag::Role2Group => vec![82u8, 111, 108, 101, 50, 71, 114, 111, 117, 112],
        Tag::Permission2Role => vec![
            80u8, 101, 114, 109, 105, 115, 115, 105, 111, 110, 50, 82, 111, 108, 101,
        ],
        Tag::User2Group => vec![85u8, 115, 101, 114, 50, 71, 114, 111, 117, 112],
    }
}

/// The little-endian bytes of a 64-bit integer.
pub open spec fn u64_le_bytes(x: u64) -> Seq<u8> {
    seq![
        (x & 0xff) as u8,
        ((x >> 8) & 0xff) as u8,
        ((x >> 16) & 0xff) as u8,
        ((x >> 24) & 0xff) as u8,
        ((x >> 32) & 0xff) as u8,
        ((x >> 40) & 0xff) as u8,
        ((x >> 48) & 0xff) as u8,
        ((x >> 56) & 0xff) as u8,
    ]
}

/// The little-endian bytes of a 32-bit integer.
pub open spec fn u32_le_bytes(x: u32) -> Seq<u8> {
    seq![
        (x & 0xff) as u8,
        ((x >> 8) & 0xff) as u8,
        ((x >> 16) & 0xff) as u8,
        ((x >> 24) & 0xff) as u8,
    ]
}

/// Relies on parity_scale_codec::Encode for u64: a fixed-width integer
/// encodes to exactly its little-endian bytes.
#[verifier::external_body]
fn encode_u64(x: u64) -> (r: Vec<u8>)
    ensures
        r@ == u64_le_bytes(x),
{
    parity_scale_codec::Encode::encode(&x)
}

/// Relies on parity_scale_codec::Encode for u32: a fixed-width integer
/// encodes to exactly its little-endian bytes.
#[verifier::external_body]
fn encode_u32(x: u32) -> (r: Vec<u8>)
    ensures
        r@ == u32_le_bytes(x),
{
    parity_scale_codec::Encode::encode(&x)
}

/// The 256-bit Blake2b digest of a byte string, named but not described:
/// it depends on the bytes alone.
pub uninterp spec fn blake2_digest(data: Seq<u8>) -> Seq<u8>;

/// Relies on sp_io::hashing::blake2_256: the 256-bit Blake2b digest of the
/// input, a pure function of it.
#[verifier::external_body]
fn blake2_256(data: &Vec<u8>) -> (r: [u8; 32])
    ensures
        r@ == blake2_digest(data@),
{
    sp_io::hashing::blake2_256(data.as_slice())
}

/// The material a storage key digests: owner, then id, then tag label.
pub open spec fn key_material_spec(owner: u64, id: u32, tag: Tag) -> Seq<u8> {
    u64_le_bytes(owner) + u32_le_bytes(id) + tag_label(tag)
}

/// Serializes owner, id, and tag label in order.
pub fn key_material(owner: u64, id: u32, tag: Tag) -> (r: Vec<u8>)
    ensures
        r@ == key_material_spec(owner, id, tag),
{
    let mut out = encode_u64(owner);
    let mut id_bytes = encode_u32(id);
    out.append(&mut id_bytes);
    let mut label = label_bytes(tag);
    out.append(&mut label);
    out
}

/// Derives the physical storage key for `(owner, id, tag)`.
pub fn generate_key(owner: u64, id: u32, tag: Tag) -> (r: [u8; 32])
    ensures
        r@ == blake2_digest(key_material_spec(owner, id, tag)),
{
    let material = key_material(owner, id, tag);
    blake2_256(&material)
}

/// Key material never collides: two triples digest the same bytes only if
/// they are the same triple. Distinct tags therefore never alias a key for
/// one `(owner, id)`, and distinct owners never alias one another's keys.
pub proof fn lemma_key_material_injective(o1: u64, i1: u32, t1: Tag, o2: u64, i2: u32, t2: Tag)
    requires
        key_material_spec(o1, i1, t1) == key_material_spec(o2, i2, t2),
    ensures
        o1 == o2,
        i1 == i2,
        t1 == t2,
{
    let p1 = key_material_spec(o1, i1, t1);
    let p2 = key_material_spec(o2, i2, t2);
    assert forall|j: int| 0 <= j < 8 implies u64_le_bytes(o1)[j] == u64_le_bytes(o2)[j] by {
        assert(p1[j] == p2[j]);
    }
    assert(o1 == o2) by (bit_vector)
        requires
            ((o1 & 0xff) as u8) == ((o2 & 0xff) as u8),
            (((o1 >> 8) & 0xff) as u8) == (((o2 >> 8) & 0xff) as u8),
            (((o1 >> 16) & 0xff) as u8) == (((o2 >> 16) & 0xff) as u8),
            (((o1 >> 24) & 0xff) as u8) == (((o2 >> 24) & 0xff) as u8),
            (((o1 >> 32) & 0xff) as u8) == (((o2 >> 32) & 0xff) as u8),
            (((o1 >> 40) & 0xff) as u8) == (((o2 >> 40) & 0xff) as u8),
            (((o1 >> 48) & 0xff) as u8) == (((o2 >> 48) & 0xff) as u8),
            (((o1 >> 56) & 0xff) as u8) == (((o2 >> 56) & 0xff) as u8),
    ;
    assert forall|j: int| 0 <= j < 4 implies u32_le_bytes(i1)[j] == u32_le_bytes(i2)[j] by {
        assert(p1[8 + j] == p2[8 + j]);
    }
    assert(i1 == i2) by (bit_vector)
        requires
            ((i1 & 0xff) as u8) == ((i2 & 0xff) as u8),
            (((i1 >> 8) & 0xff) as u8) == (((i2 >> 8) & 0xff) as u8),
            (((i1 >> 16) & 0xff) as u8) == (((i2 >> 16) & 0xff) as u8),
            (((i1 >> 24) & 0xff) as u8) == (((i2 >> 24) & 0xff) as u8),
    ;
    assert(p1.len() == 12 + tag_label(t1).len());
    assert(p2.len() == 12 + tag_label(t2).len());
    assert(tag_label(t1).len() == tag_label(t2).len());
    if t1 != t2 {
        assert(p1[12] == p2[12]);
        assert(p1[16int] == p2[16int] || tag_label(t1).len() <= 4);
        assert(false);
    }
}

} // verus!
