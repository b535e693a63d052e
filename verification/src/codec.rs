//! Byte-level model of the host's argument serialization.
//!
//! The host hands a module its arguments as one flat byte buffer: 32-bit and
//! 16-bit signed integers in little-endian order, and blobs as a 4-byte
//! signed length prefix followed by that many payload bytes.  The spec
//! functions here say what each field of such a buffer means; the `pack_*`
//! functions build buffers in that form, and the lemmas state the round-trip
//! laws the cursor in [`crate::data`] relies on.

use vstd::bytes::*;
use vstd::prelude::*;

verus! {

/// Two's-complement 32-bit pattern of a signed value in `[-2^31, 2^31)`.
pub open spec fn u32_of_i32(v: int) -> int {
    if v >= 0 {
        v
    } else {
        v + 0x1_0000_0000
    }
}

/// Signed value of a 32-bit pattern in `[0, 2^32)`.
pub open spec fn i32_of_u32(u: int) -> int {
    if u < 0x8000_0000 {
        u
    } else {
        u - 0x1_0000_0000
    }
}

/// Two's-complement 16-bit pattern of a signed value in `[-2^15, 2^15)`.
pub open spec fn u16_of_i16(v: int) -> int {
    if v >= 0 {
        v
    } else {
        v + 0x1_0000
    }
}

/// Signed value of a 16-bit pattern in `[0, 2^16)`.
pub open spec fn i16_of_u16(u: int) -> int {
    if u < 0x8000 {
        u
    } else {
        u - 0x1_0000
    }
}

/// Two's-complement 32-bit pattern of a signed value, as executable code.
pub fn i32_bits(v: i32) -> (u: u32)
    ensures
        u as int == u32_of_i32(v as int),
{
    if v >= 0 {
        v as u32
    } else {
        (((v + 0x4000_0000) + 0x4000_0000) as u32) + 0x8000_0000
    }
}

/// Signed value of a 32-bit pattern, as executable code.
pub fn i32_of_bits(u: u32) -> (v: i32)
    ensures
        v as int == i32_of_u32(u as int),
{
    if u < 0x8000_0000 {
        u as i32
    } else {
        (0 - ((0xFFFF_FFFFu32 - u) as i32)) - 1
    }
}

/// Two's-complement 16-bit pattern of a signed value, as executable code.
pub fn i16_bits(v: i16) -> (u: u16)
    ensures
        u as int == u16_of_i16(v as int),
{
    if v >= 0 {
        v as u16
    } else {
        (((v + 0x4000) + 0x4000) as u16) + 0x8000
    }
}

/// Signed value of a 16-bit pattern, as executable code.
pub fn i16_of_bits(u: u16) -> (v: i16)
    ensures
        v as int == i16_of_u16(u as int),
{
    if u < 0x8000 {
        u as i16
    } else {
        (0 - ((0xFFFFu16 - u) as i16)) - 1
    }
}

/// The signed 32-bit integer stored little-endian at `pos` in `b`.
pub open spec fn dec_int_at(b: Seq<u8>, pos: int) -> int
    recommends
        0 <= pos,
        pos + 4 <= b.len(),
{
    i32_of_u32(spec_u32_from_le_bytes(b.subrange(pos, pos + 4)) as int)
}

/// The signed 16-bit integer stored little-endian at `pos` in `b`.
pub open spec fn dec_short_at(b: Seq<u8>, pos: int) -> int
    recommends
        0 <= pos,
        pos + 2 <= b.len(),
{
    i16_of_u16(spec_u16_from_le_bytes(b.subrange(pos, pos + 2)) as int)
}

/// True when a whole length-prefixed blob lies at `pos` in `b`: the 4-byte
/// prefix fits, is non-negative, and announces no more bytes than remain.
pub open spec fn blob_ok(b: Seq<u8>, pos: int) -> bool {
    &&& 0 <= pos
    &&& pos + 4 <= b.len()
    &&& 0 <= dec_int_at(b, pos)
    &&& pos + 4 + dec_int_at(b, pos) <= b.len()
}

/// The payload of the length-prefixed blob at `pos` in `b`.
pub open spec fn blob_at(b: Seq<u8>, pos: int) -> Seq<u8>
    recommends
        blob_ok(b, pos),
{
    b.subrange(pos + 4, pos + 4 + dec_int_at(b, pos))
}

/// The serialized form of a 32-bit integer.
pub open spec fn enc_int(v: i32) -> Seq<u8> {
    spec_u32_to_le_bytes(u32_of_i32(v as int) as u32)
}

/// The serialized form of a 16-bit integer.
pub open spec fn enc_short(v: i16) -> Seq<u8> {
    spec_u16_to_le_bytes(u16_of_i16(v as int) as u16)
}

/// The serialized form of a blob: its length, then its bytes.
pub open spec fn enc_blob(b: Seq<u8>) -> Seq<u8>
    recommends
        b.len() <= 0x7FFF_FFFF,
{
    enc_int(b.len() as i32) + b
}

/// Appends the serialized form of `v` to `buf`.
pub fn pack_int(buf: &mut Vec<u8>, v: i32)
    ensures
        final(buf)@ == old(buf)@ + enc_int(v),
{
    let bits: u32 = i32_bits(v);
    proof {
        assert(u32_of_i32(v as int) as u32 == bits);
    }
    let mut bytes: Vec<u8> = u32_to_le_bytes(bits);
    buf.append(&mut bytes);
}

/// Appends the serialized form of `v` to `buf`.
pub fn pack_short(buf: &mut Vec<u8>, v: i16)
    ensures
        final(buf)@ == old(buf)@ + enc_short(v),
{
    let bits: u16 = i16_bits(v);
    proof {
        assert(u16_of_i16(v as int) as u16 == bits);
    }
    let mut bytes: Vec<u8> = u16_to_le_bytes(bits);
    buf.append(&mut bytes);
}

/// Appends the serialized form of the blob `data` to `buf`: a 4-byte length
/// prefix, then the bytes of `data`.
pub fn pack_bytes(buf: &mut Vec<u8>, data: &[u8])
    requires
        data@.len() <= 0x7FFF_FFFF,
    ensures
        final(buf)@ == old(buf)@ + enc_blob(data@),
{
    let n: usize = data.len();
    pack_int(buf, n as i32);
    buf.extend_from_slice(data);
    proof {
        assert(buf@ =~= old(buf)@ + enc_blob(data@));
    }
}

/// One argument value of the serialization protocol.
pub enum ArgItem {
    /// A 32-bit signed integer.
    Int(i32),
    /// A 16-bit signed integer.
    Short(i16),
    /// A length-prefixed blob.
    Blob(Seq<u8>),
}

/// True when an item can be serialized: a blob's length must fit the 4-byte
/// signed prefix.
pub open spec fn item_wf(a: ArgItem) -> bool {
    match a {
        ArgItem::Blob(b) => b.len() <= 0x7FFF_FFFF,
        _ => true,
    }
}

/// The serialized form of one item.
pub open spec fn enc_item(a: ArgItem) -> Seq<u8> {
    match a {
        ArgItem::Int(v) => enc_int(v),
        ArgItem::Short(v) => enc_short(v),
        ArgItem::Blob(b) => enc_blob(b),
    }
}

/// The serialized form of an argument sequence: each item's encoding, in
/// order.
pub open spec fn enc_items(items: Seq<ArgItem>) -> Seq<u8>
    decreases items.len(),
{
    if items.len() == 0 {
        Seq::empty()
    } else {
        enc_item(items[0]) + enc_items(items.drop_first())
    }
}

/// The offset at which item `k`'s encoding starts inside the serialized
/// buffer.
pub open spec fn item_offset(items: Seq<ArgItem>, k: int) -> int {
    enc_items(items.take(k)).len() as int
}

/// True when the decode call matching `a` — `get_int`, `get_short` or
/// `get_bytes` — yields exactly `a` at offset `pos` of buffer `b`.
pub open spec fn decodes_to(b: Seq<u8>, pos: int, a: ArgItem) -> bool {
    match a {
        ArgItem::Int(v) => 0 <= pos && pos + 4 <= b.len() && dec_int_at(b, pos) == v as int,
        ArgItem::Short(v) => 0 <= pos && pos + 2 <= b.len() && dec_short_at(b, pos) == v as int,
        ArgItem::Blob(data) => blob_ok(b, pos) && blob_at(b, pos) == data,
    }
}

/// The width of one serialized item: 4 bytes for an integer, 2 for a short,
/// prefix plus payload for a blob.
pub proof fn lemma_enc_item_len(a: ArgItem)
    ensures
        enc_item(a).len() == (match a {
            ArgItem::Int(_) => 4int,
            ArgItem::Short(_) => 2int,
            ArgItem::Blob(b) => 4 + b.len() as int,
        }),
{
    lemma_auto_spec_u32_to_from_le_bytes();
    lemma_auto_spec_u16_to_from_le_bytes();
}

/// Decoding reads only the item's own window: wherever a buffer holds the
/// encoding of `a` at `pos`, decoding at `pos` yields `a`.
proof fn lemma_decode_window(b: Seq<u8>, pos: int, a: ArgItem)
    requires
        item_wf(a),
        0 <= pos,
        pos + enc_item(a).len() <= b.len(),
        b.subrange(pos, pos + enc_item(a).len()) == enc_item(a),
    ensures
        decodes_to(b, pos, a),
{
    lemma_auto_spec_u32_to_from_le_bytes();
    lemma_auto_spec_u16_to_from_le_bytes();
    lemma_enc_item_len(a);
    match a {
        ArgItem::Int(v) => {
            assert(b.subrange(pos, pos + 4) =~= spec_u32_to_le_bytes(
                u32_of_i32(v as int) as u32,
            ));
        },
        ArgItem::Short(v) => {
            assert(b.subrange(pos, pos + 2) =~= spec_u16_to_le_bytes(
                u16_of_i16(v as int) as u16,
            ));
        },
        ArgItem::Blob(data) => {
            let w = enc_item(a);
            let n = data.len() as int;
            assert(b.subrange(pos, pos + 4) =~= spec_u32_to_le_bytes(
                u32_of_i32(n) as u32,
            )) by {
                assert forall|i: int| 0 <= i < 4 implies #[trigger] b.subrange(pos, pos + 4)[i]
                    == enc_int(n as i32)[i] by {
                    assert(b.subrange(pos, pos + w.len() as int)[i] == w[i]);
                }
            }
            assert(dec_int_at(b, pos) == n);
            assert(blob_ok(b, pos));
            assert(blob_at(b, pos) =~= data) by {
                assert forall|i: int| 0 <= i < n implies b.subrange(pos + 4, pos + 4 + n)[i]
                    == data[i] by {
                    assert(b.subrange(pos, pos + w.len() as int)[4 + i] == w[4 + i]);
                    assert(w[4 + i] == data[i]);
                }
            }
        },
    }
}

/// The serialized sequence splits around item `k`: the items before it, its
/// own encoding, the items after it.
proof fn lemma_enc_items_split(items: Seq<ArgItem>, k: int)
    requires
        0 <= k < items.len(),
    ensures
        enc_items(items) == enc_items(items.take(k)) + enc_item(items[k]) + enc_items(
            items.skip(k + 1),
        ),
    decreases k,
{
    if k == 0 {
        assert(enc_items(items.take(0)) =~= Seq::<u8>::empty());
        assert(items.skip(1) =~= items.drop_first());
        assert(enc_items(items.take(0)) + enc_item(items[0]) + enc_items(items.skip(1))
            =~= enc_item(items[0]) + enc_items(items.drop_first()));
    } else {
        let d = items.drop_first();
        lemma_enc_items_split(d, k - 1);
        assert(d.take(k - 1) =~= items.take(k).drop_first());
        assert(d.skip(k) =~= items.skip(k + 1));
        assert(d[k - 1] == items[k]);
        assert(items.take(k)[0] == items[0]);
        assert(enc_items(items.take(k)) == enc_item(items[0]) + enc_items(items.take(
            k,
        ).drop_first()));
        assert(enc_items(items) == enc_item(items[0]) + enc_items(d));
        assert(enc_item(items[0]) + (enc_items(d.take(k - 1)) + enc_item(d[k - 1]) + enc_items(
            d.skip(k),
        )) =~= enc_items(items.take(k)) + enc_item(items[k]) + enc_items(items.skip(k + 1)));
    }
}

/// Round trip of a serialized argument sequence: in a buffer holding the
/// items' encodings in order, followed by any suffix, the decode call
/// matching item `k` yields exactly item `k` at item `k`'s offset — so
/// decoding in serialization order reproduces every value, and decoding one
/// item neither depends on nor disturbs its neighbours.  The next item
/// starts exactly one width further on.
pub proof fn lemma_args_round_trip(items: Seq<ArgItem>, rest: Seq<u8>, k: int)
    requires
        0 <= k < items.len(),
        forall|i: int| 0 <= i < items.len() ==> item_wf(#[trigger] items[i]),
    ensures
        decodes_to(enc_items(items) + rest, item_offset(items, k), items[k]),
        item_offset(items, k + 1) == item_offset(items, k) + enc_item(items[k]).len(),
{
    let b = enc_items(items) + rest;
    let pos = item_offset(items, k);
    let w = enc_item(items[k]);
    lemma_enc_items_split(items, k);
    assert(b.subrange(pos, pos + w.len() as int) =~= w);
    lemma_decode_window(b, pos, items[k]);
    assert(items.take(k + 1).take(k) =~= items.take(k));
    assert(items.take(k + 1)[k] == items[k]);
    if k < items.len() - 1 {
        lemma_enc_items_split(items.take(k + 1), k);
        assert(items.take(k + 1).skip(k + 1) =~= Seq::<ArgItem>::empty());
        assert(enc_items(items.take(k + 1)) =~= enc_items(items.take(k)) + w);
    } else {
        assert(items.take(k + 1) =~= items);
        lemma_enc_items_split(items, k);
        assert(items.skip(k + 1) =~= Seq::<ArgItem>::empty());
        assert(enc_items(items) =~= enc_items(items.take(k)) + w);
    }
}

} // verus!
