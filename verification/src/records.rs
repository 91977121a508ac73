//! The bytes that stand for the record of an entry, in both forms, as a
//! model: the inverse of the two decoders. The laws say that a record
//! that is written is read back, and hence that the two forms of one entry
//! are read as the same entry.

use vstd::prelude::*;
use vstd::arithmetic::div_mod::lemma_fundamental_div_mod_converse;
use crate::encode::{
    flag_byte,
    le_bytes32,
    le_bytes64,
    lemma_le_lengths,
    lemma_nine_parts,
    lemma_two_parts,
    lemma_u32_read_back,
    lemma_u64_read_back,
    lemma_whole,
    lemma_window,
    zeros,
};
use crate::entry::{
    bits_block_count,
    bits_block_size,
    bits_encrypted,
    bits_method,
    bits_narrow,
    block_run,
    block_start,
    encoded_blocks,
    encoded_body_start,
    extent,
    parse_block_size,
    parse_encoded,
    parse_encoded_blocks,
    parse_sized,
    stored_len,
    tiles,
    wrapped_sum,
    method_index,
    parse_block_list,
    parse_entry,
    parse_entry_head,
    parse_entry_tail,
    parse_method,
    Block,
    EntryView,
};
use crate::error::Error;
use crate::reader::{parse_bool, parse_u32};
use crate::version::Version;

verus! {

/// The number by which a record names a compression method: 0 for none,
/// else its place in the table and one more.
pub open spec fn method_number(compression: Option<usize>) -> int {
    match compression {
        None => 0,
        Some(i) => i + 1,
    }
}

/// The number of blocks of an entry.
pub open spec fn block_count(entry: EntryView) -> int {
    match entry.blocks {
        None => 0,
        Some(blocks) => blocks.len() as int,
    }
}

/// The blocks of an entry; none where it has no list of blocks.
pub open spec fn blocks_of(entry: EntryView) -> Seq<Block> {
    match entry.blocks {
        None => Seq::empty(),
        Some(blocks) => blocks,
    }
}

// ----- the full record -----

/// The bytes of the number of a compression method in a full record.
pub open spec fn method_bytes(version: Version, method: int) -> Seq<u8> {
    if version == Version::FNameBasedCompression {
        seq![method as u8]
    } else {
        le_bytes32(method as u32)
    }
}

/// The 16 bytes of a block of a full record.
pub open spec fn block_bytes(block: Block) -> Seq<u8> {
    le_bytes64(block.start) + le_bytes64(block.end)
}

/// The bytes of the blocks of a full record, one behind the other.
pub open spec fn blocks_bytes(blocks: Seq<Block>) -> Seq<u8> {
    Seq::new(16 * blocks.len(), |k: int| block_bytes(blocks[k / 16])[k % 16])
}

/// The bytes of the list of blocks of a full record, which a compressed
/// entry has from `CompressionEncryption` on.
pub open spec fn list_bytes(entry: EntryView, version: Version) -> Seq<u8> {
    if version.at_least(Version::CompressionEncryption) && entry.compression is Some {
        le_bytes32(block_count(entry) as u32) + blocks_bytes(blocks_of(entry))
    } else {
        Seq::empty()
    }
}

/// The bytes between the number of the compression method and the list of
/// blocks: a timestamp in the first revision, and a hash.
pub open spec fn padding_len(version: Version) -> nat {
    if version == Version::Initial {
        28
    } else {
        20
    }
}

/// The bytes of a full record up to its hash. The timestamp and the hash
/// are bytes of 0.
pub open spec fn head_bytes(entry: EntryView, version: Version) -> Seq<u8> {
    le_bytes64(entry.offset) + le_bytes64(entry.compressed) + le_bytes64(entry.uncompressed)
        + method_bytes(version, method_number(entry.compression)) + zeros(padding_len(version))
}

/// The bytes of a full record behind its hash, which a record has from
/// `CompressionEncryption` on: the list of blocks, the encryption flag and
/// the unpacked length of a block.
pub open spec fn tail_bytes(entry: EntryView, version: Version) -> Seq<u8> {
    if version.at_least(Version::CompressionEncryption) {
        list_bytes(entry, version) + flag_byte(entry.encrypted) + le_bytes32(
            entry.block_uncompressed as u32,
        )
    } else {
        Seq::empty()
    }
}

/// The full record of an entry in an archive of revision `version`.
pub open spec fn record_bytes(entry: EntryView, version: Version) -> Seq<u8> {
    head_bytes(entry, version) + tail_bytes(entry, version)
}

/// The length of a full record up to its hash.
pub open spec fn head_len(version: Version) -> int {
    24 + (if version == Version::FNameBasedCompression {
        1int
    } else {
        4int
    }) + padding_len(version)
}

/// The length of the full record of an entry.
pub open spec fn record_len(entry: EntryView, version: Version) -> int {
    24 + (if version == Version::FNameBasedCompression {
        1int
    } else {
        4int
    }) + padding_len(version) + (if version.at_least(Version::CompressionEncryption) {
        (if entry.compression is Some {
            4 + 16 * block_count(entry)
        } else {
            0
        }) + 5
    } else {
        0
    })
}

/// An entry can be written as a full record of revision `version`: its
/// numbers fit into their fields, and it has what the revision stores. A
/// revision before `CompressionEncryption` stores no blocks, no encryption
/// flag and no length of a block; a later one stores a list of blocks for
/// the compressed entries and for no others.
pub open spec fn writable(entry: EntryView, version: Version) -> bool {
    &&& method_number(entry.compression) <= (if version == Version::FNameBasedCompression {
        0xffint
    } else {
        0xffff_ffffint
    })
    &&& if version.at_least(Version::CompressionEncryption) {
        &&& entry.block_uncompressed <= 0xffff_ffff
        &&& entry.compression is Some <==> entry.blocks is Some
        &&& block_count(entry) <= 0xffff_ffff
    } else {
        &&& entry.blocks is None
        &&& !entry.encrypted
        &&& entry.block_uncompressed == entry.uncompressed
    }
}

/// The blocks of a full record are read back from their bytes.
pub(crate) proof fn lemma_blocks_read_back(s: Seq<u8>, pos: int, blocks: Seq<Block>)
    requires
        0 <= pos,
        pos + 16 * blocks.len() <= s.len(),
        s.subrange(pos, pos + 16 * blocks.len()) == blocks_bytes(blocks),
    ensures
        block_run(s, pos, blocks.len()) == blocks,
{
    lemma_le_lengths();
    let t = blocks_bytes(blocks);
    assert forall|i: int| 0 <= i < blocks.len() implies #[trigger] block_run(
        s,
        pos,
        blocks.len(),
    )[i] == blocks[i] by {
        lemma_window(s, pos, t, 16 * i, 16 * i + 8);
        lemma_window(s, pos, t, 16 * i + 8, 16 * i + 16);
        assert(t.subrange(16 * i, 16 * i + 8) =~= le_bytes64(blocks[i].start)) by {
            assert forall|j: int| 0 <= j < 8 implies t[16 * i + j] == le_bytes64(
                blocks[i].start,
            )[j] by {
                assert((16 * i + j) / 16 == i && (16 * i + j) % 16 == j);
            }
        }
        assert(t.subrange(16 * i + 8, 16 * i + 16) =~= le_bytes64(blocks[i].end)) by {
            assert forall|j: int| 0 <= j < 8 implies t[16 * i + 8 + j] == le_bytes64(
                blocks[i].end,
            )[j] by {
                assert((16 * i + 8 + j) / 16 == i && (16 * i + 8 + j) % 16 == 8 + j);
            }
        }
        lemma_u64_read_back(s, pos + 16 * i, blocks[i].start);
        lemma_u64_read_back(s, pos + 16 * i + 8, blocks[i].end);
    }
    assert(block_run(s, pos, blocks.len()) =~= blocks);
}

/// The list of blocks of a full record is read back from its bytes.
pub(crate) proof fn lemma_block_list_read_back(s: Seq<u8>, pos: int, blocks: Seq<Block>)
    requires
        0 <= pos,
        blocks.len() <= 0xffff_ffff,
        pos + 4 + 16 * blocks.len() <= s.len(),
        s.subrange(pos, pos + 4 + 16 * blocks.len()) == le_bytes32(blocks.len() as u32)
            + blocks_bytes(blocks),
    ensures
        parse_block_list(s, pos) == Ok::<(Seq<Block>, int), Error>(
            (blocks, pos + 4 + 16 * blocks.len()),
        ),
{
    lemma_le_lengths();
    let t = le_bytes32(blocks.len() as u32) + blocks_bytes(blocks);
    lemma_window(s, pos, t, 0, 4);
    let end = 4 + 16 * (blocks.len() as int);
    lemma_window(s, pos, t, 4, end);
    assert(t.subrange(0, 4) =~= le_bytes32(blocks.len() as u32));
    assert(t.subrange(4, end) =~= blocks_bytes(blocks));
    lemma_u32_read_back(s, pos, blocks.len() as u32);
    lemma_blocks_read_back(s, pos + 4, blocks);
}

/// What the fields of an entry up to the hash of its record say of it.
pub open spec fn head_of(entry: EntryView) -> EntryView {
    EntryView {
        offset: entry.offset,
        compressed: entry.compressed,
        uncompressed: entry.uncompressed,
        compression: entry.compression,
        blocks: None,
        encrypted: false,
        block_uncompressed: entry.uncompressed,
    }
}

/// The fields of a full record up to its hash are read back.
pub(crate) proof fn lemma_head_read_back(s: Seq<u8>, pos: int, entry: EntryView, version: Version)
    requires
        writable(entry, version),
        0 <= pos,
        pos + head_len(version) <= s.len(),
        s.subrange(pos, pos + head_len(version)) == head_bytes(entry, version),
    ensures
        parse_entry_head(s, pos, version) == Ok::<(EntryView, int), Error>(
            (head_of(entry), pos + head_len(version)),
        ),
{
    lemma_le_lengths();
    let t = head_bytes(entry, version);
    let method = method_number(entry.compression);
    lemma_nine_parts(
        le_bytes64(entry.offset),
        le_bytes64(entry.compressed),
        le_bytes64(entry.uncompressed),
        method_bytes(version, method),
        zeros(padding_len(version)),
        Seq::empty(),
        Seq::empty(),
        Seq::empty(),
        Seq::empty(),
    );
    assert(t =~= le_bytes64(entry.offset) + le_bytes64(entry.compressed) + le_bytes64(
        entry.uncompressed,
    ) + method_bytes(version, method) + zeros(padding_len(version)) + Seq::empty() + Seq::empty()
        + Seq::empty() + Seq::empty());
    let at4: int = 24 + (method_bytes(version, method).len() as int);
    lemma_window(s, pos, t, 0, 8);
    lemma_window(s, pos, t, 8, 16);
    lemma_window(s, pos, t, 16, 24);
    lemma_window(s, pos, t, 24, at4);
    lemma_u64_read_back(s, pos, entry.offset);
    lemma_u64_read_back(s, pos + 8, entry.compressed);
    lemma_u64_read_back(s, pos + 16, entry.uncompressed);
    assert(parse_method(s, pos + 24, version) == Ok::<(u32, int), Error>(
        (method as u32, pos + at4),
    )) by {
        if version == Version::FNameBasedCompression {
            assert(s[pos + 24] == s.subrange(pos + 24, pos + at4)[0]);
        } else {
            lemma_u32_read_back(s, pos + 24, method as u32);
        }
    }
    assert(method_index(method as u32) == entry.compression);
}

/// The length of a full record behind its hash.
pub open spec fn tail_len(entry: EntryView, version: Version) -> int {
    if version.at_least(Version::CompressionEncryption) {
        (if entry.compression is Some {
            4 + 16 * block_count(entry)
        } else {
            0
        }) + 5
    } else {
        0
    }
}

/// The fields of a full record behind its hash are read back.
pub(crate) proof fn lemma_tail_read_back(s: Seq<u8>, pos: int, entry: EntryView, version: Version)
    requires
        writable(entry, version),
        0 <= pos,
        pos + tail_len(entry, version) <= s.len(),
        s.subrange(pos, pos + tail_len(entry, version)) == tail_bytes(entry, version),
    ensures
        parse_entry_tail(s, pos, version, head_of(entry)) == Ok::<(EntryView, int), Error>(
            (entry, pos + tail_len(entry, version)),
        ),
{
    lemma_le_lengths();
    if version.at_least(Version::CompressionEncryption) {
        let t = tail_bytes(entry, version);
        let list = list_bytes(entry, version);
        let at1: int = list.len() as int;
        assert(t.subrange(0, at1) =~= list);
        assert(t.subrange(at1, at1 + 1) =~= flag_byte(entry.encrypted));
        assert(t.subrange(at1 + 1, at1 + 5) =~= le_bytes32(entry.block_uncompressed as u32));
        lemma_window(s, pos, t, 0, at1);
        lemma_window(s, pos, t, at1, at1 + 1);
        lemma_window(s, pos, t, at1 + 1, at1 + 5);
        if entry.compression is Some {
            lemma_block_list_read_back(s, pos, blocks_of(entry));
        }
        assert(s[pos + at1] == s.subrange(pos + at1, pos + at1 + 1)[0]);
        assert(parse_bool(s, pos + at1) == Ok::<(bool, int), Error>((entry.encrypted, pos + at1 + 1)));
        lemma_u32_read_back(s, pos + at1 + 1, entry.block_uncompressed as u32);
    }
}

/// A full record that is written is read back: wherever the bytes of the
/// record of an entry stand, they are read as that entry, up to their last
/// byte.
pub proof fn law_record_round_trip(s: Seq<u8>, pos: int, entry: EntryView, version: Version)
    requires
        writable(entry, version),
        0 <= pos,
        pos + record_len(entry, version) <= s.len(),
        s.subrange(pos, pos + record_len(entry, version)) == record_bytes(entry, version),
    ensures
        record_bytes(entry, version).len() == record_len(entry, version),
        parse_entry(s, pos, version) == Ok::<(EntryView, int), Error>(
            (entry, pos + record_len(entry, version)),
        ),
{
    let t = record_bytes(entry, version);
    lemma_record_lengths(entry, version);
    lemma_two_parts(head_bytes(entry, version), tail_bytes(entry, version));
    lemma_window(s, pos, t, 0, head_len(version));
    lemma_window(s, pos, t, head_len(version), record_len(entry, version));
    lemma_head_read_back(s, pos, entry, version);
    lemma_tail_read_back(s, pos + head_len(version), entry, version);
}

/// The lengths of the parts of a full record.
pub(crate) proof fn lemma_record_lengths(entry: EntryView, version: Version)
    ensures
        head_bytes(entry, version).len() == head_len(version),
        tail_bytes(entry, version).len() == tail_len(entry, version),
        record_len(entry, version) == head_len(version) + tail_len(entry, version),
        record_bytes(entry, version).len() == record_len(entry, version),
        head_len(version) >= 0,
        tail_len(entry, version) >= 0,
{
    lemma_le_lengths();
}

// ----- the encoded record -----

/// What the writer of an encoded record is free to choose: which of the
/// offset and the two lengths it stores in 32 bits, and the 6 bits that
/// stand for the unpacked length of a block, where `0x3f` is for a length
/// that is stored on its own.
pub struct Widths {
    pub narrow_offset: bool,
    pub narrow_uncompressed: bool,
    pub narrow_compressed: bool,
    pub size_bits: u32,
}

/// A bit as a number.
pub open spec fn bit(b: bool) -> int {
    if b {
        1
    } else {
        0
    }
}

/// The bitfield of an encoded record, from its parts.
pub open spec fn bitfield_value(method: int, encrypted: bool, count: int, w: Widths) -> int {
    bit(w.narrow_offset) * 0x8000_0000 + bit(w.narrow_uncompressed) * 0x4000_0000 + bit(
        w.narrow_compressed,
    ) * 0x2000_0000 + method * 0x80_0000 + bit(encrypted) * 0x40_0000 + count * 0x40 + w.size_bits
}

/// The bitfield of the encoded record of an entry.
#[verifier::opaque]
pub open spec fn bitfield_of(entry: EntryView, w: Widths) -> u32 {
    bitfield_value(method_number(entry.compression), entry.encrypted, block_count(entry), w) as u32
}

/// An offset or a length of an encoded record, in 32 bits or in 64.
pub open spec fn sized_bytes(v: u64, narrow: bool) -> Seq<u8> {
    if narrow {
        le_bytes32(v as u32)
    } else {
        le_bytes64(v)
    }
}

/// Whether an encoded record stores the lengths of its blocks: it does
/// unless there is no block, or one block that is not encrypted.
pub open spec fn stores_lengths(entry: EntryView) -> bool {
    block_count(entry) > 1 || (block_count(entry) == 1 && entry.encrypted)
}

/// The bytes of the lengths of the blocks of an encoded record.
pub open spec fn lengths_bytes(blocks: Seq<Block>) -> Seq<u8> {
    Seq::new(
        4 * blocks.len(),
        |k: int| le_bytes32((blocks[k / 4].end - blocks[k / 4].start) as u32)[k % 4],
    )
}

/// The length of a block of an entry, where the record stores it on its
/// own.
pub open spec fn own_size_bytes(entry: EntryView, w: Widths) -> Seq<u8> {
    if w.size_bits == 0x3f {
        le_bytes32(entry.block_uncompressed as u32)
    } else {
        Seq::empty()
    }
}

/// The stored length of an entry in its encoded record, which has one for
/// a compressed entry.
pub open spec fn stored_bytes(entry: EntryView, w: Widths) -> Seq<u8> {
    if entry.compression is Some {
        sized_bytes(entry.compressed, w.narrow_compressed)
    } else {
        Seq::empty()
    }
}

/// The lengths of the blocks in an encoded record, where it stores them.
pub open spec fn tail_lengths_bytes(entry: EntryView) -> Seq<u8> {
    if stores_lengths(entry) {
        lengths_bytes(blocks_of(entry))
    } else {
        Seq::empty()
    }
}

/// The encoded record of an entry, written with the choices `w`.
pub open spec fn encoded_bytes(entry: EntryView, w: Widths) -> Seq<u8> {
    le_bytes32(bitfield_of(entry, w)) + own_size_bytes(entry, w) + sized_bytes(
        entry.offset,
        w.narrow_offset,
    ) + sized_bytes(entry.uncompressed, w.narrow_uncompressed) + stored_bytes(entry, w)
        + tail_lengths_bytes(entry)
}

/// The length of an offset or a length of an encoded record.
pub open spec fn sized_len(narrow: bool) -> int {
    if narrow {
        4
    } else {
        8
    }
}

/// The numbers of an entry fit into the fields of an encoded record that is
/// written with the choices `w`, and an entry that is not compressed has
/// one length.
pub open spec fn fields_fit(entry: EntryView, w: Widths) -> bool {
    &&& method_number(entry.compression) <= 0x3f
    &&& block_count(entry) <= 0xffff
    &&& w.size_bits <= 0x3f
    &&& entry.block_uncompressed == (if w.size_bits == 0x3f {
        entry.block_uncompressed as u32 as int
    } else {
        w.size_bits * 0x800
    })
    &&& w.narrow_offset ==> entry.offset <= 0xffff_ffff
    &&& w.narrow_uncompressed ==> entry.uncompressed <= 0xffff_ffff
    &&& w.narrow_compressed ==> entry.compressed <= 0xffff_ffff
    &&& entry.compression is None ==> entry.compressed == entry.uncompressed
}

/// The blocks of an entry lie as an encoded record implies them: from the
/// start of the body on, one behind the other, each with a length of at
/// most 32 bits; a single block of an entry that is not encrypted covers
/// the stored length. A list of blocks is not empty.
pub open spec fn blocks_fit(entry: EntryView) -> bool {
    let first = encoded_body_start(entry.compression is Some, block_count(entry) as u32);
    &&& entry.blocks is Some ==> block_count(entry) >= 1
    &&& if stores_lengths(entry) {
        &&& tiles(blocks_of(entry), entry.encrypted, first)
        &&& forall|i: int|
            0 <= i < block_count(entry) ==> (#[trigger] blocks_of(entry)[i]).end - blocks_of(
                entry,
            )[i].start <= 0xffff_ffff
    } else {
        entry.blocks matches Some(blocks) ==> blocks[0] == (Block {
            start: first as u64,
            end: wrapped_sum(first as u64, entry.compressed),
        })
    }
}

/// An entry can be written as an encoded record with the choices `w`.
pub open spec fn encodable(entry: EntryView, w: Widths) -> bool {
    fields_fit(entry, w) && blocks_fit(entry)
}

/// The parts of a bitfield are read back from it.
pub(crate) proof fn lemma_bitfield_read_back(method: int, encrypted: bool, count: int, w: Widths)
    requires
        0 <= method <= 0x3f,
        0 <= count <= 0xffff,
        w.size_bits <= 0x3f,
    ensures
        0 <= bitfield_value(method, encrypted, count, w) <= 0xffff_ffff,
        bits_method(bitfield_value(method, encrypted, count, w) as u32) == method,
        bits_encrypted(bitfield_value(method, encrypted, count, w) as u32) == encrypted,
        bits_block_count(bitfield_value(method, encrypted, count, w) as u32) == count,
        bits_block_size(bitfield_value(method, encrypted, count, w) as u32) == w.size_bits,
        bits_narrow(bitfield_value(method, encrypted, count, w) as u32, 31) == w.narrow_offset,
        bits_narrow(bitfield_value(method, encrypted, count, w) as u32, 30)
            == w.narrow_uncompressed,
        bits_narrow(bitfield_value(method, encrypted, count, w) as u32, 29) == w.narrow_compressed,
{
    let v = bitfield_value(method, encrypted, count, w);
    let a = bit(w.narrow_offset);
    let b = bit(w.narrow_uncompressed);
    let c = bit(w.narrow_compressed);
    let e = bit(encrypted);
    let size = w.size_bits as int;
    let top = a * 4 + b * 2 + c;
    // from bit 23 up: the widths and the method
    let hi = top * 0x40 + method;
    let lo = e * 0x40_0000 + count * 0x40 + size;
    lemma_fundamental_div_mod_converse(v, 0x80_0000, hi, lo);
    lemma_fundamental_div_mod_converse(hi, 0x40, top, method);
    // from bit 22 up
    lemma_fundamental_div_mod_converse(v, 0x40_0000, hi * 2 + e, count * 0x40 + size);
    lemma_fundamental_div_mod_converse(hi * 2 + e, 2, hi, e);
    // from bit 6 up
    lemma_fundamental_div_mod_converse(v, 0x40, (hi * 2 + e) * 0x1_0000 + count, size);
    lemma_fundamental_div_mod_converse((hi * 2 + e) * 0x1_0000 + count, 0x1_0000, hi * 2 + e, count);
    // the three highest bits
    lemma_fundamental_div_mod_converse(v, 0x8000_0000, a, v - a * 0x8000_0000);
    lemma_fundamental_div_mod_converse(v, 0x4000_0000, a * 2 + b, v - (a * 2 + b) * 0x4000_0000);
    lemma_fundamental_div_mod_converse(a * 2 + b, 2, a, b);
    lemma_fundamental_div_mod_converse(v, 0x2000_0000, top, v - top * 0x2000_0000);
    lemma_fundamental_div_mod_converse(top, 2, a * 2 + b, c);
}

/// The parts of the bitfield of an entry are read back from it.
pub(crate) proof fn lemma_entry_bitfield(entry: EntryView, w: Widths)
    requires
        fields_fit(entry, w),
    ensures
        bits_method(bitfield_of(entry, w)) == method_number(entry.compression),
        bits_encrypted(bitfield_of(entry, w)) == entry.encrypted,
        bits_block_count(bitfield_of(entry, w)) == block_count(entry),
        bits_block_size(bitfield_of(entry, w)) == w.size_bits,
        bits_narrow(bitfield_of(entry, w), 31) == w.narrow_offset,
        bits_narrow(bitfield_of(entry, w), 30) == w.narrow_uncompressed,
        bits_narrow(bitfield_of(entry, w), 29) == w.narrow_compressed,
        method_index(bits_method(bitfield_of(entry, w))) == entry.compression,
{
    reveal(bitfield_of);
    lemma_bitfield_read_back(
        method_number(entry.compression),
        entry.encrypted,
        block_count(entry),
        w,
    );
}

/// An offset or a length of an encoded record is read back.
pub(crate) proof fn lemma_sized_read_back(s: Seq<u8>, pos: int, b: u32, bit_at: u32, v: u64, narrow: bool)
    requires
        0 <= pos,
        pos + sized_len(narrow) <= s.len(),
        s.subrange(pos, pos + sized_len(narrow)) == sized_bytes(v, narrow),
        narrow ==> v <= 0xffff_ffff,
        bits_narrow(b, bit_at) == narrow,
    ensures
        parse_sized(s, pos, b, bit_at) == Ok::<(u64, int), Error>((v, pos + sized_len(narrow))),
{
    lemma_le_lengths();
    if narrow {
        lemma_u32_read_back(s, pos, v as u32);
    } else {
        lemma_u64_read_back(s, pos, v);
    }
}

/// The stored lengths of the blocks are read back from their bytes.
pub(crate) proof fn lemma_lengths_read_back(s: Seq<u8>, pos: int, blocks: Seq<Block>)
    requires
        0 <= pos,
        pos + 4 * blocks.len() <= s.len(),
        s.subrange(pos, pos + 4 * blocks.len()) == lengths_bytes(blocks),
        forall|i: int|
            0 <= i < blocks.len() ==> 0 <= (#[trigger] blocks[i]).end - blocks[i].start
                <= 0xffff_ffff,
    ensures
        forall|i: int|
            0 <= i < blocks.len() ==> #[trigger] stored_len(s, pos, i) == blocks[i].end
                - blocks[i].start,
{
    lemma_le_lengths();
    let t = lengths_bytes(blocks);
    assert forall|i: int| 0 <= i < blocks.len() implies #[trigger] stored_len(s, pos, i)
        == blocks[i].end - blocks[i].start by {
        let len = (blocks[i].end - blocks[i].start) as u32;
        lemma_window(s, pos, t, 4 * i, 4 * i + 4);
        assert(t.subrange(4 * i, 4 * i + 4) =~= le_bytes32(len)) by {
            assert forall|j: int| 0 <= j < 4 implies t[4 * i + j] == le_bytes32(len)[j] by {
                assert((4 * i + j) / 4 == i && (4 * i + j) % 4 == j);
            }
        }
        lemma_u32_read_back(s, pos + 4 * i, len);
    }
}

/// Where the stored lengths are those of blocks that tile, block `i` is
/// read as starting where it starts.
pub(crate) proof fn lemma_starts_read_back(
    s: Seq<u8>,
    pos: int,
    blocks: Seq<Block>,
    first: int,
    encrypted: bool,
    i: nat,
)
    requires
        i <= blocks.len(),
        forall|j: int|
            0 <= j < blocks.len() ==> #[trigger] stored_len(s, pos, j) == blocks[j].end
                - blocks[j].start,
    ensures
        block_start(s, pos, first, encrypted, i) == first + extent(blocks, encrypted, i),
    decreases i,
{
    if i > 0 {
        lemma_starts_read_back(s, pos, blocks, first, encrypted, (i - 1) as nat);
        assert(stored_len(s, pos, i - 1) == blocks[i - 1].end - blocks[i - 1].start);
    }
}

/// The blocks of an encoded record are read back.
pub(crate) proof fn lemma_encoded_blocks_read_back(s: Seq<u8>, pos: int, entry: EntryView, w: Widths)
    requires
        encodable(entry, w),
        0 <= pos,
        pos + tail_lengths_bytes(entry).len() <= s.len(),
        s.subrange(pos, pos + tail_lengths_bytes(entry).len()) == tail_lengths_bytes(entry),
    ensures
        parse_encoded_blocks(
            s,
            pos,
            bitfield_of(entry, w),
            entry.compression is Some,
            entry.compressed,
        ) == Ok::<(Option<Seq<Block>>, int), Error>(
            (entry.blocks, pos + tail_lengths_bytes(entry).len()),
        ),
{
    let b = bitfield_of(entry, w);
    let n = block_count(entry);
    let blocks = blocks_of(entry);
    let first = encoded_body_start(entry.compression is Some, n as u32);
    lemma_entry_bitfield(entry, w);
    if n == 0 {
    } else if !stores_lengths(entry) {
        assert(entry.blocks->Some_0 =~= seq![
            Block { start: first as u64, end: wrapped_sum(first as u64, entry.compressed) },
        ]);
    } else {
        assert forall|i: int| 0 <= i < blocks.len() implies 0 <= (#[trigger] blocks[i]).end
            - blocks[i].start <= 0xffff_ffff by {}
        lemma_lengths_read_back(s, pos, blocks);
        assert forall|i: int| 0 <= i < n implies #[trigger] encoded_blocks(
            s,
            pos,
            first,
            entry.encrypted,
            n as nat,
        )[i] == blocks[i] by {
            lemma_starts_read_back(s, pos, blocks, first, entry.encrypted, i as nat);
        }
        assert(encoded_blocks(s, pos, first, entry.encrypted, n as nat) =~= blocks);
    }
}

/// Where the fields of an encoded record start, counted from its start:
/// the offset, the unpacked length, the stored length and the lengths of
/// the blocks, and where the record ends.
pub open spec fn field_at(entry: EntryView, w: Widths, field: int) -> int {
    let first = 4 + own_size_bytes(entry, w).len() as int;
    if field <= 0 {
        first
    } else if field == 1 {
        first + sized_len(w.narrow_offset)
    } else if field == 2 {
        first + sized_len(w.narrow_offset) + sized_len(w.narrow_uncompressed)
    } else if field == 3 {
        first + sized_len(w.narrow_offset) + sized_len(w.narrow_uncompressed) + stored_bytes(
            entry,
            w,
        ).len()
    } else {
        first + sized_len(w.narrow_offset) + sized_len(w.narrow_uncompressed) + stored_bytes(
            entry,
            w,
        ).len() + tail_lengths_bytes(entry).len()
    }
}

/// The fields of an encoded record lie in it one behind the other.
pub(crate) proof fn lemma_encoded_layout(s: Seq<u8>, pos: int, entry: EntryView, w: Widths)
    requires
        0 <= pos,
        pos + encoded_bytes(entry, w).len() <= s.len(),
        s.subrange(pos, pos + encoded_bytes(entry, w).len()) == encoded_bytes(entry, w),
    ensures
        field_at(entry, w, 4) == encoded_bytes(entry, w).len(),
        s.subrange(pos, pos + 4) == le_bytes32(bitfield_of(entry, w)),
        s.subrange(pos + 4, pos + field_at(entry, w, 0)) == own_size_bytes(entry, w),
        s.subrange(pos + field_at(entry, w, 0), pos + field_at(entry, w, 1)) == sized_bytes(
            entry.offset,
            w.narrow_offset,
        ),
        s.subrange(pos + field_at(entry, w, 1), pos + field_at(entry, w, 2)) == sized_bytes(
            entry.uncompressed,
            w.narrow_uncompressed,
        ),
        s.subrange(pos + field_at(entry, w, 2), pos + field_at(entry, w, 3)) == stored_bytes(
            entry,
            w,
        ),
        s.subrange(pos + field_at(entry, w, 3), pos + field_at(entry, w, 4))
            == tail_lengths_bytes(entry),
{
    lemma_le_lengths();
    let t = encoded_bytes(entry, w);
    let b = bitfield_of(entry, w);
    lemma_nine_parts(
        le_bytes32(b),
        own_size_bytes(entry, w),
        sized_bytes(entry.offset, w.narrow_offset),
        sized_bytes(entry.uncompressed, w.narrow_uncompressed),
        stored_bytes(entry, w),
        tail_lengths_bytes(entry),
        Seq::empty(),
        Seq::empty(),
        Seq::empty(),
    );
    assert(t =~= le_bytes32(b) + own_size_bytes(entry, w) + sized_bytes(
        entry.offset,
        w.narrow_offset,
    ) + sized_bytes(entry.uncompressed, w.narrow_uncompressed) + stored_bytes(entry, w)
        + tail_lengths_bytes(entry) + Seq::empty() + Seq::empty() + Seq::empty());
    lemma_window(s, pos, t, 0, 4);
    lemma_window(s, pos, t, 4, field_at(entry, w, 0));
    lemma_window(s, pos, t, field_at(entry, w, 0), field_at(entry, w, 1));
    lemma_window(s, pos, t, field_at(entry, w, 1), field_at(entry, w, 2));
    lemma_window(s, pos, t, field_at(entry, w, 2), field_at(entry, w, 3));
    lemma_window(s, pos, t, field_at(entry, w, 3), field_at(entry, w, 4));
}

/// The length of a block of an entry is read back from an encoded record.
pub(crate) proof fn lemma_block_size_read_back(s: Seq<u8>, pos: int, entry: EntryView, w: Widths)
    requires
        fields_fit(entry, w),
        0 <= pos,
        pos + own_size_bytes(entry, w).len() <= s.len(),
        s.subrange(pos, pos + own_size_bytes(entry, w).len()) == own_size_bytes(entry, w),
    ensures
        parse_block_size(s, pos, bitfield_of(entry, w)) == Ok::<(u64, int), Error>(
            (entry.block_uncompressed, pos + own_size_bytes(entry, w).len()),
        ),
{
    lemma_le_lengths();
    lemma_entry_bitfield(entry, w);
    if w.size_bits == 0x3f {
        lemma_u32_read_back(s, pos, entry.block_uncompressed as u32);
    }
}

/// The fields of an encoded record before its blocks are read back.
pub(crate) proof fn lemma_encoded_fields_read_back(s: Seq<u8>, pos: int, entry: EntryView, w: Widths)
    requires
        fields_fit(entry, w),
        0 <= pos,
        pos + encoded_bytes(entry, w).len() <= s.len(),
        s.subrange(pos, pos + encoded_bytes(entry, w).len()) == encoded_bytes(entry, w),
    ensures
        parse_u32(s, pos) == Ok::<(u32, int), Error>((bitfield_of(entry, w), pos + 4)),
        parse_block_size(s, pos + 4, bitfield_of(entry, w)) == Ok::<(u64, int), Error>(
            (entry.block_uncompressed, pos + field_at(entry, w, 0)),
        ),
        parse_sized(s, pos + field_at(entry, w, 0), bitfield_of(entry, w), 31) == Ok::<
            (u64, int),
            Error,
        >((entry.offset, pos + field_at(entry, w, 1))),
        parse_sized(s, pos + field_at(entry, w, 1), bitfield_of(entry, w), 30) == Ok::<
            (u64, int),
            Error,
        >((entry.uncompressed, pos + field_at(entry, w, 2))),
        entry.compression is Some ==> parse_sized(
            s,
            pos + field_at(entry, w, 2),
            bitfield_of(entry, w),
            29,
        ) == Ok::<(u64, int), Error>((entry.compressed, pos + field_at(entry, w, 3))),
        entry.compression is None ==> field_at(entry, w, 3) == field_at(entry, w, 2),
        method_index(bits_method(bitfield_of(entry, w))) == entry.compression,
        (bits_method(bitfield_of(entry, w)) != 0) == (entry.compression is Some),
        bits_encrypted(bitfield_of(entry, w)) == entry.encrypted,
        0 <= field_at(entry, w, 3) <= field_at(entry, w, 4) == encoded_bytes(entry, w).len(),
        s.subrange(pos + field_at(entry, w, 3), pos + field_at(entry, w, 4))
            == tail_lengths_bytes(entry),
{
    lemma_le_lengths();
    let b = bitfield_of(entry, w);
    lemma_encoded_layout(s, pos, entry, w);
    lemma_entry_bitfield(entry, w);
    lemma_u32_read_back(s, pos, b);
    lemma_block_size_read_back(s, pos + 4, entry, w);
    lemma_sized_read_back(s, pos + field_at(entry, w, 0), b, 31, entry.offset, w.narrow_offset);
    lemma_sized_read_back(
        s,
        pos + field_at(entry, w, 1),
        b,
        30,
        entry.uncompressed,
        w.narrow_uncompressed,
    );
    if entry.compression is Some {
        lemma_sized_read_back(
            s,
            pos + field_at(entry, w, 2),
            b,
            29,
            entry.compressed,
            w.narrow_compressed,
        );
    }
}

/// An encoded record that is written is read back: wherever the bytes of
/// the encoded record of an entry stand, whatever the writer chose, they
/// are read as that entry, up to their last byte.
pub proof fn law_encoded_round_trip(s: Seq<u8>, pos: int, entry: EntryView, w: Widths)
    requires
        encodable(entry, w),
        0 <= pos,
        pos + encoded_bytes(entry, w).len() <= s.len(),
        s.subrange(pos, pos + encoded_bytes(entry, w).len()) == encoded_bytes(entry, w),
    ensures
        parse_encoded(s, pos) == Ok::<(EntryView, int), Error>(
            (entry, pos + encoded_bytes(entry, w).len()),
        ),
{
    lemma_encoded_fields_read_back(s, pos, entry, w);
    lemma_encoded_blocks_read_back(s, pos + field_at(entry, w, 3), entry, w);
}

/// The full record of an entry, read from its first byte, is read as that
/// entry.
pub proof fn law_record_read_back(entry: EntryView, version: Version)
    requires
        writable(entry, version),
    ensures
        parse_entry(record_bytes(entry, version), 0, version) == Ok::<(EntryView, int), Error>(
            (entry, record_len(entry, version)),
        ),
{
    lemma_record_lengths(entry, version);
    lemma_whole(record_bytes(entry, version));
    law_record_round_trip(record_bytes(entry, version), 0, entry, version);
}

/// The encoded record of an entry, read from its first byte, is read as
/// that entry, whatever its writer chose.
pub proof fn law_encoded_read_back(entry: EntryView, w: Widths)
    requires
        encodable(entry, w),
    ensures
        parse_encoded(encoded_bytes(entry, w), 0) == Ok::<(EntryView, int), Error>(
            (entry, encoded_bytes(entry, w).len() as int),
        ),
{
    lemma_whole(encoded_bytes(entry, w));
    law_encoded_round_trip(encoded_bytes(entry, w), 0, entry, w);
}

} // verus!
