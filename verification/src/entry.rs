//! The records that describe the entries of an archive, in their two forms
//! on disk: the full record and the encoded record of a path-hash index.

use vstd::prelude::*;
use vstd::slice::slice_subrange;
use crate::bytes::{decode_u32, decode_u64, le_u32, le_u64};
use crate::error::Error;
use crate::reader::{
    eof,
    fits,
    parse_bool,
    parse_skip,
    parse_u32,
    parse_u64,
    parse_u8,
    yields,
    Reader,
};
use crate::version::Version;

verus! {

/// A range of bytes of an entry's body, compressed on its own. In an archive
/// before `RelativeChunkOffsets` its bounds count from the start of the
/// archive, later from the start of the entry's record.
#[derive(Clone, Copy, Debug, PartialEq, Eq, Structural)]
pub struct Block {
    pub start: u64,
    pub end: u64,
}

/// What an index says of one entry.
#[derive(Debug, PartialEq, Eq)]
pub struct Entry {
    /// where the record of the entry starts
    pub offset: u64,
    /// the length of the body as stored
    pub compressed: u64,
    /// the length of the body once unpacked
    pub uncompressed: u64,
    /// the place of the compression method in the archive's table
    pub compression: Option<usize>,
    /// the blocks of the body, where it is compressed
    pub blocks: Option<Vec<Block>>,
    /// whether the body is encrypted
    pub encrypted: bool,
    /// the unpacked length of every block but the last
    pub block_uncompressed: u64,
}

/// The model of an [`Entry`].
pub struct EntryView {
    pub offset: u64,
    pub compressed: u64,
    pub uncompressed: u64,
    pub compression: Option<usize>,
    pub blocks: Option<Seq<Block>>,
    pub encrypted: bool,
    pub block_uncompressed: u64,
}

/// The model of a list of blocks that may be missing.
pub open spec fn blocks_view(blocks: Option<Vec<Block>>) -> Option<Seq<Block>> {
    match blocks {
        Some(blocks) => Some(blocks@),
        None => None,
    }
}

impl View for Block {
    type V = Block;

    open spec fn view(&self) -> Block {
        *self
    }
}

impl View for Entry {
    type V = EntryView;

    open spec fn view(&self) -> EntryView {
        EntryView {
            offset: self.offset,
            compressed: self.compressed,
            uncompressed: self.uncompressed,
            compression: self.compression,
            blocks: blocks_view(self.blocks),
            encrypted: self.encrypted,
            block_uncompressed: self.block_uncompressed,
        }
    }
}

/// `n` rounded up to a multiple of 16, the size of an AES block.
pub open spec fn ceil16(n: int) -> int {
    ((n + 15) / 16) * 16
}

/// The size of the header of a record in the archives that have encoded
/// records, before its list of blocks.
pub const ENCODED_HEADER: u64 = 53;

/// The compression method that a record names by the number `method`: none
/// for 0, else the place `method - 1` in the archive's table.
pub open spec fn method_index(method: u32) -> Option<usize> {
    if method == 0 {
        None
    } else {
        Some((method - 1) as usize)
    }
}

// ----- the full record -----

/// A block of a full record: two 64-bit bounds.
pub open spec fn parse_block(s: Seq<u8>, pos: int) -> Result<(Block, int), Error> {
    if fits(s, pos, 16) {
        Ok((Block { start: le_u64(s, pos), end: le_u64(s, pos + 8) }, pos + 16))
    } else {
        Err(eof())
    }
}

/// The `n` blocks that lie one behind the other from `pos` on.
pub open spec fn block_run(s: Seq<u8>, pos: int, n: nat) -> Seq<Block> {
    Seq::new(n, |i: int| Block { start: le_u64(s, pos + 16 * i), end: le_u64(s, pos + 16 * i + 8) })
}

/// A list of blocks: a 32-bit count, then that many blocks.
pub open spec fn parse_block_list(s: Seq<u8>, pos: int) -> Result<(Seq<Block>, int), Error> {
    if !fits(s, pos, 4) {
        Err(eof())
    } else {
        let n = le_u32(s, pos) as int;
        if !fits(s, pos + 4, 16 * n) {
            Err(eof())
        } else {
            Ok((block_run(s, pos + 4, n as nat), pos + 4 + 16 * n))
        }
    }
}

/// The number by which a full record names its compression method: one byte
/// in the revision `FNameBasedCompression`, else 32 bits.
pub open spec fn parse_method(s: Seq<u8>, pos: int, version: Version) -> Result<(u32, int), Error> {
    if version == Version::FNameBasedCompression {
        match parse_u8(s, pos) {
            Ok((b, p)) => Ok((b as u32, p)),
            Err(e) => Err(e),
        }
    } else {
        parse_u32(s, pos)
    }
}

/// The fields of a full record up to its hash: offset, stored length,
/// unpacked length, compression method, a timestamp in the first revision,
/// and the hash. They give the entry of a revision before
/// `CompressionEncryption`, which has no more.
pub open spec fn parse_entry_head(s: Seq<u8>, pos: int, version: Version) -> Result<
    (EntryView, int),
    Error,
> {
    match parse_u64(s, pos) {
        Err(e) => Err(e),
        Ok((offset, at1)) => match parse_u64(s, at1) {
            Err(e) => Err(e),
            Ok((compressed, at2)) => match parse_u64(s, at2) {
                Err(e) => Err(e),
                Ok((uncompressed, at3)) => match parse_method(s, at3, version) {
                    Err(e) => Err(e),
                    Ok((method, at4)) => match parse_skip(
                        s,
                        at4,
                        if version == Version::Initial {
                            28
                        } else {
                            20
                        },
                    ) {
                        Err(e) => Err(e),
                        Ok((_, at5)) => Ok(
                            (
                                EntryView {
                                    offset,
                                    compressed,
                                    uncompressed,
                                    compression: method_index(method),
                                    blocks: None,
                                    encrypted: false,
                                    block_uncompressed: uncompressed,
                                },
                                at5,
                            ),
                        ),
                    },
                },
            },
        },
    }
}

/// The full record of an entry in an archive of revision `version`, in the
/// bytes from `pos` on: offset, stored length, unpacked length, compression
/// method, a timestamp in the first revision, a hash, and from
/// `CompressionEncryption` on the list of blocks of a compressed entry, the
/// encryption flag and the unpacked length of a block.
pub open spec fn parse_entry(s: Seq<u8>, pos: int, version: Version) -> Result<
    (EntryView, int),
    Error,
> {
    match parse_entry_head(s, pos, version) {
        Err(e) => Err(e),
        Ok((head, p)) => parse_entry_tail(s, p, version, head),
    }
}

/// The fields of a full record behind its hash, which the revisions before
/// `CompressionEncryption` do not have. `head` holds the fields before them.
pub open spec fn parse_entry_tail(s: Seq<u8>, pos: int, version: Version, head: EntryView) -> Result<
    (EntryView, int),
    Error,
> {
    if !version.at_least(Version::CompressionEncryption) {
        Ok((head, pos))
    } else {
        match (if head.compression is Some {
            match parse_block_list(s, pos) {
                Ok((blocks, p)) => Ok((Some(blocks), p)),
                Err(e) => Err(e),
            }
        } else {
            Ok((None, pos))
        }) {
            Err(e) => Err(e),
            Ok((blocks, at1)) => match parse_bool(s, at1) {
                Err(e) => Err(e),
                Ok((encrypted, at2)) => match parse_u32(s, at2) {
                    Err(e) => Err(e),
                    Ok((block_uncompressed, at3)) => Ok(
                        (
                            EntryView {
                                blocks,
                                encrypted,
                                block_uncompressed: block_uncompressed as u64,
                                ..head
                            },
                            at3,
                        ),
                    ),
                },
            },
        }
    }
}

// ----- the encoded record -----

/// The 6 bits of a bitfield that name the compression method (bits 23 to 28).
pub open spec fn bits_method(b: u32) -> u32 {
    ((b / 0x80_0000) % 0x40) as u32
}

/// The bit of a bitfield that says that the entry is encrypted (bit 22).
pub open spec fn bits_encrypted(b: u32) -> bool {
    (b / 0x40_0000) % 2 == 1
}

/// The 16 bits of a bitfield that count the blocks (bits 6 to 21).
pub open spec fn bits_block_count(b: u32) -> u32 {
    ((b / 0x40) % 0x1_0000) as u32
}

/// The 6 bits of a bitfield that stand for the unpacked length of a block
/// (bits 0 to 5).
pub open spec fn bits_block_size(b: u32) -> u32 {
    (b % 0x40) as u32
}

/// Whether bit `bit` of a bitfield is set: one of the bits 29, 30 and 31,
/// which say that a length or the offset is stored in 32 bits, not in 64.
pub open spec fn bits_narrow(b: u32, bit: u32) -> bool {
    if bit == 31 {
        b / 0x8000_0000 == 1
    } else if bit == 30 {
        (b / 0x4000_0000) % 2 == 1
    } else {
        (b / 0x2000_0000) % 2 == 1
    }
}

/// A length or an offset behind a bitfield: 32 bits wide where the bit `bit`
/// of the bitfield is set, else 64.
pub open spec fn parse_sized(s: Seq<u8>, pos: int, b: u32, bit: u32) -> Result<(u64, int), Error> {
    if bits_narrow(b, bit) {
        match parse_u32(s, pos) {
            Ok((v, p)) => Ok((v as u64, p)),
            Err(e) => Err(e),
        }
    } else {
        parse_u64(s, pos)
    }
}

/// The unpacked length of a block: stored in 32 bits where the 6 bits of the
/// bitfield are all set, else those bits shifted left by 11.
pub open spec fn parse_block_size(s: Seq<u8>, pos: int, b: u32) -> Result<(u64, int), Error> {
    if bits_block_size(b) == 0x3f {
        match parse_u32(s, pos) {
            Ok((v, p)) => Ok((v as u64, p)),
            Err(e) => Err(e),
        }
    } else {
        Ok(((bits_block_size(b) * 0x800) as u64, pos))
    }
}

/// The stored length of the `i`th block of an encoded record whose lengths
/// start at `pos`.
pub open spec fn stored_len(s: Seq<u8>, pos: int, i: int) -> int {
    le_u32(s, pos + 4 * i) as int
}

/// By how much a block of stored length `len` moves the start of the next
/// one: an encrypted block is padded to whole AES blocks.
pub open spec fn advance(len: int, encrypted: bool) -> int {
    if encrypted {
        ceil16(len)
    } else {
        len
    }
}

/// Where the `i`th block of an encoded record starts, the first one starting
/// at `first`.
pub open spec fn block_start(s: Seq<u8>, pos: int, first: int, encrypted: bool, i: nat) -> int
    decreases i,
{
    if i == 0 {
        first
    } else {
        block_start(s, pos, first, encrypted, (i - 1) as nat) + advance(
            stored_len(s, pos, i - 1),
            encrypted,
        )
    }
}

/// The `n` blocks that the lengths from `pos` on describe: each starts where
/// the one before it ends, padding included.
pub open spec fn encoded_blocks(s: Seq<u8>, pos: int, first: int, encrypted: bool, n: nat) -> Seq<
    Block,
> {
    Seq::new(
        n,
        |i: int|
            Block {
                start: block_start(s, pos, first, encrypted, i as nat) as u64,
                end: (block_start(s, pos, first, encrypted, i as nat) + stored_len(s, pos, i)) as u64,
            },
    )
}

/// The blocks of an encoded record that stores `n` lengths from `pos` on.
pub open spec fn parse_lengths(s: Seq<u8>, pos: int, first: int, encrypted: bool, n: nat) -> Result<
    (Seq<Block>, int),
    Error,
> {
    if fits(s, pos, 4 * (n as int)) {
        Ok((encoded_blocks(s, pos, first, encrypted, n), pos + 4 * n))
    } else {
        Err(eof())
    }
}

/// The bytes that the first `n` blocks take up: the sum of their lengths,
/// each rounded up to whole AES blocks where the entry is encrypted.
pub open spec fn extent(blocks: Seq<Block>, encrypted: bool, n: nat) -> int
    decreases n,
{
    if n == 0 {
        0
    } else {
        extent(blocks, encrypted, (n - 1) as nat) + advance(
            blocks[n - 1].end - blocks[n - 1].start,
            encrypted,
        )
    }
}

/// The blocks lie one behind the other from `first` on, each padded where
/// the entry is encrypted, and none ends before it starts.
pub open spec fn tiles(blocks: Seq<Block>, encrypted: bool, first: int) -> bool {
    forall|i: int|
        0 <= i < blocks.len() ==> (#[trigger] blocks[i]).start == first + extent(
            blocks,
            encrypted,
            i as nat,
        ) && blocks[i].start <= blocks[i].end
}

/// Where the body of a record starts, counted from the start of the record:
/// behind the header, and behind the list of blocks of a compressed entry.
pub open spec fn encoded_body_start(compressed: bool, block_count: u32) -> int {
    if compressed {
        ENCODED_HEADER + 4 + 16 * block_count
    } else {
        ENCODED_HEADER as int
    }
}

/// `a + b` as 64-bit integers add, without the carry.
pub open spec fn wrapped_sum(a: u64, b: u64) -> u64 {
    if a + b > u64::MAX {
        (a + b - 0x1_0000_0000_0000_0000) as u64
    } else {
        (a + b) as u64
    }
}

/// The blocks of an encoded record. There are none where the count is 0. A
/// single block of an entry that is not encrypted is the whole body, and no
/// length is stored for it. Else the lengths of the blocks follow.
pub open spec fn parse_encoded_blocks(
    s: Seq<u8>,
    pos: int,
    b: u32,
    compressed: bool,
    stored: u64,
) -> Result<(Option<Seq<Block>>, int), Error> {
    let n = bits_block_count(b);
    let first = encoded_body_start(compressed, n);
    if n == 0 {
        Ok((None, pos))
    } else if n == 1 && !bits_encrypted(b) {
        Ok((Some(seq![Block { start: first as u64, end: wrapped_sum(first as u64, stored) }]), pos))
    } else {
        match parse_lengths(s, pos, first, bits_encrypted(b), n as nat) {
            Ok((blocks, p)) => Ok((Some(blocks), p)),
            Err(e) => Err(e),
        }
    }
}

/// The encoded record of an entry in the bytes from `pos` on: a bitfield,
/// then the unpacked length of a block where the bitfield does not hold it,
/// the offset, the unpacked length, the stored length of a compressed entry
/// (else it is the unpacked length), and the lengths of the blocks.
pub open spec fn parse_encoded(s: Seq<u8>, pos: int) -> Result<(EntryView, int), Error> {
    match parse_u32(s, pos) {
        Err(e) => Err(e),
        Ok((b, at1)) => match parse_block_size(s, at1, b) {
            Err(e) => Err(e),
            Ok((block_uncompressed, at2)) => match parse_sized(s, at2, b, 31) {
                Err(e) => Err(e),
                Ok((offset, at3)) => match parse_sized(s, at3, b, 30) {
                    Err(e) => Err(e),
                    Ok((uncompressed, at4)) => match (if bits_method(b) != 0 {
                        parse_sized(s, at4, b, 29)
                    } else {
                        Ok((uncompressed, at4))
                    }) {
                        Err(e) => Err(e),
                        Ok((compressed, at5)) => match parse_encoded_blocks(
                            s,
                            at5,
                            b,
                            bits_method(b) != 0,
                            compressed,
                        ) {
                            Err(e) => Err(e),
                            Ok((blocks, at6)) => Ok(
                                (
                                    EntryView {
                                        offset,
                                        compressed,
                                        uncompressed,
                                        compression: method_index(bits_method(b)),
                                        blocks,
                                        encrypted: bits_encrypted(b),
                                        block_uncompressed,
                                    },
                                    at6,
                                ),
                            ),
                        },
                    },
                },
            },
        },
    }
}

impl Block {
    /// Reads a block of a full record.
    pub fn new(reader: &mut Reader) -> (r: Result<Block, Error>)
        ensures
            final(reader).source() == old(reader).source(),
            yields(r, final(reader).offset(), parse_block(old(reader).source(), old(reader).offset())),
    {
        let start = reader.read_u64()?;
        let end = reader.read_u64()?;
        Ok(Block { start, end })
    }
}

/// Reads a list of blocks of a full record.
pub fn read_block_list(reader: &mut Reader) -> (r: Result<Vec<Block>, Error>)
    ensures
        final(reader).source() == old(reader).source(),
        yields(r, final(reader).offset(), parse_block_list(old(reader).source(), old(reader).offset())),
{
    let ghost s = reader.source();
    let ghost pos = reader.offset() + 4;
    let count = reader.read_u32()?;
    let bytes = reader.take(16 * (count as u64))?;
    let mut blocks: Vec<Block> = Vec::new();
    let mut at: usize = 0;
    while at < bytes.len()
        invariant
            at <= bytes@.len() == 16 * count,
            at % 16 == 0,
            fits(s, pos, 16 * count),
            bytes@ == s.subrange(pos, pos + 16 * count),
            blocks@ == block_run(s, pos, (at / 16) as nat),
        decreases bytes@.len() - at,
    {
        let start = decode_u64(slice_subrange(bytes, at, at + 8));
        let end = decode_u64(slice_subrange(bytes, at + 8, at + 16));
        blocks.push(Block { start, end });
        at = at + 16;
        assert(blocks@ =~= block_run(s, pos, (at / 16) as nat));
    }
    Ok(blocks)
}

/// Block `i` of an encoded record starts no further from the first block
/// than `i` padded lengths of 32 bits reach.
pub(crate) proof fn lemma_block_start_bound(s: Seq<u8>, pos: int, first: int, encrypted: bool, i: nat)
    ensures
        first <= block_start(s, pos, first, encrypted, i) <= first + i * 0x1_0000_0010,
    decreases i,
{
    if i > 0 {
        lemma_block_start_bound(s, pos, first, encrypted, (i - 1) as nat);
    }
}

/// Reads the lengths of the `count` blocks of an encoded record, the first
/// of which starts at `first`.
fn read_encoded_blocks(reader: &mut Reader, first: u64, encrypted: bool, count: u32) -> (r: Result<
    Vec<Block>,
    Error,
>)
    requires
        first <= 0x20_0000,
        count <= 0xffff,
    ensures
        final(reader).source() == old(reader).source(),
        yields(
            r,
            final(reader).offset(),
            parse_lengths(
                old(reader).source(),
                old(reader).offset(),
                first as int,
                encrypted,
                count as nat,
            ),
        ),
{
    let ghost s = reader.source();
    let ghost pos = reader.offset();
    let bytes = reader.take(4 * (count as u64))?;
    let mut blocks: Vec<Block> = Vec::new();
    let mut start: u64 = first;
    let mut at: usize = 0;
    while at < bytes.len()
        invariant
            at <= bytes@.len() == 4 * count,
            at % 4 == 0,
            count <= 0xffff,
            first <= 0x20_0000,
            fits(s, pos, 4 * count),
            bytes@ == s.subrange(pos, pos + 4 * count),
            start == block_start(s, pos, first as int, encrypted, (at / 4) as nat),
            blocks@ == encoded_blocks(s, pos, first as int, encrypted, (at / 4) as nat),
        decreases bytes@.len() - at,
    {
        let size = decode_u32(slice_subrange(bytes, at, at + 4));
        assert(size == stored_len(s, pos, at as int / 4));
        proof {
            lemma_block_start_bound(s, pos, first as int, encrypted, (at / 4) as nat);
            lemma_block_start_bound(s, pos, first as int, encrypted, (at / 4 + 1) as nat);
        }
        blocks.push(Block { start, end: start + size as u64 });
        start = start + if encrypted {
            (size as u64 + 15) / 16 * 16
        } else {
            size as u64
        };
        at = at + 4;
        assert(blocks@ =~= encoded_blocks(s, pos, first as int, encrypted, (at / 4) as nat));
    }
    Ok(blocks)
}

/// Reads a length or an offset behind a bitfield, in the width that the bit
/// `bit` of the bitfield sets.
fn read_sized(reader: &mut Reader, bitfield: u32, bit: u32) -> (r: Result<u64, Error>)
    requires
        29 <= bit <= 31,
    ensures
        final(reader).source() == old(reader).source(),
        yields(r, final(reader).offset(), parse_sized(old(reader).source(), old(reader).offset(), bitfield, bit)),
{
    let narrow = bitfield & (1u32 << bit) != 0;
    assert(narrow == bits_narrow(bitfield, bit)) by (bit_vector)
        requires
            29 <= bit <= 31,
            narrow == (bitfield & (1u32 << bit) != 0),
    ;
    if narrow {
        Ok(reader.read_u32()? as u64)
    } else {
        reader.read_u64()
    }
}

/// Reads the unpacked length of a block, which the bitfield holds unless
/// its 6 bits are all set.
fn read_block_size(reader: &mut Reader, bitfield: u32) -> (r: Result<u64, Error>)
    ensures
        final(reader).source() == old(reader).source(),
        yields(r, final(reader).offset(), parse_block_size(old(reader).source(), old(reader).offset(), bitfield)),
{
    let size_bits = bitfield & 0x3f;
    assert(size_bits == bits_block_size(bitfield) && size_bits < 0x40 && size_bits << 11
        == size_bits * 0x800) by (bit_vector)
        requires
            size_bits == bitfield & 0x3f,
    ;
    if size_bits == 0x3f {
        Ok(reader.read_u32()? as u64)
    } else {
        Ok((size_bits << 11) as u64)
    }
}

/// Reads the blocks of an encoded record with the bitfield `bitfield`,
/// whose entry has the stored length `stored`.
fn read_blocks_of(reader: &mut Reader, bitfield: u32, compressed: bool, stored: u64) -> (r: Result<
    Option<Vec<Block>>,
    Error,
>)
    ensures
        final(reader).source() == old(reader).source(),
        match parse_encoded_blocks(
            old(reader).source(),
            old(reader).offset(),
            bitfield,
            compressed,
            stored,
        ) {
            Ok((blocks, p)) => r matches Ok(read) && blocks_view(read) == blocks
                && final(reader).offset() == p,
            Err(e) => r == Err::<Option<Vec<Block>>, Error>(e),
        },
{
    let encrypted = (bitfield & (1u32 << 22)) != 0;
    let block_count: u32 = (bitfield >> 6) & 0xffff;
    assert(encrypted == bits_encrypted(bitfield)) by (bit_vector)
        requires
            encrypted == ((bitfield & (1u32 << 22)) != 0),
    ;
    assert(block_count == bits_block_count(bitfield) && block_count <= 0xffff) by (bit_vector)
        requires
            block_count == (bitfield >> 6) & 0xffff,
    ;
    // all versions with an encoded record have a header size of 53
    let mut start: u64 = ENCODED_HEADER;
    if compressed {
        start = start + 4 + 16 * block_count as u64;
    }
    if block_count == 0 {
        Ok(None)
    } else if block_count == 1 && !encrypted {
        let mut single: Vec<Block> = Vec::new();
        single.push(Block { start, end: start.wrapping_add(stored) });
        assert(single@ =~= seq![Block { start, end: wrapped_sum(start, stored) }]);
        Ok(Some(single))
    } else {
        Ok(Some(read_encoded_blocks(reader, start, encrypted, block_count)?))
    }
}

impl Entry {
    /// Reads the full record of an entry in an archive of revision `version`.
    pub fn new(reader: &mut Reader, version: Version) -> (r: Result<Entry, Error>)
        ensures
            final(reader).source() == old(reader).source(),
            yields(r, final(reader).offset(), parse_entry(old(reader).source(), old(reader).offset(), version)),
    {
        let offset = reader.read_u64()?;
        let compressed = reader.read_u64()?;
        let uncompressed = reader.read_u64()?;
        let method: u32 = if version == Version::FNameBasedCompression {
            reader.read_u8()? as u32
        } else {
            reader.read_u32()?
        };
        let compression: Option<usize> = if method == 0 {
            None
        } else {
            Some(method as usize - 1)
        };
        // timestamp
        if version == Version::Initial {
            reader.skip(8)?;
        }
        // hash
        reader.read_hash()?;
        let modern = version.is_at_least(Version::CompressionEncryption);
        let blocks = if modern && compression.is_some() {
            Some(read_block_list(reader)?)
        } else {
            None
        };
        let encrypted = modern && reader.read_bool()?;
        let block_uncompressed = if modern {
            reader.read_u32()? as u64
        } else {
            uncompressed
        };
        Ok(
            Entry {
                offset,
                compressed,
                uncompressed,
                compression,
                blocks,
                encrypted,
                block_uncompressed,
            },
        )
    }

    /// Reads the encoded record of an entry.
    pub fn from_encoded(reader: &mut Reader) -> (r: Result<Entry, Error>)
        ensures
            final(reader).source() == old(reader).source(),
            yields(r, final(reader).offset(), parse_encoded(old(reader).source(), old(reader).offset())),
    {
        let bitfield = reader.read_u32()?;
        let method = (bitfield >> 23) & 0x3f;
        let encrypted = (bitfield & (1u32 << 22)) != 0;
        assert(method == bits_method(bitfield) && method < 0x40) by (bit_vector)
            requires
                method == (bitfield >> 23) & 0x3f,
        ;
        assert(encrypted == bits_encrypted(bitfield)) by (bit_vector)
            requires
                encrypted == ((bitfield & (1u32 << 22)) != 0),
        ;
        let compression: Option<usize> = if method == 0 {
            None
        } else {
            Some(method as usize - 1)
        };
        let block_uncompressed = read_block_size(reader, bitfield)?;
        let offset = read_sized(reader, bitfield, 31)?;
        let uncompressed = read_sized(reader, bitfield, 30)?;
        let compressed = if compression.is_some() {
            read_sized(reader, bitfield, 29)?
        } else {
            uncompressed
        };
        let blocks = read_blocks_of(reader, bitfield, compression.is_some(), compressed)?;
        Ok(
            Entry {
                offset,
                compressed,
                uncompressed,
                compression,
                blocks,
                encrypted,
                block_uncompressed,
            },
        )
    }
}

} // verus!
