//! Laws of the reader: what holds of its functions together.

use vstd::prelude::*;
use crate::bytes::le_u32;
use crate::compression::Compression;
use crate::crypt::ecb_decrypted;
use crate::entry::{
    advance,
    bits_block_count,
    bits_encrypted,
    bits_method,
    block_start,
    ceil16,
    encoded_blocks,
    encoded_body_start,
    extent,
    lemma_block_start_bound,
    parse_encoded,
    parse_encoded_blocks,
    parse_entry,
    stored_len,
    tiles,
    Block,
    EntryView,
};
use crate::error::Error;
use crate::extract::{
    body_of,
    extracted,
    in_body,
    located,
    method_for,
    piece,
    pieces,
    unpacked_all,
    window_len,
};
use crate::inflate::{unpacked_block, zlib_inflated};
use crate::footer::parse_footer;
use crate::pak::{opened, probed, PakView};
use crate::reader::{fits, parse_bool};
use crate::records::{
    encodable,
    encoded_bytes,
    law_encoded_read_back,
    law_record_read_back,
    record_bytes,
    writable,
    Widths,
};
use crate::version::{lemma_versions_by_rank, Version, MAGIC};

verus! {

/// Where the magic number of a trailer that starts at `pos` lies.
pub open spec fn magic_at(pos: int, version: Version) -> int {
    pos + version.uuid_len() + version.flag_len()
}

/// A trailer needs the magic number: where the four bytes at its place
/// hold another value, reading the trailer fails with `Magic` and that
/// value, whatever the revision. The fields before the magic number are
/// read first, so the law asks that the flag of a revision that has one is
/// 0 or 1.
pub proof fn law_magic_required(s: Seq<u8>, pos: int, version: Version)
    requires
        fits(s, pos, version.trailer_len()),
        le_u32(s, magic_at(pos, version)) != MAGIC,
        version.at_least(Version::IndexEncryption) ==> s[pos + version.uuid_len()] <= 1,
    ensures
        parse_footer(s, pos, version) is Err,
        parse_footer(s, pos, version)->Err_0 == Error::Magic(le_u32(s, magic_at(pos, version))),
{
}

/// An archive needs the magic number: where the four bytes at its place in
/// the trailer hold another value, the archive is not opened, and the error
/// is `Magic` with that value, whatever the revision and the key. As in the
/// trailer alone, the flag before the magic number must be 0 or 1.
pub proof fn law_open_needs_magic(archive: Seq<u8>, version: Version, key: Option<Seq<u8>>)
    requires
        archive.len() >= version.trailer_len(),
        le_u32(archive, magic_at(archive.len() - version.trailer_len(), version)) != MAGIC,
        version.at_least(Version::IndexEncryption) ==> archive[archive.len() - version.trailer_len()
            + version.uuid_len()] <= 1,
    ensures
        opened(archive, version, key) is Err,
        opened(archive, version, key)->Err_0 == Error::Magic(
            le_u32(archive, magic_at(archive.len() - version.trailer_len(), version)),
        ),
{
    law_magic_required(archive, archive.len() - version.trailer_len(), version);
}

/// A flag is strict: a byte other than 0 and 1 is refused with `Bool` and
/// the byte.
pub proof fn law_bool_strict(s: Seq<u8>, pos: int)
    requires
        fits(s, pos, 1),
        s[pos] > 1,
    ensures
        parse_bool(s, pos) == Err::<(bool, int), Error>(Error::Bool(s[pos])),
{
}

/// Where the record of an entry is refused with `Bool`, the byte that the
/// error names is neither 0 nor 1.
pub proof fn law_record_flag_strict(s: Seq<u8>, pos: int, version: Version)
    requires
        parse_entry(s, pos, version) is Err,
        parse_entry(s, pos, version)->Err_0 is Bool,
    ensures
        parse_entry(s, pos, version)->Err_0->Bool_0 > 1,
{
}

/// An encrypted body is read in whole AES blocks and cut back: of an entry
/// with the stored length `n`, the `n` bytes rounded up to a multiple of 16
/// are read from where the body starts, and of what decryption makes of
/// them the first `n` are the body.
pub proof fn law_ecb_alignment(archive: Seq<u8>, entry: EntryView, data_offset: int, key: Seq<u8>)
    requires
        entry.encrypted,
        key.len() == 32,
        fits(archive, data_offset, ceil16(entry.compressed as int)),
    ensures
        window_len(entry) == ceil16(entry.compressed as int),
        window_len(entry) % 16 == 0,
        entry.compressed <= window_len(entry) < entry.compressed + 16,
        body_of(archive, entry, data_offset, Some(key)) == Ok::<Seq<u8>, Error>(
            ecb_decrypted(
                key,
                archive.subrange(data_offset, data_offset + ceil16(entry.compressed as int)),
            ).take(entry.compressed as int),
        ),
        body_of(archive, entry, data_offset, Some(key))->Ok_0.len() == entry.compressed,
{
}

/// The body of an entry depends on no byte outside the window that is
/// read: two archives that agree there give the same body.
pub proof fn law_body_reads_window(
    first: Seq<u8>,
    second: Seq<u8>,
    entry: EntryView,
    data_offset: int,
    key: Option<Seq<u8>>,
)
    requires
        fits(first, data_offset, window_len(entry)),
        fits(second, data_offset, window_len(entry)),
        first.subrange(data_offset, data_offset + window_len(entry)) == second.subrange(
            data_offset,
            data_offset + window_len(entry),
        ),
    ensures
        body_of(first, entry, data_offset, key) == body_of(second, entry, data_offset, key),
{
}

/// The blocks that the lengths of an encoded record describe tile the body:
/// the first starts where the body starts, each has its stored length, and
/// each starts where the one before it ends, padding included. So the sum
/// of the lengths, padded, is the distance from the start of the body to
/// the end of the last block.
pub proof fn law_encoded_blocks_tile(s: Seq<u8>, pos: int, first: int, encrypted: bool, n: nat)
    requires
        0 <= first <= 0x20_0000,
        n <= 0xffff,
    ensures
        tiles(encoded_blocks(s, pos, first, encrypted, n), encrypted, first),
        forall|i: int|
            0 <= i < n ==> (#[trigger] encoded_blocks(s, pos, first, encrypted, n)[i]).end
                - encoded_blocks(s, pos, first, encrypted, n)[i].start == stored_len(s, pos, i),
        extent(encoded_blocks(s, pos, first, encrypted, n), encrypted, n) == block_start(
            s,
            pos,
            first,
            encrypted,
            n,
        ) - first,
{
    let blocks = encoded_blocks(s, pos, first, encrypted, n);
    assert forall|i: int| 0 <= i <= n implies first + #[trigger] extent(blocks, encrypted, i as nat)
        == block_start(s, pos, first, encrypted, i as nat) by {
        lemma_extent_of_encoded(s, pos, first, encrypted, n, i as nat);
    }
    assert forall|i: int| 0 <= i < n implies (#[trigger] blocks[i]).start == first + extent(
        blocks,
        encrypted,
        i as nat,
    ) && blocks[i].start <= blocks[i].end && blocks[i].end - blocks[i].start == stored_len(
        s,
        pos,
        i,
    ) by {
        lemma_block_start_bound(s, pos, first, encrypted, i as nat);
    }
}

/// The first `i` of the blocks of an encoded record take up the bytes
/// from the start of the body to the start of block `i`.
pub(crate) proof fn lemma_extent_of_encoded(
    s: Seq<u8>,
    pos: int,
    first: int,
    encrypted: bool,
    n: nat,
    i: nat,
)
    requires
        0 <= first <= 0x20_0000,
        i <= n <= 0xffff,
    ensures
        first + extent(encoded_blocks(s, pos, first, encrypted, n), encrypted, i) == block_start(
            s,
            pos,
            first,
            encrypted,
            i,
        ),
    decreases i,
{
    if i > 0 {
        lemma_extent_of_encoded(s, pos, first, encrypted, n, (i - 1) as nat);
        lemma_block_start_bound(s, pos, first, encrypted, (i - 1) as nat);
    }
}

/// What block coverage says of the list of blocks of an encoded record
/// with the bitfield `b` and the stored length `stored`: there are as many
/// blocks as the bitfield counts, the first starts where the body starts,
/// and they tile the body. The one block of an entry that is not encrypted
/// covers the stored length, unless that reaches past the 64 bits of a
/// bound.
pub open spec fn covers(blocks: Seq<Block>, b: u32, compressed: bool, stored: u64) -> bool {
    let first = encoded_body_start(compressed, bits_block_count(b));
    &&& 0 < blocks.len() == bits_block_count(b) <= 0xffff
    &&& blocks[0].start == first
    &&& (blocks.len() > 1 || bits_encrypted(b)) ==> tiles(blocks, bits_encrypted(b), first)
    &&& (blocks.len() == 1 && !bits_encrypted(b) && first + stored <= u64::MAX) ==> tiles(
        blocks,
        false,
        first,
    ) && extent(blocks, false, 1) == stored
}

/// The blocks behind a bitfield cover the body.
pub(crate) proof fn lemma_block_tail_covers(s: Seq<u8>, pos: int, b: u32, compressed: bool, stored: u64)
    requires
        parse_encoded_blocks(s, pos, b, compressed, stored) is Ok,
        parse_encoded_blocks(s, pos, b, compressed, stored)->Ok_0.0 is Some,
    ensures
        covers(
            parse_encoded_blocks(s, pos, b, compressed, stored)->Ok_0.0->Some_0,
            b,
            compressed,
            stored,
        ),
{
    let blocks = parse_encoded_blocks(s, pos, b, compressed, stored)->Ok_0.0->Some_0;
    let n = bits_block_count(b);
    let first = encoded_body_start(compressed, n);
    assert(n <= 0xffff);
    if n == 1 && !bits_encrypted(b) {
        assert(extent(blocks, false, 0) == 0);
        assert(extent(blocks, false, 1) == extent(blocks, false, 0) + advance(
            blocks[0].end - blocks[0].start,
            false,
        ));
    } else {
        law_encoded_blocks_tile(s, pos, first, bits_encrypted(b), n as nat);
        lemma_block_start_bound(s, pos, first, bits_encrypted(b), 0);
    }
}

/// Block coverage of an encoded record: its blocks, where it has any, start
/// at the start of the body and tile it, and the one block of an entry that
/// is not encrypted covers the stored length.
pub proof fn law_block_coverage(s: Seq<u8>, pos: int)
    requires
        parse_encoded(s, pos) is Ok,
        parse_encoded(s, pos)->Ok_0.0.blocks is Some,
    ensures
        covers(
            parse_encoded(s, pos)->Ok_0.0.blocks->Some_0,
            le_u32(s, pos),
            parse_encoded(s, pos)->Ok_0.0.compression is Some,
            parse_encoded(s, pos)->Ok_0.0.compressed,
        ),
{
    let b = le_u32(s, pos);
    let stored = parse_encoded(s, pos)->Ok_0.0.compressed;
    let compressed = bits_method(b) != 0;
    assert forall|p: int|
        (#[trigger] parse_encoded_blocks(s, p, b, compressed, stored)) is Ok
            && parse_encoded_blocks(s, p, b, compressed, stored)->Ok_0.0 is Some implies covers(
        parse_encoded_blocks(s, p, b, compressed, stored)->Ok_0.0->Some_0,
        b,
        compressed,
        stored,
    ) by {
        lemma_block_tail_covers(s, p, b, compressed, stored);
    }
}

/// The first `n` pieces of a body, joined.
pub open spec fn joined(parts: Seq<Seq<u8>>, n: nat) -> Seq<u8>
    decreases n,
{
    if n == 0 {
        Seq::empty()
    } else {
        joined(parts, (n - 1) as nat) + parts[n - 1]
    }
}

/// Blocks that cover a body cut it into pieces that give it back: where
/// the blocks of an entry that is not encrypted tile the body from its
/// first byte on and the sum of their lengths is the length of the body,
/// every block lies in the body, and the pieces, joined, are the body.
pub proof fn law_covering_blocks_give_body(body: Seq<u8>, blocks: Seq<Block>, adj: int)
    requires
        tiles(blocks, false, adj),
        extent(blocks, false, blocks.len()) == body.len(),
    ensures
        pieces(body, Some(blocks), adj) is Some,
        joined(pieces(body, Some(blocks), adj)->Some_0, blocks.len()) == body,
        unpacked_all(Compression::Stored, pieces(body, Some(blocks), adj)->Some_0, blocks.len())
            == Ok::<Seq<u8>, Error>(body),
{
    assert forall|i: int| 0 <= i <= blocks.len() implies 0 <= #[trigger] extent(
        blocks,
        false,
        i as nat,
    ) <= body.len() by {
        lemma_extent_grows(blocks, adj, i as nat, blocks.len());
    }
    assert forall|i: int| 0 <= i < blocks.len() implies in_body(
        #[trigger] blocks[i],
        adj,
        body.len() as int,
    ) by {
        assert(extent(blocks, false, (i + 1) as nat) == extent(blocks, false, i as nat) + (
        blocks[i].end - blocks[i].start));
    }
    let parts = pieces(body, Some(blocks), adj)->Some_0;
    lemma_joined_is_prefix(body, blocks, adj, blocks.len());
    assert(body.take(body.len() as int) =~= body);
}

/// The extent of blocks that tile grows with their number.
pub(crate) proof fn lemma_extent_grows(blocks: Seq<Block>, adj: int, i: nat, n: nat)
    requires
        tiles(blocks, false, adj),
        i <= n <= blocks.len(),
    ensures
        0 <= extent(blocks, false, i) <= extent(blocks, false, n),
    decreases n,
{
    if i < n {
        lemma_extent_grows(blocks, adj, i, (n - 1) as nat);
        assert(blocks[n - 1].start <= blocks[n - 1].end);
    } else if n > 0 {
        lemma_extent_grows(blocks, adj, (n - 1) as nat, (n - 1) as nat);
        assert(blocks[n - 1].start <= blocks[n - 1].end);
    }
}

/// The first `n` pieces of a body that is tiled, joined, are its first
/// bytes, and unpacking them as stored gives the same.
pub(crate) proof fn lemma_joined_is_prefix(body: Seq<u8>, blocks: Seq<Block>, adj: int, n: nat)
    requires
        tiles(blocks, false, adj),
        extent(blocks, false, blocks.len()) == body.len(),
        pieces(body, Some(blocks), adj) is Some,
        n <= blocks.len(),
    ensures
        joined(pieces(body, Some(blocks), adj)->Some_0, n) == body.take(
            extent(blocks, false, n),
        ),
        unpacked_all(Compression::Stored, pieces(body, Some(blocks), adj)->Some_0, n) == Ok::<
            Seq<u8>,
            Error,
        >(joined(pieces(body, Some(blocks), adj)->Some_0, n)),
    decreases n,
{
    let parts = pieces(body, Some(blocks), adj)->Some_0;
    lemma_extent_grows(blocks, adj, n, blocks.len());
    if n > 0 {
        lemma_joined_is_prefix(body, blocks, adj, (n - 1) as nat);
        lemma_extent_grows(blocks, adj, (n - 1) as nat, n);
        let b = blocks[n - 1];
        assert(parts[n - 1] == piece(body, b, adj));
        assert(b.start == adj + extent(blocks, false, (n - 1) as nat));
        assert(joined(parts, n) =~= body.take(extent(blocks, false, n)));
    } else {
        assert(joined(parts, 0) =~= body.take(0));
    }
}

/// The bounds of the blocks `a` are those of the blocks `b`, all moved by
/// `shift`.
pub open spec fn shifted(a: Seq<Block>, b: Seq<Block>, shift: int) -> bool {
    &&& a.len() == b.len()
    &&& forall|i: int|
        0 <= i < a.len() ==> (#[trigger] a[i]).start == b[i].start + shift && a[i].end == b[i].end
            + shift
}

/// Two descriptions of an entry are the same but for what the bounds of
/// their blocks count from: their other fields are equal, and the blocks of
/// the one are those of the other, all moved by the same distance.
pub open spec fn same_modulo_frame(a: EntryView, b: EntryView) -> bool {
    &&& a.offset == b.offset
    &&& a.compressed == b.compressed
    &&& a.uncompressed == b.uncompressed
    &&& a.compression == b.compression
    &&& a.encrypted == b.encrypted
    &&& a.block_uncompressed == b.block_uncompressed
    &&& a.blocks is Some <==> b.blocks is Some
    &&& a.blocks is Some ==> exists|shift: int|
        shifted(a.blocks->Some_0, b.blocks->Some_0, shift)
}

/// The two forms of a record are equivalent: the full record of an entry
/// and its encoded record, whatever its writer chose, are read as the same
/// entry, but for what the bounds of the blocks count from. The full
/// record may give the bounds from the start of the archive, and the
/// encoded record implies them from the start of the record.
pub proof fn law_record_forms_agree(
    full: EntryView,
    version: Version,
    compact: EntryView,
    w: Widths,
)
    requires
        writable(full, version),
        encodable(compact, w),
        same_modulo_frame(full, compact),
    ensures
        parse_entry(record_bytes(full, version), 0, version) is Ok,
        parse_encoded(encoded_bytes(compact, w), 0) is Ok,
        same_modulo_frame(
            parse_entry(record_bytes(full, version), 0, version)->Ok_0.0,
            parse_encoded(encoded_bytes(compact, w), 0)->Ok_0.0,
        ),
{
    // each form is read back as the entry that was written
    assert(parse_entry(record_bytes(full, version), 0, version)->Ok_0.0 == full
        && parse_entry(record_bytes(full, version), 0, version) is Ok) by {
        law_record_read_back(full, version);
    }
    assert(parse_encoded(encoded_bytes(compact, w), 0)->Ok_0.0 == compact && parse_encoded(
        encoded_bytes(compact, w),
        0,
    ) is Ok) by {
        law_encoded_read_back(compact, w);
    }
}

/// From `RelativeChunkOffsets` on both forms give the bounds of the blocks
/// from the start of the record: the full record of an entry and its
/// encoded record are then read as the same entry outright.
pub proof fn law_record_forms_agree_exactly(entry: EntryView, version: Version, w: Widths)
    requires
        writable(entry, version),
        encodable(entry, w),
    ensures
        parse_entry(record_bytes(entry, version), 0, version) is Ok,
        parse_encoded(encoded_bytes(entry, w), 0) is Ok,
        parse_entry(record_bytes(entry, version), 0, version)->Ok_0.0 == entry,
        parse_encoded(encoded_bytes(entry, w), 0)->Ok_0.0 == entry,
{
    law_record_read_back(entry, version);
    law_encoded_read_back(entry, w);
}

/// The search over the revisions, from the latest down to the one of rank
/// `n - 1`, is decided by the first revision that does not fail with the
/// sign of a wrong guess: where every revision later than `version` fails
/// with such an error and `version` itself does not, the search ends as
/// opening the archive as `version` ends.
pub(crate) proof fn lemma_prober_decided(archive: Seq<u8>, key: Option<Seq<u8>>, version: Version, n: nat)
    requires
        version.rank() < n <= Version::all().len(),
        forall|later: Version|
            later.rank() > version.rank() ==> (#[trigger] opened(archive, later, key)) is Err
                && opened(archive, later, key)->Err_0.wrong_guess(),
        opened(archive, version, key) matches Err(e) ==> !e.wrong_guess(),
    ensures
        probed(archive, key, n) == opened(archive, version, key),
    decreases n,
{
    lemma_versions_by_rank();
    let candidate = Version::all()[n - 1];
    if candidate.rank() > version.rank() {
        lemma_prober_decided(archive, key, version, (n - 1) as nat);
    }
}

/// The search selects the revision of the archive: where the archive opens
/// as `version` and every later revision fails with a wrong magic number,
/// a wrong ordinal, bytes that end too early or memory that runs out, the
/// search opens it as `version`, and none of those errors is seen.
pub proof fn law_prober_selects(archive: Seq<u8>, key: Option<Seq<u8>>, version: Version)
    requires
        opened(archive, version, key) is Ok,
        forall|later: Version|
            later.rank() > version.rank() ==> (#[trigger] opened(archive, later, key)) is Err
                && opened(archive, later, key)->Err_0.wrong_guess(),
    ensures
        probed(archive, key, Version::all().len()) == opened(archive, version, key),
{
    lemma_versions_by_rank();
    lemma_prober_decided(archive, key, version, Version::all().len());
}

/// The search hands on the first error that is not the sign of a wrong
/// guess: where opening the archive as `version` fails with such an error
/// and every later revision fails with the sign of a wrong guess, the
/// search fails with the error of `version`, and no earlier revision is
/// tried.
pub proof fn law_prober_surfaces(archive: Seq<u8>, key: Option<Seq<u8>>, version: Version)
    requires
        opened(archive, version, key) is Err,
        !opened(archive, version, key)->Err_0.wrong_guess(),
        forall|later: Version|
            later.rank() > version.rank() ==> (#[trigger] opened(archive, later, key)) is Err
                && opened(archive, later, key)->Err_0.wrong_guess(),
    ensures
        probed(archive, key, Version::all().len()) == opened(archive, version, key),
{
    lemma_versions_by_rank();
    lemma_prober_decided(archive, key, version, Version::all().len());
}

/// The search never ends with the sign of a wrong guess: not with `Magic`,
/// not with `Version`, not with bytes that end too early. Where every
/// revision fails with one of them, it fails with `Parse`.
pub proof fn law_prober_hides_guesses(archive: Seq<u8>, key: Option<Seq<u8>>, n: nat)
    ensures
        probed(archive, key, n) matches Err(e) ==> !e.wrong_guess(),
        probed(archive, key, n) matches Err(e) ==> !(e is Magic) && !(e is Version),
        (forall|version: Version|
            (#[trigger] opened(archive, version, key)) is Err && opened(
                archive,
                version,
                key,
            )->Err_0.wrong_guess()) ==> probed(archive, key, n) == Err::<PakView, Error>(
            Error::Parse,
        ),
    decreases n,
{
    if n > 0 {
        law_prober_hides_guesses(archive, key, (n - 1) as nat);
    }
}

/// The content of an entry of one block is what its decoder makes of the
/// block, and nothing else: of a zlib block what the zlib decoder returns
/// for it, of a gzip block what the gzip decoder returns, of a stored block
/// the block. What a decoder returns for given bytes is not stated in this
/// library; it is the decoder's to say.
pub proof fn law_one_block_content(
    archive: Seq<u8>,
    entry: EntryView,
    version: Version,
    table: Seq<Compression>,
    key: Option<Seq<u8>>,
    block: Seq<u8>,
)
    requires
        located(archive, entry, version, key) == Ok::<Seq<Seq<u8>>, Error>(seq![block]),
        method_for(entry, table) != Compression::Oodle,
    ensures
        extracted(archive, entry, version, table, key) == unpacked_block(
            method_for(entry, table),
            block,
        ),
        method_for(entry, table) == Compression::Zlib ==> extracted(
            archive,
            entry,
            version,
            table,
            key,
        ) == match zlib_inflated(block) {
            Ok(out) => Ok::<Seq<u8>, Error>(out),
            Err(kind) => Err::<Seq<u8>, Error>(Error::Io(kind)),
        },
{
    let parts = seq![block];
    let method = method_for(entry, table);
    assert(unpacked_all(method, parts, 0) == Ok::<Seq<u8>, Error>(Seq::empty()));
    assert(unpacked_all(method, parts, 1) == match unpacked_block(method, parts[0]) {
        Err(e) => Err::<Seq<u8>, Error>(e),
        Ok(out) => Ok(Seq::<u8>::empty() + out),
    });
    match unpacked_block(method, block) {
        Ok(out) => {
            assert(Seq::<u8>::empty() + out =~= out);
        },
        Err(e) => {},
    }
}

/// Extraction is idempotent: two sinks that each took the content of the
/// same entry of the same archive took the same bytes.
pub proof fn law_extraction_idempotent(
    pak: PakView,
    path: Seq<char>,
    sink_before: Seq<u8>,
    sink_after: Seq<u8>,
    other_before: Seq<u8>,
    other_after: Seq<u8>,
)
    requires
        pak.content(path) matches Some(Ok(out)) && sink_after == sink_before + out,
        pak.content(path) matches Some(Ok(out)) && other_after == other_before + out,
    ensures
        sink_after.skip(sink_before.len() as int) == other_after.skip(other_before.len() as int),
{
    let out = pak.content(path)->Some_0->Ok_0;
    assert(sink_after.skip(sink_before.len() as int) =~= out);
    assert(other_after.skip(other_before.len() as int) =~= out);
}

} // verus!
