//! Extraction: from the record of an entry to the bytes of its content.
//!
//! The record header is read again at the entry's offset, to find where the
//! body starts. The body is taken whole, decrypted where the entry is
//! encrypted, cut into its blocks, and each block is unpacked in turn.

use vstd::prelude::*;
use vstd::slice::{slice_subrange, slice_to_vec};
use crate::compression::Compression;
use crate::crypt::{decrypt, decrypted, key_view};
use crate::entry::{ceil16, parse_entry, Block, Entry, EntryView};
use crate::error::{Error, IoKind};
use crate::inflate::{unpack_block, unpacked_block};
use crate::reader::{eof, fits, Reader};
use crate::version::Version;

verus! {

/// What the bounds of the blocks of an entry count from, as a position in
/// the archive taken off the start of the body: the start of the record from
/// `RelativeChunkOffsets` on, before that the start of the archive.
pub open spec fn frame(version: Version, data_offset: int, entry_offset: int) -> int {
    if version.at_least(Version::RelativeChunkOffsets) {
        data_offset - entry_offset
    } else {
        data_offset
    }
}

/// The block `b` lies in a body of `len` bytes, of which the first has the
/// bound `adj`.
pub open spec fn in_body(b: Block, adj: int, len: int) -> bool {
    adj <= b.start <= b.end && b.end - adj <= len
}

/// The bytes of the block `b` of the body.
pub open spec fn piece(body: Seq<u8>, b: Block, adj: int) -> Seq<u8> {
    body.subrange(b.start - adj, b.end - adj)
}

/// The pieces of a body that are unpacked one by one: its blocks, or all of
/// it where the entry has no list of blocks. There are none to be had where
/// a block does not lie in the body.
pub open spec fn pieces(body: Seq<u8>, blocks: Option<Seq<Block>>, adj: int) -> Option<Seq<Seq<u8>>> {
    match blocks {
        None => Some(seq![body]),
        Some(blocks) => if forall|i: int|
            0 <= i < blocks.len() ==> in_body(#[trigger] blocks[i], adj, body.len() as int) {
            Some(Seq::new(blocks.len(), |i: int| piece(body, blocks[i], adj)))
        } else {
            None
        },
    }
}

/// The first `n` pieces unpacked and joined, or the error of the first piece
/// that cannot be unpacked.
pub open spec fn unpacked_all(method: Compression, pieces: Seq<Seq<u8>>, n: nat) -> Result<
    Seq<u8>,
    Error,
>
    decreases n,
{
    if n == 0 {
        Ok(Seq::empty())
    } else {
        match unpacked_all(method, pieces, (n - 1) as nat) {
            Err(e) => Err(e),
            Ok(joined) => match unpacked_block(method, pieces[n - 1]) {
                Err(e) => Err(e),
                Ok(out) => Ok(joined + out),
            },
        }
    }
}

/// The method by which an entry is compressed: the one that its number
/// picks from the table, and `Stored` where it has no number or the table
/// has no such place.
pub open spec fn method_for(entry: EntryView, table: Seq<Compression>) -> Compression {
    match entry.compression {
        Some(i) => if i < table.len() {
            table[i as int]
        } else {
            Compression::Stored
        },
        None => Compression::Stored,
    }
}

/// How many bytes are read as the body of an entry: its stored length,
/// rounded up to whole AES blocks where it is encrypted.
pub open spec fn window_len(entry: EntryView) -> int {
    if entry.encrypted {
        ceil16(entry.compressed as int)
    } else {
        entry.compressed as int
    }
}

/// The body of an entry, which starts at `data_offset`: the bytes read, and
/// of an encrypted entry what decryption makes of them, cut back to the
/// stored length.
pub open spec fn body_of(archive: Seq<u8>, entry: EntryView, data_offset: int, key: Option<Seq<u8>>) -> Result<
    Seq<u8>,
    Error,
> {
    if !fits(archive, data_offset, window_len(entry)) {
        Err(eof())
    } else {
        let raw = archive.subrange(data_offset, data_offset + window_len(entry));
        if entry.encrypted {
            match decrypted(key, raw) {
                Ok(plain) => Ok(plain.take(entry.compressed as int)),
                Err(e) => Err(e),
            }
        } else {
            Ok(raw)
        }
    }
}

/// The blocks of the body of an entry as they are stored, decrypted but
/// not unpacked: the record is read at the offset of the entry to find
/// where the body starts, the body is read, and it is cut into its blocks.
pub open spec fn located(
    archive: Seq<u8>,
    entry: EntryView,
    version: Version,
    key: Option<Seq<u8>>,
) -> Result<Seq<Seq<u8>>, Error> {
    match parse_entry(archive, entry.offset as int, version) {
        Err(e) => Err(e),
        Ok((_, data_offset)) => match body_of(archive, entry, data_offset, key) {
            Err(e) => Err(e),
            Ok(body) => match pieces(
                body,
                entry.blocks,
                frame(version, data_offset, entry.offset as int),
            ) {
                None => Err(eof()),
                Some(parts) => Ok(parts),
            },
        },
    }
}

/// The content of an entry of an archive of revision `version`, given the
/// archive's table of compression methods and the key: its blocks, each
/// unpacked, one behind the other.
pub open spec fn extracted(
    archive: Seq<u8>,
    entry: EntryView,
    version: Version,
    table: Seq<Compression>,
    key: Option<Seq<u8>>,
) -> Result<Seq<u8>, Error> {
    match located(archive, entry, version, key) {
        Err(e) => Err(e),
        Ok(parts) => if method_for(entry, table) == Compression::Oodle {
            Err(Error::Oodle)
        } else {
            unpacked_all(method_for(entry, table), parts, parts.len())
        },
    }
}

/// The length to which block `i` of `count` blocks of an entry unpacks, as
/// the Oodle decoder must be told: the unpacked length of a block for all
/// but the last, which has what is left of the unpacked length of the
/// entry. A single block has all of it. There is no such length where the
/// blocks before this one would hold more than the entry.
pub open spec fn oodle_len(entry: EntryView, i: int, count: int) -> Option<u64> {
    if count == 1 {
        Some(entry.uncompressed)
    } else if i * entry.block_uncompressed > entry.uncompressed {
        None
    } else if entry.uncompressed - i * entry.block_uncompressed < entry.block_uncompressed {
        Some((entry.uncompressed - i * entry.block_uncompressed) as u64)
    } else {
        Some(entry.block_uncompressed)
    }
}

/// The ranges bound the parts of the body.
pub open spec fn bound(body: Seq<u8>, ranges: Seq<(usize, usize)>, parts: Seq<Seq<u8>>) -> bool {
    &&& ranges.len() == parts.len()
    &&& forall|i: int|
        0 <= i < ranges.len() ==> (#[trigger] ranges[i]).0 <= ranges[i].1 <= body.len() && parts[i]
            == body.subrange(ranges[i].0 as int, ranges[i].1 as int)
}

/// Once a piece cannot be unpacked, taking more pieces changes nothing.
pub(crate) proof fn lemma_unpacked_all_stops(method: Compression, pieces: Seq<Seq<u8>>, k: nat, n: nat)
    requires
        k <= n,
        unpacked_all(method, pieces, k) is Err,
    ensures
        unpacked_all(method, pieces, n) == unpacked_all(method, pieces, k),
    decreases n,
{
    if k < n {
        lemma_unpacked_all_stops(method, pieces, k, (n - 1) as nat);
    }
}

/// The ranges of the body that the blocks stand for, or `None` where one of
/// them does not lie in a body of `len` bytes.
fn ranges_of(blocks: &Vec<Block>, adj: u64, len: usize) -> (r: Option<Vec<(usize, usize)>>)
    ensures
        r is Some <==> (forall|i: int|
            0 <= i < blocks@.len() ==> in_body(#[trigger] blocks@[i], adj as int, len as int)),
        r matches Some(ranges) ==> ranges@.len() == blocks@.len() && forall|i: int|
            0 <= i < blocks@.len() ==> (#[trigger] ranges@[i]).0 == blocks@[i].start - adj
                && ranges@[i].1 == blocks@[i].end - adj,
{
    let mut ranges: Vec<(usize, usize)> = Vec::new();
    let mut i: usize = 0;
    while i < blocks.len()
        invariant
            i <= blocks@.len(),
            ranges@.len() == i,
            forall|j: int| 0 <= j < i ==> in_body(#[trigger] blocks@[j], adj as int, len as int),
            forall|j: int|
                0 <= j < i ==> (#[trigger] ranges@[j]).0 == blocks@[j].start - adj && ranges@[j].1
                    == blocks@[j].end - adj,
        decreases blocks@.len() - i,
    {
        let block = blocks[i];
        if block.start < adj || block.end < block.start || block.end - adj > len as u64 {
            return None;
        }
        ranges.push(((block.start - adj) as usize, (block.end - adj) as usize));
        i = i + 1;
    }
    Some(ranges)
}

/// Unpacks the parts of `body` that `ranges` bound, one by one, and appends
/// them to `sink`. On an error `sink` is as it was.
fn unpack_ranges(method: Compression, body: &[u8], ranges: &Vec<(usize, usize)>, sink: &mut Vec<u8>, parts: Ghost<Seq<Seq<u8>>>) -> (r: Result<(), Error>)
    requires
        bound(body@, ranges@, parts@),
    ensures
        match unpacked_all(method, parts@, parts@.len()) {
            Ok(out) => r is Ok && final(sink)@ == old(sink)@ + out,
            Err(e) => r == Err::<(), Error>(e) && final(sink)@ == old(sink)@,
        },
{
    let ghost before = sink@;
    let ghost mut joined: Seq<u8> = Seq::empty();
    let kept = sink.len();
    let count = ranges.len();
    let mut failure: Option<Error> = None;
    let mut i: usize = 0;
    while i < count && failure.is_none()
        invariant
            i <= count == ranges@.len() == parts@.len(),
            kept == before.len(),
            bound(body@, ranges@, parts@),
            sink@ == before + joined,
            failure is None ==> unpacked_all(method, parts@, i as nat) == Ok::<Seq<u8>, Error>(
                joined,
            ),
            failure matches Some(e) ==> i < count && unpacked_all(method, parts@, (i + 1) as nat)
                == Err::<Seq<u8>, Error>(e),
        decreases count - i + (if failure is None { 1int } else { 0int }),
    {
        let range = ranges[i];
        match unpack_block(method, slice_subrange(body, range.0, range.1), sink) {
            Ok(()) => {
                proof {
                    let out = unpacked_block(method, parts@[i as int])->Ok_0;
                    assert(before + (joined + out) =~= (before + joined) + out);
                    joined = joined + out;
                }
                i = i + 1;
            },
            Err(e) => {
                failure = Some(e);
            },
        }
    }
    match failure {
        Some(e) => {
            proof {
                lemma_unpacked_all_stops(method, parts@, (i + 1) as nat, parts@.len());
            }
            sink.truncate(kept);
            assert(sink@ =~= before);
            Err(e)
        },
        None => Ok(()),
    }
}

/// The full record of an entry ends behind where it starts.
pub(crate) proof fn lemma_record_has_length(s: Seq<u8>, pos: int, version: Version)
    requires
        parse_entry(s, pos, version) is Ok,
    ensures
        pos < parse_entry(s, pos, version)->Ok_0.1 <= s.len(),
{
}

impl Entry {
    /// Reads the body of the entry from `archive` and finds its blocks: the
    /// body, decrypted, and the range of each block in it.
    fn locate(&self, archive: &[u8], version: Version, key: Option<&[u8]>) -> (r: Result<
        (Vec<u8>, Vec<(usize, usize)>),
        Error,
    >)
        ensures
            match located(archive@, self@, version, key_view(key)) {
                Ok(parts) => r matches Ok(found) && bound(found.0@, found.1@, parts),
                Err(e) => r == Err::<(Vec<u8>, Vec<(usize, usize)>), Error>(e),
            },
    {
        let mut reader = Reader::new(archive);
        reader.seek(self.offset);
        Entry::new(&mut reader, version)?;
        let data_offset = reader.stream_position();
        proof {
            lemma_record_has_length(archive@, self.offset as int, version);
        }
        if self.compressed > archive.len() as u64 || self.compressed > u64::MAX - 15 {
            return Err(Error::Io(IoKind::UnexpectedEof));
        }
        let window: u64 = if self.encrypted {
            // add alignment (aes block size: 16)
            (self.compressed + 15) / 16 * 16
        } else {
            self.compressed
        };
        let mut data = reader.read_len(window)?;
        if self.encrypted {
            decrypt(key, &mut data)?;
            data.truncate(self.compressed as usize);
        }
        let ranges = match &self.blocks {
            Some(blocks) => {
                let shift = if version.is_at_least(Version::RelativeChunkOffsets) {
                    data_offset - self.offset
                } else {
                    data_offset
                };
                match ranges_of(blocks, shift, data.len()) {
                    Some(ranges) => ranges,
                    None => {
                        return Err(Error::Io(IoKind::UnexpectedEof));
                    },
                }
            },
            None => {
                let mut whole: Vec<(usize, usize)> = Vec::new();
                whole.push((0, data.len()));
                assert(data@.subrange(0, data@.len() as int) =~= data@);
                whole
            },
        };
        Ok((data, ranges))
    }

    /// The blocks of the body of the entry as `archive` stores them,
    /// decrypted but not unpacked. They are what a decoder that this
    /// library does not have is to be given.
    pub fn stored_blocks(&self, archive: &[u8], version: Version, key: Option<&[u8]>) -> (r: Result<
        Vec<Vec<u8>>,
        Error,
    >)
        ensures
            match located(archive@, self@, version, key_view(key)) {
                Ok(parts) => r matches Ok(blocks) && blocks@.len() == parts.len() && forall|
                    i: int,
                |
                    0 <= i < parts.len() ==> (#[trigger] blocks@[i])@ == parts[i],
                Err(e) => r == Err::<Vec<Vec<u8>>, Error>(e),
            },
    {
        let (body, ranges) = self.locate(archive, version, key)?;
        let ghost parts = located(archive@, self@, version, key_view(key))->Ok_0;
        let mut blocks: Vec<Vec<u8>> = Vec::new();
        let mut i: usize = 0;
        while i < ranges.len()
            invariant
                i <= ranges@.len(),
                bound(body@, ranges@, parts),
                blocks@.len() == i,
                forall|j: int| 0 <= j < i ==> (#[trigger] blocks@[j])@ == parts[j],
            decreases ranges@.len() - i,
        {
            let range = ranges[i];
            blocks.push(slice_to_vec(slice_subrange(body.as_slice(), range.0, range.1)));
            i = i + 1;
        }
        Ok(blocks)
    }

    /// The length to which block `i` of `count` blocks of the entry
    /// unpacks, as the Oodle decoder must be told.
    pub fn oodle_block_len(&self, i: usize, count: usize) -> (r: Option<u64>)
        ensures
            r == oodle_len(self@, i as int, count as int),
    {
        if count == 1 {
            return Some(self.uncompressed);
        }
        assert(self.block_uncompressed == 0 ==> i * self.block_uncompressed == 0) by (nonlinear_arith);
        if self.block_uncompressed == 0 {
            return Some(0);
        }
        let whole = self.uncompressed / self.block_uncompressed;
        assert(i <= whole <==> i * self.block_uncompressed <= self.uncompressed) by (nonlinear_arith)
            requires
                self.block_uncompressed > 0,
                whole == self.uncompressed / self.block_uncompressed,
        ;
        if i as u64 > whole {
            return None;
        }
        assert(i * self.block_uncompressed <= u64::MAX);
        let left = self.uncompressed - i as u64 * self.block_uncompressed;
        if left < self.block_uncompressed {
            Some(left)
        } else {
            Some(self.block_uncompressed)
        }
    }

    /// Extracts the entry from `archive`, an archive of revision `version`
    /// with the table of compression methods `compression`, and appends its
    /// content to `buf`. An encrypted entry needs the key of 32 bytes. On an
    /// error `buf` is as it was.
    pub fn read(
        &self,
        archive: &[u8],
        version: Version,
        compression: &[Compression],
        key: Option<&[u8]>,
        buf: &mut Vec<u8>,
    ) -> (r: Result<(), Error>)
        ensures
            match extracted(archive@, self@, version, compression@, key_view(key)) {
                Ok(out) => r is Ok && final(buf)@ == old(buf)@ + out,
                Err(e) => r == Err::<(), Error>(e) && final(buf)@ == old(buf)@,
            },
    {
        let (data, ranges) = self.locate(archive, version, key)?;
        let ghost parts = located(archive@, self@, version, key_view(key))->Ok_0;
        let method = match self.compression {
            Some(i) => if i < compression.len() {
                compression[i]
            } else {
                Compression::Stored
            },
            None => Compression::Stored,
        };
        match method {
            Compression::Oodle => Err(Error::Oodle),
            _ => unpack_ranges(method, data.as_slice(), &ranges, buf, Ghost(parts)),
        }
    }
}

} // verus!
