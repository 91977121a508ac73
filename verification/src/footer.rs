//! The trailer: the fixed run of bytes at the end of an archive that says
//! where the index lies.

use vstd::prelude::*;
use vstd::slice::slice_subrange;
use crate::compression::{method_of, Compression};
use crate::error::Error;
use crate::reader::{eof, fits, parse_bool, parse_skip, parse_u32, parse_u64, yields, Reader};
use crate::version::{Version, MAGIC};

verus! {

/// What a trailer says of its archive.
#[derive(Debug)]
pub struct Footer {
    /// whether the index is encrypted
    pub encrypted: bool,
    /// where the index starts
    pub index_offset: u64,
    /// how many bytes the index has
    pub index_size: u64,
    /// the methods that the entries name by their place in this table
    pub compression: Vec<Compression>,
}

/// The model of a [`Footer`].
pub struct FooterView {
    pub encrypted: bool,
    pub index_offset: u64,
    pub index_size: u64,
    pub compression: Seq<Compression>,
}

impl View for Footer {
    type V = FooterView;

    open spec fn view(&self) -> FooterView {
        FooterView {
            encrypted: self.encrypted,
            index_offset: self.index_offset,
            index_size: self.index_size,
            compression: self.compression@,
        }
    }
}

/// The table of the revisions whose trailer names no methods.
pub open spec fn implicit_table() -> Seq<Compression> {
    seq![Compression::Zlib, Compression::Gzip, Compression::Oodle]
}

/// The `i`th of the slots of 32 bytes that start at `pos`.
pub open spec fn name_slot(s: Seq<u8>, pos: int, i: int) -> Seq<u8> {
    s.subrange(pos + 32 * i, pos + 32 * i + 32)
}

/// The methods named by `n` slots of 32 bytes from `pos` on.
pub open spec fn named_table(s: Seq<u8>, pos: int, n: nat) -> Seq<Compression> {
    Seq::new(n, |i: int| method_of(name_slot(s, pos, i)))
}

/// The index-encryption flag of a trailer that starts at `pos`: read from
/// the revision that has one on, else unset.
pub open spec fn parse_flag(s: Seq<u8>, pos: int, version: Version) -> Result<(bool, int), Error> {
    if version.at_least(Version::IndexEncryption) {
        parse_bool(s, pos)
    } else {
        Ok((false, pos))
    }
}

/// The trailer of an archive of revision `version` in the bytes from `pos`
/// on. Its fields, in order: the encryption-key UUID and the
/// index-encryption flag in the revisions that have them, the magic number,
/// the ordinal, offset and size of the index, its hash, the frozen-index
/// marker in the one revision that has it, and the compression names. The
/// first field that cannot be read or does not hold what it must decides the
/// error.
pub open spec fn parse_footer(s: Seq<u8>, pos: int, version: Version) -> Result<
    (FooterView, int),
    Error,
> {
    match parse_skip(s, pos, version.uuid_len()) {
        Err(e) => Err(e),
        Ok((_, at1)) => match parse_flag(s, at1, version) {
            Err(e) => Err(e),
            Ok((encrypted, at2)) => match parse_u32(s, at2) {
                Err(e) => Err(e),
                Ok((magic, at3)) => if magic != MAGIC {
                    Err(Error::Magic(magic))
                } else {
                    match parse_u32(s, at3) {
                        Err(e) => Err(e),
                        Ok((ordinal, at4)) => if ordinal != version.ordinal() {
                            Err(Error::Version(ordinal))
                        } else {
                            parse_footer_tail(s, at4, version, encrypted)
                        },
                    }
                },
            },
        },
    }
}

/// The fields of a trailer behind its ordinal.
pub open spec fn parse_footer_tail(s: Seq<u8>, pos: int, version: Version, encrypted: bool) -> Result<
    (FooterView, int),
    Error,
> {
    match parse_u64(s, pos) {
        Err(e) => Err(e),
        Ok((index_offset, at1)) => match parse_u64(s, at1) {
            Err(e) => Err(e),
            Ok((index_size, at2)) => match parse_skip(s, at2, 20) {
                Err(e) => Err(e),
                Ok((_, at3)) => match parse_frozen(s, at3, version) {
                    Err(e) => Err(e),
                    Ok((_, at4)) => match parse_table(s, at4, version.name_slots()) {
                        Err(e) => Err(e),
                        Ok((names, at5)) => Ok(
                            (
                                FooterView {
                                    encrypted,
                                    index_offset,
                                    index_size,
                                    compression: if version.name_slots() == 0 {
                                        implicit_table()
                                    } else {
                                        names
                                    },
                                },
                                at5,
                            ),
                        ),
                    },
                },
            },
        },
    }
}

/// A table of `n` compression names.
pub open spec fn parse_table(s: Seq<u8>, pos: int, n: nat) -> Result<(Seq<Compression>, int), Error> {
    if fits(s, pos, 32 * (n as int)) {
        Ok((named_table(s, pos, n), pos + 32 * n))
    } else {
        Err(eof())
    }
}

/// The frozen-index marker, a flag that only one revision has.
pub open spec fn parse_frozen(s: Seq<u8>, pos: int, version: Version) -> Result<(bool, int), Error> {
    if version == Version::FrozenIndex {
        parse_bool(s, pos)
    } else {
        Ok((false, pos))
    }
}

/// Reads a table of `slots` compression names at the cursor.
pub(crate) fn read_table(reader: &mut Reader, slots: usize) -> (r: Result<Vec<Compression>, Error>)
    requires
        slots <= 5,
    ensures
        final(reader).source() == old(reader).source(),
        yields(r, final(reader).offset(), parse_table(old(reader).source(), old(reader).offset(), slots as nat)),
{
    let ghost s = reader.source();
    let ghost start = reader.offset();
    let bytes = reader.take(32 * (slots as u64))?;
    let mut table: Vec<Compression> = Vec::new();
    let mut i: usize = 0;
    while i < slots
        invariant
            i <= slots <= 5,
            fits(s, start, 32 * slots),
            bytes@ == s.subrange(start, start + 32 * slots),
            table@ == named_table(s, start, i as nat),
        decreases slots - i,
    {
        let slot = slice_subrange(bytes, 32 * i, 32 * i + 32);
        assert(slot@ =~= s.subrange(start + 32 * i, start + 32 * i + 32));
        table.push(Compression::from_name(slot));
        i = i + 1;
        assert(table@ =~= named_table(s, start, i as nat));
    }
    Ok(table)
}

impl Footer {
    /// Reads the trailer of an archive of revision `version` at the cursor.
    pub fn new(reader: &mut Reader, version: Version) -> (r: Result<Footer, Error>)
        ensures
            final(reader).source() == old(reader).source(),
            yields(r, final(reader).offset(), parse_footer(old(reader).source(), old(reader).offset(), version)),
    {
        // encryption key uuid
        if version.is_at_least(Version::EncryptionKeyUuid) {
            reader.read_u128()?;
        }
        let encrypted = version.is_at_least(Version::IndexEncryption) && reader.read_bool()?;
        let magic = reader.read_u32()?;
        if magic != MAGIC {
            return Err(Error::Magic(magic));
        }
        // version won't always be the given
        let pak_ver = reader.read_u32()?;
        if version.as_u32() != pak_ver {
            return Err(Error::Version(pak_ver));
        }
        let index_offset = reader.read_u64()?;
        let index_size = reader.read_u64()?;
        // hash
        reader.read_hash()?;
        // frozen index
        if version == Version::FrozenIndex {
            reader.read_bool()?;
        }
        let slots: usize = if !version.is_at_least(Version::FNameBasedCompression) {
            0
        } else if !version.is_at_least(Version::FNameBasedCompression2) {
            4
        } else {
            5
        };
        let mut compression = read_table(reader, slots)?;
        if !version.is_at_least(Version::FNameBasedCompression) {
            compression.push(Compression::Zlib);
            compression.push(Compression::Gzip);
            compression.push(Compression::Oodle);
            assert(compression@ =~= implicit_table());
        }
        Ok(Footer { encrypted, index_offset, index_size, compression })
    }
}

} // verus!
