//! The reader: an archive that has been opened, its entries listed, ready
//! to hand out their content.

use vstd::prelude::*;
use vstd::slice::slice_to_vec;
use crate::compression::Compression;
use crate::crypt::{decrypt, key_view};
use crate::entry::{Entry, EntryView};
use crate::error::{Error, IoKind};
use crate::extract::{extracted, located};
use crate::footer::{parse_footer, Footer};
use crate::index::{parse_index, read_index, unlocked};
use crate::reader::{eof, parse_bytes, Reader};
use crate::table::{paths_view, EntryTable};
use crate::version::Version;

verus! {

/// An archive that has been opened.
#[derive(Debug)]
pub struct Pak {
    version: Version,
    data: Vec<u8>,
    mount_point: String,
    key: Option<Vec<u8>>,
    compression: Vec<Compression>,
    entries: EntryTable,
}

/// The model of a [`Pak`].
pub struct PakView {
    /// the revision as which the archive was opened
    pub version: Version,
    /// the bytes of the archive
    pub archive: Seq<u8>,
    /// the mount point that the index names
    pub mount_point: Seq<char>,
    /// the key that the caller gave
    pub key: Option<Seq<u8>>,
    /// the table of compression methods of the trailer
    pub compression: Seq<Compression>,
    /// the entries by path
    pub entries: Map<Seq<char>, EntryView>,
}

impl PakView {
    /// The blocks of the entry at `path` as they are stored: `None` where
    /// the archive has no such entry.
    pub open spec fn blocks(self, path: Seq<char>) -> Option<Result<Seq<Seq<u8>>, Error>> {
        if self.entries.contains_key(path) {
            Some(located(self.archive, self.entries[path], self.version, self.key))
        } else {
            None
        }
    }

    /// The content of the entry at `path`: `None` where the archive has no
    /// such entry, else what extraction gives.
    pub open spec fn content(self, path: Seq<char>) -> Option<Result<Seq<u8>, Error>> {
        if self.entries.contains_key(path) {
            Some(
                extracted(self.archive, self.entries[path], self.version, self.compression, self.key),
            )
        } else {
            None
        }
    }
}

/// The archive `archive` opened as revision `version`, with the key that
/// the caller gave. The trailer is the last bytes of the archive; it says
/// where the index lies and whether it is encrypted. An encrypted index
/// needs the key. A key that is given is kept for the entries, whether the
/// index is encrypted or not.
pub open spec fn opened(archive: Seq<u8>, version: Version, key: Option<Seq<u8>>) -> Result<
    PakView,
    Error,
> {
    if archive.len() < version.trailer_len() {
        Err(eof())
    } else {
        match parse_footer(archive, archive.len() - version.trailer_len(), version) {
            Err(e) => Err(e),
            Ok((footer, _)) => match parse_bytes(
                archive,
                footer.index_offset as int,
                footer.index_size as int,
            ) {
                Err(e) => Err(e),
                Ok((raw, _)) => match unlocked(footer.encrypted, key, raw) {
                    Err(e) => Err(e),
                    Ok(index) => match parse_index(archive, index, version, footer.encrypted, key) {
                        Err(e) => Err(e),
                        Ok(model) => Ok(
                            PakView {
                                version,
                                archive,
                                mount_point: model.mount_point,
                                key,
                                compression: footer.compression,
                                entries: model.entries,
                            },
                        ),
                    },
                },
            },
        }
    }
}

/// The archive opened as the latest of the first `n` revisions as which it
/// can be opened. A revision is passed over where it fails with the sign of
/// a wrong guess: a wrong magic number or ordinal, bytes that end too
/// early, memory that runs out. Any other error ends the search and is the
/// result. Where no revision is left the archive cannot be read.
pub open spec fn probed(archive: Seq<u8>, key: Option<Seq<u8>>, n: nat) -> Result<PakView, Error>
    decreases n,
{
    if n == 0 || n > Version::all().len() {
        Err(Error::Parse)
    } else {
        match opened(archive, Version::all()[n - 1], key) {
            Ok(pak) => Ok(pak),
            Err(e) => if e.wrong_guess() {
                probed(archive, key, (n - 1) as nat)
            } else {
                Err(e)
            },
        }
    }
}

/// What was read of an archive when it was opened.
struct Opened {
    mount_point: String,
    key: Option<Vec<u8>>,
    compression: Vec<Compression>,
    entries: EntryTable,
}

/// The model of a key that is kept.
pub open spec fn kept_key(key: Option<Vec<u8>>) -> Option<Seq<u8>> {
    match key {
        Some(key) => Some(key@),
        None => None,
    }
}

/// Reads the trailer and the index of `data` as revision `version`.
fn open(data: &[u8], version: Version, key_hash: Option<&[u8]>) -> (r: Result<Opened, Error>)
    ensures
        match opened(data@, version, key_view(key_hash)) {
            Ok(model) => r matches Ok(read) && read.mount_point@ == model.mount_point && kept_key(
                read.key,
            ) == model.key && read.compression@ == model.compression && read.entries@
                == model.entries,
            Err(e) => r == Err::<Opened, Error>(e),
        },
{
    let footer_size = version.footer_size() as u64;
    if (data.len() as u64) < footer_size {
        return Err(Error::Io(IoKind::UnexpectedEof));
    }
    let mut reader = Reader::new(data);
    // read footer to get index, encryption & compression info
    reader.seek(data.len() as u64 - footer_size);
    let footer = Footer::new(&mut reader, version)?;
    // read index to get all the entry info
    reader.seek(footer.index_offset);
    let mut index = reader.read_len(footer.index_size)?;
    // decrypt index if needed
    if footer.encrypted {
        decrypt(key_hash, &mut index)?;
    }
    let key: Option<Vec<u8>> = match key_hash {
        Some(hash) => Some(slice_to_vec(hash)),
        None => None,
    };
    let (mount_point, entries) = read_index(
        data,
        index.as_slice(),
        version,
        footer.encrypted,
        key_hash,
    )?;
    Ok(Opened { mount_point, key, compression: footer.compression, entries })
}

impl View for Pak {
    type V = PakView;

    closed spec fn view(&self) -> PakView {
        PakView {
            version: self.version,
            archive: self.data@,
            mount_point: self.mount_point@,
            key: kept_key(self.key),
            compression: self.compression@,
            entries: self.entries@,
        }
    }
}

impl Pak {
    /// Opens the archive `data` as revision `version`. An archive whose
    /// index is encrypted needs `key_hash`, the key of 32 bytes. A key that
    /// is given is kept for the entries that are encrypted.
    pub fn new(data: Vec<u8>, version: Version, key_hash: Option<&[u8]>) -> (r: Result<Pak, Error>)
        ensures
            match opened(data@, version, key_view(key_hash)) {
                Ok(model) => r matches Ok(pak) && pak@ == model,
                Err(e) => r == Err::<Pak, Error>(e),
            },
    {
        let read = open(data.as_slice(), version, key_hash)?;
        Ok(
            Pak {
                version,
                data,
                mount_point: read.mount_point,
                key: read.key,
                compression: read.compression,
                entries: read.entries,
            },
        )
    }

    /// Opens the archive `data` as the latest revision as which it can be
    /// read. A revision that fails with a wrong magic number or ordinal,
    /// with bytes that end too early or with memory that runs out is passed
    /// over; the first other error is returned. Where every revision is
    /// passed over the result is `Parse`.
    pub fn new_any(data: Vec<u8>, key: Option<&[u8]>) -> (r: Result<Pak, Error>)
        ensures
            match probed(data@, key_view(key), Version::all().len()) {
                Ok(model) => r matches Ok(pak) && pak@ == model,
                Err(e) => r == Err::<Pak, Error>(e),
            },
    {
        let versions = Version::iter();
        let mut i: usize = versions.len();
        while i > 0
            invariant
                i <= versions@.len(),
                versions@ == Version::all(),
                probed(data@, key_view(key), Version::all().len()) == probed(
                    data@,
                    key_view(key),
                    i as nat,
                ),
            decreases i,
        {
            i = i - 1;
            let version = versions[i];
            match open(data.as_slice(), version, key) {
                Ok(read) => {
                    return Ok(
                        Pak {
                            version,
                            data,
                            mount_point: read.mount_point,
                            key: read.key,
                            compression: read.compression,
                            entries: read.entries,
                        },
                    );
                },
                Err(e) => {
                    if !e.is_wrong_guess() {
                        return Err(e);
                    }
                },
            }
        }
        Err(Error::Parse)
    }

    /// The revision as which the archive was opened.
    pub fn version(&self) -> (r: Version)
        ensures
            r == self@.version,
    {
        self.version
    }

    /// The mount point that the index names.
    pub fn mount_point(&self) -> (r: &str)
        ensures
            r@ == self@.mount_point,
    {
        self.mount_point.as_str()
    }

    /// Extracts the entry at the path `entry` and appends its content to
    /// `writer`. On an error `writer` is as it was.
    pub fn read(&self, entry: &str, writer: &mut Vec<u8>) -> (r: Result<(), Error>)
        ensures
            match self@.content(entry@) {
                Some(Ok(out)) => r is Ok && final(writer)@ == old(writer)@ + out,
                Some(Err(e)) => r == Err::<(), Error>(e) && final(writer)@ == old(writer)@,
                None => r matches Err(Error::Missing(path)) && path@ == entry@
                    && final(writer)@ == old(writer)@,
            },
    {
        match self.entries.get(entry) {
            Some(found) => {
                let key: Option<&[u8]> = match &self.key {
                    Some(key) => Some(key.as_slice()),
                    None => None,
                };
                found.read(
                    self.data.as_slice(),
                    self.version,
                    self.compression.as_slice(),
                    key,
                    writer,
                )
            },
            None => Err(Error::Missing(entry.to_owned())),
        }
    }

    /// The record of the entry at `path`, where the archive has one.
    pub fn entry(&self, path: &str) -> (r: Option<&Entry>)
        ensures
            r matches Some(entry) ==> self@.entries.contains_key(path@) && entry@
                == self@.entries[path@],
            r is None ==> !self@.entries.contains_key(path@),
    {
        self.entries.get(path)
    }

    /// The table of compression methods that the trailer of the archive
    /// gives.
    pub fn compression(&self) -> (r: &[Compression])
        ensures
            r@ == self@.compression,
    {
        self.compression.as_slice()
    }

    /// The blocks of the entry at `path` as they are stored, decrypted but
    /// not unpacked.
    pub fn stored_blocks(&self, path: &str) -> (r: Result<Vec<Vec<u8>>, Error>)
        ensures
            match self@.blocks(path@) {
                Some(Ok(parts)) => r matches Ok(blocks) && blocks@.len() == parts.len() && forall|
                    i: int,
                |
                    0 <= i < parts.len() ==> (#[trigger] blocks@[i])@ == parts[i],
                Some(Err(e)) => r == Err::<Vec<Vec<u8>>, Error>(e),
                None => r matches Err(Error::Missing(missing)) && missing@ == path@,
            },
    {
        match self.entries.get(path) {
            Some(found) => {
                let key: Option<&[u8]> = match &self.key {
                    Some(key) => Some(key.as_slice()),
                    None => None,
                };
                found.stored_blocks(self.data.as_slice(), self.version, key)
            },
            None => Err(Error::Missing(path.to_owned())),
        }
    }

    /// The content of the entry at the path `entry`.
    pub fn get(&self, entry: &str) -> (r: Result<Vec<u8>, Error>)
        ensures
            match self@.content(entry@) {
                Some(Ok(out)) => r matches Ok(data) && data@ == out,
                Some(Err(e)) => r == Err::<Vec<u8>, Error>(e),
                None => r matches Err(Error::Missing(path)) && path@ == entry@,
            },
    {
        let mut data: Vec<u8> = Vec::new();
        match self.read(entry, &mut data) {
            Ok(()) => {
                assert(data@ =~= self@.content(entry@)->Some_0->Ok_0);
                Ok(data)
            },
            Err(e) => Err(e),
        }
    }

    /// The paths of all entries, each once, in no order that is told.
    pub fn entries(&self) -> (r: Vec<String>)
        ensures
            paths_view(r@).no_duplicates(),
            paths_view(r@).to_set() == self@.entries.dom(),
    {
        self.entries.keys()
    }
}

} // verus!
