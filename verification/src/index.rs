//! The index of an archive: its mount point and the records of its entries.
//!
//! An index before `PathHashIndex` is a list of paths, each with the full
//! record of its entry. From `PathHashIndex` on the paths stand in a
//! directory index of their own, each with the place of an encoded record;
//! a list of the old form follows.

use vstd::prelude::*;
use vstd::string::StringExecFns;
use crate::crypt::{decrypt, decrypted, key_view};
use crate::entry::{parse_encoded, parse_entry, Entry, EntryView};
use crate::error::Error;
use crate::reader::{
    parse_bytes,
    parse_skip,
    parse_string,
    parse_u32,
    parse_u64,
    yields,
    Reader,
};
use crate::table::{no_entries, EntryTable};
use crate::version::Version;

verus! {

/// The model of a list of paths, each with the place of its encoded record.
pub open spec fn files_view(files: Seq<(String, u32)>) -> Seq<(Seq<char>, u32)> {
    files.map_values(|file: (String, u32)| (file.0@, file.1))
}

/// A file of a directory: its name and the place of its encoded record. Its
/// path is the name of the directory and its own, with nothing between.
pub open spec fn parse_file(d: Seq<u8>, pos: int, dir: Seq<char>) -> Result<
    ((Seq<char>, u32), int),
    Error,
> {
    match parse_string(d, pos) {
        Err(e) => Err(e),
        Ok((name, p)) => match parse_u32(d, p) {
            Err(e) => Err(e),
            Ok((offset, q)) => Ok(((dir + name, offset), q)),
        },
    }
}

/// `base`, and behind it the first `n` files of a directory.
pub open spec fn parse_files(
    d: Seq<u8>,
    pos: int,
    dir: Seq<char>,
    n: nat,
    base: Seq<(Seq<char>, u32)>,
) -> Result<(Seq<(Seq<char>, u32)>, int), Error>
    decreases n,
{
    if n == 0 {
        Ok((base, pos))
    } else {
        match parse_files(d, pos, dir, (n - 1) as nat, base) {
            Err(e) => Err(e),
            Ok((files, p)) => match parse_file(d, p, dir) {
                Err(e) => Err(e),
                Ok((file, q)) => Ok((files.push(file), q)),
            },
        }
    }
}

/// `base`, and behind it the files of one directory: its name, the number
/// of its files, and the files.
pub open spec fn parse_dir(d: Seq<u8>, pos: int, base: Seq<(Seq<char>, u32)>) -> Result<
    (Seq<(Seq<char>, u32)>, int),
    Error,
> {
    match parse_string(d, pos) {
        Err(e) => Err(e),
        Ok((dir, p)) => match parse_u32(d, p) {
            Err(e) => Err(e),
            Ok((count, q)) => parse_files(d, q, dir, count as nat, base),
        },
    }
}

/// The files of the first `n` directories.
pub open spec fn parse_dirs(d: Seq<u8>, pos: int, n: nat) -> Result<
    (Seq<(Seq<char>, u32)>, int),
    Error,
>
    decreases n,
{
    if n == 0 {
        Ok((Seq::empty(), pos))
    } else {
        match parse_dirs(d, pos, (n - 1) as nat) {
            Err(e) => Err(e),
            Ok((files, p)) => parse_dir(d, p, files),
        }
    }
}

/// The files of a directory index: the number of its directories, then the
/// directories.
pub open spec fn parse_directory_index(d: Seq<u8>, pos: int) -> Result<
    (Seq<(Seq<char>, u32)>, int),
    Error,
> {
    match parse_u32(d, pos) {
        Err(e) => Err(e),
        Ok((count, p)) => parse_dirs(d, p, count as nat),
    }
}

/// `base` with the entries of the first `n` files, each read from its
/// encoded record at its place in `encoded`. A later file takes the place
/// of an earlier one of the same path.
pub open spec fn with_encoded(
    encoded: Seq<u8>,
    files: Seq<(Seq<char>, u32)>,
    n: nat,
    base: Map<Seq<char>, EntryView>,
) -> Result<Map<Seq<char>, EntryView>, Error>
    decreases n,
{
    if n == 0 {
        Ok(base)
    } else {
        match with_encoded(encoded, files, (n - 1) as nat, base) {
            Err(e) => Err(e),
            Ok(entries) => match parse_encoded(encoded, files[n - 1].1 as int) {
                Err(e) => Err(e),
                Ok((entry, _)) => Ok(entries.insert(files[n - 1].0, entry)),
            },
        }
    }
}

/// A path and the full record of its entry.
pub open spec fn parse_pair(s: Seq<u8>, pos: int, version: Version) -> Result<
    ((Seq<char>, EntryView), int),
    Error,
> {
    match parse_string(s, pos) {
        Err(e) => Err(e),
        Ok((path, p)) => match parse_entry(s, p, version) {
            Err(e) => Err(e),
            Ok((entry, q)) => Ok(((path, entry), q)),
        },
    }
}

/// `base` with the entries of the first `n` pairs of a path and a full
/// record. A later pair takes the place of an earlier entry of the same
/// path.
pub open spec fn with_legacy(
    s: Seq<u8>,
    pos: int,
    version: Version,
    n: nat,
    base: Map<Seq<char>, EntryView>,
) -> Result<(Map<Seq<char>, EntryView>, int), Error>
    decreases n,
{
    if n == 0 {
        Ok((base, pos))
    } else {
        match with_legacy(s, pos, version, (n - 1) as nat, base) {
            Err(e) => Err(e),
            Ok((entries, p)) => match parse_pair(s, p, version) {
                Err(e) => Err(e),
                Ok((pair, q)) => Ok((entries.insert(pair.0, pair.1), q)),
            },
        }
    }
}

/// A region of an archive as it is read: decrypted where the archive is
/// encrypted.
pub open spec fn unlocked(encrypted: bool, key: Option<Seq<u8>>, bytes: Seq<u8>) -> Result<
    Seq<u8>,
    Error,
> {
    if encrypted {
        decrypted(key, bytes)
    } else {
        Ok(bytes)
    }
}

/// The part of a path-hash index that says where the path-hash index
/// proper lies, which is passed over: a flag of 32 bits, and behind a flag
/// that is set an offset, a size and a hash.
pub open spec fn parse_path_hash(index: Seq<u8>, pos: int) -> Result<((), int), Error> {
    match parse_u32(index, pos) {
        Err(e) => Err(e),
        Ok((present, p)) => if present != 0 {
            parse_skip(index, p, 36)
        } else {
            Ok(((), p))
        },
    }
}

/// The files of the directory index of an archive: behind a flag of 32
/// bits that is set stand its offset in the archive, its size and its hash.
/// There are no files where the flag is not set.
pub open spec fn parse_directory(
    archive: Seq<u8>,
    index: Seq<u8>,
    pos: int,
    encrypted: bool,
    key: Option<Seq<u8>>,
) -> Result<(Seq<(Seq<char>, u32)>, int), Error> {
    match parse_u32(index, pos) {
        Err(e) => Err(e),
        Ok((present, at1)) => if present == 0 {
            Ok((Seq::empty(), at1))
        } else {
            match parse_u64(index, at1) {
                Err(e) => Err(e),
                Ok((offset, at2)) => match parse_u64(index, at2) {
                    Err(e) => Err(e),
                    Ok((size, at3)) => match parse_skip(index, at3, 20) {
                        Err(e) => Err(e),
                        Ok((_, at4)) => match parse_bytes(archive, offset as int, size as int) {
                            Err(e) => Err(e),
                            Ok((raw, _)) => match unlocked(encrypted, key, raw) {
                                Err(e) => Err(e),
                                Ok(plain) => match parse_directory_index(plain, 0) {
                                    Err(e) => Err(e),
                                    Ok((files, _)) => Ok((files, at4)),
                                },
                            },
                        },
                    },
                },
            }
        },
    }
}

/// What the path-hash part of an index, which starts at `pos`, holds
/// before its entries are read: a count of entries and a seed, which are
/// not used, the place of the path-hash index, the directory index with
/// its files, and the encoded records behind their length of 32 bits. The
/// result is the files, the encoded records, and the position behind them.
pub open spec fn parse_hashed_parts(
    archive: Seq<u8>,
    index: Seq<u8>,
    pos: int,
    encrypted: bool,
    key: Option<Seq<u8>>,
) -> Result<(Seq<(Seq<char>, u32)>, Seq<u8>, int), Error> {
    match parse_skip(index, pos, 12) {
        Err(e) => Err(e),
        Ok((_, at1)) => match parse_path_hash(index, at1) {
            Err(e) => Err(e),
            Ok((_, at2)) => match parse_directory(archive, index, at2, encrypted, key) {
                Err(e) => Err(e),
                Ok((files, at3)) => match parse_u32(index, at3) {
                    Err(e) => Err(e),
                    Ok((size, at4)) => match parse_bytes(index, at4, size as int) {
                        Err(e) => Err(e),
                        Ok((encoded, at5)) => Ok((files, encoded, at5)),
                    },
                },
            },
        },
    }
}

/// The entries of the path-hash part of an index, which starts at `pos`:
/// those of the files of the directory index, each read from its encoded
/// record.
pub open spec fn parse_hashed(
    archive: Seq<u8>,
    index: Seq<u8>,
    pos: int,
    encrypted: bool,
    key: Option<Seq<u8>>,
) -> Result<(Map<Seq<char>, EntryView>, int), Error> {
    match parse_hashed_parts(archive, index, pos, encrypted, key) {
        Err(e) => Err(e),
        Ok((files, encoded, at5)) => match with_encoded(
            encoded,
            files,
            files.len(),
            no_entries(),
        ) {
            Err(e) => Err(e),
            Ok(entries) => Ok((entries, at5)),
        },
    }
}

/// What an index holds.
pub struct IndexView {
    pub mount_point: Seq<char>,
    pub entries: Map<Seq<char>, EntryView>,
}

/// The index `index` of the archive `archive` of revision `version`: the
/// mount point, from `PathHashIndex` on the path-hash part, and a count of
/// 32 bits with that many pairs of a path and a full record.
pub open spec fn parse_index(
    archive: Seq<u8>,
    index: Seq<u8>,
    version: Version,
    encrypted: bool,
    key: Option<Seq<u8>>,
) -> Result<IndexView, Error> {
    match parse_string(index, 0) {
        Err(e) => Err(e),
        Ok((mount_point, at1)) => match (if version.at_least(Version::PathHashIndex) {
            parse_hashed(archive, index, at1, encrypted, key)
        } else {
            Ok((no_entries(), at1))
        }) {
            Err(e) => Err(e),
            Ok((hashed, at2)) => match parse_u32(index, at2) {
                Err(e) => Err(e),
                Ok((count, at3)) => match with_legacy(index, at3, version, count as nat, hashed) {
                    Err(e) => Err(e),
                    Ok((entries, _)) => Ok(IndexView { mount_point, entries }),
                },
            },
        },
    }
}

/// Once an encoded record cannot be read, asking for more files changes
/// nothing.
pub(crate) proof fn lemma_with_encoded_stops(
    encoded: Seq<u8>,
    files: Seq<(Seq<char>, u32)>,
    k: nat,
    n: nat,
    base: Map<Seq<char>, EntryView>,
)
    requires
        k <= n,
        with_encoded(encoded, files, k, base) is Err,
    ensures
        with_encoded(encoded, files, n, base) == with_encoded(encoded, files, k, base),
    decreases n,
{
    if k < n {
        lemma_with_encoded_stops(encoded, files, k, (n - 1) as nat, base);
    }
}

/// Once a pair cannot be read, asking for more pairs changes nothing.
pub(crate) proof fn lemma_with_legacy_stops(
    s: Seq<u8>,
    pos: int,
    version: Version,
    k: nat,
    n: nat,
    base: Map<Seq<char>, EntryView>,
)
    requires
        k <= n,
        with_legacy(s, pos, version, k, base) is Err,
    ensures
        with_legacy(s, pos, version, n, base) == with_legacy(s, pos, version, k, base),
    decreases n,
{
    if k < n {
        lemma_with_legacy_stops(s, pos, version, k, (n - 1) as nat, base);
    }
}

/// Once a file cannot be read, asking for more files changes nothing.
pub(crate) proof fn lemma_parse_files_stops(
    d: Seq<u8>,
    pos: int,
    dir: Seq<char>,
    k: nat,
    n: nat,
    base: Seq<(Seq<char>, u32)>,
)
    requires
        k <= n,
        parse_files(d, pos, dir, k, base) is Err,
    ensures
        parse_files(d, pos, dir, n, base) == parse_files(d, pos, dir, k, base),
    decreases n,
{
    if k < n {
        lemma_parse_files_stops(d, pos, dir, k, (n - 1) as nat, base);
    }
}

/// Once a directory cannot be read, asking for more directories changes
/// nothing.
pub(crate) proof fn lemma_parse_dirs_stops(d: Seq<u8>, pos: int, k: nat, n: nat)
    requires
        k <= n,
        parse_dirs(d, pos, k) is Err,
    ensures
        parse_dirs(d, pos, n) == parse_dirs(d, pos, k),
    decreases n,
{
    if k < n {
        lemma_parse_dirs_stops(d, pos, k, (n - 1) as nat);
    }
}

/// Reads the `count` files of the directory `dir` and puts them behind
/// `files`.
fn read_files(reader: &mut Reader, dir: &String, count: u32, found: Vec<(String, u32)>) -> (r: Result<
    Vec<(String, u32)>,
    Error,
>)
    ensures
        final(reader).source() == old(reader).source(),
        match parse_files(
            old(reader).source(),
            old(reader).offset(),
            dir@,
            count as nat,
            files_view(found@),
        ) {
            Ok((all, p)) => r matches Ok(read) && files_view(read@) == all
                && final(reader).offset() == p,
            Err(e) => r == Err::<Vec<(String, u32)>, Error>(e),
        },
{
    let ghost s = reader.source();
    let ghost start = reader.offset();
    let ghost base = files_view(found@);
    let mut files = found;
    let mut i: u32 = 0;
    while i < count
        invariant
            i <= count,
            reader.source() == s,
            old(reader).source() == s,
            old(reader).offset() == start,
            base == files_view(found@),
            parse_files(s, start, dir@, i as nat, base) == Ok::<
                (Seq<(Seq<char>, u32)>, int),
                Error,
            >((files_view(files@), reader.offset())),
        decreases count - i,
    {
        proof {
            if parse_file(s, reader.offset(), dir@) is Err {
                assert(parse_files(s, start, dir@, (i + 1) as nat, base) is Err);
                lemma_parse_files_stops(s, start, dir@, (i + 1) as nat, count as nat, base);
            }
        }
        let name = reader.read_string()?;
        let offset = reader.read_u32()?;
        let path = dir.clone().concat(name.as_str());
        let ghost before = files@;
        files.push((path, offset));
        assert(files_view(files@) =~= files_view(before).push((dir@ + name@, offset)));
        i = i + 1;
    }
    Ok(files)
}

/// Reads a directory index: the paths of the files of its directories,
/// each with the place of its encoded record.
fn read_directory_index(d: &[u8]) -> (r: Result<Vec<(String, u32)>, Error>)
    ensures
        match parse_directory_index(d@, 0) {
            Ok((files, _)) => r matches Ok(read) && files_view(read@) == files,
            Err(e) => r == Err::<Vec<(String, u32)>, Error>(e),
        },
{
    let mut reader = Reader::new(d);
    let count = reader.read_u32()?;
    let mut files: Vec<(String, u32)> = Vec::new();
    assert(files_view(files@) =~= Seq::empty());
    let mut i: u32 = 0;
    while i < count
        invariant
            i <= count,
            reader.source() == d@,
            parse_dirs(d@, 4, i as nat) == Ok::<(Seq<(Seq<char>, u32)>, int), Error>(
                (files_view(files@), reader.offset()),
            ),
            parse_directory_index(d@, 0) == parse_dirs(d@, 4, count as nat),
        decreases count - i,
    {
        proof {
            if parse_dir(d@, reader.offset(), files_view(files@)) is Err {
                assert(parse_dirs(d@, 4, (i + 1) as nat) is Err);
                lemma_parse_dirs_stops(d@, 4, (i + 1) as nat, count as nat);
            }
        }
        let dir = reader.read_name()?;
        let listed = reader.read_u32()?;
        files = read_files(&mut reader, &dir, listed, files)?;
        i = i + 1;
    }
    Ok(files)
}

/// Reads the encoded record of each file at its place in `encoded` and
/// puts the entry into `table` under the path of the file.
fn add_encoded(encoded: &[u8], files: &Vec<(String, u32)>, table: EntryTable) -> (r: Result<
    EntryTable,
    Error,
>)
    ensures
        match with_encoded(encoded@, files_view(files@), files@.len(), table@) {
            Ok(entries) => r matches Ok(filled) && filled@ == entries,
            Err(e) => r == Err::<EntryTable, Error>(e),
        },
{
    let ghost listed = files_view(files@);
    let ghost base = table@;
    let mut filled = table;
    let mut i: usize = 0;
    while i < files.len()
        invariant
            i <= files@.len(),
            listed == files_view(files@),
            base == table@,
            with_encoded(encoded@, listed, i as nat, base) == Ok::<Map<Seq<char>, EntryView>, Error>(
                filled@,
            ),
        decreases files@.len() - i,
    {
        proof {
            if parse_encoded(encoded@, listed[i as int].1 as int) is Err {
                assert(with_encoded(encoded@, listed, (i + 1) as nat, base) is Err);
                lemma_with_encoded_stops(encoded@, listed, (i + 1) as nat, files@.len(), base);
            }
        }
        let mut cursor = Reader::new(encoded);
        cursor.seek(files[i].1 as u64);
        let entry = Entry::from_encoded(&mut cursor)?;
        filled.insert(files[i].0.clone(), entry);
        i = i + 1;
    }
    Ok(filled)
}

/// Reads `count` pairs of a path and a full record and puts the entries
/// into `table`.
fn add_legacy(reader: &mut Reader, version: Version, count: u32, table: EntryTable) -> (r: Result<
    EntryTable,
    Error,
>)
    ensures
        final(reader).source() == old(reader).source(),
        yields(
            r,
            final(reader).offset(),
            with_legacy(old(reader).source(), old(reader).offset(), version, count as nat, table@),
        ),
{
    let ghost s = reader.source();
    let ghost start = reader.offset();
    let ghost base = table@;
    let mut filled = table;
    let mut i: u32 = 0;
    while i < count
        invariant
            i <= count,
            reader.source() == s,
            old(reader).source() == s,
            old(reader).offset() == start,
            base == table@,
            with_legacy(s, start, version, i as nat, base) == Ok::<
                (Map<Seq<char>, EntryView>, int),
                Error,
            >((filled@, reader.offset())),
        decreases count - i,
    {
        proof {
            if parse_pair(s, reader.offset(), version) is Err {
                assert(with_legacy(s, start, version, (i + 1) as nat, base) is Err);
                lemma_with_legacy_stops(s, start, version, (i + 1) as nat, count as nat, base);
            }
        }
        let path = reader.read_name()?;
        let entry = Entry::new(reader, version)?;
        filled.insert(path, entry);
        i = i + 1;
    }
    Ok(filled)
}

/// Passes over the place of the path-hash index.
fn skip_path_hash(index: &mut Reader) -> (r: Result<(), Error>)
    ensures
        final(index).source() == old(index).source(),
        yields(r, final(index).offset(), parse_path_hash(old(index).source(), old(index).offset())),
{
    if index.read_u32()? != 0 {
        // offset
        index.read_u64()?;
        // size
        index.read_u64()?;
        // hash
        index.read_hash()?;
        // no need to look at the path hash information
    }
    Ok(())
}

/// Reads the files of the directory index, which lies in `archive` where
/// the index says.
fn read_directory(archive: &[u8], index: &mut Reader, encrypted: bool, key: Option<&[u8]>) -> (r: Result<
    Vec<(String, u32)>,
    Error,
>)
    ensures
        final(index).source() == old(index).source(),
        match parse_directory(
            archive@,
            old(index).source(),
            old(index).offset(),
            encrypted,
            key_view(key),
        ) {
            Ok((files, p)) => r matches Ok(read) && files_view(read@) == files
                && final(index).offset() == p,
            Err(e) => r == Err::<Vec<(String, u32)>, Error>(e),
        },
{
    if index.read_u32()? != 0 {
        let offset = index.read_u64()?;
        let size = index.read_u64()?;
        // hash
        index.read_hash()?;
        let mut reader = Reader::new(archive);
        reader.seek(offset);
        let mut full_dir = reader.read_len(size)?;
        if encrypted {
            decrypt(key, &mut full_dir)?;
        }
        read_directory_index(full_dir.as_slice())
    } else {
        let files: Vec<(String, u32)> = Vec::new();
        assert(files_view(files@) =~= Seq::empty());
        Ok(files)
    }
}

/// Reads the path-hash part of an index.
fn read_hashed(archive: &[u8], index: &mut Reader, encrypted: bool, key: Option<&[u8]>) -> (r: Result<
    EntryTable,
    Error,
>)
    ensures
        final(index).source() == old(index).source(),
        yields(
            r,
            final(index).offset(),
            parse_hashed(archive@, old(index).source(), old(index).offset(), encrypted, key_view(key)),
        ),
{
    // entry count
    index.read_u32()?;
    // path hash seed
    index.read_u64()?;
    skip_path_hash(index)?;
    // full directory index
    let files = read_directory(archive, index, encrypted, key)?;
    let size = index.read_u32()?;
    let encoded = index.take(size as u64)?;
    add_encoded(encoded, &files, EntryTable::new())
}

/// Reads the index `index` of the archive `archive` of revision `version`:
/// its mount point and its entries. A directory index is decrypted with
/// `key` where `encrypted` says so; `index` itself is taken as it is.
pub fn read_index(
    archive: &[u8],
    index: &[u8],
    version: Version,
    encrypted: bool,
    key: Option<&[u8]>,
) -> (r: Result<(String, EntryTable), Error>)
    ensures
        match parse_index(archive@, index@, version, encrypted, key_view(key)) {
            Ok(model) => r matches Ok(read) && read.0@ == model.mount_point && read.1@
                == model.entries,
            Err(e) => r == Err::<(String, EntryTable), Error>(e),
        },
{
    let mut reader = Reader::new(index);
    let mount_point = reader.read_string()?;
    let hashed = if version.is_at_least(Version::PathHashIndex) {
        read_hashed(archive, &mut reader, encrypted, key)?
    } else {
        EntryTable::new()
    };
    let count = reader.read_u32()?;
    let entries = add_legacy(&mut reader, version, count, hashed)?;
    Ok((mount_point, entries))
}

} // verus!
