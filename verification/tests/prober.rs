#![allow(dead_code)]
use aes::cipher::{BlockEncrypt, KeyInit};
use flate2::write::{GzEncoder, ZlibEncoder};
use std::io::Write;
use unpak::{Compression, Entry, Error, IoKind, Pak, Version, MAGIC};

#[derive(Clone, Copy, PartialEq)]
enum Pack {
    Stored,
    Zlib,
    Gzip,
}

/// A file to be put into an archive.
#[derive(Clone)]
struct Item {
    path: &'static str,
    content: Vec<u8>,
    pack: Pack,
    /// how much of the content goes into one block
    block_size: usize,
    encrypted: bool,
}

fn stored(path: &'static str, content: &[u8]) -> Item {
    Item { path, content: content.to_vec(), pack: Pack::Stored, block_size: 0, encrypted: false }
}

fn packed(path: &'static str, content: &[u8], pack: Pack, block_size: usize) -> Item {
    Item { path, content: content.to_vec(), pack, block_size, encrypted: false }
}

fn eof() -> Error {
    Error::Io(IoKind::UnexpectedEof)
}

fn zlib(data: &[u8]) -> Vec<u8> {
    let mut e = ZlibEncoder::new(Vec::new(), flate2::Compression::default());
    e.write_all(data).unwrap();
    e.finish().unwrap()
}

fn gzip(data: &[u8]) -> Vec<u8> {
    let mut e = GzEncoder::new(Vec::new(), flate2::Compression::default());
    e.write_all(data).unwrap();
    e.finish().unwrap()
}

fn encrypt(key: &[u8], data: &[u8]) -> Vec<u8> {
    let cipher = aes::Aes256Enc::new_from_slice(key).unwrap();
    let mut out = data.to_vec();
    while out.len() % 16 != 0 {
        out.push(0);
    }
    for chunk in out.chunks_mut(16) {
        cipher.encrypt_block(aes::Block::from_mut_slice(chunk));
    }
    out
}

fn string(s: &str) -> Vec<u8> {
    let mut out = ((s.len() + 1) as i32).to_le_bytes().to_vec();
    out.extend_from_slice(s.as_bytes());
    out.push(0);
    out
}

fn ceil16(n: u64) -> u64 {
    (n + 15) / 16 * 16
}

/// The number under which a record names a way of packing.
fn method(version: Version, pack: Pack) -> u32 {
    let table: &[Pack] = if version >= Version::FNameBasedCompression {
        &[Pack::Zlib, Pack::Gzip]
    } else {
        &[Pack::Zlib, Pack::Gzip]
    };
    match pack {
        Pack::Stored => 0,
        p => table.iter().position(|x| *x == p).unwrap() as u32 + 1,
    }
}

/// The blocks of an item as they are stored, each packed on its own.
fn blocks_of(item: &Item) -> Vec<Vec<u8>> {
    if item.pack == Pack::Stored {
        return vec![item.content.clone()];
    }
    let size = if item.block_size == 0 { item.content.len().max(1) } else { item.block_size };
    let chunks: Vec<&[u8]> =
        if item.content.is_empty() { vec![&[][..]] } else { item.content.chunks(size).collect() };
    chunks
        .into_iter()
        .map(|c| match item.pack {
            Pack::Zlib => zlib(c),
            Pack::Gzip => gzip(c),
            Pack::Stored => c.to_vec(),
        })
        .collect()
}

fn header_len(version: Version, compressed: bool, blocks: usize) -> u64 {
    let mut len = 24 + if version == Version::FNameBasedCompression { 1 } else { 4 } + 20;
    if version == Version::Initial {
        len += 8;
    }
    if version >= Version::CompressionEncryption {
        if compressed {
            len += 4 + 16 * blocks as u64;
        }
        len += 5;
    }
    len
}

/// What is known of an item once it has its place in an archive.
struct Placed {
    offset: u64,
    compressed: u64,
    uncompressed: u64,
    method: u32,
    /// the bounds of the blocks, counted from the start of the record
    blocks: Vec<(u64, u64)>,
    encrypted: bool,
    block_uncompressed: u32,
    body: Vec<u8>,
}

fn place(version: Version, item: &Item, offset: u64, key: &[u8]) -> Placed {
    let blocks = blocks_of(item);
    let compressed_method = item.pack != Pack::Stored;
    let head = header_len(version, compressed_method, blocks.len());
    let mut bounds = Vec::new();
    let mut body = Vec::new();
    let mut at = head;
    let mut compressed = 0;
    for b in &blocks {
        bounds.push((at, at + b.len() as u64));
        compressed = at + b.len() as u64 - head;
        if item.encrypted {
            body.extend_from_slice(&encrypt(key, b));
            at += ceil16(b.len() as u64);
        } else {
            body.extend_from_slice(b);
            at += b.len() as u64;
        }
    }
    Placed {
        offset,
        compressed,
        uncompressed: item.content.len() as u64,
        method: method(version, item.pack),
        blocks: if compressed_method { bounds } else { Vec::new() },
        encrypted: item.encrypted,
        block_uncompressed: if item.block_size == 0 {
            item.content.len() as u32
        } else {
            item.block_size as u32
        },
        body,
    }
}

/// The full record of a placed item.
fn record(version: Version, p: &Placed) -> Vec<u8> {
    let mut r = Vec::new();
    r.extend_from_slice(&p.offset.to_le_bytes());
    r.extend_from_slice(&p.compressed.to_le_bytes());
    r.extend_from_slice(&p.uncompressed.to_le_bytes());
    if version == Version::FNameBasedCompression {
        r.push(p.method as u8);
    } else {
        r.extend_from_slice(&p.method.to_le_bytes());
    }
    if version == Version::Initial {
        r.extend_from_slice(&[0x11; 8]);
    }
    r.extend_from_slice(&[0x22; 20]);
    if version >= Version::CompressionEncryption {
        if p.method != 0 {
            r.extend_from_slice(&(p.blocks.len() as u32).to_le_bytes());
            let base = if version >= Version::RelativeChunkOffsets { 0 } else { p.offset };
            for (start, end) in &p.blocks {
                r.extend_from_slice(&(base + start).to_le_bytes());
                r.extend_from_slice(&(base + end).to_le_bytes());
            }
        }
        r.push(p.encrypted as u8);
        r.extend_from_slice(&p.block_uncompressed.to_le_bytes());
    }
    r
}

/// The encoded record of a placed item.
fn encoded(p: &Placed) -> Vec<u8> {
    let mut bits: u32 = (p.method << 23) | ((p.encrypted as u32) << 22) | ((p.blocks.len() as u32) << 6) | 0x3f;
    let narrow = |v: u64| v <= u32::MAX as u64;
    if narrow(p.offset) {
        bits |= 1 << 31;
    }
    if narrow(p.uncompressed) {
        bits |= 1 << 30;
    }
    if narrow(p.compressed) {
        bits |= 1 << 29;
    }
    let mut r = bits.to_le_bytes().to_vec();
    r.extend_from_slice(&p.block_uncompressed.to_le_bytes());
    let mut put = |v: u64| {
        if narrow(v) {
            r.extend_from_slice(&(v as u32).to_le_bytes());
        } else {
            r.extend_from_slice(&v.to_le_bytes());
        }
    };
    put(p.offset);
    put(p.uncompressed);
    if p.method != 0 {
        put(p.compressed);
    }
    if p.blocks.len() > 1 || (p.blocks.len() == 1 && p.encrypted) {
        for (start, end) in &p.blocks {
            r.extend_from_slice(&((end - start) as u32).to_le_bytes());
        }
    }
    r
}

fn trailer(version: Version, encrypted: bool, magic: u32, offset: u64, size: u64, uuid: u8) -> Vec<u8> {
    let mut t = Vec::new();
    if version >= Version::EncryptionKeyUuid {
        t.extend_from_slice(&[uuid; 16]);
    }
    if version >= Version::IndexEncryption {
        t.push(encrypted as u8);
    }
    t.extend_from_slice(&magic.to_le_bytes());
    t.extend_from_slice(&version.as_u32().to_le_bytes());
    t.extend_from_slice(&offset.to_le_bytes());
    t.extend_from_slice(&size.to_le_bytes());
    t.extend_from_slice(&[0xBB; 20]);
    if version == Version::FrozenIndex {
        t.push(0);
    }
    let names: &[&[u8]] = if version >= Version::FNameBasedCompression2 {
        &[b"Zlib", b"Gzip", b"", b"", b""]
    } else if version >= Version::FNameBasedCompression {
        &[b"Zlib", b"Gzip", b"", b""]
    } else {
        &[]
    };
    for name in names {
        let mut slot = [0u8; 32];
        slot[..name.len()].copy_from_slice(name);
        t.extend_from_slice(&slot);
    }
    t
}

/// What decides how an archive is written.
#[derive(Clone)]
struct Plan {
    version: Version,
    mount_point: &'static str,
    /// the key with which the index is encrypted
    index_key: Option<Vec<u8>>,
    /// the key with which the bodies of encrypted entries are encrypted
    body_key: Vec<u8>,
    magic: u32,
    /// in a path-hash index, the items that are listed in the old form
    legacy: Vec<Item>,
    path_hash_present: bool,
    /// the value of the bytes of the UUID of the key
    uuid: u8,
    /// how many bytes of 0 stand between the index and the trailer
    gap: usize,
}

fn plan(version: Version) -> Plan {
    Plan {
        version,
        mount_point: "../../../",
        index_key: None,
        body_key: vec![0; 32],
        magic: MAGIC,
        legacy: Vec::new(),
        path_hash_present: false,
        uuid: 0xAA,
        gap: 0,
    }
}

/// Splits a path into the name of its directory and its own name.
fn split(path: &str) -> (&str, &str) {
    match path.rfind('/') {
        Some(i) => path.split_at(i + 1),
        None => ("/", path),
    }
}

/// Writes an archive.
fn archive(plan: &Plan, items: &[Item]) -> Vec<u8> {
    let version = plan.version;
    let mut data = Vec::new();
    let mut placed = Vec::new();
    for item in items.iter().chain(plan.legacy.iter()) {
        let p = place(version, item, data.len() as u64, &plan.body_key);
        data.extend_from_slice(&record(version, &p));
        data.extend_from_slice(&p.body);
        placed.push(p);
    }
    let seal = |bytes: Vec<u8>| match &plan.index_key {
        Some(key) => encrypt(key, &bytes),
        None => bytes,
    };
    let mut index = string(plan.mount_point);
    if version >= Version::PathHashIndex {
        // the directory index
        let mut dirs: Vec<(&str, Vec<(&str, u32)>)> = Vec::new();
        let mut records = Vec::new();
        for (item, p) in items.iter().zip(&placed) {
            let (dir, name) = split(item.path);
            let at = records.len() as u32;
            records.extend_from_slice(&encoded(p));
            match dirs.iter_mut().find(|d| d.0 == dir) {
                Some(d) => d.1.push((name, at)),
                None => dirs.push((dir, vec![(name, at)])),
            }
        }
        let mut directory = (dirs.len() as u32).to_le_bytes().to_vec();
        for (dir, files) in &dirs {
            directory.extend_from_slice(&string(dir));
            directory.extend_from_slice(&(files.len() as u32).to_le_bytes());
            for (name, at) in files {
                directory.extend_from_slice(&string(name));
                directory.extend_from_slice(&at.to_le_bytes());
            }
        }
        let directory = seal(directory);
        let directory_offset = data.len() as u64;
        data.extend_from_slice(&directory);
        index.extend_from_slice(&(items.len() as u32).to_le_bytes());
        index.extend_from_slice(&0x1234u64.to_le_bytes());
        if plan.path_hash_present {
            index.extend_from_slice(&1u32.to_le_bytes());
            index.extend_from_slice(&[0x33; 36]);
        } else {
            index.extend_from_slice(&0u32.to_le_bytes());
        }
        index.extend_from_slice(&1u32.to_le_bytes());
        index.extend_from_slice(&directory_offset.to_le_bytes());
        index.extend_from_slice(&(directory.len() as u64).to_le_bytes());
        index.extend_from_slice(&[0x44; 20]);
        index.extend_from_slice(&(records.len() as u32).to_le_bytes());
        index.extend_from_slice(&records);
        index.extend_from_slice(&(plan.legacy.len() as u32).to_le_bytes());
        for (item, p) in plan.legacy.iter().zip(&placed[items.len()..]) {
            index.extend_from_slice(&string(item.path));
            index.extend_from_slice(&record(version, p));
        }
    } else {
        index.extend_from_slice(&(items.len() as u32).to_le_bytes());
        for (item, p) in items.iter().zip(&placed) {
            index.extend_from_slice(&string(item.path));
            index.extend_from_slice(&record(version, p));
        }
    }
    let index = seal(index);
    let index_offset = data.len() as u64;
    data.extend_from_slice(&index);
    data.extend_from_slice(&vec![0; plan.gap]);
    data.extend_from_slice(&trailer(
        version,
        plan.index_key.is_some(),
        plan.magic,
        index_offset,
        index.len() as u64,
        plan.uuid,
    ));
    data
}

fn sorted(mut paths: Vec<String>) -> Vec<String> {
    paths.sort();
    paths
}

/// A plan for an archive in which every later version finds a flag of 0
/// where it looks for one: the UUID is 0, and bytes of 0 stand before the
/// trailer.
fn quiet(version: Version) -> Plan {
    let mut p = plan(version);
    p.uuid = 0;
    p.gap = 300;
    p
}

/// What the search must give: the result of the latest version that does
/// not fail with the sign of a wrong guess.
fn searched(data: &[u8], key: Option<&[u8]>) -> Result<Version, Error> {
    for version in Version::iter().into_iter().rev() {
        match Pak::new(data.to_vec(), version, key) {
            Ok(_) => return Ok(version),
            Err(Error::Magic(_)) | Err(Error::Version(_)) => {}
            Err(Error::Io(IoKind::UnexpectedEof)) | Err(Error::Io(IoKind::OutOfMemory)) => {}
            Err(e) => return Err(e),
        }
    }
    Err(Error::Parse)
}

#[test]
fn the_version_is_found() {
    let content: Vec<u8> = (0..3000u32).map(|i| (i % 9) as u8).collect();
    for version in Version::iter() {
        if version == Version::FrozenIndex {
            continue;
        }
        let mut items = vec![stored("dir/plain.txt", b"plain")];
        if version >= Version::CompressionEncryption {
            items.push(packed("dir/z.bin", &content, Pack::Zlib, 1024));
        }
        let data = archive(&quiet(version), &items);
        let pak = Pak::new_any(data, None).unwrap();
        assert_eq!(pak.version(), version);
        assert_eq!(pak.get("dir/plain.txt").unwrap(), b"plain");
        if version >= Version::CompressionEncryption {
            assert_eq!(pak.get("dir/z.bin").unwrap(), content);
        }
    }
}

#[test]
fn the_version_of_a_small_archive_is_found() {
    // the trailers of the later versions do not fit
    for version in [Version::Initial, Version::NoTimestamps, Version::CompressionEncryption] {
        let mut p = plan(version);
        p.mount_point = "";
        let data = archive(&p, &[]);
        assert_eq!(data.len(), 53);
        // the last byte of the index is where a later version looks for
        // its flag
        assert_eq!(data[data.len() - 45], 0);
        let pak = Pak::new_any(data, None).unwrap();
        assert_eq!(pak.version(), version);
    }
}

#[test]
fn the_version_of_an_encrypted_archive_is_found() {
    let key = vec![9u8; 32];
    for version in Version::iter() {
        if version < Version::IndexEncryption || version == Version::FrozenIndex {
            continue;
        }
        let mut p = quiet(version);
        p.index_key = Some(key.clone());
        let data = archive(&p, &[stored("dir/plain.txt", b"plain")]);
        let pak = Pak::new_any(data.clone(), Some(&key)).unwrap();
        assert_eq!(pak.version(), version);
        assert_eq!(pak.get("dir/plain.txt").unwrap(), b"plain");
        // without the key the search ends at the version of the archive
        assert_eq!(Pak::new_any(data.clone(), None).unwrap_err(), Error::Encrypted);
        assert_eq!(Pak::new_any(data, Some(&key[..5])).unwrap_err(), Error::Aes);
    }
}

#[test]
fn a_flag_that_is_none_ends_the_search() {
    // 300 bytes of value 2: the latest version reads a flag of 2
    assert_eq!(Pak::new_any(vec![2; 300], None).unwrap_err(), Error::Bool(2));
    assert_eq!(Pak::new_any(vec![0xff; 1000], None).unwrap_err(), Error::Bool(0xff));
    // an archive of the second version whose index ends where a later
    // version looks for its flag: the hash of the last record is read
    let data = archive(&plan(Version::NoTimestamps), &[stored("hello.txt", b"hello\n")]);
    assert!(Pak::new(data.clone(), Version::NoTimestamps, None).is_ok());
    assert_eq!(data[data.len() - 45], 0x22);
    assert_eq!(Pak::new_any(data, None).unwrap_err(), Error::Bool(0x22));
    // the last byte of a UUID that is not 0 is the flag of the version
    // with the frozen index
    let mut p = quiet(Version::FNameBasedCompression2);
    p.uuid = 7;
    let data = archive(&p, &[stored("dir/plain.txt", b"plain")]);
    assert!(Pak::new(data.clone(), Version::FNameBasedCompression2, None).is_ok());
    assert_eq!(Pak::new_any(data, None).unwrap_err(), Error::Bool(7));
}

#[test]
fn an_archive_with_a_frozen_index_is_not_found() {
    // the versions behind it look for their flag where its magic number
    // starts
    let data = archive(&quiet(Version::FrozenIndex), &[stored("dir/plain.txt", b"plain")]);
    let pak = Pak::new(data.clone(), Version::FrozenIndex, None).unwrap();
    assert_eq!(pak.get("dir/plain.txt").unwrap(), b"plain");
    assert_eq!(Pak::new_any(data, None).unwrap_err(), Error::Bool(0xE1));
}

#[test]
fn the_search_is_decided_by_the_latest_version_that_is_no_wrong_guess() {
    let key = vec![4u8; 32];
    let content: Vec<u8> = (0..2000u32).map(|i| (i * 5 % 256) as u8).collect();
    for version in Version::iter() {
        for quietly in [false, true] {
            for sealed in [false, true] {
                if sealed && version < Version::IndexEncryption {
                    continue;
                }
                let mut p = if quietly { quiet(version) } else { plan(version) };
                if sealed {
                    p.index_key = Some(key.clone());
                }
                let mut items = vec![stored("dir/plain.txt", b"plain")];
                if version >= Version::CompressionEncryption {
                    items.push(packed("dir/z.bin", &content, Pack::Gzip, 512));
                }
                let data = archive(&p, &items);
                for k in [None, Some(&key[..])] {
                    let found = Pak::new_any(data.clone(), k).map(|pak| pak.version());
                    assert_eq!(found, searched(&data, k), "{version:?} {quietly} {sealed}");
                }
            }
        }
    }
}

#[test]
fn what_is_no_archive_cannot_be_parsed() {
    assert_eq!(Pak::new_any(Vec::new(), None).unwrap_err(), Error::Parse);
    assert_eq!(Pak::new_any(vec![0; 10], None).unwrap_err(), Error::Parse);
    assert_eq!(Pak::new_any(vec![0; 1000], None).unwrap_err(), Error::Parse);
    assert_eq!(Pak::new_any(vec![1; 1000], None).unwrap_err(), Error::Parse);
    assert_eq!(Pak::new_any(vec![0xff; 44], None).unwrap_err(), Error::Parse);
}

#[test]
fn a_wrong_magic_is_not_handed_on() {
    for version in Version::iter() {
        let mut p = quiet(version);
        p.magic = 0xDEADBEEF;
        let data = archive(&p, &[stored("hello.txt", b"hello\n")]);
        assert_eq!(Pak::new(data.clone(), version, None).unwrap_err(), Error::Magic(0xDEADBEEF));
        let expected = match version {
            // the first byte of what stands for the magic number is read
            // as a flag
            Version::FrozenIndex => Error::Bool(0xEF),
            // a byte of the hash of the index is read as a flag
            Version::FNameBasedCompression2 | Version::PathHashIndex | Version::Fnv64BugFix => {
                Error::Bool(0xBB)
            }
            _ => Error::Parse,
        };
        assert_eq!(Pak::new_any(data.clone(), None).unwrap_err(), expected, "{version:?}");
        assert_eq!(searched(&data, None).unwrap_err(), expected, "{version:?}");
    }
}

#[test]
fn a_wrong_ordinal_is_not_handed_on() {
    // the trailers of the three latest versions but one are laid out alike
    let data = archive(&quiet(Version::PathHashIndex), &[stored("a/b", b"c")]);
    assert_eq!(
        Pak::new(data.clone(), Version::Fnv64BugFix, None).unwrap_err(),
        Error::Version(10)
    );
    assert_eq!(Pak::new_any(data, None).unwrap().version(), Version::PathHashIndex);
}

#[test]
fn errors_that_end_the_search() {
    for e in [
        Error::Aes,
        Error::OodleLZ_Decompress,
        Error::Utf8,
        Error::Utf16,
        Error::IntoInner,
        Error::Encryption,
        Error::Compression,
        Error::Oodle,
        Error::Bool(2),
        Error::Encrypted,
        Error::Parse,
        Error::Missing("x".to_string()),
        Error::Other("x".to_string()),
    ] {
        assert!(!e.is_wrong_guess(), "{e:?}");
    }
    for kind in [
        IoKind::NotFound,
        IoKind::PermissionDenied,
        IoKind::AlreadyExists,
        IoKind::WouldBlock,
        IoKind::InvalidInput,
        IoKind::InvalidData,
        IoKind::TimedOut,
        IoKind::WriteZero,
        IoKind::Interrupted,
        IoKind::Unsupported,
        IoKind::Other,
    ] {
        assert!(!Error::Io(kind).is_wrong_guess(), "{kind:?}");
    }
}

#[test]
fn errors_that_are_the_sign_of_a_wrong_guess() {
    for e in [
        Error::Magic(1),
        Error::Version(3),
        Error::Io(IoKind::UnexpectedEof),
        Error::Io(IoKind::OutOfMemory),
    ] {
        assert!(e.is_wrong_guess(), "{e:?}");
    }
}
