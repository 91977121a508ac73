use unpak::{Block, Entry, Error, IoKind, Reader, Version};

fn eof() -> Error {
    Error::Io(IoKind::UnexpectedEof)
}

/// The bytes of a full record.
fn record(
    version: Version,
    offset: u64,
    compressed: u64,
    uncompressed: u64,
    method: u32,
    blocks: &[(u64, u64)],
    encrypted: u8,
    block_uncompressed: u32,
) -> Vec<u8> {
    let mut r = Vec::new();
    r.extend_from_slice(&offset.to_le_bytes());
    r.extend_from_slice(&compressed.to_le_bytes());
    r.extend_from_slice(&uncompressed.to_le_bytes());
    if version == Version::FNameBasedCompression {
        r.push(method as u8);
    } else {
        r.extend_from_slice(&method.to_le_bytes());
    }
    if version == Version::Initial {
        r.extend_from_slice(&[0x11; 8]);
    }
    r.extend_from_slice(&[0x22; 20]);
    if version >= Version::CompressionEncryption {
        if method != 0 {
            r.extend_from_slice(&(blocks.len() as u32).to_le_bytes());
            for (start, end) in blocks {
                r.extend_from_slice(&start.to_le_bytes());
                r.extend_from_slice(&end.to_le_bytes());
            }
        }
        r.push(encrypted);
        r.extend_from_slice(&block_uncompressed.to_le_bytes());
    }
    r
}

#[test]
fn block_is_two_bounds() {
    let mut data = 5u64.to_le_bytes().to_vec();
    data.extend_from_slice(&0x0102030405060708u64.to_le_bytes());
    let mut r = Reader::new(&data);
    assert_eq!(Block::new(&mut r), Ok(Block { start: 5, end: 0x0102030405060708 }));
    assert_eq!(r.stream_position(), 16);
    assert_eq!(Block::new(&mut Reader::new(&data[..15])), Err(eof()));
}

#[test]
fn full_record_of_the_first_version() {
    let data = record(Version::Initial, 1, 2, 3, 0, &[], 0, 0);
    assert_eq!(data.len(), 56);
    let mut r = Reader::new(&data);
    let e = Entry::new(&mut r, Version::Initial).unwrap();
    assert_eq!(r.stream_position(), 56);
    assert_eq!(
        e,
        Entry {
            offset: 1,
            compressed: 2,
            uncompressed: 3,
            compression: None,
            blocks: None,
            encrypted: false,
            block_uncompressed: 3,
        }
    );
}

#[test]
fn full_record_without_timestamp() {
    let data = record(Version::NoTimestamps, 10, 20, 30, 2, &[], 0, 0);
    assert_eq!(data.len(), 48);
    let mut r = Reader::new(&data);
    let e = Entry::new(&mut r, Version::NoTimestamps).unwrap();
    assert_eq!(r.stream_position(), 48);
    assert_eq!(e.compression, Some(1));
    assert_eq!(e.blocks, None);
    assert!(!e.encrypted);
    assert_eq!(e.block_uncompressed, 30);
}

#[test]
fn full_record_with_blocks() {
    for version in [
        Version::CompressionEncryption,
        Version::IndexEncryption,
        Version::RelativeChunkOffsets,
        Version::DeleteRecords,
        Version::EncryptionKeyUuid,
        Version::FNameBasedCompression2,
        Version::FrozenIndex,
        Version::PathHashIndex,
        Version::Fnv64BugFix,
    ] {
        let data = record(version, 7, 100, 300, 1, &[(73, 120), (120, 173)], 1, 0x10000);
        assert_eq!(data.len(), 8 * 3 + 4 + 20 + 4 + 32 + 1 + 4);
        let mut r = Reader::new(&data);
        let e = Entry::new(&mut r, version).unwrap();
        assert_eq!(r.stream_position() as usize, data.len());
        assert_eq!(
            e,
            Entry {
                offset: 7,
                compressed: 100,
                uncompressed: 300,
                compression: Some(0),
                blocks: Some(vec![Block { start: 73, end: 120 }, Block { start: 120, end: 173 }]),
                encrypted: true,
                block_uncompressed: 0x10000,
            }
        );
    }
}

#[test]
fn method_is_one_byte_in_one_version() {
    let data = record(Version::FNameBasedCompression, 7, 100, 300, 3, &[(1, 2)], 0, 9);
    assert_eq!(data.len(), 8 * 3 + 1 + 20 + 4 + 16 + 1 + 4);
    let mut r = Reader::new(&data);
    let e = Entry::new(&mut r, Version::FNameBasedCompression).unwrap();
    assert_eq!(r.stream_position() as usize, data.len());
    assert_eq!(e.compression, Some(2));
    assert_eq!(e.blocks, Some(vec![Block { start: 1, end: 2 }]));
    assert_eq!(e.block_uncompressed, 9);
}

#[test]
fn stored_entry_has_no_block_list() {
    let data = record(Version::DeleteRecords, 7, 100, 100, 0, &[], 0, 5);
    assert_eq!(data.len(), 8 * 3 + 4 + 20 + 1 + 4);
    let e = Entry::new(&mut Reader::new(&data), Version::DeleteRecords).unwrap();
    assert_eq!(e.compression, None);
    assert_eq!(e.blocks, None);
    assert_eq!(e.block_uncompressed, 5);
}

#[test]
fn compressed_entry_may_have_an_empty_block_list() {
    let data = record(Version::DeleteRecords, 7, 100, 100, 1, &[], 0, 5);
    let e = Entry::new(&mut Reader::new(&data), Version::DeleteRecords).unwrap();
    assert_eq!(e.blocks, Some(vec![]));
}

#[test]
fn flag_of_a_record_is_strict() {
    let data = record(Version::DeleteRecords, 7, 100, 100, 0, &[], 2, 5);
    assert_eq!(Entry::new(&mut Reader::new(&data), Version::DeleteRecords), Err(Error::Bool(2)));
}

#[test]
fn record_that_is_cut_short() {
    for version in Version::iter() {
        let data = record(version, 7, 100, 300, 1, &[(1, 2), (3, 4)], 0, 9);
        assert!(Entry::new(&mut Reader::new(&data), version).is_ok());
        for len in 0..data.len() {
            assert_eq!(Entry::new(&mut Reader::new(&data[..len]), version), Err(eof()), "{version:?} {len}");
        }
    }
}

#[test]
fn block_count_beyond_the_bytes() {
    let mut data = record(Version::DeleteRecords, 7, 100, 300, 1, &[], 0, 9);
    // the count of blocks says 2^32 - 1
    data[48..52].copy_from_slice(&u32::MAX.to_le_bytes());
    assert_eq!(Entry::new(&mut Reader::new(&data), Version::DeleteRecords), Err(eof()));
}

/// The bitfield of an encoded record.
fn bitfield(narrow: (bool, bool, bool), method: u32, encrypted: bool, blocks: u32, size_bits: u32) -> u32 {
    ((narrow.0 as u32) << 31)
        | ((narrow.1 as u32) << 30)
        | ((narrow.2 as u32) << 29)
        | (method << 23)
        | ((encrypted as u32) << 22)
        | (blocks << 6)
        | size_bits
}

#[test]
fn encoded_record_stored() {
    // 64-bit offset and length, no compression, no blocks
    let mut data = bitfield((false, false, false), 0, false, 0, 1).to_le_bytes().to_vec();
    data.extend_from_slice(&0x1_0000_0001u64.to_le_bytes());
    data.extend_from_slice(&77u64.to_le_bytes());
    data.push(0xEE);
    let mut r = Reader::new(&data);
    let e = Entry::from_encoded(&mut r).unwrap();
    assert_eq!(r.stream_position(), 20);
    assert_eq!(
        e,
        Entry {
            offset: 0x1_0000_0001,
            compressed: 77,
            uncompressed: 77,
            compression: None,
            blocks: None,
            encrypted: false,
            block_uncompressed: 1 << 11,
        }
    );
}

#[test]
fn encoded_record_narrow_fields() {
    let mut data = bitfield((true, true, true), 1, false, 1, 0x20).to_le_bytes().to_vec();
    data.extend_from_slice(&1000u32.to_le_bytes());
    data.extend_from_slice(&5000u32.to_le_bytes());
    data.extend_from_slice(&300u32.to_le_bytes());
    let mut r = Reader::new(&data);
    let e = Entry::from_encoded(&mut r).unwrap();
    assert_eq!(r.stream_position(), 16);
    assert_eq!(
        e,
        Entry {
            offset: 1000,
            compressed: 300,
            uncompressed: 5000,
            compression: Some(0),
            // header 53, and 4 + 16 * 1 for the list of blocks
            blocks: Some(vec![Block { start: 73, end: 373 }]),
            encrypted: false,
            block_uncompressed: 0x20 << 11,
        }
    );
}

#[test]
fn encoded_record_mixed_widths() {
    let mut data = bitfield((false, true, false), 2, false, 1, 0).to_le_bytes().to_vec();
    data.extend_from_slice(&0x0102030405060708u64.to_le_bytes());
    data.extend_from_slice(&9u32.to_le_bytes());
    data.extend_from_slice(&0x1_0000_0000u64.to_le_bytes());
    let mut r = Reader::new(&data);
    let e = Entry::from_encoded(&mut r).unwrap();
    assert_eq!(r.stream_position(), 24);
    assert_eq!(e.offset, 0x0102030405060708);
    assert_eq!(e.uncompressed, 9);
    assert_eq!(e.compressed, 0x1_0000_0000);
    assert_eq!(e.compression, Some(1));
    assert_eq!(e.block_uncompressed, 0);
    assert_eq!(e.blocks, Some(vec![Block { start: 73, end: 73 + 0x1_0000_0000 }]));
}

#[test]
fn encoded_record_explicit_block_size() {
    let mut data = bitfield((true, true, true), 0, false, 0, 0x3f).to_le_bytes().to_vec();
    data.extend_from_slice(&0xABCDEFu32.to_le_bytes());
    data.extend_from_slice(&1u32.to_le_bytes());
    data.extend_from_slice(&2u32.to_le_bytes());
    let mut r = Reader::new(&data);
    let e = Entry::from_encoded(&mut r).unwrap();
    assert_eq!(r.stream_position(), 16);
    assert_eq!(e.block_uncompressed, 0xABCDEF);
    assert_eq!(e.offset, 1);
    assert_eq!(e.uncompressed, 2);
    assert_eq!(e.compressed, 2);
}

#[test]
fn encoded_record_block_size_from_bits() {
    for bits in 0..0x3f {
        let mut data = bitfield((true, true, true), 0, false, 0, bits).to_le_bytes().to_vec();
        data.extend_from_slice(&[0; 8]);
        let e = Entry::from_encoded(&mut Reader::new(&data)).unwrap();
        assert_eq!(e.block_uncompressed, (bits as u64) * 2048);
    }
}

#[test]
fn encoded_record_method_index() {
    for method in 0..64u32 {
        let mut data = bitfield((true, true, true), method, false, 0, 0).to_le_bytes().to_vec();
        data.extend_from_slice(&[0; 12]);
        let e = Entry::from_encoded(&mut Reader::new(&data)).unwrap();
        if method == 0 {
            assert_eq!(e.compression, None);
        } else {
            assert_eq!(e.compression, Some(method as usize - 1));
        }
    }
}

#[test]
fn encoded_record_three_blocks() {
    let mut data = bitfield((true, true, true), 1, false, 3, 1).to_le_bytes().to_vec();
    data.extend_from_slice(&0u32.to_le_bytes());
    data.extend_from_slice(&6000u32.to_le_bytes());
    data.extend_from_slice(&60u32.to_le_bytes());
    for size in [10u32, 20, 30] {
        data.extend_from_slice(&size.to_le_bytes());
    }
    let mut r = Reader::new(&data);
    let e = Entry::from_encoded(&mut r).unwrap();
    assert_eq!(r.stream_position(), 28);
    let first = 53 + 4 + 16 * 3;
    assert_eq!(
        e.blocks,
        Some(vec![
            Block { start: first, end: first + 10 },
            Block { start: first + 10, end: first + 30 },
            Block { start: first + 30, end: first + 60 },
        ])
    );
    let sum: u64 = e.blocks.unwrap().iter().map(|b| b.end - b.start).sum();
    assert_eq!(sum, e.compressed);
}

#[test]
fn encoded_record_encrypted_blocks_are_padded() {
    let mut data = bitfield((true, true, true), 1, true, 3, 1).to_le_bytes().to_vec();
    data.extend_from_slice(&0u32.to_le_bytes());
    data.extend_from_slice(&6000u32.to_le_bytes());
    data.extend_from_slice(&80u32.to_le_bytes());
    for size in [10u32, 32, 17] {
        data.extend_from_slice(&size.to_le_bytes());
    }
    let e = Entry::from_encoded(&mut Reader::new(&data)).unwrap();
    assert!(e.encrypted);
    let first = 53 + 4 + 16 * 3;
    assert_eq!(
        e.blocks,
        Some(vec![
            Block { start: first, end: first + 10 },
            Block { start: first + 16, end: first + 48 },
            Block { start: first + 48, end: first + 65 },
        ])
    );
}

#[test]
fn encoded_record_single_encrypted_block_stores_its_length() {
    let mut data = bitfield((true, true, true), 1, true, 1, 1).to_le_bytes().to_vec();
    data.extend_from_slice(&0u32.to_le_bytes());
    data.extend_from_slice(&6000u32.to_le_bytes());
    data.extend_from_slice(&32u32.to_le_bytes());
    data.extend_from_slice(&25u32.to_le_bytes());
    let mut r = Reader::new(&data);
    let e = Entry::from_encoded(&mut r).unwrap();
    assert_eq!(r.stream_position(), 20);
    assert_eq!(e.blocks, Some(vec![Block { start: 73, end: 98 }]));
    // without the length the record is cut short
    assert_eq!(Entry::from_encoded(&mut Reader::new(&data[..16])), Err(eof()));
}

#[test]
fn encoded_record_blocks_of_a_stored_entry_start_at_the_header() {
    let mut data = bitfield((true, true, true), 0, false, 1, 1).to_le_bytes().to_vec();
    data.extend_from_slice(&0u32.to_le_bytes());
    data.extend_from_slice(&40u32.to_le_bytes());
    let e = Entry::from_encoded(&mut Reader::new(&data)).unwrap();
    assert_eq!(e.compressed, 40);
    assert_eq!(e.blocks, Some(vec![Block { start: 53, end: 93 }]));
}

#[test]
fn encoded_record_single_block_wraps() {
    let mut data = bitfield((true, true, false), 1, false, 1, 1).to_le_bytes().to_vec();
    data.extend_from_slice(&0u32.to_le_bytes());
    data.extend_from_slice(&40u32.to_le_bytes());
    data.extend_from_slice(&u64::MAX.to_le_bytes());
    let e = Entry::from_encoded(&mut Reader::new(&data)).unwrap();
    assert_eq!(e.compressed, u64::MAX);
    assert_eq!(e.blocks, Some(vec![Block { start: 73, end: 72 }]));
}

#[test]
fn encoded_record_that_is_cut_short() {
    let mut data = bitfield((false, false, false), 1, false, 2, 0x3f).to_le_bytes().to_vec();
    data.extend_from_slice(&[1; 4 + 8 + 8 + 8 + 8]);
    assert!(Entry::from_encoded(&mut Reader::new(&data)).is_ok());
    for len in 0..data.len() {
        assert_eq!(Entry::from_encoded(&mut Reader::new(&data[..len])), Err(eof()), "{len}");
    }
}

#[test]
fn encoded_record_most_blocks() {
    let mut data = bitfield((true, true, true), 1, true, 0xffff, 1).to_le_bytes().to_vec();
    data.extend_from_slice(&[0; 12]);
    for _ in 0..0xffff {
        data.extend_from_slice(&u32::MAX.to_le_bytes());
    }
    let e = Entry::from_encoded(&mut Reader::new(&data)).unwrap();
    let blocks = e.blocks.unwrap();
    assert_eq!(blocks.len(), 0xffff);
    let first = 53 + 4 + 16 * 0xffffu64;
    assert_eq!(blocks[0], Block { start: first, end: first + 0xffff_ffff });
    assert_eq!(blocks[1].start, first + 0x1_0000_0000);
    assert_eq!(blocks[0xfffe].start, first + 0xfffe * 0x1_0000_0000u64);
}

fn entry(uncompressed: u64, block_uncompressed: u64) -> Entry {
    Entry {
        offset: 0,
        compressed: 0,
        uncompressed,
        compression: Some(2),
        blocks: None,
        encrypted: false,
        block_uncompressed,
    }
}

#[test]
fn oodle_length_of_a_single_block() {
    assert_eq!(entry(5000, 65536).oodle_block_len(0, 1), Some(5000));
    assert_eq!(entry(5000, 10).oodle_block_len(0, 1), Some(5000));
    assert_eq!(entry(0, 0).oodle_block_len(0, 1), Some(0));
    assert_eq!(entry(u64::MAX, 1).oodle_block_len(7, 1), Some(u64::MAX));
}

#[test]
fn oodle_length_of_each_of_many_blocks() {
    let e = entry(2500, 1000);
    assert_eq!(e.oodle_block_len(0, 3), Some(1000));
    assert_eq!(e.oodle_block_len(1, 3), Some(1000));
    assert_eq!(e.oodle_block_len(2, 3), Some(500));
    assert_eq!(e.oodle_block_len(3, 3), None);
    let e = entry(3000, 1000);
    assert_eq!(e.oodle_block_len(2, 3), Some(1000));
    assert_eq!(e.oodle_block_len(3, 4), Some(0));
    assert_eq!(e.oodle_block_len(4, 5), None);
    assert_eq!(entry(10, 0).oodle_block_len(5, 9), Some(0));
    assert_eq!(entry(u64::MAX, u64::MAX).oodle_block_len(1, 2), Some(0));
    assert_eq!(entry(u64::MAX, u64::MAX).oodle_block_len(2, 3), None);
    assert_eq!(entry(u64::MAX, u64::MAX).oodle_block_len(usize::MAX, 3), None);
    assert_eq!(entry(u64::MAX - 1, u64::MAX).oodle_block_len(0, 2), Some(u64::MAX - 1));
}

#[test]
fn both_forms_of_a_record_give_the_same_entry() {
    // a compressed entry of three blocks, bounds counted from the record
    let first = 53 + 4 + 16 * 3;
    let blocks = [(first, first + 10), (first + 10, first + 30), (first + 30, first + 60)];
    for version in [Version::RelativeChunkOffsets, Version::PathHashIndex, Version::Fnv64BugFix] {
        let full = record(version, 4096, 60, 6000, 1, &blocks, 0, 2048);
        assert_eq!(full.len() as u64, first);
        let from_full = Entry::new(&mut Reader::new(&full), version).unwrap();
        for narrow in [false, true] {
            for explicit in [false, true] {
                let bits = if explicit { 0x3f } else { 1 };
                let mut compact = bitfield((narrow, narrow, narrow), 1, false, 3, bits).to_le_bytes().to_vec();
                if explicit {
                    compact.extend_from_slice(&2048u32.to_le_bytes());
                }
                for v in [4096u64, 6000, 60] {
                    if narrow {
                        compact.extend_from_slice(&(v as u32).to_le_bytes());
                    } else {
                        compact.extend_from_slice(&v.to_le_bytes());
                    }
                }
                for len in [10u32, 20, 30] {
                    compact.extend_from_slice(&len.to_le_bytes());
                }
                let from_compact = Entry::from_encoded(&mut Reader::new(&compact)).unwrap();
                assert_eq!(from_full, from_compact);
            }
        }
    }
    // bounds counted from the start of the archive: the same entry, moved
    let moved: Vec<(u64, u64)> = blocks.iter().map(|(s, e)| (s + 4096, e + 4096)).collect();
    let full = record(Version::IndexEncryption, 4096, 60, 6000, 1, &moved, 0, 2048);
    let from_full = Entry::new(&mut Reader::new(&full), Version::IndexEncryption).unwrap();
    let mut compact = bitfield((true, true, true), 1, false, 3, 1).to_le_bytes().to_vec();
    for v in [4096u32, 6000, 60, 10, 20, 30] {
        compact.extend_from_slice(&v.to_le_bytes());
    }
    let from_compact = Entry::from_encoded(&mut Reader::new(&compact)).unwrap();
    assert_ne!(from_full, from_compact);
    let back: Vec<unpak::Block> = from_full
        .blocks
        .clone()
        .unwrap()
        .iter()
        .map(|b| unpak::Block { start: b.start - 4096, end: b.end - 4096 })
        .collect();
    assert_eq!(Entry { blocks: Some(back), ..from_full }, from_compact);
    // a stored entry
    let full = record(Version::PathHashIndex, 7, 99, 99, 0, &[], 1, 0);
    let from_full = Entry::new(&mut Reader::new(&full), Version::PathHashIndex).unwrap();
    let mut compact = bitfield((true, true, false), 0, true, 0, 0).to_le_bytes().to_vec();
    compact.extend_from_slice(&7u32.to_le_bytes());
    compact.extend_from_slice(&99u32.to_le_bytes());
    assert_eq!(from_full, Entry::from_encoded(&mut Reader::new(&compact)).unwrap());
}
