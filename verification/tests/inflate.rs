use flate2::write::{GzEncoder, ZlibEncoder};
use std::io::Write;
use unpak::inflate::{deliver, unpack_block};
use unpak::{Compression, Error, IoKind};

fn zlib(data: &[u8]) -> Vec<u8> {
    let mut e = ZlibEncoder::new(Vec::new(), flate2::Compression::default());
    e.write_all(data).unwrap();
    e.finish().unwrap()
}

fn gzip(data: &[u8]) -> Vec<u8> {
    let mut e = GzEncoder::new(Vec::new(), flate2::Compression::default());
    e.write_all(data).unwrap();
    e.finish().unwrap()
}

#[test]
fn stored_block_is_copied() {
    let mut sink = vec![1u8, 2];
    assert_eq!(unpack_block(Compression::Stored, &[3, 4, 5], &mut sink), Ok(()));
    assert_eq!(sink, vec![1, 2, 3, 4, 5]);
    assert_eq!(unpack_block(Compression::Stored, &[], &mut sink), Ok(()));
    assert_eq!(sink, vec![1, 2, 3, 4, 5]);
}

#[test]
fn zlib_block_is_unpacked() {
    let plain: Vec<u8> = (0..5000u32).map(|i| (i % 251) as u8).collect();
    let packed = zlib(&plain);
    assert_ne!(packed, plain);
    let mut sink = vec![9u8];
    assert_eq!(unpack_block(Compression::Zlib, &packed, &mut sink), Ok(()));
    assert_eq!(sink[0], 9);
    assert_eq!(&sink[1..], &plain[..]);
}

#[test]
fn gzip_block_is_unpacked() {
    let plain = vec![0xABu8; 1024];
    let packed = gzip(&plain);
    let mut sink = Vec::new();
    assert_eq!(unpack_block(Compression::Gzip, &packed, &mut sink), Ok(()));
    assert_eq!(sink, plain);
}

#[test]
fn known_zlib_stream() {
    // "hello" as a stored deflate block in a zlib frame
    let packed = [0x78, 0x01, 0x01, 0x05, 0x00, 0xfa, 0xff, b'h', b'e', b'l', b'l', b'o', 0x06, 0x2c, 0x02, 0x15];
    let mut sink = Vec::new();
    assert_eq!(unpack_block(Compression::Zlib, &packed, &mut sink), Ok(()));
    assert_eq!(sink, b"hello");
}

#[test]
fn corrupt_stream_fails_and_leaves_the_sink() {
    let mut sink = vec![1u8, 2, 3];
    assert_eq!(
        unpack_block(Compression::Zlib, &[0xff, 0xff, 0xff, 0xff], &mut sink),
        Err(Error::Io(IoKind::InvalidInput))
    );
    assert_eq!(sink, vec![1, 2, 3]);
    assert_eq!(
        unpack_block(Compression::Gzip, &[0xff, 0xff, 0xff, 0xff, 0, 0, 0, 0, 0, 0, 0, 0], &mut sink),
        Err(Error::Io(IoKind::InvalidInput))
    );
    assert_eq!(sink, vec![1, 2, 3]);
}

#[test]
fn stream_that_is_cut_short() {
    let plain: Vec<u8> = (0..5000u32).map(|i| (i * i % 251) as u8).collect();
    let packed = zlib(&plain);
    let mut sink = vec![7u8];
    assert_eq!(
        unpack_block(Compression::Zlib, &packed[..packed.len() / 2], &mut sink),
        Err(Error::Io(IoKind::UnexpectedEof))
    );
    assert_eq!(sink, vec![7]);
    assert_eq!(
        unpack_block(Compression::Zlib, &[], &mut sink),
        Err(Error::Io(IoKind::UnexpectedEof))
    );
    let packed = gzip(&plain);
    assert_eq!(
        unpack_block(Compression::Gzip, &packed[..packed.len() / 2], &mut sink),
        Err(Error::Io(IoKind::UnexpectedEof))
    );
    assert_eq!(sink, vec![7]);
}

#[test]
fn a_zlib_stream_is_no_gzip_stream() {
    let packed = zlib(b"some bytes");
    let mut sink = Vec::new();
    assert!(unpack_block(Compression::Gzip, &packed, &mut sink).is_err());
    assert!(sink.is_empty());
}

#[test]
fn oodle_is_not_to_be_had() {
    let mut sink = vec![1u8];
    assert_eq!(unpack_block(Compression::Oodle, &[1, 2, 3], &mut sink), Err(Error::Oodle));
    assert_eq!(sink, vec![1]);
}

#[test]
fn deliver_appends_or_hands_on_the_error() {
    let mut sink = vec![1u8];
    assert_eq!(deliver(Ok(vec![2, 3]), &mut sink), Ok(()));
    assert_eq!(sink, vec![1, 2, 3]);
    assert_eq!(deliver(Err(IoKind::InvalidInput), &mut sink), Err(Error::Io(IoKind::InvalidInput)));
    assert_eq!(deliver(Err(IoKind::Other), &mut sink), Err(Error::Io(IoKind::Other)));
    assert_eq!(sink, vec![1, 2, 3]);
}
