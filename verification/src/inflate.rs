//! Decompression of one block of an entry's body.

use vstd::prelude::*;
use crate::compression::Compression;
use crate::error::{Error, IoKind};
use std::io::Read;

verus! {

/// What the zlib decoder of the crate `flate2` makes of `input`: the bytes
/// that the stream unpacks to, or the kind of the error at which it stops.
pub uninterp spec fn zlib_inflated(input: Seq<u8>) -> Result<Seq<u8>, IoKind>;

/// What the gzip decoder of the crate `flate2` makes of `input`: the bytes
/// that the stream unpacks to, or the kind of the error at which it stops.
pub uninterp spec fn gzip_inflated(input: Seq<u8>) -> Result<Seq<u8>, IoKind>;

/// The model of what a decoder returned.
pub open spec fn decoded_view(r: Result<Vec<u8>, IoKind>) -> Result<Seq<u8>, IoKind> {
    match r {
        Ok(out) => Ok(out@),
        Err(kind) => Err(kind),
    }
}

/// Reads `flate2::read::ZlibDecoder` over `input` to its end. The decoder
/// fails with `UnexpectedEof` on a stream that is cut short and with
/// `InvalidInput` on one that is corrupt.
#[verifier::external_body]
fn inflate_zlib(input: &[u8]) -> (r: Result<Vec<u8>, IoKind>)
    ensures
        decoded_view(r) == zlib_inflated(input@),
{
    let mut out = Vec::new();
    match flate2::read::ZlibDecoder::new(input).read_to_end(&mut out) {
        Ok(_) => Ok(out),
        Err(e) => Err(match e.kind() {
            std::io::ErrorKind::UnexpectedEof => IoKind::UnexpectedEof,
            std::io::ErrorKind::InvalidInput => IoKind::InvalidInput,
            _ => IoKind::Other,
        }),
    }
}

/// Reads `flate2::read::GzDecoder` over `input` to its end. The decoder
/// fails with `UnexpectedEof` on a stream that is cut short and with
/// `InvalidInput` on one that is corrupt.
#[verifier::external_body]
fn inflate_gzip(input: &[u8]) -> (r: Result<Vec<u8>, IoKind>)
    ensures
        decoded_view(r) == gzip_inflated(input@),
{
    let mut out = Vec::new();
    match flate2::read::GzDecoder::new(input).read_to_end(&mut out) {
        Ok(_) => Ok(out),
        Err(e) => Err(match e.kind() {
            std::io::ErrorKind::UnexpectedEof => IoKind::UnexpectedEof,
            std::io::ErrorKind::InvalidInput => IoKind::InvalidInput,
            _ => IoKind::Other,
        }),
    }
}

/// What a block of a body unpacks to, given what the decoders make of it.
/// A stored block is its own content; the Oodle decoder is not to be had.
pub open spec fn unpacked(
    method: Compression,
    block: Seq<u8>,
    zlib: Result<Seq<u8>, IoKind>,
    gzip: Result<Seq<u8>, IoKind>,
) -> Result<Seq<u8>, Error> {
    match method {
        Compression::Stored => Ok(block),
        Compression::Zlib => match zlib {
            Ok(out) => Ok(out),
            Err(kind) => Err(Error::Io(kind)),
        },
        Compression::Gzip => match gzip {
            Ok(out) => Ok(out),
            Err(kind) => Err(Error::Io(kind)),
        },
        Compression::Oodle => Err(Error::Oodle),
    }
}

/// What a block of a body unpacks to.
pub open spec fn unpacked_block(method: Compression, block: Seq<u8>) -> Result<Seq<u8>, Error> {
    unpacked(method, block, zlib_inflated(block), gzip_inflated(block))
}

/// Appends to `sink` what a decoder made of a block, or hands on its error.
pub fn deliver(decoded: Result<Vec<u8>, IoKind>, sink: &mut Vec<u8>) -> (r: Result<(), Error>)
    ensures
        match decoded {
            Ok(out) => r is Ok && final(sink)@ == old(sink)@ + out@,
            Err(kind) => r == Err::<(), Error>(Error::Io(kind)) && final(sink)@ == old(sink)@,
        },
{
    match decoded {
        Ok(out) => {
            let mut out = out;
            sink.append(&mut out);
            Ok(())
        },
        Err(kind) => Err(Error::Io(kind)),
    }
}

/// Unpacks one block of a body by `method` and appends the result to
/// `sink`. On an error `sink` stays as it was.
pub fn unpack_block(method: Compression, block: &[u8], sink: &mut Vec<u8>) -> (r: Result<(), Error>)
    ensures
        match unpacked_block(method, block@) {
            Ok(out) => r is Ok && final(sink)@ == old(sink)@ + out,
            Err(e) => r == Err::<(), Error>(e) && final(sink)@ == old(sink)@,
        },
{
    match method {
        Compression::Stored => {
            sink.extend_from_slice(block);
            Ok(())
        },
        Compression::Zlib => deliver(inflate_zlib(block), sink),
        Compression::Gzip => deliver(inflate_gzip(block), sink),
        Compression::Oodle => Err(Error::Oodle),
    }
}

} // verus!
