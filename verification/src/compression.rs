//! Gzip.

use std::io::{Read, Write};

use flate2::read::GzDecoder;
use flate2::write::GzEncoder;
use flate2::Compression;
use vstd::prelude::*;

verus! {

/// What `flate2` makes of bytes in gzip, of which it writes no more than `most` bytes, or the
/// text of its error.
pub uninterp spec fn gunzipped(bytes: Seq<u8>, most: u64) -> Result<Seq<u8>, Seq<char>>;

/// What `flate2` compresses bytes to, at its fastest level, or the text of its error.
pub uninterp spec fn gzipped(bytes: Seq<u8>) -> Result<Seq<u8>, Seq<char>>;

/// `flate2::read::GzDecoder` over bytes in memory, read to the end or until it has given `most`
/// bytes. Bytes that are not in gzip are an error, which is displayed; since no file and no
/// connection is read, its text is one of the fixed ones that `flate2` and `std` have.
#[verifier::external_body]
pub(crate) fn gunzip(bytes: &Vec<u8>, most: u64) -> (r: Result<Vec<u8>, String>)
    ensures
        match gunzipped(bytes@, most) {
            Ok(plain) => r is Ok && r->Ok_0@ == plain && r->Ok_0@.len() <= most,
            Err(cause) => r is Err && r->Err_0@ == cause,
        },
{
    let mut plain = Vec::new();
    match GzDecoder::new(bytes.as_slice()).take(most).read_to_end(&mut plain) {
        Ok(_) => Ok(plain),
        Err(error) => Err(error.to_string()),
    }
}

/// `packed` is `bytes` in gzip: reading it gives the bytes back, up to as many as may be read.
pub open spec fn reads_back(packed: Seq<u8>, bytes: Seq<u8>) -> bool {
    forall|most: u64|
        (#[trigger] gunzipped(packed, most)) == Ok::<Seq<u8>, Seq<char>>(
            if bytes.len() <= most {
                bytes
            } else {
                bytes.take(most as int)
            },
        )
}

/// `flate2::write::GzEncoder` into memory, at the fastest level. What it writes is in gzip:
/// reading it gives the bytes back, up to as many as may be read. An error is displayed; since
/// nothing but memory is written to, its text is one of the fixed ones that `flate2` and `std`
/// have.
#[verifier::external_body]
pub(crate) fn gzip(bytes: &Vec<u8>) -> (r: Result<Vec<u8>, String>)
    ensures
        match gzipped(bytes@) {
            Ok(packed) => r is Ok && r->Ok_0@ == packed,
            Err(cause) => r is Err && r->Err_0@ == cause,
        },
        r is Ok ==> reads_back(r->Ok_0@, bytes@),
{
    let mut encoder = GzEncoder::new(Vec::new(), Compression::fast());
    match encoder.write_all(bytes.as_slice()) {
        Ok(_) => encoder.finish().map_err(|error| error.to_string()),
        Err(error) => Err(error.to_string()),
    }
}

} // verus!
