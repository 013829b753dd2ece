//! Content encoding through flate2's gzip encoder.
use vstd::prelude::*;

verus! {

/// The gzip stream flate2's encoder produces for `data` at the default
/// compression level.
pub uninterp spec fn gzip_of(data: Seq<u8>) -> Seq<u8>;

/// The bytes flate2's gzip decoder recovers from a gzip stream.
pub uninterp spec fn gunzip_of(stream: Seq<u8>) -> Seq<u8>;

/// Relies on flate2::write::GzEncoder with Compression::default():
/// writing all of `data` and finishing yields the gzip stream for `data`,
/// a function of the input bytes alone (flate2 fixes the header's mtime
/// to zero and its OS byte to a constant for reproducible streams), and
/// flate2::read::GzDecoder recovers exactly `data` from that stream,
/// gzip being a lossless encoding. Writing into a Vec cannot fail.
#[verifier::external_body]
pub(crate) fn gzip_compress(data: &[u8]) -> (r: Vec<u8>)
    ensures
        r@ == gzip_of(data@),
        gunzip_of(r@) == data@,
{
    let mut encoder = flate2::write::GzEncoder::new(Vec::new(), flate2::Compression::default());
    std::io::Write::write_all(&mut encoder, data).unwrap();
    encoder.finish().unwrap()
}

} // verus!
