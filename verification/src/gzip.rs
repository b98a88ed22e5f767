//! Gzip-encoded bodies.

use vstd::prelude::*;

verus! {

/// What `flate2`'s decoder makes of gzip-encoded bytes, cut off behind the given number of bytes;
/// `None` where the bytes up to there are not gzip-encoded.
pub uninterp spec fn gunzipped(bytes: Seq<u8>, most: u64) -> Option<Seq<u8>>;

/// `flate2::read::MultiGzDecoder`, read to the end or up to `most` decoded bytes. The result is a
/// function of the bytes and of that number, and is not longer than it.
#[verifier::external_body]
pub(crate) fn gunzip(bytes: &[u8], most: u64) -> (r: Option<Vec<u8>>)
    ensures
        match r {
            Some(decoded) => gunzipped(bytes@, most) == Some(decoded@) && decoded@.len() <= most,
            None => gunzipped(bytes@, most) is None,
        },
{
    let decoder = flate2::read::MultiGzDecoder::new(bytes);
    let mut decoded = Vec::new();
    std::io::Read::read_to_end(&mut std::io::Read::take(decoder, most), &mut decoded).ok()?;
    Some(decoded)
}

} // verus!
