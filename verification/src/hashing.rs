//! The FNV-1a hash, by which Prometheus tells families and label values apart.

use vstd::prelude::*;
use vstd::utf8;

verus! {

/// The hash of no bytes.
pub const OFFSET_BASIS: u64 = 0xcbf29ce484222325;

/// A hash with one more byte mixed in.
pub open spec fn mixed(hash: u64, byte: u8) -> u64 {
    #[verifier::truncate]
    (((hash ^ (byte as u64)) * 0x100000001b3u64) as u64)
}

/// A hash with four more bytes mixed in.
pub open spec fn mixed4(hash: u64, a: u8, b: u8, c: u8, d: u8) -> u64 {
    mixed(mixed(mixed(mixed(hash, a), b), c), d)
}

/// The hash of the first `n` bytes.
pub open spec fn digest_of_first(bytes: Seq<u8>, n: nat) -> u64
    decreases n,
{
    if n == 0 {
        OFFSET_BASIS
    } else {
        mixed(digest_of_first(bytes, (n - 1) as nat), bytes[n - 1])
    }
}

/// The hash of bytes.
pub open spec fn digest(bytes: Seq<u8>) -> u64 {
    digest_of_first(bytes, bytes.len())
}

/// The hash of a text.
pub open spec fn text_digest(s: Seq<char>) -> u64 {
    digest(utf8::encode_utf8(s))
}

/// The hash of a text with the byte behind it that ends a field.
pub open spec fn field_digest(s: Seq<char>) -> u64 {
    digest(utf8::encode_utf8(s).push(0xFF))
}

} // verus!
