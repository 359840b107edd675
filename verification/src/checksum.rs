//! The CRC-32 checksum that closes every chunk.

use vstd::prelude::*;

verus! {

/// The CRC-32 register of the IEEE polynomial after `bytes` have been folded
/// into the register `value`, as `crc::crc32::update` computes it over its
/// table for that polynomial.
pub uninterp spec fn crc32_update(value: u32, bytes: Seq<u8>) -> u32;

/// The CRC-32 checksum of `bytes`: the register that starts at zero.
pub open spec fn crc32(bytes: Seq<u8>) -> u32 {
    crc32_update(0, bytes)
}

/// Folds `bytes` into the running checksum `value`.
///
/// Calls `crc::crc32::update` with the crate's table for the IEEE polynomial.
/// Not proved: that the result is the register named by [`crc32_update`], and
/// that folding is sequential, so that a register which already stands for
/// the bytes `head` stands for `head` followed by `bytes` afterwards. The
/// source shows both: it inverts the register, steps through `bytes` one by
/// one from first to last, and inverts it again.
#[verifier::external_body]
pub(crate) fn fold(value: u32, bytes: &[u8]) -> (r: u32)
    ensures
        r == crc32_update(value, bytes@),
        forall|seed: u32, head: Seq<u8>|
            value == #[trigger] crc32_update(seed, head) ==> r == crc32_update(seed, head + bytes@),
{
    crc::crc32::update(value, &crc::crc32::IEEE_TABLE, bytes)
}

} // verus!
