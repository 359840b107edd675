//! Big-endian words and the effect of writing into the middle of a byte string.

use vstd::prelude::*;

verus! {

/// The four bytes of `x`, most significant first.
pub open spec fn be32(x: u32) -> Seq<u8> {
    seq![
        (x / 0x100_0000) as u8,
        (x / 0x1_0000 % 0x100) as u8,
        (x / 0x100 % 0x100) as u8,
        (x % 0x100) as u8,
    ]
}

/// The number that the first four bytes of `b` spell, most significant first.
pub open spec fn be32_value(b: Seq<u8>) -> nat
    recommends
        b.len() >= 4,
{
    (b[0] as nat) * 0x100_0000 + (b[1] as nat) * 0x1_0000 + (b[2] as nat) * 0x100 + (b[3] as nat)
}

/// `base` after `data` has been written at offset `at`: the bytes under
/// `data` are replaced, and the string grows where `data` runs past its end.
pub open spec fn overwrite(base: Seq<u8>, at: nat, data: Seq<u8>) -> Seq<u8>
    recommends
        at <= base.len(),
{
    Seq::new(
        if base.len() >= at + data.len() { base.len() } else { at + data.len() },
        |i: int| if at <= i < at + data.len() { data[i - at] } else { base[i] },
    )
}

/// The `n` bytes of `bytes` that start at offset `at`.
pub open spec fn window(bytes: Seq<u8>, at: nat, n: nat) -> Seq<u8>
    recommends
        at + n <= bytes.len(),
{
    bytes.subrange(at as int, (at + n) as int)
}

/// Encodes `x` as four bytes, most significant first.
pub fn encode_be32(x: u32) -> (out: [u8; 4])
    ensures
        out@ == be32(x),
{
    let out: [u8; 4] = [
        (x / 0x100_0000) as u8,
        (x / 0x1_0000 % 0x100) as u8,
        (x / 0x100 % 0x100) as u8,
        (x % 0x100) as u8,
    ];
    out
}

/// Decoding inverts encoding.
pub proof fn lemma_be32_round_trip(x: u32)
    ensures
        be32(x).len() == 4,
        be32_value(be32(x)) == x,
{
}

/// Two writes, the second where the first ended, are one write of both.
pub proof fn lemma_overwrite_append(base: Seq<u8>, at: nat, first: Seq<u8>, second: Seq<u8>)
    requires
        at <= base.len(),
    ensures
        overwrite(overwrite(base, at, first), at + first.len(), second) == overwrite(
            base,
            at,
            first + second,
        ),
{
}

} // verus!
