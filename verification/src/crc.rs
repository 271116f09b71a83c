use vstd::prelude::*;

verus! {

/// Reflected generator polynomial of CRC-32C (Castagnoli).
pub const CRC32C_POLY: u32 = 0x82F6_3B78;

/// One shift step of the bitwise CRC computation.
pub open spec fn spec_crc_bit(c: u32) -> u32 {
    if c & 1 == 1 {
        (c >> 1) ^ CRC32C_POLY
    } else {
        c >> 1
    }
}

/// `n` shift steps.
pub open spec fn spec_crc_bits(c: u32, n: nat) -> u32
    decreases n,
{
    if n == 0 {
        c
    } else {
        spec_crc_bits(spec_crc_bit(c), (n - 1) as nat)
    }
}

/// Fold one byte into the running CRC state.
pub open spec fn spec_crc_byte(c: u32, b: u8) -> u32 {
    spec_crc_bits(c ^ (b as u32), 8)
}

/// CRC state after folding the first `n` bytes of `s` into `init`.
pub open spec fn spec_crc_upto(init: u32, s: Seq<u8>, n: nat) -> u32
    decreases n,
{
    if n == 0 {
        init
    } else {
        spec_crc_byte(spec_crc_upto(init, s, (n - 1) as nat), s[n - 1])
    }
}

/// CRC-32C of a byte sequence.
pub open spec fn spec_crc32c(s: Seq<u8>) -> u32 {
    spec_crc_upto(0xFFFF_FFFF, s, s.len()) ^ 0xFFFF_FFFF
}

/// Bitwise CRC-32C over the whole of `data`.
pub fn crc32c(data: &Vec<u8>) -> (r: u32)
    ensures
        r == spec_crc32c(data@),
{
    let mut c: u32 = 0xFFFF_FFFF;
    let mut i: usize = 0;
    while i < data.len()
        invariant
            i <= data@.len(),
            c == spec_crc_upto(0xFFFF_FFFF, data@, i as nat),
        decreases data@.len() - i,
    {
        c = c ^ (data[i] as u32);
        let mut k: usize = 0;
        while k < 8
            invariant
                k <= 8,
                i < data@.len(),
                c == spec_crc_bits(
                    spec_crc_upto(0xFFFF_FFFF, data@, i as nat) ^ (data@[i as int] as u32),
                    k as nat,
                ),
            decreases 8 - k,
        {
            proof {
                lemma_crc_bits_snoc(
                    spec_crc_upto(0xFFFF_FFFF, data@, i as nat) ^ (data@[i as int] as u32),
                    k as nat,
                );
            }
            if c & 1 == 1 {
                c = (c >> 1) ^ CRC32C_POLY;
            } else {
                c = c >> 1;
            }
            k = k + 1;
        }
        i = i + 1;
    }
    c ^ 0xFFFF_FFFF
}

/// Unrolling `spec_crc_bits` from the back: step `n + 1` applies one more
/// bit step to the state after `n` steps.
proof fn lemma_crc_bits_snoc(c: u32, n: nat)
    ensures
        spec_crc_bits(c, n + 1) == spec_crc_bit(spec_crc_bits(c, n)),
    decreases n,
{
    if n > 0 {
        lemma_crc_bits_snoc(spec_crc_bit(c), (n - 1) as nat);
        assert(spec_crc_bits(c, n + 1) == spec_crc_bits(spec_crc_bit(c), n));
        assert(spec_crc_bits(c, n) == spec_crc_bits(spec_crc_bit(c), (n - 1) as nat));
    } else {
        assert(spec_crc_bits(c, 1) == spec_crc_bits(spec_crc_bit(c), 0));
        assert(spec_crc_bits(spec_crc_bit(c), 0) == spec_crc_bit(c));
    }
}

} // verus!
