//! CRC-8 (poly 0x07, init 0x00, MSB-first, no reflection, no final XOR).
//! The residue of a message followed by its CRC byte is 0x00.
use vstd::prelude::*;

verus! {

/// One shift-register step: shift `c` left and fold in the polynomial when
/// the outgoing bit differs from the message bit `bit`.
pub open spec fn crc_step(c: u8, bit: u8) -> u8 {
    let feedback = ((c >> 7u8) & 1u8) ^ bit;
    let shifted = (c << 1u8) as u8;
    if feedback == 1u8 {
        shifted ^ 0x07u8
    } else {
        shifted
    }
}

/// The register after folding in the top `n` bits of `byte` (bit 7 first).
pub open spec fn crc_steps(c: u8, byte: u8, n: nat) -> u8
    decreases n,
{
    if n == 0 {
        c
    } else {
        crc_step(crc_steps(c, byte, (n - 1) as nat), (byte >> ((8 - n) as u8)) & 1u8)
    }
}

/// CRC-8 of one byte folded into the running value `crc`.
pub open spec fn spec_crc8_update(crc: u8, byte: u8) -> u8 {
    crc_steps(crc, byte, 8)
}

/// CRC-8 of a whole message, folded from 0x00.
pub open spec fn spec_crc8(bytes: Seq<u8>) -> u8
    decreases bytes.len(),
{
    if bytes.len() == 0 {
        0
    } else {
        spec_crc8_update(spec_crc8(bytes.drop_last()), bytes.last())
    }
}

/// Fold one byte into the running CRC-8, processing bit 7 down to bit 0.
pub fn crc8_update(crc: u8, byte: u8) -> (res: u8)
    ensures
        res == spec_crc8_update(crc, byte),
{
    let mut c = crc;
    let mut n: u8 = 0;
    while n < 8
        invariant
            n <= 8,
            c == crc_steps(crc, byte, n as nat),
        decreases 8 - n,
    {
        let i: u8 = 7 - n;
        let feedback = ((c >> 7u8) & 1u8) ^ ((byte >> i) & 1u8);
        let shifted: u8 = c << 1u8;
        assert(shifted == (c << 1u8) as u8) by (bit_vector)
            requires
                shifted == c << 1u8,
        ;
        c = shifted;
        if feedback == 1 {
            c = c ^ 0x07u8;
        }
        n = n + 1;
        assert(i == (8 - n) as u8);
    }
    c
}

/// Fold a byte slice from the initial value 0x00.
pub fn crc8(bytes: &[u8]) -> (res: u8)
    ensures
        res == spec_crc8(bytes@),
{
    let mut c: u8 = 0;
    let mut i: usize = 0;
    while i < bytes.len()
        invariant
            i <= bytes.len(),
            c == spec_crc8(bytes@.subrange(0, i as int)),
        decreases bytes.len() - i,
    {
        proof {
            let s = bytes@.subrange(0, i + 1);
            assert(s.drop_last() =~= bytes@.subrange(0, i as int));
        }
        c = crc8_update(c, bytes[i]);
        i = i + 1;
    }
    assert(bytes@.subrange(0, i as int) =~= bytes@);
    c
}

/// The eight register steps of one byte, written out.
spec fn crc_unrolled(c: u8, b: u8) -> u8 {
    crc_step(
        crc_step(
            crc_step(
                crc_step(
                    crc_step(
                        crc_step(
                            crc_step(crc_step(c, (b >> 7u8) & 1u8), (b >> 6u8) & 1u8),
                            (b >> 5u8) & 1u8,
                        ),
                        (b >> 4u8) & 1u8,
                    ),
                    (b >> 3u8) & 1u8,
                ),
                (b >> 2u8) & 1u8,
            ),
            (b >> 1u8) & 1u8,
        ),
        (b >> 0u8) & 1u8,
    )
}

/// Folding a CRC value into itself clears the register.
pub proof fn lemma_crc8_update_self(c: u8)
    ensures
        spec_crc8_update(c, c) == 0,
{
    reveal_with_fuel(crc_steps, 9);
    assert(spec_crc8_update(c, c) == crc_unrolled(c, c));
    assert(crc_unrolled(c, c) == 0u8) by (bit_vector);
}

/// The residue law: a message followed by its own CRC byte has CRC 0x00.
pub proof fn lemma_crc8_residue(msg: Seq<u8>)
    ensures
        spec_crc8(msg.push(spec_crc8(msg))) == 0,
{
    let with = msg.push(spec_crc8(msg));
    assert(with.drop_last() =~= msg);
    lemma_crc8_update_self(spec_crc8(msg));
}

} // verus!
