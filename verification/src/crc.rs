use vstd::prelude::*;

verus! {

/// One round of the bit-serial CRC-16 update: shift right, and fold the
/// polynomial 0x8408 back in when the low bit was set.
pub open spec fn crc_shift(t: u16) -> u16 {
    if t & 1 == 1 {
        (t >> 1) ^ 0x8408
    } else {
        t >> 1
    }
}

/// `crc_shift` applied `n` times.
pub open spec fn crc_rounds(t: u16, n: nat) -> u16
    decreases n,
{
    if n == 0 {
        t
    } else {
        crc_shift(crc_rounds(t, (n - 1) as nat))
    }
}

/// Folding one byte into the running CRC: xor it in, then run eight rounds.
pub open spec fn crc_update(crc: u16, b: u8) -> u16 {
    crc_rounds(crc ^ (b as u16), 8)
}

/// The running CRC after folding every byte of `data` into `acc`, in order.
pub open spec fn crc16_from(acc: u16, data: Seq<u8>) -> u16
    decreases data.len(),
{
    if data.len() == 0 {
        acc
    } else {
        crc16_from(crc_update(acc, data[0]), data.skip(1))
    }
}

/// The CRC-16 of `data` with the initial value 0xFFFF.
pub open spec fn crc16_of(data: Seq<u8>) -> u16 {
    crc16_from(0xffff, data)
}

/// A block passes the checksum when the CRC over all of it, the embedded
/// two-byte CRC field included, leaves the fixed residual 0xF0B8.
pub open spec fn crc_residue_ok(block: Seq<u8>) -> bool {
    crc16_of(block) == 0xf0b8
}

/// Runs the CRC-16 (polynomial 0x8408, initial value 0xFFFF, least
/// significant bit first) over the first 16 bytes of `data` and compares
/// the result against the residual 0xF0B8.
pub fn verify_crc(data: &[u8]) -> (r: bool)
    requires
        data@.len() >= 16,
    ensures
        r == crc_residue_ok(data@.take(16)),
{
    let ghost whole: Seq<u8> = data@.take(16);
    proof {
        assert(whole.skip(0) =~= whole);
    }
    let mut crc: u16 = 0xffff;
    let mut i: usize = 0;
    while i < 16
        invariant
            data@.len() >= 16,
            whole == data@.take(16),
            i <= 16,
            crc16_from(crc, whole.skip(i as int)) == crc16_of(whole),
        decreases 16 - i,
    {
        let byte: u8 = data[i];
        let mut tmp: u16 = crc ^ (byte as u16);
        let mut j: usize = 0;
        while j < 8
            invariant
                j <= 8,
                tmp == crc_rounds(crc ^ (byte as u16), j as nat),
            decreases 8 - j,
        {
            if tmp & 1 == 1 {
                tmp = (tmp >> 1) ^ 0x8408;
            } else {
                tmp >>= 1;
            }
            j += 1;
        }
        proof {
            let rest = whole.skip(i as int);
            assert(rest[0] == whole[i as int]);
            assert(rest.skip(1) =~= whole.skip(i + 1));
            assert(crc16_from(crc, rest) == crc16_from(crc_update(crc, rest[0]), rest.skip(1)));
        }
        crc = tmp;
        i += 1;
    }
    proof {
        assert(whole.skip(16) =~= Seq::<u8>::empty());
    }
    crc == 0xf0b8
}

} // verus!
