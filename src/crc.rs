use vstd::prelude::*;

verus! {

/// One shift step of the Modbus RTU checksum (reflected polynomial 0xA001).
pub open spec fn crc_shift(c: u16) -> u16 {
    if c & 1u16 != 0u16 {
        (c >> 1u16) ^ 0xA001u16
    } else {
        c >> 1u16
    }
}

/// `n` shift steps applied to `c`.
pub open spec fn crc_shifts(c: u16, n: nat) -> u16
    decreases n,
{
    if n == 0 {
        c
    } else {
        crc_shift(crc_shifts(c, (n - 1) as nat))
    }
}

/// Folds one byte into the running checksum, least significant bit first.
pub open spec fn crc_byte(c: u16, b: u8) -> u16 {
    crc_shifts(c ^ (b as u16), 8)
}

/// The Modbus RTU checksum of a byte sequence: initial value 0xFFFF, each byte folded in turn.
pub open spec fn crc_of(s: Seq<u8>) -> u16
    decreases s.len(),
{
    if s.len() == 0 {
        0xFFFFu16
    } else {
        crc_byte(crc_of(s.drop_last()), s.last())
    }
}

/// Computes the Modbus RTU checksum over the first `data_length` bytes of `frame`.
pub fn calc_rtu_crc(frame: &[u8], data_length: u8) -> (r: u16)
    requires
        data_length as int <= frame@.len(),
    ensures
        r == crc_of(frame@.subrange(0, data_length as int)),
{
    let mut crc: u16 = 0xffff;
    let n: usize = data_length as usize;
    let mut pos: usize = 0;
    while pos < n
        invariant
            n == data_length as usize,
            n <= frame@.len(),
            pos <= n,
            crc == crc_of(frame@.subrange(0, pos as int)),
        decreases n - pos,
    {
        let ghost start = crc;
        crc = crc ^ (frame[pos] as u16);
        let mut i: usize = 0;
        while i < 8
            invariant
                i <= 8,
                crc == crc_shifts(start ^ (frame@[pos as int] as u16), i as nat),
            decreases 8 - i,
        {
            if (crc & 0x0001) != 0 {
                crc = crc >> 1;
                crc = crc ^ 0xA001;
            } else {
                crc = crc >> 1;
            }
            i = i + 1;
        }
        proof {
            let s = frame@.subrange(0, pos + 1);
            assert(s.drop_last() =~= frame@.subrange(0, pos as int));
        }
        pos = pos + 1;
    }
    crc
}

} // verus!
