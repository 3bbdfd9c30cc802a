use vstd::prelude::*;

verus! {

/// Number of leading bytes that take part in the checksum.
pub const CRC_WINDOW: usize = 64;

/// One byte folded into the CRC register, then eight shift rounds.
pub open spec fn crc_shift(crc: u16) -> u16 {
    if crc & 0x8000u16 != 0 {
        ((crc & 0x7FFFu16) << 1u16) ^ 0x1021u16
    } else {
        (crc & 0x7FFFu16) << 1u16
    }
}

pub open spec fn crc_rounds(crc: u16, n: nat) -> u16
    decreases n,
{
    if n == 0 {
        crc
    } else {
        crc_rounds(crc_shift(crc), (n - 1) as nat)
    }
}

pub open spec fn crc_byte(crc: u16, b: u8) -> u16 {
    crc_rounds(crc ^ ((b as u16) << 8u16), 8)
}

/// CRC-16/CCITT (polynomial 0x1021, initial value 0) of a byte sequence.
pub open spec fn crc_of(s: Seq<u8>) -> u16
    decreases s.len(),
{
    if s.len() == 0 {
        0
    } else {
        crc_byte(crc_of(s.drop_last()), s.last())
    }
}

/// The checksum of the bootloader protocol: the CRC of the first 64 bytes.
pub open spec fn checksum(data: Seq<u8>) -> u16 {
    crc_of(data.take(CRC_WINDOW as int))
}

/// CRC-16/CCITT over the first 64 bytes of `data`; bytes past them are ignored.
pub fn crc16_ccitt(data: &[u8]) -> (r: u16)
    requires
        data@.len() >= CRC_WINDOW,
    ensures
        r == checksum(data@),
{
    let mut crc: u16 = 0x0000;
    let mut i: usize = 0;
    while i < CRC_WINDOW
        invariant
            i <= CRC_WINDOW,
            data@.len() >= CRC_WINDOW,
            crc == crc_of(data@.take(i as int)),
        decreases CRC_WINDOW - i,
    {
        let byte = data[i];
        crc = crc ^ ((byte as u16) << 8u16);
        let mut round: usize = 0;
        while round < 8
            invariant
                round <= 8,
                crc_rounds(crc, (8 - round) as nat) == crc_byte(crc_of(data@.take(i as int)), byte),
            decreases 8 - round,
        {
            let msb_set = (crc & 0x8000u16) != 0;
            crc = (crc & 0x7FFFu16) << 1u16;
            if msb_set {
                crc = crc ^ 0x1021u16;
            }
            round = round + 1;
        }
        assert(data@.take(i as int + 1).drop_last() =~= data@.take(i as int));
        i = i + 1;
    }
    crc
}

/// The checksum reads only the first 64 bytes: any input of at least 64 bytes
/// has the checksum of its first 64 bytes.
pub proof fn lemma_checksum_window(data: Seq<u8>)
    requires
        data.len() >= CRC_WINDOW,
    ensures
        checksum(data) == checksum(data.take(CRC_WINDOW as int)),
{
    assert(data.take(CRC_WINDOW as int).take(CRC_WINDOW as int) =~= data.take(CRC_WINDOW as int));
}

/// Two inputs that agree on their first 64 bytes have the same checksum; in
/// particular the same 64-byte block always yields the same value.
pub proof fn lemma_checksum_same_block(a: Seq<u8>, b: Seq<u8>)
    requires
        a.len() >= CRC_WINDOW,
        b.len() >= CRC_WINDOW,
        a.take(CRC_WINDOW as int) == b.take(CRC_WINDOW as int),
    ensures
        checksum(a) == checksum(b),
{
}

} // verus!
