use vstd::prelude::*;

use crate::crc::{checksum, crc16_ccitt};

verus! {

/// Number of firmware bytes carried by one frame.
pub const FRAME_PAYLOAD_LEN: usize = 64;

/// Length of an encoded frame on the wire.
pub const FRAME_LEN: usize = 70;

/// Stop marker of the final frame of a transfer.
pub const STOP_LAST: u8 = 4;

/// Stop marker of a frame that more frames follow.
pub const STOP_MORE: u8 = 6;

/// One bootloader frame before encoding.
pub struct BootloaderFrame {
    pub index: u8,
    pub unknown_byte: u8,
    pub data: [u8; 64],
    pub is_last: bool,
}

/// Index, inverse index, reserved byte and payload: the first 67 bytes of a frame.
pub open spec fn frame_head(index: u8, reserved: u8, payload: Seq<u8>) -> Seq<u8> {
    seq![index, !index, reserved] + payload
}

pub open spec fn stop_marker(is_last: bool) -> u8 {
    if is_last {
        STOP_LAST
    } else {
        STOP_MORE
    }
}

/// The 70 wire bytes of a frame: the head, the big-endian checksum of the
/// head's first 64 bytes, and the stop marker.
pub open spec fn encode_frame(index: u8, reserved: u8, payload: Seq<u8>, is_last: bool) -> Seq<u8> {
    let head = frame_head(index, reserved, payload);
    let c = checksum(head);
    head + seq![(c >> 8u16) as u8, (c & 0xFFu16) as u8, stop_marker(is_last)]
}

impl BootloaderFrame {
    pub open spec fn wire(&self) -> Seq<u8> {
        encode_frame(self.index, self.unknown_byte, self.data@, self.is_last)
    }

    /// The 70-byte raw frame expected by the bootloader.
    pub fn to_bytes(&self) -> (r: [u8; 70])
        ensures
            r@ == self.wire(),
            r@.len() == FRAME_LEN,
            r[0] == self.index,
            r[1] == !r[0],
            r[2] == self.unknown_byte,
            r@.subrange(3, 67) == self.data@,
            r[69] == STOP_LAST <==> self.is_last,
            r[69] == STOP_MORE <==> !self.is_last,
    {
        let mut frame = [0u8; 70];
        frame[0] = self.index;
        frame[1] = !self.index;
        frame[2] = self.unknown_byte;
        let mut i: usize = 0;
        while i < FRAME_PAYLOAD_LEN
            invariant
                i <= FRAME_PAYLOAD_LEN,
                frame@.len() == FRAME_LEN,
                frame@.take(3) == seq![self.index, !self.index, self.unknown_byte],
                frame@.subrange(3, 3 + i as int) == self.data@.take(i as int),
            decreases FRAME_PAYLOAD_LEN - i,
        {
            frame[3 + i] = self.data[i];
            assert(frame@.take(3) =~= seq![self.index, !self.index, self.unknown_byte]);
            assert(frame@.subrange(3, 3 + i + 1) =~= self.data@.take(i + 1));
            i = i + 1;
        }
        let ghost head = frame_head(self.index, self.unknown_byte, self.data@);
        assert(frame@.take(67) =~= head) by {
            assert(self.data@.take(64) =~= self.data@);
        }
        assert(frame@.take(64) =~= head.take(64));
        let crc = crc16_ccitt(frame.as_slice());
        let crc_high = (crc >> 8u16) as u8;
        let crc_low = (crc & 0xFFu16) as u8;
        frame[67] = crc_high;
        frame[68] = crc_low;
        frame[69] = if self.is_last { STOP_LAST } else { STOP_MORE };
        assert(frame@ =~= self.wire());
        frame
    }
}

} // verus!
