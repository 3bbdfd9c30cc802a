use feeflash::bootloader::{
    bootloader_magic, firmware_frames, magic_step, FrameTransport, HandshakeAction,
    TransportAction, FRAME_MAX_RETRIES,
};
use feeflash::link::{check_single_ack, ProtocolError, Reply, ACK, NAK};

fn byte(b: u8) -> Reply {
    Reply::Bytes { count: 1, first: b }
}

/// Runs one frame delivery against a responder that answers NAK `k` times and
/// then ACK; gives the outcome and the number of frames written.
fn deliver_with_naks(k: usize, max_retries: u8) -> (TransportAction, u16) {
    let mut t = FrameTransport::new(max_retries);
    let mut naks_left = k;
    loop {
        let reply = if naks_left > 0 {
            naks_left -= 1;
            byte(NAK)
        } else {
            byte(ACK)
        };
        match t.on_reply(reply) {
            TransportAction::Resend => continue,
            other => return (other, t.attempts),
        }
    }
}

#[test]
fn transport_succeeds_within_retry_bound() {
    for k in 0..=5usize {
        let (action, attempts) = deliver_with_naks(k, FRAME_MAX_RETRIES);
        assert_eq!(action, TransportAction::Done);
        assert_eq!(attempts as usize, k + 1);
    }
}

#[test]
fn transport_gives_up_past_retry_bound() {
    for k in 6..=9usize {
        let (action, attempts) = deliver_with_naks(k, FRAME_MAX_RETRIES);
        assert_eq!(action, TransportAction::Fail(ProtocolError::RetryExhausted { attempts: 6 }));
        assert_eq!(attempts, 6);
    }
}

#[test]
fn transport_zero_retries() {
    assert_eq!(deliver_with_naks(0, 0).0, TransportAction::Done);
    assert_eq!(
        deliver_with_naks(1, 0).0,
        TransportAction::Fail(ProtocolError::RetryExhausted { attempts: 1 })
    );
}

#[test]
fn transport_largest_retry_bound() {
    assert_eq!(deliver_with_naks(255, 255), (TransportAction::Done, 256));
    assert_eq!(
        deliver_with_naks(256, 255).0,
        TransportAction::Fail(ProtocolError::RetryExhausted { attempts: 256 })
    );
}

#[test]
fn transport_other_replies_fail_at_once() {
    let mut t = FrameTransport::new(5);
    assert_eq!(
        t.on_reply(byte(0x42)),
        TransportAction::Fail(ProtocolError::UnexpectedResponse { got: 0x42 })
    );
    let mut t = FrameTransport::new(5);
    assert_eq!(
        t.on_reply(Reply::Bytes { count: 0, first: 0 }),
        TransportAction::Fail(ProtocolError::Framing { count: 0 })
    );
    let mut t = FrameTransport::new(5);
    assert_eq!(
        t.on_reply(Reply::Bytes { count: 2, first: ACK }),
        TransportAction::Fail(ProtocolError::Framing { count: 2 })
    );
    let mut t = FrameTransport::new(5);
    assert_eq!(t.on_reply(Reply::TimedOut), TransportAction::Fail(ProtocolError::Timeout));
    assert_eq!(t.attempts, 1);
}

#[test]
fn empty_image_is_invalid_input() {
    assert_eq!(firmware_frames(&[]).err(), Some(ProtocolError::InvalidInput));
}

#[test]
fn image_of_130_bytes_gives_three_frames() {
    let data: Vec<u8> = (0..130u32).map(|i| i as u8).collect();
    let frames = firmware_frames(&data).unwrap();
    assert_eq!(frames.len(), 3);
    let indices: Vec<u8> = frames.iter().map(|f| f.index).collect();
    assert_eq!(indices, vec![1, 2, 3]);
    let last: Vec<bool> = frames.iter().map(|f| f.is_last).collect();
    assert_eq!(last, vec![false, false, true]);
    assert_eq!(&frames[0].data[..], &data[0..64]);
    assert_eq!(&frames[1].data[..], &data[64..128]);
    assert_eq!(&frames[2].data[..2], &data[128..130]);
    assert!(frames[2].data[2..].iter().all(|&b| b == 0xFF));
    assert!(frames.iter().all(|f| f.unknown_byte == 0));
    let raw = frames[2].to_bytes();
    assert_eq!(raw[0], 3);
    assert_eq!(raw[1], 0xFC);
    assert_eq!(raw[67], 0x3E);
    assert_eq!(raw[68], 0xF5);
    assert_eq!(raw[69], 4);
}

#[test]
fn image_of_exact_chunks_has_no_padding_frame() {
    let frames = firmware_frames(&[7u8; 128]).unwrap();
    assert_eq!(frames.len(), 2);
    assert!(frames[1].is_last);
    assert_eq!(frames[1].data, [7u8; 64]);
}

#[test]
fn single_byte_image() {
    let frames = firmware_frames(&[0x42]).unwrap();
    assert_eq!(frames.len(), 1);
    assert_eq!(frames[0].index, 1);
    assert!(frames[0].is_last);
    assert_eq!(frames[0].data[0], 0x42);
    assert_eq!(frames[0].data[1], 0xFF);
}

#[test]
fn frame_index_wraps_after_255() {
    let data = vec![0u8; 64 * 257];
    let frames = firmware_frames(&data).unwrap();
    assert_eq!(frames.len(), 257);
    assert_eq!(frames[254].index, 255);
    assert_eq!(frames[255].index, 0);
    assert_eq!(frames[256].index, 1);
    assert!(frames[256].is_last);
    assert!(!frames[255].is_last);
}

#[test]
fn magic_is_1fbva() {
    assert_eq!(&bootloader_magic(), b"1fBVA");
}

#[test]
fn handshake_acks_after_timeouts() {
    let n = 4;
    let mut writes = 0;
    let mut progress_marks = 0;
    loop {
        writes += 1;
        let reply = if writes <= n { Reply::TimedOut } else { byte(ACK) };
        match magic_step(reply, 0, None) {
            HandshakeAction::Again { progress } => {
                if progress {
                    progress_marks += 1;
                }
            }
            HandshakeAction::Done => break,
            HandshakeAction::Fail(e) => panic!("unexpected failure {:?}", e),
        }
    }
    assert_eq!(writes, n + 1);
    assert_eq!(progress_marks, n);
}

#[test]
fn handshake_fails_after_deadline() {
    let limit = 500u64;
    let mut elapsed = 0u64;
    let outcome = loop {
        match magic_step(Reply::TimedOut, elapsed, Some(limit)) {
            HandshakeAction::Again { .. } => elapsed += 100,
            other => break other,
        }
    };
    assert_eq!(outcome, HandshakeAction::Fail(ProtocolError::Timeout));
    assert_eq!(elapsed, 500);
}

#[test]
fn handshake_ignores_other_bytes() {
    assert_eq!(magic_step(byte(0x15), 10, None), HandshakeAction::Again { progress: false });
    assert_eq!(
        magic_step(Reply::Bytes { count: 2, first: ACK }, 10, Some(100)),
        HandshakeAction::Again { progress: false }
    );
    assert_eq!(magic_step(byte(ACK), 1000, Some(100)), HandshakeAction::Done);
}

#[test]
fn init_ack_outcomes() {
    assert_eq!(check_single_ack(byte(ACK)), Ok(()));
    assert_eq!(check_single_ack(Reply::TimedOut), Err(ProtocolError::Timeout));
    assert_eq!(
        check_single_ack(Reply::Bytes { count: 3, first: ACK }),
        Err(ProtocolError::Framing { count: 3 })
    );
    assert_eq!(
        check_single_ack(byte(0x15)),
        Err(ProtocolError::UnexpectedResponse { got: 0x15 })
    );
}
