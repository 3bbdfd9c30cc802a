use vstd::prelude::*;

use crate::frame::{BootloaderFrame, FRAME_PAYLOAD_LEN};
use crate::link::{ProtocolError, Reply, ACK, NAK};

verus! {

/// Resends allowed for one frame after its first attempt.
pub const FRAME_MAX_RETRIES: u8 = 5;

/// Byte that pads the final, short chunk of a firmware image.
pub const FILL_BYTE: u8 = 0xFF;

/// Byte that asks the bootloader to prepare for a transfer.
pub const INIT_BYTE: u8 = 0x01;

/// The sequence "1fBVA" that makes the device enter its bootloader.
pub open spec fn magic_bytes() -> Seq<u8> {
    seq![0x31u8, 0x66u8, 0x42u8, 0x56u8, 0x41u8]
}

/// The magic sequence, sent repeatedly until the bootloader acknowledges it.
pub fn bootloader_magic() -> (r: [u8; 5])
    ensures
        r@ == magic_bytes(),
{
    let m: [u8; 5] = [0x31u8, 0x66u8, 0x42u8, 0x56u8, 0x41u8];
    assert(m@ =~= magic_bytes());
    m
}

// ---------------------------------------------------------------------------
// Reliable frame transport

/// What the transport asks of its caller after a reply.
#[derive(Clone, Copy, Debug, PartialEq, Eq, Structural)]
pub enum TransportAction {
    /// Write the same frame again and read the next reply.
    Resend,
    /// The frame was acknowledged.
    Done,
    /// The frame failed; give up.
    Fail(ProtocolError),
}

/// Retry state of the delivery of one frame.
#[derive(Clone, Copy, Debug, PartialEq, Eq, Structural)]
pub struct FrameTransport {
    pub max_retries: u8,
    /// Attempts made so far, that is frames written.
    pub attempts: u16,
}

impl FrameTransport {
    pub open spec fn initial(max_retries: u8) -> FrameTransport {
        FrameTransport { max_retries, attempts: 0 }
    }

    /// Another attempt is still allowed.
    pub open spec fn wf(&self) -> bool {
        self.attempts <= self.max_retries
    }

    /// A transport for one frame, before its first attempt.
    pub fn new(max_retries: u8) -> (r: FrameTransport)
        ensures
            r == FrameTransport::initial(max_retries),
            r.wf(),
    {
        FrameTransport { max_retries, attempts: 0 }
    }

    /// Records the reply to the frame just written and says what to do next.
    pub fn on_reply(&mut self, reply: Reply) -> (r: TransportAction)
        requires
            old(self).wf(),
        ensures
            (*final(self), r) == transport_step(*old(self), reply),
            final(self).attempts == old(self).attempts + 1,
            r == TransportAction::Resend ==> final(self).wf(),
    {
        self.attempts = self.attempts + 1;
        match reply {
            Reply::TimedOut => TransportAction::Fail(ProtocolError::Timeout),
            Reply::Bytes { count, first } => {
                if count != 1 {
                    TransportAction::Fail(ProtocolError::Framing { count })
                } else if first == ACK {
                    TransportAction::Done
                } else if first == NAK {
                    if self.attempts > self.max_retries as u16 {
                        TransportAction::Fail(ProtocolError::RetryExhausted { attempts: self.attempts })
                    } else {
                        TransportAction::Resend
                    }
                } else {
                    TransportAction::Fail(ProtocolError::UnexpectedResponse { got: first })
                }
            },
        }
    }
}

/// One attempt: the frame was written and `reply` came back. ACK succeeds; NAK
/// resends while attempts remain; anything else fails at once.
pub open spec fn transport_step(t: FrameTransport, reply: Reply) -> (FrameTransport, TransportAction) {
    let n = FrameTransport { max_retries: t.max_retries, attempts: (t.attempts + 1) as u16 };
    let a = match reply {
        Reply::TimedOut => TransportAction::Fail(ProtocolError::Timeout),
        Reply::Bytes { count, first } => if count != 1 {
            TransportAction::Fail(ProtocolError::Framing { count })
        } else if first == ACK {
            TransportAction::Done
        } else if first == NAK {
            if n.attempts > t.max_retries {
                TransportAction::Fail(ProtocolError::RetryExhausted { attempts: n.attempts })
            } else {
                TransportAction::Resend
            }
        } else {
            TransportAction::Fail(ProtocolError::UnexpectedResponse { got: first })
        },
    };
    (n, a)
}

/// Feeds `replies` to the transport, one per attempt, until it stops resending.
pub open spec fn transport_run(t: FrameTransport, replies: Seq<Reply>) -> (FrameTransport, TransportAction)
    decreases replies.len(),
{
    if replies.len() == 0 {
        (t, TransportAction::Resend)
    } else {
        let (n, a) = transport_step(t, replies[0]);
        if a == TransportAction::Resend {
            transport_run(n, replies.drop_first())
        } else {
            (n, a)
        }
    }
}

/// `k` negative acknowledgments followed by one positive acknowledgment.
pub open spec fn naks_then_ack(k: nat) -> Seq<Reply> {
    Seq::new(k, |i: int| Reply::Bytes { count: 1, first: NAK }) + seq![
        Reply::Bytes { count: 1, first: ACK },
    ]
}

proof fn lemma_naks_from(t: FrameTransport, j: nat)
    requires
        t.wf(),
    ensures
        t.attempts + j <= t.max_retries ==> transport_run(t, naks_then_ack(j)) == (
        FrameTransport { max_retries: t.max_retries, attempts: (t.attempts + j + 1) as u16 },
        TransportAction::Done),
        t.attempts + j > t.max_retries ==> transport_run(t, naks_then_ack(j)).1
            == TransportAction::Fail(ProtocolError::RetryExhausted { attempts: (t.max_retries + 1) as u16 }),
    decreases j,
{
    let replies = naks_then_ack(j);
    if j > 0 {
        let (n, a) = transport_step(t, replies[0]);
        assert(replies.drop_first() =~= naks_then_ack((j - 1) as nat));
        if a == TransportAction::Resend {
            lemma_naks_from(n, (j - 1) as nat);
        }
    }
}

/// A frame that the device refuses `k` times and then accepts is delivered
/// after `k + 1` attempts when `k` is within the retry bound; otherwise the
/// transport gives up after `max_retries + 1` attempts.
pub proof fn lemma_retry_bound(max_retries: u8, k: nat)
    ensures
        k <= max_retries ==> transport_run(FrameTransport::initial(max_retries), naks_then_ack(k)) == (
        FrameTransport { max_retries, attempts: (k + 1) as u16 },
        TransportAction::Done),
        k > max_retries ==> transport_run(FrameTransport::initial(max_retries), naks_then_ack(k)).1
            == TransportAction::Fail(ProtocolError::RetryExhausted { attempts: (max_retries + 1) as u16 }),
{
    lemma_naks_from(FrameTransport::initial(max_retries), k);
}

// ---------------------------------------------------------------------------
// Firmware chunking

/// Number of 64-byte chunks of an image of `len` bytes.
pub open spec fn chunk_count(len: nat) -> nat {
    (len + 63) / 64
}

/// Payload of chunk `c`: its bytes of the image, padded with 0xFF to 64 bytes.
pub open spec fn chunk_payload(data: Seq<u8>, c: int) -> Seq<u8> {
    Seq::new(
        64,
        |j: int|
            if c * 64 + j < data.len() {
                data[c * 64 + j]
            } else {
                FILL_BYTE
            },
    )
}

/// `f` is the frame that carries chunk `c` of `data`: index `c + 1` modulo
/// 256, reserved byte 0, and the last flag on the final chunk only.
pub open spec fn is_chunk_frame(f: BootloaderFrame, data: Seq<u8>, c: int) -> bool {
    &&& f.index == ((c + 1) % 256) as u8
    &&& f.unknown_byte == 0
    &&& f.data@ == chunk_payload(data, c)
    &&& f.is_last == (c + 1 == chunk_count(data.len()))
}

/// The frames of a whole firmware image, in the order they are sent.
pub open spec fn are_image_frames(frames: Seq<BootloaderFrame>, data: Seq<u8>) -> bool {
    &&& frames.len() == chunk_count(data.len())
    &&& forall|c: int| 0 <= c < frames.len() ==> is_chunk_frame(#[trigger] frames[c], data, c)
}

/// Splits a firmware image into the frames that carry it. An empty image is
/// refused before anything is sent.
pub fn firmware_frames(data: &[u8]) -> (r: Result<Vec<BootloaderFrame>, ProtocolError>)
    ensures
        data@.len() == 0 <==> r is Err,
        match r {
            Ok(frames) => are_image_frames(frames@, data@),
            Err(e) => e == ProtocolError::InvalidInput,
        },
{
    if data.len() == 0 {
        return Err(ProtocolError::InvalidInput);
    }
    let total: usize = (data.len() - 1) / 64 + 1;
    let mut frames: Vec<BootloaderFrame> = Vec::new();
    let mut c: usize = 0;
    while c < total
        invariant
            c <= total,
            total == chunk_count(data@.len()),
            data@.len() > 0,
            frames@.len() == c,
            forall|k: int| 0 <= k < c ==> is_chunk_frame(#[trigger] frames@[k], data@, k),
        decreases total - c,
    {
        assert(c * 64 < data@.len()) by (nonlinear_arith)
            requires
                c < total,
                total == (data@.len() - 1) / 64 + 1,
                data@.len() > 0,
        ;
        assert(data@.len() == data.len());
        let start: usize = c * 64;
        let mut payload = [FILL_BYTE; 64];
        let mut j: usize = 0;
        while j < FRAME_PAYLOAD_LEN
            invariant
                j <= FRAME_PAYLOAD_LEN,
                start == c * 64,
                c < total,
                total == chunk_count(data@.len()),
                payload@.len() == 64,
                forall|k: int| 0 <= k < j ==> payload@[k] == #[trigger] chunk_payload(data@, c as int)[k],
                forall|k: int| j <= k < 64 ==> payload@[k] == FILL_BYTE,
            decreases FRAME_PAYLOAD_LEN - j,
        {
            if j < data.len() - start {
                payload[j] = data[start + j];
            }
            j = j + 1;
        }
        assert(payload@ =~= chunk_payload(data@, c as int));
        let frame = BootloaderFrame {
            index: ((c + 1) % 256) as u8,
            unknown_byte: 0,
            data: payload,
            is_last: c + 1 == total,
        };
        frames.push(frame);
        c = c + 1;
    }
    Ok(frames)
}

// ---------------------------------------------------------------------------
// Magic handshake

/// What the handshake asks of its caller after a reply to the magic sequence.
#[derive(Clone, Copy, Debug, PartialEq, Eq, Structural)]
pub enum HandshakeAction {
    /// Write the magic sequence again; `progress` asks for a progress mark.
    Again { progress: bool },
    /// The bootloader acknowledged.
    Done,
    /// The deadline passed without an acknowledgment.
    Fail(ProtocolError),
}

/// One round of the handshake: `reply` answered the magic sequence, `elapsed_ms`
/// milliseconds after the handshake began. A single 0x06 succeeds; otherwise
/// the handshake fails once a deadline is set and reached, and goes on if not.
pub open spec fn handshake_step(reply: Reply, elapsed_ms: u64, max_wait_ms: Option<u64>) -> HandshakeAction {
    if reply == (Reply::Bytes { count: 1, first: ACK }) {
        HandshakeAction::Done
    } else if max_wait_ms is Some && elapsed_ms >= max_wait_ms->Some_0 {
        HandshakeAction::Fail(ProtocolError::Timeout)
    } else {
        HandshakeAction::Again { progress: reply == Reply::TimedOut }
    }
}

/// Decides one round of the magic handshake.
pub fn magic_step(reply: Reply, elapsed_ms: u64, max_wait_ms: Option<u64>) -> (r: HandshakeAction)
    ensures
        r == handshake_step(reply, elapsed_ms, max_wait_ms),
{
    let acked = match reply {
        Reply::Bytes { count, first } => count == 1 && first == ACK,
        Reply::TimedOut => false,
    };
    if acked {
        return HandshakeAction::Done;
    }
    match max_wait_ms {
        Some(limit) => {
            if elapsed_ms >= limit {
                return HandshakeAction::Fail(ProtocolError::Timeout);
            }
        },
        None => {},
    }
    let timed_out = match reply {
        Reply::TimedOut => true,
        Reply::Bytes { .. } => false,
    };
    HandshakeAction::Again { progress: timed_out }
}

/// Runs the handshake over `events`, one (reply, elapsed time) pair per write of
/// the magic sequence, until it stops. Gives the number of writes and the last
/// action.
pub open spec fn handshake_run(events: Seq<(Reply, u64)>, max_wait_ms: Option<u64>) -> (nat, HandshakeAction)
    decreases events.len(),
{
    if events.len() == 0 {
        (0, HandshakeAction::Again { progress: false })
    } else {
        let a = handshake_step(events[0].0, events[0].1, max_wait_ms);
        if a is Again {
            let (n, last) = handshake_run(events.drop_first(), max_wait_ms);
            (n + 1, last)
        } else {
            (1, a)
        }
    }
}

pub open spec fn before_deadline(elapsed_ms: u64, max_wait_ms: Option<u64>) -> bool {
    max_wait_ms is None || elapsed_ms < max_wait_ms->Some_0
}

/// A device that times out `n` times, each before any deadline, and then
/// acknowledges, completes the handshake on the write `n + 1`.
pub proof fn lemma_handshake_acks_after_timeouts(
    events: Seq<(Reply, u64)>,
    n: nat,
    max_wait_ms: Option<u64>,
)
    requires
        events.len() == n + 1,
        forall|i: int| 0 <= i < n ==> (#[trigger] events[i]).0 == Reply::TimedOut,
        forall|i: int| 0 <= i < n ==> before_deadline((#[trigger] events[i]).1, max_wait_ms),
        events[n as int].0 == (Reply::Bytes { count: 1, first: ACK }),
    ensures
        handshake_run(events, max_wait_ms) == (n + 1, HandshakeAction::Done),
    decreases n,
{
    if n > 0 {
        let rest = events.drop_first();
        assert(events[0].0 == Reply::TimedOut);
        assert(before_deadline(events[0].1, max_wait_ms));
        assert forall|i: int| 0 <= i < (n - 1) as nat implies (#[trigger] rest[i]).0 == Reply::TimedOut
            && before_deadline(rest[i].1, max_wait_ms) by {
            assert(rest[i] == events[i + 1]);
        }
        lemma_handshake_acks_after_timeouts(rest, (n - 1) as nat, max_wait_ms);
    }
}

/// A device that never acknowledges makes the handshake fail with a timeout
/// once a set deadline has passed.
pub proof fn lemma_handshake_deadline(events: Seq<(Reply, u64)>, limit: u64)
    requires
        events.len() > 0,
        forall|i: int| 0 <= i < events.len() ==> (#[trigger] events[i]).0 != (Reply::Bytes {
            count: 1,
            first: ACK,
        }),
        events.last().1 >= limit,
    ensures
        handshake_run(events, Some(limit)).1 == HandshakeAction::Fail(ProtocolError::Timeout),
        handshake_run(events, Some(limit)).0 <= events.len(),
    decreases events.len(),
{
    let a = handshake_step(events[0].0, events[0].1, Some(limit));
    if a is Again && events.len() > 1 {
        let rest = events.drop_first();
        assert forall|i: int| 0 <= i < rest.len() implies (#[trigger] rest[i]).0 != (Reply::Bytes {
            count: 1,
            first: ACK,
        }) by {
            assert(rest[i] == events[i + 1]);
        }
        lemma_handshake_deadline(rest, limit);
    }
}

} // verus!
