use vstd::prelude::*;

verus! {

/// Positive acknowledgment byte.
pub const ACK: u8 = 0x06;

/// Negative acknowledgment byte: the frame is to be sent again.
pub const NAK: u8 = 0x15;

/// What one read of the device's reply produced.
#[derive(Clone, Copy, Debug, PartialEq, Eq, Structural)]
pub enum Reply {
    /// The read returned `count` bytes; `first` is the first of them when
    /// `count > 0`.
    Bytes { count: usize, first: u8 },
    /// Nothing arrived within the read timeout.
    TimedOut,
}

/// The errors of the protocol.
#[derive(Clone, Copy, Debug, PartialEq, Eq, Structural)]
pub enum ProtocolError {
    /// No reply within the configured window, or the handshake deadline passed.
    Timeout,
    /// A byte outside the expected set arrived.
    UnexpectedResponse { got: u8 },
    /// The device refused one frame on every allowed attempt.
    RetryExhausted { attempts: u16 },
    /// A read returned `count` bytes where another count was expected.
    Framing { count: usize },
    /// The firmware image is empty.
    InvalidInput,
}

/// The outcome of a reply that must be exactly one acknowledgment byte.
pub open spec fn single_ack_outcome(reply: Reply) -> Result<(), ProtocolError> {
    match reply {
        Reply::TimedOut => Err(ProtocolError::Timeout),
        Reply::Bytes { count, first } => if count != 1 {
            Err(ProtocolError::Framing { count })
        } else if first != ACK {
            Err(ProtocolError::UnexpectedResponse { got: first })
        } else {
            Ok(())
        },
    }
}

/// Accepts a reply of exactly one byte 0x06 and reports any other reply.
pub fn check_single_ack(reply: Reply) -> (r: Result<(), ProtocolError>)
    ensures
        r == single_ack_outcome(reply),
        r is Ok <==> reply == (Reply::Bytes { count: 1, first: ACK }),
{
    match reply {
        Reply::TimedOut => Err(ProtocolError::Timeout),
        Reply::Bytes { count, first } => {
            if count != 1 {
                Err(ProtocolError::Framing { count })
            } else if first != ACK {
                Err(ProtocolError::UnexpectedResponse { got: first })
            } else {
                Ok(())
            }
        },
    }
}

} // verus!
