use vstd::prelude::*;

use crate::link::{ProtocolError, Reply};

verus! {

/// Read timeout while pinging one given address, in milliseconds.
pub const PING_TIMEOUT_MS: u64 = 100;

/// Read timeout per address during a scan, in milliseconds.
pub const SCAN_TIMEOUT_MS: u64 = 30;

/// Read timeout restored after a scan, in milliseconds.
pub const NORMAL_TIMEOUT_MS: u64 = 10000;

/// First byte of a command packet; the header is this byte twice.
pub const PACKET_HEADER: u8 = 0xFF;

/// Instruction that asks a device to answer.
pub const INSTRUCTION_PING: u8 = 0x01;

/// Instruction that reboots a device into its bootloader.
pub const INSTRUCTION_REBOOT: u8 = 0x08;

/// Largest unicast address; the next one is the broadcast address.
pub const MAX_UNICAST_ID: u8 = 253;

/// Longest parameter list whose length still fits the one-byte length field.
pub const MAX_PARAMS: usize = 253;

/// Sum of the bytes of `s`, as a mathematical integer.
pub open spec fn byte_sum(s: Seq<u8>) -> nat
    decreases s.len(),
{
    if s.len() == 0 {
        0
    } else {
        byte_sum(s.drop_last()) + s.last() as nat
    }
}

/// Complement of the low byte of the sum of `body`.
pub open spec fn packet_checksum(body: Seq<u8>) -> u8 {
    !((byte_sum(body) % 256) as u8)
}

/// Address, length, instruction and parameters: the bytes the checksum covers.
pub open spec fn packet_body(id: u8, instruction: u8, params: Seq<u8>) -> Seq<u8> {
    seq![id, (params.len() + 2) as u8, instruction] + params
}

/// The wire form of a command packet.
pub open spec fn dyn_packet(id: u8, instruction: u8, params: Seq<u8>) -> Seq<u8> {
    let body = packet_body(id, instruction, params);
    seq![PACKET_HEADER, PACKET_HEADER] + body + seq![packet_checksum(body)]
}

/// Builds a command packet: header, address, length, instruction, parameters
/// and checksum.
pub fn build_dyn_packet(id: u8, instruction: u8, params: &[u8]) -> (r: Vec<u8>)
    requires
        params@.len() <= MAX_PARAMS,
    ensures
        r@ == dyn_packet(id, instruction, params@),
        r@.len() == params@.len() + 6,
        r@[3] == params@.len() + 2,
{
    let length: u8 = (params.len() as u8) + 2;
    let mut packet: Vec<u8> = Vec::with_capacity(6 + params.len());
    packet.push(PACKET_HEADER);
    packet.push(PACKET_HEADER);
    packet.push(id);
    packet.push(length);
    packet.push(instruction);
    let ghost body = packet_body(id, instruction, params@);
    let mut sum: u32 = id as u32 + length as u32 + instruction as u32;
    assert(body.take(3) =~= seq![id, length, instruction]);
    assert(byte_sum(body.take(3)) == sum) by {
        let t = body.take(3);
        assert(t.drop_last().drop_last().drop_last() =~= Seq::<u8>::empty());
        assert(t.drop_last().drop_last() =~= seq![id]);
        assert(t.drop_last() =~= seq![id, length]);
        reveal_with_fuel(byte_sum, 4);
    }
    let mut i: usize = 0;
    while i < params.len()
        invariant
            i <= params@.len() <= MAX_PARAMS,
            body == packet_body(id, instruction, params@),
            length == params@.len() + 2,
            packet@ == seq![PACKET_HEADER, PACKET_HEADER] + body.take(3 + i as int),
            sum == byte_sum(body.take(3 + i as int)),
            sum <= 255 * (3 + i),
        decreases params@.len() - i,
    {
        let b = params[i];
        packet.push(b);
        sum = sum + b as u32;
        assert(body.take(3 + i + 1).drop_last() =~= body.take(3 + i as int));
        assert(body[3 + i as int] == b);
        assert(packet@ =~= seq![PACKET_HEADER, PACKET_HEADER] + body.take(3 + i + 1));
        i = i + 1;
    }
    assert(body.take(3 + i as int) =~= body);
    let checksum: u8 = !((sum % 256) as u8);
    packet.push(checksum);
    assert(packet@ =~= dyn_packet(id, instruction, params@));
    packet
}

/// The ping packet for address `id`.
pub fn ping_packet(id: u8) -> (r: Vec<u8>)
    ensures
        r@ == dyn_packet(id, INSTRUCTION_PING, seq![]),
{
    let params: [u8; 0] = [];
    build_dyn_packet(id, INSTRUCTION_PING, params.as_slice())
}

/// The reboot packet for address `id`.
pub fn reboot_packet(id: u8) -> (r: Vec<u8>)
    ensures
        r@ == dyn_packet(id, INSTRUCTION_REBOOT, seq![]),
{
    let params: [u8; 0] = [];
    build_dyn_packet(id, INSTRUCTION_REBOOT, params.as_slice())
}

/// Judges the reply to a ping: any non-empty read means the device answered,
/// whatever it holds. Gives the number of bytes read.
pub fn check_ping_reply(reply: Reply) -> (r: Result<usize, ProtocolError>)
    ensures
        match reply {
            Reply::TimedOut => r == Err::<usize, ProtocolError>(ProtocolError::Timeout),
            Reply::Bytes { count, .. } => if count == 0 {
                r == Err::<usize, ProtocolError>(ProtocolError::Framing { count: 0 })
            } else {
                r == Ok::<usize, ProtocolError>(count)
            },
        },
{
    match reply {
        Reply::TimedOut => Err(ProtocolError::Timeout),
        Reply::Bytes { count, .. } => {
            if count == 0 {
                Err(ProtocolError::Framing { count: 0 })
            } else {
                Ok(count)
            }
        },
    }
}

// ---------------------------------------------------------------------------
// Device discovery

/// Number of addresses a scan probes: every unicast address.
pub const SCAN_TOTAL: u16 = 254;

/// The address a scan probes once `next` addresses have been probed.
pub open spec fn scan_next(next: nat) -> Option<u8> {
    if next <= MAX_UNICAST_ID {
        Some(next as u8)
    } else {
        None
    }
}

/// Progress of a scan over the unicast addresses 0 to 253.
pub struct IdScan {
    /// Addresses probed so far; the next address to probe.
    pub next: u16,
    /// Addresses that answered, in the order they were probed.
    pub found: Vec<u8>,
}

impl IdScan {
    pub open spec fn wf(&self) -> bool {
        &&& self.next <= SCAN_TOTAL
        &&& forall|i: int, j: int| 0 <= i < j < self.found@.len() ==> self.found@[i] < self.found@[j]
        &&& forall|i: int| 0 <= i < self.found@.len() ==> self.found@[i] < self.next
    }

    /// A scan that has probed nothing yet.
    pub fn new() -> (r: IdScan)
        ensures
            r.next == 0,
            r.found@ == Seq::<u8>::empty(),
            r.wf(),
    {
        IdScan { next: 0, found: Vec::new() }
    }

    /// The address to probe next, or `None` once every unicast address has been
    /// probed. The broadcast address 254 is never probed.
    pub fn next_id(&self) -> (r: Option<u8>)
        ensures
            r == scan_next(self.next as nat),
    {
        if self.next <= MAX_UNICAST_ID as u16 {
            Some(self.next as u8)
        } else {
            None
        }
    }

    /// Records whether the address just probed answered.
    pub fn record(&mut self, responded: bool)
        requires
            old(self).wf(),
            old(self).next <= MAX_UNICAST_ID,
        ensures
            final(self).wf(),
            final(self).next == old(self).next + 1,
            final(self).found@ == if responded {
                old(self).found@.push(old(self).next as u8)
            } else {
                old(self).found@
            },
    {
        if responded {
            self.found.push(self.next as u8);
        }
        self.next = self.next + 1;
    }

    /// Number of addresses probed so far.
    pub fn scanned(&self) -> (r: u16)
        ensures
            r == self.next,
    {
        self.next
    }

    /// The addresses that answered, in ascending order.
    pub fn into_found(self) -> (r: Vec<u8>)
        ensures
            r@ == self.found@,
    {
        self.found
    }
}

/// The addresses a scan probes, from `next` on, when the answers to its probes
/// are `responses` in turn; it stops when the addresses or the answers run out.
pub open spec fn scan_probes(next: nat, responses: Seq<bool>) -> Seq<u8>
    decreases responses.len(),
{
    match scan_next(next) {
        None => Seq::empty(),
        Some(id) => if responses.len() == 0 {
            Seq::empty()
        } else {
            seq![id] + scan_probes(next + 1, responses.drop_first())
        },
    }
}

proof fn lemma_scan_probes_from(next: nat, responses: Seq<bool>)
    requires
        next <= SCAN_TOTAL,
        responses.len() + next >= SCAN_TOTAL,
    ensures
        scan_probes(next, responses) =~= Seq::new((SCAN_TOTAL - next) as nat, |i: int| (next + i) as u8),
    decreases responses.len(),
{
    if next < SCAN_TOTAL {
        lemma_scan_probes_from(next + 1, responses.drop_first());
    }
}

/// A full scan probes every address from 0 to 253 exactly once, in ascending
/// order, and never the broadcast address 254.
pub proof fn lemma_scan_order(responses: Seq<bool>)
    requires
        responses.len() >= SCAN_TOTAL,
    ensures
        scan_probes(0, responses) == Seq::new(SCAN_TOTAL as nat, |i: int| i as u8),
        !scan_probes(0, responses).contains(254u8),
{
    lemma_scan_probes_from(0, responses);
    assert(scan_probes(0, responses) =~= Seq::new(SCAN_TOTAL as nat, |i: int| i as u8));
    let p = scan_probes(0, responses);
    if p.contains(254u8) {
        let k = choose|k: int| 0 <= k < p.len() && p[k] == 254u8;
        assert(p[k] == k as u8);
    }
}

} // verus!
