//! The out-of-band control channel for extracting the producer's trace.
//!
//! The instrumentation trace can be arbitrarily large, so it is never
//! transferred speculatively. The consuming domain first issues a count
//! request (command 0): the producer reports how many entries it holds as a
//! 4-byte little-endian word and latches that count. A bulk fetch (command
//! 1) then returns exactly `latched_count` encoded records, self-consistent
//! even if more entries were appended between the two requests. Any other
//! command is a contract violation and fails that request alone.

use crate::timestamp::{
    lemma_encode_decode_round_trip, spec_decode, spec_encode, wire_wf, Timestamp,
    TimestampRecorder,
};
use vstd::bytes::{spec_u32_to_le_bytes, u32_to_le_bytes};
use vstd::prelude::*;

verus! {

/// Unrecognized control-channel command tag; fatal to that single request,
/// not to the session.
#[derive(Copy, Clone, Debug, PartialEq, Eq, Structural)]
pub struct ProtocolError;

/// The command number carried in the low bits of an ioctl-style request
/// word.
pub fn command_nr(cmd: u32) -> (nr: u32)
    ensures
        nr == cmd % 256,
{
    proof {
        assert(cmd & 0xff == cmd % 256) by (bit_vector);
    }
    cmd & 0xff
}

/// An ioctl-style command word: two direction bits, a 14-bit size, and
/// 8-bit type and number fields, packed as the command transport numbers
/// its requests.
pub fn ioc(dir: u32, typ: u32, nr: u32, size: u32) -> (r: u64)
    requires
        dir < 4,
        typ < 256,
        nr < 256,
        size < 16384,
    ensures
        r == dir * 0x4000_0000 + size * 0x1_0000 + typ * 0x100 + nr,
{
    let res: u32 = (dir << 30u32) | (typ << 8u32) | (nr << 0u32) | (size << 16u32);
    proof {
        assert((dir << 30u32) | (typ << 8u32) | (nr << 0u32) | (size << 16u32) == dir * 0x4000_0000
            + size * 0x1_0000 + typ * 0x100 + nr) by (bit_vector)
            requires
                dir < 4,
                typ < 256,
                nr < 256,
                size < 16384,
        ;
    }
    res as u64
}

/// A read/write command word.
pub fn iorw(typ: u32, nr: u32, size: u32) -> (r: u64)
    requires
        typ < 256,
        nr < 256,
        size < 16384,
    ensures
        r == 3 * 0x4000_0000 + size * 0x1_0000 + typ * 0x100 + nr,
{
    ioc(3, typ, nr, size)
}

/// A read command word.
pub fn ior(typ: u32, nr: u32, size: u32) -> (r: u64)
    requires
        typ < 256,
        nr < 256,
        size < 16384,
    ensures
        r == 2 * 0x4000_0000 + size * 0x1_0000 + typ * 0x100 + nr,
{
    ioc(2, typ, nr, size)
}

/// A command word with no data direction.
pub fn ion(typ: u32, nr: u32, size: u32) -> (r: u64)
    requires
        typ < 256,
        nr < 256,
        size < 16384,
    ensures
        r == size * 0x1_0000 + typ * 0x100 + nr,
{
    ioc(0, typ, nr, size)
}

/// Producer-side state of the two-phase query protocol: the entry count
/// latched by the last count request.
pub struct ControlChannel {
    latched: usize,
}

impl ControlChannel {
    /// The count latched by the last count request (zero before any).
    pub closed spec fn spec_latched(&self) -> int {
        self.latched as int
    }

    /// A channel with no count latched yet.
    pub fn new() -> (ch: ControlChannel)
        ensures
            ch.spec_latched() == 0,
    {
        ControlChannel { latched: 0 }
    }

    /// Command 0: reports the number of entries currently recorded as a
    /// 4-byte little-endian word and latches that count for the next fetch.
    pub fn count_request(&mut self, rcder: &TimestampRecorder) -> (reply: Vec<u8>)
        requires
            rcder@.len() <= u32::MAX,
        ensures
            final(self).spec_latched() == rcder@.len(),
            reply@ == spec_u32_to_le_bytes(rcder@.len() as u32),
            reply@.len() == 4,
    {
        let len = rcder.len();
        self.latched = len;
        let reply = u32_to_le_bytes(len as u32);
        proof {
            vstd::bytes::lemma_auto_spec_u32_to_from_le_bytes();
        }
        reply
    }

    /// Command 1: writes exactly the latched number of encoded records —
    /// the entries that were present when the count was latched, 18 bytes
    /// each — regardless of how many were appended since.
    pub fn fetch_request(&self, rcder: &TimestampRecorder) -> (reply: Vec<u8>)
        requires
            self.spec_latched() <= rcder@.len(),
        ensures
            reply@ == spec_encode(rcder@.take(self.spec_latched())),
            reply@.len() == 18 * self.spec_latched(),
    {
        rcder.encode_prefix(self.latched)
    }

    /// Dispatches one request by its command number: 0 latches and reports
    /// the count, 1 is the bulk fetch, and any other command fails loudly
    /// with `ProtocolError`, touching nothing.
    pub fn handle_request(&mut self, cmd: u32, rcder: &TimestampRecorder) -> (r: Result<
        Vec<u8>,
        ProtocolError,
    >)
        requires
            rcder@.len() <= u32::MAX,
            old(self).spec_latched() <= rcder@.len(),
        ensures
            r is Ok <==> cmd % 256 < 2,
            cmd % 256 == 0 ==> {
                &&& final(self).spec_latched() == rcder@.len()
                &&& r->Ok_0@ == spec_u32_to_le_bytes(rcder@.len() as u32)
            },
            cmd % 256 == 1 ==> {
                &&& *final(self) == *old(self)
                &&& r->Ok_0@ == spec_encode(rcder@.take(old(self).spec_latched()))
            },
            cmd % 256 >= 2 ==> *final(self) == *old(self) && r == Err::<
                Vec<u8>,
                ProtocolError,
            >(ProtocolError),
    {
        let nr = command_nr(cmd);
        if nr == 0 {
            Ok(self.count_request(rcder))
        } else if nr == 1 {
            Ok(self.fetch_request(rcder))
        } else {
            Err(ProtocolError)
        }
    }
}

/// Latched count consistency: appending entries after the count request
/// does not disturb the latched prefix, and a bulk fetch of that prefix
/// returns exactly `at_latch.len()` well-formed records which decode back
/// to the entries that were present at latch time.
pub proof fn lemma_latched_fetch_consistent(at_latch: Seq<Timestamp>, later: Seq<Timestamp>)
    ensures
        (at_latch + later).take(at_latch.len() as int) == at_latch,
        spec_encode(at_latch).len() == 18 * at_latch.len(),
        wire_wf(spec_encode(at_latch)),
        spec_decode(spec_encode(at_latch)) == at_latch,
{
    assert((at_latch + later).take(at_latch.len() as int) =~= at_latch);
    lemma_encode_decode_round_trip(at_latch);
}

} // verus!
