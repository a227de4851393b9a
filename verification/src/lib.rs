//! Timing offsets between two captures of the same transport stream.
//!
//! A capture is a sequence of fixed-size blocks. Each block carries the
//! four-byte headers of seven transport-stream packets and the reading of a
//! 27-bit hardware clock taken when the block was stored.

use vstd::prelude::*;
use crate::tsdump::{
    block_of, header, lemma_block_of, lemma_corrected_is_raw, TsBlock, TsDumpView, BLOCK_LEN,
    BLOCK_SIZE, HEADER_SIZE, MAX_TS, SYNC_BYTE,
};

pub mod stream;
pub mod tsdump;

verus! {

/// One packet of a capture: the corrected clock reading of its block, its
/// packet identifier and its continuity counter.
pub type PacketData = (u32, u32, u32);

/// Packet identifier of the program association table.
pub const PAT_PID: u32 = 0;

/// Largest packet identifier, a 13-bit number.
pub const MAX_PID: u32 = 0x1FFF;

/// Largest continuity counter, a 4-bit number.
pub const MAX_CC: u32 = 0x0F;

/// The 13-bit packet identifier in a packet header: the low five bits of
/// the second byte, followed by the third byte.
pub open spec fn packet_id(header: Seq<u8>) -> int {
    (header[1] % 32) * 256 + header[2]
}

/// The 4-bit continuity counter in a packet header: the low half of the
/// fourth byte.
pub open spec fn continuity_counter(header: Seq<u8>) -> int {
    (header[3] % 16) as int
}

/// The record of the packet with header `header` in a block whose clock
/// reads `ts`.
pub open spec fn record(ts: u32, header: Seq<u8>) -> PacketData {
    (ts, packet_id(header) as u32, continuity_counter(header) as u32)
}

/// The records of the packets of one block, in the order of their headers.
pub open spec fn block_records(ts: u32, block: Seq<u8>) -> Seq<PacketData> {
    Seq::new(BLOCK_SIZE as nat, |i: int| record(ts, header(block, i)))
}

/// A synchronization point: a packet of the program association table whose
/// continuity counter is zero.
pub open spec fn is_sync_point(x: PacketData) -> bool {
    x.1 == PAT_PID && x.2 == 0
}

/// Decodes a packet header into packet identifier and continuity counter.
/// The sync byte in front is not looked at.
pub fn parse_packet(packet: &[u8]) -> (r: (u32, u32))
    requires
        packet@.len() >= HEADER_SIZE,
    ensures
        r.0 == packet_id(packet@),
        r.1 == continuity_counter(packet@),
        r.0 <= MAX_PID,
        r.1 <= MAX_CC,
{
    let b1: u8 = packet[1];
    let b2: u8 = packet[2];
    let b3: u8 = packet[3];
    let pid: u32 = ((b1 & 0x1f) as u32) << 8 | (b2 as u32);
    let cc: u8 = b3 & 0x0f;
    assert((((b1 & 0x1f) as u32) << 8 | (b2 as u32)) == (b1 % 32) * 256 + b2) by (bit_vector);
    assert(b3 & 0x0f == b3 % 16) by (bit_vector);
    (pid, cc as u32)
}

/// The records of the packets of a block, in the order of their headers.
pub fn block_process(block: TsBlock) -> (ret: Vec<PacketData>)
    requires
        block.wf(),
    ensures
        ret@ == block_records(block@.ts, block@.data),
{
    let mut ret: Vec<PacketData> = Vec::new();
    for i in 0..BLOCK_SIZE
        invariant
            block.wf(),
            ret@ == block_records(block@.ts, block@.data).take(i as int),
    {
        let (pid, cc) = parse_packet(block.packet(i));
        ret.push((block.ts, pid, cc));
    }
    ret
}

/// Tells whether a packet is a synchronization point.
pub fn filter_data(x: &PacketData) -> (keep: bool)
    ensures
        keep == is_sync_point(*x),
{
    if x.1 == PAT_PID && x.2 == 0 {
        true
    } else {
        false
    }
}

/// The header of a packet with identifier `pid` and continuity counter
/// `cc`: the sync byte, then the two fields with every other bit clear.
pub open spec fn header_bytes(pid: u32, cc: u32) -> Seq<u8> {
    seq![SYNC_BYTE, (pid / 0x100) as u8, (pid % 0x100) as u8, cc as u8]
}

/// The headers of `packets`, each an identifier and a continuity counter,
/// one after the other.
pub open spec fn headers_of(packets: Seq<(u32, u32)>) -> Seq<u8> {
    Seq::new(
        packets.len() * (HEADER_SIZE as nat),
        |j: int|
            header_bytes(packets[j / (HEADER_SIZE as int)].0, packets[j / (HEADER_SIZE as int)].1)[j
                % (HEADER_SIZE as int)],
    )
}

/// Decoding the header made for an identifier and a continuity counter
/// gives both back.
pub proof fn lemma_header_roundtrip(pid: u32, cc: u32)
    requires
        pid <= MAX_PID,
        cc <= MAX_CC,
    ensures
        header_bytes(pid, cc).len() == HEADER_SIZE,
        packet_id(header_bytes(pid, cc)) == pid,
        continuity_counter(header_bytes(pid, cc)) == cc,
{
}

/// Decoding a block built from a clock reading and seven packets gives the
/// reading and the packets back, wherever in a stream the block stands.
pub proof fn lemma_block_roundtrip(state: TsDumpView, ts: u32, packets: Seq<(u32, u32)>)
    requires
        state.consistent(),
        ts <= MAX_TS,
        packets.len() == BLOCK_SIZE,
        forall|i: int|
            0 <= i < packets.len() ==> (#[trigger] packets[i]).0 <= MAX_PID && packets[i].1
                <= MAX_CC,
    ensures
        ({
            let block = block_of(headers_of(packets), ts);
            &&& block.len() == BLOCK_LEN
            &&& state.after_block(block).ts == ts
            &&& block_records(ts, block) == Seq::new(
                BLOCK_SIZE as nat,
                |i: int| (ts, packets[i].0, packets[i].1),
            )
        }),
{
    let headers = headers_of(packets);
    let block = block_of(headers, ts);
    lemma_block_of(headers, ts);
    lemma_corrected_is_raw(state, ts);
    assert forall|i: int| 0 <= i < BLOCK_SIZE implies #[trigger] block_records(ts, block)[i] == (
        ts,
        packets[i].0,
        packets[i].1,
    ) by {
        lemma_header_roundtrip(packets[i].0, packets[i].1);
        assert(header(block, i) == header(headers, i));
        assert(header(headers, i) =~= header_bytes(packets[i].0, packets[i].1));
    }
    assert(block_records(ts, block) =~= Seq::new(
        BLOCK_SIZE as nat,
        |i: int| (ts, packets[i].0, packets[i].1),
    ));
}

} // verus!
