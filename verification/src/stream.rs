//! From captures to timing offsets: the packets of a stream, its
//! synchronization points, and the offsets between the synchronization
//! points of two streams.

use vstd::math::min;
use vstd::prelude::*;
use crate::tsdump::{
    block_count, circular_diff, clock_tick, diff_fits, header, nth_block, ticks_to_microseconds,
    ts_diff, ts_to_us, TsDump, BLOCK_LEN, BLOCK_SIZE, MAX_TS,
};
use crate::{block_process, block_records, filter_data, is_sync_point, record, PacketData};

verus! {

/// Packet `k` of a stream: packets are counted through the blocks, seven to
/// a block.
pub open spec fn nth_record(bytes: Seq<u8>, k: int) -> PacketData {
    let block = nth_block(bytes, k / (BLOCK_SIZE as int));
    record(clock_tick(block), header(block, k % (BLOCK_SIZE as int)))
}

/// The packets of all whole blocks of a stream, in order.
pub open spec fn stream_records(bytes: Seq<u8>) -> Seq<PacketData> {
    Seq::new(block_count(bytes) * (BLOCK_SIZE as nat), |k: int| nth_record(bytes, k))
}

/// The packets of a stream are the packets of its blocks, block after
/// block: those of block `k` stand at the positions from `k * BLOCK_SIZE`.
pub proof fn lemma_stream_records_by_block(bytes: Seq<u8>, k: int)
    requires
        0 <= k < block_count(bytes),
    ensures
        stream_records(bytes).len() == block_count(bytes) * BLOCK_SIZE,
        stream_records(bytes).subrange(k * BLOCK_SIZE, (k + 1) * BLOCK_SIZE) == block_records(
            clock_tick(nth_block(bytes, k)),
            nth_block(bytes, k),
        ),
{
    assert(BLOCK_SIZE == 7);
    assert(stream_records(bytes).subrange(k * BLOCK_SIZE, (k + 1) * BLOCK_SIZE) =~= block_records(
        clock_tick(nth_block(bytes, k)),
        nth_block(bytes, k),
    ));
}

/// The synchronization points among `records`, in order.
pub open spec fn sync_points_of(records: Seq<PacketData>) -> Seq<PacketData> {
    records.filter(|x: PacketData| is_sync_point(x))
}

/// Whether every record carries a reading of the clock.
pub open spec fn on_clock(records: Seq<PacketData>) -> bool {
    forall|i: int| 0 <= i < records.len() ==> (#[trigger] records[i]).0 <= MAX_TS
}

/// Offset in whole microseconds from packet `b` to packet `a`.
pub open spec fn offset_us(a: PacketData, b: PacketData) -> int {
    ticks_to_microseconds(circular_diff(a.0, b.0))
}

/// The offsets between two sequences of packets paired by position: the
/// first with the first, the second with the second, as far as both reach.
/// Between clock readings every offset fits the element type.
pub open spec fn paired_offsets(a: Seq<PacketData>, b: Seq<PacketData>) -> Seq<i32> {
    Seq::new(min(a.len() as int, b.len() as int) as nat, |i: int| offset_us(a[i], b[i]) as i32)
}

/// The offsets between the synchronization points of two captures.
pub open spec fn capture_offsets(capture_a: Seq<u8>, capture_b: Seq<u8>) -> Seq<i32> {
    paired_offsets(
        sync_points_of(stream_records(capture_a)),
        sync_points_of(stream_records(capture_b)),
    )
}

/// Reads all blocks that are left and returns their packets.
pub fn packets(dump: &mut TsDump) -> (out: Vec<PacketData>)
    requires
        old(dump).wf(),
    ensures
        final(dump).wf(),
        final(dump)@ == old(dump)@.drained(),
        out@ == stream_records(old(dump)@.unread),
        on_clock(out@),
{
    let mut out: Vec<PacketData> = Vec::new();
    let ghost bytes = dump@.unread;
    let ghost mut k: int = 0;
    loop
        invariant
            dump.wf(),
            0 <= k <= block_count(bytes),
            bytes == old(dump)@.unread,
            dump@.unread == bytes.skip(k * BLOCK_LEN),
            k == 0 ==> dump@ == old(dump)@,
            k > 0 ==> {
                &&& !dump@.ts_init
                &&& dump@.ts == clock_tick(nth_block(bytes, k - 1))
            },
            out@ == stream_records(bytes).take(k * BLOCK_SIZE),
        ensures
            k == block_count(bytes),
        decreases block_count(bytes) - k,
    {
        proof {
            assert(BLOCK_LEN == 32 && BLOCK_SIZE == 7);
            assert(block_count(bytes) == bytes.len() / 32);
            assert(k * 32 <= bytes.len());
            assert(dump@.unread.len() == bytes.len() - k * 32);
        }
        match dump.next() {
            None => {
                break ;
            },
            Some(block) => {
                proof {
                    assert(k + 1 <= block_count(bytes));
                    assert(block@.data =~= nth_block(bytes, k));
                    assert(bytes.skip(k * BLOCK_LEN).skip(BLOCK_LEN as int) =~= bytes.skip(
                        (k + 1) * BLOCK_LEN,
                    ));
                }
                let mut recs = block_process(block);
                out.append(&mut recs);
                proof {
                    lemma_stream_records_by_block(bytes, k);
                    assert(out@ =~= stream_records(bytes).take((k + 1) * BLOCK_SIZE));
                    k = k + 1;
                }
            },
        }
    }
    proof {
        assert(out@ =~= stream_records(bytes));
    }
    out
}

/// Keeps the synchronization points among `records`, in order.
pub fn sync_points(records: &[PacketData]) -> (out: Vec<PacketData>)
    ensures
        out@ == sync_points_of(records@),
        on_clock(records@) ==> on_clock(out@),
{
    let mut out: Vec<PacketData> = Vec::new();
    proof {
        assert(records@.take(0) =~= Seq::<PacketData>::empty());
        reveal(Seq::filter);
    }
    for i in 0..records.len()
        invariant
            out@ == sync_points_of(records@.take(i as int)),
            on_clock(records@) ==> on_clock(out@),
    {
        let x: PacketData = records[i];
        proof {
            assert(records@.take(i + 1) =~= records@.take(i as int).push(x));
            records@.take(i as int).lemma_filter_push(x, |x: PacketData| is_sync_point(x));
        }
        if filter_data(&x) {
            out.push(x);
        }
    }
    proof {
        assert(records@.take(records@.len() as int) =~= records@);
    }
    out
}

/// Offset in whole microseconds from packet `b` to packet `a`.
pub fn pair_offset(a: PacketData, b: PacketData) -> (us: i32)
    requires
        diff_fits(a.0, b.0),
    ensures
        us == offset_us(a, b),
{
    ts_to_us(ts_diff(a.0, b.0))
}

/// The offsets between two sequences of packets paired by position.
/// Packets of the longer sequence that have no partner are left out.
pub fn pair_offsets(a: &[PacketData], b: &[PacketData]) -> (out: Vec<i32>)
    requires
        forall|i: int| 0 <= i < a@.len() && i < b@.len() ==> diff_fits(a@[i].0, b@[i].0),
    ensures
        out@ == paired_offsets(a@, b@),
        out@.len() == min(a@.len() as int, b@.len() as int),
{
    let n: usize = if a.len() <= b.len() { a.len() } else { b.len() };
    let mut out: Vec<i32> = Vec::new();
    for i in 0..n
        invariant
            n == min(a@.len() as int, b@.len() as int),
            forall|i: int| 0 <= i < a@.len() && i < b@.len() ==> diff_fits(a@[i].0, b@[i].0),
            out@ == paired_offsets(a@, b@).take(i as int),
    {
        out.push(pair_offset(a[i], b[i]));
    }
    out
}

/// The offsets, in whole microseconds, between the synchronization points
/// of two captures, paired by position.
pub fn timing_offsets(capture_a: &[u8], capture_b: &[u8]) -> (out: Vec<i32>)
    ensures
        out@ == capture_offsets(capture_a@, capture_b@),
{
    let mut dump_a = TsDump::build(capture_a);
    let mut dump_b = TsDump::build(capture_b);
    let points_a = sync_points(packets(&mut dump_a).as_slice());
    let points_b = sync_points(packets(&mut dump_b).as_slice());
    pair_offsets(points_a.as_slice(), points_b.as_slice())
}

} // verus!
