//! The block layout of a capture, its clock, and the block decoder.

use vstd::prelude::*;
use vstd::slice::{slice_subrange, slice_to_vec};

verus! {

/// Number of packet headers in one block.
pub const BLOCK_SIZE: usize = 7;

/// Length in bytes of one packet header.
pub const HEADER_SIZE: usize = 4;

/// Offset of the clock field within a block.
pub const TS_OFFSET: usize = BLOCK_SIZE * HEADER_SIZE;

/// Length in bytes of one block: the headers and the clock field.
pub const BLOCK_LEN: usize = BLOCK_SIZE * HEADER_SIZE + 4;

/// Largest reading of the capture clock, a 27-bit counter.
pub const MAX_TS: u32 = 0x7FF_FFFF;

/// First byte of every well-formed packet header.
pub const SYNC_BYTE: u8 = 0x47;

/// Ticks of the capture clock per microsecond.
pub const TICKS_PER_US: i32 = 75;

/// Number of distinct clock readings: the clock wraps to zero after `MAX_TS`.
pub open spec fn modulus() -> int {
    MAX_TS + 1
}

/// The value of a 32-bit word read as a two's-complement number.
pub open spec fn as_signed(ts: u32) -> int {
    if ts <= i32::MAX {
        ts as int
    } else {
        ts - 0x1_0000_0000
    }
}

/// Signed distance from `ts2` to `ts1` along the shorter way round the clock.
///
/// For two clock readings, both at most `MAX_TS`, this is `ts1 - ts2` brought
/// into the range from `-modulus() / 2` to `modulus() / 2` by adding or
/// subtracting one turn of the clock. Words above `MAX_TS` enter the
/// difference by their two's-complement value.
pub open spec fn circular_diff(ts1: u32, ts2: u32) -> int {
    let d = as_signed(ts1) - as_signed(ts2);
    if d > modulus() / 2 {
        d - modulus()
    } else if d < -(modulus() / 2) {
        d + modulus()
    } else {
        d
    }
}

/// Whether the plain difference of the two words fits the result type.
/// Any two clock readings meet this.
pub open spec fn diff_fits(ts1: u32, ts2: u32) -> bool {
    i32::MIN <= as_signed(ts1) - as_signed(ts2) <= i32::MAX
}

/// A 32-bit word read as a two's-complement number.
fn signed_word(ts: u32) -> (r: i32)
    ensures
        r == as_signed(ts),
{
    let r: i32 = ts as i32;
    assert(ts <= 0x7FFF_FFFFu32 ==> ts as i32 == ts as int) by (bit_vector);
    assert(ts > 0x7FFF_FFFFu32 ==> ts as i32 == ts as int - 0x1_0000_0000) by (bit_vector);
    r
}

/// Circular difference of two clock readings, in ticks.
///
/// The plain difference of the two words has to fit the result, as that of
/// any two clock readings does.
pub fn ts_diff(ts1: u32, ts2: u32) -> (d: i32)
    requires
        diff_fits(ts1, ts2),
    ensures
        d == circular_diff(ts1, ts2),
{
    let half: i32 = 0x400_0000;
    let turn: i32 = 0x800_0000;
    let d: i32 = signed_word(ts1) - signed_word(ts2);
    if d > half {
        return d - turn;
    }
    if d < -half {
        return d + turn;
    }
    d
}

/// Swapping the two words negates their circular difference.
pub proof fn lemma_circular_diff_antisymmetric(a: u32, b: u32)
    ensures
        circular_diff(a, b) == -circular_diff(b, a),
{
}

/// A word has circular difference zero to itself.
pub proof fn lemma_circular_diff_self(a: u32)
    ensures
        circular_diff(a, a) == 0,
{
}

/// Two clock readings are never more than half a turn apart.
pub proof fn lemma_circular_diff_bounded(a: u32, b: u32)
    requires
        a <= MAX_TS,
        b <= MAX_TS,
    ensures
        diff_fits(a, b),
        -(modulus() / 2) <= circular_diff(a, b) <= modulus() / 2,
{
}

/// The circular difference of two clock readings is above minus half a turn
/// and at most half a turn, unless the second reading is exactly half a turn
/// ahead of the first: that difference stays at minus half a turn.
pub proof fn lemma_circular_diff_range(a: u32, b: u32)
    requires
        a <= MAX_TS,
        b <= MAX_TS,
        b - a != modulus() / 2,
    ensures
        -(modulus() / 2) < circular_diff(a, b) <= modulus() / 2,
{
}

/// The circular difference of two clock readings differs from their plain
/// difference by a whole number of turns: none, one forward or one back.
pub proof fn lemma_circular_diff_congruent(a: u32, b: u32)
    requires
        a <= MAX_TS,
        b <= MAX_TS,
    ensures
        (circular_diff(a, b) - (a - b)) % modulus() == 0,
        (b + circular_diff(a, b)) % modulus() == a,
{
    assert(modulus() == 0x800_0000);
}

/// Truncating division of a tick count by the clock rate.
pub open spec fn ticks_to_microseconds(ticks: int) -> int {
    if ticks >= 0 {
        ticks / (TICKS_PER_US as int)
    } else {
        -((-ticks) / (TICKS_PER_US as int))
    }
}

/// Converts a tick count to whole microseconds, rounding toward zero.
pub fn ts_to_us(ts: i32) -> (us: i32)
    ensures
        us == ticks_to_microseconds(ts as int),
{
    ts / TICKS_PER_US
}

/// The quotient of a tick count by the clock rate, rounded toward zero: the
/// remainder has the sign of the tick count and is less than one
/// microsecond.
pub proof fn lemma_ticks_to_microseconds_truncates(ticks: int)
    ensures
        ({
            let rest = ticks - TICKS_PER_US * ticks_to_microseconds(ticks);
            if ticks >= 0 {
                0 <= rest < TICKS_PER_US
            } else {
                -TICKS_PER_US < rest <= 0
            }
        }),
        ticks_to_microseconds(-ticks) == -ticks_to_microseconds(ticks),
{
}

/// The four bytes `b`, most significant first, as one number.
pub open spec fn be_word(b: Seq<u8>) -> int {
    b[0] * 0x100_0000 + b[1] * 0x1_0000 + b[2] * 0x100 + b[3]
}

/// The four bytes of a word, most significant first.
pub open spec fn be_bytes(word: u32) -> Seq<u8> {
    seq![
        (word / 0x100_0000) as u8,
        (word / 0x1_0000 % 0x100) as u8,
        (word / 0x100 % 0x100) as u8,
        (word % 0x100) as u8,
    ]
}

/// Reading the bytes of a word gives the word back.
pub proof fn lemma_be_word_of_bytes(word: u32)
    ensures
        be_bytes(word).len() == 4,
        be_word(be_bytes(word)) == word,
{
}

/// The clock field of a block, as stored: a 32-bit big-endian word.
pub open spec fn clock_word(block: Seq<u8>) -> int {
    be_word(block.subrange(TS_OFFSET as int, TS_OFFSET + 4))
}

/// The clock reading of a block: the low 27 bits of its clock field.
/// The five high bits of the field carry nothing.
pub open spec fn clock_tick(block: Seq<u8>) -> u32 {
    (clock_word(block) % modulus()) as u32
}

/// The bytes of packet header `i` of a block.
pub open spec fn header(block: Seq<u8>, i: int) -> Seq<u8> {
    block.subrange(HEADER_SIZE * i, HEADER_SIZE * i + HEADER_SIZE)
}

/// The block made of the given header bytes and clock reading.
pub open spec fn block_of(headers: Seq<u8>, ts: u32) -> Seq<u8> {
    headers + be_bytes(ts)
}

/// A block made of header bytes and a clock reading has the length of a
/// block, reads that clock, and holds those headers.
pub proof fn lemma_block_of(headers: Seq<u8>, ts: u32)
    requires
        headers.len() == TS_OFFSET,
        ts <= MAX_TS,
    ensures
        block_of(headers, ts).len() == BLOCK_LEN,
        clock_word(block_of(headers, ts)) == ts,
        clock_tick(block_of(headers, ts)) == ts,
        forall|i: int|
            0 <= i < BLOCK_SIZE ==> #[trigger] header(block_of(headers, ts), i) == header(
                headers,
                i,
            ),
{
    let block = block_of(headers, ts);
    lemma_be_word_of_bytes(ts);
    assert(block.subrange(TS_OFFSET as int, TS_OFFSET + 4) =~= be_bytes(ts));
    assert forall|i: int| 0 <= i < BLOCK_SIZE implies #[trigger] header(block, i) == header(
        headers,
        i,
    ) by {
        assert(header(block, i) =~= header(headers, i));
    }
}

/// Number of whole blocks in a stream. Bytes after the last whole block
/// are never decoded.
pub open spec fn block_count(bytes: Seq<u8>) -> nat {
    bytes.len() / (BLOCK_LEN as nat)
}

/// The bytes of block `k` of a stream.
pub open spec fn nth_block(bytes: Seq<u8>, k: int) -> Seq<u8> {
    bytes.subrange(k * BLOCK_LEN, k * BLOCK_LEN + BLOCK_LEN)
}

/// Reads the clock field of a block.
pub fn extract_ts(data: &[u8]) -> (ts: u32)
    requires
        data@.len() >= TS_OFFSET + 4,
    ensures
        ts == clock_word(data@),
{
    let ts_data = slice_subrange(data, TS_OFFSET, TS_OFFSET + 4);
    let b0: u32 = ts_data[0] as u32;
    let b1: u32 = ts_data[1] as u32;
    let b2: u32 = ts_data[2] as u32;
    let b3: u32 = ts_data[3] as u32;
    assert((b3 << 0 | b2 << 8 | b1 << 16 | b0 << 24) == b0 * 0x100_0000 + b1 * 0x1_0000 + b2
        * 0x100 + b3) by (bit_vector)
        requires
            b0 < 256,
            b1 < 256,
            b2 < 256,
            b3 < 256,
    ;
    b3 << 0 | b2 << 8 | b1 << 16 | b0 << 24
}

/// One decoded block: its bytes and the corrected clock reading.
#[derive(Debug)]
pub struct TsBlock {
    /// The corrected clock reading.
    pub ts: u32,
    /// The bytes of the block, headers first.
    pub(crate) data: Vec<u8>,
}

/// What a decoded block holds.
pub struct TsBlockView {
    /// The corrected clock reading.
    pub ts: u32,
    /// The bytes of the block.
    pub data: Seq<u8>,
}

impl View for TsBlock {
    type V = TsBlockView;

    open(crate) spec fn view(&self) -> TsBlockView {
        TsBlockView { ts: self.ts, data: self.data@ }
    }
}

impl TsBlock {
    /// A block holds exactly `BLOCK_LEN` bytes.
    pub open spec fn wf(&self) -> bool {
        self@.data.len() == BLOCK_LEN
    }

    /// The four bytes of packet header `i`.
    pub fn packet(&self, i: usize) -> (p: &[u8])
        requires
            self.wf(),
            i < BLOCK_SIZE,
        ensures
            p@ == header(self@.data, i as int),
    {
        let start: usize = HEADER_SIZE * i;
        let end: usize = start + HEADER_SIZE;
        slice_subrange(self.data.as_slice(), start, end)
    }
}

impl Default for TsBlock {
    /// A block of zero bytes with clock reading zero.
    fn default() -> (block: TsBlock)
        ensures
            block.wf(),
            block@.ts == 0,
            block@.data == Seq::new(BLOCK_LEN as nat, |i: int| 0u8),
    {
        TsBlock { ts: 0, data: vec![0; BLOCK_LEN] }
    }
}

/// Reader of a capture: the bytes of one stream and the state of its clock
/// corrector.
pub struct TsDump {
    source: Vec<u8>,
    pos: usize,
    ts_init: bool,
    ts: u32,
    ts_prev: u32,
}

/// What a reader holds.
#[verifier::ext_equal]
pub struct TsDumpView {
    /// The bytes of the stream that have not been read yet.
    pub unread: Seq<u8>,
    /// Set until the first block has been decoded.
    pub ts_init: bool,
    /// The corrected clock reading of the last block.
    pub ts: u32,
    /// The clock reading of the last block as it was stored.
    pub ts_prev: u32,
}

impl TsDumpView {
    /// Both readings lie on the clock, and the corrected one has kept up with
    /// the stored one.
    pub open spec fn consistent(self) -> bool {
        self.ts <= MAX_TS && self.ts_prev == self.ts
    }

    /// Whether a whole block is left to read.
    pub open spec fn has_block(self) -> bool {
        self.unread.len() >= BLOCK_LEN
    }

    /// The corrected reading after a block whose clock reads `raw`.
    ///
    /// The first block of a stream sets both readings to `raw`. Then the
    /// corrected reading moves by the circular difference between `raw` and
    /// the previous stored reading, and wraps with the clock.
    pub open spec fn corrected(self, raw: u32) -> u32 {
        let ts = if self.ts_init { raw } else { self.ts };
        let ts_prev = if self.ts_init { raw } else { self.ts_prev };
        ((ts + circular_diff(raw, ts_prev)) % modulus()) as u32
    }

    /// The state after the block `data` has been decoded.
    pub open spec fn after_block(self, data: Seq<u8>) -> TsDumpView {
        TsDumpView {
            unread: self.unread,
            ts_init: false,
            ts: self.corrected(clock_tick(data)),
            ts_prev: clock_tick(data),
        }
    }

    /// The state after every whole block has been read and decoded: the
    /// readings are those of the last block, and what is left is shorter
    /// than a block.
    pub open spec fn drained(self) -> TsDumpView {
        let n = block_count(self.unread);
        if n == 0 {
            self
        } else {
            let last = clock_tick(nth_block(self.unread, n - 1));
            TsDumpView {
                unread: self.unread.skip(n * BLOCK_LEN),
                ts_init: false,
                ts: last,
                ts_prev: last,
            }
        }
    }

    /// The state after the next block has been read and decoded.
    pub open spec fn after_read(self) -> TsDumpView {
        TsDumpView {
            unread: self.unread.skip(BLOCK_LEN as int),
            ..self.after_block(self.unread.take(BLOCK_LEN as int))
        }
    }
}

impl View for TsDump {
    type V = TsDumpView;

    closed spec fn view(&self) -> TsDumpView {
        TsDumpView {
            unread: self.source@.skip(self.pos as int),
            ts_init: self.ts_init,
            ts: self.ts,
            ts_prev: self.ts_prev,
        }
    }
}

/// The corrected reading of a block is its own clock reading, whatever
/// blocks came before it.
pub proof fn lemma_corrected_is_raw(state: TsDumpView, raw: u32)
    requires
        state.consistent(),
        raw <= MAX_TS,
    ensures
        state.corrected(raw) == raw,
{
    lemma_circular_diff_congruent(raw, if state.ts_init { raw } else { state.ts_prev });
}

/// The five high bits of the clock field can be dropped before the
/// correction: from two fields taken whole, the corrector arrives at the
/// low 27 bits of the later one, as it does from their low 27 bits alone.
pub proof fn lemma_high_bits_unused(ts: u32, prev_word: u32, word: u32)
    requires
        ts as int % modulus() == prev_word as int % modulus(),
    ensures
        (ts + circular_diff(word, prev_word)) % modulus() == word as int % modulus(),
{
    assert(modulus() == 0x800_0000);
}

impl TsDump {
    /// The read position lies within the source.
    pub closed spec fn in_bounds(&self) -> bool {
        self.pos <= self.source@.len()
    }

    /// What every reader made by `build` keeps through its life.
    pub open spec fn wf(&self) -> bool {
        self.in_bounds() && self@.consistent()
    }

    /// A reader at the start of `source`, with no block decoded yet.
    pub fn build(source: &[u8]) -> (dump: TsDump)
        ensures
            dump.wf(),
            dump@ == (TsDumpView { unread: source@, ts_init: true, ts: 0, ts_prev: 0 }),
    {
        TsDump { source: slice_to_vec(source), pos: 0, ts_prev: 0, ts_init: true, ts: 0 }
    }

    /// Decodes one block: corrects the clock reading and keeps the bytes.
    pub fn parse_block(&mut self, data: Vec<u8>) -> (block: TsBlock)
        requires
            old(self).wf(),
            data@.len() == BLOCK_LEN,
        ensures
            final(self).wf(),
            final(self)@ == old(self)@.after_block(data@),
            block.wf(),
            block@.data == data@,
            block@.ts == final(self)@.ts,
            block@.ts == clock_tick(data@),
    {
        let word: u32 = extract_ts(data.as_slice());
        let ts: u32 = word & MAX_TS;
        assert(word & 0x7FF_FFFF == word % 0x800_0000) by (bit_vector);
        if self.ts_init {
            self.ts = ts;
            self.ts_prev = ts;
            self.ts_init = false;
        }
        let delta: i32 = ts_diff(ts, self.ts_prev);
        let sum: u32 = self.ts.wrapping_add_signed(delta);
        assert(sum & 0x7FF_FFFF == sum % 0x800_0000) by (bit_vector);
        self.ts = sum & MAX_TS;
        self.ts_prev = ts;
        TsBlock { ts: self.ts, data }
    }

    /// Reads the next block, if a whole block is left.
    ///
    /// A shorter remainder ends the stream: nothing is read, now or later.
    pub fn next(&mut self) -> (r: Option<TsBlock>)
        requires
            old(self).wf(),
        ensures
            final(self).wf(),
            r is Some <==> old(self)@.has_block(),
            r is None ==> final(self)@ == old(self)@,
            r matches Some(block) ==> {
                &&& final(self)@ == old(self)@.after_read()
                &&& block.wf()
                &&& block@.data == old(self)@.unread.take(BLOCK_LEN as int)
                &&& block@.ts == clock_tick(block@.data)
            },
    {
        if self.source.len() - self.pos < BLOCK_LEN {
            return None;
        }
        let end: usize = self.pos + BLOCK_LEN;
        let data = slice_to_vec(slice_subrange(self.source.as_slice(), self.pos, end));
        proof {
            assert(data@ =~= self@.unread.take(BLOCK_LEN as int));
            assert(self.source@.skip(end as int) =~= self@.unread.skip(BLOCK_LEN as int));
        }
        self.pos = end;
        let block = self.parse_block(data);
        Some(block)
    }
}

} // verus!
