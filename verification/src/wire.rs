//! Framing of one probe round: the candidate values around a pivot, their
//! fixed-width encoding, and the order of operations on the connection.

use vstd::arithmetic::div_mod::{lemma_div_denominator, lemma_mod_breakdown, lemma_small_mod};
use vstd::arithmetic::power::{lemma_pow0, lemma_pow1, lemma_pow_adds, lemma_pow_positive, pow};
use vstd::prelude::*;

verus! {

/// Number of bytes that encode one candidate value.
pub const VALUE_WIDTH: usize = 16;

/// Number of bytes the oracle sends back once a batch is complete.
pub const REPLY_WIDTH: usize = 4;

/// The side of the pivot on which a batch lies.
#[derive(Clone, Copy, Debug, PartialEq, Eq, Structural)]
pub enum Direction {
    /// Candidates `pivot, pivot + 1, ...`.
    Increasing,
    /// Candidates `pivot, pivot - 1, ...`.
    Decreasing,
}

/// Number of values in the ring of candidates: `2^128`.
pub open spec fn space_size() -> int {
    0x1_0000_0000_0000_0000_0000_0000_0000_0000int
}

/// The candidate at distance `offset` from `pivot`, on the ring: sums past
/// the largest value continue at zero, differences below zero continue at
/// the largest value.
pub open spec fn ring_value(pivot: u128, direction: Direction, offset: u128) -> int {
    match direction {
        Direction::Increasing => (pivot + offset) % space_size(),
        Direction::Decreasing => (pivot - offset) % space_size(),
    }
}

/// On the ring, a sum that fits is the sum and a difference that fits is
/// the difference; a sum past the largest value starts again from zero, and
/// a difference below zero starts again from the largest value.
pub proof fn lemma_ring_value_wraps(pivot: u128, offset: u128)
    ensures
        ring_value(pivot, Direction::Increasing, offset) == if pivot + offset <= u128::MAX {
            pivot + offset
        } else {
            pivot + offset - space_size()
        },
        ring_value(pivot, Direction::Decreasing, offset) == if pivot >= offset {
            pivot - offset
        } else {
            pivot - offset + space_size()
        },
        0 <= ring_value(pivot, Direction::Increasing, offset) <= u128::MAX,
        0 <= ring_value(pivot, Direction::Decreasing, offset) <= u128::MAX,
{
}

/// Computes the candidate at distance `offset` from `pivot`.
pub fn probe_value(pivot: u128, direction: Direction, offset: u128) -> (value: u128)
    ensures
        value == ring_value(pivot, direction, offset),
{
    match direction {
        Direction::Increasing => pivot.wrapping_add(offset),
        Direction::Decreasing => pivot.wrapping_sub(offset),
    }
}

/// The digit of `value` at `place` in base 256, place zero being the least
/// significant.
pub open spec fn byte_at(value: nat, place: nat) -> u8 {
    ((value / pow(256, place) as nat) % 256) as u8
}

/// The big-endian encoding of `value` in `width` bytes: the most significant
/// digit comes first, the least significant last.
pub open spec fn be_bytes(value: nat, width: nat) -> Seq<u8> {
    Seq::new(width, |k: int| byte_at(value, (width - 1 - k) as nat))
}

/// The number that a sequence of bytes stands for when the most significant
/// digit comes first.
pub open spec fn be_value(bytes: Seq<u8>) -> nat
    decreases bytes.len(),
{
    if bytes.len() == 0 {
        0
    } else {
        be_value(bytes.drop_last()) * 256 + bytes.last() as nat
    }
}

/// Dividing once more by 256 moves one place up.
proof fn lemma_next_place(value: nat, place: nat)
    ensures
        pow(256, place) > 0,
        (value / pow(256, place) as nat) / 256 == value / pow(256, place + 1) as nat,
{
    lemma_pow_positive(256, place);
    lemma_pow_positive(256, place + 1);
    lemma_pow_adds(256, place, 1);
    lemma_pow1(256);
    lemma_div_denominator(value as int, pow(256, place), 256);
}

/// Encodes a candidate as sixteen bytes, most significant first.
pub fn encode_value(value: u128) -> (bytes: [u8; 16])
    ensures
        bytes@ == be_bytes(value as nat, 16),
{
    let mut bytes = [0u8; 16];
    let mut rest: u128 = value;
    let mut place: usize = 0;
    proof {
        lemma_pow0(256);
        assert(value as nat / 1 == value as nat);
    }
    while place < 16
        invariant
            place <= 16,
            rest as nat == value as nat / pow(256, place as nat) as nat,
            forall|k: int|
                16 - place <= k < 16 ==> #[trigger] bytes@[k] == byte_at(
                    value as nat,
                    (15 - k) as nat,
                ),
        decreases 16 - place,
    {
        proof {
            lemma_next_place(value as nat, place as nat);
        }
        bytes[15 - place] = (rest % 256) as u8;
        rest = rest / 256;
        place += 1;
    }
    assert(bytes@ =~= be_bytes(value as nat, 16));
    bytes
}

/// Whether `batch` holds the encodings of the first `count` candidates on
/// the given side of `pivot`, nearest first.
pub open spec fn is_probe_batch(
    batch: Seq<[u8; 16]>,
    pivot: u128,
    direction: Direction,
    count: u32,
) -> bool {
    &&& batch.len() == count
    &&& forall|k: int|
        0 <= k < count ==> (#[trigger] batch[k])@ == be_bytes(
            ring_value(pivot, direction, k as u128) as nat,
            16,
        )
}

/// Builds the batch of one probe round: `count` encoded candidates at
/// offsets `0, 1, ..., count - 1` from `pivot`, in that order.
pub fn probe_batch(pivot: u128, direction: Direction, count: u32) -> (batch: Vec<[u8; 16]>)
    ensures
        is_probe_batch(batch@, pivot, direction, count),
{
    let mut batch: Vec<[u8; 16]> = Vec::new();
    let mut offset: u32 = 0;
    while offset < count
        invariant
            offset <= count,
            is_probe_batch(batch@, pivot, direction, offset),
        decreases count - offset,
    {
        let value = probe_value(pivot, direction, offset as u128);
        batch.push(encode_value(value));
        offset += 1;
    }
    batch
}

/// One operation on the connection of a probe round.
#[derive(Clone, Copy, Debug, PartialEq, Eq)]
pub enum ProbeOp {
    /// Open a fresh connection to the oracle.
    Connect,
    /// Write the sixteen bytes of one candidate.
    Send { bytes: [u8; 16] },
    /// Close the writing side, which tells the oracle that the batch is over.
    HalfClose,
    /// Read a reply of `len` bytes; the round is complete when it arrived.
    AwaitReply { len: usize },
}

/// Whether `ops` is the whole of one probe round: connect, send the batch
/// in order of offset, half-close, then wait for the fixed-size reply.
pub open spec fn is_round_script(
    ops: Seq<ProbeOp>,
    pivot: u128,
    direction: Direction,
    count: u32,
) -> bool {
    &&& ops.len() == count + 3
    &&& ops[0] is Connect
    &&& forall|k: int|
        0 <= k < count ==> (#[trigger] ops[k + 1]) is Send && ops[k + 1]->bytes@ == be_bytes(
            ring_value(pivot, direction, k as u128) as nat,
            16,
        )
    &&& ops[count + 1] is HalfClose
    &&& ops[count + 2] == (ProbeOp::AwaitReply { len: REPLY_WIDTH })
}

/// Lays out one probe round for the caller to carry out step by step.
pub fn round_script(pivot: u128, direction: Direction, count: u32) -> (ops: Vec<ProbeOp>)
    ensures
        is_round_script(ops@, pivot, direction, count),
{
    let batch = probe_batch(pivot, direction, count);
    let mut ops: Vec<ProbeOp> = Vec::new();
    ops.push(ProbeOp::Connect);
    let mut sent: usize = 0;
    while sent < batch.len()
        invariant
            batch@.len() == count,
            sent <= count,
            ops@.len() == sent + 1,
            ops@[0] is Connect,
            forall|k: int|
                0 <= k < sent ==> (#[trigger] ops@[k + 1]) is Send && ops@[k + 1]->bytes
                    == batch@[k],
        decreases count - sent,
    {
        ops.push(ProbeOp::Send { bytes: batch[sent] });
        sent += 1;
    }
    ops.push(ProbeOp::HalfClose);
    ops.push(ProbeOp::AwaitReply { len: REPLY_WIDTH });
    ops
}

/// Reading an encoding back gives the value again, as far as the width
/// holds it: the digits above the width are lost, and nothing else.
pub proof fn lemma_be_round_trip(value: nat, width: nat)
    ensures
        pow(256, width) > 0,
        be_value(be_bytes(value, width)) == value % pow(256, width) as nat,
    decreases width,
{
    lemma_pow_positive(256, width);
    if width == 0 {
        lemma_pow0(256);
    } else {
        let bytes = be_bytes(value, width);
        let upper = be_bytes(value / 256, (width - 1) as nat);
        assert(bytes.drop_last() =~= upper) by {
            assert forall|k: int| 0 <= k < width - 1 implies bytes[k] == upper[k] by {
                let place = (width - 2 - k) as nat;
                lemma_pow_positive(256, place);
                lemma_pow_adds(256, 1, place);
                lemma_pow1(256);
                lemma_div_denominator(value as int, 256, pow(256, place));
            }
        }
        assert(bytes.last() == value % 256) by {
            lemma_pow0(256);
            assert(value / 1 == value);
            assert(bytes.last() == byte_at(value, 0));
        }
        lemma_be_round_trip(value / 256, (width - 1) as nat);
        lemma_pow_positive(256, (width - 1) as nat);
        lemma_pow_adds(256, 1, (width - 1) as nat);
        lemma_pow1(256);
        lemma_mod_breakdown(value as int, 256, pow(256, (width - 1) as nat));
    }
}

/// Sixteen bytes hold every candidate exactly: reading the encoding of a
/// candidate back gives the candidate.
pub proof fn lemma_encoding_is_exact(value: u128)
    ensures
        be_value(be_bytes(value as nat, 16)) == value,
{
    lemma_be_round_trip(value as nat, 16);
    lemma_pow1(256);
    lemma_pow_adds(256, 1, 1);
    lemma_pow_adds(256, 2, 2);
    lemma_pow_adds(256, 4, 4);
    lemma_pow_adds(256, 8, 8);
    let (p2, p4, p8) = (pow(256, 2), pow(256, 4), pow(256, 8));
    assert(p2 == 0x1_0000);
    assert(p2 * p2 == 0x1_0000_0000) by (nonlinear_arith)
        requires
            p2 == 0x1_0000,
    ;
    assert(p4 * p4 == 0x1_0000_0000_0000_0000) by (nonlinear_arith)
        requires
            p4 == 0x1_0000_0000,
    ;
    assert(p8 * p8 == space_size()) by (nonlinear_arith)
        requires
            p8 == 0x1_0000_0000_0000_0000,
    ;
    lemma_small_mod(value as nat, space_size() as nat);
}

} // verus!
