use vstd::prelude::*;
use crate::checkpoint::CheckpointerView;
use crate::checkpoint::adjusted_byte;
use crate::checkpoint::distance_fits;
use crate::checksum::crc32_of;
use crate::circle::tail_window;
use crate::decompress::Deflator;
use crate::model::DeflatorView;
use crate::model::in_block;
use crate::model::in_body;
use crate::model::lemma_pull_stable;
use crate::model::lemma_pull_zero;
use crate::model::parse_block_header;
use crate::model::pull;
use crate::model::step;
use crate::reader::ReaderView;
use crate::model::transition;

verus! {

/// The output of the member that is being decoded: what was emitted since
/// the member began.
pub open spec fn member_output(v: DeflatorView) -> Seq<u8> {
    v.emitted.skip(v.member_from as int)
}

/// The size a member trailer holds is the number of bytes that the member
/// decoded to, modulo 2^32: the transition from the trailer succeeds only
/// on such a trailer.
pub proof fn law_member_size(d: &Deflator, space: nat)
    requires
        d.wf(),
        d@.state is GZIPFooter,
        step(d@, space) is Ok,
    ensures
        d@.reader.aligned().take_u32_le() is Ok,
        d@.reader.aligned().take_u32_le()->Ok_0.1.take_u32_le() is Ok,
        d@.reader.aligned().take_u32_le()->Ok_0.1.take_u32_le()->Ok_0.0 == member_output(
            d@,
        ).len() % 0x1_0000_0000,
{
    reveal(step);
    d.lemma_window_lawful();
    lemma_member_is_output(d@);
}

/// The CRC-32 a member trailer holds is that of the bytes that the member
/// decoded to: the transition from the trailer succeeds only on such a
/// trailer.
pub proof fn law_member_checksum(d: &Deflator, space: nat)
    requires
        d.wf(),
        d@.state is GZIPFooter,
        step(d@, space) is Ok,
    ensures
        d@.reader.aligned().take_u32_le() is Ok,
        d@.reader.aligned().take_u32_le()->Ok_0.0 == crc32_of(member_output(d@)),
{
    reveal(step);
    d.lemma_window_lawful();
    lemma_member_is_output(d@);
}

/// While no back-reference is waiting to be written out, what the member
/// checksum covers is the member's output.
pub proof fn lemma_member_is_output(v: DeflatorView)
    requires
        v.ok(),
        v.window.lawful(),
        !(v.state is WriteLookback),
    ensures
        v.window.member == member_output(v),
        v.emitted == v.window.history,
{
    assert(v.emitted =~= v.window.history);
}

/// Whenever no back-reference is waiting to be written out, the window is
/// the last 32 KiB of everything the decoder has emitted, after 32 KiB of
/// zero bytes.
pub proof fn law_window_is_tail_of_output(d: &Deflator)
    requires
        d.wf(),
        !(d@.state is WriteLookback),
    ensures
        d@.window.window == tail_window(d@.emitted, 32768),
{
    d.lemma_window_lawful();
    lemma_member_is_output(d@);
}

/// Between blocks the checkpointer has heard as many block ends as block
/// starts, and as many body starts; inside a block, one start more than
/// ends.
pub proof fn law_checkpoints_balanced(d: &Deflator)
    requires
        d.wf(),
    ensures
        !in_block(d@.state) ==> d@.checkpointer.starts == d@.checkpointer.ends
            && d@.checkpointer.bodies == d@.checkpointer.ends,
        in_block(d@.state) ==> d@.checkpointer.starts == d@.checkpointer.ends + 1,
        in_body(d@.state) ==> d@.checkpointer.bodies == d@.checkpointer.starts,
{
}

/// The type the checkpointer holds after a block header is the type that
/// the header declares, and the checkpoint that the body start adds is the
/// last one and carries the type held then: checkpoints come in the order of
/// the blocks, each with the type of its block.
pub proof fn law_block_types_in_order(
    d: &Deflator,
    space: nat,
    cp: CheckpointerView,
    byte: usize,
    bit: u8,
    data: Seq<u8>,
)
    requires
        d.wf(),
        d@.state is BlockHeader,
        step(d@, space) is Ok,
    ensures
        parse_block_header(d@.reader) is Ok,
        step(d@, space)->Ok_0.next.checkpointer.block_type == parse_block_header(
            d@.reader,
        )->Ok_0.0.block_type,
        cp.body_started(byte, bit, data).records.len() == cp.records.len() + 1,
        cp.body_started(byte, bit, data).records.last().block_type == cp.block_type,
        cp.body_started(byte, bit, data).records.drop_last() == cp.records,
{
    reveal(step);
    assert(cp.body_started(byte, bit, data).records.drop_last() =~= cp.records);
}

/// The length in bits that a block end reports is eight times the
/// difference of the bytes in which the block ends and starts, plus the
/// difference of the bits, each byte being the one before the reader's
/// where the reader has handed out a bit of it.
pub proof fn law_block_length_in_bits(
    cp: CheckpointerView,
    start_byte: usize,
    start_bit: u8,
    start_to: usize,
    end_byte: usize,
    end_bit: u8,
    end_to: usize,
    crc32: u32,
)
    requires
        start_bit == 0 || start_byte > 0,
        end_bit == 0 || end_byte > 0,
        distance_fits(
            adjusted_byte(start_byte as int, start_bit as int),
            start_bit as int,
            adjusted_byte(end_byte as int, end_bit as int),
            end_bit as int,
        ),
    ensures
        cp.started(start_byte, start_bit, start_to).closing(
            end_byte,
            end_bit,
            end_to,
            crc32,
        ).block_len_bits == (adjusted_byte(end_byte as int, end_bit as int) - adjusted_byte(
            start_byte as int,
            start_bit as int,
        )) * 8 + (end_bit - start_bit),
{
}

/// Where the input ends at the place at which a member could begin, the
/// decoder ends: however many transitions a pull is allowed, it writes
/// nothing, returns no error and leaves the decoder done.
pub proof fn law_end_of_input_is_clean(d: &Deflator, space: nat, k: nat)
    requires
        d.wf(),
        d@.state is GZIPHeader,
        d@.reader.byte >= d@.reader.data.len(),
    ensures
        pull(d@, space, k) is Ok,
        pull(d@, space, k)->Ok_0.out.len() == 0,
        pull(d@, space, k)->Ok_0.next.state is Done,
{
    reveal(step);
    lemma_pull_zero(d@, space);
    lemma_pull_stable(d@, space, 0, k);
}

/// A decoder that is done stays done and writes nothing.
pub proof fn law_done_is_absorbing(d: &Deflator, space: nat, k: nat)
    requires
        d@.state is Done,
    ensures
        pull(d@, space, k) is Ok,
        pull(d@, space, k)->Ok_0.out.len() == 0,
        pull(d@, space, k)->Ok_0.next == d@,
{
    reveal(step);
    lemma_pull_zero(d@, space);
    lemma_pull_stable(d@, space, 0, k);
    assert(d@.emitted + Seq::<u8>::empty() =~= d@.emitted);
}

/// How many bits of the input a reader has handed out or dropped: eight for
/// each byte before the one it is in, and the bits of that one.
pub open spec fn bit_cursor(r: ReaderView) -> int {
    adjusted_byte(r.byte as int, r.bit as int) * 8 + r.bit
}

/// Whether the byte that bits are handed out of is the one before the
/// reader's position.
pub open spec fn holds_current_byte(r: ReaderView) -> bool {
    r.bit > 0 ==> r.held == r.data[r.byte - 1]
}

/// Bits come in the order of the stream, lowest bit of each byte first:
/// the next bit is the one at the reader's cursor, and the cursor moves on
/// by one.
pub proof fn law_bits_in_stream_order(r: ReaderView)
    requires
        r.wf(),
        holds_current_byte(r),
        bit_cursor(r) < r.data.len() * 8,
    ensures
        r.take_bit() is Ok,
        r.take_bit()->Ok_0.0 == (r.data[bit_cursor(r) / 8] >> ((bit_cursor(r) % 8) as u8)) & 1,
        bit_cursor(r.take_bit()->Ok_0.1) == bit_cursor(r) + 1,
        holds_current_byte(r.take_bit()->Ok_0.1),
        bit_cursor(r) + r.bits_left() == r.data.len() * 8,
{
    if r.bit == 0 {
        let b = r.data[r.byte as int];
        assert(r.data.subrange(r.byte as int, r.byte + 1)[0] == b);
        assert((b >> 0u8) & 1 == b & 1) by (bit_vector);
    }
}

} // verus!
