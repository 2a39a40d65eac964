use vstd::prelude::*;
use crate::checkpoint::CheckpointerView;
use crate::checksum::crc32_of;
use crate::circle::WindowView;
use crate::decompress::BASE_DISTS;
use crate::decompress::BASE_LENGTHS;
use crate::decompress::BlockHeader;
use crate::decompress::BlockType;
use crate::decompress::CODE_LENGTH_ORDER;
use crate::decompress::DIST_EXTRA_BITS;
use crate::decompress::LENGTH_EXTRA_BITS;
use crate::errors::ScryError;
use crate::header::parse_header;
use crate::huffman::HuffmanCode;
use crate::huffman::canonical_table;
use crate::huffman::fixed_dist_lengths;
use crate::huffman::fixed_lengths;
use crate::huffman::lookup;
use crate::reader::ReaderView;

verus! {

/// The state of the decoder, to the contracts: the tables as maps.
pub enum StateView {
    GZIPHeader,
    BlockHeader,
    PrepareNonCompressedBlock,
    NonCompressedBlock { len: u16 },
    PrepareDynamicBlock,
    DecodeBlock { symbol_tree: Map<u16, HuffmanCode>, distance_tree: Map<u16, HuffmanCode> },
    WriteLookback {
        current: u16,
        len: u16,
        symbol_tree: Map<u16, HuffmanCode>,
        distance_tree: Map<u16, HuffmanCode>,
    },
    CheckIfFinalBlock,
    GZIPFooter,
    Done,
}

/// The decoder, to the contracts.
pub struct DeflatorView {
    pub window: WindowView,
    pub state: StateView,
    pub in_final_block: bool,
    pub reader: ReaderView,
    pub checkpointer: CheckpointerView,
    /// Everything the decoder has written to output buffers so far.
    pub emitted: Seq<u8>,
    /// How many bytes the window had been given when the member that is
    /// being decoded began.
    pub member_from: nat,
}

/// What one transition does: the decoder after it, and the bytes it
/// writes to the front of the output buffer.
pub struct Step {
    pub next: DeflatorView,
    pub out: Seq<u8>,
}

/// The output buffer after `out` was written to its front.
pub open spec fn filled(buf: Seq<u8>, out: Seq<u8>) -> Seq<u8> {
    out + buf.skip(out.len() as int)
}

pub open spec fn smaller(a: nat, b: nat) -> nat {
    if a < b {
        a
    } else {
        b
    }
}

/// Decoding one symbol: bits are read one at a time, each becoming the
/// lowest bit of the code so far, until the code of that value and length
/// is in the table. Sixteen bits without a match are an error.
pub open spec fn decode_symbol(tree: Map<u16, HuffmanCode>, r: ReaderView, acc: u16, len: u8)
    -> Result<(u16, ReaderView), ScryError>
    decreases 16 - len,
{
    if len >= 16 {
        Err(ScryError::InvalidHuffmanCode { code: acc, position: r.byte, bit: r.bit })
    } else {
        match r.take_bit() {
            Err(e) => Err(e),
            Ok((b, r1)) => {
                let acc1 = (acc << 1) | (b as u16);
                let len1 = (len + 1) as u8;
                match lookup(tree, acc1, len1) {
                    Some(symbol) => Ok((symbol, r1)),
                    None => if len1 > 15 {
                        Err(
                            ScryError::InvalidHuffmanCode {
                                code: acc1,
                                position: r1.byte,
                                bit: r1.bit,
                            },
                        )
                    } else {
                        decode_symbol(tree, r1, acc1, len1)
                    },
                }
            },
        }
    }
}

/// Reading a block header: the final flag, then two bits of type.
pub open spec fn parse_block_header(r: ReaderView) -> Result<(BlockHeader, ReaderView), ScryError> {
    match r.take_bit() {
        Err(e) => Err(e),
        Ok((last, r1)) => match r1.take_n_bits_le(2) {
            Err(e) => Err(e),
            Ok((kind, r2)) => if kind == 0 {
                Ok((BlockHeader { block_type: BlockType::NoCompression, is_final: last == 1 }, r2))
            } else if kind == 1 {
                Ok((BlockHeader { block_type: BlockType::FixedHuffman, is_final: last == 1 }, r2))
            } else if kind == 2 {
                Ok((BlockHeader { block_type: BlockType::DynamicHuffman, is_final: last == 1 }, r2))
            } else {
                Err(ScryError::InvalidBlockType)
            },
        },
    }
}

/// A member header is read; input that ends before it is the end of the
/// stream.
pub open spec fn model_gzip_header(v: DeflatorView) -> Result<Step, ScryError> {
    match parse_header(v.reader) {
        Ok((_, r)) => Ok(
            Step {
                next: DeflatorView { reader: r, state: StateView::BlockHeader, ..v },
                out: Seq::empty(),
            },
        ),
        Err(ScryError::ExpectedEOF) => Ok(
            Step {
                next: DeflatorView {
                    reader: ReaderView { scope: Some(Seq::empty()), ..v.reader },
                    state: StateView::Done,
                    ..v
                },
                out: Seq::empty(),
            },
        ),
        Err(e) => Err(e),
    }
}

/// A block starts: the start is notified at the position of the first
/// header bit, the header is read and its type notified. A fixed block has
/// no more header, so its body starts at once, with the two fixed tables.
pub open spec fn model_block_header(v: DeflatorView) -> Result<Step, ScryError> {
    let started = v.checkpointer.started(v.reader.byte, v.reader.bit, v.window.total);
    match parse_block_header(v.reader) {
        Err(e) => Err(e),
        Ok((h, r)) => {
            let typed = CheckpointerView { block_type: h.block_type, ..started };
            Ok(
                Step {
                    next: match h.block_type {
                        BlockType::NoCompression => DeflatorView {
                            reader: r,
                            checkpointer: typed,
                            in_final_block: h.is_final,
                            state: StateView::PrepareNonCompressedBlock,
                            ..v
                        },
                        BlockType::DynamicHuffman => DeflatorView {
                            reader: r,
                            checkpointer: typed,
                            in_final_block: h.is_final,
                            state: StateView::PrepareDynamicBlock,
                            ..v
                        },
                        BlockType::FixedHuffman => DeflatorView {
                            reader: r,
                            checkpointer: typed.body_started(r.byte, r.bit, v.window.window),
                            in_final_block: h.is_final,
                            state: StateView::DecodeBlock {
                                symbol_tree: canonical_table(fixed_lengths()),
                                distance_tree: canonical_table(fixed_dist_lengths()),
                            },
                            ..v
                        },
                    },
                    out: Seq::empty(),
                },
            )
        },
    }
}

/// The header of a stored block: the rest of the byte is dropped, LEN and
/// NLEN are read, and NLEN must be the complement of LEN. The body starts.
pub open spec fn model_prepare_stored(v: DeflatorView) -> Result<Step, ScryError> {
    match v.reader.aligned().take_u16_le() {
        Err(e) => Err(e),
        Ok((len, r1)) => match r1.take_u16_le() {
            Err(e) => Err(e),
            Ok((nlen, r2)) => if nlen != !len {
                Err(ScryError::InvalidNonCompressedBlockHeader { expected: !len, found: nlen })
            } else {
                Ok(
                    Step {
                        next: DeflatorView {
                            reader: r2,
                            checkpointer: v.checkpointer.body_started(
                                r2.byte,
                                r2.bit,
                                v.window.window,
                            ),
                            state: StateView::NonCompressedBlock { len },
                            ..v
                        },
                        out: Seq::empty(),
                    },
                )
            },
        },
    }
}

/// The decoder after a block ended at the reader `r` with the window `w`:
/// the end is notified with the block's checksum, which starts anew.
pub open spec fn block_ended(v: DeflatorView, r: ReaderView, w: WindowView) -> DeflatorView {
    DeflatorView {
        reader: r,
        window: WindowView { block: Seq::empty(), ..w },
        checkpointer: v.checkpointer.ended(r.byte, r.bit, w.total, crc32_of(w.block)),
        state: StateView::CheckIfFinalBlock,
        ..v
    }
}

/// The body of a stored block: as many bytes as are left of it and fit the
/// buffer go from the input to the window and to the output. When none is
/// left the block has ended.
pub open spec fn model_stored_body(v: DeflatorView, len: u16, space: nat) -> Result<
    Step,
    ScryError,
> {
    let n = smaller(len as nat, space);
    match v.reader.take_bytes(n) {
        Err(e) => Err(e),
        Ok((bytes, r)) => {
            let w = v.window.pushed_all(bytes);
            Ok(
                Step {
                    next: if n == len {
                        block_ended(v, r, w)
                    } else {
                        DeflatorView {
                            reader: r,
                            window: w,
                            state: StateView::NonCompressedBlock { len: (len - n) as u16 },
                            ..v
                        }
                    },
                    out: bytes,
                },
            )
        },
    }
}

/// A length and a distance, from the length symbol `symbol` (257 to 285),
/// its extra bits, a symbol of the distance table (0 to 29) and its extra
/// bits.
pub open spec fn take_lookback(r: ReaderView, dist: Map<u16, HuffmanCode>, symbol: u16) -> Result<
    ((u16, u16), ReaderView),
    ScryError,
> {
    if symbol < 257 || symbol > 285 {
        Err(ScryError::InvalidHuffmanCode { code: symbol, position: r.byte, bit: r.bit })
    } else {
        let i = symbol - 257;
        match r.take_n_bits_le(LENGTH_EXTRA_BITS[i]) {
            Err(e) => Err(e),
            Ok((extra, r1)) => {
                let len = (BASE_LENGTHS[i] + extra) as u16;
                match decode_symbol(dist, r1, 0, 0) {
                    Err(e) => Err(e),
                    Ok((d, r2)) => if d >= 30 {
                        Err(ScryError::InvalidLengthDistancePair { lookback: d, size: len })
                    } else {
                        match r2.take_n_bits_le(DIST_EXTRA_BITS[d as int]) {
                            Err(e) => Err(e),
                            Ok((dextra, r3)) => Ok(
                                ((len, (BASE_DISTS[d as int] + dextra) as u16), r3),
                            ),
                        }
                    },
                }
            },
        }
    }
}

/// Why decoding a block stopped.
pub enum BlockStop {
    /// The output buffer is full.
    Full,
    /// The end-of-block symbol was read.
    EndOfBlock,
    /// A back-reference of this length was copied into the window; its
    /// bytes are still to be written out.
    Lookback { len: u16 },
}

/// A stretch of decoding inside a block.
pub struct BlockRun {
    pub reader: ReaderView,
    pub window: WindowView,
    pub out: Seq<u8>,
    pub stop: BlockStop,
}

/// Decoding symbols into a buffer of `space` bytes that already holds
/// `out`: literals go to the window and the buffer; the end-of-block
/// symbol, a back-reference or a full buffer stop the stretch.
pub open spec fn run_block(
    r: ReaderView,
    w: WindowView,
    lit: Map<u16, HuffmanCode>,
    dist: Map<u16, HuffmanCode>,
    space: nat,
    out: Seq<u8>,
) -> Result<BlockRun, ScryError>
    decreases space - out.len(),
{
    if out.len() >= space {
        Ok(BlockRun { reader: r, window: w, out, stop: BlockStop::Full })
    } else {
        match decode_symbol(lit, r, 0, 0) {
            Err(e) => Err(e),
            Ok((symbol, r1)) => if symbol < 256 {
                run_block(r1, w.pushed(symbol as u8), lit, dist, space, out.push(symbol as u8))
            } else if symbol == 256 {
                Ok(BlockRun { reader: r1, window: w, out, stop: BlockStop::EndOfBlock })
            } else {
                match take_lookback(r1, dist, symbol) {
                    Err(e) => Err(e),
                    Ok(((len, lookback), r2)) => if 1 <= lookback <= 32768 {
                        Ok(
                            BlockRun {
                                reader: r2,
                                window: w.copied_back(lookback as nat, len as nat),
                                out,
                                stop: BlockStop::Lookback { len },
                            },
                        )
                    } else {
                        Err(ScryError::InvalidLengthDistancePair { lookback, size: len })
                    },
                }
            },
        }
    }
}

/// The body of a compressed block, for as long as the output buffer, the
/// block and the run of literals last.
pub open spec fn model_decode_block(
    v: DeflatorView,
    lit: Map<u16, HuffmanCode>,
    dist: Map<u16, HuffmanCode>,
    space: nat,
) -> Result<Step, ScryError> {
    match run_block(v.reader, v.window, lit, dist, space, Seq::empty()) {
        Err(e) => Err(e),
        Ok(run) => Ok(
            Step {
                next: match run.stop {
                    BlockStop::Full => DeflatorView {
                        reader: run.reader,
                        window: run.window,
                        state: StateView::DecodeBlock { symbol_tree: lit, distance_tree: dist },
                        ..v
                    },
                    BlockStop::EndOfBlock => block_ended(v, run.reader, run.window),
                    BlockStop::Lookback { len } => DeflatorView {
                        reader: run.reader,
                        window: run.window,
                        state: StateView::WriteLookback {
                            current: 0,
                            len,
                            symbol_tree: lit,
                            distance_tree: dist,
                        },
                        ..v
                    },
                },
                out: run.out,
            },
        ),
    }
}

/// The bytes of a back-reference that are already in the window are written
/// out, as far as the buffer has room, from where the last call stopped.
pub open spec fn model_write_lookback(
    v: DeflatorView,
    current: u16,
    len: u16,
    lit: Map<u16, HuffmanCode>,
    dist: Map<u16, HuffmanCode>,
    space: nat,
) -> Result<Step, ScryError> {
    let n = smaller((len - current) as nat, space);
    Ok(
        Step {
            next: DeflatorView {
                state: if current + n == len {
                    StateView::DecodeBlock { symbol_tree: lit, distance_tree: dist }
                } else {
                    StateView::WriteLookback {
                        current: (current + n) as u16,
                        len,
                        symbol_tree: lit,
                        distance_tree: dist,
                    }
                },
                ..v
            },
            out: v.window.newest(len as nat).subrange(current as int, current + n),
        },
    )
}

/// After a block: the member trailer if it was the last block of its
/// member, else the next block.
pub open spec fn model_check_final(v: DeflatorView) -> Result<Step, ScryError> {
    Ok(
        Step {
            next: DeflatorView {
                state: if v.in_final_block {
                    StateView::GZIPFooter
                } else {
                    StateView::BlockHeader
                },
                ..v
            },
            out: Seq::empty(),
        },
    )
}

/// The member trailer: the rest of the byte is dropped; the CRC-32 read
/// must be that of the member's output and the size read its length modulo
/// 2^32. Both start anew for the next member.
pub open spec fn model_footer(v: DeflatorView) -> Result<Step, ScryError> {
    let expected = crc32_of(v.window.member);
    match v.reader.aligned().take_u32_le() {
        Err(e) => Err(e),
        Ok((found, r1)) => if found != expected {
            Err(ScryError::InvalidGZIPCRC { position: r1.byte, expected, found })
        } else {
            match r1.take_u32_le() {
                Err(e) => Err(e),
                Ok((size, r2)) => if size != v.window.count {
                    Err(
                        ScryError::InvalidGZIPIsize {
                            position: r2.byte,
                            expected: v.window.count,
                            found: size,
                        },
                    )
                } else {
                    Ok(
                        Step {
                            next: DeflatorView {
                                reader: r2,
                                window: WindowView { member: Seq::empty(), count: 0, ..v.window },
                                state: StateView::GZIPHeader,
                                member_from: v.window.history.len(),
                                ..v
                            },
                            out: Seq::empty(),
                        },
                    )
                },
            }
        },
    }
}

/// The lengths of the code-length codes: `n` values of three bits, each
/// stored at the place the fixed order gives it; `i` were read already.
pub open spec fn take_code_lengths(r: ReaderView, n: nat, i: nat, acc: Seq<u8>) -> Result<
    (Seq<u8>, ReaderView),
    ScryError,
>
    decreases n - i,
{
    if i >= n || i >= 19 {
        Ok((acc, r))
    } else {
        match r.take_n_bits_le(3) {
            Err(e) => Err(e),
            Ok((v, r1)) => take_code_lengths(
                r1,
                n,
                i + 1,
                acc.update(CODE_LENGTH_ORDER[i as int] as int, v as u8),
            ),
        }
    }
}

/// What a repeat symbol stands for, after the lengths `acc`: the length to
/// repeat and how often. Symbol 16 repeats the last length 3 to 6 times,
/// 17 repeats zero 3 to 10 times, 18 repeats zero 11 to 138 times.
pub open spec fn take_repeat(r: ReaderView, symbol: u16, acc: Seq<u8>) -> Result<
    ((u8, nat), ReaderView),
    ScryError,
> {
    if symbol == 16 {
        if acc.len() == 0 {
            Err(ScryError::InvalidDynamicBlockCodeLength)
        } else {
            match r.take_n_bits_le(2) {
                Err(e) => Err(e),
                Ok((k, r1)) => Ok(((acc.last(), (3 + k) as nat), r1)),
            }
        }
    } else if symbol == 17 {
        match r.take_n_bits_le(3) {
            Err(e) => Err(e),
            Ok((k, r1)) => Ok(((0u8, (3 + k) as nat), r1)),
        }
    } else if symbol == 18 {
        match r.take_n_bits_le(7) {
            Err(e) => Err(e),
            Ok((k, r1)) => Ok(((0u8, (11 + k) as nat), r1)),
        }
    } else {
        Err(ScryError::InvalidHuffmanCode { code: symbol, position: r.byte, bit: r.bit })
    }
}

/// The code lengths of the literal/length and the distance table, `total`
/// in all, of which `acc` were read already. A repeat that would go past
/// `total` is an error.
pub open spec fn take_lengths(
    r: ReaderView,
    tree: Map<u16, HuffmanCode>,
    total: nat,
    acc: Seq<u8>,
) -> Result<(Seq<u8>, ReaderView), ScryError>
    decreases total - acc.len(),
{
    if acc.len() >= total {
        Ok((acc, r))
    } else {
        match decode_symbol(tree, r, 0, 0) {
            Err(e) => Err(e),
            Ok((symbol, r1)) => if symbol < 16 {
                take_lengths(r1, tree, total, acc.push(symbol as u8))
            } else {
                match take_repeat(r1, symbol, acc) {
                    Err(e) => Err(e),
                    Ok(((value, times), r2)) => if times == 0 || acc.len() + times > total {
                        Err(ScryError::InvalidDynamicBlockCodeLength)
                    } else {
                        take_lengths(r2, tree, total, acc + Seq::new(times, |i: int| value))
                    },
                }
            },
        }
    }
}

/// The two tables of a dynamic block.
pub struct TreePair {
    pub symbol_tree: Map<u16, HuffmanCode>,
    pub distance_tree: Map<u16, HuffmanCode>,
}

/// The three counts at the start of a dynamic block.
pub struct DynamicCounts {
    pub literals: nat,
    pub dists: nat,
    pub code_lengths: nat,
}

pub open spec fn take_counts(r: ReaderView) -> Result<(DynamicCounts, ReaderView), ScryError> {
    match r.take_n_bits_le(5) {
        Err(e) => Err(e),
        Ok((a, r1)) => match r1.take_n_bits_le(5) {
            Err(e) => Err(e),
            Ok((b, r2)) => match r2.take_n_bits_le(4) {
                Err(e) => Err(e),
                Ok((c, r3)) => Ok(
                    (
                        DynamicCounts {
                            literals: (a + 257) as nat,
                            dists: (b + 1) as nat,
                            code_lengths: (c + 4) as nat,
                        },
                        r3,
                    ),
                ),
            },
        },
    }
}

/// The header of a dynamic block: the counts, the table of the code-length
/// codes, the lengths it encodes, and from those the two tables.
pub open spec fn parse_dynamic_trees(r: ReaderView) -> Result<(TreePair, ReaderView), ScryError> {
    match take_counts(r) {
        Err(e) => Err(e),
        Ok((counts, r1)) => match take_code_lengths(
            r1,
            counts.code_lengths,
            0,
            Seq::new(19, |i: int| 0u8),
        ) {
            Err(e) => Err(e),
            Ok((cl, r2)) => match take_lengths(
                r2,
                canonical_table(cl),
                counts.literals + counts.dists,
                Seq::empty(),
            ) {
                Err(e) => Err(e),
                Ok((lens, r3)) => Ok(
                    (
                        TreePair {
                            symbol_tree: canonical_table(lens.subrange(0, counts.literals as int)),
                            distance_tree: canonical_table(
                                lens.subrange(
                                    counts.literals as int,
                                    (counts.literals + counts.dists) as int,
                                ),
                            ),
                        },
                        r3,
                    ),
                ),
            },
        },
    }
}

/// The header of a dynamic block is read and the body starts.
pub open spec fn model_prepare_dynamic(v: DeflatorView) -> Result<Step, ScryError> {
    match parse_dynamic_trees(v.reader) {
        Err(e) => Err(e),
        Ok((trees, r)) => Ok(
            Step {
                next: DeflatorView {
                    reader: r,
                    checkpointer: v.checkpointer.body_started(r.byte, r.bit, v.window.window),
                    state: StateView::DecodeBlock {
                        symbol_tree: trees.symbol_tree,
                        distance_tree: trees.distance_tree,
                    },
                    ..v
                },
                out: Seq::empty(),
            },
        ),
    }
}

/// One transition of the decoder, with an output buffer of `space` bytes:
/// what the state asks for, and what is written counts as emitted.
#[verifier::opaque]
pub open spec fn step(v: DeflatorView, space: nat) -> Result<Step, ScryError> {
    match transition(v, space) {
        Err(e) => Err(e),
        Ok(s) => Ok(
            Step { next: DeflatorView { emitted: v.emitted + s.out, ..s.next }, out: s.out },
        ),
    }
}

/// What each state asks for.
pub open spec fn transition(v: DeflatorView, space: nat) -> Result<Step, ScryError> {
    match v.state {
        StateView::GZIPHeader => model_gzip_header(v),
        StateView::BlockHeader => model_block_header(v),
        StateView::PrepareNonCompressedBlock => model_prepare_stored(v),
        StateView::NonCompressedBlock { len } => model_stored_body(v, len, space),
        StateView::PrepareDynamicBlock => model_prepare_dynamic(v),
        StateView::DecodeBlock { symbol_tree, distance_tree } => model_decode_block(
            v,
            symbol_tree,
            distance_tree,
            space,
        ),
        StateView::WriteLookback {
            current,
            len,
            symbol_tree,
            distance_tree,
        } => model_write_lookback(v, current, len, symbol_tree, distance_tree, space),
        StateView::CheckIfFinalBlock => model_check_final(v),
        StateView::GZIPFooter => model_footer(v),
        StateView::Done => Ok(Step { next: v, out: Seq::empty() }),
    }
}

/// Whether a transition has something to show: an error, output, or the
/// end of the stream.
pub open spec fn settled(r: Result<Step, ScryError>) -> bool {
    match r {
        Err(_) => true,
        Ok(s) => s.out.len() > 0 || s.next.state is Done,
    }
}

/// Transitions, one after the other, until one has something to show or
/// `n` more than the first were made.
#[verifier::opaque]
pub open spec fn pull(v: DeflatorView, space: nat, n: nat) -> Result<Step, ScryError>
    decreases n,
{
    let first = step(v, space);
    if n == 0 || settled(first) {
        first
    } else {
        pull(first->Ok_0.next, space, (n - 1) as nat)
    }
}

/// With no more transitions allowed, pulling is one transition.
pub proof fn lemma_pull_zero(v: DeflatorView, space: nat)
    ensures
        pull(v, space, 0) == step(v, space),
{
    reveal(pull);
}

/// After a transition with nothing to show, pulling goes on from where it
/// led.
pub proof fn lemma_pull_next(v: DeflatorView, space: nat, n: nat)
    requires
        !settled(step(v, space)),
    ensures
        pull(v, space, n + 1) == pull(step(v, space)->Ok_0.next, space, n),
{
    reveal(pull);
}

/// Once pulling has something to show, more transitions allowed change
/// nothing.
pub proof fn lemma_pull_stable(v: DeflatorView, space: nat, n: nat, more: nat)
    requires
        settled(pull(v, space, n)),
    ensures
        pull(v, space, n + more) == pull(v, space, n),
    decreases n,
{
    reveal(pull);
    if n > 0 && !settled(step(v, space)) {
        lemma_pull_stable(step(v, space)->Ok_0.next, space, (n - 1) as nat, more);
    }
}

/// Whether a state lies between the start and the end of a block.
pub open spec fn in_block(s: StateView) -> bool {
    s is PrepareNonCompressedBlock || s is PrepareDynamicBlock || in_body(s)
}

/// Whether a state lies between the start of a block's body and its end.
pub open spec fn in_body(s: StateView) -> bool {
    s is NonCompressedBlock || s is DecodeBlock || s is WriteLookback
}

/// States from which a transition may consume no input and write nothing
/// rank higher than the states such a transition leads to.
pub open spec fn rank(s: StateView) -> nat {
    match s {
        StateView::NonCompressedBlock { .. } => 2,
        StateView::CheckIfFinalBlock => 1,
        _ => 0,
    }
}

/// How many bytes are in the window that are still to be written out.
pub open spec fn pending(s: StateView) -> nat {
    match s {
        StateView::WriteLookback { current, len, .. } => (len - current) as nat,
        _ => 0,
    }
}

impl DeflatorView {
    /// What holds of a decoder between any two transitions.
    pub open spec fn ok(self) -> bool {
        self.sound() && self.coupled()
    }

    /// The window runs ahead of the output by the bytes of a back-reference
    /// that are still to be written out, and by nothing else; what the
    /// member checksum covers is what the window was given since the member
    /// began.
    pub open spec fn coupled(self) -> bool {
        &&& pending(self.state) <= self.window.history.len()
        &&& self.emitted == self.window.history.subrange(
            0,
            self.window.history.len() - pending(self.state),
        )
        &&& self.member_from + self.window.member.len() == self.window.history.len()
        &&& (self.state matches StateView::WriteLookback { len, .. } ==> len
            <= self.window.history.len())
    }

    /// What holds of the parts of a decoder between any two transitions.
    pub open spec fn sound(self) -> bool {
        &&& self.reader.wf()
        &&& self.checkpointer.wf()
        &&& self.reader.data.len() * 8 + 8 <= isize::MAX
        &&& self.window.counted()
        &&& self.window.window.len() == 32768
        &&& (self.state matches StateView::WriteLookback { current, len, .. } ==> current < len
            <= 290)
        &&& in_block(self.state) ==> {
            &&& self.checkpointer.from_byte * 8 + self.checkpointer.from_bit
                + self.reader.bits_left() <= self.reader.data.len() * 8
            &&& self.checkpointer.from_bit < 8
            &&& self.checkpointer.to_byte <= self.window.total
            &&& self.checkpointer.starts == self.checkpointer.ends + 1
        }
        &&& !in_block(self.state) ==> self.checkpointer.starts == self.checkpointer.ends
        &&& self.checkpointer.bodies == if in_body(self.state) {
            self.checkpointer.starts
        } else {
            self.checkpointer.ends
        }
    }
}

/// Whether a transition that returned `res`, left the decoder at `after`
/// and turned the buffer `buf_before` into `buf_after` did what `model`
/// says.
pub open spec fn did(
    res: Result<usize, ScryError>,
    after: DeflatorView,
    buf_before: Seq<u8>,
    buf_after: Seq<u8>,
    model: Result<Step, ScryError>,
) -> bool {
    match model {
        Ok(s) => res == Ok::<usize, ScryError>(s.out.len() as usize) && after == s.next
            && buf_after == filled(buf_before, s.out),
        Err(e) => res == Err::<usize, ScryError>(e),
    }
}

/// Whether a transition that returned `res` and left the decoder at `after`
/// did what `model` says, for a transition that writes nothing.
pub open spec fn did_quietly(
    res: Result<usize, ScryError>,
    after: DeflatorView,
    model: Result<Step, ScryError>,
) -> bool {
    match model {
        Ok(s) => res == Ok::<usize, ScryError>(0) && after == s.next && s.out.len() == 0,
        Err(e) => res == Err::<usize, ScryError>(e),
    }
}

/// Whether a decoder that was at `before` and is at `after` will be coupled
/// once `out` counts as emitted.
pub open spec fn coupled_after(before: DeflatorView, after: DeflatorView, out: Seq<u8>) -> bool {
    (DeflatorView { emitted: before.emitted + out, ..after }).coupled()
}

/// Whether a transition that wrote `written` bytes brought the decoder
/// nearer to the end of its input.
pub open spec fn advanced(before: DeflatorView, after: DeflatorView, written: usize) -> bool {
    ||| written > 0
    ||| after.state is Done
    ||| after.reader.bits_left() < before.reader.bits_left()
    ||| (after.reader.bits_left() <= before.reader.bits_left() && rank(after.state) < rank(
        before.state,
    ))
}

} // verus!
