use vstd::prelude::*;
use vstd::slice::slice_subrange;
use crate::checkpoint::Checkpoint;
use crate::checkpoint::Checkpointer;
use crate::checkpoint::CheckpointerView;
use crate::checkpoint::adjusted_byte;
use crate::checkpoint::distance_fits;
use crate::circle::CircularBuffer;
use crate::circle::WindowView;
use crate::errors::ScryError;
use crate::header::read_header;
use crate::huffman::HuffmanTree;
use crate::model::BlockStop;
use crate::model::DeflatorView;
use crate::model::StateView;
use crate::model::advanced;
use crate::model::block_ended;
use crate::model::coupled_after;
use crate::model::decode_symbol;
use crate::model::did;
use crate::model::did_quietly;
use crate::model::filled;
use crate::model::lemma_pull_next;
use crate::model::lemma_pull_zero;
use crate::model::model_block_header;
use crate::model::model_check_final;
use crate::model::model_decode_block;
use crate::model::model_footer;
use crate::model::model_gzip_header;
use crate::model::model_prepare_dynamic;
use crate::model::model_prepare_stored;
use crate::model::model_stored_body;
use crate::model::model_write_lookback;
use crate::model::parse_block_header;
use crate::model::parse_dynamic_trees;
use crate::model::pull;
use crate::model::rank;
use crate::model::run_block;
use crate::model::settled;
use crate::model::step;
use crate::model::take_code_lengths;
use crate::model::take_lengths;
use crate::model::take_lookback;
use crate::model::take_repeat;
use crate::model::transition;
use crate::reader::ReaderView;
use crate::reader::ScryByteReader;
use crate::reader::agrees;
use crate::reader::lemma_advance_twice;
use crate::reader::lemma_two_pow_monotone;
use crate::reader::two_pow;

verus! {

/// The size of the sliding window of DEFLATE.
pub const THIRTY_TWO_KILOBYTES: usize = 32768;

/// The lengths that the length codes 257 to 285 start from.
pub const BASE_LENGTHS: [u16; 29] = [
    3, 4, 5, 6, 7, 8, 9, 10, 11, 13, 15, 17, 19, 23, 27, 31, 35, 43, 51, 59, 67, 83, 99, 115, 131,
    163, 195, 227, 258,
];

/// How many extra bits follow each length code.
pub const LENGTH_EXTRA_BITS: [u8; 29] = [
    0, 0, 0, 0, 0, 0, 0, 0, 1, 1, 1, 1, 2, 2, 2, 2, 3, 3, 3, 3, 4, 4, 4, 4, 5, 5, 5, 5, 0,
];

/// The distances that the distance codes 0 to 29 start from.
pub const BASE_DISTS: [u16; 30] = [
    1, 2, 3, 4, 5, 7, 9, 13, 17, 25, 33, 49, 65, 97, 129, 193, 257, 385, 513, 769, 1025, 1537,
    2049, 3073, 4097, 6145, 8193, 12289, 16385, 24577,
];

/// How many extra bits follow each distance code.
pub const DIST_EXTRA_BITS: [u8; 30] = [
    0, 0, 0, 0, 1, 1, 2, 2, 3, 3, 4, 4, 5, 5, 6, 6, 7, 7, 8, 8, 9, 9, 10, 10, 11, 11, 12, 12, 13,
    13,
];

/// The order in which a dynamic block sends the lengths of the code-length
/// codes.
pub const CODE_LENGTH_ORDER: [usize; 19] = [
    16, 17, 18, 0, 8, 7, 9, 6, 10, 5, 11, 4, 12, 3, 13, 2, 14, 1, 15,
];

/// The three kinds of DEFLATE block.
#[derive(Debug, PartialEq, Eq, Clone, Copy, Structural)]
pub enum BlockType {
    NoCompression,
    FixedHuffman,
    DynamicHuffman,
}

/// The three bits a block starts with.
#[derive(Debug, PartialEq, Eq, Clone, Copy, Structural)]
pub struct BlockHeader {
    pub block_type: BlockType,
    pub is_final: bool,
}

/// Reads a block header from `reader`.
pub fn take_block_header(reader: &mut ScryByteReader) -> (res: Result<BlockHeader, ScryError>)
    requires
        old(reader)@.wf(),
    ensures
        agrees(res, final(reader)@, parse_block_header(old(reader)@)),
        final(reader)@.follows(old(reader)@),
        res is Ok ==> final(reader)@.bits_left() == old(reader)@.bits_left() - 3,
{
    let is_final = reader.read_bit()?;
    let block_bits = reader.read_n_bits_le(2)?;
    let block_type = if block_bits == 0 {
        BlockType::NoCompression
    } else if block_bits == 1 {
        BlockType::FixedHuffman
    } else if block_bits == 2 {
        BlockType::DynamicHuffman
    } else {
        return Err(ScryError::InvalidBlockType);
    };
    Ok(BlockHeader { block_type, is_final: is_final == 1 })
}

/// Decodes one symbol of `tree` from `reader`.
pub fn decode_with(reader: &mut ScryByteReader, tree: &HuffmanTree) -> (res: Result<u16, ScryError>)
    requires
        old(reader)@.wf(),
    ensures
        agrees(res, final(reader)@, decode_symbol(tree@, old(reader)@, 0, 0)),
        final(reader)@.follows(old(reader)@),
        res is Ok ==> final(reader)@.bits_left() < old(reader)@.bits_left(),
{
    let mut byte: u16 = 0;
    let mut len: u8 = 0;
    loop
        invariant
            len < 16,
            reader@.follows(old(reader)@),
            reader@.bits_left() == old(reader)@.bits_left() - len,
            decode_symbol(tree@, old(reader)@, 0, 0) == decode_symbol(tree@, reader@, byte, len),
        decreases 16 - len,
    {
        let bit = match reader.read_bit() {
            Ok(b) => b,
            Err(e) => {
                return Err(e);
            },
        };
        byte = (byte << 1) | (bit as u16);
        len = len + 1;
        match tree.decode(byte, len) {
            Some(symbol) => {
                return Ok(symbol);
            },
            None => {},
        }
        if len > 15 {
            return Err(
                ScryError::InvalidHuffmanCode {
                    code: byte,
                    position: reader.position(),
                    bit: reader.bit_position(),
                },
            );
        }
    }
}

/// Two to the power 5 and 13: the most that the extra bits of a length
/// and of a distance can hold is one less.
pub proof fn lemma_two_pow_extra()
    ensures
        two_pow(5) == 32,
        two_pow(13) == 8192,
{
    reveal_with_fuel(two_pow, 7);
    assert(two_pow(6) == 64);
    assert(two_pow(7) == 2 * two_pow(6));
    assert(two_pow(13) == 64 * two_pow(7)) by {
        reveal_with_fuel(two_pow, 7);
    }
}

/// Reads the rest of a back-reference that starts with the length symbol
/// `symbol`: the length and the distance.
fn read_lookback(reader: &mut ScryByteReader, dist: &HuffmanTree, symbol: u16) -> (res: Result<
    (u16, u16),
    ScryError,
>)
    requires
        old(reader)@.wf(),
    ensures
        agrees(res, final(reader)@, take_lookback(old(reader)@, dist@, symbol)),
        final(reader)@.follows(old(reader)@),
        res matches Ok((len, lookback)) ==> 3 <= len <= 290 && 1 <= lookback <= 32768,
{
    if symbol < 257 || symbol > 285 {
        return Err(
            ScryError::InvalidHuffmanCode {
                code: symbol,
                position: reader.position(),
                bit: reader.bit_position(),
            },
        );
    }
    let index = (symbol - 257) as usize;
    let base = BASE_LENGTHS[index];
    let len_bits = LENGTH_EXTRA_BITS[index];
    proof {
        lemma_two_pow_extra();
        lemma_two_pow_monotone(len_bits as nat, 5);
    }
    let extra = reader.read_n_bits_le(len_bits)?;
    let len = base + extra;
    let dist_symbol = decode_with(reader, dist)?;
    if dist_symbol >= 30 {
        return Err(ScryError::InvalidLengthDistancePair { lookback: dist_symbol, size: len });
    }
    let dist_index = dist_symbol as usize;
    let dist_base = BASE_DISTS[dist_index];
    let dist_bits = DIST_EXTRA_BITS[dist_index];
    proof {
        lemma_two_pow_monotone(dist_bits as nat, 13);
    }
    let dist_extra = reader.read_n_bits_le(dist_bits)?;
    Ok((len, dist_base + dist_extra))
}

/// How a stretch of decoding inside a block ended.
#[derive(Clone, Copy)]
pub enum RunEnd {
    Full,
    EndOfBlock,
    Lookback { len: u16 },
}

impl View for RunEnd {
    type V = BlockStop;

    open spec fn view(&self) -> BlockStop {
        match self {
            RunEnd::Full => BlockStop::Full,
            RunEnd::EndOfBlock => BlockStop::EndOfBlock,
            RunEnd::Lookback { len } => BlockStop::Lookback { len: *len },
        }
    }
}

/// Decodes symbols of a block into `buf` until the buffer is full, the
/// block ends or a back-reference was copied into the window.
fn run_symbols(
    reader: &mut ScryByteReader,
    window: &mut CircularBuffer,
    lit: &HuffmanTree,
    dist: &HuffmanTree,
    buf: &mut [u8],
) -> (res: Result<(usize, RunEnd), ScryError>)
    requires
        old(reader)@.wf(),
        old(window).wf(),
        old(window)@.total + old(buf)@.len() + 290 <= usize::MAX,
    ensures
        final(reader)@.follows(old(reader)@),
        final(window).wf(),
        final(buf)@.len() == old(buf)@.len(),
        match run_block(
            old(reader)@,
            old(window)@,
            lit@,
            dist@,
            old(buf)@.len(),
            Seq::empty(),
        ) {
            Ok(run) => res is Ok && res->Ok_0.0 == run.out.len() && res->Ok_0.1@ == run.stop
                && final(reader)@ == run.reader && final(window)@ == run.window && final(buf)@
                == filled(old(buf)@, run.out),
            Err(e) => res is Err && res->Err_0 == e,
        },
        res matches Ok((n, end)) ==> {
            &&& n <= old(buf)@.len()
            &&& (end is Full ==> n == old(buf)@.len())
            &&& (!(end is Full) ==> final(reader)@.bits_left() < old(reader)@.bits_left())
            &&& (end matches RunEnd::Lookback { len } ==> 3 <= len <= 290)
            &&& final(window)@.total <= old(window)@.total + n + (if end is Lookback {
                290int
            } else {
                0int
            })
        },
        old(window)@.counted() ==> final(window)@.counted(),
        final(window)@.total >= old(window)@.total,
        final(window)@.window.len() == old(window)@.window.len(),
        res matches Ok((n, end)) ==> {
            let tail = match end {
                RunEnd::Lookback { len } => len as nat,
                _ => 0nat,
            };
            &&& final(window)@.history.len() == old(window)@.history.len() + n + tail
            &&& final(window)@.history.subrange(0, old(window)@.history.len() + n) == old(
                window,
            )@.history + final(buf)@.subrange(0, n as int)
            &&& final(window)@.member.len() == old(window)@.member.len() + n + tail
        },
{
    let space = buf.len();
    let mut i: usize = 0;
    let ghost mut out: Seq<u8> = Seq::empty();
    proof {
        assert(buf@ =~= filled(old(buf)@, out));
    }
    loop
        invariant
            space == old(buf)@.len(),
            buf@.len() == space,
            i <= space,
            i == out.len(),
            reader@.follows(old(reader)@),
            window.wf(),
            window@.total == old(window)@.total + i,
            old(window)@.counted() ==> window@.counted(),
            window@.history == old(window)@.history + out,
            window@.member == old(window)@.member + out,
            window@.window.len() == old(window)@.window.len(),
            old(window)@.total + space + 290 <= usize::MAX,
            buf@ == filled(old(buf)@, out),
            run_block(old(reader)@, old(window)@, lit@, dist@, space as nat, Seq::empty())
                == run_block(reader@, window@, lit@, dist@, space as nat, out),
        decreases space - i,
    {
        proof {
            assert(buf@.subrange(0, i as int) =~= out);
            assert(out + Seq::<u8>::empty() =~= out);
        }
        proof {
            assert(window@.history.subrange(0, old(window)@.history.len() + i) =~= old(
                window,
            )@.history + out);
        }
        if i >= space {
            return Ok((i, RunEnd::Full));
        }
        let symbol = decode_with(reader, lit)?;
        if symbol < 256 {
            let literal = symbol as u8;
            window.push(literal);
            buf[i] = literal;
            i = i + 1;
            proof {
                assert(buf@ =~= filled(old(buf)@, out.push(literal)));
                assert(old(window)@.history + out.push(literal) =~= (old(window)@.history
                    + out).push(literal));
                assert(old(window)@.member + out.push(literal) =~= (old(window)@.member
                    + out).push(literal));
                out = out.push(literal);
            }
            continue ;
        }
        if symbol == 256 {
            return Ok((i, RunEnd::EndOfBlock));
        }
        let (len, lookback) = read_lookback(reader, dist, symbol)?;
        let ghost before = window@;
        match window.push_from_buffer(lookback, len) {
            Err(e) => {
                return Err(e);
            },
            Ok(_) => {},
        }
        proof {
            let tail = crate::circle::copied(before.window, lookback as nat, len as nat);
            crate::circle::lemma_copied_len(before.window, lookback as nat, len as nat);
            assert(window@.history.subrange(0, old(window)@.history.len() + i) =~= old(
                window,
            )@.history + out);
        }
        return Ok((i, RunEnd::Lookback { len }));
    }
}

/// Copies up to `len` bytes from the input to the window and to `buf`.
fn copy_stored(
    reader: &mut ScryByteReader,
    window: &mut CircularBuffer,
    buf: &mut [u8],
    n: usize,
) -> (res: Result<(), ScryError>)
    requires
        old(reader)@.wf(),
        old(window).wf(),
        n <= old(buf)@.len(),
        old(window)@.total + n <= usize::MAX,
    ensures
        final(reader)@.follows(old(reader)@),
        final(window).wf(),
        final(buf)@.len() == old(buf)@.len(),
        final(window)@.window.len() == old(window)@.window.len(),
        old(window)@.counted() ==> final(window)@.counted(),
        res is Ok ==> final(window)@.total == old(window)@.total + n && final(reader)@.bits_left()
            == old(reader)@.bits_left() - 8 * n,
        res is Ok ==> final(window)@.history == old(window)@.history + final(buf)@.subrange(
            0,
            n as int,
        ) && final(window)@.member == old(window)@.member + final(buf)@.subrange(0, n as int),
        match old(reader)@.take_bytes(n as nat) {
            Ok((bytes, after)) => res is Ok && final(reader)@ == after && final(window)@ == old(
                window,
            )@.pushed_all(bytes) && final(buf)@ == filled(old(buf)@, bytes),
            Err(e) => res is Err && res->Err_0 == e,
        },
{
    let ghost start = reader@;
    let mut i: usize = 0;
    proof {
        lemma_advance_zero(start);
        assert(start.data.subrange(start.byte as int, start.byte as int) =~= Seq::<u8>::empty());
        assert(buf@ =~= filled(old(buf)@, Seq::<u8>::empty()));
        assert(window@.history + buf@.subrange(0, 0) =~= window@.history);
        assert(window@.member + buf@.subrange(0, 0) =~= window@.member);
    }
    while i < n
        invariant
            i <= n,
            n <= old(buf)@.len(),
            buf@.len() == old(buf)@.len(),
            start == old(reader)@,
            start.wf(),
            reader@.follows(start),
            window.wf(),
            old(window)@.total + n <= usize::MAX,
            start.byte + i <= start.data.len(),
            reader@ == start.advance(i as nat),
            window@ == old(window)@.pushed_all(
                start.data.subrange(start.byte as int, start.byte + i),
            ),
            window@.total == old(window)@.total + i,
            old(window)@.counted() ==> window@.counted(),
            window@.history == old(window)@.history + buf@.subrange(0, i as int),
            window@.member == old(window)@.member + buf@.subrange(0, i as int),
            window@.window.len() == old(window)@.window.len(),
            reader@.bits_left() == start.bits_left() - 8 * i,
            buf@ == filled(old(buf)@, start.data.subrange(start.byte as int, start.byte + i)),
        decreases n - i,
    {
        let ghost sofar = start.data.subrange(start.byte as int, start.byte + i);
        let ghost written = buf@.subrange(0, i as int);
        let byte = match reader.read_u8() {
            Ok(b) => b,
            Err(e) => {
                return Err(e);
            },
        };
        window.push(byte);
        buf[i] = byte;
        i = i + 1;
        proof {
            lemma_advance_twice(start, (i - 1) as nat, 1);
            let now = start.data.subrange(start.byte as int, start.byte + i);
            assert(start.data.subrange(start.byte + i - 1, start.byte + i)[0] == byte);
            assert(now.drop_last() =~= sofar);
            assert(now.last() == byte);
            assert(buf@ =~= filled(old(buf)@, now));
            assert(buf@.subrange(0, i as int) =~= written.push(byte));
            assert(old(window)@.history + written.push(byte) =~= (old(window)@.history
                + written).push(byte));
            assert(old(window)@.member + written.push(byte) =~= (old(window)@.member
                + written).push(byte));
        }
    }
    Ok(())
}

/// Consuming no bytes changes nothing.
pub proof fn lemma_advance_zero(r: ReaderView)
    requires
        r.wf(),
    ensures
        r.advance(0) == r,
{
    assert(r.data.subrange(r.byte as int, r.byte as int) =~= Seq::<u8>::empty());
    match r.scope {
        Some(s) => {
            assert(s + Seq::<u8>::empty() =~= s);
        },
        None => {},
    }
}

/// Reads the lengths of the code-length codes, `n` of them, into their
/// places among the nineteen.
fn read_code_lengths(reader: &mut ScryByteReader, n: u16) -> (res: Result<Vec<u8>, ScryError>)
    requires
        old(reader)@.wf(),
    ensures
        final(reader)@.follows(old(reader)@),
        match take_code_lengths(old(reader)@, n as nat, 0, Seq::new(19, |i: int| 0u8)) {
            Ok((cl, after)) => res is Ok && res->Ok_0@ == cl && final(reader)@ == after,
            Err(e) => res is Err && res->Err_0 == e,
        },
        res matches Ok(cl) ==> cl@.len() == 19 && forall|k: int| 0 <= k < 19 ==> cl@[k] <= 15,
{
    let mut code_lengths: Vec<u8> = vec![0u8; 19];
    let mut i: usize = 0;
    proof {
        assert(code_lengths@ =~= Seq::new(19, |i: int| 0u8));
        assert(two_pow(3) == 8) by {
            reveal_with_fuel(two_pow, 4);
        }
    }
    while i < n as usize && i < 19
        invariant
            i <= 19,
            reader@.follows(old(reader)@),
            code_lengths@.len() == 19,
            forall|k: int| 0 <= k < 19 ==> code_lengths@[k] <= 15,
            two_pow(3) == 8,
            take_code_lengths(old(reader)@, n as nat, 0, Seq::new(19, |i: int| 0u8))
                == take_code_lengths(reader@, n as nat, i as nat, code_lengths@),
        decreases 19 - i,
    {
        let v = reader.read_n_bits_le(3)?;
        code_lengths[CODE_LENGTH_ORDER[i]] = v as u8;
        i = i + 1;
    }
    Ok(code_lengths)
}

/// Reads what a repeat symbol stands for: the length to repeat and how
/// often.
fn read_repeat(reader: &mut ScryByteReader, symbol: u16, sofar: &Vec<u8>) -> (res: Result<
    (u8, usize),
    ScryError,
>)
    requires
        old(reader)@.wf(),
    ensures
        final(reader)@.follows(old(reader)@),
        match take_repeat(old(reader)@, symbol, sofar@) {
            Ok(((value, times), after)) => res is Ok && res->Ok_0.0 == value && res->Ok_0.1
                == times && final(reader)@ == after,
            Err(e) => res is Err && res->Err_0 == e,
        },
        res matches Ok((value, times)) ==> 3 <= times <= 138 && (value == 0 || (sofar@.len() > 0
            && value == sofar@.last())),
{
    proof {
        reveal_with_fuel(two_pow, 8);
        assert(two_pow(2) == 4);
        assert(two_pow(3) == 8);
        assert(two_pow(7) == 128);
    }
    if symbol == 16 {
        if sofar.len() == 0 {
            return Err(ScryError::InvalidDynamicBlockCodeLength);
        }
        let value = sofar[sofar.len() - 1];
        let k = reader.read_n_bits_le(2)?;
        Ok((value, 3 + k as usize))
    } else if symbol == 17 {
        let k = reader.read_n_bits_le(3)?;
        Ok((0, 3 + k as usize))
    } else if symbol == 18 {
        let k = reader.read_n_bits_le(7)?;
        Ok((0, 11 + k as usize))
    } else {
        Err(
            ScryError::InvalidHuffmanCode {
                code: symbol,
                position: reader.position(),
                bit: reader.bit_position(),
            },
        )
    }
}

/// Reads the `total` code lengths of the two tables of a dynamic block.
fn read_lengths(reader: &mut ScryByteReader, tree: &HuffmanTree, total: usize) -> (res: Result<
    Vec<u8>,
    ScryError,
>)
    requires
        old(reader)@.wf(),
        total <= 65536,
    ensures
        final(reader)@.follows(old(reader)@),
        match take_lengths(old(reader)@, tree@, total as nat, Seq::empty()) {
            Ok((lens, after)) => res is Ok && res->Ok_0@ == lens && final(reader)@ == after,
            Err(e) => res is Err && res->Err_0 == e,
        },
        res matches Ok(lens) ==> lens@.len() == total && forall|k: int|
            0 <= k < lens@.len() ==> lens@[k] <= 15,
{
    let mut lens: Vec<u8> = Vec::new();
    loop
        invariant
            lens@.len() <= total <= 65536,
            reader@.follows(old(reader)@),
            forall|k: int| 0 <= k < lens@.len() ==> lens@[k] <= 15,
            take_lengths(old(reader)@, tree@, total as nat, Seq::empty()) == take_lengths(
                reader@,
                tree@,
                total as nat,
                lens@,
            ),
        decreases total - lens@.len(),
    {
        if lens.len() >= total {
            return Ok(lens);
        }
        let symbol = decode_with(reader, tree)?;
        if symbol < 16 {
            lens.push(symbol as u8);
        } else {
            let (value, times) = read_repeat(reader, symbol, &lens)?;
            if times > total - lens.len() {
                return Err(ScryError::InvalidDynamicBlockCodeLength);
            }
            let ghost before = lens@;
            let mut j: usize = 0;
            while j < times
                invariant
                    j <= times,
                    value <= 15,
                    before.len() + times <= total,
                    lens@ == before + Seq::new(j as nat, |i: int| value),
                    forall|k: int| 0 <= k < before.len() ==> before[k] <= 15,
                decreases times - j,
            {
                lens.push(value);
                j = j + 1;
                proof {
                    assert(lens@ =~= before + Seq::new(j as nat, |i: int| value));
                }
            }
        }
    }
}

/// Reads the header of a dynamic block and builds its two tables.
fn read_dynamic_trees(reader: &mut ScryByteReader) -> (res: Result<
    (HuffmanTree, HuffmanTree),
    ScryError,
>)
    requires
        old(reader)@.wf(),
    ensures
        final(reader)@.follows(old(reader)@),
        match parse_dynamic_trees(old(reader)@) {
            Ok((trees, after)) => res is Ok && res->Ok_0.0@ == trees.symbol_tree && res->Ok_0.1@
                == trees.distance_tree && final(reader)@ == after,
            Err(e) => res is Err && res->Err_0 == e,
        },
        res is Ok ==> final(reader)@.bits_left() < old(reader)@.bits_left(),
{
    proof {
        reveal_with_fuel(two_pow, 6);
        assert(two_pow(5) == 32);
        assert(two_pow(4) == 16);
    }
    let num_literals = reader.read_n_bits_le(5)? + 257;
    let num_dists = reader.read_n_bits_le(5)? + 1;
    let num_code_lengths = reader.read_n_bits_le(4)? + 4;
    let code_lengths = read_code_lengths(reader, num_code_lengths)?;
    let cl_tree = HuffmanTree::new(code_lengths.as_slice());
    let total = num_literals as usize + num_dists as usize;
    let combined = read_lengths(reader, &cl_tree, total)?;
    let num_literals = num_literals as usize;
    let symbol_tree = HuffmanTree::new(slice_subrange(combined.as_slice(), 0, num_literals));
    let distance_tree = HuffmanTree::new(slice_subrange(combined.as_slice(), num_literals, total));
    Ok((symbol_tree, distance_tree))
}

/// The state of the decoder. The two tables of the block being decoded
/// belong to the state and move with it.
pub enum DeflatorState {
    /// A member header is due, or the end of the input.
    GZIPHeader,
    /// A block header is due.
    BlockHeader,
    /// The header of a stored block is due.
    PrepareNonCompressedBlock,
    /// `len` bytes of a stored block are still to be copied.
    NonCompressedBlock { len: u16 },
    /// The header of a dynamic block is due.
    PrepareDynamicBlock,
    /// Symbols of a compressed block are due.
    DecodeBlock { symbol_tree: HuffmanTree, distance_tree: HuffmanTree },
    /// A back-reference of `len` bytes is in the window; `current` of them
    /// were written out.
    WriteLookback { current: u16, len: u16, symbol_tree: HuffmanTree, distance_tree: HuffmanTree },
    /// A block has ended.
    CheckIfFinalBlock,
    /// The member trailer is due.
    GZIPFooter,
    /// The input has ended where a member could have begun.
    Done,
}

impl View for DeflatorState {
    type V = StateView;

    open spec fn view(&self) -> StateView {
        match self {
            DeflatorState::GZIPHeader => StateView::GZIPHeader,
            DeflatorState::BlockHeader => StateView::BlockHeader,
            DeflatorState::PrepareNonCompressedBlock => StateView::PrepareNonCompressedBlock,
            DeflatorState::NonCompressedBlock { len } => StateView::NonCompressedBlock {
                len: *len,
            },
            DeflatorState::PrepareDynamicBlock => StateView::PrepareDynamicBlock,
            DeflatorState::DecodeBlock { symbol_tree, distance_tree } => StateView::DecodeBlock {
                symbol_tree: symbol_tree@,
                distance_tree: distance_tree@,
            },
            DeflatorState::WriteLookback {
                current,
                len,
                symbol_tree,
                distance_tree,
            } => StateView::WriteLookback {
                current: *current,
                len: *len,
                symbol_tree: symbol_tree@,
                distance_tree: distance_tree@,
            },
            DeflatorState::CheckIfFinalBlock => StateView::CheckIfFinalBlock,
            DeflatorState::GZIPFooter => StateView::GZIPFooter,
            DeflatorState::Done => StateView::Done,
        }
    }
}

/// Which state the decoder is in, without the tables.
#[derive(Clone, Copy)]
pub enum StateKind {
    GZIPHeader,
    BlockHeader,
    PrepareNonCompressedBlock,
    NonCompressedBlock { len: u16 },
    PrepareDynamicBlock,
    DecodeBlock,
    WriteLookback { current: u16, len: u16 },
    CheckIfFinalBlock,
    GZIPFooter,
    Done,
}

pub open spec fn kind_of(s: StateView) -> StateKind {
    match s {
        StateView::GZIPHeader => StateKind::GZIPHeader,
        StateView::BlockHeader => StateKind::BlockHeader,
        StateView::PrepareNonCompressedBlock => StateKind::PrepareNonCompressedBlock,
        StateView::NonCompressedBlock { len } => StateKind::NonCompressedBlock { len },
        StateView::PrepareDynamicBlock => StateKind::PrepareDynamicBlock,
        StateView::DecodeBlock { .. } => StateKind::DecodeBlock,
        StateView::WriteLookback { current, len, .. } => StateKind::WriteLookback { current, len },
        StateView::CheckIfFinalBlock => StateKind::CheckIfFinalBlock,
        StateView::GZIPFooter => StateKind::GZIPFooter,
        StateView::Done => StateKind::Done,
    }
}

/// The streaming decoder: reads members from its reader, keeps the window,
/// and tells its checkpointer of every block.
pub struct Deflator {
    pub buffer: CircularBuffer,
    state: DeflatorState,
    in_final_block: bool,
    reader: ScryByteReader,
    checkpointer: Checkpointer,
    emitted: Ghost<Seq<u8>>,
    member_from: Ghost<nat>,
}

impl View for Deflator {
    type V = DeflatorView;

    closed spec fn view(&self) -> DeflatorView {
        DeflatorView {
            window: self.buffer@,
            state: self.state@,
            in_final_block: self.in_final_block,
            reader: self.reader@,
            checkpointer: self.checkpointer@,
            emitted: self.emitted@,
            member_from: self.member_from@,
        }
    }
}

/// Whether the block that the checkpointer last heard started lies before
/// the reader, near enough for distances in bits to fit an `isize`.
pub open spec fn start_behind(v: DeflatorView) -> bool {
    &&& v.reader.wf()
    &&& v.reader.data.len() * 8 + 8 <= isize::MAX
    &&& v.checkpointer.from_byte * 8 + v.checkpointer.from_bit + v.reader.bits_left()
        <= v.reader.data.len() * 8
    &&& v.checkpointer.from_bit < 8
}

/// From a start behind the reader, the distance to the reader fits.
pub proof fn lemma_start_behind(v: DeflatorView)
    requires
        start_behind(v),
    ensures
        v.reader.bit == 0 || v.reader.byte > 0,
        distance_fits(
            v.checkpointer.from_byte as int,
            v.checkpointer.from_bit as int,
            adjusted_byte(v.reader.byte as int, v.reader.bit as int),
            v.reader.bit as int,
        ),
{
}

/// How much a transition that wrote `n` bytes can have added to the window:
/// those bytes, and a back-reference whose bytes are still to be written.
pub open spec fn grown(before: DeflatorView, after: DeflatorView, n: usize) -> bool {
    after.window.total <= before.window.total + n + (if after.state is WriteLookback && !(
    before.state is WriteLookback) {
        290int
    } else {
        0int
    })
}

impl Deflator {
    /// The window is well-formed.
    pub closed spec fn window_wf(&self) -> bool {
        self.buffer.wf()
    }

    /// The decoder is well-formed: its window is, and its view is as a
    /// decoder's is between transitions.
    pub open spec fn wf(&self) -> bool {
        self.window_wf() && self@.ok()
    }

    /// The decoder is well-formed but for what a transition has written
    /// and not yet counted as emitted.
    pub open spec fn wf_after(&self, before: DeflatorView, out: Seq<u8>) -> bool {
        self.window_wf() && self@.sound() && coupled_after(before, self@, out)
    }

    /// The window of a well-formed decoder is lawful.
    pub proof fn lemma_window_lawful(&self)
        requires
            self.window_wf(),
        ensures
            self@.window.lawful(),
            self@.window.window.len() > 0,
    {
        self.buffer.lemma_capacity();
    }

    /// A decoder at the start of a member, with a window of 32 KiB.
    pub fn new(reader: ScryByteReader, checkpointer: Checkpointer) -> (d: Self)
        requires
            reader@.wf(),
            reader@.data.len() * 8 + 8 <= isize::MAX,
            checkpointer@.wf(),
            checkpointer@.starts == checkpointer@.ends,
            checkpointer@.bodies == checkpointer@.ends,
        ensures
            d.wf(),
            d@ == (DeflatorView {
                window: WindowView {
                    window: Seq::new(32768, |i: int| 0u8),
                    member: Seq::empty(),
                    block: Seq::empty(),
                    count: 0,
                    total: 0,
                    history: Seq::empty(),
                },
                state: StateView::GZIPHeader,
                in_final_block: false,
                reader: reader@,
                checkpointer: checkpointer@,
                emitted: Seq::empty(),
                member_from: 0,
            }),
    {
        let d = Self {
            buffer: CircularBuffer::new(THIRTY_TWO_KILOBYTES),
            state: DeflatorState::GZIPHeader,
            in_final_block: false,
            reader,
            checkpointer,
            emitted: Ghost(Seq::empty()),
            member_from: Ghost(0),
        };
        proof {
            assert(d@.emitted =~= d@.window.history.subrange(0, 0));
        }
        d
    }

    /// Reads the three bits a block starts with.
    pub fn read_block_header(&mut self) -> (res: Result<BlockHeader, ScryError>)
        requires
            old(self)@.reader.wf(),
        ensures
            agrees(res, final(self)@.reader, parse_block_header(old(self)@.reader)),
            final(self)@ == (DeflatorView { reader: final(self)@.reader, ..old(self)@ }),
            final(self)@.reader.follows(old(self)@.reader),
            old(self).window_wf() ==> final(self).window_wf(),
            res is Ok ==> final(self)@.reader.bits_left() == old(self)@.reader.bits_left() - 3,
    {
        take_block_header(&mut self.reader)
    }

    /// Decodes one symbol of `tree` from `reader`.
    pub fn decode(reader: &mut ScryByteReader, tree: &HuffmanTree) -> (res: Result<
        u16,
        ScryError,
    >)
        requires
            old(reader)@.wf(),
        ensures
            agrees(res, final(reader)@, decode_symbol(tree@, old(reader)@, 0, 0)),
            final(reader)@.follows(old(reader)@),
            res is Ok ==> final(reader)@.bits_left() < old(reader)@.bits_left(),
    {
        decode_with(reader, tree)
    }

    /// Tells the checkpointer that the body of the block starts where the
    /// reader is, and hands it the window.
    pub fn on_block_data_start(&mut self) -> (res: Result<(), ScryError>)
        requires
            old(self).window_wf(),
            start_behind(old(self)@),
        ensures
            res is Ok,
            final(self).window_wf(),
            final(self)@ == (DeflatorView {
                checkpointer: old(self)@.checkpointer.body_started(
                    old(self)@.reader.byte,
                    old(self)@.reader.bit,
                    old(self)@.window.window,
                ),
                ..old(self)@
            }),
    {
        proof {
            lemma_start_behind(self@);
        }
        let snapshot = match self.buffer.get_normalized_buffer() {
            Ok(v) => v,
            Err(e) => {
                return Err(e);
            },
        };
        self.checkpointer.on_block_data_start(
            self.reader.position(),
            self.reader.bit_position(),
            snapshot,
        )
    }

    /// Tells the checkpointer that the block ended where the reader is,
    /// with the checksum of the block's output.
    fn on_block_end(&mut self) -> (res: Result<(), ScryError>)
        requires
            old(self).window_wf(),
            start_behind(old(self)@),
            old(self)@.checkpointer.wf(),
            old(self)@.checkpointer.to_byte <= old(self)@.window.total,
        ensures
            res is Ok,
            final(self).window_wf(),
            final(self)@ == block_ended(old(self)@, old(self)@.reader, old(self)@.window),
    {
        proof {
            lemma_start_behind(self@);
        }
        let total = self.buffer.get_bytes_written();
        let sum = self.buffer.block_crc32();
        let r = self.checkpointer.on_block_end(
            self.reader.position(),
            self.reader.bit_position(),
            total,
            sum,
        );
        self.state = DeflatorState::CheckIfFinalBlock;
        r
    }

    /// Which state the decoder is in.
    fn kind(&self) -> (k: StateKind)
        ensures
            k == kind_of(self@.state),
    {
        match &self.state {
            DeflatorState::GZIPHeader => StateKind::GZIPHeader,
            DeflatorState::BlockHeader => StateKind::BlockHeader,
            DeflatorState::PrepareNonCompressedBlock => StateKind::PrepareNonCompressedBlock,
            DeflatorState::NonCompressedBlock { len } => StateKind::NonCompressedBlock {
                len: *len,
            },
            DeflatorState::PrepareDynamicBlock => StateKind::PrepareDynamicBlock,
            DeflatorState::DecodeBlock { .. } => StateKind::DecodeBlock,
            DeflatorState::WriteLookback { current, len, .. } => StateKind::WriteLookback {
                current: *current,
                len: *len,
            },
            DeflatorState::CheckIfFinalBlock => StateKind::CheckIfFinalBlock,
            DeflatorState::GZIPFooter => StateKind::GZIPFooter,
            DeflatorState::Done => StateKind::Done,
        }
    }

    fn step_gzip_header(&mut self) -> (res: Result<usize, ScryError>)
        requires
            old(self).wf(),
            old(self)@.state is GZIPHeader,
        ensures
            did_quietly(res, final(self)@, model_gzip_header(old(self)@)),
            res is Ok ==> final(self).wf_after(old(self)@, Seq::empty()) && advanced(
                old(self)@,
                final(self)@,
                0,
            ) && final(self)@.window.total == old(self)@.window.total,
    {
        match read_header(&mut self.reader) {
            Ok(_header) => {
                self.state = DeflatorState::BlockHeader;
                Ok(0)
            },
            Err(err) => match err {
                ScryError::ExpectedEOF => {
                    self.state = DeflatorState::Done;
                    Ok(0)
                },
                _ => Err(err),
            },
        }
    }

    fn step_block_header(&mut self) -> (res: Result<usize, ScryError>)
        requires
            old(self).wf(),
            old(self)@.state is BlockHeader,
        ensures
            did_quietly(res, final(self)@, model_block_header(old(self)@)),
            res is Ok ==> final(self).wf_after(old(self)@, Seq::empty()) && advanced(
                old(self)@,
                final(self)@,
                0,
            ) && final(self)@.window.total == old(self)@.window.total,
    {
        self.checkpointer.on_block_start(
            self.reader.position(),
            self.reader.bit_position(),
            self.buffer.get_bytes_written(),
        );
        let block_header = self.read_block_header()?;
        self.in_final_block = block_header.is_final;
        self.checkpointer.set_block_type(block_header.block_type);
        match block_header.block_type {
            BlockType::NoCompression => {
                self.state = DeflatorState::PrepareNonCompressedBlock;
            },
            BlockType::DynamicHuffman => {
                self.state = DeflatorState::PrepareDynamicBlock;
            },
            BlockType::FixedHuffman => {
                self.on_block_data_start()?;
                let symbol_tree = HuffmanTree::fixed();
                let distance_tree = HuffmanTree::fixed_dist();
                self.state = DeflatorState::DecodeBlock { symbol_tree, distance_tree };
            },
        }
        Ok(0)
    }

    fn step_prepare_stored(&mut self) -> (res: Result<usize, ScryError>)
        requires
            old(self).wf(),
            old(self)@.state is PrepareNonCompressedBlock,
        ensures
            did_quietly(res, final(self)@, model_prepare_stored(old(self)@)),
            res is Ok ==> final(self).wf_after(old(self)@, Seq::empty()) && advanced(
                old(self)@,
                final(self)@,
                0,
            ) && final(self)@.window.total == old(self)@.window.total,
    {
        self.reader.discard_until_next_byte();
        let len = self.reader.read_u16_le()?;
        let nlen = self.reader.read_u16_le()?;
        if nlen != !len {
            return Err(
                ScryError::InvalidNonCompressedBlockHeader { expected: !len, found: nlen },
            );
        }
        self.on_block_data_start()?;
        self.state = DeflatorState::NonCompressedBlock { len };
        Ok(0)
    }

    fn step_check_final(&mut self) -> (res: Result<usize, ScryError>)
        requires
            old(self).wf(),
            old(self)@.state is CheckIfFinalBlock,
        ensures
            did_quietly(res, final(self)@, model_check_final(old(self)@)),
            res is Ok ==> final(self).wf_after(old(self)@, Seq::empty()) && advanced(
                old(self)@,
                final(self)@,
                0,
            ) && final(self)@.window.total == old(self)@.window.total,
    {
        if self.in_final_block {
            self.state = DeflatorState::GZIPFooter;
        } else {
            self.state = DeflatorState::BlockHeader;
        }
        Ok(0)
    }

    fn step_footer(&mut self) -> (res: Result<usize, ScryError>)
        requires
            old(self).wf(),
            old(self)@.state is GZIPFooter,
        ensures
            did_quietly(res, final(self)@, model_footer(old(self)@)),
            res is Ok ==> final(self).wf_after(old(self)@, Seq::empty()) && advanced(
                old(self)@,
                final(self)@,
                0,
            ) && final(self)@.window.total == old(self)@.window.total,
    {
        self.reader.discard_until_next_byte();
        let crc32_expected = self.buffer.crc32();
        let crc32 = self.reader.read_u32_le()?;
        if crc32_expected != crc32 {
            return Err(
                ScryError::InvalidGZIPCRC {
                    position: self.reader.position(),
                    expected: crc32_expected,
                    found: crc32,
                },
            );
        }
        let isize_expected = self.buffer.counter();
        let isize = self.reader.read_u32_le()?;
        if isize_expected != isize {
            return Err(
                ScryError::InvalidGZIPIsize {
                    position: self.reader.position(),
                    expected: isize_expected,
                    found: isize,
                },
            );
        }
        self.state = DeflatorState::GZIPHeader;
        proof {
            self.member_from@ = self@.window.history.len();
        }
        Ok(0)
    }

    fn step_prepare_dynamic(&mut self) -> (res: Result<usize, ScryError>)
        requires
            old(self).wf(),
            old(self)@.state is PrepareDynamicBlock,
        ensures
            did_quietly(res, final(self)@, model_prepare_dynamic(old(self)@)),
            res is Ok ==> final(self).wf_after(old(self)@, Seq::empty()) && advanced(
                old(self)@,
                final(self)@,
                0,
            ) && final(self)@.window.total == old(self)@.window.total,
    {
        let (symbol_tree, distance_tree) = read_dynamic_trees(&mut self.reader)?;
        self.on_block_data_start()?;
        self.state = DeflatorState::DecodeBlock { symbol_tree, distance_tree };
        Ok(0)
    }

    fn step_stored(&mut self, buf: &mut [u8], len: u16) -> (res: Result<usize, ScryError>)
        requires
            old(self).wf(),
            old(self)@.state == (StateView::NonCompressedBlock { len }),
            old(self)@.window.total + old(buf)@.len() <= usize::MAX,
        ensures
            final(buf)@.len() == old(buf)@.len(),
            did(
                res,
                final(self)@,
                old(buf)@,
                final(buf)@,
                model_stored_body(old(self)@, len, old(buf)@.len()),
            ),
            res matches Ok(n) ==> final(self).wf_after(
                old(self)@,
                final(buf)@.subrange(0, n as int),
            ) && (old(buf)@.len() > 0 ==> advanced(old(self)@, final(self)@, n)) && final(self)@.window.total <= old(self)@.window.total + n,
    {
        let space = buf.len();
        let num_bytes: usize = if (len as usize) < space {
            len as usize
        } else {
            space
        };
        match copy_stored(&mut self.reader, &mut self.buffer, buf, num_bytes) {
            Err(e) => {
                return Err(e);
            },
            Ok(_) => {},
        }
        proof {
            let h = old(self)@.window.history;
            assert(old(self)@.emitted =~= h);
            assert(old(self)@.emitted + buf@.subrange(0, num_bytes as int)
                =~= self@.window.history.subrange(0, self@.window.history.len() as int));
        }
        let remaining = len - num_bytes as u16;
        if remaining == 0 {
            match self.on_block_end() {
                Err(e) => {
                    return Err(e);
                },
                Ok(_) => {},
            }
        } else {
            self.state = DeflatorState::NonCompressedBlock { len: remaining };
        }
        Ok(num_bytes)
    }

    fn step_decode_block(&mut self, buf: &mut [u8]) -> (res: Result<usize, ScryError>)
        requires
            old(self).wf(),
            old(self)@.state is DecodeBlock,
            old(self)@.window.total + old(buf)@.len() + 290 <= usize::MAX,
        ensures
            final(buf)@.len() == old(buf)@.len(),
            did(
                res,
                final(self)@,
                old(buf)@,
                final(buf)@,
                model_decode_block(
                    old(self)@,
                    old(self)@.state->DecodeBlock_symbol_tree,
                    old(self)@.state->DecodeBlock_distance_tree,
                    old(buf)@.len(),
                ),
            ),
            res matches Ok(n) ==> final(self).wf_after(
                old(self)@,
                final(buf)@.subrange(0, n as int),
            ) && (old(buf)@.len() > 0 ==> advanced(old(self)@, final(self)@, n)) && grown(
                old(self)@,
                final(self)@,
                n,
            ),
    {
        let mut state = DeflatorState::Done;
        std::mem::swap(&mut self.state, &mut state);
        match state {
            DeflatorState::DecodeBlock { symbol_tree, distance_tree } => {
                match run_symbols(
                    &mut self.reader,
                    &mut self.buffer,
                    &symbol_tree,
                    &distance_tree,
                    buf,
                ) {
                    Err(e) => {
                        self.state = DeflatorState::DecodeBlock { symbol_tree, distance_tree };
                        Err(e)
                    },
                    Ok((n, end)) => {
                        proof {
                            let h = old(self)@.window.history;
                            assert(old(self)@.emitted =~= h);
                            assert(old(self)@.emitted + buf@.subrange(0, n as int)
                                =~= self@.window.history.subrange(0, h.len() + n));
                        }
                        match end {
                            RunEnd::Full => {
                                self.state =
                                DeflatorState::DecodeBlock { symbol_tree, distance_tree };
                            },
                            RunEnd::EndOfBlock => {
                                match self.on_block_end() {
                                    Err(e) => {
                                        return Err(e);
                                    },
                                    Ok(_) => {},
                                }
                            },
                            RunEnd::Lookback { len } => {
                                self.state =
                                DeflatorState::WriteLookback {
                                    current: 0,
                                    len,
                                    symbol_tree,
                                    distance_tree,
                                };
                            },
                        }
                        Ok(n)
                    },
                }
            },
            _ => Ok(0),
        }
    }

    fn step_write_lookback(&mut self, buf: &mut [u8], current: u16, len: u16) -> (res: Result<
        usize,
        ScryError,
    >)
        requires
            old(self).wf(),
            old(self)@.state matches StateView::WriteLookback { current: c, len: l, .. } && c
                == current && l == len,
        ensures
            final(buf)@.len() == old(buf)@.len(),
            did(
                res,
                final(self)@,
                old(buf)@,
                final(buf)@,
                model_write_lookback(
                    old(self)@,
                    current,
                    len,
                    old(self)@.state->WriteLookback_symbol_tree,
                    old(self)@.state->WriteLookback_distance_tree,
                    old(buf)@.len(),
                ),
            ),
            res matches Ok(n) ==> final(self).wf_after(
                old(self)@,
                final(buf)@.subrange(0, n as int),
            ) && (old(buf)@.len() > 0 ==> advanced(old(self)@, final(self)@, n)) && final(self)@.window.total == old(self)@.window.total && (old(buf)@.len() > 0 ==> n > 0),
    {
        let space = buf.len();
        let left = (len - current) as usize;
        let num_bytes: usize = if left < space {
            left
        } else {
            space
        };
        let head = match self.buffer.head(len) {
            Ok(v) => v,
            Err(e) => {
                return Err(e);
            },
        };
        let mut k: usize = 0;
        proof {
            assert(buf@ =~= filled(old(buf)@, head@.subrange(current as int, current as int)));
            self.lemma_window_lawful();
            crate::circle::lemma_newest_is_history(self@.window, len as nat);
        }
        while k < num_bytes
            invariant
                k <= num_bytes,
                num_bytes <= space,
                current + num_bytes <= len,
                head@.len() == len,
                buf@.len() == space,
                space == old(buf)@.len(),
                buf@ == filled(old(buf)@, head@.subrange(current as int, current + k)),
            decreases num_bytes - k,
        {
            buf[k] = head[current as usize + k];
            k = k + 1;
            proof {
                assert(buf@ =~= filled(old(buf)@, head@.subrange(current as int, current + k)));
            }
        }
        proof {
            let h = self@.window.history;
            let out = head@.subrange(current as int, current + num_bytes);
            assert(buf@.subrange(0, num_bytes as int) =~= out);
            assert(out =~= h.subrange(
                h.len() - len + current,
                h.len() - len + current + num_bytes,
            ));
            assert(old(self)@.emitted + out =~= h.subrange(
                0,
                h.len() - (len - current - num_bytes),
            ));
        }
        let mut state = DeflatorState::Done;
        std::mem::swap(&mut self.state, &mut state);
        match state {
            DeflatorState::WriteLookback { symbol_tree, distance_tree, .. } => {
                if current as usize + num_bytes == len as usize {
                    self.state = DeflatorState::DecodeBlock { symbol_tree, distance_tree };
                } else {
                    self.state =
                    DeflatorState::WriteLookback {
                        current: current + num_bytes as u16,
                        len,
                        symbol_tree,
                        distance_tree,
                    };
                }
            },
            _ => {},
        }
        Ok(num_bytes)
    }

    /// Makes one transition, writing what it produces to the front of
    /// `buf`, and returns how many bytes that is. A transition may write
    /// nothing though the stream has not ended.
    pub fn state_transition(&mut self, buf: &mut [u8]) -> (res: Result<usize, ScryError>)
        requires
            old(self).wf(),
            old(self)@.state is WriteLookback || old(self)@.window.total + old(buf)@.len() + 290
                <= usize::MAX,
        ensures
            final(buf)@.len() == old(buf)@.len(),
            did(res, final(self)@, old(buf)@, final(buf)@, step(old(self)@, old(buf)@.len())),
            res matches Ok(n) ==> final(self).wf() && (old(buf)@.len() > 0 ==> advanced(
                old(self)@,
                final(self)@,
                n,
            )) && grown(old(self)@, final(self)@, n) && (old(buf)@.len() > 0 && old(self)@.state is WriteLookback ==> n > 0),
    {
        proof {
            reveal(step);
            assert(buf@ =~= filled(buf@, Seq::<u8>::empty()));
            assert(buf@.subrange(0, 0) =~= Seq::<u8>::empty());
            assert(self@.emitted + Seq::<u8>::empty() =~= self@.emitted);
        }
        let res = match self.kind() {
            StateKind::GZIPHeader => self.step_gzip_header(),
            StateKind::BlockHeader => self.step_block_header(),
            StateKind::PrepareNonCompressedBlock => self.step_prepare_stored(),
            StateKind::NonCompressedBlock { len } => self.step_stored(buf, len),
            StateKind::PrepareDynamicBlock => self.step_prepare_dynamic(),
            StateKind::DecodeBlock => self.step_decode_block(buf),
            StateKind::WriteLookback { current, len } => self.step_write_lookback(
                buf,
                current,
                len,
            ),
            StateKind::CheckIfFinalBlock => self.step_check_final(),
            StateKind::GZIPFooter => self.step_footer(),
            StateKind::Done => Ok(0),
        };
        proof {
            match res {
                Ok(n) => {
                    let out = buf@.subrange(0, n as int);
                    let s = transition(old(self)@, old(buf)@.len())->Ok_0;
                    assert(s.out =~= out);
                    self.emitted@ = self.emitted@ + out;
                },
                Err(_) => {},
            }
        }
        res
    }

    /// The checkpointer, with the checkpoints of the blocks met so far.
    pub fn checkpointer(&self) -> (c: &Checkpointer)
        ensures
            c@ == self@.checkpointer,
    {
        &self.checkpointer
    }

    /// Hands over the checkpoints gathered so far, oldest first, unless the
    /// decoder is inside the body of a block: then none is handed over.
    pub fn take_checkpoints(&mut self) -> (r: Vec<Checkpoint>)
        requires
            old(self).wf(),
        ensures
            final(self).wf(),
            final(self)@ == (DeflatorView {
                checkpointer: final(self)@.checkpointer,
                ..old(self)@
            }),
            old(self)@.checkpointer.in_flight() ==> r@.len() == 0 && final(self)@ == old(self)@,
            !old(self)@.checkpointer.in_flight() ==> final(self)@.checkpointer == (
            CheckpointerView {
                records: Seq::empty(),
                current: None,
                ..old(self)@.checkpointer
            }) && r@.len() == old(self)@.checkpointer.records.len() && (forall|i: int|
                0 <= i < r@.len() ==> r@[i]@ == old(self)@.checkpointer.records[i]),
    {
        self.checkpointer.take_finished()
    }

    /// Whether the stream has ended.
    pub fn is_done(&self) -> (b: bool)
        ensures
            b == (self@.state is Done),
    {
        match self.kind() {
            StateKind::Done => true,
            _ => false,
        }
    }

    /// How many bytes the decoder has given its window so far.
    pub fn bytes_written(&self) -> (n: usize)
        ensures
            n == self@.window.total,
    {
        self.buffer.get_bytes_written()
    }

    /// Decodes into `buf`: makes transitions until one writes at least one
    /// byte or the stream has ended, and returns how many bytes were
    /// written. Zero means the end of the stream. A buffer so large that
    /// the count of bytes written could overflow is refused.
    pub fn read(&mut self, buf: &mut [u8]) -> (res: Result<usize, ScryError>)
        requires
            old(self).wf(),
            old(buf)@.len() > 0,
        ensures
            final(buf)@.len() == old(buf)@.len(),
            old(self)@.window.total + old(buf)@.len() + 290 > usize::MAX ==> res == Err::<
                usize,
                ScryError,
            >(ScryError::BufferSizeTooLarge) && final(self)@ == old(self)@ && final(buf)@ == old(
                buf,
            )@ && final(self).wf(),
            old(self)@.window.total + old(buf)@.len() + 290 <= usize::MAX ==> exists|k: nat|
                settled(#[trigger] pull(old(self)@, old(buf)@.len(), k)) && did(
                    res,
                    final(self)@,
                    old(buf)@,
                    final(buf)@,
                    pull(old(self)@, old(buf)@.len(), k),
                ),
            res matches Ok(n) ==> final(self).wf() && 0 <= n <= old(buf)@.len() && (n == 0
                ==> final(self)@.state is Done),
    {
        let room = buf.len();
        if room > usize::MAX - 290 || self.buffer.get_bytes_written() > usize::MAX - 290 - room {
            return Err(ScryError::BufferSizeTooLarge);
        }
        let ghost start = self@;
        let ghost space = buf@.len();
        let ghost mut k: nat = 0;
        loop
            invariant
                self.wf(),
                space == old(buf)@.len(),
                space > 0,
                start == old(self)@,
                buf@ == old(buf)@,
                self@.state is WriteLookback || self@.window.total <= start.window.total,
                start.window.total + space + 290 <= usize::MAX,
                forall|m: nat| #[trigger] pull(self@, space, m) == pull(start, space, k + m),
            decreases self@.reader.bits_left(), rank(self@.state),
        {
            let ghost before = self@;
            let r = self.state_transition(buf);
            proof {
                lemma_pull_zero(before, space);
                assert(pull(before, space, 0) == pull(start, space, k + 0));
            }
            match r {
                Err(e) => {
                    return Err(e);
                },
                Ok(n) => {
                    if n > 0 || self.is_done() {
                        return Ok(n);
                    }
                    proof {
                        assert(buf@ =~= old(buf)@);
                        assert forall|m: nat| #[trigger]
                            pull(self@, space, m) == pull(start, space, k + 1 + m) by {
                            assert(pull(before, space, m + 1) == pull(start, space, k + (m + 1)));
                            lemma_pull_next(before, space, m);
                        }
                        k = k + 1;
                    }
                },
            }
        }
    }
}

} // verus!
