use vstd::prelude::*;
use crate::decompress::BlockType;
use crate::errors::ScryError;

verus! {

/// The byte in which the bit at a reader position lies: the reader has
/// already stepped past a byte once it has handed out one of its bits.
pub open spec fn adjusted_byte(byte: int, bit: int) -> int {
    if bit == 0 {
        byte
    } else {
        byte - 1
    }
}

/// The number of bits from bit `bit1` of byte `byte1` to bit `bit2` of byte
/// `byte2`.
pub open spec fn bit_distance(byte1: int, bit1: int, byte2: int, bit2: int) -> int {
    (byte2 - byte1) * 8 + (bit2 - bit1)
}

/// Whether that distance can be computed in an `isize`.
pub open spec fn distance_fits(byte1: int, bit1: int, byte2: int, bit2: int) -> bool {
    &&& byte1 <= isize::MAX
    &&& byte2 <= isize::MAX
    &&& isize::MIN <= (byte2 - byte1) * 8 <= isize::MAX
    &&& isize::MIN <= bit_distance(byte1, bit1, byte2, bit2) <= isize::MAX
}

/// The distance in bits between two positions of the input.
pub fn dist_in_bits(byte1: usize, bit1: u8, byte2: usize, bit2: u8) -> (d: isize)
    requires
        distance_fits(byte1 as int, bit1 as int, byte2 as int, bit2 as int),
    ensures
        d == bit_distance(byte1 as int, bit1 as int, byte2 as int, bit2 as int),
{
    let bit2 = bit2 as isize;
    let bit1 = bit1 as isize;
    let byte1 = byte1 as isize;
    let byte2 = byte2 as isize;
    ((byte2 - byte1) * 8) + (bit2 - bit1)
}

/// What is known of a block once it has ended.
#[derive(Debug, Clone, Copy, PartialEq, Eq)]
pub struct BlockEnd {
    /// Bits from the first bit of the block header to the end of the block.
    pub block_len_bits: isize,
    /// Bytes of output that the block produced.
    pub len: usize,
    /// CRC-32 of exactly those bytes.
    pub crc32: u32,
}

/// One checkpoint: where a block starts in the input and in the output,
/// and the window as it was when the block's body began.
#[derive(Debug, PartialEq, Eq)]
pub struct Checkpoint {
    /// The byte of the input in which the block header starts.
    pub from_byte: usize,
    /// The bit of that byte at which it starts.
    pub from_bit: u8,
    /// How many bytes of output came before the block.
    pub to_byte: usize,
    pub block_type: BlockType,
    /// Bits from the first bit of the block header to the first of the body.
    pub header_len_bits: isize,
    /// The window at the start of the body, oldest byte first.
    pub data: Vec<u8>,
    /// Filled in when the block ends.
    pub end: Option<BlockEnd>,
}

/// A checkpoint, to the contracts: the window as the bytes it holds.
pub struct CheckpointView {
    pub from_byte: usize,
    pub from_bit: u8,
    pub to_byte: usize,
    pub block_type: BlockType,
    pub header_len_bits: isize,
    pub data: Seq<u8>,
    pub end: Option<BlockEnd>,
}

impl View for Checkpoint {
    type V = CheckpointView;

    open spec fn view(&self) -> CheckpointView {
        CheckpointView {
            from_byte: self.from_byte,
            from_bit: self.from_bit,
            to_byte: self.to_byte,
            block_type: self.block_type,
            header_len_bits: self.header_len_bits,
            data: self.data@,
            end: self.end,
        }
    }
}

/// What a checkpointer is, to the contracts.
pub struct CheckpointerView {
    /// The type announced for the block that was last started.
    pub block_type: BlockType,
    /// Where the block that was last started begins: byte and bit of the input.
    pub from_byte: usize,
    pub from_bit: u8,
    /// How many bytes of output came before it.
    pub to_byte: usize,
    /// The checkpoints held, oldest first.
    pub records: Seq<CheckpointView>,
    /// The place in `records` of the checkpoint that the next block end
    /// completes, if it is held.
    pub current: Option<usize>,
    /// How many block starts, body starts and block ends were notified.
    pub starts: nat,
    pub bodies: nat,
    pub ends: nat,
}

/// Receives the three notifications of each block and keeps the checkpoints
/// they add up to.
pub struct Checkpointer {
    emit_block_type: BlockType,
    emit_byte: usize,
    emit_bit: u8,
    to_byte: usize,
    records: Vec<Checkpoint>,
    current_block_id: Option<usize>,
    starts: Ghost<nat>,
    bodies: Ghost<nat>,
    ends: Ghost<nat>,
}

impl View for Checkpointer {
    type V = CheckpointerView;

    closed spec fn view(&self) -> CheckpointerView {
        CheckpointerView {
            block_type: self.emit_block_type,
            from_byte: self.emit_byte,
            from_bit: self.emit_bit,
            to_byte: self.to_byte,
            records: Seq::new(self.records@.len(), |i: int| self.records@[i]@),
            current: self.current_block_id,
            starts: self.starts@,
            bodies: self.bodies@,
            ends: self.ends@,
        }
    }
}

impl CheckpointerView {
    /// The index in `records` is that of a record.
    pub open spec fn wf(self) -> bool {
        match self.current {
            Some(i) => i < self.records.len(),
            None => true,
        }
    }

    /// Whether a checkpoint is held whose block has not ended.
    pub open spec fn in_flight(self) -> bool {
        match self.current {
            Some(i) => i < self.records.len() && self.records[i as int].end is None,
            None => false,
        }
    }

    /// The view after a block start was notified at the reader position
    /// `curr_byte`, `bit`, with `to_byte` bytes of output before it.
    pub open spec fn started(self, curr_byte: usize, bit: u8, to_byte: usize) -> CheckpointerView {
        CheckpointerView {
            from_byte: adjusted_byte(curr_byte as int, bit as int) as usize,
            from_bit: bit,
            to_byte,
            starts: self.starts + 1,
            ..self
        }
    }

    /// The checkpoint that a body start at the reader position `curr_byte`,
    /// `bit` adds, with `data` as the window.
    pub open spec fn opened(self, curr_byte: usize, bit: u8, data: Seq<u8>) -> CheckpointView {
        CheckpointView {
            from_byte: self.from_byte,
            from_bit: self.from_bit,
            to_byte: self.to_byte,
            block_type: self.block_type,
            header_len_bits: bit_distance(
                self.from_byte as int,
                self.from_bit as int,
                adjusted_byte(curr_byte as int, bit as int),
                bit as int,
            ) as isize,
            data,
            end: None,
        }
    }

    /// What a block end at the reader position `curr_byte`, `bit` reports,
    /// with `to_byte` bytes of output so far and `crc32` over the block's.
    pub open spec fn closing(self, curr_byte: usize, bit: u8, to_byte: usize, crc32: u32)
        -> BlockEnd {
        BlockEnd {
            block_len_bits: bit_distance(
                self.from_byte as int,
                self.from_bit as int,
                adjusted_byte(curr_byte as int, bit as int),
                bit as int,
            ) as isize,
            len: (to_byte - self.to_byte) as usize,
            crc32,
        }
    }

    /// The view after a body start at the reader position `curr_byte`, `bit`,
    /// with `data` as the window: one more checkpoint, which the next block
    /// end completes.
    pub open spec fn body_started(self, curr_byte: usize, bit: u8, data: Seq<u8>)
        -> CheckpointerView {
        CheckpointerView {
            records: self.records.push(self.opened(curr_byte, bit, data)),
            current: Some(self.records.len() as usize),
            bodies: self.bodies + 1,
            ..self
        }
    }

    /// The view after that block end.
    pub open spec fn ended(self, curr_byte: usize, bit: u8, to_byte: usize, crc32: u32)
        -> CheckpointerView {
        CheckpointerView {
            records: match self.current {
                Some(i) => self.records.update(
                    i as int,
                    CheckpointView {
                        end: Some(self.closing(curr_byte, bit, to_byte, crc32)),
                        ..self.records[i as int]
                    },
                ),
                None => self.records,
            },
            ends: self.ends + 1,
            ..self
        }
    }
}

/// The name under which a block type is stored.
pub fn block_type_name(block_type: BlockType) -> (name: &'static str)
    ensures
        name@ == match block_type {
            BlockType::NoCompression => "nocompression"@,
            BlockType::FixedHuffman => "fixed"@,
            BlockType::DynamicHuffman => "dynamic"@,
        },
{
    match block_type {
        BlockType::NoCompression => "nocompression",
        BlockType::FixedHuffman => "fixed",
        BlockType::DynamicHuffman => "dynamic",
    }
}

/// The character of one hexadecimal digit, in lower case.
pub open spec fn hex_digit(d: nat) -> u8 {
    if d < 10 {
        (48 + d) as u8
    } else {
        (87 + d) as u8
    }
}

/// A number in hexadecimal, lower case, without leading zeros.
pub open spec fn hex_digits(n: nat) -> Seq<u8>
    decreases n,
{
    if n < 16 {
        seq![hex_digit(n)]
    } else {
        hex_digits(n / 16).push(hex_digit(n % 16))
    }
}

/// Appends the hexadecimal digits of `n` to `out`.
fn hex_into(n: u32, out: &mut Vec<u8>)
    ensures
        final(out)@ == old(out)@ + hex_digits(n as nat),
    decreases n,
{
    if n >= 16 {
        hex_into(n / 16, out);
    }
    let d = (n % 16) as u8;
    let c = if d < 10 {
        48 + d
    } else {
        87 + d
    };
    out.push(c);
    proof {
        if n >= 16 {
            assert(out@ =~= old(out)@ + hex_digits((n / 16) as nat).push(c));
        } else {
            assert(out@ =~= old(out)@ + seq![c]);
        }
    }
}

/// The text under which the CRC-32 of a block is stored: hexadecimal, lower
/// case, without leading zeros.
pub fn crc32_hex(crc32: u32) -> (text: Vec<u8>)
    ensures
        text@ == hex_digits(crc32 as nat),
{
    let mut text: Vec<u8> = Vec::new();
    hex_into(crc32, &mut text);
    proof {
        assert(Seq::<u8>::empty() + hex_digits(crc32 as nat) =~= hex_digits(crc32 as nat));
    }
    text
}

impl Checkpointer {
    /// A checkpointer that keeps its checkpoints in memory and holds none.
    pub fn init_memory() -> (res: Result<Self, ScryError>)
        ensures
            res is Ok,
            res->Ok_0@ == (CheckpointerView {
                block_type: BlockType::NoCompression,
                from_byte: 0,
                from_bit: 0,
                to_byte: 0,
                records: Seq::empty(),
                current: None,
                starts: 0,
                bodies: 0,
                ends: 0,
            }),
    {
        let c = Self {
            emit_block_type: BlockType::NoCompression,
            emit_byte: 0,
            emit_bit: 0,
            to_byte: 0,
            records: Vec::new(),
            current_block_id: None,
            starts: Ghost(0),
            bodies: Ghost(0),
            ends: Ghost(0),
        };
        proof {
            assert(c@.records =~= Seq::empty());
        }
        Ok(c)
    }

    /// Notes the type of the block that was last started.
    pub fn set_block_type(&mut self, block_type: BlockType)
        ensures
            final(self)@ == (CheckpointerView { block_type, ..old(self)@ }),
    {
        self.emit_block_type = block_type;
        proof {
            assert(self@.records =~= old(self)@.records);
        }
    }

    /// To be called at the first bit of a block header, with the reader's
    /// position and the number of output bytes so far.
    pub fn on_block_start(&mut self, curr_byte: usize, bit: u8, to_byte: usize)
        requires
            bit == 0 || curr_byte > 0,
        ensures
            final(self)@ == old(self)@.started(curr_byte, bit, to_byte),
    {
        self.emit_byte = if bit == 0 {
            curr_byte
        } else {
            curr_byte - 1
        };
        self.emit_bit = bit;
        self.to_byte = to_byte;
        proof {
            self.starts@ = self.starts@ + 1;
            assert(self@.records =~= old(self)@.records);
        }
    }

    /// To be called at the first bit of a block body, with the reader's
    /// position and the whole window: adds the block's checkpoint.
    pub fn on_block_data_start(&mut self, curr_byte: usize, bit: u8, data: Vec<u8>) -> (res: Result<
        (),
        ScryError,
    >)
        requires
            bit == 0 || curr_byte > 0,
            distance_fits(
                old(self)@.from_byte as int,
                old(self)@.from_bit as int,
                adjusted_byte(curr_byte as int, bit as int),
                bit as int,
            ),
        ensures
            res is Ok,
            final(self)@ == old(self)@.body_started(curr_byte, bit, data@),
    {
        let body_byte = if bit == 0 {
            curr_byte
        } else {
            curr_byte - 1
        };
        let block_header_size_bits = dist_in_bits(self.emit_byte, self.emit_bit, body_byte, bit);
        let row = self.records.len();
        self.records.push(
            Checkpoint {
                from_byte: self.emit_byte,
                from_bit: self.emit_bit,
                to_byte: self.to_byte,
                block_type: self.emit_block_type,
                header_len_bits: block_header_size_bits,
                data,
                end: None,
            },
        );
        self.current_block_id = Some(row);
        proof {
            self.bodies@ = self.bodies@ + 1;
            assert(self@.records =~= old(self)@.records.push(
                old(self)@.opened(curr_byte, bit, data@),
            ));
        }
        Ok(())
    }

    /// To be called right after the end of a block, with the reader's
    /// position, the number of output bytes so far and the CRC-32 of the
    /// block's output: completes the block's checkpoint.
    pub fn on_block_end(&mut self, curr_byte: usize, bit: u8, to_byte: usize, crc32: u32) -> (res:
        Result<(), ScryError>)
        requires
            old(self)@.wf(),
            bit == 0 || curr_byte > 0,
            to_byte >= old(self)@.to_byte,
            distance_fits(
                old(self)@.from_byte as int,
                old(self)@.from_bit as int,
                adjusted_byte(curr_byte as int, bit as int),
                bit as int,
            ),
        ensures
            res is Ok,
            final(self)@ == old(self)@.ended(curr_byte, bit, to_byte, crc32),
    {
        let end_byte = if bit == 0 {
            curr_byte
        } else {
            curr_byte - 1
        };
        let entire_block_size_bits = dist_in_bits(self.emit_byte, self.emit_bit, end_byte, bit);
        let uncompressed_block_size = to_byte - self.to_byte;
        match self.current_block_id {
            Some(row) => {
                self.records[row].end = Some(
                    BlockEnd {
                        block_len_bits: entire_block_size_bits,
                        len: uncompressed_block_size,
                        crc32,
                    },
                );
                proof {
                    assert(self@.records =~= old(self)@.records.update(
                        row as int,
                        CheckpointView {
                            end: Some(old(self)@.closing(curr_byte, bit, to_byte, crc32)),
                            ..old(self)@.records[row as int]
                        },
                    ));
                }
            },
            None => {
                proof {
                    assert(self@.records =~= old(self)@.records);
                }
            },
        }
        proof {
            self.ends@ = self.ends@ + 1;
        }
        Ok(())
    }

    /// The checkpoints held, oldest first.
    pub fn records(&self) -> (r: &Vec<Checkpoint>)
        ensures
            r@.len() == self@.records.len(),
            forall|i: int| 0 <= i < r@.len() ==> r@[i]@ == self@.records[i],
    {
        &self.records
    }

    /// Hands over the checkpoints held, oldest first, unless the block of
    /// the last one has not ended yet: then none is handed over.
    pub fn take_finished(&mut self) -> (r: Vec<Checkpoint>)
        requires
            old(self)@.wf(),
        ensures
            final(self)@.wf(),
            old(self)@.in_flight() ==> r@.len() == 0 && final(self)@ == old(self)@,
            !old(self)@.in_flight() ==> final(self)@ == (CheckpointerView {
                records: Seq::empty(),
                current: None,
                ..old(self)@
            }) && r@.len() == old(self)@.records.len() && (forall|i: int|
                0 <= i < r@.len() ==> r@[i]@ == old(self)@.records[i]),
    {
        let in_flight = match self.current_block_id {
            Some(row) => self.records[row].end.is_none(),
            None => false,
        };
        let mut out: Vec<Checkpoint> = Vec::new();
        if !in_flight {
            std::mem::swap(&mut self.records, &mut out);
            self.current_block_id = None;
            proof {
                assert(self@.records =~= Seq::empty());
            }
        }
        out
    }
}

} // verus!
