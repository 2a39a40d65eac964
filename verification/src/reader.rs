use vstd::prelude::*;
use crate::checksum::Crc32Digest;
use crate::checksum::crc32_of;
use crate::checksum::digest_fed;
use crate::checksum::digest_new;
use crate::checksum::digest_restart;
use crate::checksum::digest_sum;
use crate::checksum::digest_update;
use crate::errors::ScryError;

verus! {

/// What a reader is, to the contracts: the whole input, the position in it,
/// and the bytes that crossed since the checksum scope was opened.
pub struct ReaderView {
    /// The input, from its first byte.
    pub data: Seq<u8>,
    /// How many bytes have been consumed.
    pub byte: usize,
    /// Which bit of the byte in `held` comes next; 0 when a new byte is due.
    pub bit: u8,
    /// The byte that bits are being handed out of.
    pub held: u8,
    /// The bytes consumed inside the open checksum scope, if one is open.
    pub scope: Option<Seq<u8>>,
}

/// The value of `n` bytes read least significant first.
pub open spec fn le_value(bytes: Seq<u8>) -> nat
    decreases bytes.len(),
{
    if bytes.len() == 0 {
        0
    } else {
        bytes[0] as nat + 256 * le_value(bytes.skip(1))
    }
}

pub open spec fn two_pow(n: nat) -> nat
    decreases n,
{
    if n == 0 {
        1
    } else {
        2 * two_pow((n - 1) as nat)
    }
}

/// The index of the first zero byte at or after `from`, if there is one.
pub open spec fn find_nul(data: Seq<u8>, from: int) -> Option<int>
    decreases data.len() - from,
{
    if from < 0 || from >= data.len() {
        None
    } else if data[from] == 0 {
        Some(from)
    } else {
        find_nul(data, from + 1)
    }
}

impl ReaderView {
    pub open spec fn wf(self) -> bool {
        &&& self.byte <= self.data.len() <= usize::MAX
        &&& self.bit < 8
        &&& self.bit > 0 ==> self.byte > 0
    }

    /// How many bits of the input are still to come.
    pub open spec fn bits_left(self) -> int {
        (self.data.len() - self.byte) * 8 + if self.bit == 0 {
            0int
        } else {
            8 - self.bit
        }
    }

    /// Whether this view can come after `before`: the same input, nothing
    /// given back.
    pub open spec fn follows(self, before: ReaderView) -> bool {
        &&& self.wf()
        &&& self.data == before.data
        &&& self.bits_left() <= before.bits_left()
    }

    /// The view after `n` more bytes were consumed at byte granularity.
    pub open spec fn advance(self, n: nat) -> ReaderView {
        ReaderView {
            byte: (self.byte + n) as usize,
            scope: match self.scope {
                Some(s) => Some(s + self.data.subrange(self.byte as int, self.byte + n)),
                None => None,
            },
            ..self
        }
    }

    /// Reading `n` bytes: the bytes and the view after them, or `EOF` where
    /// fewer than `n` are left.
    pub open spec fn take_bytes(self, n: nat) -> Result<(Seq<u8>, ReaderView), ScryError> {
        if self.byte + n <= self.data.len() {
            Ok((self.data.subrange(self.byte as int, self.byte + n), self.advance(n)))
        } else {
            Err(ScryError::EOF)
        }
    }

    pub open spec fn take_u8(self) -> Result<(u8, ReaderView), ScryError> {
        match self.take_bytes(1) {
            Ok((b, r)) => Ok((b[0], r)),
            Err(e) => Err(e),
        }
    }

    pub open spec fn take_u16_le(self) -> Result<(u16, ReaderView), ScryError> {
        match self.take_bytes(2) {
            Ok((b, r)) => Ok((le_value(b) as u16, r)),
            Err(e) => Err(e),
        }
    }

    pub open spec fn take_u32_le(self) -> Result<(u32, ReaderView), ScryError> {
        match self.take_bytes(4) {
            Ok((b, r)) => Ok((le_value(b) as u32, r)),
            Err(e) => Err(e),
        }
    }

    /// Reading the next bit: least significant bit first within each byte.
    pub open spec fn take_bit(self) -> Result<(u8, ReaderView), ScryError> {
        if self.bit == 0 {
            match self.take_u8() {
                Ok((b, r)) => Ok((b & 1, ReaderView { held: b, bit: 1, ..r })),
                Err(e) => Err(e),
            }
        } else {
            Ok(
                (
                    (self.held >> self.bit) & 1,
                    ReaderView { bit: ((self.bit + 1) % 8) as u8, ..self },
                ),
            )
        }
    }

    /// Reading `n` bits: the bit read at step `i` has weight `2^i`.
    pub open spec fn take_bits(self, n: nat) -> Result<(nat, ReaderView), ScryError>
        decreases n,
    {
        if n == 0 {
            Ok((0, self))
        } else {
            match self.take_bits((n - 1) as nat) {
                Ok((v, r)) => match r.take_bit() {
                    Ok((b, r2)) => Ok((v + b as nat * two_pow((n - 1) as nat), r2)),
                    Err(e) => Err(e),
                },
                Err(e) => Err(e),
            }
        }
    }

    pub open spec fn take_n_bits_le(self, n: u8) -> Result<(u16, ReaderView), ScryError> {
        if n > 16 {
            Err(ScryError::InvalidNumberOfBits { num: n })
        } else {
            match self.take_bits(n as nat) {
                Ok((v, r)) => Ok((v as u16, r)),
                Err(e) => Err(e),
            }
        }
    }

    /// Reading a NUL-terminated string: the text before the first zero byte,
    /// and the view after that byte.
    pub open spec fn take_cstring(self) -> Result<(Seq<char>, ReaderView), ScryError> {
        match find_nul(self.data, self.byte as int) {
            None => Err(ScryError::EOF),
            Some(end) => {
                let raw = self.data.subrange(self.byte as int, end);
                if vstd::utf8::valid_utf8(raw) {
                    Ok((vstd::utf8::decode_utf8(raw), self.advance((end + 1 - self.byte) as nat)))
                } else {
                    Err(ScryError::UTF8Invalid)
                }
            },
        }
    }

    /// The view after the rest of the current byte was dropped.
    pub open spec fn aligned(self) -> ReaderView {
        ReaderView { bit: 0, ..self }
    }
}

/// Whether a call that returned `res` and left the reader at `after` did what
/// `model` says: on success the value and the view, on failure the error.
/// Either way the reader is left well-formed.
pub open spec fn agrees<T>(
    res: Result<T, ScryError>,
    after: ReaderView,
    model: Result<(T, ReaderView), ScryError>,
) -> bool {
    &&& after.wf()
    &&& match model {
        Ok((v, r)) => res == Ok::<T, ScryError>(v) && after == r,
        Err(e) => res == Err::<T, ScryError>(e),
    }
}

/// A cursor over the compressed input that hands out bytes, little-endian
/// integers and single bits, and can checksum a span of what it hands out.
pub struct ScryByteReader {
    pub current_byte: usize,
    pub current_bit: u8,
    buffer: u8,
    inner: Vec<u8>,
    digest: Crc32Digest,
    digest_open: bool,
}

/// The reader under its other name.
pub type CorniferByteReader = ScryByteReader;

impl View for ScryByteReader {
    type V = ReaderView;

    closed spec fn view(&self) -> ReaderView {
        ReaderView {
            data: self.inner@,
            byte: self.current_byte,
            bit: self.current_bit,
            held: self.buffer,
            scope: if self.digest_open {
                Some(digest_fed(self.digest))
            } else {
                None
            },
        }
    }
}

impl ScryByteReader {
    /// A reader at the start of `data`, with no bit pending and no checksum
    /// scope open.
    pub fn new(data: Vec<u8>) -> (r: Self)
        ensures
            r@ == (ReaderView { data: data@, byte: 0, bit: 0, held: 0, scope: None }),
    {
        Self {
            current_byte: 0,
            current_bit: 0,
            buffer: 0,
            inner: data,
            digest: digest_new(),
            digest_open: false,
        }
    }

    /// Consumes `n` bytes, feeding them to the open checksum scope, and
    /// returns them.
    fn read_exact_internal(&mut self, n: usize) -> (res: Result<Vec<u8>, ScryError>)
        requires
            old(self)@.wf(),
        ensures
            agrees(
                match res {
                    Ok(v) => Ok(v@),
                    Err(e) => Err(e),
                },
                final(self)@,
                old(self)@.take_bytes(n as nat),
            ),
            final(self)@.follows(old(self)@),
            res is Ok ==> final(self)@.bits_left() == old(self)@.bits_left() - 8 * n,
    {
        if n > self.inner.len() - self.current_byte {
            return Err(ScryError::EOF);
        }
        let mut out: Vec<u8> = Vec::new();
        let start: usize = self.current_byte;
        let mut i: usize = 0;
        while i < n
            invariant
                i <= n,
                start + n <= self.inner.len(),
                self.current_byte == start + i,
                self.inner@ == old(self).inner@,
                self.current_bit == old(self).current_bit,
                self.buffer == old(self).buffer,
                self.digest_open == old(self).digest_open,
                old(self).current_byte == start,
                out@ == self.inner@.subrange(start as int, start + i),
                self.digest_open ==> digest_fed(self.digest) == digest_fed(old(self).digest)
                    + self.inner@.subrange(start as int, start + i),
            decreases n - i,
        {
            let b = self.inner[self.current_byte];
            if self.digest_open {
                digest_update(&mut self.digest, b);
            }
            out.push(b);
            self.current_byte = self.current_byte + 1;
            i = i + 1;
            proof {
                assert(self.inner@.subrange(start as int, start + i) =~= self.inner@.subrange(
                    start as int,
                    start + i - 1,
                ).push(b));
            }
        }
        proof {
            assert(self.inner@.subrange(start as int, start as int) =~= Seq::<u8>::empty());
        }
        Ok(out)
    }

    /// Reads one byte.
    pub fn read_u8(&mut self) -> (res: Result<u8, ScryError>)
        requires
            old(self)@.wf(),
        ensures
            agrees(res, final(self)@, old(self)@.take_u8()),
            final(self)@.follows(old(self)@),
            res is Ok ==> final(self)@.bits_left() == old(self)@.bits_left() - 8,
            res is Err ==> final(self)@ == old(self)@,
    {
        if self.current_byte >= self.inner.len() {
            return Err(ScryError::EOF);
        }
        let b = self.inner[self.current_byte];
        if self.digest_open {
            digest_update(&mut self.digest, b);
        }
        proof {
            assert(self.inner@.subrange(self.current_byte as int, self.current_byte + 1)
                =~= seq![b]);
            assert(digest_fed(old(self).digest).push(b) =~= digest_fed(old(self).digest)
                + seq![b]);
        }
        self.current_byte = self.current_byte + 1;
        Ok(b)
    }

    /// Reads two bytes as a little-endian integer.
    pub fn read_u16_le(&mut self) -> (res: Result<u16, ScryError>)
        requires
            old(self)@.wf(),
        ensures
            agrees(res, final(self)@, old(self)@.take_u16_le()),
            final(self)@.follows(old(self)@),
            res is Ok ==> final(self)@.bits_left() == old(self)@.bits_left() - 16,
    {
        let bytes = self.read_exact_internal(2)?;
        proof {
            lemma_le_value_2(bytes@);
        }
        Ok(bytes[0] as u16 + bytes[1] as u16 * 256)
    }

    /// Reads four bytes as a little-endian integer.
    pub fn read_u32_le(&mut self) -> (res: Result<u32, ScryError>)
        requires
            old(self)@.wf(),
        ensures
            agrees(res, final(self)@, old(self)@.take_u32_le()),
            final(self)@.follows(old(self)@),
            res is Ok ==> final(self)@.bits_left() == old(self)@.bits_left() - 32,
    {
        let bytes = self.read_exact_internal(4)?;
        proof {
            lemma_le_value_4(bytes@);
        }
        Ok(
            bytes[0] as u32 + bytes[1] as u32 * 256 + bytes[2] as u32 * 65536 + bytes[3] as u32
                * 16777216,
        )
    }

    /// Reads bytes up to and including the next zero byte and returns those
    /// before it as text.
    pub fn read_null_terminated_string(&mut self) -> (res: Result<String, ScryError>)
        requires
            old(self)@.wf(),
        ensures
            final(self)@.follows(old(self)@),
            res is Ok ==> final(self)@.bits_left() < old(self)@.bits_left(),
            match old(self)@.take_cstring() {
                Ok((text, after)) => res is Ok && res->Ok_0@ == text && final(self)@ == after,
                Err(e) => res == Err::<String, ScryError>(e),
            },
    {
        let mut v: Vec<u8> = Vec::new();
        let ghost start = self@;
        loop
            invariant_except_break
                v@ == start.data.subrange(start.byte as int, self@.byte as int),
                find_nul(start.data, start.byte as int) == find_nul(
                    start.data,
                    self@.byte as int,
                ),
            invariant
                start == old(self)@,
                start.wf(),
                self@.wf(),
                start.byte <= self@.byte,
                self@ == start.advance((self@.byte - start.byte) as nat),
            ensures
                start.byte < self@.byte,
                v@ == start.data.subrange(start.byte as int, self@.byte - 1),
                find_nul(start.data, start.byte as int) == Some(self@.byte - 1),
            decreases self@.data.len() - self@.byte,
        {
            let ghost before = self@;
            match self.read_u8() {
                Err(e) => {
                    return Err(e);
                },
                Ok(b) => {
                    proof {
                        let n = (before.byte - start.byte) as nat;
                        lemma_advance_twice(start, n, 1);
                        assert(before.data.subrange(before.byte as int, before.byte + 1)[0]
                            == b);
                    }
                    if b == 0 {
                        break ;
                    }
                    v.push(b);
                    proof {
                        assert(v@ =~= start.data.subrange(start.byte as int, self@.byte as int));
                    }
                },
            }
        }
        match string_from_utf8(v) {
            Some(text) => Ok(text),
            None => Err(ScryError::UTF8Invalid),
        }
    }

    /// Opens the checksum scope: every byte consumed from now on is summed.
    pub fn begin_crc(&mut self)
        ensures
            final(self)@ == (ReaderView { scope: Some(Seq::empty()), ..old(self)@ }),
    {
        digest_restart(&mut self.digest);
        self.digest_open = true;
    }

    /// Closes the checksum scope and returns the CRC-32 of the bytes consumed
    /// in it, or `None` where none was open.
    pub fn end_crc(&mut self) -> (res: Option<u32>)
        ensures
            final(self)@ == (ReaderView { scope: None, ..old(self)@ }),
            res == match old(self)@.scope {
                Some(bytes) => Some(crc32_of(bytes)),
                None => None,
            },
    {
        if self.digest_open {
            self.digest_open = false;
            Some(digest_sum(&self.digest))
        } else {
            None
        }
    }

    /// Reads the next bit, least significant first within each byte.
    pub fn read_bit(&mut self) -> (res: Result<u8, ScryError>)
        requires
            old(self)@.wf(),
        ensures
            agrees(res, final(self)@, old(self)@.take_bit()),
            res matches Ok(b) ==> b <= 1,
            final(self)@.follows(old(self)@),
            res is Ok ==> final(self)@.bits_left() == old(self)@.bits_left() - 1,
    {
        if self.current_bit == 0 {
            self.buffer = self.read_u8()?;
        }
        let held = self.buffer;
        let k = self.current_bit;
        proof {
            assert((held >> 0u8) & 1 == held & 1) by (bit_vector);
            assert((held >> k) & 1 <= 1) by (bit_vector);
        }
        let result = (held >> k) & 1;
        self.current_bit = (k + 1) % 8;
        Ok(result)
    }

    /// Reads `n` bits into an integer, first bit lowest.
    pub fn read_n_bits_le(&mut self, n: u8) -> (res: Result<u16, ScryError>)
        requires
            old(self)@.wf(),
        ensures
            agrees(res, final(self)@, old(self)@.take_n_bits_le(n)),
            res matches Ok(v) ==> n <= 16 && v < two_pow(n as nat),
            n <= 16 ==> (old(self)@.take_bits(n as nat) matches Ok((v, _)) ==> v < two_pow(
                n as nat,
            )),
            final(self)@.follows(old(self)@),
            res is Ok ==> final(self)@.bits_left() == old(self)@.bits_left() - n,
    {
        if n > 16 {
            return Err(ScryError::InvalidNumberOfBits { num: n });
        }
        let mut value: u32 = 0;
        let mut weight: u32 = 1;
        let mut i: u8 = 0;
        while i < n
            invariant
                i <= n <= 16,
                old(self)@.wf(),
                self@.wf(),
                old(self)@.take_bits(i as nat) == Ok::<(nat, ReaderView), ScryError>(
                    (value as nat, self@),
                ),
                weight == two_pow(i as nat),
                value < weight,
                self@.data == old(self)@.data,
                self@.bits_left() == old(self)@.bits_left() - i,
            decreases n - i,
        {
            proof {
                lemma_two_pow_bounds(i as nat);
                lemma_two_pow_bounds((i + 1) as nat);
            }
            match self.read_bit() {
                Err(e) => {
                    proof {
                        lemma_take_bits_fails(old(self)@, (i + 1) as nat, n as nat);
                    }
                    return Err(e);
                },
                Ok(b) => {
                    if b == 1 {
                        value = value + weight;
                    }
                    weight = weight * 2;
                    i = i + 1;
                },
            }
        }
        proof {
            lemma_two_pow_bounds(n as nat);
        }
        Ok(value as u16)
    }

    /// Reads two bits into an integer, first bit lowest.
    pub fn read_two_bits(&mut self) -> (res: Result<u8, ScryError>)
        requires
            old(self)@.wf(),
        ensures
            final(self)@.follows(old(self)@),
            res is Ok ==> final(self)@.bits_left() == old(self)@.bits_left() - 2,
            match old(self)@.take_bits(2) {
                Ok((v, after)) => res == Ok::<u8, ScryError>(v as u8) && final(self)@ == after
                    && v < 4,
                Err(e) => res == Err::<u8, ScryError>(e),
            },
    {
        proof {
            assert(two_pow(2) == 4) by {
                reveal_with_fuel(two_pow, 3);
            }
        }
        match self.read_n_bits_le(2) {
            Ok(v) => Ok(v as u8),
            Err(e) => Err(e),
        }
    }

    /// Drops what is left of the current byte: the next bit comes from a new
    /// byte.
    pub fn discard_until_next_byte(&mut self)
        ensures
            final(self)@ == old(self)@.aligned(),
            old(self)@.wf() ==> final(self)@.follows(old(self)@),
    {
        self.current_bit = 0;
    }

    /// The number of bytes consumed so far.
    pub fn position(&self) -> (p: usize)
        ensures
            p == self@.byte,
    {
        self.current_byte
    }

    /// Which bit of the current byte comes next; 0 when a new byte is due.
    pub fn bit_position(&self) -> (p: u8)
        ensures
            p == self@.bit,
    {
        self.current_bit
    }
}

/// `i` as a `u32`, where it fits.
pub fn to_u32(i: usize) -> (r: Option<u32>)
    ensures
        r == if i <= u32::MAX {
            Some(i as u32)
        } else {
            None
        },
{
    if i > u32::MAX as usize {
        None
    } else {
        Some(i as u32)
    }
}

/// Calls `String::from_utf8`. The contract claims that it succeeds exactly on
/// well-formed UTF-8, and that the string is then the text the bytes encode.
#[verifier::external_body]
fn string_from_utf8(bytes: Vec<u8>) -> (text: Option<String>)
    ensures
        text is Some <==> vstd::utf8::valid_utf8(bytes@),
        text matches Some(t) ==> t@ == vstd::utf8::decode_utf8(bytes@),
{
    String::from_utf8(bytes).ok()
}

/// Consuming `n` bytes and then `m` is consuming `n + m`.
pub proof fn lemma_advance_twice(r: ReaderView, n: nat, m: nat)
    requires
        r.wf(),
        r.byte + n + m <= r.data.len(),
    ensures
        r.advance(n).advance(m) == r.advance(n + m),
{
    let a = r.byte as int;
    assert(r.data.subrange(a, a + n) + r.data.subrange(a + n, a + n + m) =~= r.data.subrange(
        a,
        a + n + m,
    ));
    match r.scope {
        Some(s) => {
            assert((s + r.data.subrange(a, a + n)) + r.data.subrange(a + n, a + n + m) =~= s
                + r.data.subrange(a, a + n + m));
        },
        None => {},
    }
}

pub proof fn lemma_two_pow_bounds(n: nat)
    ensures
        two_pow(n) >= 1,
        n <= 16 ==> two_pow(n) <= 65536,
        two_pow(n + 1) == 2 * two_pow(n),
    decreases n,
{
    reveal_with_fuel(two_pow, 2);
    if n > 0 {
        lemma_two_pow_bounds((n - 1) as nat);
    }
    if n <= 16 {
        lemma_two_pow_16();
        lemma_two_pow_monotone(n, 16);
    }
}

pub proof fn lemma_two_pow_16()
    ensures
        two_pow(16) == 65536,
{
    reveal_with_fuel(two_pow, 9);
    assert(two_pow(8) == 256);
    assert(two_pow(16) == 256 * two_pow(8));
}

pub proof fn lemma_two_pow_monotone(a: nat, b: nat)
    requires
        a <= b,
    ensures
        two_pow(a) <= two_pow(b),
    decreases b,
{
    if a < b {
        lemma_two_pow_monotone(a, (b - 1) as nat);
    }
}

/// Once reading `k` bits fails, reading more fails the same way.
pub proof fn lemma_take_bits_fails(r: ReaderView, k: nat, n: nat)
    requires
        k <= n,
        r.take_bits(k) is Err,
    ensures
        r.take_bits(n) == r.take_bits(k),
    decreases n,
{
    if k < n {
        lemma_take_bits_fails(r, k, (n - 1) as nat);
    }
}

proof fn lemma_le_value_2(b: Seq<u8>)
    requires
        b.len() == 2,
    ensures
        le_value(b) == b[0] + 256 * b[1],
{
    reveal_with_fuel(le_value, 3);
    assert(b.skip(1)[0] == b[1]);
    assert(b.skip(1).skip(1).len() == 0);
}

proof fn lemma_le_value_4(b: Seq<u8>)
    requires
        b.len() == 4,
    ensures
        le_value(b) == b[0] + 256 * b[1] + 65536 * b[2] + 16777216 * b[3],
{
    reveal_with_fuel(le_value, 5);
    let b1 = b.skip(1);
    let b2 = b1.skip(1);
    let b3 = b2.skip(1);
    assert(b1[0] == b[1]);
    assert(b2[0] == b[2]);
    assert(b3[0] == b[3]);
    assert(b3.skip(1).len() == 0);
}

} // verus!
