use vstd::prelude::*;
use rand::Rng;
use crate::checksum::Crc32Digest;
use crate::checksum::crc32_of;
use crate::checksum::digest_fed;
use crate::checksum::digest_new;
use crate::checksum::digest_restart;
use crate::checksum::digest_sum;
use crate::checksum::digest_update;
use crate::errors::ScryError;

verus! {

/// The largest distance a back-reference may have.
pub const MAX_LOOKBACK: u16 = 32768;

/// What a window is, to the contracts.
pub struct WindowView {
    /// The bytes of the window, oldest first; its length is the capacity.
    pub window: Seq<u8>,
    /// The bytes pushed since the member checksum was last taken.
    pub member: Seq<u8>,
    /// The bytes pushed since the block checksum was last taken.
    pub block: Seq<u8>,
    /// The number of bytes pushed since the counter was last taken, modulo 2^32.
    pub count: u32,
    /// The number of bytes pushed since the window was made.
    pub total: usize,
    /// The bytes pushed since the window was made, oldest first.
    pub history: Seq<u8>,
}

/// The last `cap` bytes of everything pushed, after `cap` zero bytes.
pub open spec fn tail_window(history: Seq<u8>, cap: nat) -> Seq<u8> {
    (Seq::new(cap, |i: int| 0u8) + history).skip(history.len() as int)
}

/// Whether `part` is the end of `whole`.
pub open spec fn ends_with(whole: Seq<u8>, part: Seq<u8>) -> bool {
    part.len() <= whole.len() && whole.skip(whole.len() - part.len()) == part
}

/// The window after one more byte: the oldest byte leaves, `b` is the newest.
pub open spec fn slide(w: Seq<u8>, b: u8) -> Seq<u8> {
    w.skip(1).push(b)
}

/// Where, in a window of `cap` bytes, the byte written `k` positions ago is.
pub open spec fn back_index(cap: nat, k: nat) -> int {
    if cap == 0 || k % cap == 0 {
        0
    } else {
        cap - k % cap
    }
}

/// The window after `n` bytes were copied from `dist` positions back, one
/// at a time: a byte copied early may be read again by a later step.
pub open spec fn copy_back(w: Seq<u8>, dist: nat, n: nat) -> Seq<u8>
    decreases n,
{
    if n == 0 {
        w
    } else {
        let prev = copy_back(w, dist, (n - 1) as nat);
        slide(prev, prev[back_index(w.len(), dist)])
    }
}

/// The `n` bytes that such a copy appends, in order.
pub open spec fn copied(w: Seq<u8>, dist: nat, n: nat) -> Seq<u8>
    decreases n,
{
    if n == 0 {
        Seq::empty()
    } else {
        copied(w, dist, (n - 1) as nat).push(
            copy_back(w, dist, (n - 1) as nat)[back_index(w.len(), dist)],
        )
    }
}

pub open spec fn next_count(c: u32) -> u32 {
    if c == u32::MAX {
        0
    } else {
        (c + 1) as u32
    }
}

pub open spec fn count_after(c: u32, n: nat) -> u32
    decreases n,
{
    if n == 0 {
        c
    } else {
        next_count(count_after(c, (n - 1) as nat))
    }
}

impl WindowView {
    /// Whether the counter agrees with the bytes summed for the member: both
    /// were last taken at the same time.
    pub open spec fn counted(self) -> bool {
        self.count == self.member.len() % 0x1_0000_0000
    }

    /// The view after `b` was pushed.
    pub open spec fn pushed(self, b: u8) -> WindowView {
        WindowView {
            window: slide(self.window, b),
            member: self.member.push(b),
            block: self.block.push(b),
            count: next_count(self.count),
            total: (self.total + 1) as usize,
            history: self.history.push(b),
        }
    }

    /// What binds the parts of a window together: the window is the end of
    /// everything pushed, the counter counts it, and what the two checksums
    /// cover are ends of it.
    pub open spec fn lawful(self) -> bool {
        &&& self.window == tail_window(self.history, self.window.len())
        &&& self.total == self.history.len()
        &&& ends_with(self.history, self.member)
        &&& ends_with(self.history, self.block)
    }

    /// The view after `n` bytes were copied from `dist` positions back.
    pub open spec fn copied_back(self, dist: nat, n: nat) -> WindowView {
        WindowView {
            window: copy_back(self.window, dist, n),
            member: self.member + copied(self.window, dist, n),
            block: self.block + copied(self.window, dist, n),
            count: count_after(self.count, n),
            total: (self.total + n) as usize,
            history: self.history + copied(self.window, dist, n),
        }
    }

    /// The view after the bytes of `bytes` were pushed, first byte first.
    pub open spec fn pushed_all(self, bytes: Seq<u8>) -> WindowView
        decreases bytes.len(),
    {
        if bytes.len() == 0 {
            self
        } else {
            self.pushed_all(bytes.drop_last()).pushed(bytes.last())
        }
    }

    /// The newest `n` bytes, oldest first.
    pub open spec fn newest(self, n: nat) -> Seq<u8> {
        Seq::new(n, |i: int| self.window[back_index(self.window.len(), (n - i) as nat)])
    }
}

/// The sliding window: a ring of the most recent output bytes, with two
/// running checksums and two counters over everything pushed.
pub struct CircularBuffer {
    buffer: Vec<u8>,
    head: usize,
    gzip_digest: Crc32Digest,
    block_digest: Crc32Digest,
    counter: u32,
    bytes_written: usize,
    history: Ghost<Seq<u8>>,
}

/// The place in the ring of the `i`-th oldest byte.
pub open spec fn ring_index(head: int, cap: int, i: int) -> int {
    if head + i < cap {
        head + i
    } else {
        head + i - cap
    }
}

impl View for CircularBuffer {
    type V = WindowView;

    closed spec fn view(&self) -> WindowView {
        WindowView {
            window: Seq::new(
                self.buffer@.len(),
                |i: int| self.buffer@[ring_index(self.head as int, self.buffer@.len() as int, i)],
            ),
            member: digest_fed(self.gzip_digest),
            block: digest_fed(self.block_digest),
            count: self.counter,
            total: self.bytes_written,
            history: self.history@,
        }
    }
}

/// Calls `rand::thread_rng` and then `Rng::gen_range` with the range from 0
/// up to, not including, `size`. The contract claims only that the result
/// lies in that range.
#[verifier::external_body]
fn random_start(size: usize) -> (start: usize)
    requires
        size > 0,
    ensures
        start < size,
{
    rand::thread_rng().gen_range(0..size)
}

impl CircularBuffer {
    /// The ring is not empty and the write position lies in it.
    pub closed spec fn wf(&self) -> bool {
        &&& 0 < self.buffer@.len() <= usize::MAX
        &&& self.head < self.buffer@.len()
        &&& self@.lawful()
    }

    /// A window of `size` zero bytes. Where in the ring writing starts is
    /// chosen at random; the view does not depend on it.
    pub fn new(size: usize) -> (w: Self)
        requires
            size > 0,
        ensures
            w.wf(),
            w@ == (WindowView {
                window: Seq::new(size as nat, |i: int| 0u8),
                member: Seq::empty(),
                block: Seq::empty(),
                count: 0,
                total: 0,
                history: Seq::empty(),
            }),
    {
        let buffer: Vec<u8> = vec![0u8; size];
        let w = Self {
            buffer,
            head: random_start(size),
            gzip_digest: digest_new(),
            block_digest: digest_new(),
            counter: 0,
            bytes_written: 0,
            history: Ghost(Seq::empty()),
        };
        proof {
            assert(w@.window =~= Seq::new(size as nat, |i: int| 0u8));
            assert(w@.window =~= tail_window(w@.history, size as nat));
            assert(w@.history.skip(0) =~= w@.member);
        }
        w
    }

    /// A well-formed window holds as many bytes as it was made for, and at
    /// least one.
    pub proof fn lemma_capacity(&self)
        requires
            self.wf(),
        ensures
            0 < self@.window.len() <= usize::MAX,
            self@.lawful(),
    {
    }

    /// The number of bytes the window holds.
    pub fn capacity(&self) -> (c: usize)
        ensures
            c == self@.window.len(),
    {
        self.buffer.len()
    }

    /// Appends one byte as the newest.
    pub fn push(&mut self, byte: u8)
        requires
            old(self).wf(),
            old(self)@.total < usize::MAX,
        ensures
            final(self).wf(),
            final(self)@ == old(self)@.pushed(byte),
            old(self)@.counted() ==> final(self)@.counted(),
            final(self)@.window.len() == old(self)@.window.len(),
    {
        let cap = self.buffer.len();
        self.buffer[self.head] = byte;
        self.head = if self.head + 1 == cap {
            0
        } else {
            self.head + 1
        };
        digest_update(&mut self.gzip_digest, byte);
        digest_update(&mut self.block_digest, byte);
        self.counter = if self.counter == u32::MAX {
            0
        } else {
            self.counter + 1
        };
        self.bytes_written = self.bytes_written + 1;
        proof {
            self.history@ = self.history@.push(byte);
            assert(self@.window =~= slide(old(self)@.window, byte));
            lemma_pushed_lawful(old(self)@, byte);
        }
    }

    /// The number of bytes pushed since the window was made.
    pub fn get_bytes_written(&self) -> (n: usize)
        ensures
            n == self@.total,
    {
        self.bytes_written
    }

    /// The place in the ring of the byte written `k` positions ago.
    fn back_place(&self, k: usize) -> (p: usize)
        requires
            self.wf(),
        ensures
            p < self.buffer@.len(),
            self.buffer@[p as int] == self@.window[back_index(self@.window.len(), k as nat)],
    {
        let cap = self.buffer.len();
        let r = k % cap;
        if r == 0 {
            self.head
        } else if self.head >= r {
            self.head - r
        } else {
            self.head + (cap - r)
        }
    }

    /// Copies `size` bytes from `lookback` positions back, one at a time, so
    /// that a copy longer than its distance repeats what it has just written.
    pub fn push_from_buffer(&mut self, lookback: u16, size: u16) -> (res: Result<(), ScryError>)
        requires
            old(self).wf(),
            old(self)@.total + size <= usize::MAX,
        ensures
            final(self).wf(),
            1 <= lookback <= MAX_LOOKBACK ==> res is Ok && final(self)@ == old(self)@.copied_back(
                lookback as nat,
                size as nat,
            ),
            !(1 <= lookback <= MAX_LOOKBACK) ==> res == Err::<(), ScryError>(
                ScryError::InvalidLengthDistancePair { lookback, size },
            ) && final(self)@ == old(self)@,
            old(self)@.counted() ==> final(self)@.counted(),
            final(self)@.total <= old(self)@.total + size,
            final(self)@.window.len() == old(self)@.window.len(),
    {
        if lookback == 0 || lookback > MAX_LOOKBACK {
            return Err(ScryError::InvalidLengthDistancePair { lookback, size });
        }
        let mut i: u16 = 0;
        proof {
            assert(old(self)@.member + Seq::<u8>::empty() =~= old(self)@.member);
            assert(old(self)@.block + Seq::<u8>::empty() =~= old(self)@.block);
            assert(old(self)@.history + Seq::<u8>::empty() =~= old(self)@.history);
        }
        while i < size
            invariant
                i <= size,
                self.wf(),
                old(self)@.total + size <= usize::MAX,
                self@.window.len() == old(self)@.window.len(),
                self@ == old(self)@.copied_back(lookback as nat, i as nat),
                old(self)@.counted() ==> self@.counted(),
                self@.total == old(self)@.total + i,
            decreases size - i,
        {
            let ghost before = self@;
            let p = self.back_place(lookback as usize);
            let b = self.buffer[p];
            self.push(b);
            i = i + 1;
            proof {
                let w = old(self)@.window;
                let sofar = copied(w, lookback as nat, (i - 1) as nat);
                assert(old(self)@.member + sofar.push(b) =~= (old(self)@.member + sofar).push(b));
                assert(old(self)@.block + sofar.push(b) =~= (old(self)@.block + sofar).push(b));
                assert(old(self)@.history + sofar.push(b) =~= (old(self)@.history + sofar).push(
                    b,
                ));
            }
        }
        Ok(())
    }

    /// The newest `n` bytes, oldest first.
    pub fn head(&self, n: u16) -> (res: Result<Vec<u8>, ScryError>)
        requires
            self.wf(),
        ensures
            res is Ok,
            res->Ok_0@ == self@.newest(n as nat),
    {
        let mut v: Vec<u8> = Vec::new();
        let mut i: u16 = 0;
        while i < n
            invariant
                i <= n,
                self.wf(),
                v@.len() == i,
                forall|j: int|
                    0 <= j < i ==> v@[j] == self@.window[back_index(
                        self@.window.len(),
                        (n - j) as nat,
                    )],
            decreases n - i,
        {
            let p = self.back_place((n - i) as usize);
            v.push(self.buffer[p]);
            i = i + 1;
        }
        proof {
            assert(v@ =~= self@.newest(n as nat));
        }
        Ok(v)
    }

    /// The CRC-32 of the bytes pushed since this was last asked; starts
    /// that checksum anew.
    pub fn crc32(&mut self) -> (sum: u32)
        ensures
            old(self).wf() ==> final(self).wf(),
            sum == crc32_of(old(self)@.member),
            final(self)@ == (WindowView { member: Seq::empty(), ..old(self)@ }),
    {
        let sum = digest_sum(&self.gzip_digest);
        digest_restart(&mut self.gzip_digest);
        proof {
            assert(self@.history.skip(self@.history.len() as int) =~= Seq::<u8>::empty());
        }
        sum
    }

    /// The CRC-32 of the bytes pushed since this was last asked; starts
    /// that checksum anew. Independent of [`CircularBuffer::crc32`].
    pub fn block_crc32(&mut self) -> (sum: u32)
        ensures
            old(self).wf() ==> final(self).wf(),
            sum == crc32_of(old(self)@.block),
            final(self)@ == (WindowView { block: Seq::empty(), ..old(self)@ }),
    {
        let sum = digest_sum(&self.block_digest);
        digest_restart(&mut self.block_digest);
        proof {
            assert(self@.history.skip(self@.history.len() as int) =~= Seq::<u8>::empty());
        }
        sum
    }

    /// The number of bytes pushed since this was last asked, modulo 2^32;
    /// starts that count anew.
    pub fn counter(&mut self) -> (n: u32)
        ensures
            old(self).wf() ==> final(self).wf(),
            n == old(self)@.count,
            final(self)@ == (WindowView { count: 0, ..old(self)@ }),
    {
        let result = self.counter;
        self.counter = 0;
        result
    }

    /// The whole window, oldest byte first.
    pub fn get_normalized_buffer(&self) -> (res: Result<Vec<u8>, ScryError>)
        requires
            self.wf(),
        ensures
            res is Ok,
            res->Ok_0@ == self@.window,
    {
        let cap = self.buffer.len();
        let mut v: Vec<u8> = Vec::new();
        let mut i: usize = 0;
        while i < cap
            invariant
                i <= cap,
                cap == self.buffer@.len(),
                self.wf(),
                v@.len() == i,
                forall|j: int| 0 <= j < i ==> v@[j] == self@.window[j],
            decreases cap - i,
        {
            let p = if self.head < cap - i {
                self.head + i
            } else {
                self.head - (cap - i)
            };
            v.push(self.buffer[p]);
            i = i + 1;
        }
        proof {
            assert(v@ =~= self@.window);
        }
        Ok(v)
    }
}

/// Pushing a byte keeps a window lawful.
pub proof fn lemma_pushed_lawful(w: WindowView, b: u8)
    requires
        w.lawful(),
        w.window.len() > 0,
        w.total < usize::MAX,
    ensures
        w.pushed(b).lawful(),
{
    let next = w.pushed(b);
    let cap = w.window.len();
    assert(next.window =~= tail_window(next.history, cap));
    assert(next.history.skip(next.history.len() - next.member.len()) =~= next.member);
    assert(next.history.skip(next.history.len() - next.block.len()) =~= next.block);
}

/// The newest bytes of a lawful window are the last bytes pushed.
pub proof fn lemma_newest_is_history(w: WindowView, n: nat)
    requires
        w.lawful(),
        n <= w.window.len(),
        n <= w.history.len(),
    ensures
        w.newest(n) == w.history.skip(w.history.len() - n),
{
    lemma_newest_is_tail(w, n);
    let cap = w.window.len();
    assert(w.window.subrange(cap - n, cap as int) =~= w.history.skip(w.history.len() - n));
}

/// A copy of `n` bytes appends `n` bytes.
pub proof fn lemma_copied_len(w: Seq<u8>, dist: nat, n: nat)
    ensures
        copied(w, dist, n).len() == n,
    decreases n,
{
    if n > 0 {
        lemma_copied_len(w, dist, (n - 1) as nat);
    }
}

/// For a count no larger than the window, the newest bytes are its tail.
pub proof fn lemma_newest_is_tail(w: WindowView, n: nat)
    requires
        n <= w.window.len(),
    ensures
        w.newest(n) == w.window.subrange(w.window.len() - n, w.window.len() as int),
{
    let cap = w.window.len();
    assert forall|i: int| 0 <= i < n implies w.newest(n)[i] == w.window[cap - n + i] by {
        let k = (n - i) as nat;
        if k == cap {
            vstd::arithmetic::div_mod::lemma_mod_self_0(cap as int);
        } else {
            vstd::arithmetic::div_mod::lemma_small_mod(k, cap);
        }
    }
    assert(w.newest(n) =~= w.window.subrange(cap - n, cap as int));
}

} // verus!
