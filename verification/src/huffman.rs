use vstd::prelude::*;
use std::collections::HashMap;
use std::hash::BuildHasherDefault;
use nohash_hasher::IntMap;
use nohash_hasher::NoHashHasher;

verus! {

/// The longest code a table can hold, in bits.
pub const MAX_HUFFMAN_BITS: u16 = 15;

/// The hasher of `nohash_hasher`, which hashes an integer key to itself.
#[verifier::external_type_specification]
#[verifier::external_body]
#[verifier::reject_recursive_types(T)]
pub struct ExNoHashHasher<T>(NoHashHasher<T>);

/// The builder that makes a hasher by `Default`.
#[verifier::external_type_specification]
#[verifier::external_body]
#[verifier::reject_recursive_types(H)]
pub struct ExBuildHasherDefault<H>(BuildHasherDefault<H>);

/// An entry of a decode table: the symbol and the length of its code.
#[derive(Copy, Clone, PartialEq, Eq, Debug)]
pub struct HuffmanCode {
    pub symbol: u16,
    pub len: u8,
}

/// How many of the first `upto` symbols have a code of `len` bits.
pub open spec fn count_len(lengths: Seq<u8>, upto: nat, len: nat) -> nat
    decreases upto,
{
    if upto == 0 {
        0
    } else {
        count_len(lengths, (upto - 1) as nat, len) + if lengths[upto - 1] == len {
            1nat
        } else {
            0nat
        }
    }
}

/// The smallest code of `bits` bits: twice the first code after those one
/// bit shorter. Symbols without a code do not count. Codes are kept to
/// sixteen bits.
pub open spec fn first_code(lengths: Seq<u8>, bits: nat) -> nat
    decreases bits,
{
    if bits == 0 {
        0
    } else {
        let shorter = if bits == 1 {
            0
        } else {
            count_len(lengths, lengths.len(), (bits - 1) as nat)
        };
        ((first_code(lengths, (bits - 1) as nat) + shorter) * 2) % 65536
    }
}

/// The code of symbol `i`: codes of one length are consecutive, in the
/// order of their symbols.
pub open spec fn code_of(lengths: Seq<u8>, i: int) -> nat {
    (first_code(lengths, lengths[i] as nat) + count_len(lengths, i as nat, lengths[i] as nat))
        % 65536
}

/// The table of the first `n` symbols, entered in order by code value: of
/// two symbols whose codes have the same value, the later one stays.
pub open spec fn table_upto(lengths: Seq<u8>, n: nat) -> Map<u16, HuffmanCode>
    decreases n,
{
    if n == 0 {
        Map::empty()
    } else {
        let prev = table_upto(lengths, (n - 1) as nat);
        if lengths[n - 1] > 0 {
            prev.insert(
                code_of(lengths, n - 1) as u16,
                HuffmanCode { symbol: (n - 1) as u16, len: lengths[n - 1] },
            )
        } else {
            prev
        }
    }
}

/// The canonical decode table for a vector of code lengths.
pub open spec fn canonical_table(lengths: Seq<u8>) -> Map<u16, HuffmanCode> {
    table_upto(lengths, lengths.len())
}

/// The symbol whose code has the value `code` and is `bits` bits long.
pub open spec fn lookup(table: Map<u16, HuffmanCode>, code: u16, bits: u8) -> Option<u16> {
    if table.contains_key(code) && table[code].len == bits {
        Some(table[code].symbol)
    } else {
        None
    }
}

/// The code lengths of the fixed literal/length table.
pub open spec fn fixed_lengths() -> Seq<u8> {
    Seq::new(
        288,
        |i: int|
            if i < 144 {
                8u8
            } else if i < 256 {
                9u8
            } else if i < 280 {
                7u8
            } else {
                8u8
            },
    )
}

/// The code lengths of the fixed distance table.
pub open spec fn fixed_dist_lengths() -> Seq<u8> {
    Seq::new(31, |i: int| 5u8)
}

pub open spec fn empty_table() -> Map<u16, HuffmanCode> {
    Map::empty()
}

/// Calls `Default::default` for the map type. The contract claims that the
/// map is empty.
#[verifier::external_body]
fn lut_new() -> (m: IntMap<u16, HuffmanCode>)
    ensures
        m@ == empty_table(),
{
    IntMap::default()
}

/// Calls `HashMap::insert`. The contract claims that the map then holds
/// `v` under `k`, in place of what it held there, and is otherwise as before.
#[verifier::external_body]
fn lut_insert(m: &mut IntMap<u16, HuffmanCode>, k: u16, v: HuffmanCode)
    ensures
        final(m)@ == old(m)@.insert(k, v),
{
    m.insert(k, v);
}

/// Calls `HashMap::get`. The contract claims that the result is the entry
/// under `k`, if there is one.
#[verifier::external_body]
fn lut_get(m: &IntMap<u16, HuffmanCode>, k: u16) -> (r: Option<HuffmanCode>)
    ensures
        r == if m@.contains_key(k) {
            Some(m@[k])
        } else {
            None
        },
{
    m.get(&k).copied()
}

/// A decode table: from the value of a code to its symbol and length.
pub struct HuffmanTree {
    lut: HashMap<u16, HuffmanCode, BuildHasherDefault<NoHashHasher<u16>>>,
}

impl View for HuffmanTree {
    type V = Map<u16, HuffmanCode>;

    closed spec fn view(&self) -> Map<u16, HuffmanCode> {
        self.lut@
    }
}

impl HuffmanTree {
    /// The canonical table for the code lengths `bit_lengths`, one per
    /// symbol; a length of 0 gives the symbol no code.
    pub fn new(bit_lengths: &[u8]) -> (t: Self)
        requires
            bit_lengths@.len() <= 65536,
            forall|i: int| 0 <= i < bit_lengths@.len() ==> bit_lengths@[i] <= MAX_HUFFMAN_BITS,
        ensures
            t@ == canonical_table(bit_lengths@),
    {
        let n = bit_lengths.len();
        let ghost lengths = bit_lengths@;
        let mut bl_count: Vec<u32> = vec![0u32; 16];
        let mut i: usize = 0;
        while i < n
            invariant
                i <= n,
                n == lengths.len(),
                n <= 65536,
                lengths == bit_lengths@,
                bl_count@.len() == 16,
                forall|k: int| 0 <= k < n ==> lengths[k] <= 15,
                forall|l: int| 0 <= l < 16 ==> bl_count@[l] == count_len(lengths, i as nat, l as nat),
            decreases n - i,
        {
            let len = bit_lengths[i] as usize;
            proof {
                lemma_count_len_bound(lengths, i as nat, len as nat);
            }
            bl_count[len] = bl_count[len] + 1;
            i = i + 1;
        }
        bl_count[0] = 0;
        let mut next_code: Vec<u32> = vec![0u32; 16];
        let mut code: u32 = 0;
        let mut bits: usize = 1;
        while bits <= 15
            invariant
                1 <= bits <= 16,
                n == lengths.len(),
                n <= 65536,
                bl_count@.len() == 16,
                next_code@.len() == 16,
                bl_count@[0] == 0,
                forall|l: int| 1 <= l < 16 ==> bl_count@[l] == count_len(lengths, n as nat, l as nat),
                code == first_code(lengths, (bits - 1) as nat),
                code < 65536,
                forall|l: int| 0 <= l < bits ==> next_code@[l] == first_code(lengths, l as nat),
            decreases 16 - bits,
        {
            proof {
                lemma_count_len_bound(lengths, n as nat, (bits - 1) as nat);
            }
            code = ((code + bl_count[bits - 1]) * 2) % 65536;
            next_code[bits] = code;
            bits = bits + 1;
        }
        let mut lut = lut_new();
        let mut i: usize = 0;
        while i < n
            invariant
                i <= n,
                n == lengths.len(),
                n <= 65536,
                lengths == bit_lengths@,
                next_code@.len() == 16,
                forall|k: int| 0 <= k < n ==> lengths[k] <= 15,
                forall|l: int|
                    1 <= l < 16 ==> next_code@[l] == (first_code(lengths, l as nat) + count_len(
                        lengths,
                        i as nat,
                        l as nat,
                    )) % 65536,
                lut@ == table_upto(lengths, i as nat),
            decreases n - i,
        {
            let len = bit_lengths[i];
            if len != 0 {
                let code = next_code[len as usize];
                next_code[len as usize] = (code + 1) % 65536;
                lut_insert(&mut lut, code as u16, HuffmanCode { symbol: i as u16, len });
            }
            i = i + 1;
        }
        Self { lut }
    }

    /// The fixed literal/length table.
    pub fn fixed() -> (t: Self)
        ensures
            t@ == canonical_table(fixed_lengths()),
    {
        let mut lengths: Vec<u8> = Vec::new();
        let mut i: usize = 0;
        while i < 288
            invariant
                i <= 288,
                lengths@.len() == i,
                forall|k: int| 0 <= k < i ==> lengths@[k] == fixed_lengths()[k],
            decreases 288 - i,
        {
            let len: u8 = if i < 144 {
                8
            } else if i < 256 {
                9
            } else if i < 280 {
                7
            } else {
                8
            };
            lengths.push(len);
            i = i + 1;
        }
        proof {
            assert(lengths@ =~= fixed_lengths());
        }
        Self::new(lengths.as_slice())
    }

    /// The fixed distance table.
    pub fn fixed_dist() -> (t: Self)
        ensures
            t@ == canonical_table(fixed_dist_lengths()),
    {
        let lengths: Vec<u8> = vec![5u8; 31];
        proof {
            assert(lengths@ =~= fixed_dist_lengths());
        }
        Self::new(lengths.as_slice())
    }

    /// The symbol whose code has the value `code` and is `len` bits long,
    /// if the table has one.
    pub fn decode(&self, code: u16, len: u8) -> (r: Option<u16>)
        ensures
            r == lookup(self@, code, len),
    {
        match lut_get(&self.lut, code) {
            Some(entry) => if len == entry.len {
                Some(entry.symbol)
            } else {
                None
            },
            None => None,
        }
    }

    /// The table itself.
    pub fn get_lut(&self) -> (m: &HashMap<u16, HuffmanCode, BuildHasherDefault<NoHashHasher<u16>>>)
        ensures
            m@ == self@,
    {
        &self.lut
    }

    /// Does nothing: a table has no other form yet.
    pub fn export(&self) {
    }
}

/// No more symbols have a given length than there are symbols.
pub proof fn lemma_count_len_bound(lengths: Seq<u8>, upto: nat, len: nat)
    ensures
        count_len(lengths, upto, len) <= upto,
    decreases upto,
{
    if upto > 0 {
        lemma_count_len_bound(lengths, (upto - 1) as nat, len);
    }
}

} // verus!
