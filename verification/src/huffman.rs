//! Canonical Huffman tables: construction of the canonical codes from the
//! cumulative length counts, and prefix-match symbol lookup against them.

use vstd::prelude::*;
use vstd::arithmetic::power2::pow2;
use crate::bitreader::{BitReader, stream_bit};
use crate::error::HuffmanDecodingError;

verus! {

/// One Huffman table slot. `offsets[k]` counts the symbols whose code
/// length is at most `k` (so `offsets[0] == 0`); `symbols[offsets[k-1]
/// .. offsets[k]]` are the symbols of code length `k`, and after
/// [`HuffmanTable::generate_codes`] the matching canonical codes stand at
/// the same positions of `codes`.
#[derive(Debug)]
pub struct HuffmanTable {
    pub offsets: Vec<u8>,
    pub symbols: Vec<u8>,
    pub codes: Vec<u32>,
    pub is_set: bool,
}

/// The starting canonical code value for code length `k`: zero for length
/// one, and twice the previous base plus count for each further length.
pub open spec fn code_base(off: Seq<u8>, k: int) -> int
    decreases k,
{
    if k <= 1 {
        0
    } else {
        2 * (code_base(off, k - 1) + off[k - 1] - off[k - 2])
    }
}

/// The codes of each length `k <= n` form the contiguous range that starts
/// at `code_base(off, k)`.
pub open spec fn codes_canonical_upto(off: Seq<u8>, codes: Seq<u32>, n: int) -> bool {
    forall|k: int, j: int|
        1 <= k <= n && off[k - 1] <= j < off[k] ==> codes[j] == code_base(off, k) + j - off[k - 1]
}

/// The canonical-code property over all sixteen code lengths.
pub open spec fn codes_canonical(off: Seq<u8>, codes: Seq<u32>) -> bool {
    codes_canonical_upto(off, codes, 16)
}

/// The canonical base codes stay small: through length 16 they never pass
/// `255 * 2^15`, so code generation cannot overflow a `u32`.
pub proof fn lemma_code_base_bound(off: Seq<u8>, k: int)
    requires
        off.len() == 17,
        off[0] == 0,
        forall|a: int, b: int| 0 <= a <= b <= 16 ==> off[a] <= off[b],
        1 <= k <= 16,
    ensures
        0 <= code_base(off, k),
        code_base(off, k) + off[k] - off[k - 1] <= off[k] * pow2((k - 1) as nat),
        off[k] * pow2((k - 1) as nat) <= 255 * pow2(15),
    decreases k,
{
    assert(off[k] <= 255);
    if k == 1 {
        vstd::arithmetic::power2::lemma2_to64();
    } else {
        lemma_code_base_bound(off, k - 1);
        assert(pow2((k - 1) as nat) == 2 * pow2((k - 2) as nat)) by {
            vstd::arithmetic::power2::lemma_pow2_unfold((k - 1) as nat);
        }
        assert(off[k - 1] <= off[k]);
        assert(pow2((k - 2) as nat) >= 1) by {
            vstd::arithmetic::power2::lemma_pow2_pos((k - 2) as nat);
        }
        assert(code_base(off, k) + off[k] - off[k - 1] <= off[k] * pow2((k - 1) as nat))
            by (nonlinear_arith)
            requires
                code_base(off, k) == 2 * (code_base(off, k - 1) + off[k - 1] - off[k - 2]),
                code_base(off, k - 1) + off[k - 1] - off[k - 2] <= off[k - 1] * pow2(
                    (k - 2) as nat,
                ),
                pow2((k - 1) as nat) == 2 * pow2((k - 2) as nat),
                pow2((k - 2) as nat) >= 1,
                off[k - 1] <= off[k],
                0 <= off[k - 1],
                0 <= off[k],
        {
        }
        assert(0 <= code_base(off, k)) by (nonlinear_arith)
            requires
                code_base(off, k) == 2 * (code_base(off, k - 1) + off[k - 1] - off[k - 2]),
                0 <= code_base(off, k - 1),
                off[k - 2] <= off[k - 1],
        {
        }
    }
    assert(pow2((k - 1) as nat) <= pow2(15)) by {
        if k < 16 {
            vstd::arithmetic::power2::lemma_pow2_strictly_increases((k - 1) as nat, 15);
        }
    }
    assert(off[k] * pow2((k - 1) as nat) <= 255 * pow2(15)) by (nonlinear_arith)
        requires
            0 <= off[k] <= 255,
            0 <= pow2((k - 1) as nat) <= pow2(15),
    {
    }
}

/// A vector of `n` zero bytes.
pub fn zeros_u8(n: usize) -> (r: Vec<u8>)
    ensures
        r.len() == n,
        forall|i: int| 0 <= i < n ==> r@[i] == 0u8,
{
    let mut v: Vec<u8> = Vec::new();
    for k in 0..n
        invariant
            v.len() == k,
            forall|i: int| 0 <= i < k ==> v@[i] == 0u8,
    {
        v.push(0u8);
    }
    v
}

/// A vector of `n` zero code words.
pub fn zeros_u32(n: usize) -> (r: Vec<u32>)
    ensures
        r.len() == n,
        forall|i: int| 0 <= i < n ==> r@[i] == 0u32,
{
    let mut v: Vec<u32> = Vec::new();
    for k in 0..n
        invariant
            v.len() == k,
            forall|i: int| 0 <= i < k ==> v@[i] == 0u32,
    {
        v.push(0u32);
    }
    v
}

impl HuffmanTable {
    /// Lengths are fixed, the cumulative counts start at zero, never
    /// decrease, and end at no more than 162 symbols.
    pub open spec fn wf(&self) -> bool {
        &&& self.offsets.len() == 17
        &&& self.symbols.len() == 162
        &&& self.codes.len() == 162
        &&& self.offsets@[0] == 0
        &&& forall|a: int, b: int| 0 <= a <= b <= 16 ==> self.offsets@[a] <= self.offsets@[b]
        &&& self.offsets@[16] <= 162
    }

    /// Derives the canonical codes from the cumulative length counts:
    /// within each code length the codes count up from the length's base,
    /// and each base is twice the previous base plus its symbol count.
    pub fn generate_codes(&mut self)
        requires
            old(self).wf(),
        ensures
            final(self).wf(),
            final(self).offsets == old(self).offsets,
            final(self).symbols == old(self).symbols,
            final(self).is_set == old(self).is_set,
            codes_canonical(old(self).offsets@, final(self).codes@),
            forall|j: int|
                old(self).offsets@[16] <= j < 162 ==> final(self).codes@[j] == old(
                    self,
                ).codes@[j],
    {
        let ghost off = old(self).offsets@;
        let mut code: u32 = 0;
        let mut i: usize = 0;
        #[verifier::loop_isolation(false)]
        while i < 16
            invariant
                self.wf(),
                self.offsets == old(self).offsets,
                self.symbols == old(self).symbols,
                self.is_set == old(self).is_set,
                i <= 16,
                code == code_base(off, i + 1),
                code <= 0xFF0000,
                codes_canonical_upto(off, self.codes@, i as int),
                forall|j: int| off[16] <= j < 162 ==> self.codes@[j] == old(self).codes@[j],
            decreases 16 - i,
        {
            proof {
                lemma_code_base_bound(off, i as int + 1);
                vstd::arithmetic::power2::lemma2_to64();
            }
            let current: u8 = self.offsets[i];
            let next: u8 = self.offsets[i + 1];
            let mut c: u8 = current;
            #[verifier::loop_isolation(false)]
            while c < next
                invariant
                    self.wf(),
                    self.offsets == old(self).offsets,
                    self.symbols == old(self).symbols,
                    self.is_set == old(self).is_set,
                    current <= c <= next,
                    code == code_base(off, i + 1) + (c - current),
                    codes_canonical_upto(off, self.codes@, i as int),
                    forall|j: int|
                        current <= j < c ==> self.codes@[j] == code_base(off, i + 1) + j - current,
                    forall|j: int| off[16] <= j < 162 ==> self.codes@[j] == old(self).codes@[j],
                decreases next - c,
            {
                self.codes.set(c as usize, code);
                code = code + 1;
                c = c + 1;
            }
            code = code * 2;
            i = i + 1;
            assert(code == code_base(off, i + 1));
            assert(codes_canonical_upto(off, self.codes@, i as int)) by {
                assert(forall|k: int, j: int|
                    1 <= k <= i && off[k - 1] <= j < off[k] ==> self.codes@[j] == code_base(off, k)
                        + j - off[k - 1]) by {
                    assert(forall|k: int| 1 <= k < i ==> #[trigger] off[k] <= off[i - 1]);
                }
            }
        }
    }
}

impl Default for HuffmanTable {
    /// An empty, unset slot: no symbols of any length.
    fn default() -> (r: Self)
        ensures
            r.wf(),
            !r.is_set,
            forall|i: int| 0 <= i < 17 ==> r.offsets@[i] == 0u8,
            forall|i: int| 0 <= i < 162 ==> r.symbols@[i] == 0u8,
            forall|i: int| 0 <= i < 162 ==> r.codes@[i] == 0u32,
    {
        HuffmanTable {
            offsets: zeros_u8(17),
            symbols: zeros_u8(162),
            codes: zeros_u32(162),
            is_set: false,
        }
    }
}

/// Linear scan for `code` in `codes[lo..hi]`: the matching symbol of the
/// first hit, or `None`.
pub open spec fn sym_search(codes: Seq<u32>, symbols: Seq<u8>, lo: int, hi: int, code: int) -> Option<u8>
    decreases hi - lo,
{
    if lo >= hi {
        None
    } else if codes[lo] == code {
        Some(symbols[lo])
    } else {
        sym_search(codes, symbols, lo + 1, hi, code)
    }
}

/// A prefix without a hit does not change the scan's outcome.
pub proof fn lemma_sym_search_skip(
    codes: Seq<u32>,
    symbols: Seq<u8>,
    lo: int,
    mid: int,
    hi: int,
    code: int,
)
    requires
        lo <= mid <= hi,
        forall|m: int| lo <= m < mid ==> codes[m] != code,
    ensures
        sym_search(codes, symbols, lo, hi, code) == sym_search(codes, symbols, mid, hi, code),
    decreases mid - lo,
{
    if lo < mid {
        lemma_sym_search_skip(codes, symbols, lo + 1, mid, hi, code);
    }
}

/// What one symbol lookup yields: bits are accumulated MSB-first into a
/// code value; after the `k+1`-th bit the codes of length `k+1` are
/// scanned; the first match ends the lookup. Failing after 16 bits is
/// `SymbolNotFound`; an exhausted bit stream is `ReadPastLength`.
pub open spec fn next_symbol_spec(
    t: HuffmanTable,
    data: Seq<u8>,
    code: int,
    cursor: int,
    k: int,
) -> Result<(u8, int), HuffmanDecodingError>
    decreases 16 - k,
{
    if k >= 16 {
        Err(HuffmanDecodingError::SymbolNotFound)
    } else if cursor >= 8 * data.len() {
        Err(HuffmanDecodingError::ReadPastLength)
    } else {
        let code2 = 2 * code + stream_bit(data, cursor);
        match sym_search(t.codes@, t.symbols@, t.offsets@[k] as int, t.offsets@[k + 1] as int, code2) {
            Some(sym) => Ok((sym, cursor + 1)),
            None => next_symbol_spec(t, data, code2, cursor + 1, k + 1),
        }
    }
}

/// Reads bits one at a time and scans the table's codes of the matching
/// length for the value accumulated so far, exactly as
/// [`next_symbol_spec`] states.
pub fn get_next_symbol(reader: &mut BitReader, data: &Vec<u8>, table: &HuffmanTable) -> (r: Result<
    u8,
    HuffmanDecodingError,
>)
    requires
        old(reader).wf(data@),
        table.wf(),
    ensures
        final(reader).wf(data@),
        final(reader).cursor() >= old(reader).cursor(),
        ({
            let spec_r = next_symbol_spec(*table, data@, 0, old(reader).cursor(), 0);
            match spec_r {
                Ok((sym, cur)) => r == Ok::<u8, HuffmanDecodingError>(sym)
                    && final(reader).cursor() == cur,
                Err(e) => r == Err::<u8, HuffmanDecodingError>(e),
            }
        }),
    {
    let mut code: u32 = 0;
    let ghost c0 = old(reader).cursor();
    let mut i: usize = 0;
    proof {
        vstd::arithmetic::power2::lemma2_to64();
    }
    #[verifier::loop_isolation(false)]
    while i < 16
        invariant
            reader.wf(data@),
            i <= 16,
            reader.cursor() == c0 + i,
            c0 + i <= 8 * data@.len(),
            code < pow2(i as nat),
            next_symbol_spec(*table, data@, 0, c0, 0) == next_symbol_spec(
                *table,
                data@,
                code as int,
                c0 + i,
                i as int,
            ),
        decreases 16 - i,
    {
        let bit: u32 = match reader.read_bit(data) {
            Some(bit) => bit,
            None => {
                return Err(HuffmanDecodingError::ReadPastLength);
            },
        };
        proof {
            assert(pow2(i as nat) <= pow2(15)) by {
                if (i as nat) < 15 {
                    vstd::arithmetic::power2::lemma_pow2_strictly_increases(i as nat, 15);
                }
            }
            assert(pow2((i + 1) as nat) == 2 * pow2(i as nat)) by {
                vstd::arithmetic::power2::lemma_pow2_unfold((i + 1) as nat);
            }
        }
        code = code * 2 + bit;
        let lo: u8 = table.offsets[i];
        let hi: u8 = table.offsets[i + 1];
        let mut j: u8 = lo;
        #[verifier::loop_isolation(false)]
        while j < hi
            invariant
                lo <= j <= hi,
                forall|m: int| lo <= m < j ==> table.codes@[m] != code,
            decreases hi - j,
        {
            if table.codes[j as usize] == code {
                proof {
                    lemma_sym_search_skip(
                        table.codes@,
                        table.symbols@,
                        lo as int,
                        j as int,
                        hi as int,
                        code as int,
                    );
                }
                return Ok(table.symbols[j as usize]);
            }
            j = j + 1;
        }
        proof {
            lemma_sym_search_skip(
                table.codes@,
                table.symbols@,
                lo as int,
                hi as int,
                hi as int,
                code as int,
            );
        }
        i = i + 1;
    }
    Err(HuffmanDecodingError::SymbolNotFound)
}

} // verus!
