//! Huffman decoding of one 8x8 coefficient block: a differential DC
//! coefficient followed by run-length coded AC coefficients, with
//! sign-extension of the variable-length signed values.

use vstd::prelude::*;
use vstd::arithmetic::power2::pow2;
use crate::bitreader::{BitReader, bits_value, lemma_bits_value_bound};
use crate::error::{Error, HuffmanDecodingError};
use crate::header::JPEGHeader;
use crate::huffman::{HuffmanTable, codes_canonical, get_next_symbol, next_symbol_spec};
use crate::zigzag::{zigzag, zigzag_spec};

verus! {

/// One decoded 8x8 block per color component: de-zigzagged DC and AC
/// coefficients, not yet dequantized.
#[derive(Debug)]
pub struct MCU {
    pub c0: Vec<i32>,
    pub c1: Vec<i32>,
    pub c2: Vec<i32>,
}

/// A 64-entry coefficient block of zeros.
pub fn zero_block() -> (r: Vec<i32>)
    ensures
        r@ == zero_block_spec(),
{
    let mut v: Vec<i32> = Vec::new();
    for k in 0..64
        invariant
            v.len() == k,
            forall|i: int| 0 <= i < k ==> v@[i] == 0i32,
    {
        v.push(0i32);
    }
    proof {
        assert(v@ =~= zero_block_spec());
    }
    v
}

/// The all-zero coefficient block.
pub open spec fn zero_block_spec() -> Seq<i32> {
    Seq::new(64, |i: int| 0i32)
}

impl MCU {
    /// Every component block holds exactly 64 coefficients.
    pub open spec fn wf(&self) -> bool {
        self.c0.len() == 64 && self.c1.len() == 64 && self.c2.len() == 64
    }

    /// The block of component `index` in start-of-frame order.
    pub open spec fn component_spec(&self, index: int) -> Seq<i32> {
        if index == 0 {
            self.c0@
        } else if index == 1 {
            self.c1@
        } else {
            self.c2@
        }
    }

    /// Borrows the block of component `index` in start-of-frame order.
    pub fn component(&self, index: usize) -> (r: &Vec<i32>)
        requires
            index < 3,
        ensures
            r@ == self.component_spec(index as int),
    {
        match index {
            0 => &self.c0,
            1 => &self.c1,
            _ => &self.c2,
        }
    }
}

impl Default for MCU {
    /// A block of zeros for each component.
    fn default() -> (r: Self)
        ensures
            r.wf(),
            r.c0@ == zero_block_spec(),
            r.c1@ == zero_block_spec(),
            r.c2@ == zero_block_spec(),
    {
        MCU { c0: zero_block(), c1: zero_block(), c2: zero_block() }
    }
}

/// Sign extension of an `l`-bit raw value `v`: values below `2^(l-1)` code
/// the negatives, shifted down by `2^l - 1`.
pub open spec fn decode_signed(l: nat, v: int) -> int {
    if l == 0 {
        v
    } else if v < pow2((l - 1) as nat) {
        v - (pow2(l) - 1)
    } else {
        v
    }
}

/// The inverse of [`decode_signed`]: the raw `l`-bit value that codes the
/// signed coefficient `x`.
pub open spec fn encode_signed(l: nat, x: int) -> int {
    if l == 0 {
        0
    } else if x < 0 {
        x + pow2(l) - 1
    } else {
        x
    }
}

/// A decoded `l`-bit value stays strictly between `-2^l` and `2^l`.
pub proof fn lemma_decode_signed_bounds(l: nat, v: int)
    requires
        l <= 16,
        0 <= v < pow2(l),
    ensures
        -(pow2(l) as int) < decode_signed(l, v) < pow2(l),
        -0x10000 < decode_signed(l, v) < 0x10000,
{
    vstd::arithmetic::power2::lemma2_to64();
    if l != 0 {
        vstd::arithmetic::power2::lemma_pow2_unfold(l);
    }
    assert(pow2(l) <= pow2(16)) by {
        if l < 16 {
            vstd::arithmetic::power2::lemma_pow2_strictly_increases(l, 16);
        }
    }
}

/// Round trip of the signed variable-length coding: for every raw `l`-bit
/// value, encoding the decoded coefficient gives the raw value back, and
/// the decoded coefficient lies in `[-(2^l - 1), -2^(l-1)]` or in
/// `[2^(l-1), 2^l - 1]` — in particular it is never zero for `l >= 1`.
pub proof fn lemma_signed_vlc_round_trip(l: nat, v: int)
    requires
        1 <= l <= 16,
        0 <= v < pow2(l),
    ensures
        encode_signed(l, decode_signed(l, v)) == v,
        decode_signed(l, v) != 0,
        (pow2((l - 1) as nat) <= decode_signed(l, v) <= pow2(l) - 1) || (-(pow2(l) - 1)
            <= decode_signed(l, v) <= -(pow2((l - 1) as nat) as int)),
{
    vstd::arithmetic::power2::lemma_pow2_unfold(l);
    vstd::arithmetic::power2::lemma_pow2_pos((l - 1) as nat);
}

/// Decoding is the inverse of encoding on the signed coefficient range.
pub proof fn lemma_signed_vlc_round_trip_back(l: nat, x: int)
    requires
        1 <= l <= 16,
        (pow2((l - 1) as nat) <= x <= pow2(l) - 1) || (-(pow2(l) - 1) <= x <= -(pow2(
            (l - 1) as nat,
        ) as int)),
    ensures
        0 <= encode_signed(l, x) < pow2(l),
        decode_signed(l, encode_signed(l, x)) == x,
{
    vstd::arithmetic::power2::lemma_pow2_unfold(l);
    vstd::arithmetic::power2::lemma_pow2_pos((l - 1) as nat);
}

/// Reads an `length`-bit raw value's sign extension, exactly as
/// [`decode_signed`] states.
pub fn extend_signed(length: u8, value: u32) -> (r: i32)
    requires
        length <= 16,
        value < pow2(length as nat),
    ensures
        r as int == decode_signed(length as nat, value as int),
{
    proof {
        vstd::arithmetic::power2::lemma2_to64();
        assert(pow2(length as nat) <= pow2(16)) by {
            if (length as nat) < 16 {
                vstd::arithmetic::power2::lemma_pow2_strictly_increases(length as nat, 16);
            }
        }
    }
    if length != 0 {
        let sh: u32 = (length - 1) as u32;
        let half: u32 = 1u32 << sh;
        proof {
            vstd::bits::lemma_u32_shl_is_mul(1u32, sh);
        }
        if value < half {
            let full: u32 = 2 * half - 1;
            proof {
                vstd::arithmetic::power2::lemma_pow2_unfold(length as nat);
            }
            return (value as i32) - (full as i32);
        }
    }
    value as i32
}

/// The run-length AC decoding loop, from scan position `i` of the block:
/// an end-of-block symbol ends the block; otherwise the symbol's high
/// nibble skips zero coefficients (sixteen of them for the zero-run-length
/// symbol `0xF0`) and its low nibble gives the bit length of the next
/// coefficient, which lands at the zigzag position of the scan index.
pub open spec fn ac_decode_spec(
    t: HuffmanTable,
    data: Seq<u8>,
    block: Seq<i32>,
    i: int,
    cursor: int,
) -> Result<(Seq<i32>, int), HuffmanDecodingError>
    decreases 64 - i,
    via ac_decode_spec_decreases
{
    if i >= 64 {
        Ok((block, cursor))
    } else {
        match next_symbol_spec(t, data, 0, cursor, 0) {
            Err(e) => Err(e),
            Ok((sym, cur1)) => {
                if sym == 0 {
                    Ok((block, cur1))
                } else {
                    let skip: int = if sym == 0xF0 {
                        16
                    } else {
                        (sym >> 4) as int
                    };
                    let clen = (sym & 0x0F) as nat;
                    if i + skip >= 64 {
                        Err(HuffmanDecodingError::ZerosExceedMCULength)
                    } else if clen > 10 {
                        Err(HuffmanDecodingError::InvalidACCoefficientLength)
                    } else if clen == 0 {
                        ac_decode_spec(t, data, block, i + skip, cur1)
                    } else if cur1 + clen > 8 * data.len() {
                        Err(HuffmanDecodingError::ReadPastLength)
                    } else {
                        let coeff = decode_signed(clen, bits_value(data, cur1, clen)) as i32;
                        ac_decode_spec(
                            t,
                            data,
                            block.update(zigzag_spec(i + skip), coeff),
                            i + skip + 1,
                            cur1 + clen,
                        )
                    }
                }
            },
        }
    }
}

#[via_fn]
proof fn ac_decode_spec_decreases(
    t: HuffmanTable,
    data: Seq<u8>,
    block: Seq<i32>,
    i: int,
    cursor: int,
) {
    assert(forall|s: u8| s != 0 && s & 0x0F == 0 ==> s >> 4 >= 1) by (bit_vector);
}

/// Decoding one whole block: the DC symbol gives the bit length of the
/// differential DC value (at most 11), which is sign-extended and added,
/// wrapping, to the previous DC of the same component; the AC loop fills
/// the rest.  The result carries the block, the cursor after it, and the
/// new DC predictor.
pub open spec fn block_decode_spec(
    dc_t: HuffmanTable,
    ac_t: HuffmanTable,
    data: Seq<u8>,
    cursor: int,
    prev: i32,
) -> Result<(Seq<i32>, int, i32), HuffmanDecodingError> {
    match next_symbol_spec(dc_t, data, 0, cursor, 0) {
        Err(e) => Err(e),
        Ok((len, cur1)) => {
            if len > 11 {
                Err(HuffmanDecodingError::InvalidDCCoefficientLength)
            } else if cur1 + len > 8 * data.len() {
                Err(HuffmanDecodingError::ReadPastLength)
            } else {
                let diff = decode_signed(len as nat, bits_value(data, cur1, len as nat));
                let dc = vstd::wrapping::i32_specs::wrapping_add(diff as i32, prev);
                match ac_decode_spec(ac_t, data, zero_block_spec().update(0, dc), 1, cur1 + len) {
                    Ok((b, cur2)) => Ok((b, cur2, dc)),
                    Err(e) => Err(e),
                }
            }
        },
    }
}

/// Decodes one component's 8x8 block from the bit stream, exactly as
/// [`block_decode_spec`] states, updating the component's DC predictor.
#[verifier::rlimit(60)]
#[verifier::spinoff_prover]
pub fn decode_mcus(
    reader: &mut BitReader,
    data: &Vec<u8>,
    previous_dc: &mut i32,
    dc_table: &HuffmanTable,
    ac_table: &HuffmanTable,
) -> (r: Result<Vec<i32>, HuffmanDecodingError>)
    requires
        old(reader).wf(data@),
        dc_table.wf(),
        ac_table.wf(),
    ensures
        final(reader).wf(data@),
        ({
            let spec_r = block_decode_spec(
                *dc_table,
                *ac_table,
                data@,
                old(reader).cursor(),
                *old(previous_dc),
            );
            match spec_r {
                Ok((b, cur2, dc)) => {
                    &&& r is Ok
                    &&& r->Ok_0@ == b
                    &&& r->Ok_0.len() == 64
                    &&& final(reader).cursor() == cur2
                    &&& *final(previous_dc) == dc
                    &&& b[0] == dc
                },
                Err(e) => r == Err::<Vec<i32>, HuffmanDecodingError>(e),
            }
        }),
{
    let ghost c0 = old(reader).cursor();
    let ghost prev0 = *previous_dc;
    let ghost target = block_decode_spec(*dc_table, *ac_table, data@, c0, prev0);

    let length: u8 = match get_next_symbol(reader, data, dc_table) {
        Ok(s) => s,
        Err(e) => {
            return Err(e);
        },
    };
    let ghost cur1 = reader.cursor();
    proof {
        assert(next_symbol_spec(*dc_table, data@, 0, c0, 0) == Ok::<(u8, int),
            HuffmanDecodingError>((length, cur1)));
    }
    if length > 11 {
        return Err(HuffmanDecodingError::InvalidDCCoefficientLength);
    }
    let bits: u32 = match reader.read_length(data, length) {
        Some(v) => v,
        None => {
            return Err(HuffmanDecodingError::ReadPastLength);
        },
    };
    proof {
        lemma_bits_value_bound(data@, cur1, length as nat);
        vstd::arithmetic::power2::lemma2_to64();
        assert(pow2(length as nat) <= pow2(16)) by {
            if (length as nat) < 16 {
                vstd::arithmetic::power2::lemma_pow2_strictly_increases(length as nat, 16);
            }
        }
        assert(bits == bits_value(data@, cur1, length as nat));
    }
    let diff: i32 = extend_signed(length, bits);
    proof {
        lemma_decode_signed_bounds(length as nat, bits as int);
        assert(diff == decode_signed(length as nat, bits_value(data@, cur1, length as nat)) as i32);
    }
    let dc_coeff: i32 = diff.wrapping_add(*previous_dc);
    let mut block: Vec<i32> = zero_block();
    block.set(0, dc_coeff);
    *previous_dc = dc_coeff;

    let ghost dc = dc_coeff;
    proof {
        assert(dc == vstd::wrapping::i32_specs::wrapping_add(
            decode_signed(length as nat, bits_value(data@, cur1, length as nat)) as i32,
            prev0,
        ));
        assert(block@ == zero_block_spec().update(0, dc));
        assert(reader.cursor() == cur1 + length);
        assert(target == match ac_decode_spec(
            *ac_table,
            data@,
            zero_block_spec().update(0, dc),
            1,
            cur1 + length,
        ) {
            Ok((b, cur2)) => Ok::<(Seq<i32>, int, i32), HuffmanDecodingError>((b, cur2, dc)),
            Err(e) => Err::<(Seq<i32>, int, i32), HuffmanDecodingError>(e),
        });
    }
    let mut i: usize = 1;
    #[verifier::loop_isolation(false)]
    while i < 64
        invariant
            reader.wf(data@),
            1 <= i <= 64,
            block.len() == 64,
            *previous_dc == dc,
            block@[0] == dc,
            target == match ac_decode_spec(*ac_table, data@, block@, i as int, reader.cursor()) {
                Ok((b, cur2)) => Ok::<(Seq<i32>, int, i32), HuffmanDecodingError>((b, cur2, dc)),
                Err(e) => Err::<(Seq<i32>, int, i32), HuffmanDecodingError>(e),
            },
        decreases 64 - i,
    {
        let symbol: u8 = match get_next_symbol(reader, data, ac_table) {
            Ok(s) => s,
            Err(e) => {
                return Err(e);
            },
        };
        if symbol == 0x00 {
            return Ok(block);
        }
        let mut skip_zeros: u8 = symbol >> 4;
        let coeff_len: u8 = symbol & 0x0F;
        if symbol == 0xF0 {
            skip_zeros = 16;
        }
        proof {
            assert(symbol >> 4 <= 15 && symbol & 0x0F <= 15) by (bit_vector);
            assert(forall|s: u8| s != 0 && s & 0x0F == 0 ==> s >> 4 >= 1) by (bit_vector);
        }
        if i + (skip_zeros as usize) >= 64 {
            return Err(HuffmanDecodingError::ZerosExceedMCULength);
        }
        // the skipped positions hold zeros already: a fresh block is zero
        // everywhere and each scan position is written at most once
        i = i + skip_zeros as usize;
        if coeff_len > 10 {
            return Err(HuffmanDecodingError::InvalidACCoefficientLength);
        }
        if coeff_len != 0 {
            let value: u32 = match reader.read_length(data, coeff_len) {
                Some(v) => v,
                None => {
                    return Err(HuffmanDecodingError::ReadPastLength);
                },
            };
            proof {
                lemma_bits_value_bound(data@, reader.cursor() - coeff_len, coeff_len as nat);
            }
            let ac_coeff: i32 = extend_signed(coeff_len, value);
            proof {
                lemma_decode_signed_bounds(coeff_len as nat, value as int);
                crate::zigzag::lemma_zigzag_bijective();
            }
            let z: usize = zigzag(i);
            block.set(z, ac_coeff);
            i = i + 1;
        }
    }
    Ok(block)
}

/// What code generation does to one table slot: a set table keeps its
/// counts, symbols and presence and gets the canonical code words, the
/// words past its symbol count untouched; an unset table is untouched
/// entirely.
pub open spec fn codes_generated_slot(t0: HuffmanTable, t1: HuffmanTable) -> bool {
    if t0.is_set {
        &&& t1.offsets == t0.offsets
        &&& t1.symbols == t0.symbols
        &&& t1.is_set
        &&& t1.codes.len() == 162
        &&& codes_canonical(t0.offsets@, t1.codes@)
        &&& forall|j: int| t0.offsets@[16] <= j < 162 ==> t1.codes@[j] == t0.codes@[j]
    } else {
        t1 == t0
    }
}

/// Code generation over a whole table bank, slot by slot.
pub open spec fn codes_generated(t0: Seq<HuffmanTable>, t1: Seq<HuffmanTable>) -> bool {
    &&& t1.len() == t0.len()
    &&& forall|i: int| 0 <= i < t0.len() ==> codes_generated_slot(#[trigger] t0[i], t1[i])
}

/// Whether MCU index `i` starts a restart interval: never when the
/// interval is zero, else at every multiple of the interval (the very
/// first MCU included).
pub open spec fn is_restart_boundary(interval: u16, i: int) -> bool {
    interval != 0 && i % (interval as int) == 0
}

/// A restart interval of zero disables restarts: no MCU index is ever a
/// restart boundary, so the decoder never realigns mid-scan.
pub proof fn lemma_zero_restart_interval_disables()
    ensures
        forall|i: int| !is_restart_boundary(0, i),
{
}

/// Checks whether MCU index `i` starts a restart interval.
pub fn restart_boundary(interval: u16, i: usize) -> (b: bool)
    ensures
        b == is_restart_boundary(interval, i as int),
{
    interval != 0 && i % (interval as usize) == 0
}

/// How many MCUs the grid holds: the dimensions rounded up to whole 8x8
/// blocks.
pub open spec fn mcu_total(height: u16, width: u16) -> int {
    ((height + 7) / 8) * ((width + 7) / 8)
}

/// The bit cursor advanced to the next byte boundary, where a partial
/// byte has been consumed.
pub open spec fn align_up(cursor: int) -> int {
    if cursor % 8 == 0 {
        cursor
    } else {
        cursor + 8 - cursor % 8
    }
}

/// The DC Huffman table that component `j` selects.
pub open spec fn dc_table_of(h: JPEGHeader, j: int) -> HuffmanTable {
    h.huffman_tables_dc[h.components[j].huffman_table_dc_id as int]
}

/// The AC Huffman table that component `j` selects.
pub open spec fn ac_table_of(h: JPEGHeader, j: int) -> HuffmanTable {
    h.huffman_tables_ac[h.components[j].huffman_table_ac_id as int]
}

/// Each MCU as the triple of its three component blocks.
pub open spec fn mcu_views(mcus: Seq<MCU>) -> Seq<(Seq<i32>, Seq<i32>, Seq<i32>)> {
    mcus.map_values(|m: MCU| (m.c0@, m.c1@, m.c2@))
}

/// One component's part of an MCU: a declared component decodes a block
/// against its tables; an undeclared one contributes a zero block, no
/// bits and no predictor change.
pub open spec fn component_step(
    used: bool,
    dc_t: HuffmanTable,
    ac_t: HuffmanTable,
    data: Seq<u8>,
    cursor: int,
    prev: i32,
) -> Result<(Seq<i32>, int, i32), HuffmanDecodingError> {
    if used {
        block_decode_spec(dc_t, ac_t, data, cursor, prev)
    } else {
        Ok((zero_block_spec(), cursor, prev))
    }
}

/// Decoding the rest of the MCU grid from index `i`: at a restart
/// boundary the DC predictors reset and the cursor realigns to a byte
/// boundary; then each component the frame header declared decodes one
/// block, in frame order, against the tables it selects.
#[verifier::opaque]
pub open spec fn grid_rest_spec(
    h: JPEGHeader,
    data: Seq<u8>,
    i: int,
    total: int,
    cursor: int,
    prevs: (i32, i32, i32),
) -> Result<Seq<(Seq<i32>, Seq<i32>, Seq<i32>)>, HuffmanDecodingError>
    decreases total - i,
{
    if i >= total {
        Ok(Seq::empty())
    } else {
        let cursor0 = if is_restart_boundary(h.restart_interval, i) {
            align_up(cursor)
        } else {
            cursor
        };
        let prevs0 = if is_restart_boundary(h.restart_interval, i) {
            (0i32, 0i32, 0i32)
        } else {
            prevs
        };
        match component_step(
            h.components[0].is_used_sof,
            dc_table_of(h, 0),
            ac_table_of(h, 0),
            data,
            cursor0,
            prevs0.0,
        ) {
            Err(e) => Err(e),
            Ok((b0, cur1, dc0)) => match component_step(
                h.components[1].is_used_sof,
                dc_table_of(h, 1),
                ac_table_of(h, 1),
                data,
                cur1,
                prevs0.1,
            ) {
                Err(e) => Err(e),
                Ok((b1, cur2, dc1)) => match component_step(
                    h.components[2].is_used_sof,
                    dc_table_of(h, 2),
                    ac_table_of(h, 2),
                    data,
                    cur2,
                    prevs0.2,
                ) {
                    Err(e) => Err(e),
                    Ok((b2, cur3, dc2)) => match grid_rest_spec(
                        h,
                        data,
                        i + 1,
                        total,
                        cur3,
                        (dc0, dc1, dc2),
                    ) {
                        Err(e) => Err(e),
                        Ok(rest) => Ok(seq![(b0, b1, b2)] + rest),
                    },
                },
            },
        }
    }
}

impl JPEGHeader {
    /// Derives the canonical code words of every Huffman table that a DHT
    /// segment set, in both banks; nothing else on the header changes.
    pub fn generate_table_codes(&mut self)
        requires
            old(self).wf(),
        ensures
            final(self).wf(),
            *final(self) == (JPEGHeader {
                huffman_tables_dc: final(self).huffman_tables_dc,
                huffman_tables_ac: final(self).huffman_tables_ac,
                ..*old(self)
            }),
            forall|i: int|
                0 <= i < 4 ==> (#[trigger] final(self).huffman_tables_dc[i]).is_set == old(
                    self,
                ).huffman_tables_dc[i].is_set,
            forall|i: int|
                0 <= i < 4 ==> (#[trigger] final(self).huffman_tables_ac[i]).is_set == old(
                    self,
                ).huffman_tables_ac[i].is_set,
            codes_generated(old(self).huffman_tables_dc@, final(self).huffman_tables_dc@),
            codes_generated(old(self).huffman_tables_ac@, final(self).huffman_tables_ac@),
    {
        let mut ti: usize = 0;
        #[verifier::loop_isolation(false)]
        while ti < 4
            invariant
                self.wf(),
                0 <= ti <= 4,
                *self == (JPEGHeader {
                    huffman_tables_dc: self.huffman_tables_dc,
                    huffman_tables_ac: self.huffman_tables_ac,
                    ..*old(self)
                }),
                forall|i: int|
                    ti <= i < 4 ==> self.huffman_tables_dc[i] == (#[trigger] old(
                        self,
                    ).huffman_tables_dc[i]) && self.huffman_tables_ac[i] == old(
                        self,
                    ).huffman_tables_ac[i],
                forall|i: int|
                    0 <= i < ti ==> codes_generated_slot(
                        (#[trigger] old(self).huffman_tables_dc[i]),
                        self.huffman_tables_dc[i],
                    ) && codes_generated_slot(
                        old(self).huffman_tables_ac[i],
                        self.huffman_tables_ac[i],
                    ),
            decreases 4 - ti,
        {
            let ghost dc0 = self.huffman_tables_dc[ti as int];
            let ghost ac0 = self.huffman_tables_ac[ti as int];
            if self.huffman_tables_dc[ti].is_set {
                let mut t: HuffmanTable = HuffmanTable::default();
                self.huffman_tables_dc.set_and_swap(ti, &mut t);
                t.generate_codes();
                self.huffman_tables_dc.set_and_swap(ti, &mut t);
            }
            if self.huffman_tables_ac[ti].is_set {
                let mut t: HuffmanTable = HuffmanTable::default();
                self.huffman_tables_ac.set_and_swap(ti, &mut t);
                t.generate_codes();
                self.huffman_tables_ac.set_and_swap(ti, &mut t);
            }
            proof {
                assert(codes_generated_slot(dc0, self.huffman_tables_dc[ti as int]));
                assert(codes_generated_slot(ac0, self.huffman_tables_ac[ti as int]));
            }
            ti = ti + 1;
        }
        proof {
            assert forall|i: int|
                0 <= i < 4 implies codes_generated_slot(
                #[trigger] old(self).huffman_tables_dc@[i],
                self.huffman_tables_dc@[i],
            ) by {
                assert(codes_generated_slot(
                    old(self).huffman_tables_dc[i],
                    self.huffman_tables_dc[i],
                ));
            }
            assert forall|i: int|
                0 <= i < 4 implies codes_generated_slot(
                #[trigger] old(self).huffman_tables_ac@[i],
                self.huffman_tables_ac@[i],
            ) by {
                assert(codes_generated_slot(
                    old(self).huffman_tables_dc[i],
                    self.huffman_tables_dc[i],
                ));
                assert(codes_generated_slot(
                    old(self).huffman_tables_ac[i],
                    self.huffman_tables_ac[i],
                ));
            }
        }
    }

    /// Decodes the three component blocks of one MCU, in frame order: a
    /// declared component decodes against its tables, an undeclared one
    /// keeps a zero block; the DC predictors are carried per component.
    #[verifier::rlimit(60)]
    #[verifier::spinoff_prover]
    fn decode_mcu_components(
        &self,
        reader: &mut BitReader,
        prev0: &mut i32,
        prev1: &mut i32,
        prev2: &mut i32,
    ) -> (r: Result<MCU, HuffmanDecodingError>)
        requires
            self.wf(),
            old(reader).wf(self.huffman_data@),
        ensures
            final(reader).wf(self.huffman_data@),
            ({
                let data = self.huffman_data@;
                match component_step(
                    self.components[0].is_used_sof,
                    dc_table_of(*self, 0),
                    ac_table_of(*self, 0),
                    data,
                    old(reader).cursor(),
                    *old(prev0),
                ) {
                    Err(e) => r == Err::<MCU, HuffmanDecodingError>(e),
                    Ok((b0, cur1, d0)) => match component_step(
                        self.components[1].is_used_sof,
                        dc_table_of(*self, 1),
                        ac_table_of(*self, 1),
                        data,
                        cur1,
                        *old(prev1),
                    ) {
                        Err(e) => r == Err::<MCU, HuffmanDecodingError>(e),
                        Ok((b1, cur2, d1)) => match component_step(
                            self.components[2].is_used_sof,
                            dc_table_of(*self, 2),
                            ac_table_of(*self, 2),
                            data,
                            cur2,
                            *old(prev2),
                        ) {
                            Err(e) => r == Err::<MCU, HuffmanDecodingError>(e),
                            Ok((b2, cur3, d2)) => {
                                &&& r is Ok
                                &&& r->Ok_0.wf()
                                &&& r->Ok_0.c0@ == b0
                                &&& r->Ok_0.c1@ == b1
                                &&& r->Ok_0.c2@ == b2
                                &&& final(reader).cursor() == cur3
                                &&& *final(prev0) == d0
                                &&& *final(prev1) == d1
                                &&& *final(prev2) == d2
                            },
                        },
                    },
                }
            }),
    {
        let data: &Vec<u8> = &self.huffman_data;
        let block0: Vec<i32> = if self.components[0].is_used_sof {
            match decode_mcus(
                reader,
                data,
                prev0,
                &self.huffman_tables_dc[self.components[0].huffman_table_dc_id as usize],
                &self.huffman_tables_ac[self.components[0].huffman_table_ac_id as usize],
            ) {
                Ok(b) => b,
                Err(e) => {
                    return Err(e);
                },
            }
        } else {
            zero_block()
        };
        let block1: Vec<i32> = if self.components[1].is_used_sof {
            match decode_mcus(
                reader,
                data,
                prev1,
                &self.huffman_tables_dc[self.components[1].huffman_table_dc_id as usize],
                &self.huffman_tables_ac[self.components[1].huffman_table_ac_id as usize],
            ) {
                Ok(b) => b,
                Err(e) => {
                    return Err(e);
                },
            }
        } else {
            zero_block()
        };
        let block2: Vec<i32> = if self.components[2].is_used_sof {
            match decode_mcus(
                reader,
                data,
                prev2,
                &self.huffman_tables_dc[self.components[2].huffman_table_dc_id as usize],
                &self.huffman_tables_ac[self.components[2].huffman_table_ac_id as usize],
            ) {
                Ok(b) => b,
                Err(e) => {
                    return Err(e);
                },
            }
        } else {
            zero_block()
        };
        Ok(MCU { c0: block0, c1: block1, c2: block2 })
    }

    /// Walks the MCU grid over the extracted scan data: one block per
    /// declared component in frame order (an undeclared component keeps a
    /// zero block), resetting the DC predictors and realigning the bit
    /// reader at each restart boundary, exactly as [`grid_rest_spec`]
    /// states.  The tables must already carry their canonical codes.
    #[verifier::rlimit(100)]
    #[verifier::spinoff_prover]
    pub fn decode_grid(&self) -> (r: Result<Vec<MCU>, Error>)
        requires
            self.wf(),
        ensures
            r is Ok ==> r->Ok_0@.len() == mcu_total(self.height, self.width) && (forall|m: int|
                0 <= m < r->Ok_0@.len() ==> (#[trigger] r->Ok_0@[m]).wf()),
            r is Err ==> (r->Err_0 matches Error::HuffmanDecode(_)),
            ({
                let spec_r = grid_rest_spec(
                    *self,
                    self.huffman_data@,
                    0,
                    mcu_total(self.height, self.width),
                    0,
                    (0i32, 0i32, 0i32),
                );
                match spec_r {
                    Ok(g) => r is Ok && mcu_views(r->Ok_0@) == g,
                    Err(e) => r == Err::<Vec<MCU>, Error>(Error::HuffmanDecode(e)),
                }
            }),
    {
        let mcu_height: usize = (self.height as usize + 7) / 8;
        let mcu_width: usize = (self.width as usize + 7) / 8;
        proof {
            assert(mcu_height * mcu_width <= 8192 * 8192) by (nonlinear_arith)
                requires
                    0 <= mcu_height <= 8192,
                    0 <= mcu_width <= 8192,
            {
            }
        }
        let total: usize = mcu_height * mcu_width;
        let ghost hgen = *self;
        let ghost total_g = total as int;
        let data: &Vec<u8> = &self.huffman_data;
        let mut reader: BitReader = BitReader::new();
        let mut prev0: i32 = 0;
        let mut prev1: i32 = 0;
        let mut prev2: i32 = 0;

        let ghost target = grid_rest_spec(hgen, data@, 0, total_g, 0, (0i32, 0i32, 0i32));
        let mut mcus: Vec<MCU> = Vec::new();
        let mut i: usize = 0;
        #[verifier::loop_isolation(false)]
        while i < total
            invariant
                reader.wf(data@),
                mcus.len() == i,
                0 <= i <= total,
                forall|m: int| 0 <= m < i ==> (#[trigger] mcus@[m]).wf(),
                target == (match grid_rest_spec(
                    hgen,
                    data@,
                    i as int,
                    total_g,
                    reader.cursor(),
                    (prev0, prev1, prev2),
                ) {
                    Ok(rest) => Ok::<Seq<(Seq<i32>, Seq<i32>, Seq<i32>)>, HuffmanDecodingError>(
                        mcu_views(mcus@) + rest,
                    ),
                    Err(e) => Err::<Seq<(Seq<i32>, Seq<i32>, Seq<i32>)>, HuffmanDecodingError>(e),
                }),
            decreases total - i,
        {
            proof {
                reveal(grid_rest_spec);
            }
            if restart_boundary(self.restart_interval, i) {
                prev0 = 0;
                prev1 = 0;
                prev2 = 0;
                proof {
                    let b = reader.byte_position as int;
                    let t = reader.bit_position as int;
                    assert((8 * b + t) % 8 == t) by (nonlinear_arith)
                        requires
                            0 <= t < 8,
                            0 <= b,
                    ;
                }
                reader.align(data);
            }
            let mcu: MCU = match self.decode_mcu_components(
                &mut reader,
                &mut prev0,
                &mut prev1,
                &mut prev2,
            ) {
                Ok(m) => m,
                Err(e) => {
                    return Err(Error::HuffmanDecode(e));
                },
            };
            let ghost views_before = mcu_views(mcus@);
            let ghost triple = (mcu.c0@, mcu.c1@, mcu.c2@);
            mcus.push(mcu);
            i = i + 1;
            proof {
                assert(mcu_views(mcus@) =~= views_before.push(triple));
                if grid_rest_spec(hgen, data@, i as int, total_g, reader.cursor(), (prev0, prev1, prev2)) is Ok {
                    let rest = grid_rest_spec(
                        hgen,
                        data@,
                        i as int,
                        total_g,
                        reader.cursor(),
                        (prev0, prev1, prev2),
                    )->Ok_0;
                    assert((views_before.push(triple)) + rest =~= views_before + (seq![triple]
                        + rest));
                }
            }
        }
        proof {
            reveal(grid_rest_spec);
            assert(grid_rest_spec(hgen, data@, i as int, total_g, reader.cursor(), (prev0, prev1, prev2))
                == Ok::<Seq<(Seq<i32>, Seq<i32>, Seq<i32>)>, HuffmanDecodingError>(Seq::empty()));
            assert(mcu_views(mcus@) + Seq::<(Seq<i32>, Seq<i32>, Seq<i32>)>::empty() =~= mcu_views(
                mcus@,
            ));
        }
        Ok(mcus)
    }

    /// Decodes the extracted scan data into the MCU grid: generates the
    /// canonical codes of every table that is set, then walks the grid.
    /// Only the Huffman tables' code words change on the header, and each
    /// table keeps its counts, symbols and presence.
    pub fn decode_huffman(&mut self) -> (r: Result<Vec<MCU>, Error>)
        requires
            old(self).wf(),
        ensures
            final(self).wf(),
            *final(self) == (JPEGHeader {
                huffman_tables_dc: final(self).huffman_tables_dc,
                huffman_tables_ac: final(self).huffman_tables_ac,
                ..*old(self)
            }),
            forall|i: int|
                0 <= i < 4 ==> (#[trigger] final(self).huffman_tables_dc[i]).is_set == old(
                    self,
                ).huffman_tables_dc[i].is_set,
            forall|i: int|
                0 <= i < 4 ==> (#[trigger] final(self).huffman_tables_ac[i]).is_set == old(
                    self,
                ).huffman_tables_ac[i].is_set,
            codes_generated(old(self).huffman_tables_dc@, final(self).huffman_tables_dc@),
            codes_generated(old(self).huffman_tables_ac@, final(self).huffman_tables_ac@),
            r is Ok ==> r->Ok_0@.len() == mcu_total(old(self).height, old(self).width) && (forall|
                m: int,
            |
                0 <= m < r->Ok_0@.len() ==> (#[trigger] r->Ok_0@[m]).wf()),
            r is Err ==> (r->Err_0 matches Error::HuffmanDecode(_)),
            ({
                let spec_r = grid_rest_spec(
                    *final(self),
                    final(self).huffman_data@,
                    0,
                    mcu_total(old(self).height, old(self).width),
                    0,
                    (0i32, 0i32, 0i32),
                );
                match spec_r {
                    Ok(g) => r is Ok && mcu_views(r->Ok_0@) == g,
                    Err(e) => r == Err::<Vec<MCU>, Error>(Error::HuffmanDecode(e)),
                }
            }),
    {
        // derive the canonical codes of every table that a DHT segment set
        self.generate_table_codes();
        self.decode_grid()
    }
}

} // verus!
