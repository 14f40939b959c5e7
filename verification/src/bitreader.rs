//! MSB-first bit extraction from the unescaped scan data, with
//! byte realignment at restart boundaries.

use vstd::prelude::*;
use vstd::arithmetic::power2::pow2;

verus! {

/// Bit `k` of the logical bit stream over `data`: bit 7 (most significant)
/// of byte 0 comes first.
pub open spec fn stream_bit(data: Seq<u8>, k: int) -> u32 {
    ((data[k / 8] >> ((7 - k % 8) as u8)) & 1) as u32
}

/// The unsigned value of the `n` bits starting at bit `start`, read
/// MSB-first.
pub open spec fn bits_value(data: Seq<u8>, start: int, n: nat) -> int
    decreases n,
{
    if n == 0 {
        0
    } else {
        2 * bits_value(data, start, (n - 1) as nat) + stream_bit(data, start + n - 1)
    }
}

/// A bit value is zero or one.
pub proof fn lemma_stream_bit_bound(data: Seq<u8>, k: int)
    ensures
        stream_bit(data, k) <= 1,
{
    let b = data[k / 8];
    let sh = (7 - k % 8) as u8;
    assert((b >> sh) & 1 <= 1) by (bit_vector);
}

/// `n` bits hold a value below `2^n`.
pub proof fn lemma_bits_value_bound(data: Seq<u8>, start: int, n: nat)
    ensures
        0 <= bits_value(data, start, n) < pow2(n),
    decreases n,
{
    if n == 0 {
        assert(pow2(0) == 1) by {
            vstd::arithmetic::power2::lemma2_to64();
        }
    } else {
        lemma_bits_value_bound(data, start, (n - 1) as nat);
        lemma_stream_bit_bound(data, start + n - 1);
        assert(pow2(n) == 2 * pow2((n - 1) as nat)) by {
            vstd::arithmetic::power2::lemma_pow2_unfold(n);
        }
    }
}

/// A cursor over the scan data's bit stream. The data itself is handed to
/// each read, so the reader holds only the position.
pub struct BitReader {
    pub byte_position: usize,
    pub bit_position: usize,
}

impl BitReader {
    /// The cursor points at a bit of `data`, or exactly at its end.
    pub open spec fn wf(&self, data: Seq<u8>) -> bool {
        &&& self.bit_position < 8
        &&& self.byte_position <= data.len()
        &&& self.byte_position == data.len() ==> self.bit_position == 0
    }

    /// The index of the next bit to read.
    pub open spec fn cursor(&self) -> int {
        8 * self.byte_position + self.bit_position
    }

    pub fn new() -> (r: Self)
        ensures
            r.byte_position == 0,
            r.bit_position == 0,
            r.cursor() == 0,
    {
        BitReader { byte_position: 0, bit_position: 0 }
    }

    /// Reads the next bit, or `None` when the stream is exhausted (the
    /// cursor then stays put).
    pub fn read_bit(&mut self, data: &Vec<u8>) -> (r: Option<u32>)
        requires
            old(self).wf(data@),
        ensures
            final(self).wf(data@),
            old(self).cursor() < 8 * data@.len() ==> {
                &&& r == Some(stream_bit(data@, old(self).cursor()))
                &&& final(self).cursor() == old(self).cursor() + 1
                &&& stream_bit(data@, old(self).cursor()) <= 1
            },
            old(self).cursor() >= 8 * data@.len() ==> r == None::<u32> && *final(self) == *old(self),
    {
        if self.byte_position < data.len() {
            let byte: u8 = data[self.byte_position];
            let sh: u8 = (7 - self.bit_position) as u8;
            let bit: u32 = ((byte >> sh) & 1) as u32;
            proof {
                let k = old(self).cursor();
                let bp = old(self).byte_position as int;
                let bi = old(self).bit_position as int;
                assert(k / 8 == bp && k % 8 == bi) by (nonlinear_arith)
                    requires
                        k == 8 * bp + bi,
                        0 <= bi < 8,
                        0 <= bp,
                ;
                lemma_stream_bit_bound(data@, k);
            }
            self.bit_position = self.bit_position + 1;
            if self.bit_position == 8 {
                self.bit_position = 0;
                self.byte_position = self.byte_position + 1;
            }
            Some(bit)
        } else {
            None
        }
    }

    /// Reads `length` bits MSB-first as one unsigned value. On `None` the
    /// whole stream has been consumed.
    pub fn read_length(&mut self, data: &Vec<u8>, length: u8) -> (r: Option<u32>)
        requires
            old(self).wf(data@),
            length <= 16,
        ensures
            final(self).wf(data@),
            old(self).cursor() + length <= 8 * data@.len() ==> {
                &&& r == Some(bits_value(data@, old(self).cursor(), length as nat) as u32)
                &&& final(self).cursor() == old(self).cursor() + length
            },
            old(self).cursor() + length > 8 * data@.len() ==> r == None::<u32> && final(self).cursor()
                == 8 * data@.len(),
    {
        let mut output: u32 = 0;
        let ghost c0 = old(self).cursor();
        proof {
            assert(pow2(0) == 1) by {
                vstd::arithmetic::power2::lemma2_to64();
            }
        }
        #[verifier::loop_isolation(false)]
        for i in 0..length
            invariant
                self.wf(data@),
                self.cursor() == c0 + i,
                c0 + i <= 8 * data@.len(),
                output == bits_value(data@, c0, i as nat),
                output < pow2(i as nat),
                length <= 16,
        {
            let bit: u32 = match self.read_bit(data) {
                Some(bit) => bit,
                None => {
                    return None;
                },
            };
            proof {
                assert(pow2(i as nat) <= pow2(15)) by {
                    if (i as nat) < 15 {
                        vstd::arithmetic::power2::lemma_pow2_strictly_increases(i as nat, 15);
                    }
                }
                assert(pow2(15) == 0x8000 && pow2(16) == 0x10000) by {
                    vstd::arithmetic::power2::lemma2_to64();
                }
                assert(pow2((i + 1) as nat) == 2 * pow2(i as nat)) by {
                    vstd::arithmetic::power2::lemma_pow2_unfold((i + 1) as nat);
                }
            }
            output = output * 2 + bit;
        }
        Some(output)
    }

    /// Advances to the next byte boundary when a partial byte has been
    /// consumed; otherwise does nothing.
    pub fn align(&mut self, data: &Vec<u8>)
        requires
            old(self).wf(data@),
        ensures
            final(self).wf(data@),
            old(self).bit_position != 0 ==> final(self).byte_position == old(self).byte_position
                + 1 && final(self).bit_position == 0,
            old(self).bit_position == 0 ==> *final(self) == *old(self),
    {
        if self.byte_position < data.len() && self.bit_position != 0 {
            self.bit_position = 0;
            self.byte_position = self.byte_position + 1;
        }
    }
}

} // verus!
