//! Quantization tables: up to four 64-entry tables, stored in natural
//! (de-zigzagged) order.

use vstd::prelude::*;

verus! {

/// What a quantization table destination is conventionally used for.
#[derive(Clone, Copy, Debug, PartialEq, Eq, Structural)]
pub enum QTableType {
    Luminance,
    Chrominance,
    Other,
}

/// What a destination is conventionally used for: destination 0 carries
/// luminance, 1 chrominance, and the rest are unnamed.
pub open spec fn kind_of(d: int) -> QTableType {
    if d == 0 {
        QTableType::Luminance
    } else if d == 1 {
        QTableType::Chrominance
    } else {
        QTableType::Other
    }
}

/// One quantization table slot. `is_set` records whether a DQT segment has
/// filled it; entries are kept in natural order.
#[derive(Debug)]
pub struct QTable {
    pub is_set: bool,
    pub is_extended_mode: bool,
    pub kind: QTableType,
    pub table: Vec<u16>,
}

impl QTable {
    /// A table always holds exactly 64 entries.
    pub open spec fn wf(&self) -> bool {
        self.table.len() == 64
    }
}

/// A 64-entry table of zeros.
pub fn zero_table_u16() -> (r: Vec<u16>)
    ensures
        r.len() == 64,
        forall|i: int| 0 <= i < 64 ==> r@[i] == 0u16,
{
    let mut v: Vec<u16> = Vec::new();
    for k in 0..64
        invariant
            v.len() == k,
            forall|i: int| 0 <= i < k ==> v@[i] == 0u16,
    {
        v.push(0u16);
    }
    v
}

impl Default for QTable {
    /// An empty, unset slot.
    fn default() -> (r: Self)
        ensures
            r.wf(),
            !r.is_set,
            !r.is_extended_mode,
            r.kind == QTableType::Other,
            forall|i: int| 0 <= i < 64 ==> r.table@[i] == 0u16,
    {
        QTable { is_set: false, is_extended_mode: false, kind: QTableType::Other, table: zero_table_u16() }
    }
}

} // verus!
