//! Per-component state gathered from the frame and scan headers.

use vstd::prelude::*;

verus! {

/// One color component: its identifier, sampling factors, quantization
/// table selector, Huffman table selectors, and whether the frame and scan
/// headers have declared it.
#[derive(Clone, Copy, Debug, PartialEq, Eq, Structural)]
pub struct ColorComponent {
    pub id: u8,
    pub hfactor: u8,
    pub vfactor: u8,
    pub qtable: u8,
    pub huffman_table_ac_id: u8,
    pub huffman_table_dc_id: u8,
    pub is_used_sof: bool,
    pub is_used_sos: bool,
}

impl ColorComponent {
    /// The undeclared component that every slot starts as.
    pub open spec fn default_spec() -> ColorComponent {
        ColorComponent {
            id: 0u8,
            hfactor: 0u8,
            vfactor: 0u8,
            qtable: 0u8,
            huffman_table_ac_id: 0u8,
            huffman_table_dc_id: 0u8,
            is_used_sof: false,
            is_used_sos: false,
        }
    }

    /// Table selectors always point into the four table slots.
    pub open spec fn wf(&self) -> bool {
        &&& self.qtable < 4
        &&& self.huffman_table_ac_id < 4
        &&& self.huffman_table_dc_id < 4
    }
}

impl Default for ColorComponent {
    /// An undeclared component.
    fn default() -> (r: Self)
        ensures
            r.wf(),
            r == ColorComponent::default_spec(),
    {
        ColorComponent {
            id: 0,
            hfactor: 0,
            vfactor: 0,
            qtable: 0,
            huffman_table_ac_id: 0,
            huffman_table_dc_id: 0,
            is_used_sof: false,
            is_used_sos: false,
        }
    }
}

/// Some component in the sequence has been declared by a frame header.
pub open spec fn any_used_sof(comps: Seq<ColorComponent>) -> bool {
    exists|i: int| 0 <= i < comps.len() && (#[trigger] comps[i]).is_used_sof
}

} // verus!
