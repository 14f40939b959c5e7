//! The validated image header: everything the marker segments declare,
//! the extracted scan data, and the decoded coefficient grid.

use vstd::prelude::*;
use crate::component::ColorComponent;
use crate::decoder::MCU;
use crate::error::Error;
use crate::huffman::HuffmanTable;
use crate::markers::{DecodingOutcome, Marker};
use crate::qtable::QTable;
use crate::stream::ByteStream;

verus! {

/// The density unit of a JFIF application segment.
#[derive(Clone, Copy, Debug, PartialEq, Eq, Structural)]
pub enum JfifUnit {
    NoUnit,
    PerInch,
    PerCenti,
}

/// The JFIF application segment: version, pixel density, and the raw
/// thumbnail bytes.
#[derive(Debug)]
pub struct APP0 {
    pub major_version: u8,
    pub minor_version: u8,
    pub units: JfifUnit,
    pub x_density: u16,
    pub y_density: u16,
    pub x_thumbnail: u8,
    pub y_thumbnail: u8,
    pub thumbnail_data: Vec<u8>,
}

/// Everything one decode gathers: the JFIF segment if one was seen, four
/// quantization table slots, four Huffman table slots per bank, three
/// color components, the frame and scan parameters, the unescaped
/// entropy-coded data, and the decoded MCU grid.
#[derive(Debug)]
pub struct JPEGHeader {
    pub jfif: Option<APP0>,
    pub qtables: Vec<QTable>,
    pub restart_interval: u16,
    pub zero_based_component_id: bool,
    pub huffman_tables_dc: Vec<HuffmanTable>,
    pub huffman_tables_ac: Vec<HuffmanTable>,
    pub components: Vec<ColorComponent>,
    pub is_sof_set: bool,
    pub height: u16,
    pub width: u16,
    pub start_of_selection: u8,
    pub end_of_selection: u8,
    pub successive_approximation_high: u8,
    pub successive_approximation_low: u8,
    pub huffman_data: Vec<u8>,
    pub mcus: Vec<MCU>,
}

impl JPEGHeader {
    /// Four quantization slots, four Huffman slots per bank and three
    /// components, each well formed.
    pub open spec fn wf(&self) -> bool {
        &&& self.qtables.len() == 4
        &&& forall|i: int| 0 <= i < 4 ==> (#[trigger] self.qtables[i]).wf()
        &&& self.huffman_tables_dc.len() == 4
        &&& forall|i: int| 0 <= i < 4 ==> (#[trigger] self.huffman_tables_dc[i]).wf()
        &&& self.huffman_tables_ac.len() == 4
        &&& forall|i: int| 0 <= i < 4 ==> (#[trigger] self.huffman_tables_ac[i]).wf()
        &&& self.components.len() == 3
        &&& forall|i: int| 0 <= i < 3 ==> (#[trigger] self.components[i]).wf()
    }

    /// Some quantization table slot has been filled.
    pub open spec fn some_qtable_set(&self) -> bool {
        exists|i: int| 0 <= i < 4 && (#[trigger] self.qtables[i]).is_set
    }

    /// Some Huffman table slot, in either bank, has been filled.
    pub open spec fn some_htable_set(&self) -> bool {
        exists|i: int|
            0 <= i < 4 && ((#[trigger] self.huffman_tables_dc[i]).is_set
                || self.huffman_tables_ac[i].is_set)
    }

    /// Some component has been declared by the frame header.
    pub open spec fn some_component_used(&self) -> bool {
        exists|i: int| 0 <= i < 3 && (#[trigger] self.components[i]).is_used_sof
    }

    /// Every declared component's referenced tables are present: its DC
    /// and AC Huffman slots and its quantization slot are all filled.
    pub open spec fn component_tables_present(&self) -> bool {
        forall|i: int|
            0 <= i < 3 && (#[trigger] self.components[i]).is_used_sof ==> {
                let c = self.components[i];
                &&& self.huffman_tables_dc[c.huffman_table_dc_id as int].is_set
                &&& self.huffman_tables_ac[c.huffman_table_ac_id as int].is_set
                &&& self.qtables[c.qtable as int].is_set
            }
    }

    /// A component is declared by the frame header exactly when the scan
    /// header selects it.
    pub open spec fn components_consistent(&self) -> bool {
        forall|i: int|
            0 <= i < 3 ==> ((#[trigger] self.components[i]).is_used_sof
                <==> self.components[i].is_used_sos)
    }

    /// Checks whether any quantization table slot is filled.
    pub fn has_qtable(&self) -> (b: bool)
        requires
            self.wf(),
        ensures
            b == self.some_qtable_set(),
    {
        self.qtables[0].is_set || self.qtables[1].is_set || self.qtables[2].is_set
            || self.qtables[3].is_set
    }

    /// Checks whether any Huffman table slot, in either bank, is filled.
    pub fn has_htable(&self) -> (b: bool)
        requires
            self.wf(),
        ensures
            b == self.some_htable_set(),
    {
        self.huffman_tables_dc[0].is_set || self.huffman_tables_dc[1].is_set
            || self.huffman_tables_dc[2].is_set || self.huffman_tables_dc[3].is_set
            || self.huffman_tables_ac[0].is_set || self.huffman_tables_ac[1].is_set
            || self.huffman_tables_ac[2].is_set || self.huffman_tables_ac[3].is_set
    }

    /// Checks whether the frame header has declared any component.
    pub fn has_component_in_sof(&self) -> (b: bool)
        requires
            self.wf(),
        ensures
            b == self.some_component_used(),
            b == crate::component::any_used_sof(self.components@),
    {
        let b = self.components[0].is_used_sof || self.components[1].is_used_sof
            || self.components[2].is_used_sof;
        proof {
            if self.components[0].is_used_sof {
                assert(self.components@[0].is_used_sof);
            } else if self.components[1].is_used_sof {
                assert(self.components@[1].is_used_sof);
            } else if self.components[2].is_used_sof {
                assert(self.components@[2].is_used_sof);
            }
        }
        b
    }
}

/// What every accepted header guarantees: a frame header was seen, at
/// least one quantization and one Huffman table are present, the frame
/// and scan declare the same components and every component's referenced
/// tables are present, the dimensions are nonzero, the scan parameters
/// are the baseline ones, and the MCU grid covers the image.
pub open spec fn accepted_header(h: JPEGHeader) -> bool {
    &&& h.wf()
    &&& h.is_sof_set
    &&& h.some_qtable_set()
    &&& h.some_htable_set()
    &&& h.components_consistent()
    &&& h.component_tables_present()
    &&& h.width >= 1
    &&& h.height >= 1
    &&& h.start_of_selection == 0
    &&& h.end_of_selection <= 63
    &&& h.successive_approximation_high == 0
    &&& h.successive_approximation_low == 0
    &&& h.mcus@.len() == crate::decoder::mcu_total(h.height, h.width)
    &&& forall|m: int| 0 <= m < h.mcus@.len() ==> (#[trigger] h.mcus@[m]).wf()
}

/// A filled slot at `i` shows some quantization table is set.
pub proof fn lemma_qtable_witness(h: JPEGHeader, i: int)
    requires
        0 <= i < 4,
        h.qtables[i].is_set,
    ensures
        h.some_qtable_set(),
{
}

/// A filled slot at `i`, in either bank, shows some Huffman table is set.
pub proof fn lemma_htable_witness(h: JPEGHeader, i: int)
    requires
        0 <= i < 4,
        h.huffman_tables_dc[i].is_set || h.huffman_tables_ac[i].is_set,
    ensures
        h.some_htable_set(),
{
}

/// What every segment processor preserves: filled table slots stay
/// filled, a seen frame header stays seen, and the dimensions are only
/// ever written with validated nonzero values.
pub open spec fn header_progress(h0: JPEGHeader, h1: JPEGHeader) -> bool {
    &&& h0.is_sof_set ==> h1.is_sof_set
    &&& forall|i: int| 0 <= i < 4 && (#[trigger] h0.qtables[i]).is_set ==> h1.qtables[i].is_set
    &&& forall|i: int|
        0 <= i < 4 && (#[trigger] h0.huffman_tables_dc[i]).is_set
            ==> h1.huffman_tables_dc[i].is_set
    &&& forall|i: int|
        0 <= i < 4 && (#[trigger] h0.huffman_tables_ac[i]).is_set
            ==> h1.huffman_tables_ac[i].is_set
    &&& (h1.width == h0.width || h1.width >= 1)
    &&& (h1.height == h0.height || h1.height >= 1)
    &&& forall|i: int|
        0 <= i < 3 && (#[trigger] h0.components[i]).is_used_sof ==> h1.components[i].is_used_sof
}

impl Default for JPEGHeader {
    /// A header with nothing declared yet: no JFIF segment, all table
    /// slots unset, no component used, dimensions zero, full spectral
    /// selection, no scan data.
    fn default() -> (r: Self)
        ensures
            r.wf(),
            r.jfif is None,
            !r.is_sof_set,
            !r.zero_based_component_id,
            r.restart_interval == 0,
            r.width == 0,
            r.height == 0,
            r.start_of_selection == 0,
            r.end_of_selection == 63,
            r.successive_approximation_high == 0,
            r.successive_approximation_low == 0,
            forall|i: int| 0 <= i < 4 ==> !(#[trigger] r.qtables[i]).is_set,
            forall|i: int| 0 <= i < 4 ==> !(#[trigger] r.huffman_tables_dc[i]).is_set,
            forall|i: int| 0 <= i < 4 ==> !(#[trigger] r.huffman_tables_ac[i]).is_set,
            forall|i: int| 0 <= i < 3 ==> (#[trigger] r.components[i]) == ColorComponent::default_spec(),
            r.huffman_data@ == Seq::<u8>::empty(),
            r.mcus@.len() == 0,
    {
        let mut qtables: Vec<QTable> = Vec::new();
        let mut huffman_tables_dc: Vec<HuffmanTable> = Vec::new();
        let mut huffman_tables_ac: Vec<HuffmanTable> = Vec::new();
        let mut components: Vec<ColorComponent> = Vec::new();
        for k in 0..4
            invariant
                qtables.len() == k,
                huffman_tables_dc.len() == k,
                huffman_tables_ac.len() == k,
                forall|i: int|
                    0 <= i < k ==> (#[trigger] qtables[i]).wf() && !qtables[i].is_set,
                forall|i: int|
                    0 <= i < k ==> (#[trigger] huffman_tables_dc[i]).wf()
                        && !huffman_tables_dc[i].is_set,
                forall|i: int|
                    0 <= i < k ==> (#[trigger] huffman_tables_ac[i]).wf()
                        && !huffman_tables_ac[i].is_set,
        {
            qtables.push(QTable::default());
            huffman_tables_dc.push(HuffmanTable::default());
            huffman_tables_ac.push(HuffmanTable::default());
        }
        for k in 0..3
            invariant
                components.len() == k,
                forall|i: int|
                    0 <= i < k ==> (#[trigger] components[i]) == ColorComponent::default_spec(),
        {
            components.push(ColorComponent::default());
        }
        JPEGHeader {
            jfif: None,
            qtables,
            restart_interval: 0,
            zero_based_component_id: false,
            huffman_tables_dc,
            huffman_tables_ac,
            components,
            is_sof_set: false,
            height: 0,
            width: 0,
            start_of_selection: 0,
            end_of_selection: 63,
            successive_approximation_high: 0,
            successive_approximation_low: 0,
            huffman_data: Vec::new(),
            mcus: Vec::new(),
        }
    }
}

/// The position right after the first adjacent `0xFF 0xD8` pair at or
/// past `i`, if the buffer holds one.
pub open spec fn find_soi(data: Seq<u8>, i: int) -> Option<int>
    decreases data.len() - i,
{
    if i + 2 > data.len() {
        None
    } else if data[i] == 0xFF && data[i + 1] == 0xD8 {
        Some(i + 2)
    } else {
        find_soi(data, i + 1)
    }
}

/// Scans for the first start-of-image marker, exactly as [`find_soi`]
/// states; bytes before it are skipped.
pub fn locate_soi(data: &Vec<u8>) -> (r: Option<usize>)
    ensures
        r matches Some(e) ==> find_soi(data@, 0) == Some(e as int) && 2 <= e <= data.len(),
        r is None ==> find_soi(data@, 0) is None,
{
    if data.len() < 2 {
        return None;
    }
    let mut i: usize = 0;
    #[verifier::loop_isolation(false)]
    while i <= data.len() - 2
        invariant
            i <= data.len() - 1,
            find_soi(data@, 0) == find_soi(data@, i as int),
        decreases data.len() - i,
    {
        if data[i] == 0xFF && data[i + 1] == 0xD8 {
            return Some(i + 2);
        }
        i = i + 1;
    }
    None
}

impl JPEGHeader {
    /// Decodes a whole JPEG byte buffer: locates the start-of-image
    /// marker (bytes before it are skipped), dispatches the marker
    /// segments until the start of scan, extracts the entropy-coded data,
    /// cross-validates the components against the tables, and decodes the
    /// MCU grid.
    ///
    /// A buffer without a start-of-image pair is refused with
    /// `StartOfImageNotFound`, and exactly then; one that ends right after
    /// it with `NoData`, and exactly then.  On success the header carries
    /// a frame header with nonzero dimensions, at least one quantization
    /// and one Huffman table, components declared by frame and scan
    /// consistently whose referenced tables are all present, baseline
    /// scan parameters, and one decoded MCU per 8x8 block of the image.
    #[verifier::rlimit(100)]
    #[verifier::spinoff_prover]
    pub fn new(stream: Vec<u8>) -> (r: Result<JPEGHeader, Error>)
        ensures
            (find_soi(stream@, 0) is None) <==> r == Err::<JPEGHeader, Error>(
                Error::StartOfImageNotFound,
            ),
            (find_soi(stream@, 0) == Some(stream@.len() as int)) <==> r == Err::<JPEGHeader, Error>(
                Error::NoData,
            ),
            r matches Ok(h) ==> accepted_header(h),
            r matches Ok(h) ==> (exists|b: int|
                0 <= b && b + 8 <= stream@.len() && #[trigger] stream@[b] == 0xC0 && h.height
                    as int == crate::stream::be16(stream@, b + 4) && h.width as int
                    == crate::stream::be16(stream@, b + 6)),
            r matches Ok(h) ==> (exists|q: int|
                0 <= q <= stream@.len() && #[trigger] crate::markers::scan_spec(stream@, q)
                    == Ok::<Seq<u8>, Error>(h.huffman_data@)),
    {
        let soi_end: usize = match locate_soi(&stream) {
            Some(e) => e,
            None => {
                return Err(Error::StartOfImageNotFound);
            },
        };
        if soi_end == stream.len() {
            return Err(Error::NoData);
        }
        let mut s = ByteStream { data: stream, pos: soi_end };
        let mut jpeg = JPEGHeader::default();

        let mut has_sof: bool = false;
        let mut has_qtable: bool = false;
        let mut has_htable: bool = false;
        let mut has_sos: bool = false;
        let mut done: bool = false;
        let ghost mut sof_pos: int = 0;

        #[verifier::loop_isolation(false)]
        while !done
            invariant
                s.wf(),
                s.data == stream,
                jpeg.wf(),
                jpeg.huffman_data@ == Seq::<u8>::empty(),
                has_sof ==> jpeg.is_sof_set && jpeg.width >= 1 && jpeg.height >= 1,
                has_sof ==> 0 <= sof_pos && sof_pos + 8 <= stream@.len() && stream@[sof_pos]
                    == 0xC0 && jpeg.height as int == crate::stream::be16(stream@, sof_pos + 4)
                    && jpeg.width as int == crate::stream::be16(stream@, sof_pos + 6),
                has_qtable ==> jpeg.some_qtable_set(),
                has_htable ==> jpeg.some_htable_set(),
                has_sos ==> done,
                has_sos ==> jpeg.start_of_selection == 0 && jpeg.end_of_selection <= 63
                    && jpeg.successive_approximation_high == 0
                    && jpeg.successive_approximation_low == 0,
            decreases s.data.len() - s.pos + (if done {
                0int
            } else {
                1int
            }),
        {
            match s.next() {
                None => {
                    done = true;
                },
                Some(byte) => {
                    if byte == 0xFF {
                        match s.peek() {
                            Some(_) => {
                                let ghost pre = jpeg;
                                let ghost pre_pos = s.pos as int;
                                let outcome: DecodingOutcome = match Marker::read(
                                    &mut s,
                                    &mut jpeg,
                                ) {
                                    Ok(o) => o,
                                    Err(e) => {
                                        return Err(e);
                                    },
                                };
                                proof {
                                    if pre.some_qtable_set() {
                                        let i0 = choose|i: int|
                                            0 <= i < 4 && (#[trigger] pre.qtables[i]).is_set;
                                        lemma_qtable_witness(jpeg, i0);
                                    }
                                    if pre.some_htable_set() {
                                        let i0 = choose|i: int|
                                            0 <= i < 4 && ((#[trigger] pre.huffman_tables_dc[i]).is_set
                                                || pre.huffman_tables_ac[i].is_set);
                                        lemma_htable_witness(jpeg, i0);
                                    }
                                }
                                match outcome {
                                    DecodingOutcome::StartOfFrame => {
                                        has_sof = true;
                                        proof {
                                            crate::markers::lemma_read_start_of_frame(
                                                s.data@,
                                                pre_pos,
                                                pre,
                                                s.pos as int,
                                                jpeg,
                                            );
                                            sof_pos = crate::markers::fill_run_end(
                                                s.data@,
                                                pre_pos,
                                            );
                                        }
                                    },
                                    DecodingOutcome::QTableSet => {
                                        has_qtable = true;
                                    },
                                    DecodingOutcome::HuffmanTable => {
                                        has_htable = true;
                                    },
                                    DecodingOutcome::StartOfScan => {
                                        has_sos = true;
                                        done = true;
                                    },
                                    DecodingOutcome::Nothing => {},
                                }
                            },
                            None => {
                                return Err(Error::InvalidMarker);
                            },
                        }
                    }
                },
            }
        }

        if !has_sof {
            return Err(Error::StartOfFrameNotFound);
        }
        if !has_qtable {
            return Err(Error::QTableNotFound);
        }
        if !has_htable {
            return Err(Error::HTableNotFound);
        }
        if !has_sos {
            return Err(Error::SOSNotFound);
        }

        let ghost scan_start = s.pos as int;
        match Marker::scan(&mut s, &mut jpeg.huffman_data) {
            Ok(_) => {},
            Err(e) => {
                return Err(e);
            },
        }
        proof {
            let body = crate::markers::scan_spec(stream@, scan_start)->Ok_0;
            assert(jpeg.huffman_data@ =~= body);
        }

        // cross-validation: each component is declared by frame and scan
        // consistently, and its referenced tables are present
        let mut ci: usize = 0;
        #[verifier::loop_isolation(false)]
        while ci < 3
            invariant
                jpeg.wf(),
                0 <= ci <= 3,
                forall|i: int|
                    0 <= i < ci ==> ((#[trigger] jpeg.components[i]).is_used_sof
                        <==> jpeg.components[i].is_used_sos),
                forall|i: int|
                    0 <= i < ci && (#[trigger] jpeg.components[i]).is_used_sof ==> {
                        let c = jpeg.components[i];
                        &&& jpeg.huffman_tables_dc[c.huffman_table_dc_id as int].is_set
                        &&& jpeg.huffman_tables_ac[c.huffman_table_ac_id as int].is_set
                        &&& jpeg.qtables[c.qtable as int].is_set
                    },
            decreases 3 - ci,
        {
            let c: crate::component::ColorComponent = jpeg.components[ci];
            if c.is_used_sos && !c.is_used_sof {
                return Err(Error::InvalidColorComponent);
            }
            if c.is_used_sof && !c.is_used_sos {
                return Err(Error::InvalidColorComponent);
            }
            if c.is_used_sof {
                if !jpeg.huffman_tables_dc[c.huffman_table_dc_id as usize].is_set {
                    return Err(Error::InvalidColorComponent);
                }
                if !jpeg.huffman_tables_ac[c.huffman_table_ac_id as usize].is_set {
                    return Err(Error::InvalidColorComponent);
                }
                if !jpeg.qtables[c.qtable as usize].is_set {
                    return Err(Error::InvalidColorComponent);
                }
            }
            ci = ci + 1;
        }

        let ghost pre = jpeg;
        let mcus: Vec<crate::decoder::MCU> = match jpeg.decode_huffman() {
            Ok(m) => m,
            Err(e) => {
                return Err(e);
            },
        };
        proof {
            let i0 = choose|i: int|
                0 <= i < 4 && ((#[trigger] pre.huffman_tables_dc[i]).is_set
                    || pre.huffman_tables_ac[i].is_set);
            lemma_htable_witness(jpeg, i0);
            assert forall|i: int|
                0 <= i < 3 && (#[trigger] jpeg.components[i]).is_used_sof implies {
                let c = jpeg.components[i];
                &&& jpeg.huffman_tables_dc[c.huffman_table_dc_id as int].is_set
                &&& jpeg.huffman_tables_ac[c.huffman_table_ac_id as int].is_set
                &&& jpeg.qtables[c.qtable as int].is_set
            } by {
                assert(jpeg.components[i] == pre.components[i]);
                let c = pre.components[i];
                assert(jpeg.huffman_tables_dc[c.huffman_table_dc_id as int].is_set
                    == pre.huffman_tables_dc[c.huffman_table_dc_id as int].is_set);
                assert(jpeg.huffman_tables_ac[c.huffman_table_ac_id as int].is_set
                    == pre.huffman_tables_ac[c.huffman_table_ac_id as int].is_set);
            }
        }
        jpeg.mcus = mcus;
        proof {
            assert(accepted_header(jpeg)) by {
                assert(jpeg.wf());
                assert(jpeg.is_sof_set);
                assert(jpeg.some_qtable_set());
                assert(jpeg.some_htable_set());
                assert(jpeg.components_consistent());
                assert(jpeg.component_tables_present());
                assert(jpeg.width >= 1 && jpeg.height >= 1);
                assert(jpeg.start_of_selection == 0 && jpeg.end_of_selection <= 63);
                assert(jpeg.successive_approximation_high == 0
                    && jpeg.successive_approximation_low == 0);
                assert(jpeg.mcus@.len() == crate::decoder::mcu_total(jpeg.height, jpeg.width));
                assert(forall|m: int|
                    0 <= m < jpeg.mcus@.len() ==> (#[trigger] jpeg.mcus@[m]).wf());
            }
        }
        Ok(jpeg)
    }
}

} // verus!
