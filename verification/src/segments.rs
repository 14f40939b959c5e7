//! The segment processors: one per marker that carries decoder state.
//! Each consumes its segment from the stream and updates the header.

use vstd::prelude::*;
use crate::component::{ColorComponent, any_used_sof};
use crate::error::{DHTError, DQTError, Error, SOF0MarkerError, SOSError};
use crate::header::{APP0, JPEGHeader, JfifUnit, header_progress};
use crate::huffman::{HuffmanTable, zeros_u8, zeros_u32};
use crate::markers::{DecodingOutcome, Marker};
use crate::qtable::{QTable, QTableType, kind_of, zero_table_u16};
use crate::stream::{ByteStream, be16, stream_advanced};
use crate::zigzag::{zigzag, zigzag_spec, inv_zigzag_spec, lemma_zigzag_bijective};

verus! {

/// Everything the restart-interval processor promises of its result, end
/// position and header mutation.
pub open spec fn dri_post(
    data: Seq<u8>,
    p: int,
    h0: JPEGHeader,
    p1: int,
    h1: JPEGHeader,
    r: Result<DecodingOutcome, Error>,
) -> bool {
    if p + 2 > data.len() {
        r == Err::<DecodingOutcome, Error>(Error::InvalidRestartIntervalMarker) && h1 == h0 && p1
            == data.len()
    } else if be16(data, p) != 4 {
        r == Err::<DecodingOutcome, Error>(Error::InvalidRestartIntervalMarker) && h1 == h0 && p1
            == p + 2
    } else if p + 4 > data.len() {
        r == Err::<DecodingOutcome, Error>(Error::InvalidRestartIntervalMarker) && h1 == h0 && p1
            == data.len()
    } else {
        r == Ok::<DecodingOutcome, Error>(DecodingOutcome::Nothing) && p1 == p + 4 && h1
            == (JPEGHeader { restart_interval: be16(data, p + 2) as u16, ..h0 })
    }
}

/// Restart-interval definition: the stated length must be exactly four,
/// and the payload is the big-endian restart interval in MCUs.
pub fn process_dri(s: &mut ByteStream, h: &mut JPEGHeader) -> (r: Result<DecodingOutcome, Error>)
    requires
        old(s).wf(),
        old(h).wf(),
    ensures
        stream_advanced(*old(s), *final(s)),
        final(h).wf(),
        header_progress(*old(h), *final(h)),
        dri_post(old(s).data@, old(s).pos as int, *old(h), final(s).pos as int, *final(h), r),
{
    let error = Error::InvalidRestartIntervalMarker;
    let length: u16 = match Marker::marker_length(s, error) {
        Ok(l) => l,
        Err(e) => {
            return Err(e);
        },
    };
    if length != 0x04 {
        return Err(error);
    }
    let rsi: u16 = match s.read_u16() {
        Some(v) => v,
        None => {
            return Err(error);
        },
    };
    h.restart_interval = rsi;
    Ok(DecodingOutcome::Nothing)
}

/// The JFIF application segment's outcome and end position: extensions
/// and repeated plain segments are consumed and ignored; the first plain
/// segment must carry its fixed fields, a unit byte of at most two, and
/// its declared thumbnail bytes.
pub open spec fn app0_spec(data: Seq<u8>, p: int, h: JPEGHeader) -> (Result<DecodingOutcome, Error>, int) {
    if p + 2 > data.len() {
        (Err(Error::InvalidAPP0Marker), data.len() as int)
    } else if p + 6 > data.len() {
        (Err(Error::InvalidAPP0Marker), data.len() as int)
    } else {
        let l = be16(data, p);
        let after_ident: int = if p + 7 <= data.len() {
            p + 7
        } else {
            data.len() as int
        };
        if data[p + 5] == 0x58 {
            let sk: int = if l - 7 >= 0 {
                l - 7
            } else {
                0
            };
            (
                Ok(DecodingOutcome::Nothing),
                if after_ident + sk <= data.len() {
                    after_ident + sk
                } else {
                    data.len() as int
                },
            )
        } else if h.jfif is Some {
            (Ok(DecodingOutcome::Nothing), after_ident)
        } else if p + 10 > data.len() {
            (Err(Error::InvalidAPP0Marker), data.len() as int)
        } else if data[p + 9] > 2 {
            (Err(Error::InvalidAPP0Marker), p + 10)
        } else if p + 16 > data.len() {
            (Err(Error::InvalidAPP0Marker), data.len() as int)
        } else {
            let count: int = if l - 16 >= 0 {
                l - 16
            } else {
                0
            };
            if p + 16 + count > data.len() {
                (Err(Error::InvalidAPP0Marker), data.len() as int)
            } else {
                (Ok(DecodingOutcome::Nothing), p + 16 + count)
            }
        }
    }
}

/// Everything the JFIF processor promises: the exact outcome and end
/// position, no header change on failure or on an ignored segment, and the
/// parsed fields of a first plain segment.
pub open spec fn app0_post(
    data: Seq<u8>,
    p: int,
    h0: JPEGHeader,
    p1: int,
    h1: JPEGHeader,
    r: Result<DecodingOutcome, Error>,
) -> bool {
    let o = app0_spec(data, p, h0);
    &&& r == o.0
    &&& p1 == o.1
    &&& (r is Err ==> r == Err::<DecodingOutcome, Error>(Error::InvalidAPP0Marker) && h1 == h0)
    &&& (r is Ok ==> r == Ok::<DecodingOutcome, Error>(DecodingOutcome::Nothing) && h1
        == (JPEGHeader { jfif: h1.jfif, ..h0 }))
    &&& (h0.jfif is Some && r is Ok ==> h1.jfif == h0.jfif)
    &&& ({
        let l = be16(data, p);
        let count: int = if l - 16 >= 0 {
            l - 16
        } else {
            0
        };
        (r is Ok && h0.jfif is None && p + 6 <= data.len() && data[p + 5] != 0x58) ==> {
            &&& h1.jfif matches Some(ap)
            &&& ap.major_version == data[p + 7]
            &&& ap.minor_version == data[p + 8]
            &&& (ap.units == JfifUnit::NoUnit <==> data[p + 9] == 0)
            &&& (ap.units == JfifUnit::PerInch <==> data[p + 9] == 1)
            &&& (ap.units == JfifUnit::PerCenti <==> data[p + 9] == 2)
            &&& ap.x_density as int == be16(data, p + 10)
            &&& ap.y_density as int == be16(data, p + 12)
            &&& ap.x_thumbnail == data[p + 14]
            &&& ap.y_thumbnail == data[p + 15]
            &&& ap.thumbnail_data@ == data.subrange(p + 16, p + 16 + count)
            &&& p1 == p + 16 + count
        }
    })
}

/// JFIF application segment: the first non-extension occurrence is parsed
/// into the header's JFIF record; extensions and later occurrences are
/// consumed and ignored.
pub fn process_app0(s: &mut ByteStream, h: &mut JPEGHeader) -> (r: Result<DecodingOutcome, Error>)
    requires
        old(s).wf(),
        old(h).wf(),
    ensures
        stream_advanced(*old(s), *final(s)),
        final(h).wf(),
        header_progress(*old(h), *final(h)),
        app0_post(old(s).data@, old(s).pos as int, *old(h), final(s).pos as int, *final(h), r),
{
    let error = Error::InvalidAPP0Marker;
    let length: u16 = match Marker::marker_length(s, error) {
        Ok(l) => l,
        Err(e) => {
            return Err(e);
        },
    };
    // skip to the fourth byte of the five-byte identifier, which tells a
    // JFIF extension segment apart
    s.skip(3);
    let ext_byte: u8 = match s.next() {
        Some(b) => b,
        None => {
            return Err(error);
        },
    };
    let is_extension: bool = ext_byte == 0x58;
    let _last_identifier_byte: Option<u8> = s.next();
    let payload: i32 = length as i32 - 2 - 5;
    if !is_extension {
        if h.jfif.is_some() {
            // a second plain JFIF segment is ignored
            return Ok(DecodingOutcome::Nothing);
        }
        let major_version: u8 = match s.next() {
            Some(b) => b,
            None => {
                return Err(error);
            },
        };
        let minor_version: u8 = match s.next() {
            Some(b) => b,
            None => {
                return Err(error);
            },
        };
        let units_byte: u8 = match s.next() {
            Some(b) => b,
            None => {
                return Err(error);
            },
        };
        let units: JfifUnit = if units_byte == 0 {
            JfifUnit::NoUnit
        } else if units_byte == 1 {
            JfifUnit::PerInch
        } else if units_byte == 2 {
            JfifUnit::PerCenti
        } else {
            return Err(error);
        };
        let x_density: u16 = match s.read_u16() {
            Some(v) => v,
            None => {
                return Err(error);
            },
        };
        let y_density: u16 = match s.read_u16() {
            Some(v) => v,
            None => {
                return Err(error);
            },
        };
        let x_thumbnail: u8 = match s.next() {
            Some(b) => b,
            None => {
                return Err(error);
            },
        };
        let y_thumbnail: u8 = match s.next() {
            Some(b) => b,
            None => {
                return Err(error);
            },
        };
        let count: i32 = payload - 9;
        let ghost tstart = s.pos as int;
        let mut thumbnail_data: Vec<u8> = Vec::new();
        let mut t: i32 = 0;
        #[verifier::loop_isolation(false)]
        while t < count
            invariant
                s.wf(),
                s.data == old(s).data,
                0 <= t,
                t <= count || count < 0,
                count < 0 ==> t == 0,
                s.pos == tstart + t,
                old(s).pos <= tstart,
                thumbnail_data@ == s.data@.subrange(tstart, tstart + t),
            decreases count - t,
        {
            let byte: u8 = match s.next() {
                Some(b) => b,
                None => {
                    return Err(error);
                },
            };
            thumbnail_data.push(byte);
            t = t + 1;
            proof {
                assert(thumbnail_data@ =~= s.data@.subrange(tstart, tstart + t));
            }
        }
        let ap = APP0 {
            major_version,
            minor_version,
            units,
            x_density,
            y_density,
            x_thumbnail,
            y_thumbnail,
            thumbnail_data,
        };
        h.jfif = Some(ap);
        Ok(DecodingOutcome::Nothing)
    } else {
        let skip_n: usize = if payload > 0 {
            payload as usize
        } else {
            0
        };
        s.skip(skip_n);
        Ok(DecodingOutcome::Nothing)
    }
}

/// Reads one quantization table's 64 entries, 8-bit or big-endian 16-bit,
/// placing transmitted entry `i` at natural position `zigzag_spec(i)`.
pub fn read_qtable_data(s: &mut ByteStream, extended: bool) -> (r: Result<Vec<u16>, Error>)
    requires
        old(s).wf(),
    ensures
        stream_advanced(*old(s), *final(s)),
        ({
            let data = old(s).data@;
            let p = old(s).pos as int;
            let step: int = if extended {
                2
            } else {
                1
            };
            if p + 64 * step <= data.len() {
                &&& r is Ok
                &&& r->Ok_0.len() == 64
                &&& forall|i: int|
                    0 <= i < 64 ==> (#[trigger] r->Ok_0@[zigzag_spec(i)]) as int == (if extended {
                        be16(data, p + 2 * i)
                    } else {
                        data[p + i] as int
                    })
                &&& r->Ok_0@ == qtable_entries_spec(data, p, extended)
                &&& final(s).pos == p + 64 * step
            } else {
                r == Err::<Vec<u16>, Error>(Error::InvalidDQTMarker(DQTError::MissingNextByte))
                    && final(s).pos == data.len()
            }
        }),
{
    let ghost data = old(s).data@;
    let ghost p = old(s).pos as int;
    let ghost step: int = if extended {
        2
    } else {
        1
    };
    proof {
        lemma_zigzag_bijective();
    }
    let mut table: Vec<u16> = zero_table_u16();
    #[verifier::loop_isolation(false)]
    for i in 0..64
        invariant
            s.wf(),
            s.data == old(s).data,
            s.data@ == data,
            table.len() == 64,
            s.pos == p + i * step,
            forall|e: int|
                0 <= e < i ==> (#[trigger] table@[zigzag_spec(e)]) as int == (if extended {
                    be16(data, p + 2 * e)
                } else {
                    data[p + e] as int
                }),
    {
        let v: u16 = if extended {
            match s.read_u16() {
                Some(v) => v,
                None => {
                    return Err(Error::InvalidDQTMarker(DQTError::MissingNextByte));
                },
            }
        } else {
            match s.next() {
                Some(b) => b as u16,
                None => {
                    return Err(Error::InvalidDQTMarker(DQTError::MissingNextByte));
                },
            }
        };
        let z: usize = zigzag(i);
        table.set(z, v);
    }
    proof {
        assert forall|j: int| 0 <= j < 64 implies table@[j] == qtable_entries_spec(
            data,
            p,
            extended,
        )[j] by {
            assert(zigzag_spec(inv_zigzag_spec(j)) == j);
            assert(table@[zigzag_spec(inv_zigzag_spec(j))] as int == (if extended {
                be16(data, p + 2 * inv_zigzag_spec(j))
            } else {
                data[p + inv_zigzag_spec(j)] as int
            }));
        }
        assert(table@ =~= qtable_entries_spec(data, p, extended));
    }
    Ok(table)
}

/// The 64 entries of one quantization table as stored: natural position
/// `j` holds the transmitted entry whose zigzag position is `j`.
pub open spec fn qtable_entries_spec(data: Seq<u8>, q: int, extended: bool) -> Seq<u16> {
    Seq::new(
        64,
        |j: int|
            (if extended {
                be16(data, q + 2 * inv_zigzag_spec(j))
            } else {
                data[q + inv_zigzag_spec(j)] as int
            }) as u16,
    )
}

/// The quantization-table run: one identifier byte and 64 entries per
/// table, the destination of each mapped to its extended flag and stored
/// entries; a redefined destination keeps the last definition.
pub open spec fn dqt_tables_spec(
    data: Seq<u8>,
    q: int,
    remaining: int,
    tables: Map<int, (bool, Seq<u16>)>,
) -> (Result<(), Error>, int, Map<int, (bool, Seq<u16>)>)
    decreases data.len() - q,
{
    if remaining <= 0 {
        (Ok(()), q, tables)
    } else if q >= data.len() {
        (Err(Error::InvalidDQTMarker(DQTError::MissingNextByte)), data.len() as int, tables)
    } else {
        let id = data[q];
        let ext = (id >> 4) == 1;
        let d = (id & 0x0F) as int;
        if d > 3 {
            (Err(Error::InvalidDQTMarker(DQTError::InvalidTableDestination)), q + 1, tables)
        } else {
            let step: int = if ext {
                128
            } else {
                64
            };
            if q + 1 + step > data.len() {
                (Err(Error::InvalidDQTMarker(DQTError::MissingNextByte)), data.len() as int, tables)
            } else {
                dqt_tables_spec(
                    data,
                    q + 1 + step,
                    remaining - 1 - step,
                    tables.insert(d, (ext, qtable_entries_spec(data, q + 1, ext))),
                )
            }
        }
    }
}

/// The whole quantization-table segment: outcome, position after it, and
/// what each destination now holds.
pub open spec fn dqt_spec(data: Seq<u8>, p: int, h: JPEGHeader) -> (
    Result<DecodingOutcome, Error>,
    int,
    Map<int, (bool, Seq<u16>)>,
) {
    if p + 2 > data.len() {
        (
            Err(Error::InvalidDQTMarker(DQTError::MissingNextByte)),
            data.len() as int,
            Map::empty(),
        )
    } else {
        let (cr, q, m) = dqt_tables_spec(data, p + 2, be16(data, p) - 2, Map::empty());
        match cr {
            Err(e) => (Err(e), q, m),
            Ok(unit) => {
                if m == Map::<int, (bool, Seq<u16>)>::empty() && !h.some_qtable_set() {
                    (Err(Error::InvalidDQTMarker(DQTError::NoTableSet)), q, m)
                } else {
                    (Ok(DecodingOutcome::QTableSet), q, m)
                }
            },
        }
    }
}

/// Everything the quantization-table processor promises: the exact
/// outcome and end position, every written destination holding its
/// de-zigzagged entries, and every other slot untouched.
pub open spec fn dqt_post(
    data: Seq<u8>,
    p: int,
    h0: JPEGHeader,
    p1: int,
    h1: JPEGHeader,
    r: Result<DecodingOutcome, Error>,
) -> bool {
    let o = dqt_spec(data, p, h0);
    &&& r == o.0
    &&& p1 == o.1
    &&& h1 == (JPEGHeader { qtables: h1.qtables, ..h0 })
    &&& h1.qtables.len() == 4
    &&& forall|d: int|
        0 <= d < 4 ==> (if o.2.contains_key(d) {
            let t = #[trigger] h1.qtables[d];
            &&& t.is_set
            &&& t.is_extended_mode == o.2[d].0
            &&& t.table@ == o.2[d].1
            &&& t.kind == kind_of(d)
        } else {
            h1.qtables[d] == h0.qtables[d]
        })
}

/// Quantization-table definition: a run of tables, each one identifier
/// byte (precision nibble and destination nibble) and 64 entries, stored
/// de-zigzagged; at least one table must come out of the segment.
#[verifier::rlimit(60)]
#[verifier::spinoff_prover]
pub fn process_dqt(s: &mut ByteStream, h: &mut JPEGHeader) -> (r: Result<DecodingOutcome, Error>)
    requires
        old(s).wf(),
        old(h).wf(),
    ensures
        stream_advanced(*old(s), *final(s)),
        final(h).wf(),
        header_progress(*old(h), *final(h)),
        dqt_post(old(s).data@, old(s).pos as int, *old(h), final(s).pos as int, *final(h), r),
        r is Ok ==> r == Ok::<DecodingOutcome, Error>(DecodingOutcome::QTableSet) && final(h).some_qtable_set(),
        r is Err ==> (r == Err::<DecodingOutcome, Error>(
            Error::InvalidDQTMarker(DQTError::MissingNextByte),
        ) || r == Err::<DecodingOutcome, Error>(
            Error::InvalidDQTMarker(DQTError::InvalidTableDestination),
        ) || r == Err::<DecodingOutcome, Error>(Error::InvalidDQTMarker(DQTError::NoTableSet))),
{
    let error = Error::InvalidDQTMarker(DQTError::MissingNextByte);
    let stated: u16 = match Marker::marker_length(s, error) {
        Ok(l) => l,
        Err(e) => {
            return Err(e);
        },
    };
    let ghost data = old(s).data@;
    let ghost p0 = old(s).pos as int;
    let ghost payload0 = be16(data, p0) - 2;
    let ghost written: Map<int, (bool, Seq<u16>)> = Map::empty();
    let mut length: i32 = stated as i32 - 2;
    let ghost mut written = written;
    #[verifier::loop_isolation(false)]
    while length > 0
        invariant
            s.wf(),
            s.data == old(s).data,
            old(s).pos <= s.pos,
            h.wf(),
            header_progress(*old(h), *h),
            *h == (JPEGHeader { qtables: h.qtables, ..*old(h) }),
            -129 <= length <= 0xFFFF,
            dqt_tables_spec(data, p0 + 2, payload0, Map::empty()) == dqt_tables_spec(
                data,
                s.pos as int,
                length as int,
                written,
            ),
            forall|d: int| #[trigger] written.contains_key(d) ==> 0 <= d < 4,
            forall|d: int|
                0 <= d < 4 ==> (if written.contains_key(d) {
                    let t = #[trigger] h.qtables[d];
                    &&& t.is_set
                    &&& t.is_extended_mode == written[d].0
                    &&& t.table@ == written[d].1
                    &&& t.kind == kind_of(d)
                } else {
                    h.qtables[d] == old(h).qtables[d]
                }),
        decreases s.data.len() - s.pos,
    {
        let id: u8 = match s.next() {
            Some(b) => b,
            None => {
                return Err(error);
            },
        };
        length = length - 1;
        let is_extended: bool = (id >> 4) == 1;
        let kind: u8 = id & 0x0F;
        proof {
            assert(id & 0x0F <= 15) by (bit_vector);
        }
        let qtable_type: QTableType = if kind == 0 {
            QTableType::Luminance
        } else if kind == 1 {
            QTableType::Chrominance
        } else if kind == 2 || kind == 3 {
            QTableType::Other
        } else {
            return Err(Error::InvalidDQTMarker(DQTError::InvalidTableDestination));
        };
        let entries: Vec<u16> = match read_qtable_data(s, is_extended) {
            Ok(t) => t,
            Err(e) => {
                return Err(e);
            },
        };
        let qt = QTable {
            is_set: true,
            is_extended_mode: is_extended,
            kind: qtable_type,
            table: entries,
        };
        h.qtables.set(kind as usize, qt);
        proof {
            written = written.insert(kind as int, (is_extended, entries@));
        }
        length = length - (if is_extended {
            128
        } else {
            64
        });
    }
    if !h.has_qtable() {
        proof {
            // no slot is set at all, so this segment wrote none and none
            // was set before it
            assert forall|d: int| !written.contains_key(d) by {
                if written.contains_key(d) {
                    assert(h.qtables[d].is_set);
                    crate::header::lemma_qtable_witness(*h, d);
                }
            }
            assert(written =~= Map::<int, (bool, Seq<u16>)>::empty());
            assert(forall|d: int| 0 <= d < 4 ==> h.qtables[d] == old(h).qtables[d]);
            if old(h).some_qtable_set() {
                let i0 = choose|i: int| 0 <= i < 4 && (#[trigger] old(h).qtables[i]).is_set;
                crate::header::lemma_qtable_witness(*h, i0);
                assert(false);
            }
        }
        return Err(Error::InvalidDQTMarker(DQTError::NoTableSet));
    }
    proof {
        // the exec check passed, so either this segment wrote a table or
        // one was already set before it
        if written == Map::<int, (bool, Seq<u16>)>::empty() {
            assert(forall|d: int| 0 <= d < 4 ==> h.qtables[d] == old(h).qtables[d]);
            let i0 = choose|i: int| 0 <= i < 4 && (#[trigger] h.qtables[i]).is_set;
            crate::header::lemma_qtable_witness(*old(h), i0);
        }
    }
    Ok(DecodingOutcome::QTableSet)
}

/// The running total of the first `k` of the sixteen code-length counts
/// that start at `p`.
pub open spec fn dht_counts_total(data: Seq<u8>, p: int, k: int) -> int
    decreases k,
{
    if k <= 0 {
        0
    } else {
        dht_counts_total(data, p, k - 1) + data[p + k - 1]
    }
}

/// Partial count totals never pass the full total.
proof fn lemma_dht_counts_total_mono(data: Seq<u8>, p: int, k: int, n: int)
    requires
        0 <= k <= n,
    ensures
        dht_counts_total(data, p, k) <= dht_counts_total(data, p, n),
    decreases n - k,
{
    if k < n {
        lemma_dht_counts_total_mono(data, p, k, n - 1);
    }
}

/// The cumulative-offset table built from the sixteen counts at `c`.
pub open spec fn dht_offsets_seq(data: Seq<u8>, c: int) -> Seq<u8> {
    Seq::new(17, |k: int| dht_counts_total(data, c, k) as u8)
}

/// The fixed 162-entry symbol table: the `total` symbols at `sstart`,
/// padded with zeros.
pub open spec fn dht_symbols_seq(data: Seq<u8>, sstart: int, total: int) -> Seq<u8> {
    Seq::new(
        162,
        |t: int|
            if t < total {
                data[sstart + t]
            } else {
                0u8
            },
    )
}

/// The Huffman-table run: one info byte (bank and destination nibbles),
/// sixteen counts and the symbols per table; each written bank slot mapped
/// to its cumulative offsets and padded symbols.  Yields the outcome, the
/// position after the run, the payload still unaccounted for, and the
/// writes.
pub open spec fn dht_tables_spec(
    data: Seq<u8>,
    q: int,
    remaining: int,
    tables: Map<(bool, int), (Seq<u8>, Seq<u8>)>,
) -> (Result<(), Error>, int, int, Map<(bool, int), (Seq<u8>, Seq<u8>)>)
    decreases data.len() - q,
    via dht_tables_spec_decreases
{
    if remaining <= 0 {
        (Ok(()), q, remaining, tables)
    } else if q >= data.len() {
        (Err(Error::InvalidDHTMarker(DHTError::MissingNextByte)), data.len() as int, remaining, tables)
    } else {
        let info = data[q];
        let id = (info & 0x0F) as int;
        let is_ac = (info >> 4) == 1;
        if id > 3 {
            (Err(Error::InvalidDHTMarker(DHTError::InvalidTableId)), q + 1, remaining, tables)
        } else if q + 17 > data.len() {
            (
                Err(Error::InvalidDHTMarker(DHTError::MissingNextByte)),
                data.len() as int,
                remaining,
                tables,
            )
        } else if dht_counts_total(data, q + 1, 16) > 162 {
            (
                Err(Error::InvalidDHTMarker(DHTError::InvalidSymbolsLength)),
                q + 17,
                remaining,
                tables,
            )
        } else {
            let total = dht_counts_total(data, q + 1, 16);
            if q + 17 + total > data.len() {
                (
                    Err(Error::InvalidDHTMarker(DHTError::MissingNextByte)),
                    data.len() as int,
                    remaining,
                    tables,
                )
            } else {
                dht_tables_spec(
                    data,
                    q + 17 + total,
                    remaining - 17 - total,
                    tables.insert(
                        (is_ac, id),
                        (dht_offsets_seq(data, q + 1), dht_symbols_seq(data, q + 17, total)),
                    ),
                )
            }
        }
    }
}

#[via_fn]
proof fn dht_tables_spec_decreases(
    data: Seq<u8>,
    q: int,
    remaining: int,
    tables: Map<(bool, int), (Seq<u8>, Seq<u8>)>,
) {
    // a symbol total is a sum of byte counts, so it is never negative
    lemma_dht_counts_total_mono(data, q + 1, 0, 16);
}

/// The whole Huffman-table segment: outcome, position after it, and what
/// each bank slot now holds.
pub open spec fn dht_spec(data: Seq<u8>, p: int, h: JPEGHeader) -> (
    Result<DecodingOutcome, Error>,
    int,
    Map<(bool, int), (Seq<u8>, Seq<u8>)>,
) {
    if p + 2 > data.len() {
        (
            Err(Error::InvalidDHTMarker(DHTError::MissingNextByte)),
            data.len() as int,
            Map::empty(),
        )
    } else {
        let (cr, q, rem, m) = dht_tables_spec(data, p + 2, be16(data, p) - 2, Map::empty());
        match cr {
            Err(e) => (Err(e), q, m),
            Ok(unit) => {
                if m == Map::<(bool, int), (Seq<u8>, Seq<u8>)>::empty() && !h.some_htable_set() {
                    (Err(Error::InvalidDHTMarker(DHTError::NoTableSet)), q, m)
                } else if rem != 0 {
                    (Err(Error::InvalidDHTMarker(DHTError::InvalidMarkerLength)), q, m)
                } else {
                    (Ok(DecodingOutcome::HuffmanTable), q, m)
                }
            },
        }
    }
}

/// Reads the sixteen code-length counts of one Huffman table and turns
/// them into cumulative offsets, refusing more than 162 symbols in all.
pub fn read_dht_offsets(s: &mut ByteStream) -> (r: Result<(Vec<u8>, u16), Error>)
    requires
        old(s).wf(),
    ensures
        stream_advanced(*old(s), *final(s)),
        ({
            let data = old(s).data@;
            let p = old(s).pos as int;
            if p + 16 > data.len() {
                r == Err::<(Vec<u8>, u16), Error>(
                    Error::InvalidDHTMarker(DHTError::MissingNextByte),
                ) && final(s).pos == data.len()
            } else if dht_counts_total(data, p, 16) > 162 {
                r == Err::<(Vec<u8>, u16), Error>(
                    Error::InvalidDHTMarker(DHTError::InvalidSymbolsLength),
                ) && final(s).pos == p + 16
            } else {
                &&& r is Ok
                &&& final(s).pos == p + 16
                &&& ({
                    let (off, total) = r->Ok_0;
                    &&& off.len() == 17
                    &&& off@[0] == 0
                    &&& forall|k: int|
                        1 <= k <= 16 ==> (#[trigger] off@[k]) as int == dht_counts_total(data, p, k)
                    &&& forall|a: int, b: int| 0 <= a <= b <= 16 ==> off@[a] <= off@[b]
                    &&& off@ == dht_offsets_seq(data, p)
                    &&& total as int == dht_counts_total(data, p, 16)
                    &&& total <= 162
                })
            }
        }),
{
    let ghost data = old(s).data@;
    let ghost p = old(s).pos as int;
    let mut total: u16 = 0;
    let mut counts: Vec<u8> = Vec::new();
    #[verifier::loop_isolation(false)]
    for k in 0..16
        invariant
            s.wf(),
            s.data == old(s).data,
            s.data@ == data,
            s.pos == p + k,
            counts.len() == k,
            forall|j: int| 0 <= j < k ==> counts@[j] == data[p + j],
            total as int == dht_counts_total(data, p, k as int),
            total <= k * 255,
    {
        let b: u8 = match s.next() {
            Some(b) => b,
            None => {
                return Err(Error::InvalidDHTMarker(DHTError::MissingNextByte));
            },
        };
        counts.push(b);
        total = total + b as u16;
    }
    if total > 0xA2 {
        return Err(Error::InvalidDHTMarker(DHTError::InvalidSymbolsLength));
    }
    let mut offsets: Vec<u8> = Vec::new();
    offsets.push(0u8);
    #[verifier::loop_isolation(false)]
    for k in 0..16
        invariant
            offsets.len() == k + 1,
            offsets@[0] == 0,
            forall|j: int|
                1 <= j <= k ==> (#[trigger] offsets@[j]) as int == dht_counts_total(data, p, j),
            forall|a: int, b: int| 0 <= a <= b <= k ==> offsets@[a] <= offsets@[b],
            counts.len() == 16,
            forall|j: int| 0 <= j < 16 ==> counts@[j] == data[p + j],
            total as int == dht_counts_total(data, p, 16),
            total <= 162,
    {
        let prev: u8 = offsets[k];
        proof {
            lemma_dht_counts_total_mono(data, p, k as int + 1, 16);
            assert(dht_counts_total(data, p, 0) == 0);
            assert(prev as int == dht_counts_total(data, p, k as int));
            assert(dht_counts_total(data, p, k as int + 1) == dht_counts_total(data, p, k as int)
                + data[p + k]);
        }
        let next: u8 = prev + counts[k];
        offsets.push(next);
        proof {
            assert(offsets@[k as int + 1] == next);
        }
    }
    proof {
        assert(offsets@ =~= dht_offsets_seq(data, p));
    }
    Ok((offsets, total))
}

/// Reads `total` Huffman symbols into a fixed 162-entry table.
pub fn read_dht_symbols(s: &mut ByteStream, total: u16) -> (r: Result<Vec<u8>, Error>)
    requires
        old(s).wf(),
        total <= 162,
    ensures
        stream_advanced(*old(s), *final(s)),
        ({
            let data = old(s).data@;
            let p = old(s).pos as int;
            if p + total <= data.len() {
                &&& r is Ok
                &&& r->Ok_0.len() == 162
                &&& forall|t: int| 0 <= t < total ==> (#[trigger] r->Ok_0@[t]) == data[p + t]
                &&& r->Ok_0@ == dht_symbols_seq(data, p, total as int)
                &&& final(s).pos == p + total
            } else {
                r == Err::<Vec<u8>, Error>(Error::InvalidDHTMarker(DHTError::MissingNextByte))
                    && final(s).pos == data.len()
            }
        }),
{
    let ghost data = old(s).data@;
    let ghost p = old(s).pos as int;
    let mut symbols: Vec<u8> = zeros_u8(162);
    #[verifier::loop_isolation(false)]
    for t in 0..total
        invariant
            s.wf(),
            s.data == old(s).data,
            s.data@ == data,
            s.pos == p + t,
            symbols.len() == 162,
            forall|j: int| 0 <= j < t ==> (#[trigger] symbols@[j]) == data[p + j],
            forall|j: int| t <= j < 162 ==> (#[trigger] symbols@[j]) == 0u8,
            total <= 162,
    {
        let b: u8 = match s.next() {
            Some(b) => b,
            None => {
                return Err(Error::InvalidDHTMarker(DHTError::MissingNextByte));
            },
        };
        symbols.set(t as usize, b);
    }
    proof {
        assert(symbols@ =~= dht_symbols_seq(data, p, total as int));
    }
    Ok(symbols)
}

/// Everything the Huffman-table processor promises: the exact outcome and
/// end position, every written bank slot holding its cumulative offsets,
/// padded symbols and cleared code words, and every other slot untouched.
pub open spec fn dht_post(
    data: Seq<u8>,
    p: int,
    h0: JPEGHeader,
    p1: int,
    h1: JPEGHeader,
    r: Result<DecodingOutcome, Error>,
) -> bool {
    let o = dht_spec(data, p, h0);
    &&& r == o.0
    &&& p1 == o.1
    &&& h1 == (JPEGHeader {
        huffman_tables_dc: h1.huffman_tables_dc,
        huffman_tables_ac: h1.huffman_tables_ac,
        ..h0
    })
    &&& h1.huffman_tables_dc.len() == 4
    &&& h1.huffman_tables_ac.len() == 4
    &&& forall|d: int|
        0 <= d < 4 ==> (if o.2.contains_key((false, d)) {
            let t = #[trigger] h1.huffman_tables_dc[d];
            &&& t.is_set
            &&& t.offsets@ == o.2[(false, d)].0
            &&& t.symbols@ == o.2[(false, d)].1
            &&& t.codes@ == Seq::new(162, |i: int| 0u32)
        } else {
            h1.huffman_tables_dc[d] == h0.huffman_tables_dc[d]
        })
    &&& forall|d: int|
        0 <= d < 4 ==> (if o.2.contains_key((true, d)) {
            let t = #[trigger] h1.huffman_tables_ac[d];
            &&& t.is_set
            &&& t.offsets@ == o.2[(true, d)].0
            &&& t.symbols@ == o.2[(true, d)].1
            &&& t.codes@ == Seq::new(162, |i: int| 0u32)
        } else {
            h1.huffman_tables_ac[d] == h0.huffman_tables_ac[d]
        })
}

/// Huffman-table definition: a run of tables, each one info byte (bank
/// nibble and destination nibble), sixteen code-length counts and the
/// symbols; the segment must set at least one table and use its stated
/// length exactly.
pub fn process_dht(s: &mut ByteStream, h: &mut JPEGHeader) -> (r: Result<DecodingOutcome, Error>)
    requires
        old(s).wf(),
        old(h).wf(),
    ensures
        stream_advanced(*old(s), *final(s)),
        final(h).wf(),
        header_progress(*old(h), *final(h)),
        dht_post(old(s).data@, old(s).pos as int, *old(h), final(s).pos as int, *final(h), r),
        r is Ok ==> r == Ok::<DecodingOutcome, Error>(DecodingOutcome::HuffmanTable) && final(h).some_htable_set(),
        r is Err ==> (r->Err_0 matches Error::InvalidDHTMarker(_)),
{
    let error = Error::InvalidDHTMarker(DHTError::MissingNextByte);
    let stated: u16 = match Marker::marker_length(s, error) {
        Ok(l) => l,
        Err(e) => {
            return Err(e);
        },
    };
    let ghost data = old(s).data@;
    let ghost p0 = old(s).pos as int;
    let ghost payload0 = be16(data, p0) - 2;
    let ghost mut written: Map<(bool, int), (Seq<u8>, Seq<u8>)> = Map::empty();
    let mut length: i32 = stated as i32 - 2;
    #[verifier::loop_isolation(false)]
    while length > 0
        invariant
            s.wf(),
            s.data == old(s).data,
            old(s).pos <= s.pos,
            h.wf(),
            header_progress(*old(h), *h),
            *h == (JPEGHeader {
                huffman_tables_dc: h.huffman_tables_dc,
                huffman_tables_ac: h.huffman_tables_ac,
                ..*old(h)
            }),
            -200 <= length <= 0xFFFF,
            dht_tables_spec(data, p0 + 2, payload0, Map::empty()) == dht_tables_spec(
                data,
                s.pos as int,
                length as int,
                written,
            ),
            forall|k: (bool, int)| #[trigger] written.contains_key(k) ==> 0 <= k.1 < 4,
            forall|d: int|
                0 <= d < 4 ==> (if written.contains_key((false, d)) {
                    let t = #[trigger] h.huffman_tables_dc[d];
                    &&& t.is_set
                    &&& t.offsets@ == written[(false, d)].0
                    &&& t.symbols@ == written[(false, d)].1
                    &&& t.codes@ == Seq::new(162, |i: int| 0u32)
                } else {
                    h.huffman_tables_dc[d] == old(h).huffman_tables_dc[d]
                }),
            forall|d: int|
                0 <= d < 4 ==> (if written.contains_key((true, d)) {
                    let t = #[trigger] h.huffman_tables_ac[d];
                    &&& t.is_set
                    &&& t.offsets@ == written[(true, d)].0
                    &&& t.symbols@ == written[(true, d)].1
                    &&& t.codes@ == Seq::new(162, |i: int| 0u32)
                } else {
                    h.huffman_tables_ac[d] == old(h).huffman_tables_ac[d]
                }),
        decreases s.data.len() - s.pos,
    {
        let info: u8 = match s.next() {
            Some(b) => b,
            None => {
                return Err(error);
            },
        };
        let table_id: u8 = info & 0x0F;
        let is_ac: bool = (info >> 4) == 1;
        proof {
            assert(info & 0x0F <= 15) by (bit_vector);
        }
        if table_id > 0x03 {
            return Err(Error::InvalidDHTMarker(DHTError::InvalidTableId));
        }
        let (offsets, total): (Vec<u8>, u16) = match read_dht_offsets(s) {
            Ok(pair) => pair,
            Err(e) => {
                return Err(e);
            },
        };
        let symbols: Vec<u8> = match read_dht_symbols(s, total) {
            Ok(v) => v,
            Err(e) => {
                return Err(e);
            },
        };
        let codes: Vec<u32> = zeros_u32(162);
        proof {
            assert(codes@ =~= Seq::new(162, |i: int| 0u32));
        }
        let table = HuffmanTable { offsets, symbols, codes, is_set: true };
        if is_ac {
            h.huffman_tables_ac.set(table_id as usize, table);
        } else {
            h.huffman_tables_dc.set(table_id as usize, table);
        }
        proof {
            written = written.insert((is_ac, table_id as int), (table.offsets@, table.symbols@));
        }
        length = length - 17 - total as i32;
    }
    if !h.has_htable() {
        proof {
            // no slot is set in either bank, so this segment wrote none
            // and none was set before it
            assert forall|k: (bool, int)| !written.contains_key(k) by {
                if written.contains_key(k) {
                    if k.0 {
                        assert(h.huffman_tables_ac[k.1].is_set);
                    } else {
                        assert(h.huffman_tables_dc[k.1].is_set);
                    }
                    crate::header::lemma_htable_witness(*h, k.1);
                }
            }
            assert(written =~= Map::<(bool, int), (Seq<u8>, Seq<u8>)>::empty());
            assert(forall|d: int|
                0 <= d < 4 ==> h.huffman_tables_dc[d] == old(h).huffman_tables_dc[d]
                    && h.huffman_tables_ac[d] == old(h).huffman_tables_ac[d]);
            if old(h).some_htable_set() {
                let i0 = choose|i: int|
                    0 <= i < 4 && ((#[trigger] old(h).huffman_tables_dc[i]).is_set
                        || old(h).huffman_tables_ac[i].is_set);
                crate::header::lemma_htable_witness(*h, i0);
                assert(false);
            }
        }
        return Err(Error::InvalidDHTMarker(DHTError::NoTableSet));
    }
    proof {
        if written == Map::<(bool, int), (Seq<u8>, Seq<u8>)>::empty() {
            assert(forall|d: int|
                0 <= d < 4 ==> h.huffman_tables_dc[d] == old(h).huffman_tables_dc[d]
                    && h.huffman_tables_ac[d] == old(h).huffman_tables_ac[d]);
            let i0 = choose|i: int|
                0 <= i < 4 && ((#[trigger] h.huffman_tables_dc[i]).is_set
                    || h.huffman_tables_ac[i].is_set);
            crate::header::lemma_htable_witness(*old(h), i0);
        }
    }
    if length != 0 {
        return Err(Error::InvalidDHTMarker(DHTError::InvalidMarkerLength));
    }
    Ok(DecodingOutcome::HuffmanTable)
}

/// The frame header's component loop, one component per step: the id byte
/// (rebasing by one from the first zero id on), the sampling-factor byte,
/// and the quantization selector.  Yields the outcome, the position after
/// the last byte consumed, the component states, and the zero-based flag.
pub open spec fn sof0_components_spec(
    data: Seq<u8>,
    q: int,
    n: int,
    comps: Seq<ColorComponent>,
    zb: bool,
) -> (Result<(), Error>, int, Seq<ColorComponent>, bool)
    decreases n,
{
    if n <= 0 {
        (Ok(()), q, comps, zb)
    } else if q >= data.len() {
        (Err(Error::InvalidSOF0Marker(SOF0MarkerError::MissingNextByte)), data.len() as int, comps, zb)
    } else {
        let id0 = data[q];
        let zb2 = zb || id0 == 0;
        let id: int = if zb2 {
            id0 + 1
        } else {
            id0 as int
        };
        if id == 0 || id > 3 {
            (Err(Error::InvalidSOF0Marker(SOF0MarkerError::InvalidComponentID)), q + 1, comps, zb2)
        } else if comps[id - 1].is_used_sof {
            (Err(Error::InvalidSOF0Marker(SOF0MarkerError::ComponentAlreadySet)), q + 1, comps, zb2)
        } else if q + 2 > data.len() {
            (
                Err(Error::InvalidSOF0Marker(SOF0MarkerError::MissingNextByte)),
                data.len() as int,
                comps,
                zb2,
            )
        } else if q + 3 > data.len() {
            (
                Err(Error::InvalidSOF0Marker(SOF0MarkerError::MissingNextByte)),
                data.len() as int,
                comps,
                zb2,
            )
        } else {
            let factor = data[q + 1];
            let qt = data[q + 2];
            if qt > 3 {
                (
                    Err(Error::InvalidSOF0Marker(SOF0MarkerError::UnsupportedComponentQTable)),
                    q + 3,
                    comps,
                    zb2,
                )
            } else {
                let c = ColorComponent {
                    id: id as u8,
                    hfactor: factor >> 4,
                    vfactor: factor & 0x0F,
                    qtable: qt,
                    huffman_table_ac_id: comps[id - 1].huffman_table_ac_id,
                    huffman_table_dc_id: comps[id - 1].huffman_table_dc_id,
                    is_used_sof: true,
                    is_used_sos: comps[id - 1].is_used_sos,
                };
                sof0_components_spec(data, q + 3, n - 1, comps.update(id - 1, c), zb2)
            }
        }
    }
}

/// The whole baseline frame-header segment: outcome, position after it,
/// the component states, the zero-based flag, the frame-seen flag and the
/// dimensions, exactly as the processor leaves them.
pub open spec fn sof0_spec(data: Seq<u8>, p: int, h: JPEGHeader) -> (
    Result<DecodingOutcome, Error>,
    int,
    Seq<ColorComponent>,
    bool,
    bool,
    u16,
    u16,
) {
    if h.is_sof_set {
        (Err(Error::MultipleSOF), p, h.components@, h.zero_based_component_id, true, h.width, h.height)
    } else if p + 2 > data.len() {
        (
            Err(Error::InvalidSOF0Marker(SOF0MarkerError::MissingNextByte)),
            data.len() as int,
            h.components@,
            h.zero_based_component_id,
            false,
            h.width,
            h.height,
        )
    } else if p + 3 > data.len() {
        (
            Err(Error::InvalidSOF0Marker(SOF0MarkerError::MissingNextByte)),
            data.len() as int,
            h.components@,
            h.zero_based_component_id,
            false,
            h.width,
            h.height,
        )
    } else if data[p + 2] != 8 {
        (
            Err(Error::InvalidSOF0Marker(SOF0MarkerError::InvalidPrecision)),
            p + 3,
            h.components@,
            h.zero_based_component_id,
            false,
            h.width,
            h.height,
        )
    } else if p + 7 > data.len() {
        (
            Err(Error::InvalidSOF0Marker(SOF0MarkerError::MissingNextByte)),
            data.len() as int,
            h.components@,
            h.zero_based_component_id,
            false,
            h.width,
            h.height,
        )
    } else {
        let hh = be16(data, p + 3);
        let ww = be16(data, p + 5);
        if ww == 0 || hh == 0 {
            (
                Err(Error::InvalidSOF0Marker(SOF0MarkerError::ZeroDimensions)),
                p + 7,
                h.components@,
                h.zero_based_component_id,
                false,
                h.width,
                h.height,
            )
        } else if p + 8 > data.len() {
            (
                Err(Error::InvalidSOF0Marker(SOF0MarkerError::MissingNextByte)),
                data.len() as int,
                h.components@,
                h.zero_based_component_id,
                false,
                h.width,
                h.height,
            )
        } else if data[p + 7] == 0 || data[p + 7] == 2 {
            (
                Err(Error::InvalidSOF0Marker(SOF0MarkerError::InvalidComponentNumber)),
                p + 8,
                h.components@,
                h.zero_based_component_id,
                false,
                h.width,
                h.height,
            )
        } else {
            let nf: int = if data[p + 7] > 4 {
                4
            } else {
                data[p + 7] as int
            };
            let (cr, cpos, comps2, zb2) = sof0_components_spec(
                data,
                p + 8,
                nf,
                h.components@,
                h.zero_based_component_id,
            );
            match cr {
                Err(e) => (Err(e), cpos, comps2, zb2, false, ww as u16, hh as u16),
                Ok(unit) => {
                    if be16(data, p) - 8 - 3 * nf != 0 {
                        (
                            Err(Error::InvalidSOF0Marker(SOF0MarkerError::InvalidMarkerLength)),
                            cpos,
                            comps2,
                            zb2,
                            true,
                            ww as u16,
                            hh as u16,
                        )
                    } else if !any_used_sof(comps2) {
                        (
                            Err(Error::InvalidSOF0Marker(SOF0MarkerError::NoComponentSet)),
                            cpos,
                            comps2,
                            zb2,
                            true,
                            ww as u16,
                            hh as u16,
                        )
                    } else {
                        (Ok(DecodingOutcome::StartOfFrame), cpos, comps2, zb2, true, ww as u16, hh as u16)
                    }
                },
            }
        }
    }
}

/// Everything the frame-header processor promises: the exact outcome, end
/// position, component states, zero-based flag, frame-seen flag and
/// dimensions.
pub open spec fn sof0_post(
    data: Seq<u8>,
    p: int,
    h0: JPEGHeader,
    p1: int,
    h1: JPEGHeader,
    r: Result<DecodingOutcome, Error>,
) -> bool {
    let o = sof0_spec(data, p, h0);
    &&& r == o.0
    &&& p1 == o.1
    &&& h1.components@ == o.2
    &&& h1.zero_based_component_id == o.3
    &&& h1.is_sof_set == o.4
    &&& h1.width == o.5
    &&& h1.height == o.6
    &&& h1 == (JPEGHeader {
        components: h1.components,
        zero_based_component_id: o.3,
        is_sof_set: o.4,
        width: o.5,
        height: o.6,
        ..h0
    })
}

/// Baseline frame header: 8-bit precision, nonzero dimensions, and one to
/// three components with their sampling factors and quantization table
/// selectors; a second frame header is refused.
pub fn process_sof0(s: &mut ByteStream, h: &mut JPEGHeader) -> (r: Result<DecodingOutcome, Error>)
    requires
        old(s).wf(),
        old(h).wf(),
    ensures
        stream_advanced(*old(s), *final(s)),
        final(h).wf(),
        header_progress(*old(h), *final(h)),
        sof0_post(old(s).data@, old(s).pos as int, *old(h), final(s).pos as int, *final(h), r),
        old(h).is_sof_set ==> r == Err::<DecodingOutcome, Error>(Error::MultipleSOF) && *final(h)
            == *old(h) && *final(s) == *old(s),
        r is Ok ==> {
            &&& r == Ok::<DecodingOutcome, Error>(DecodingOutcome::StartOfFrame)
            // a frame header is accepted only once
            &&& !old(h).is_sof_set
            &&& final(h).is_sof_set
            &&& final(h).width >= 1
            &&& final(h).height >= 1
            &&& final(h).height as int == be16(old(s).data@, old(s).pos as int + 3)
            &&& final(h).width as int == be16(old(s).data@, old(s).pos as int + 5)
            &&& final(h).some_component_used()
        },
        r is Err ==> (r == Err::<DecodingOutcome, Error>(Error::MultipleSOF) || (
        r->Err_0 matches Error::InvalidSOF0Marker(_))),
{
    if h.is_sof_set {
        return Err(Error::MultipleSOF);
    }
    let error = Error::InvalidSOF0Marker(SOF0MarkerError::MissingNextByte);
    let stated: u16 = match Marker::marker_length(s, error) {
        Ok(l) => l,
        Err(e) => {
            return Err(e);
        },
    };
    let precision: u8 = match s.next() {
        Some(b) => b,
        None => {
            return Err(error);
        },
    };
    if precision != 0x08 {
        return Err(Error::InvalidSOF0Marker(SOF0MarkerError::InvalidPrecision));
    }
    let height: u16 = match s.read_u16() {
        Some(v) => v,
        None => {
            return Err(error);
        },
    };
    let width: u16 = match s.read_u16() {
        Some(v) => v,
        None => {
            return Err(error);
        },
    };
    if width == 0 || height == 0 {
        return Err(Error::InvalidSOF0Marker(SOF0MarkerError::ZeroDimensions));
    }
    let component_number: u8 = match s.next() {
        Some(b) => b,
        None => {
            return Err(error);
        },
    };
    if component_number == 0x00 || component_number == 0x02 {
        return Err(Error::InvalidSOF0Marker(SOF0MarkerError::InvalidComponentNumber));
    }
    let component_number: u8 = if component_number > 4 {
        4
    } else {
        component_number
    };
    h.width = width;
    h.height = height;
    let ghost data = old(s).data@;
    let ghost p0 = old(s).pos as int;
    let ghost comps0 = old(h).components@;
    let ghost zb0 = old(h).zero_based_component_id;
    let ghost nf = component_number as int;
    let mut n: u8 = 0;
    #[verifier::loop_isolation(false)]
    while n < component_number
        invariant
            s.wf(),
            s.data == old(s).data,
            old(s).pos <= s.pos,
            h.wf(),
            header_progress(*old(h), *h),
            h.width == width >= 1,
            h.height == height >= 1,
            n >= 1 ==> h.some_component_used(),
            0 <= n <= component_number,
            *h == (JPEGHeader {
                width: h.width,
                height: h.height,
                components: h.components,
                is_sof_set: old(h).is_sof_set,
                zero_based_component_id: h.zero_based_component_id,
                ..*old(h)
            }),
            sof0_components_spec(data, p0 + 8, nf, comps0, zb0) == sof0_components_spec(
                data,
                s.pos as int,
                nf - n,
                h.components@,
                h.zero_based_component_id,
            ),
        decreases component_number - n,
    {
        let id0: u8 = match s.next() {
            Some(b) => b,
            None => {
                return Err(error);
            },
        };
        if id0 == 0x00 {
            h.zero_based_component_id = true;
        }
        let id: u16 = if h.zero_based_component_id {
            id0 as u16 + 1
        } else {
            id0 as u16
        };
        if id == 0x00 {
            return Err(Error::InvalidSOF0Marker(SOF0MarkerError::InvalidComponentID));
        }
        if id > 0x03 {
            // only three baseline components fit; larger ids are refused
            return Err(Error::InvalidSOF0Marker(SOF0MarkerError::InvalidComponentID));
        }
        let idx: usize = (id - 1) as usize;
        let mut component: ColorComponent = h.components[idx];
        if component.is_used_sof {
            return Err(Error::InvalidSOF0Marker(SOF0MarkerError::ComponentAlreadySet));
        }
        let factor: u8 = match s.next() {
            Some(b) => b,
            None => {
                return Err(error);
            },
        };
        let hfactor: u8 = factor >> 4;
        let vfactor: u8 = factor & 0x0F;
        let qtable: u8 = match s.next() {
            Some(b) => b,
            None => {
                return Err(error);
            },
        };
        if qtable > 0x03 {
            return Err(Error::InvalidSOF0Marker(SOF0MarkerError::UnsupportedComponentQTable));
        }
        component.id = id as u8;
        component.hfactor = hfactor;
        component.vfactor = vfactor;
        component.qtable = qtable;
        component.is_used_sof = true;
        h.components.set(idx, component);
        n = n + 1;
        proof {
            assert(h.components[idx as int].is_used_sof);
        }
    }
    h.is_sof_set = true;
    if stated as i32 - 8 - 3 * (component_number as i32) != 0 {
        return Err(Error::InvalidSOF0Marker(SOF0MarkerError::InvalidMarkerLength));
    }
    if !h.has_component_in_sof() {
        return Err(Error::InvalidSOF0Marker(SOF0MarkerError::NoComponentSet));
    }
    Ok(DecodingOutcome::StartOfFrame)
}

/// The scan header's component loop, one selected component per step: the
/// id byte (rebased in zero-based mode) and the DC/AC selector byte.
pub open spec fn sos_components_spec(
    data: Seq<u8>,
    q: int,
    n: int,
    comps: Seq<ColorComponent>,
    zb: bool,
) -> (Result<(), Error>, int, Seq<ColorComponent>)
    decreases n,
{
    if n <= 0 {
        (Ok(()), q, comps)
    } else if q >= data.len() {
        (Err(Error::InvalidSOSMarker(SOSError::MissingNextByte)), data.len() as int, comps)
    } else {
        let id0 = data[q];
        let id: int = if zb {
            id0 + 1
        } else {
            id0 as int
        };
        if id == 0 || id > 3 {
            (Err(Error::InvalidSOSMarker(SOSError::InvalidComponentID)), q + 1, comps)
        } else if comps[id - 1].is_used_sos {
            (Err(Error::InvalidSOSMarker(SOSError::DuplicateComponentID)), q + 1, comps)
        } else if q + 2 > data.len() {
            (Err(Error::InvalidSOSMarker(SOSError::MissingNextByte)), data.len() as int, comps)
        } else {
            let ids = data[q + 1];
            if ids >> 4 > 3 || ids & 0x0F > 3 {
                (Err(Error::InvalidSOSMarker(SOSError::InvalidHuffmanTableID)), q + 2, comps)
            } else {
                let c = ColorComponent {
                    is_used_sos: true,
                    huffman_table_dc_id: ids >> 4,
                    huffman_table_ac_id: ids & 0x0F,
                    ..comps[id - 1]
                };
                sos_components_spec(data, q + 2, n - 1, comps.update(id - 1, c), zb)
            }
        }
    }
}

/// The whole start-of-scan segment: outcome, position after it, the
/// component states and the recorded scan parameters, exactly as the
/// processor leaves them.
pub open spec fn sos_spec(data: Seq<u8>, p: int, h: JPEGHeader) -> (
    Result<DecodingOutcome, Error>,
    int,
    Seq<ColorComponent>,
    u8,
    u8,
    u8,
    u8,
) {
    let c0 = h.components@;
    let ss0 = h.start_of_selection;
    let se0 = h.end_of_selection;
    let hi0 = h.successive_approximation_high;
    let lo0 = h.successive_approximation_low;
    if !h.some_component_used() {
        (Err(Error::InvalidSOSMarker(SOSError::InvalidOrder)), p, c0, ss0, se0, hi0, lo0)
    } else if p + 2 > data.len() {
        (
            Err(Error::InvalidSOSMarker(SOSError::MissingNextByte)),
            data.len() as int,
            c0,
            ss0,
            se0,
            hi0,
            lo0,
        )
    } else if p + 3 > data.len() {
        (
            Err(Error::InvalidSOSMarker(SOSError::MissingNextByte)),
            data.len() as int,
            c0,
            ss0,
            se0,
            hi0,
            lo0,
        )
    } else if data[p + 2] == 0 || data[p + 2] > 3 {
        (Err(Error::InvalidSOSMarker(SOSError::InvalidComponentNumber)), p + 3, c0, ss0, se0, hi0, lo0)
    } else {
        let ns = data[p + 2] as int;
        let (cr, q, comps2) = sos_components_spec(data, p + 3, ns, c0, h.zero_based_component_id);
        match cr {
            Err(e) => (Err(e), q, comps2, ss0, se0, hi0, lo0),
            Ok(unit) => {
                if q + 2 > data.len() {
                    (
                        Err(Error::InvalidSOSMarker(SOSError::MissingNextByte)),
                        data.len() as int,
                        comps2,
                        ss0,
                        se0,
                        hi0,
                        lo0,
                    )
                } else {
                    let ss = data[q];
                    let se = data[q + 1];
                    if ss != 0 || se > 0x3F {
                        (
                            Err(Error::InvalidSOSMarker(SOSError::InvalidSpectralSelection)),
                            q + 2,
                            comps2,
                            ss0,
                            se0,
                            hi0,
                            lo0,
                        )
                    } else if q + 3 > data.len() {
                        (
                            Err(Error::InvalidSOSMarker(SOSError::MissingNextByte)),
                            data.len() as int,
                            comps2,
                            ss,
                            se,
                            hi0,
                            lo0,
                        )
                    } else {
                        let ap = data[q + 2];
                        if ap >> 4 != 0 || ap & 0x0F != 0 {
                            (
                                Err(Error::InvalidSOSMarker(SOSError::InvalidSuccesiveApproximation)),
                                q + 3,
                                comps2,
                                ss,
                                se,
                                hi0,
                                lo0,
                            )
                        } else if be16(data, p) - 6 - 2 * ns != 0 {
                            (
                                Err(Error::InvalidSOSMarker(SOSError::InvalidMarkerLength)),
                                q + 3,
                                comps2,
                                ss,
                                se,
                                0,
                                0,
                            )
                        } else {
                            (Ok(DecodingOutcome::StartOfScan), q + 3, comps2, ss, se, 0, 0)
                        }
                    }
                }
            },
        }
    }
}

/// Everything the start-of-scan processor promises: the exact outcome,
/// end position, component states and recorded scan parameters.
pub open spec fn sos_post(
    data: Seq<u8>,
    p: int,
    h0: JPEGHeader,
    p1: int,
    h1: JPEGHeader,
    r: Result<DecodingOutcome, Error>,
) -> bool {
    let o = sos_spec(data, p, h0);
    &&& r == o.0
    &&& p1 == o.1
    &&& h1.components@ == o.2
    &&& h1.start_of_selection == o.3
    &&& h1.end_of_selection == o.4
    &&& h1.successive_approximation_high == o.5
    &&& h1.successive_approximation_low == o.6
    &&& h1 == (JPEGHeader {
        components: h1.components,
        start_of_selection: o.3,
        end_of_selection: o.4,
        successive_approximation_high: o.5,
        successive_approximation_low: o.6,
        ..h0
    })
}

/// Start of scan: refused before a frame header; selects one to three
/// declared components, records their Huffman table selectors, and pins
/// the baseline spectral selection and successive approximation.
pub fn process_sos(s: &mut ByteStream, h: &mut JPEGHeader) -> (r: Result<DecodingOutcome, Error>)
    requires
        old(s).wf(),
        old(h).wf(),
    ensures
        stream_advanced(*old(s), *final(s)),
        final(h).wf(),
        header_progress(*old(h), *final(h)),
        sos_post(old(s).data@, old(s).pos as int, *old(h), final(s).pos as int, *final(h), r),
        !old(h).some_component_used() ==> r == Err::<DecodingOutcome, Error>(
            Error::InvalidSOSMarker(SOSError::InvalidOrder),
        ) && *final(h) == *old(h) && *final(s) == *old(s),
        r is Ok ==> {
            &&& r == Ok::<DecodingOutcome, Error>(DecodingOutcome::StartOfScan)
            // a scan is accepted only after a frame header declared a component
            &&& old(h).some_component_used()
            &&& final(h).start_of_selection == 0
            &&& final(h).end_of_selection <= 63
            &&& final(h).successive_approximation_high == 0
            &&& final(h).successive_approximation_low == 0
            &&& *final(h) == (JPEGHeader {
                components: final(h).components,
                start_of_selection: final(h).start_of_selection,
                end_of_selection: final(h).end_of_selection,
                successive_approximation_high: 0,
                successive_approximation_low: 0,
                ..*old(h)
            })
        },
        r is Err ==> (r->Err_0 matches Error::InvalidSOSMarker(_)),
{
    if !h.has_component_in_sof() {
        return Err(Error::InvalidSOSMarker(SOSError::InvalidOrder));
    }
    let error = Error::InvalidSOSMarker(SOSError::MissingNextByte);
    let stated: u16 = match Marker::marker_length(s, error) {
        Ok(l) => l,
        Err(e) => {
            return Err(e);
        },
    };
    let component_number: u8 = match s.next() {
        Some(b) => b,
        None => {
            return Err(error);
        },
    };
    if component_number == 0x00 || component_number > 0x03 {
        return Err(Error::InvalidSOSMarker(SOSError::InvalidComponentNumber));
    }
    let ghost data = old(s).data@;
    let ghost p0 = old(s).pos as int;
    let ghost comps0 = old(h).components@;
    let ghost ns = component_number as int;
    let mut n: u8 = 0;
    #[verifier::loop_isolation(false)]
    while n < component_number
        invariant
            s.wf(),
            s.data == old(s).data,
            old(s).pos <= s.pos,
            h.wf(),
            header_progress(*old(h), *h),
            0 <= n <= component_number,
            *h == (JPEGHeader { components: h.components, ..*old(h) }),
            sos_components_spec(data, p0 + 3, ns, comps0, old(h).zero_based_component_id)
                == sos_components_spec(
                data,
                s.pos as int,
                ns - n,
                h.components@,
                old(h).zero_based_component_id,
            ),
        decreases component_number - n,
    {
        let id0: u8 = match s.next() {
            Some(b) => b,
            None => {
                return Err(error);
            },
        };
        let id: u16 = if h.zero_based_component_id {
            id0 as u16 + 1
        } else {
            id0 as u16
        };
        if id == 0 || id > 3 {
            return Err(Error::InvalidSOSMarker(SOSError::InvalidComponentID));
        }
        let idx: usize = (id - 1) as usize;
        let mut component: ColorComponent = h.components[idx];
        if component.is_used_sos {
            return Err(Error::InvalidSOSMarker(SOSError::DuplicateComponentID));
        }
        component.is_used_sos = true;
        let htable_ids: u8 = match s.next() {
            Some(b) => b,
            None => {
                return Err(error);
            },
        };
        let dc_id: u8 = htable_ids >> 4;
        let ac_id: u8 = htable_ids & 0x0F;
        proof {
            assert(htable_ids >> 4 <= 15 && htable_ids & 0x0F <= 15) by (bit_vector);
        }
        if dc_id > 0x03 || ac_id > 0x03 {
            return Err(Error::InvalidSOSMarker(SOSError::InvalidHuffmanTableID));
        }
        component.huffman_table_dc_id = dc_id;
        component.huffman_table_ac_id = ac_id;
        h.components.set(idx, component);
        n = n + 1;
    }
    let selection_start: u8 = match s.next() {
        Some(b) => b,
        None => {
            return Err(error);
        },
    };
    let selection_end: u8 = match s.next() {
        Some(b) => b,
        None => {
            return Err(error);
        },
    };
    if selection_start != 0 || selection_end > 0x3F {
        return Err(Error::InvalidSOSMarker(SOSError::InvalidSpectralSelection));
    }
    h.start_of_selection = selection_start;
    h.end_of_selection = selection_end;
    let approximation: u8 = match s.next() {
        Some(b) => b,
        None => {
            return Err(error);
        },
    };
    let high: u8 = approximation >> 4;
    let low: u8 = approximation & 0x0F;
    if high != 0 || low != 0 {
        return Err(Error::InvalidSOSMarker(SOSError::InvalidSuccesiveApproximation));
    }
    h.successive_approximation_high = high;
    h.successive_approximation_low = low;
    if stated as i32 - 6 - 2 * (component_number as i32) != 0 {
        return Err(Error::InvalidSOSMarker(SOSError::InvalidMarkerLength));
    }
    Ok(DecodingOutcome::StartOfScan)
}

} // verus!
