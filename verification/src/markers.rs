//! Marker recognition and dispatch: every recognized JPEG marker byte, the
//! routing of each to its segment processor, and the extraction of the
//! byte-stuffed entropy-coded scan data.

use vstd::prelude::*;
use crate::error::Error;
use crate::header::{JPEGHeader, header_progress};
use crate::stream::{ByteStream, be16, stream_advanced};

verus! {

/// What a segment processor reports back to the orchestrator.
#[derive(Clone, Copy, Debug, PartialEq, Eq, Structural)]
pub enum DecodingOutcome {
    Nothing,
    QTableSet,
    StartOfFrame,
    HuffmanTable,
    StartOfScan,
}

/// Every recognized marker code.
#[derive(Clone, Copy, Debug, PartialEq, Eq, Structural)]
pub enum Marker {
    SOI,
    EOI,
    APP0,
    DQT,
    SOF0,
    DRI,
    APPN,
    SOFN,
    DHT,
    SOS,
    JPGEXT,
    DAC,
    RSTN,
    DNL,
    DHP,
    EXP,
    APP1,
    JPG,
    COM,
    TEM,
}

/// Which marker a code byte names, or `None` for an unknown code.
pub open spec fn marker_spec(byte: u8) -> Option<Marker> {
    if byte == 0x01 {
        Some(Marker::TEM)
    } else if byte == 0xD8 {
        Some(Marker::SOI)
    } else if byte == 0xD9 {
        Some(Marker::EOI)
    } else if byte == 0xE0 {
        Some(Marker::APP0)
    } else if byte == 0xDB {
        Some(Marker::DQT)
    } else if byte == 0xC0 {
        Some(Marker::SOF0)
    } else if byte == 0xC4 {
        Some(Marker::DHT)
    } else if byte == 0xDD {
        Some(Marker::DRI)
    } else if byte == 0xDA {
        Some(Marker::SOS)
    } else if byte == 0xC8 {
        Some(Marker::JPGEXT)
    } else if byte == 0xCC {
        Some(Marker::DAC)
    } else if 0xC1 <= byte <= 0xCF {
        Some(Marker::SOFN)
    } else if 0xD0 <= byte <= 0xD7 {
        Some(Marker::RSTN)
    } else if byte == 0xDC {
        Some(Marker::DNL)
    } else if byte == 0xDE {
        Some(Marker::DHP)
    } else if byte == 0xDF {
        Some(Marker::EXP)
    } else if byte == 0xE1 {
        Some(Marker::APP1)
    } else if 0xE2 <= byte <= 0xEF {
        Some(Marker::APPN)
    } else if 0xF0 <= byte <= 0xFD {
        Some(Marker::JPG)
    } else if byte == 0xFE {
        Some(Marker::COM)
    } else {
        None
    }
}

/// Where the read position stands after skipping a sized segment that
/// starts at `pos`: past the stated length, or at the end of the buffer if
/// the segment overruns it.  Meaningful only for a well-formed stated
/// length, one of at least two (the two length bytes count themselves).
pub open spec fn skip_end(data: Seq<u8>, pos: int) -> int {
    let l = be16(data, pos);
    if pos + l <= data.len() {
        pos + l
    } else {
        data.len() as int
    }
}

/// The unescaped entropy-coded bytes from `pos` on: plain bytes are kept,
/// a stuffed `0xFF 0x00` becomes one literal `0xFF`, restart markers are
/// consumed without output, an end-of-image or any other out-of-band
/// marker ends the scan, and a buffer that ends first is a premature end.
pub open spec fn scan_spec(data: Seq<u8>, pos: int) -> Result<Seq<u8>, Error>
    decreases data.len() - pos,
{
    if pos >= data.len() {
        Err(Error::PrematureEnd)
    } else if data[pos] != 0xFF {
        match scan_spec(data, pos + 1) {
            Ok(rest) => Ok(seq![data[pos]] + rest),
            Err(e) => Err(e),
        }
    } else if pos + 1 >= data.len() {
        Err(Error::PrematureEnd)
    } else {
        let nxt = data[pos + 1];
        if nxt == 0xD9 {
            Ok(Seq::empty())
        } else if nxt == 0x00 {
            match scan_spec(data, pos + 2) {
                Ok(rest) => Ok(seq![0xFFu8] + rest),
                Err(e) => Err(e),
            }
        } else if 0xD0 <= nxt <= 0xD7 {
            scan_spec(data, pos + 2)
        } else {
            Ok(Seq::empty())
        }
    }
}

/// What skipping a sized segment promises: its exact outcome and end
/// position.
pub open spec fn skip_post(data: Seq<u8>, p: int, p1: int, r: Result<DecodingOutcome, Error>) -> bool {
    if p + 2 > data.len() {
        r == Err::<DecodingOutcome, Error>(Error::InvalidMarker) && p1 == data.len()
    } else if be16(data, p) < 2 {
        r == Err::<DecodingOutcome, Error>(Error::InvalidMarker) && p1 == p + 2
    } else {
        r == Ok::<DecodingOutcome, Error>(DecodingOutcome::Nothing) && p1 == skip_end(data, p)
    }
}

/// What dispatching marker `m` at position `p` promises: each marker's
/// processor contract, forwarded.
pub open spec fn process_post(
    m: Marker,
    data: Seq<u8>,
    p: int,
    h0: JPEGHeader,
    p1: int,
    h1: JPEGHeader,
    r: Result<DecodingOutcome, Error>,
) -> bool {
    match m {
        Marker::TEM => r == Ok::<DecodingOutcome, Error>(DecodingOutcome::Nothing) && p1 == p && h1
            == h0,
        Marker::SOI => r == Ok::<DecodingOutcome, Error>(DecodingOutcome::Nothing) && p1 == p && h1
            == h0,
        Marker::EOI => r == Err::<DecodingOutcome, Error>(Error::EndOfImageBeforeSOS) && p1 == p
            && h1 == h0,
        Marker::RSTN => r == Err::<DecodingOutcome, Error>(Error::RestartMarkerBeforeSOS) && p1
            == p && h1 == h0,
        Marker::APP1 => r == Err::<DecodingOutcome, Error>(Error::UnknownMarker(0xE1)) && p1 == p
            && h1 == h0,
        Marker::DRI => crate::segments::dri_post(data, p, h0, p1, h1, r),
        Marker::APP0 => crate::segments::app0_post(data, p, h0, p1, h1, r),
        Marker::DQT => crate::segments::dqt_post(data, p, h0, p1, h1, r),
        Marker::DHT => crate::segments::dht_post(data, p, h0, p1, h1, r),
        Marker::SOF0 => crate::segments::sof0_post(data, p, h0, p1, h1, r),
        Marker::SOS => crate::segments::sos_post(data, p, h0, p1, h1, r),
        Marker::APPN | Marker::SOFN | Marker::JPGEXT | Marker::DAC | Marker::DNL | Marker::DHP
            | Marker::EXP | Marker::JPG | Marker::COM => skip_post(data, p, p1, r) && h1 == h0,
    }
}

/// Everything reading one marker promises: the fill run is skipped, then
/// the code byte decides — exhaustion, an unknown code, a second
/// start-of-image, or the dispatched processor's own contract.
pub open spec fn read_post(
    data: Seq<u8>,
    p: int,
    h0: JPEGHeader,
    p1: int,
    h1: JPEGHeader,
    r: Result<DecodingOutcome, Error>,
) -> bool {
    let b = fill_run_end(data, p);
    if b >= data.len() {
        r == Err::<DecodingOutcome, Error>(Error::InvalidMarker) && h1 == h0 && p1 == data.len()
    } else if marker_spec(data[b]) is None {
        r == Err::<DecodingOutcome, Error>(Error::UnknownMarker(data[b])) && h1 == h0 && p1 == b
            + 1
    } else if marker_spec(data[b]) == Some(Marker::SOI) {
        r == Err::<DecodingOutcome, Error>(Error::MultipleSOI) && h1 == h0 && p1 == b + 1
    } else {
        process_post(marker_spec(data[b])->Some_0, data, b + 1, h0, p1, h1, r)
    }
}

/// The position of the first byte at or past `p` that is not a `0xFF`
/// fill byte, or the end of the buffer.
pub open spec fn fill_run_end(data: Seq<u8>, p: int) -> int
    decreases data.len() - p,
{
    if p >= data.len() {
        p
    } else if data[p] == 0xFF {
        fill_run_end(data, p + 1)
    } else {
        p
    }
}

/// A read that reports a frame header did so through the SOF0 processor:
/// the dispatched code byte is `0xC0` and the header now carries the
/// dimensions declared right after it.
pub proof fn lemma_read_start_of_frame(
    data: Seq<u8>,
    p: int,
    h0: JPEGHeader,
    p1: int,
    h1: JPEGHeader,
)
    requires
        0 <= p,
        read_post(data, p, h0, p1, h1, Ok(DecodingOutcome::StartOfFrame)),
    ensures
        ({
            let b = fill_run_end(data, p);
            &&& 0 <= b
            &&& b + 9 <= data.len()
            &&& data[b] == 0xC0
            &&& h1.height as int == be16(data, b + 4)
            &&& h1.width as int == be16(data, b + 6)
        }),
{
    let b = fill_run_end(data, p);
    lemma_fill_run_end_bounds(data, p);
    assert(b < data.len());
    assert(marker_spec(data[b]) is Some);
    let m = marker_spec(data[b])->Some_0;
    assert(process_post(m, data, b + 1, h0, p1, h1, Ok(DecodingOutcome::StartOfFrame)));
    assert(m == Marker::SOF0);
    assert(data[b] == 0xC0);
    let o = crate::segments::sof0_spec(data, b + 1, h0);
    assert(o.0 == Ok::<DecodingOutcome, Error>(DecodingOutcome::StartOfFrame));
    assert(b + 1 + 8 <= data.len());
    assert(h1.height as int == be16(data, b + 4) && h1.width as int == be16(data, b + 6));
}

/// The fill run never passes the end of the buffer, nor moves backwards.
pub proof fn lemma_fill_run_end_bounds(data: Seq<u8>, p: int)
    requires
        0 <= p,
    ensures
        p <= fill_run_end(data, p),
        p <= data.len() ==> fill_run_end(data, p) <= data.len(),
    decreases data.len() - p,
{
    if p < data.len() && data[p] == 0xFF {
        lemma_fill_run_end_bounds(data, p + 1);
    }
}

impl Marker {
    /// Recognizes a marker code byte, exactly as [`marker_spec`] states.
    pub fn new(byte: u8) -> (r: Option<Self>)
        ensures
            r == marker_spec(byte),
    {
        match byte {
            0x01 => Some(Self::TEM),
            0xD8 => Some(Self::SOI),
            0xD9 => Some(Self::EOI),
            0xE0 => Some(Self::APP0),
            0xDB => Some(Self::DQT),
            0xC0 => Some(Self::SOF0),
            0xC4 => Some(Self::DHT),
            0xDD => Some(Self::DRI),
            0xDA => Some(Self::SOS),
            0xC8 => Some(Self::JPGEXT),
            0xCC => Some(Self::DAC),
            0xC1..=0xC3 | 0xC5..=0xC7 | 0xC9..=0xCB | 0xCD..=0xCF => Some(Self::SOFN),
            0xD0..=0xD7 => Some(Self::RSTN),
            0xDC => Some(Self::DNL),
            0xDE => Some(Self::DHP),
            0xDF => Some(Self::EXP),
            0xE1 => Some(Self::APP1),
            0xE2..=0xEF => Some(Self::APPN),
            0xF0..=0xFD => Some(Self::JPG),
            0xFE => Some(Self::COM),
            _ => None,
        }
    }

    /// Reads a segment's stated big-endian length (the value includes the
    /// two length bytes themselves), or the caller's error when fewer than
    /// two bytes are left.
    pub fn marker_length(s: &mut ByteStream, error: Error) -> (r: Result<u16, Error>)
        requires
            old(s).wf(),
        ensures
            stream_advanced(*old(s), *final(s)),
            old(s).pos + 2 <= old(s).data.len() ==> r == Ok::<u16, Error>(
                be16(old(s).data@, old(s).pos as int) as u16,
            ) && final(s).pos == old(s).pos + 2,
            old(s).pos + 2 > old(s).data.len() ==> r == Err::<u16, Error>(error) && final(s).pos
                == old(s).data.len(),
    {
        match s.read_u16() {
            Some(v) => Ok(v),
            None => Err(error),
        }
    }

    /// Skips a sized segment that carries nothing the decoder needs: reads
    /// the stated length and discards that many payload bytes.  A stated
    /// length below two is malformed (the length includes its own two
    /// bytes) and is refused.
    pub fn skip_sized_marker(s: &mut ByteStream) -> (r: Result<DecodingOutcome, Error>)
        requires
            old(s).wf(),
        ensures
            stream_advanced(*old(s), *final(s)),
            ({
                let data = old(s).data@;
                let p = old(s).pos as int;
                if p + 2 > data.len() {
                    r == Err::<DecodingOutcome, Error>(Error::InvalidMarker) && final(s).pos
                        == data.len()
                } else if be16(data, p) < 2 {
                    r == Err::<DecodingOutcome, Error>(Error::InvalidMarker) && final(s).pos == p
                        + 2
                } else {
                    r == Ok::<DecodingOutcome, Error>(DecodingOutcome::Nothing) && final(s).pos
                        == skip_end(data, p)
                }
            }),
    {
        let length: u16 = match Self::marker_length(s, Error::InvalidMarker) {
            Ok(l) => l,
            Err(e) => {
                return Err(e);
            },
        };
        if length < 2 {
            return Err(Error::InvalidMarker);
        }
        s.skip((length - 2) as usize);
        Ok(DecodingOutcome::Nothing)
    }

    /// Routes a recognized marker to its segment processor.
    pub fn process(self, s: &mut ByteStream, h: &mut JPEGHeader) -> (r: Result<
        DecodingOutcome,
        Error,
    >)
        requires
            old(s).wf(),
            old(h).wf(),
        ensures
            stream_advanced(*old(s), *final(s)),
            final(h).wf(),
            header_progress(*old(h), *final(h)),
            r == Ok::<DecodingOutcome, Error>(DecodingOutcome::StartOfFrame) ==> !old(h).is_sof_set
                && final(h).is_sof_set && final(h).width >= 1 && final(h).height >= 1 && final(h).some_component_used(),
            r == Ok::<DecodingOutcome, Error>(DecodingOutcome::QTableSet) ==> final(h).some_qtable_set(),
            r == Ok::<DecodingOutcome, Error>(DecodingOutcome::HuffmanTable) ==> final(h).some_htable_set(),
            r == Ok::<DecodingOutcome, Error>(DecodingOutcome::StartOfScan) ==> old(h).some_component_used() && final(h).start_of_selection == 0 && final(h).end_of_selection
                <= 63 && final(h).successive_approximation_high == 0 && final(h).successive_approximation_low == 0,
            self == Marker::EOI ==> r == Err::<DecodingOutcome, Error>(Error::EndOfImageBeforeSOS),
            self == Marker::RSTN ==> r == Err::<DecodingOutcome, Error>(
                Error::RestartMarkerBeforeSOS,
            ),
            r is Err ==> !crate::error::orchestrator_error(r->Err_0),
            old(h).is_sof_set ==> final(h).width == old(h).width && final(h).height == old(
                h,
            ).height,
            final(h).huffman_data == old(h).huffman_data,
            final(h).mcus == old(h).mcus,
            process_post(
                self,
                old(s).data@,
                old(s).pos as int,
                *old(h),
                final(s).pos as int,
                *final(h),
                r,
            ),
    {
        match self {
            Self::TEM => Ok(DecodingOutcome::Nothing),
            Self::SOI => Ok(DecodingOutcome::Nothing),
            Self::EOI => Err(Error::EndOfImageBeforeSOS),
            Self::RSTN => Err(Error::RestartMarkerBeforeSOS),
            Self::APPN => Self::skip_sized_marker(s),
            Self::SOFN => Self::skip_sized_marker(s),
            Self::JPGEXT => Self::skip_sized_marker(s),
            Self::DAC => Self::skip_sized_marker(s),
            Self::DNL => Self::skip_sized_marker(s),
            Self::DHP => Self::skip_sized_marker(s),
            Self::EXP => Self::skip_sized_marker(s),
            Self::JPG => Self::skip_sized_marker(s),
            Self::COM => Self::skip_sized_marker(s),
            // APP1 (EXIF) is out of scope: it is surfaced as an unknown
            // marker rather than parsed
            Self::APP1 => Err(Error::UnknownMarker(0xE1)),
            Self::SOS => crate::segments::process_sos(s, h),
            Self::DHT => crate::segments::process_dht(s, h),
            Self::DRI => crate::segments::process_dri(s, h),
            Self::SOF0 => crate::segments::process_sof0(s, h),
            Self::DQT => crate::segments::process_dqt(s, h),
            Self::APP0 => crate::segments::process_app0(s, h),
        }
    }

    /// Skips repeated `0xFF` fill bytes, reads the marker code byte, and
    /// dispatches it; a second start-of-image marker and unknown codes are
    /// refused.
    pub fn read(s: &mut ByteStream, h: &mut JPEGHeader) -> (r: Result<DecodingOutcome, Error>)
        requires
            old(s).wf(),
            old(h).wf(),
        ensures
            stream_advanced(*old(s), *final(s)),
            final(h).wf(),
            header_progress(*old(h), *final(h)),
            r == Ok::<DecodingOutcome, Error>(DecodingOutcome::StartOfFrame) ==> !old(h).is_sof_set
                && final(h).is_sof_set && final(h).width >= 1 && final(h).height >= 1 && final(h).some_component_used(),
            r == Ok::<DecodingOutcome, Error>(DecodingOutcome::QTableSet) ==> final(h).some_qtable_set(),
            r == Ok::<DecodingOutcome, Error>(DecodingOutcome::HuffmanTable) ==> final(h).some_htable_set(),
            r == Ok::<DecodingOutcome, Error>(DecodingOutcome::StartOfScan) ==> old(h).some_component_used() && final(h).start_of_selection == 0 && final(h).end_of_selection
                <= 63 && final(h).successive_approximation_high == 0 && final(h).successive_approximation_low == 0,
            r is Err ==> !crate::error::orchestrator_error(r->Err_0),
            old(h).is_sof_set ==> final(h).width == old(h).width && final(h).height == old(
                h,
            ).height,
            final(h).huffman_data == old(h).huffman_data,
            final(h).mcus == old(h).mcus,
            read_post(old(s).data@, old(s).pos as int, *old(h), final(s).pos as int, *final(h), r),
    {
        // skip repetitions of 0xFF between the marker prefix and its code
        loop
            invariant
                s.wf(),
                s.data == old(s).data,
                old(s).pos <= s.pos,
                fill_run_end(s.data@, old(s).pos as int) == fill_run_end(s.data@, s.pos as int),
            ensures
                s.wf(),
                s.data == old(s).data,
                old(s).pos <= s.pos,
                fill_run_end(s.data@, old(s).pos as int) == fill_run_end(s.data@, s.pos as int),
                s.pos < s.data.len() ==> s.data@[s.pos as int] != 0xFF,
                s.pos == fill_run_end(s.data@, old(s).pos as int) || (s.pos == s.data.len()
                    && fill_run_end(s.data@, old(s).pos as int) == s.data.len()),
            decreases s.data.len() - s.pos,
        {
            match s.peek() {
                Some(b) => {
                    if b != 0xFF {
                        break;
                    }
                    s.next();
                },
                None => {
                    break;
                },
            }
        }
        let byte: u8 = match s.next() {
            Some(b) => b,
            None => {
                return Err(Error::InvalidMarker);
            },
        };
        match Self::new(byte) {
            Some(marker) => {
                if marker == Self::SOI {
                    return Err(Error::MultipleSOI);
                }
                marker.process(s, h)
            },
            None => Err(Error::UnknownMarker(byte)),
        }
    }

    /// Extracts the entropy-coded scan data into `out`, exactly as
    /// [`scan_spec`] states: un-stuffing `0xFF 0x00`, consuming restart
    /// markers, and stopping at the end-of-image (or any other) marker.
    pub fn scan(s: &mut ByteStream, out: &mut Vec<u8>) -> (r: Result<(), Error>)
        requires
            old(s).wf(),
        ensures
            stream_advanced(*old(s), *final(s)),
            ({
                match scan_spec(old(s).data@, old(s).pos as int) {
                    Ok(body) => r == Ok::<(), Error>(()) && final(out)@ == old(out)@ + body,
                    Err(e) => r == Err::<(), Error>(e) && final(out)@.subrange(
                        0,
                        old(out)@.len() as int,
                    ) == old(out)@,
                }
            }),
            r is Err ==> r == Err::<(), Error>(Error::PrematureEnd),
    {
        let ghost data = old(s).data@;
        let ghost p0 = old(s).pos as int;
        let ghost n0 = old(out)@.len() as int;
        let ghost out0 = old(out)@;
        let mut done: bool = false;
        #[verifier::loop_isolation(false)]
        while !done
            invariant
                s.wf(),
                s.data == old(s).data,
                s.data@ == data,
                p0 <= s.pos,
                out@.len() >= n0,
                out@.subrange(0, n0) == out0,
                !done ==> (match scan_spec(data, s.pos as int) {
                    Ok(rest) => scan_spec(data, p0) == Ok::<Seq<u8>, Error>(out@.skip(n0) + rest),
                    Err(e) => scan_spec(data, p0) == Err::<Seq<u8>, Error>(e),
                }),
                done ==> scan_spec(data, p0) == Ok::<Seq<u8>, Error>(out@.skip(n0)),
            decreases s.data.len() - s.pos,
        {
            let ghost acc = out@.skip(n0);
            let current: u8 = match s.next() {
                Some(b) => b,
                None => {
                    return Err(Error::PrematureEnd);
                },
            };
            if current == 0xFF {
                let nxt: u8 = match s.peek() {
                    Some(b) => b,
                    None => {
                        return Err(Error::PrematureEnd);
                    },
                };
                if nxt == 0xD9 {
                    proof {
                        assert(acc + Seq::<u8>::empty() =~= acc);
                    }
                    done = true;
                } else if nxt == 0x00 {
                    out.push(0xFF);
                    s.next();
                    proof {
                        assert(out@.subrange(0, n0) =~= out0);
                        assert(out@.skip(n0) =~= acc + seq![0xFFu8]);
                        if scan_spec(data, s.pos as int) is Ok {
                            let rest = scan_spec(data, s.pos as int)->Ok_0;
                            assert((acc + seq![0xFFu8]) + rest =~= acc + (seq![0xFFu8] + rest));
                        }
                    }
                } else if 0xD0 <= nxt && nxt <= 0xD7 {
                    s.next();
                } else {
                    proof {
                        assert(acc + Seq::<u8>::empty() =~= acc);
                    }
                    done = true;
                }
            } else {
                out.push(current);
                proof {
                    assert(out@.subrange(0, n0) =~= out0);
                    assert(out@.skip(n0) =~= acc + seq![current]);
                    if scan_spec(data, s.pos as int) is Ok {
                        let rest = scan_spec(data, s.pos as int)->Ok_0;
                        assert((acc + seq![current]) + rest =~= acc + (seq![current] + rest));
                    }
                }
            }
        }
        Ok(())
    }
}

} // verus!
