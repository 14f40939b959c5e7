//! Error values surfaced by the parser and the scan decoder.

use vstd::prelude::*;

verus! {

/// Failures of the baseline start-of-frame (SOF0) segment processor.
#[derive(Clone, Copy, Debug, PartialEq, Eq, Structural)]
pub enum SOF0MarkerError {
    MissingNextByte,
    InvalidComponentNumber,
    ZeroDimensions,
    InvalidComponentID,
    ComponentAlreadySet,
    UnsupportedComponentQTable,
    InvalidMarkerLength,
    InvalidPrecision,
    NoComponentSet,
}

/// Failures of the define-quantization-table (DQT) segment processor.
#[derive(Clone, Copy, Debug, PartialEq, Eq, Structural)]
pub enum DQTError {
    MissingNextByte,
    InvalidTableDestination,
    NoTableSet,
}

/// Failures of the define-Huffman-table (DHT) segment processor.
#[derive(Clone, Copy, Debug, PartialEq, Eq, Structural)]
pub enum DHTError {
    MissingNextByte,
    InvalidMarkerLength,
    InvalidTableId,
    InvalidSymbolsLength,
    NoTableSet,
}

/// Failures of the start-of-scan (SOS) segment processor.
#[derive(Clone, Copy, Debug, PartialEq, Eq, Structural)]
pub enum SOSError {
    MissingNextByte,
    InvalidMarkerLength,
    InvalidOrder,
    InvalidComponentNumber,
    InvalidComponentID,
    DuplicateComponentID,
    InvalidHuffmanTableID,
    InvalidSpectralSelection,
    InvalidSuccesiveApproximation,
}

/// Failures of the Huffman decoding of the entropy-coded scan data.
#[derive(Clone, Copy, Debug, PartialEq, Eq, Structural)]
pub enum HuffmanDecodingError {
    ReadPastLength,
    SymbolNotFound,
    InvalidDCCoefficientLength,
    ZerosExceedMCULength,
    InvalidACCoefficientLength,
}

/// Every error a decode can surface, with the failing marker's own error
/// nested where one segment processor reported the failure.
#[derive(Clone, Copy, Debug, PartialEq, Eq, Structural)]
pub enum Error {
    StartOfImageNotFound,
    StartOfFrameNotFound,
    QTableNotFound,
    HTableNotFound,
    SOSNotFound,
    InvalidMarker,
    UnknownMarker(u8),
    MultipleSOI,
    MultipleSOF,
    InvalidAPP0Marker,
    InvalidDQTMarker(DQTError),
    InvalidSOF0Marker(SOF0MarkerError),
    InvalidDHTMarker(DHTError),
    InvalidSOSMarker(SOSError),
    NoData,
    InvalidRestartIntervalMarker,
    RestartMarkerBeforeSOS,
    EndOfImageBeforeSOS,
    PrematureEnd,
    InvalidColorComponent,
    HuffmanDecode(HuffmanDecodingError),
}

/// The errors that only the decode orchestrator itself raises; no segment
/// processor, scan extraction or Huffman decoding surfaces one of these.
pub open spec fn orchestrator_error(e: Error) -> bool {
    ||| e == Error::StartOfImageNotFound
    ||| e == Error::NoData
    ||| e == Error::StartOfFrameNotFound
    ||| e == Error::QTableNotFound
    ||| e == Error::HTableNotFound
    ||| e == Error::SOSNotFound
}

} // verus!
