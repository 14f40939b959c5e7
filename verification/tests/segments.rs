use jpeg_decoder::error::{DHTError, DQTError, Error, SOF0MarkerError, SOSError};
use jpeg_decoder::header::JPEGHeader;

fn soi() -> Vec<u8> {
    vec![0xFF, 0xD8]
}

fn dqt() -> Vec<u8> {
    let mut v = vec![0xFF, 0xDB, 0x00, 0x43, 0x00];
    for i in 0..64u8 {
        v.push(i + 1);
    }
    v
}

fn sof0() -> Vec<u8> {
    vec![0xFF, 0xC0, 0x00, 0x0B, 0x08, 0x00, 0x01, 0x00, 0x01, 0x01, 0x01, 0x11, 0x00]
}

fn dht_dc_simple() -> Vec<u8> {
    let mut v = vec![0xFF, 0xC4, 0x00, 0x14, 0x00, 1];
    v.extend([0u8; 15]);
    v.push(0x00);
    v
}

#[test]
fn dqt_bad_destination_is_refused() {
    let mut v = soi();
    v.extend([0xFF, 0xDB, 0x00, 0x43, 0x05]);
    for i in 0..64u8 {
        v.push(i);
    }
    assert_eq!(        JPEGHeader::new(v).unwrap_err(), Error::InvalidDQTMarker(DQTError::InvalidTableDestination));
}

#[test]
fn dqt_without_payload_sets_no_table() {
    let mut v = soi();
    v.extend([0xFF, 0xDB, 0x00, 0x02]);
    assert_eq!(JPEGHeader::new(v).unwrap_err(), Error::InvalidDQTMarker(DQTError::NoTableSet));
}

#[test]
fn dqt_truncated_entries_are_refused() {
    let mut v = soi();
    v.extend([0xFF, 0xDB, 0x00, 0x43, 0x00, 0x01, 0x02]);
    assert_eq!(JPEGHeader::new(v).unwrap_err(), Error::InvalidDQTMarker(DQTError::MissingNextByte));
}

#[test]
fn dqt_extended_table_reads_sixteen_bit_entries() {
    let mut v = soi();
    // extended-precision table at destination 0: stated length 2 + 1 + 128
    v.extend([0xFF, 0xDB, 0x00, 0x83, 0x10]);
    for i in 0..64u16 {
        let entry = 0x0100 + i;
        v.extend([(entry >> 8) as u8, entry as u8]);
    }
    v.extend(sof0());
    v.extend(dht_dc_simple());
    v.extend([0xFF, 0xC4, 0x00, 0x14, 0x10, 1, 0, 0, 0, 0, 0, 0, 0, 0, 0, 0, 0, 0, 0, 0, 0, 0x00]);
    v.extend([0xFF, 0xDA, 0x00, 0x08, 0x01, 0x01, 0x00, 0x00, 0x3F, 0x00]);
    v.extend([0x00, 0xFF, 0xD9]);
    let h = JPEGHeader::new(v).unwrap();
    assert!(h.qtables[0].is_set);
    assert!(h.qtables[0].is_extended_mode);
    assert_eq!(h.qtables[0].table[0], 0x0100);
    assert_eq!(h.qtables[0].table[2], 0x0105);
}

#[test]
fn sof0_bad_precision_is_refused() {
    let mut v = soi();
    v.extend(dqt());
    v.extend([0xFF, 0xC0, 0x00, 0x0B, 0x09, 0x00, 0x01, 0x00, 0x01, 0x01, 0x01, 0x11, 0x00]);
    assert_eq!(        JPEGHeader::new(v).unwrap_err(), Error::InvalidSOF0Marker(SOF0MarkerError::InvalidPrecision));
}

#[test]
fn sof0_zero_dimensions_are_refused() {
    let mut v = soi();
    v.extend(dqt());
    v.extend([0xFF, 0xC0, 0x00, 0x0B, 0x08, 0x00, 0x01, 0x00, 0x00, 0x01, 0x01, 0x11, 0x00]);
    assert_eq!(JPEGHeader::new(v).unwrap_err(), Error::InvalidSOF0Marker(SOF0MarkerError::ZeroDimensions));
}

#[test]
fn sof0_two_components_are_refused() {
    let mut v = soi();
    v.extend(dqt());
    v.extend([
        0xFF, 0xC0, 0x00, 0x0E, 0x08, 0x00, 0x01, 0x00, 0x01, 0x02, 0x01, 0x11, 0x00, 0x02, 0x11,
        0x00,
    ]);
    assert_eq!(        JPEGHeader::new(v).unwrap_err(), Error::InvalidSOF0Marker(SOF0MarkerError::InvalidComponentNumber));
}

#[test]
fn sof0_component_id_over_three_is_refused() {
    let mut v = soi();
    v.extend(dqt());
    v.extend([0xFF, 0xC0, 0x00, 0x0B, 0x08, 0x00, 0x01, 0x00, 0x01, 0x01, 0x04, 0x11, 0x00]);
    assert_eq!(        JPEGHeader::new(v).unwrap_err(), Error::InvalidSOF0Marker(SOF0MarkerError::InvalidComponentID));
}

#[test]
fn sof0_duplicate_component_is_refused() {
    let mut v = soi();
    v.extend(dqt());
    v.extend([
        0xFF, 0xC0, 0x00, 0x11, 0x08, 0x00, 0x01, 0x00, 0x01, 0x03, 0x01, 0x11, 0x00, 0x01, 0x11,
        0x00, 0x02, 0x11, 0x00,
    ]);
    assert_eq!(        JPEGHeader::new(v).unwrap_err(), Error::InvalidSOF0Marker(SOF0MarkerError::ComponentAlreadySet));
}

#[test]
fn sof0_qtable_selector_over_three_is_refused() {
    let mut v = soi();
    v.extend(dqt());
    v.extend([0xFF, 0xC0, 0x00, 0x0B, 0x08, 0x00, 0x01, 0x00, 0x01, 0x01, 0x01, 0x11, 0x04]);
    assert_eq!(        JPEGHeader::new(v).unwrap_err(), Error::InvalidSOF0Marker(SOF0MarkerError::UnsupportedComponentQTable));
}

#[test]
fn sof0_wrong_stated_length_is_refused() {
    let mut v = soi();
    v.extend(dqt());
    v.extend([0xFF, 0xC0, 0x00, 0x0C, 0x08, 0x00, 0x01, 0x00, 0x01, 0x01, 0x01, 0x11, 0x00]);
    assert_eq!(        JPEGHeader::new(v).unwrap_err(), Error::InvalidSOF0Marker(SOF0MarkerError::InvalidMarkerLength));
}

#[test]
fn sof0_truncated_is_refused() {
    let mut v = soi();
    v.extend(dqt());
    v.extend([0xFF, 0xC0, 0x00, 0x0B, 0x08, 0x00]);
    assert_eq!(        JPEGHeader::new(v).unwrap_err(), Error::InvalidSOF0Marker(SOF0MarkerError::MissingNextByte));
}

#[test]
fn zero_based_component_ids_are_rebased() {
    let mut v = soi();
    v.extend(dqt());
    // the component declares id 0, entering zero-based mode
    v.extend([0xFF, 0xC0, 0x00, 0x0B, 0x08, 0x00, 0x01, 0x00, 0x01, 0x01, 0x00, 0x11, 0x00]);
    v.extend(dht_dc_simple());
    v.extend([0xFF, 0xC4, 0x00, 0x14, 0x10, 1, 0, 0, 0, 0, 0, 0, 0, 0, 0, 0, 0, 0, 0, 0, 0, 0x00]);
    // the scan names the component by its raw id 0 as well
    v.extend([0xFF, 0xDA, 0x00, 0x08, 0x01, 0x00, 0x00, 0x00, 0x3F, 0x00]);
    v.extend([0x00, 0xFF, 0xD9]);
    let h = JPEGHeader::new(v).unwrap();
    assert!(h.zero_based_component_id);
    assert_eq!(h.components[0].id, 1);
    assert!(h.components[0].is_used_sof);
    assert!(h.components[0].is_used_sos);
}

#[test]
fn dht_bad_table_id_is_refused() {
    let mut v = soi();
    v.extend(dqt());
    v.extend(sof0());
    v.extend([0xFF, 0xC4, 0x00, 0x14, 0x04, 1, 0, 0, 0, 0, 0, 0, 0, 0, 0, 0, 0, 0, 0, 0, 0, 0x00]);
    assert_eq!(JPEGHeader::new(v).unwrap_err(), Error::InvalidDHTMarker(DHTError::InvalidTableId));
}

#[test]
fn dht_too_many_symbols_are_refused() {
    let mut v = soi();
    v.extend(dqt());
    v.extend(sof0());
    v.extend([0xFF, 0xC4, 0x00, 0x14, 0x00, 255]);
    v.extend([0u8; 15]);
    v.push(0x00);
    assert_eq!(JPEGHeader::new(v).unwrap_err(), Error::InvalidDHTMarker(DHTError::InvalidSymbolsLength));
}

#[test]
fn dht_without_payload_sets_no_table() {
    let mut v = soi();
    v.extend(dqt());
    v.extend(sof0());
    v.extend([0xFF, 0xC4, 0x00, 0x02]);
    assert_eq!(JPEGHeader::new(v).unwrap_err(), Error::InvalidDHTMarker(DHTError::NoTableSet));
}

#[test]
fn dht_wrong_stated_length_is_refused() {
    let mut v = soi();
    v.extend(dqt());
    v.extend(sof0());
    // stated length one byte shorter than the table it carries
    v.extend([0xFF, 0xC4, 0x00, 0x13, 0x00, 1]);
    v.extend([0u8; 15]);
    v.extend([0x00]);
    assert_eq!(JPEGHeader::new(v).unwrap_err(), Error::InvalidDHTMarker(DHTError::InvalidMarkerLength));
}

#[test]
fn dht_truncated_counts_are_refused() {
    let mut v = soi();
    v.extend(dqt());
    v.extend(sof0());
    v.extend([0xFF, 0xC4, 0x00, 0x14, 0x00, 1, 0, 0]);
    assert_eq!(JPEGHeader::new(v).unwrap_err(), Error::InvalidDHTMarker(DHTError::MissingNextByte));
}

#[test]
fn sos_zero_components_are_refused() {
    let mut v = soi();
    v.extend(dqt());
    v.extend(sof0());
    v.extend(dht_dc_simple());
    v.extend([0xFF, 0xDA, 0x00, 0x06, 0x00, 0x00, 0x3F, 0x00]);
    assert_eq!(        JPEGHeader::new(v).unwrap_err(), Error::InvalidSOSMarker(SOSError::InvalidComponentNumber));
}

#[test]
fn sos_component_id_over_three_is_refused() {
    let mut v = soi();
    v.extend(dqt());
    v.extend(sof0());
    v.extend(dht_dc_simple());
    v.extend([0xFF, 0xDA, 0x00, 0x08, 0x01, 0x04, 0x00, 0x00, 0x3F, 0x00]);
    assert_eq!(JPEGHeader::new(v).unwrap_err(), Error::InvalidSOSMarker(SOSError::InvalidComponentID));
}

#[test]
fn sos_duplicate_component_is_refused() {
    let mut v = soi();
    v.extend(dqt());
    v.extend(sof0());
    v.extend(dht_dc_simple());
    v.extend([0xFF, 0xDA, 0x00, 0x0A, 0x02, 0x01, 0x00, 0x01, 0x00, 0x00, 0x3F, 0x00]);
    assert_eq!(JPEGHeader::new(v).unwrap_err(), Error::InvalidSOSMarker(SOSError::DuplicateComponentID));
}

#[test]
fn sos_huffman_selector_over_three_is_refused() {
    let mut v = soi();
    v.extend(dqt());
    v.extend(sof0());
    v.extend(dht_dc_simple());
    v.extend([0xFF, 0xDA, 0x00, 0x08, 0x01, 0x01, 0x40, 0x00, 0x3F, 0x00]);
    assert_eq!(JPEGHeader::new(v).unwrap_err(), Error::InvalidSOSMarker(SOSError::InvalidHuffmanTableID));
}

#[test]
fn sos_bad_spectral_selection_is_refused() {
    let mut v = soi();
    v.extend(dqt());
    v.extend(sof0());
    v.extend(dht_dc_simple());
    v.extend([0xFF, 0xDA, 0x00, 0x08, 0x01, 0x01, 0x00, 0x01, 0x3F, 0x00]);
    assert_eq!(        JPEGHeader::new(v).unwrap_err(), Error::InvalidSOSMarker(SOSError::InvalidSpectralSelection));
}

#[test]
fn sos_bad_approximation_is_refused() {
    let mut v = soi();
    v.extend(dqt());
    v.extend(sof0());
    v.extend(dht_dc_simple());
    v.extend([0xFF, 0xDA, 0x00, 0x08, 0x01, 0x01, 0x00, 0x00, 0x3F, 0x11]);
    assert_eq!(        JPEGHeader::new(v).unwrap_err(), Error::InvalidSOSMarker(SOSError::InvalidSuccesiveApproximation));
}

#[test]
fn sos_wrong_stated_length_is_refused() {
    let mut v = soi();
    v.extend(dqt());
    v.extend(sof0());
    v.extend(dht_dc_simple());
    v.extend([0xFF, 0xDA, 0x00, 0x09, 0x01, 0x01, 0x00, 0x00, 0x3F, 0x00]);
    assert_eq!(JPEGHeader::new(v).unwrap_err(), Error::InvalidSOSMarker(SOSError::InvalidMarkerLength));
}

#[test]
fn sos_truncated_is_refused() {
    let mut v = soi();
    v.extend(dqt());
    v.extend(sof0());
    v.extend(dht_dc_simple());
    v.extend([0xFF, 0xDA, 0x00, 0x08, 0x01]);
    assert_eq!(JPEGHeader::new(v).unwrap_err(), Error::InvalidSOSMarker(SOSError::MissingNextByte));
}

#[test]
fn dri_wrong_length_is_refused() {
    let mut v = soi();
    v.extend([0xFF, 0xDD, 0x00, 0x05, 0x00, 0x01, 0x00]);
    assert_eq!(JPEGHeader::new(v).unwrap_err(), Error::InvalidRestartIntervalMarker);
}

#[test]
fn dri_truncated_is_refused() {
    let mut v = soi();
    v.extend([0xFF, 0xDD, 0x00, 0x04, 0x00]);
    assert_eq!(JPEGHeader::new(v).unwrap_err(), Error::InvalidRestartIntervalMarker);
}

#[test]
fn app0_bad_units_are_refused() {
    let mut v = soi();
    v.extend([
        0xFF, 0xE0, 0x00, 0x10, 0x4A, 0x46, 0x49, 0x46, 0x00, 0x01, 0x01, 0x03, 0x00, 0x01, 0x00,
        0x01, 0x00, 0x00,
    ]);
    assert_eq!(JPEGHeader::new(v).unwrap_err(), Error::InvalidAPP0Marker);
}

#[test]
fn app0_truncated_is_refused() {
    let mut v = soi();
    v.extend([0xFF, 0xE0, 0x00, 0x10, 0x4A, 0x46]);
    assert_eq!(JPEGHeader::new(v).unwrap_err(), Error::InvalidAPP0Marker);
}

#[test]
fn app0_extension_is_skipped() {
    let mut v = soi();
    // a JFXX extension segment with two payload bytes past the identifier
    v.extend([0xFF, 0xE0, 0x00, 0x09, 0x4A, 0x46, 0x58, 0x58, 0x00, 0xAA, 0xBB]);
    v.extend(dqt());
    v.extend(sof0());
    v.extend(dht_dc_simple());
    v.extend([0xFF, 0xC4, 0x00, 0x14, 0x10, 1, 0, 0, 0, 0, 0, 0, 0, 0, 0, 0, 0, 0, 0, 0, 0, 0x00]);
    v.extend([0xFF, 0xDA, 0x00, 0x08, 0x01, 0x01, 0x00, 0x00, 0x3F, 0x00]);
    v.extend([0x00, 0xFF, 0xD9]);
    let h = JPEGHeader::new(v).unwrap();
    assert!(h.jfif.is_none());
    assert_eq!(h.mcus.len(), 1);
}

#[test]
fn app0_with_thumbnail_keeps_its_bytes() {
    let mut v = soi();
    // a 1x1 thumbnail of three bytes follows the fixed JFIF fields
    v.extend([
        0xFF, 0xE0, 0x00, 0x13, 0x4A, 0x46, 0x49, 0x46, 0x00, 0x01, 0x02, 0x01, 0x00, 0x48, 0x00,
        0x48, 0x01, 0x01, 0x10, 0x20, 0x30,
    ]);
    v.extend(dqt());
    v.extend(sof0());
    v.extend(dht_dc_simple());
    v.extend([0xFF, 0xC4, 0x00, 0x14, 0x10, 1, 0, 0, 0, 0, 0, 0, 0, 0, 0, 0, 0, 0, 0, 0, 0, 0x00]);
    v.extend([0xFF, 0xDA, 0x00, 0x08, 0x01, 0x01, 0x00, 0x00, 0x3F, 0x00]);
    v.extend([0x00, 0xFF, 0xD9]);
    let h = JPEGHeader::new(v).unwrap();
    let ap = h.jfif.as_ref().unwrap();
    assert_eq!(ap.major_version, 1);
    assert_eq!(ap.minor_version, 2);
    assert_eq!(ap.x_density, 0x48);
    assert_eq!(ap.y_density, 0x48);
    assert_eq!(ap.x_thumbnail, 1);
    assert_eq!(ap.y_thumbnail, 1);
    assert_eq!(ap.thumbnail_data, vec![0x10, 0x20, 0x30]);
}
