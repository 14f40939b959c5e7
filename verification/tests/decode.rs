use jpeg_decoder::error::{Error, HuffmanDecodingError, SOSError};
use jpeg_decoder::header::JPEGHeader;

fn soi() -> Vec<u8> {
    vec![0xFF, 0xD8]
}

fn app0() -> Vec<u8> {
    vec![
        0xFF, 0xE0, 0x00, 0x10, 0x4A, 0x46, 0x49, 0x46, 0x00, 0x01, 0x01, 0x00, 0x00, 0x01, 0x00,
        0x01, 0x00, 0x00,
    ]
}

fn dqt() -> Vec<u8> {
    // one 8-bit table at destination 0, entry i carries the value i + 1
    let mut v = vec![0xFF, 0xDB, 0x00, 0x43, 0x00];
    for i in 0..64u8 {
        v.push(i + 1);
    }
    v
}

fn sof0(width: u16, height: u16) -> Vec<u8> {
    let mut v = vec![0xFF, 0xC0, 0x00, 0x0B, 0x08];
    v.extend([(height >> 8) as u8, height as u8, (width >> 8) as u8, width as u8]);
    v.extend([0x01, 0x01, 0x11, 0x00]);
    v
}

fn dht(info: u8, counts: [u8; 16], symbols: &[u8]) -> Vec<u8> {
    let length = 2 + 1 + 16 + symbols.len() as u16;
    let mut v = vec![0xFF, 0xC4, (length >> 8) as u8, length as u8, info];
    v.extend(counts);
    v.extend(symbols);
    v
}

fn dht_dc_simple() -> Vec<u8> {
    // DC table 0: one symbol (coefficient length 0) with code length 1
    dht(0x00, [1, 0, 0, 0, 0, 0, 0, 0, 0, 0, 0, 0, 0, 0, 0, 0], &[0x00])
}

fn dht_ac_simple() -> Vec<u8> {
    // AC table 0: one symbol (end of block) with code length 1
    dht(0x10, [1, 0, 0, 0, 0, 0, 0, 0, 0, 0, 0, 0, 0, 0, 0, 0], &[0x00])
}

fn sos() -> Vec<u8> {
    vec![0xFF, 0xDA, 0x00, 0x08, 0x01, 0x01, 0x00, 0x00, 0x3F, 0x00]
}

fn jpeg_with_entropy(entropy: &[u8]) -> Vec<u8> {
    let mut v = soi();
    v.extend(app0());
    v.extend(dqt());
    v.extend(sof0(1, 1));
    v.extend(dht_dc_simple());
    v.extend(dht_ac_simple());
    v.extend(sos());
    v.extend(entropy);
    v.extend([0xFF, 0xD9]);
    v
}

#[test]
fn minimal_jpeg_decodes() {
    let h = JPEGHeader::new(jpeg_with_entropy(&[0x00])).unwrap();
    assert_eq!(h.width, 1);
    assert_eq!(h.height, 1);
    assert_eq!(h.mcus.len(), 1);
    assert_eq!(h.restart_interval, 0);
    assert!(h.is_sof_set);
    assert!(h.components[0].is_used_sof);
    assert!(h.components[0].is_used_sos);
    assert!(h.qtables[h.components[0].qtable as usize].is_set);
    assert!(h.huffman_tables_dc[h.components[0].huffman_table_dc_id as usize].is_set);
    assert!(h.huffman_tables_ac[h.components[0].huffman_table_ac_id as usize].is_set);
    assert_eq!(h.start_of_selection, 0);
    assert_eq!(h.end_of_selection, 0x3F);
    assert_eq!(h.components[0].id, 1);
    assert_eq!(h.components[0].hfactor, 1);
    assert_eq!(h.components[0].vfactor, 1);
}

#[test]
fn declared_dimensions_are_preserved() {
    let mut v = soi();
    v.extend(dqt());
    v.extend(sof0(300, 200));
    v.extend(dht_dc_simple());
    v.extend(dht_ac_simple());
    v.extend(sos());
    // 25 x 38 MCUs at six bits each: 5700 bits of zeros
    v.extend(vec![0u8; 713]);
    v.extend([0xFF, 0xD9]);
    let h = JPEGHeader::new(v).unwrap();
    assert_eq!(h.width, 300);
    assert_eq!(h.height, 200);
    assert_eq!(h.mcus.len(), 25 * 38);
}

#[test]
fn jfif_segment_is_recorded() {
    let h = JPEGHeader::new(jpeg_with_entropy(&[0x00])).unwrap();
    let ap = h.jfif.as_ref().unwrap();
    assert_eq!(ap.major_version, 1);
    assert_eq!(ap.minor_version, 1);
    assert_eq!(ap.x_density, 1);
    assert_eq!(ap.y_density, 1);
    assert_eq!(ap.x_thumbnail, 0);
    assert_eq!(ap.y_thumbnail, 0);
    assert_eq!(ap.thumbnail_data.len(), 0);
}

#[test]
fn quantization_entries_are_stored_in_natural_order() {
    let h = JPEGHeader::new(jpeg_with_entropy(&[0x00])).unwrap();
    let table = &h.qtables[0];
    assert!(table.is_set);
    // the first transmitted entry lands at natural position 0, and the
    // sixth transmitted entry (value 6) at natural position 2
    assert_eq!(table.table[0], 1);
    assert_eq!(table.table[2], 6);
    assert_eq!(table.table[8], 3);
}

#[test]
fn scan_data_is_extracted() {
    let h = JPEGHeader::new(jpeg_with_entropy(&[0x00])).unwrap();
    assert_eq!(h.huffman_data, vec![0x00]);
}

#[test]
fn byte_stuffing_unescapes_in_scan_buffer() {
    let h = JPEGHeader::new(jpeg_with_entropy(&[0x00, 0xFF, 0x00])).unwrap();
    assert_eq!(h.huffman_data, vec![0x00, 0xFF]);
    assert_eq!(h.huffman_data[1], 0xFF);
}

#[test]
fn bytes_before_soi_are_skipped() {
    let mut v = vec![0x00, 0x00];
    v.extend(jpeg_with_entropy(&[0x00]));
    let h = JPEGHeader::new(v).unwrap();
    assert_eq!(h.width, 1);
}

#[test]
fn repeated_fill_bytes_before_marker_code_are_accepted() {
    let mut v = soi();
    v.extend(app0());
    v.extend([0xFF, 0xFF, 0xFF]);
    v.extend(dqt());
    v.extend(sof0(1, 1));
    v.extend(dht_dc_simple());
    v.extend(dht_ac_simple());
    v.extend(sos());
    v.extend([0x00, 0xFF, 0xD9]);
    let h = JPEGHeader::new(v).unwrap();
    assert_eq!(h.mcus.len(), 1);
}

#[test]
fn empty_stream_has_no_soi() {
    assert_eq!(JPEGHeader::new(vec![]).unwrap_err(), Error::StartOfImageNotFound);
}

#[test]
fn stream_without_soi_is_refused() {
    assert_eq!(JPEGHeader::new(vec![0x41, 0x42, 0x43]).unwrap_err(), Error::StartOfImageNotFound);
}

#[test]
fn soi_alone_is_no_data() {
    assert_eq!(JPEGHeader::new(vec![0xFF, 0xD8]).unwrap_err(), Error::NoData);
}

#[test]
fn two_frame_headers_are_refused() {
    let mut v = soi();
    v.extend(dqt());
    v.extend(sof0(1, 1));
    v.extend(sof0(1, 1));
    v.extend(dht_dc_simple());
    v.extend(sos());
    v.extend([0x00, 0xFF, 0xD9]);
    assert_eq!(JPEGHeader::new(v).unwrap_err(), Error::MultipleSOF);
}

#[test]
fn scan_before_frame_header_is_refused() {
    let mut v = soi();
    v.extend(dqt());
    v.extend(sos());
    v.extend(sof0(1, 1));
    v.extend([0x00, 0xFF, 0xD9]);
    assert_eq!(JPEGHeader::new(v).unwrap_err(), Error::InvalidSOSMarker(SOSError::InvalidOrder));
}

#[test]
fn second_soi_is_refused() {
    let mut v = soi();
    v.extend(app0());
    v.extend(soi());
    v.extend(dqt());
    assert_eq!(JPEGHeader::new(v).unwrap_err(), Error::MultipleSOI);
}

#[test]
fn unknown_marker_is_refused() {
    let mut v = soi();
    v.extend([0xFF, 0x02]);
    assert_eq!(JPEGHeader::new(v).unwrap_err(), Error::UnknownMarker(0x02));
}

#[test]
fn end_of_image_before_scan_is_refused() {
    let mut v = soi();
    v.extend([0xFF, 0xD9]);
    assert_eq!(JPEGHeader::new(v).unwrap_err(), Error::EndOfImageBeforeSOS);
}

#[test]
fn restart_marker_before_scan_is_refused() {
    let mut v = soi();
    v.extend([0xFF, 0xD0]);
    assert_eq!(JPEGHeader::new(v).unwrap_err(), Error::RestartMarkerBeforeSOS);
}

#[test]
fn trailing_ff_without_code_is_refused() {
    let v = vec![0xFF, 0xD8, 0xFF];
    assert_eq!(JPEGHeader::new(v).unwrap_err(), Error::InvalidMarker);
}

#[test]
fn missing_frame_header_is_reported() {
    let mut v = soi();
    v.extend(dqt());
    v.extend(dht_dc_simple());
    assert_eq!(JPEGHeader::new(v).unwrap_err(), Error::StartOfFrameNotFound);
}

#[test]
fn missing_quantization_table_is_reported() {
    let mut v = soi();
    v.extend(sof0(1, 1));
    v.extend(dht_dc_simple());
    assert_eq!(JPEGHeader::new(v).unwrap_err(), Error::QTableNotFound);
}

#[test]
fn missing_huffman_table_is_reported() {
    let mut v = soi();
    v.extend(dqt());
    v.extend(sof0(1, 1));
    assert_eq!(JPEGHeader::new(v).unwrap_err(), Error::HTableNotFound);
}

#[test]
fn missing_scan_is_reported() {
    let mut v = soi();
    v.extend(dqt());
    v.extend(sof0(1, 1));
    v.extend(dht_dc_simple());
    assert_eq!(JPEGHeader::new(v).unwrap_err(), Error::SOSNotFound);
}

#[test]
fn scan_without_end_of_image_is_premature() {
    let mut v = soi();
    v.extend(app0());
    v.extend(dqt());
    v.extend(sof0(1, 1));
    v.extend(dht_dc_simple());
    v.extend(dht_ac_simple());
    v.extend(sos());
    v.extend([0x00]);
    assert_eq!(JPEGHeader::new(v).unwrap_err(), Error::PrematureEnd);
}

#[test]
fn component_with_unset_table_is_refused() {
    // the scan selects DC table 1, which no DHT segment filled
    let mut v = soi();
    v.extend(dqt());
    v.extend(sof0(1, 1));
    v.extend(dht_dc_simple());
    v.extend(dht_ac_simple());
    v.extend([0xFF, 0xDA, 0x00, 0x08, 0x01, 0x01, 0x10, 0x00, 0x3F, 0x00]);
    v.extend([0x00, 0xFF, 0xD9]);
    assert_eq!(JPEGHeader::new(v).unwrap_err(), Error::InvalidColorComponent);
}

#[test]
fn empty_entropy_data_reads_past_length() {
    let v = jpeg_with_entropy(&[]);
    assert_eq!(        JPEGHeader::new(v).unwrap_err(), Error::HuffmanDecode(HuffmanDecodingError::ReadPastLength));
}

#[test]
fn unmatchable_code_is_symbol_not_found() {
    // sixteen one-bits never match the single zero code of length one
    let v = jpeg_with_entropy(&[0xFF, 0x00, 0xFF, 0x00]);
    assert_eq!(        JPEGHeader::new(v).unwrap_err(), Error::HuffmanDecode(HuffmanDecodingError::SymbolNotFound));
}

#[test]
fn dc_length_over_eleven_is_refused() {
    let mut v = soi();
    v.extend(dqt());
    v.extend(sof0(1, 1));
    // DC table whose only symbol asks for a 12-bit coefficient
    v.extend(dht(0x00, [1, 0, 0, 0, 0, 0, 0, 0, 0, 0, 0, 0, 0, 0, 0, 0], &[0x0C]));
    v.extend(dht_ac_simple());
    v.extend(sos());
    v.extend([0x00, 0xFF, 0xD9]);
    assert_eq!(        JPEGHeader::new(v).unwrap_err(), Error::HuffmanDecode(HuffmanDecodingError::InvalidDCCoefficientLength));
}

#[test]
fn ac_length_over_ten_is_refused() {
    let mut v = soi();
    v.extend(dqt());
    v.extend(sof0(1, 1));
    v.extend(dht_dc_simple());
    // AC table whose only symbol asks for an 11-bit coefficient
    v.extend(dht(0x10, [1, 0, 0, 0, 0, 0, 0, 0, 0, 0, 0, 0, 0, 0, 0, 0], &[0x0B]));
    v.extend(sos());
    v.extend([0x00, 0xFF, 0xD9]);
    assert_eq!(        JPEGHeader::new(v).unwrap_err(), Error::HuffmanDecode(HuffmanDecodingError::InvalidACCoefficientLength));
}

#[test]
fn zero_runs_past_block_end_are_refused() {
    let mut v = soi();
    v.extend(dqt());
    v.extend(sof0(1, 1));
    v.extend(dht_dc_simple());
    // AC symbol 0xF1: run of fifteen zeros, then a 1-bit coefficient
    v.extend(dht(0x10, [1, 0, 0, 0, 0, 0, 0, 0, 0, 0, 0, 0, 0, 0, 0, 0], &[0xF1]));
    v.extend(sos());
    v.extend([0x00, 0xFF, 0xD9]);
    assert_eq!(        JPEGHeader::new(v).unwrap_err(), Error::HuffmanDecode(HuffmanDecodingError::ZerosExceedMCULength));
}

#[test]
fn restart_interval_zero_decodes_without_alignment() {
    let mut v = soi();
    v.extend(dqt());
    v.extend(sof0(9, 1));
    v.extend(dht_dc_simple());
    v.extend(dht_ac_simple());
    v.extend(sos());
    // two MCUs, six bits each, packed back to back in twelve bits
    v.extend([0x00, 0x00, 0xFF, 0xD9]);
    let h = JPEGHeader::new(v).unwrap();
    assert_eq!(h.restart_interval, 0);
    assert_eq!(h.mcus.len(), 2);
}

#[test]
fn restart_interval_one_realigns_between_mcus() {
    let mut v = soi();
    v.extend(dqt());
    v.extend(sof0(9, 1));
    v.extend(dht_dc_simple());
    v.extend(dht_ac_simple());
    v.extend([0xFF, 0xDD, 0x00, 0x04, 0x00, 0x01]);
    v.extend(sos());
    // the first MCU uses six bits of the first byte; its two padding bits
    // are ones and would derail decoding were the reader not realigned
    v.extend([0x03, 0x00, 0xFF, 0xD9]);
    let h = JPEGHeader::new(v).unwrap();
    assert_eq!(h.restart_interval, 1);
    assert_eq!(h.mcus.len(), 2);
    assert_eq!(h.mcus[1].c0[0], 0);
}

#[test]
fn restart_interval_is_recorded() {
    let mut v = soi();
    v.extend([0xFF, 0xDD, 0x00, 0x04, 0x12, 0x34]);
    v.extend(dqt());
    v.extend(sof0(1, 1));
    v.extend(dht_dc_simple());
    v.extend(dht_ac_simple());
    v.extend(sos());
    v.extend([0x00, 0xFF, 0xD9]);
    let h = JPEGHeader::new(v).unwrap();
    assert_eq!(h.restart_interval, 0x1234);
}

#[test]
fn skippable_markers_are_skipped() {
    let mut v = soi();
    // a comment segment with four payload bytes
    v.extend([0xFF, 0xFE, 0x00, 0x06, 0x41, 0x42, 0x43, 0x44]);
    v.extend(dqt());
    v.extend(sof0(1, 1));
    v.extend(dht_dc_simple());
    v.extend(dht_ac_simple());
    v.extend(sos());
    v.extend([0x00, 0xFF, 0xD9]);
    let h = JPEGHeader::new(v).unwrap();
    assert_eq!(h.mcus.len(), 1);
}

#[test]
fn decoded_dc_coefficient_lands_in_first_mcu() {
    let mut v = soi();
    v.extend(dqt());
    v.extend(sof0(1, 1));
    // DC table: one symbol of code length one asking for a 2-bit value
    v.extend(dht(0x00, [1, 0, 0, 0, 0, 0, 0, 0, 0, 0, 0, 0, 0, 0, 0, 0], &[0x02]));
    v.extend(dht_ac_simple());
    v.extend(sos());
    // the single declared component reads DC code 0 and the raw value
    // 0b01 = 1 < 2, which decodes to -2; the undeclared components keep
    // zero blocks and consume no bits
    v.extend([0b0010_0000, 0xFF, 0xD9]);
    let h = JPEGHeader::new(v).unwrap();
    assert_eq!(h.mcus[0].c0[0], -2);
    assert_eq!(h.mcus[0].c0[1], 0);
    assert_eq!(h.mcus[0].c1[0], 0);
    assert_eq!(h.mcus[0].c2[0], 0);
}

#[test]
fn single_component_may_use_nonzero_table_destinations() {
    // every table sits at destination 1; only the one declared component
    // is validated and decoded
    let mut v = soi();
    let mut q = vec![0xFF, 0xDB, 0x00, 0x43, 0x01];
    for i in 0..64u8 {
        q.push(i + 1);
    }
    v.extend(q);
    v.extend([0xFF, 0xC0, 0x00, 0x0B, 0x08, 0x00, 0x01, 0x00, 0x01, 0x01, 0x01, 0x11, 0x01]);
    v.extend(dht(0x01, [1, 0, 0, 0, 0, 0, 0, 0, 0, 0, 0, 0, 0, 0, 0, 0], &[0x00]));
    v.extend(dht(0x11, [1, 0, 0, 0, 0, 0, 0, 0, 0, 0, 0, 0, 0, 0, 0, 0], &[0x00]));
    v.extend([0xFF, 0xDA, 0x00, 0x08, 0x01, 0x01, 0x11, 0x00, 0x3F, 0x00]);
    v.extend([0x00, 0xFF, 0xD9]);
    let h = JPEGHeader::new(v).unwrap();
    assert_eq!(h.mcus.len(), 1);
    assert!(h.qtables[1].is_set);
    assert!(h.huffman_tables_dc[1].is_set);
    assert!(h.huffman_tables_ac[1].is_set);
}

#[test]
fn comment_with_malformed_length_is_refused() {
    let mut v = soi();
    // a comment segment whose stated length is below the two length bytes
    v.extend([0xFF, 0xFE, 0x00, 0x01]);
    v.extend(dqt());
    assert_eq!(JPEGHeader::new(v).unwrap_err(), Error::InvalidMarker);
}
