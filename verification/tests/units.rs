use jpeg_decoder::bitreader::BitReader;
use jpeg_decoder::decoder::{decode_mcus, extend_signed, zero_block, MCU};
use jpeg_decoder::error::{Error, HuffmanDecodingError};
use jpeg_decoder::huffman::{get_next_symbol, HuffmanTable};
use jpeg_decoder::markers::Marker;
use jpeg_decoder::stream::ByteStream;
use jpeg_decoder::zigzag::zigzag;

fn table_with(counts: [u8; 16], symbols: &[u8]) -> HuffmanTable {
    let mut t = HuffmanTable::default();
    let mut total: u8 = 0;
    for k in 0..16 {
        total += counts[k];
        t.offsets[k + 1] = total;
    }
    for (k, s) in symbols.iter().enumerate() {
        t.symbols[k] = *s;
    }
    t.is_set = true;
    t
}

#[test]
fn bits_come_out_most_significant_first() {
    let data = vec![0b1010_0000u8];
    let mut r = BitReader::new();
    assert_eq!(r.read_bit(&data), Some(1));
    assert_eq!(r.read_bit(&data), Some(0));
    assert_eq!(r.read_bit(&data), Some(1));
    assert_eq!(r.read_bit(&data), Some(0));
}

#[test]
fn bit_reading_crosses_byte_boundaries() {
    let data = vec![0b0000_0001u8, 0b1000_0000u8];
    let mut r = BitReader::new();
    assert_eq!(r.read_length(&data, 7), Some(0));
    assert_eq!(r.read_length(&data, 2), Some(0b11));
}

#[test]
fn read_length_accumulates_msb_first() {
    let data = vec![0b1010_0000u8];
    let mut r = BitReader::new();
    assert_eq!(r.read_length(&data, 3), Some(0b101));
}

#[test]
fn reading_past_the_end_is_none() {
    let data = vec![0xFFu8];
    let mut r = BitReader::new();
    assert_eq!(r.read_length(&data, 8), Some(0xFF));
    assert_eq!(r.read_bit(&data), None);
    assert_eq!(r.read_length(&data, 1), None);
}

#[test]
fn align_skips_a_partial_byte_only() {
    let data = vec![0xFFu8, 0x0F];
    let mut r = BitReader::new();
    r.align(&data);
    assert_eq!(r.read_bit(&data), Some(1));
    r.align(&data);
    assert_eq!(r.read_length(&data, 4), Some(0));
}

#[test]
fn byte_stream_reads_big_endian_pairs() {
    let mut s = ByteStream::new(vec![0x12, 0x34, 0x56]);
    assert_eq!(s.read_u16(), Some(0x1234));
    assert_eq!(s.peek(), Some(0x56));
    assert_eq!(s.next(), Some(0x56));
    assert_eq!(s.next(), None);
    assert_eq!(s.read_u16(), None);
}

#[test]
fn zigzag_maps_scan_order_to_natural_order() {
    assert_eq!(zigzag(0), 0);
    assert_eq!(zigzag(1), 1);
    assert_eq!(zigzag(2), 8);
    assert_eq!(zigzag(5), 2);
    assert_eq!(zigzag(63), 63);
}

#[test]
fn canonical_codes_follow_the_length_counts() {
    // two symbols of length two and one of length three: the bases are
    // 0 for length two and 2 * (0 + 2) = 4 for length three
    let mut t = table_with([0, 2, 1, 0, 0, 0, 0, 0, 0, 0, 0, 0, 0, 0, 0, 0], &[0xA, 0xB, 0xC]);
    t.generate_codes();
    assert_eq!(t.codes[0], 0b00);
    assert_eq!(t.codes[1], 0b01);
    assert_eq!(t.codes[2], 0b100);
    assert_eq!(t.offsets[0], 0);
    assert_eq!(t.offsets[16], 3);
}

#[test]
fn symbol_lookup_matches_codes_by_length() {
    let mut t = table_with([0, 2, 1, 0, 0, 0, 0, 0, 0, 0, 0, 0, 0, 0, 0, 0], &[0xA, 0xB, 0xC]);
    t.generate_codes();
    // bits 01 pick the second length-two symbol; bits 100 the length-three one
    let data = vec![0b0110_0000u8];
    let mut r = BitReader::new();
    assert_eq!(get_next_symbol(&mut r, &data, &t), Ok(0xB));
    assert_eq!(get_next_symbol(&mut r, &data, &t), Ok(0xC));
}

#[test]
fn symbol_lookup_fails_after_sixteen_bits() {
    let mut t = table_with([1, 0, 0, 0, 0, 0, 0, 0, 0, 0, 0, 0, 0, 0, 0, 0], &[0x00]);
    t.generate_codes();
    let data = vec![0xFFu8, 0xFF, 0xFF];
    let mut r = BitReader::new();
    assert_eq!(get_next_symbol(&mut r, &data, &t), Err(HuffmanDecodingError::SymbolNotFound));
}

#[test]
fn sign_extension_recovers_negative_values() {
    // a 3-bit raw value below 4 codes the negatives of [-7, -4]
    assert_eq!(extend_signed(3, 0b000), -7);
    assert_eq!(extend_signed(3, 0b011), -4);
    assert_eq!(extend_signed(3, 0b100), 4);
    assert_eq!(extend_signed(3, 0b111), 7);
    assert_eq!(extend_signed(0, 0), 0);
    assert_eq!(extend_signed(1, 0), -1);
    assert_eq!(extend_signed(1, 1), 1);
}

#[test]
fn block_decoding_tracks_the_dc_predictor() {
    // DC table: one length-one symbol asking for a 2-bit value;
    // AC table: one length-one end-of-block symbol
    let mut dc = table_with([1, 0, 0, 0, 0, 0, 0, 0, 0, 0, 0, 0, 0, 0, 0, 0], &[0x02]);
    dc.generate_codes();
    let mut ac = table_with([1, 0, 0, 0, 0, 0, 0, 0, 0, 0, 0, 0, 0, 0, 0, 0], &[0x00]);
    ac.generate_codes();
    // two blocks of four bits each: DC code 0, raw 01 (decodes to -2), EOB
    let data = vec![0b0010_0010u8];
    let mut r = BitReader::new();
    let mut prev: i32 = 0;
    let b1 = decode_mcus(&mut r, &data, &mut prev, &dc, &ac).unwrap();
    assert_eq!(b1[0], -2);
    assert_eq!(prev, -2);
    assert_eq!(b1[1], 0);
    let b2 = decode_mcus(&mut r, &data, &mut prev, &dc, &ac).unwrap();
    // the second difference of -2 accumulates onto the predictor
    assert_eq!(b2[0], -4);
    assert_eq!(prev, -4);
}

#[test]
fn ac_coefficients_land_at_zigzag_positions() {
    let mut dc = table_with([1, 0, 0, 0, 0, 0, 0, 0, 0, 0, 0, 0, 0, 0, 0, 0], &[0x00]);
    dc.generate_codes();
    // AC symbols of length one and two: 0x11 skips one zero then reads one
    // bit; 0x00 ends the block
    let mut ac = table_with([1, 1, 0, 0, 0, 0, 0, 0, 0, 0, 0, 0, 0, 0, 0, 0], &[0x11, 0x00]);
    ac.generate_codes();
    // DC 0 bits; AC: code 0 -> 0x11, coefficient bit 1 -> +1 at scan
    // position 2 (natural position 8); then code 10 -> end of block
    let data = vec![0b0_0_1_10_000u8];
    let mut r = BitReader::new();
    let mut prev: i32 = 0;
    let b = decode_mcus(&mut r, &data, &mut prev, &dc, &ac).unwrap();
    assert_eq!(b[0], 0);
    assert_eq!(b[8], 1);
    let zeroes: i32 = b.iter().map(|c| if *c == 0 { 1 } else { 0 }).sum();
    assert_eq!(zeroes, 63);
}

#[test]
fn scan_unstuffs_and_consumes_restart_markers() {
    let mut s = ByteStream::new(vec![
        0x01, 0xFF, 0x00, 0x02, 0xFF, 0xD0, 0x03, 0xFF, 0xD7, 0x04, 0xFF, 0xD9,
    ]);
    let mut out: Vec<u8> = Vec::new();
    assert_eq!(Marker::scan(&mut s, &mut out), Ok(()));
    assert_eq!(out, vec![0x01, 0xFF, 0x02, 0x03, 0x04]);
    assert_eq!(out[1], 0xFF);
}

#[test]
fn scan_without_end_marker_ends_prematurely() {
    let mut s = ByteStream::new(vec![0x01, 0x02]);
    let mut out: Vec<u8> = Vec::new();
    assert_eq!(Marker::scan(&mut s, &mut out), Err(Error::PrematureEnd));
}

#[test]
fn scan_stops_at_an_out_of_band_marker() {
    let mut s = ByteStream::new(vec![0x01, 0xFF, 0xC4, 0x02]);
    let mut out: Vec<u8> = Vec::new();
    assert_eq!(Marker::scan(&mut s, &mut out), Ok(()));
    assert_eq!(out, vec![0x01]);
}

#[test]
fn marker_codes_are_recognized() {
    assert_eq!(Marker::new(0xD8), Some(Marker::SOI));
    assert_eq!(Marker::new(0xD9), Some(Marker::EOI));
    assert_eq!(Marker::new(0xC0), Some(Marker::SOF0));
    assert_eq!(Marker::new(0xC4), Some(Marker::DHT));
    assert_eq!(Marker::new(0xCD), Some(Marker::SOFN));
    assert_eq!(Marker::new(0xDB), Some(Marker::DQT));
    assert_eq!(Marker::new(0xDA), Some(Marker::SOS));
    assert_eq!(Marker::new(0xE1), Some(Marker::APP1));
    assert_eq!(Marker::new(0x02), None);
}

#[test]
fn mcu_components_are_indexed_in_frame_order() {
    let mut m = MCU::default();
    m.c1 = zero_block();
    m.c1[0] = 7;
    assert_eq!(m.component(0)[0], 0);
    assert_eq!(m.component(1)[0], 7);
    assert_eq!(m.component(2)[0], 0);
}

#[test]
fn skippable_marker_with_malformed_length_is_refused() {
    let mut s = ByteStream::new(vec![0x00, 0x01, 0xAA]);
    assert_eq!(Marker::skip_sized_marker(&mut s), Err(Error::InvalidMarker));
    let mut s = ByteStream::new(vec![0x00, 0x00]);
    assert_eq!(Marker::skip_sized_marker(&mut s), Err(Error::InvalidMarker));
}
