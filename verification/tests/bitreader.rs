use vuio_codec_dts::{
    BitReader, Error,
};

#[test]
fn read_single_bits() {
    let mut br = BitReader::new(&[0xB2]);
    assert!(br.read_bit().unwrap());
    assert!(!br.read_bit().unwrap());
    assert!(br.read_bit().unwrap());
    assert!(br.read_bit().unwrap());
    assert!(!br.read_bit().unwrap());
    assert!(!br.read_bit().unwrap());
    assert!(br.read_bit().unwrap());
    assert!(!br.read_bit().unwrap());
    assert_eq!(br.position_bits(), 8);
}

#[test]
fn read_multi_byte_field() {
    let bytes = [0x7F, 0xFE, 0x80, 0x01];
    let mut br = BitReader::new(&bytes);
    assert_eq!(br.read_bits(32).unwrap(), 0x7FFE_8001);
    assert_eq!(br.position_bits(), 32);
}

#[test]
fn read_crosses_byte_boundary() {
    let bytes = [0xFF, 0xF0];
    let mut br = BitReader::new(&bytes);
    assert_eq!(br.read_bits(12).unwrap(), 0xFFF);
    assert_eq!(br.read_bits(4).unwrap(), 0);
}

#[test]
fn read_from_byte_offset_skips_sync() {
    let bytes = [0x7F, 0xFE, 0x80, 0x01, 0b1000_0000];
    let mut br = BitReader::from_byte_offset(&bytes, 4);
    assert!(br.read_bit().unwrap());
    assert_eq!(br.position_bits(), 33);
}

#[test]
fn read_past_end_returns_eof() {
    let mut br = BitReader::new(&[0xAA]);
    assert!(br.read_bits(8).is_ok());
    assert_eq!(br.read_bits(1).unwrap_err(), Error::UnexpectedEof);
}

#[test]
fn read_field_at_arbitrary_bit_alignment() {
    let bytes = [0xAA, 0x66, 0b0110_0000];
    let mut br = BitReader::new(&bytes);
    assert_eq!(br.read_bits(7).unwrap(), 0b1010101);
    assert_eq!(br.read_bits(14).unwrap(), 0x0CCC);
    assert_eq!(br.position_bits(), 21);
}
