use rv32emu::loader::{decode_hex_to_bytes, load_into_imem, LoadError};

#[test]
fn literals_stored_little_endian() {
    let mut imem = Vec::new();
    let r = load_into_imem(b"0xAABBCCD3\n00700093, 0x00500113", &mut imem);
    assert_eq!(r, Ok(()));
    assert_eq!(
        imem,
        vec![0xD3, 0xCC, 0xBB, 0xAA, 0x93, 0x00, 0x70, 0x00, 0x13, 0x01, 0x50, 0x00]
    );
}

#[test]
fn empty_text_loads_nothing() {
    let mut imem = vec![1u8];
    assert_eq!(load_into_imem(b"  \n;; ", &mut imem), Ok(()));
    assert_eq!(imem, vec![1u8]);
}

#[test]
fn refused_literals() {
    let mut imem = Vec::new();
    // a 16-bit instruction
    assert_eq!(load_into_imem(b"0x0001", &mut imem), Err(LoadError::UnsupportedWidth(16)));
    // odd number of digits
    assert_eq!(load_into_imem(b"0x123", &mut imem), Err(LoadError::MalformedLiteral));
    // a bare prefix
    assert_eq!(load_into_imem(b"0x", &mut imem), Err(LoadError::MalformedLiteral));
    // six bytes whose first byte says 32 bits
    assert_eq!(load_into_imem(b"0x000000000093", &mut imem), Err(LoadError::WrongSize));
    assert!(imem.is_empty());
}

#[test]
fn literals_before_an_error_stay() {
    let mut imem = Vec::new();
    assert_eq!(
        load_into_imem(b"0x00700093 0x12 0x00500113", &mut imem),
        Err(LoadError::WrongSize)
    );
    assert_eq!(imem, vec![0x93, 0x00, 0x70, 0x00]);
}

#[test]
fn hex_pairs_decode() {
    assert_eq!(decode_hex_to_bytes(b"00aBFf"), Some(vec![0x00, 0xAB, 0xFF]));
    assert_eq!(decode_hex_to_bytes(b""), Some(vec![]));
    assert_eq!(decode_hex_to_bytes(b"abc"), None);
    assert_eq!(decode_hex_to_bytes(b"0g"), None);
}
