use feeflash::crc::crc16_ccitt;

#[test]
fn crc_length_insensitive_beyond_64() {
    let mut data = vec![0u8; 100];
    data[0] = 0x12;
    let c1 = crc16_ccitt(&data[..64]);
    let c2 = crc16_ccitt(&data);
    assert_eq!(c1, c2);
}

#[test]
fn crc_of_zero_block_is_zero() {
    assert_eq!(crc16_ccitt(&[0u8; 64]), 0);
}

#[test]
fn crc_of_check_string_padded_with_zeros() {
    let mut data = b"123456789".to_vec();
    data.resize(64, 0);
    assert_eq!(crc16_ccitt(&data), 0xD344);
}

#[test]
fn crc_of_counting_block() {
    let data: Vec<u8> = (0u8..64).collect();
    assert_eq!(crc16_ccitt(&data), 0x2BF5);
}

#[test]
fn crc_same_block_same_value() {
    let data: Vec<u8> = (0u8..64).map(|b| b.wrapping_mul(37)).collect();
    assert_eq!(crc16_ccitt(&data), crc16_ccitt(&data.clone()));
}

#[test]
fn crc_ignores_bytes_past_window() {
    let mut a: Vec<u8> = (0u8..64).collect();
    let mut b = a.clone();
    a.extend_from_slice(&[1, 2, 3]);
    b.extend_from_slice(&[0xAA; 40]);
    assert_eq!(crc16_ccitt(&a), crc16_ccitt(&b));
    assert_eq!(crc16_ccitt(&a), 0x2BF5);
}
