use rmodbus::crc::calc_rtu_crc;

#[test]
fn crc_of_reference_read_request() {
    let frame = [0x01u8, 0x03, 0x00, 0x00, 0x00, 0x0A];
    assert_eq!(calc_rtu_crc(&frame, 6), 0xCDC5);
}

#[test]
fn crc_of_reference_write_coil_request() {
    let frame = [0x01u8, 0x05, 0x00, 0x00, 0xFF, 0x00];
    assert_eq!(calc_rtu_crc(&frame, 6), 0x3A8C);
}

#[test]
fn crc_covers_only_the_leading_bytes() {
    let frame = [0x01u8, 0x03, 0x00, 0x00, 0x00, 0x0A, 0x55, 0x66];
    assert_eq!(calc_rtu_crc(&frame, 6), 0xCDC5);
}

#[test]
fn crc_of_nothing_is_initial_value() {
    let frame: [u8; 0] = [];
    assert_eq!(calc_rtu_crc(&frame, 0), 0xFFFF);
}
