use hrm_core::encoding::payload_hex;
use hrm_core::heart_rate::{bytes_to_data, ticks_to_ms, HeartRate, HeartRateError};

#[test]
fn round_trip_decode() {
    let payload: Vec<u8> = vec![0x10, 0x3C, 0x00, 0x04];
    let hr = HeartRate::new(&payload).unwrap();
    assert_eq!(hr.bpm(), 60);
    assert_eq!(hr.rr().as_ref().unwrap(), &vec![1048u16]);
    assert!(!hr.anomalous());
}

#[test]
fn no_rr_flag() {
    let payload: Vec<u8> = vec![0x00, 0x46];
    let hr = HeartRate::new(&payload).unwrap();
    assert_eq!(hr.bpm(), 0x46);
    assert!(hr.rr().is_none());
}

#[test]
fn short_buffer() {
    let payload: Vec<u8> = vec![0x10];
    let r = HeartRate::new(&payload);
    assert!(matches!(r, Err(HeartRateError::InvalidLength)));
}

#[test]
fn empty_buffer() {
    let payload: Vec<u8> = vec![];
    let r = HeartRate::new(&payload);
    assert!(matches!(r, Err(HeartRateError::InvalidLength)));
}

#[test]
fn multiple_rr_fields() {
    let payload: Vec<u8> = vec![0x10, 0x3C, 0x00, 0x04, 0x00, 0x08];
    let hr = HeartRate::new(&payload).unwrap();
    assert_eq!(hr.bpm(), 60);
    assert_eq!(hr.rr().as_ref().unwrap(), &vec![1048u16, 2097u16]);
}

#[test]
fn rr_flag_set_but_no_fields() {
    // Flag bit set but no bytes after flags and bpm: zero R-R fields.
    let payload: Vec<u8> = vec![0x10, 0x50];
    let hr = HeartRate::new(&payload).unwrap();
    assert!(hr.rr().is_none());
}

#[test]
fn anomalous_rr_field_is_flagged() {
    // Raw ticks 0x8000 read as negative under a signed interpretation;
    // the field is protocol-defined unsigned, so the value converts as
    // unsigned and the sample is flagged.
    let payload: Vec<u8> = vec![0x10, 0x3C, 0x00, 0x80];
    let hr = HeartRate::new(&payload).unwrap();
    assert!(hr.anomalous());
    // 32768 * 128 / 125 = 33554
    assert_eq!(hr.rr().as_ref().unwrap(), &vec![33554u16]);
}

#[test]
fn bytes_to_data_width_one() {
    assert_eq!(bytes_to_data(&[0x7F], 1), 127);
    assert_eq!(bytes_to_data(&[0x80], 1), -128);
    assert_eq!(bytes_to_data(&[0xFF], 1), -1);
}

#[test]
fn bytes_to_data_width_two() {
    assert_eq!(bytes_to_data(&[0x00, 0x04], 2), 1024);
    assert_eq!(bytes_to_data(&[0xFF, 0xFF], 2), -1);
    assert_eq!(bytes_to_data(&[0x00, 0x80], 2), -32768);
    assert_eq!(bytes_to_data(&[0x34, 0x12], 2), 0x1234);
}

#[test]
fn bytes_to_data_width_three() {
    assert_eq!(bytes_to_data(&[0x56, 0x34, 0x12], 3), 0x123456);
    assert_eq!(bytes_to_data(&[0xFF, 0xFF, 0xFF], 3), -1);
    assert_eq!(bytes_to_data(&[0x00, 0x00, 0x80], 3), -8388608);
}

#[test]
fn ticks_to_ms_converts_1024ths() {
    assert_eq!(ticks_to_ms(1024), 1048);
    assert_eq!(ticks_to_ms(2048), 2097);
    assert_eq!(ticks_to_ms(0), 0);
    assert_eq!(ticks_to_ms(125), 128);
}

#[test]
fn payload_hex_is_lowercase_two_digits_per_byte() {
    let payload: Vec<u8> = vec![0x10, 0x3C, 0x00, 0xAB];
    assert_eq!(payload_hex(&payload), "103c00ab");
    let empty: Vec<u8> = vec![];
    assert_eq!(payload_hex(&empty), "");
}
