use babushka_core::headers::{
    read_u32_le, read_u64_le, RequestType, ResponseType, CALLBACK_INDEX_END, HEADER_END,
    KEY_LENGTH_SIZE, MESSAGE_LENGTH_END, POINTER_SIZE,
};

#[test]
fn header_layout() {
    assert_eq!(MESSAGE_LENGTH_END, 4);
    assert_eq!(CALLBACK_INDEX_END, 8);
    assert_eq!(HEADER_END, 12);
    assert_eq!(KEY_LENGTH_SIZE, 4);
    assert_eq!(POINTER_SIZE, 8);
}

#[test]
fn request_type_numbers() {
    assert_eq!(RequestType::ServerAddress.to_u32(), 0);
    assert_eq!(RequestType::GetString.to_u32(), 1);
    assert_eq!(RequestType::SetString.to_u32(), 2);
    assert_eq!(RequestType::from_u32(0), Some(RequestType::ServerAddress));
    assert_eq!(RequestType::from_u32(1), Some(RequestType::GetString));
    assert_eq!(RequestType::from_u32(2), Some(RequestType::SetString));
    assert_eq!(RequestType::from_u32(3), None);
    assert_eq!(RequestType::from_u32(u32::MAX), None);
}

#[test]
fn response_type_numbers() {
    assert_eq!(ResponseType::Null.to_u32(), 0);
    assert_eq!(ResponseType::Value.to_u32(), 1);
    assert_eq!(ResponseType::RequestError.to_u32(), 2);
    assert_eq!(ResponseType::ClosingError.to_u32(), 3);
    for code in 0..4 {
        assert_eq!(ResponseType::from_u32(code).map(|t| t.to_u32()), Some(code));
    }
    assert_eq!(ResponseType::from_u32(4), None);
}

#[test]
fn reads_little_endian_u32() {
    let bytes = [0xff, 0x78, 0x56, 0x34, 0x12, 0xff];
    assert_eq!(read_u32_le(&bytes, 1), 0x1234_5678);
    assert_eq!(read_u32_le(&[0xff, 0xff, 0xff, 0xff], 0), u32::MAX);
    assert_eq!(read_u32_le(&[0, 0, 0, 0], 0), 0);
    assert_eq!(read_u32_le(&[0, 1, 0, 0], 0), 256);
}

#[test]
fn reads_little_endian_u64() {
    let bytes = [8, 7, 6, 5, 4, 3, 2, 1];
    assert_eq!(read_u64_le(&bytes, 0), 0x0102_0304_0506_0708);
    assert_eq!(read_u64_le(&[0xff; 9], 1), u64::MAX);
    assert_eq!(read_u64_le(&[0, 0, 0, 0, 1, 0, 0, 0], 0), 1 << 32);
}
