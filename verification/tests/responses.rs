use babushka_core::headers::ResponseType;
use babushka_core::responses::{
    read_response, write_null_response_header, write_pointer_to_output, write_response,
    write_response_header, HeaderError, Response, ResponseState,
};

#[test]
fn null_response_is_a_bare_header() {
    let mut out = Vec::new();
    write_null_response_header(&mut out, 7);
    assert_eq!(out, vec![12, 0, 0, 0, 7, 0, 0, 0, 0, 0, 0, 0]);
}

#[test]
fn header_fields_are_little_endian() {
    let mut out = Vec::new();
    let written = write_response_header(&mut out, 0x0102_0304, ResponseType::ClosingError, 20);
    assert_eq!(written, Ok(()));
    assert_eq!(out, vec![20, 0, 0, 0, 4, 3, 2, 1, 3, 0, 0, 0]);
}

#[test]
fn pointer_is_eight_little_endian_bytes() {
    let mut out = vec![0xaa];
    write_pointer_to_output(&mut out, 0x0102_0304_0506_0708);
    assert_eq!(out, vec![0xaa, 8, 7, 6, 5, 4, 3, 2, 1]);
}

#[test]
fn value_response_is_header_and_pointer() {
    let mut out = Vec::new();
    write_response(&mut out, Response::Value { callback_index: 3, pointer: 0x1122_3344_5566 });
    assert_eq!(
        out,
        vec![20, 0, 0, 0, 3, 0, 0, 0, 1, 0, 0, 0, 0x66, 0x55, 0x44, 0x33, 0x22, 0x11, 0, 0]
    );
    assert_eq!(
        read_response(&out, 0),
        ResponseState::Complete {
            response: Response::Value { callback_index: 3, pointer: 0x1122_3344_5566 },
            next: 20
        }
    );
}

#[test]
fn oversized_length_is_refused() {
    if usize::BITS > 32 {
        let mut out = vec![1, 2, 3];
        let too_long = (u32::MAX as usize) + 1;
        let written = write_response_header(&mut out, 1, ResponseType::Value, too_long);
        assert_eq!(written, Err(HeaderError::LengthTooLarge));
        assert_eq!(out, vec![1, 2, 3]);
    }
}

#[test]
fn every_response_reads_back() {
    let responses = [
        Response::Null { callback_index: 0 },
        Response::Null { callback_index: u32::MAX },
        Response::Value { callback_index: 1, pointer: 0 },
        Response::Value { callback_index: 2, pointer: u64::MAX },
        Response::RequestError { callback_index: 9, pointer: 0xdead_beef },
        Response::ClosingError { callback_index: u32::MAX, pointer: 0x7fff_0000_1234_5678 },
    ];
    let mut stream = Vec::new();
    for response in responses.iter() {
        write_response(&mut stream, *response);
    }
    assert_eq!(stream.len(), 12 + 12 + 20 * 4);
    let mut cursor = 0;
    for response in responses.iter() {
        match read_response(&stream, cursor) {
            ResponseState::Complete { response: found, next } => {
                assert_eq!(found, *response);
                assert_eq!(found.get_callback_index(), response.get_callback_index());
                assert_eq!(found.get_response_type(), response.get_response_type());
                cursor = next;
            }
            other => panic!("expected a whole frame, found {:?}", other),
        }
    }
    assert_eq!(cursor, stream.len());
    assert_eq!(read_response(&stream, cursor), ResponseState::Partial);
}

#[test]
fn cut_response_is_partial() {
    let mut frame = Vec::new();
    write_response(&mut frame, Response::RequestError { callback_index: 4, pointer: 77 });
    for cut in 0..frame.len() {
        assert_eq!(read_response(&frame[..cut], 0), ResponseState::Partial);
    }
}

#[test]
fn malformed_responses_are_refused() {
    // A length below the header.
    assert_eq!(read_response(&[11, 0, 0, 0], 0), ResponseState::Malformed);
    // A reserved type.
    assert_eq!(
        read_response(&[12, 0, 0, 0, 1, 0, 0, 0, 4, 0, 0, 0], 0),
        ResponseState::Malformed
    );
    // A null response with a body.
    let mut with_body = vec![20, 0, 0, 0, 1, 0, 0, 0, 0, 0, 0, 0];
    with_body.extend_from_slice(&[0; 8]);
    assert_eq!(read_response(&with_body, 0), ResponseState::Malformed);
    // A value response without a pointer.
    assert_eq!(
        read_response(&[12, 0, 0, 0, 1, 0, 0, 0, 1, 0, 0, 0], 0),
        ResponseState::Malformed
    );
}

#[test]
fn header_of_each_type() {
    for (response_type, code) in [
        (ResponseType::Null, 0u8),
        (ResponseType::Value, 1),
        (ResponseType::RequestError, 2),
        (ResponseType::ClosingError, 3),
    ] {
        let mut out = Vec::new();
        assert_eq!(write_response_header(&mut out, 1, response_type, 12), Ok(()));
        assert_eq!(out, vec![12, 0, 0, 0, 1, 0, 0, 0, code, 0, 0, 0]);
    }
}
