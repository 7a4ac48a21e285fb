use babushka_core::requests::{
    write_get_request, write_server_address, write_set_request, FramingError,
};
use babushka_core::rotating_buffer::{
    bytes_in, RequestRanges, RotatingBuffer, WholeRequest, DEFAULT_BUFFER_SIZE,
};

fn payload(request: &WholeRequest) -> (u32, Vec<u8>, Option<Vec<u8>>) {
    match &request.request_type {
        RequestRanges::ServerAddress { address } => (
            request.callback_index,
            bytes_in(&request.buffer, address).to_vec(),
            None,
        ),
        RequestRanges::GetString { key } => {
            (request.callback_index, bytes_in(&request.buffer, key).to_vec(), None)
        }
        RequestRanges::SetString { key, value } => (
            request.callback_index,
            bytes_in(&request.buffer, key).to_vec(),
            Some(bytes_in(&request.buffer, value).to_vec()),
        ),
    }
}

fn kind(request: &WholeRequest) -> u32 {
    match &request.request_type {
        RequestRanges::ServerAddress { .. } => 0,
        RequestRanges::GetString { .. } => 1,
        RequestRanges::SetString { .. } => 2,
    }
}

fn sample_stream() -> Vec<u8> {
    let mut stream = Vec::new();
    assert!(write_server_address(&mut stream, 7, b"redis://127.0.0.1:6379"));
    assert!(write_get_request(&mut stream, 1, b"absent"));
    assert!(write_set_request(&mut stream, 2, b"k", b"v"));
    assert!(write_get_request(&mut stream, 3, b""));
    assert!(write_set_request(&mut stream, 4, b"", b""));
    stream
}

fn check_sample(requests: &[WholeRequest]) {
    assert_eq!(requests.len(), 5);
    assert_eq!(kind(&requests[0]), 0);
    assert_eq!(payload(&requests[0]), (7, b"redis://127.0.0.1:6379".to_vec(), None));
    assert_eq!(kind(&requests[1]), 1);
    assert_eq!(payload(&requests[1]), (1, b"absent".to_vec(), None));
    assert_eq!(kind(&requests[2]), 2);
    assert_eq!(payload(&requests[2]), (2, b"k".to_vec(), Some(b"v".to_vec())));
    assert_eq!(kind(&requests[3]), 1);
    assert_eq!(payload(&requests[3]), (3, Vec::new(), None));
    assert_eq!(kind(&requests[4]), 2);
    assert_eq!(payload(&requests[4]), (4, Vec::new(), Some(Vec::new())));
}

#[test]
fn frames_are_written_as_the_wire_format_says() {
    let mut stream = Vec::new();
    assert!(write_get_request(&mut stream, 1, b"ab"));
    assert_eq!(stream, vec![14, 0, 0, 0, 1, 0, 0, 0, 1, 0, 0, 0, b'a', b'b']);
    let mut stream = Vec::new();
    assert!(write_set_request(&mut stream, 0x0a0b, b"k", b"vw"));
    assert_eq!(
        stream,
        vec![19, 0, 0, 0, 0x0b, 0x0a, 0, 0, 2, 0, 0, 0, 1, 0, 0, 0, b'k', b'v', b'w']
    );
    let mut stream = Vec::new();
    assert!(write_server_address(&mut stream, 9, b"x"));
    assert_eq!(stream, vec![13, 0, 0, 0, 9, 0, 0, 0, 0, 0, 0, 0, b'x']);
}

#[test]
fn new_buffer_is_empty_with_default_capacity() {
    let mut buffer = RotatingBuffer::new();
    assert_eq!(DEFAULT_BUFFER_SIZE, 65_536);
    assert_eq!(buffer.capacity(), 65_536);
    assert_eq!(buffer.len(), 0);
    assert_eq!(buffer.get_requests().unwrap().len(), 0);
    assert_eq!(buffer.capacity(), 65_536);
}

#[test]
fn whole_stream_in_one_read() {
    let mut buffer = RotatingBuffer::new();
    buffer.current_buffer().extend_from_slice(&sample_stream());
    let requests = buffer.get_requests().unwrap();
    check_sample(&requests);
    assert_eq!(buffer.len(), 0);
    assert_eq!(buffer.capacity(), DEFAULT_BUFFER_SIZE);
}

#[test]
fn stream_in_chunks_of_every_size() {
    let stream = sample_stream();
    for size in 1..=stream.len() {
        let mut buffer = RotatingBuffer::new();
        let mut requests = Vec::new();
        for chunk in stream.chunks(size) {
            buffer.current_buffer().extend_from_slice(chunk);
            requests.extend(buffer.get_requests().unwrap());
        }
        check_sample(&requests);
        assert_eq!(buffer.len(), 0);
    }
}

#[test]
fn frame_cut_at_every_offset_appears_once() {
    let mut frame = Vec::new();
    assert!(write_set_request(&mut frame, 11, b"key", b"value"));
    for cut in 1..frame.len() {
        let mut buffer = RotatingBuffer::new();
        buffer.current_buffer().extend_from_slice(&frame[..cut]);
        assert_eq!(buffer.get_requests().unwrap().len(), 0);
        assert_eq!(buffer.len(), cut);
        buffer.current_buffer().extend_from_slice(&frame[cut..]);
        let requests = buffer.get_requests().unwrap();
        assert_eq!(requests.len(), 1);
        assert_eq!(payload(&requests[0]), (11, b"key".to_vec(), Some(b"value".to_vec())));
        assert_eq!(buffer.len(), 0);
        assert_eq!(buffer.get_requests().unwrap().len(), 0);
    }
}

#[test]
fn partial_frame_stays_at_the_head() {
    let mut stream = Vec::new();
    assert!(write_get_request(&mut stream, 1, b"first"));
    assert!(write_get_request(&mut stream, 2, b"second"));
    let cut = stream.len() - 3;
    let mut buffer = RotatingBuffer::new();
    buffer.current_buffer().extend_from_slice(&stream[..cut]);
    let requests = buffer.get_requests().unwrap();
    assert_eq!(requests.len(), 1);
    assert_eq!(payload(&requests[0]), (1, b"first".to_vec(), None));
    assert_eq!(buffer.len(), cut - 17);
    assert_eq!(buffer.current_buffer().as_slice(), &stream[17..cut]);
    buffer.current_buffer().extend_from_slice(&stream[cut..]);
    let later = buffer.get_requests().unwrap();
    assert_eq!(later.len(), 1);
    assert_eq!(payload(&later[0]), (2, b"second".to_vec(), None));
    // The first request still reads its payload from the buffer it shares.
    assert_eq!(payload(&requests[0]), (1, b"first".to_vec(), None));
}

#[test]
fn length_below_header_is_refused() {
    for length in 0..12u8 {
        let mut buffer = RotatingBuffer::new();
        buffer.current_buffer().extend_from_slice(&[length, 0, 0, 0]);
        assert_eq!(
            buffer.get_requests().unwrap_err(),
            FramingError::FrameTooShort { length: length as u32 }
        );
        assert_eq!(buffer.len(), 4);
    }
}

#[test]
fn fewer_than_four_bytes_is_not_an_error() {
    let mut buffer = RotatingBuffer::new();
    buffer.current_buffer().extend_from_slice(&[3, 0, 0]);
    assert_eq!(buffer.get_requests().unwrap().len(), 0);
    assert_eq!(buffer.len(), 3);
}

#[test]
fn reserved_type_is_refused() {
    let mut buffer = RotatingBuffer::new();
    buffer
        .current_buffer()
        .extend_from_slice(&[12, 0, 0, 0, 5, 0, 0, 0, 3, 0, 0, 0]);
    assert_eq!(
        buffer.get_requests().unwrap_err(),
        FramingError::UnknownRequestType { code: 3 }
    );
}

#[test]
fn reserved_type_is_found_only_once_the_frame_is_whole() {
    let mut buffer = RotatingBuffer::new();
    buffer
        .current_buffer()
        .extend_from_slice(&[13, 0, 0, 0, 5, 0, 0, 0, 9, 0, 0, 0]);
    assert_eq!(buffer.get_requests().unwrap().len(), 0);
    buffer.current_buffer().push(0);
    assert_eq!(
        buffer.get_requests().unwrap_err(),
        FramingError::UnknownRequestType { code: 9 }
    );
}

#[test]
fn set_without_key_length_is_refused() {
    let mut buffer = RotatingBuffer::new();
    buffer
        .current_buffer()
        .extend_from_slice(&[15, 0, 0, 0, 5, 0, 0, 0, 2, 0, 0, 0, 1, 2, 3]);
    assert_eq!(
        buffer.get_requests().unwrap_err(),
        FramingError::KeyLengthMissing { length: 15 }
    );
}

#[test]
fn set_with_key_past_the_frame_is_refused() {
    let mut buffer = RotatingBuffer::new();
    buffer
        .current_buffer()
        .extend_from_slice(&[17, 0, 0, 0, 5, 0, 0, 0, 2, 0, 0, 0, 2, 0, 0, 0, b'k']);
    assert_eq!(
        buffer.get_requests().unwrap_err(),
        FramingError::KeyTooLong { key_length: 2, length: 17 }
    );
}

#[test]
fn error_after_whole_frames_leaves_everything_in_place() {
    let mut stream = Vec::new();
    assert!(write_get_request(&mut stream, 1, b"fine"));
    stream.extend_from_slice(&[2, 0, 0, 0]);
    let mut buffer = RotatingBuffer::new();
    buffer.current_buffer().extend_from_slice(&stream);
    assert_eq!(
        buffer.get_requests().unwrap_err(),
        FramingError::FrameTooShort { length: 2 }
    );
    assert_eq!(buffer.len(), stream.len());
    assert_eq!(buffer.current_buffer().as_slice(), stream.as_slice());
}

#[test]
fn oversized_frame_grows_the_buffer_once_and_capacity_comes_back() {
    let key = vec![b'x'; 100_000];
    let mut frame = Vec::new();
    assert!(write_get_request(&mut frame, 5, &key));
    let mut buffer = RotatingBuffer::new();
    buffer.current_buffer().extend_from_slice(&frame[..20]);
    assert_eq!(buffer.get_requests().unwrap().len(), 0);
    // 100 012 bytes need the default doubled once.
    assert_eq!(buffer.capacity(), 131_072);
    buffer.current_buffer().extend_from_slice(&frame[20..]);
    let requests = buffer.get_requests().unwrap();
    assert_eq!(requests.len(), 1);
    assert_eq!(payload(&requests[0]), (5, key.clone(), None));
    assert_eq!(buffer.capacity(), DEFAULT_BUFFER_SIZE);
    drop(requests);
    assert_eq!(buffer.capacity(), DEFAULT_BUFFER_SIZE);
    // A second oversized frame does the same again.
    buffer.current_buffer().extend_from_slice(&frame[..4]);
    assert_eq!(buffer.get_requests().unwrap().len(), 0);
    assert_eq!(buffer.capacity(), 131_072);
    buffer.current_buffer().extend_from_slice(&frame[4..]);
    assert_eq!(buffer.get_requests().unwrap().len(), 1);
    assert_eq!(buffer.capacity(), DEFAULT_BUFFER_SIZE);
}

#[test]
fn capacity_doubles_until_the_frame_fits() {
    let mut buffer = RotatingBuffer::new();
    // A frame of 300 000 bytes is announced.
    buffer.current_buffer().extend_from_slice(&[0xe0, 0x93, 0x04, 0x00]);
    assert_eq!(buffer.get_requests().unwrap().len(), 0);
    assert_eq!(buffer.capacity(), 524_288);
    let mut exact = RotatingBuffer::new();
    // A frame of exactly the default size needs no growth.
    exact.current_buffer().extend_from_slice(&[0x00, 0x00, 0x01, 0x00]);
    assert_eq!(exact.get_requests().unwrap().len(), 0);
    assert_eq!(exact.capacity(), 65_536);
    let mut just_over = RotatingBuffer::new();
    just_over.current_buffer().extend_from_slice(&[0x01, 0x00, 0x01, 0x00]);
    assert_eq!(just_over.get_requests().unwrap().len(), 0);
    assert_eq!(just_over.capacity(), 131_072);
}
