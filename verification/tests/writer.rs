use babushka_core::headers::ResponseType;
use babushka_core::responses::{read_response, Response, ResponseState};
use babushka_core::writer::{
    write_error, write_redis_value, write_to_output, FlushEvent, FlushStep, ReplyValue, Writer,
};

fn decode(stream: &[u8]) -> Vec<Response> {
    let mut found = Vec::new();
    let mut cursor = 0;
    loop {
        match read_response(stream, cursor) {
            ResponseState::Complete { response, next } => {
                found.push(response);
                cursor = next;
            }
            ResponseState::Partial => {
                assert_eq!(cursor, stream.len());
                return found;
            }
            ResponseState::Malformed => panic!("malformed stream"),
        }
    }
}

/// Drains the writer into `socket`, which takes `step` bytes at a time.
fn drain(writer: &mut Writer, socket: &mut Vec<u8>, step: usize) {
    let mut next = write_to_output(writer, FlushEvent::Requested);
    while next == FlushStep::Write {
        let pending = writer.pending();
        let count = step.min(pending.len());
        socket.extend_from_slice(&pending[..count]);
        next = write_to_output(writer, FlushEvent::Written(count));
    }
    assert_eq!(next, FlushStep::Idle);
}

#[test]
fn new_writer_has_nothing_to_do() {
    let mut writer = Writer::new();
    assert!(!writer.flushing());
    assert_eq!(writer.queued_len(), 0);
    assert_eq!(writer.pending().len(), 0);
    assert_eq!(write_to_output(&mut writer, FlushEvent::Requested), FlushStep::Idle);
    assert!(!writer.flushing());
}

#[test]
fn nil_reply_is_a_null_frame() {
    let mut writer = Writer::new();
    write_redis_value(ReplyValue::Nil, 1, &mut writer);
    assert_eq!(writer.queued_len(), 12);
    let mut socket = Vec::new();
    drain(&mut writer, &mut socket, 100);
    assert_eq!(socket, vec![12, 0, 0, 0, 1, 0, 0, 0, 0, 0, 0, 0]);
}

#[test]
fn value_reply_points_at_the_value() {
    let mut writer = Writer::new();
    write_redis_value(ReplyValue::Leaked { pointer: 0xabcd }, 3, &mut writer);
    let mut socket = Vec::new();
    drain(&mut writer, &mut socket, 100);
    assert_eq!(decode(&socket), vec![Response::Value { callback_index: 3, pointer: 0xabcd }]);
}

#[test]
fn error_frames_carry_their_type() {
    let mut writer = Writer::new();
    write_error(0x10, 4, &mut writer, ResponseType::RequestError);
    write_error(0x20, u32::MAX, &mut writer, ResponseType::ClosingError);
    let mut socket = Vec::new();
    drain(&mut writer, &mut socket, 7);
    assert_eq!(
        decode(&socket),
        vec![
            Response::RequestError { callback_index: 4, pointer: 0x10 },
            Response::ClosingError { callback_index: u32::MAX, pointer: 0x20 },
        ]
    );
}

#[test]
fn frames_leave_in_the_order_they_were_appended() {
    for step in 1..45 {
        let mut writer = Writer::new();
        let mut expected = Vec::new();
        for callback_index in 0..20u32 {
            if callback_index % 3 == 0 {
                write_redis_value(ReplyValue::Nil, callback_index, &mut writer);
                expected.push(Response::Null { callback_index });
            } else if callback_index % 3 == 1 {
                let pointer = 1000 + callback_index as u64;
                write_redis_value(ReplyValue::Leaked { pointer }, callback_index, &mut writer);
                expected.push(Response::Value { callback_index, pointer });
            } else {
                write_error(5, callback_index, &mut writer, ResponseType::RequestError);
                expected.push(Response::RequestError { callback_index, pointer: 5 });
            }
        }
        let mut socket = Vec::new();
        drain(&mut writer, &mut socket, step);
        assert_eq!(decode(&socket), expected);
        assert!(!writer.flushing());
        assert_eq!(writer.queued_len(), 0);
    }
}

#[test]
fn only_one_flush_runs_at_a_time() {
    let mut writer = Writer::new();
    write_redis_value(ReplyValue::Nil, 1, &mut writer);
    assert_eq!(write_to_output(&mut writer, FlushEvent::Requested), FlushStep::Write);
    assert!(writer.flushing());
    // A second task asks while the first flush is still writing.
    write_redis_value(ReplyValue::Nil, 2, &mut writer);
    assert_eq!(write_to_output(&mut writer, FlushEvent::Requested), FlushStep::Idle);
    assert_eq!(writer.pending().len(), 12);
    assert_eq!(writer.queued_len(), 12);
    // The running flush finishes its buffer and then sees the new frame.
    let mut socket = writer.pending().to_vec();
    assert_eq!(write_to_output(&mut writer, FlushEvent::Written(12)), FlushStep::Write);
    assert_eq!(writer.queued_len(), 0);
    socket.extend_from_slice(writer.pending());
    assert_eq!(write_to_output(&mut writer, FlushEvent::Written(12)), FlushStep::Idle);
    assert!(!writer.flushing());
    assert_eq!(
        decode(&socket),
        vec![Response::Null { callback_index: 1 }, Response::Null { callback_index: 2 }]
    );
}

#[test]
fn frames_appended_during_a_flush_are_never_cut() {
    // N tasks append while one flush writes three bytes at a time.
    let mut writer = Writer::new();
    let mut socket = Vec::new();
    let mut expected = Vec::new();
    write_redis_value(ReplyValue::Leaked { pointer: 1 }, 0, &mut writer);
    expected.push(Response::Value { callback_index: 0, pointer: 1 });
    let mut next = write_to_output(&mut writer, FlushEvent::Requested);
    let mut task = 1u32;
    while next == FlushStep::Write {
        if task < 50 {
            write_error(task as u64, task, &mut writer, ResponseType::RequestError);
            expected.push(Response::RequestError { callback_index: task, pointer: task as u64 });
            assert_eq!(write_to_output(&mut writer, FlushEvent::Requested), FlushStep::Idle);
            task += 1;
        }
        let pending = writer.pending();
        let count = 3.min(pending.len());
        socket.extend_from_slice(&pending[..count]);
        next = write_to_output(&mut writer, FlushEvent::Written(count));
    }
    assert_eq!(next, FlushStep::Idle);
    assert_eq!(decode(&socket), expected);
}

#[test]
fn blocked_write_is_tried_again() {
    let mut writer = Writer::new();
    write_redis_value(ReplyValue::Nil, 1, &mut writer);
    assert_eq!(write_to_output(&mut writer, FlushEvent::Requested), FlushStep::Write);
    assert_eq!(write_to_output(&mut writer, FlushEvent::WouldBlock), FlushStep::Write);
    assert_eq!(writer.pending().len(), 12);
    assert_eq!(write_to_output(&mut writer, FlushEvent::Written(0)), FlushStep::Write);
    assert_eq!(writer.pending().len(), 12);
    assert_eq!(write_to_output(&mut writer, FlushEvent::Written(5)), FlushStep::Write);
    assert_eq!(writer.pending().len(), 7);
    assert_eq!(write_to_output(&mut writer, FlushEvent::Written(7)), FlushStep::Idle);
    assert_eq!(write_to_output(&mut writer, FlushEvent::WouldBlock), FlushStep::Idle);
}

#[test]
fn a_count_beyond_the_pending_bytes_drains_them() {
    let mut writer = Writer::new();
    write_redis_value(ReplyValue::Nil, 1, &mut writer);
    assert_eq!(write_to_output(&mut writer, FlushEvent::Requested), FlushStep::Write);
    assert_eq!(write_to_output(&mut writer, FlushEvent::Written(usize::MAX)), FlushStep::Idle);
    assert_eq!(writer.pending().len(), 0);
    assert!(!writer.flushing());
}

#[test]
fn failure_closes_and_keeps_what_was_not_written() {
    let mut writer = Writer::new();
    write_redis_value(ReplyValue::Leaked { pointer: 9 }, 1, &mut writer);
    assert_eq!(write_to_output(&mut writer, FlushEvent::Requested), FlushStep::Write);
    let mut socket = writer.pending()[..8].to_vec();
    assert_eq!(write_to_output(&mut writer, FlushEvent::Written(8)), FlushStep::Write);
    write_redis_value(ReplyValue::Nil, 2, &mut writer);
    assert_eq!(write_to_output(&mut writer, FlushEvent::Failed), FlushStep::Close);
    assert!(!writer.flushing());
    assert_eq!(writer.pending().len(), 0);
    assert_eq!(writer.queued_len(), 12 + 12);
    // Were the socket to come back, nothing would be lost or repeated.
    drain(&mut writer, &mut socket, 100);
    assert_eq!(
        decode(&socket),
        vec![
            Response::Value { callback_index: 1, pointer: 9 },
            Response::Null { callback_index: 2 },
        ]
    );
}

#[test]
fn failure_without_a_flush_closes() {
    let mut writer = Writer::new();
    write_redis_value(ReplyValue::Nil, 2, &mut writer);
    assert_eq!(write_to_output(&mut writer, FlushEvent::Failed), FlushStep::Close);
    assert_eq!(writer.queued_len(), 12);
}

#[test]
fn enqueue_appends_the_frame_of_any_response() {
    let mut writer = Writer::new();
    writer.enqueue(Response::ClosingError { callback_index: u32::MAX, pointer: 0x0102 });
    writer.enqueue(Response::Null { callback_index: 1 });
    assert_eq!(writer.queued_len(), 32);
    let mut socket = Vec::new();
    drain(&mut writer, &mut socket, 32);
    assert_eq!(
        socket,
        vec![
            20, 0, 0, 0, 0xff, 0xff, 0xff, 0xff, 3, 0, 0, 0, 2, 1, 0, 0, 0, 0, 0, 0, 12, 0, 0, 0,
            1, 0, 0, 0, 0, 0, 0, 0
        ]
    );
}
