use babushka_core::errors::FFIError;
use babushka_core::socket_listener::listener_started;
use babushka_core::value_resolver::{redis_value_to_java, text_object, JavaValue, RedisValue};

/// A plain description of an object, to compare objects by.
fn show(value: &JavaValue) -> String {
    match value {
        JavaValue::Null => "null".to_string(),
        JavaValue::Text(text) => format!("{:?}", text),
        JavaValue::Long(number) => format!("{}L", number),
        JavaValue::ByteArray(data) => format!("bytes{:?}", data),
        JavaValue::ObjectArray(items) => {
            format!("[{}]", items.iter().map(show).collect::<Vec<_>>().join(", "))
        }
        JavaValue::LinkedHashMap(entries) => format!(
            "{{{}}}",
            entries
                .iter()
                .map(|(key, value)| format!("{}: {}", show(key), show(value)))
                .collect::<Vec<_>>()
                .join(", ")
        ),
        JavaValue::Double(bits) => format!("{}D", f64::from_bits(*bits)),
        JavaValue::Boolean(flag) => format!("{}", flag),
        JavaValue::HashSet(items) => {
            format!("set({})", items.iter().map(show).collect::<Vec<_>>().join(", "))
        }
    }
}

#[test]
fn scalars_have_their_objects() {
    assert_eq!(show(&redis_value_to_java(&RedisValue::Nil, true).unwrap()), "null");
    assert_eq!(show(&redis_value_to_java(&RedisValue::Okay, true).unwrap()), "\"OK\"");
    assert_eq!(show(&redis_value_to_java(&RedisValue::Int(-5), false).unwrap()), "-5L");
    assert_eq!(
        show(&redis_value_to_java(&RedisValue::SimpleString("PONG".to_string()), true).unwrap()),
        "\"PONG\""
    );
    assert_eq!(
        show(
            &redis_value_to_java(&RedisValue::VerbatimString("text".to_string()), false).unwrap()
        ),
        "\"text\""
    );
    assert_eq!(
        show(&redis_value_to_java(&RedisValue::Double(1.5f64.to_bits()), true).unwrap()),
        "1.5D"
    );
    assert_eq!(show(&redis_value_to_java(&RedisValue::Boolean(true), true).unwrap()), "true");
}

#[test]
fn bulk_string_follows_the_encoding() {
    let value = RedisValue::BulkString("h\u{e9}".as_bytes().to_vec());
    assert_eq!(show(&redis_value_to_java(&value, true).unwrap()), "\"h\u{e9}\"");
    assert_eq!(show(&redis_value_to_java(&value, false).unwrap()), "bytes[104, 195, 169]");
}

#[test]
fn bulk_string_that_is_not_text() {
    let bytes = vec![b'a', 0xc3];
    let value = RedisValue::BulkString(bytes.clone());
    let text = std::str::from_utf8(&bytes).unwrap_err().to_string();
    assert_eq!(redis_value_to_java(&value, true).unwrap_err(), FFIError::Utf8(text));
    assert_eq!(show(&redis_value_to_java(&value, false).unwrap()), "bytes[97, 195]");
}

#[test]
fn collections_keep_their_members_in_order() {
    let value = RedisValue::Array(vec![
        RedisValue::Int(1),
        RedisValue::Nil,
        RedisValue::Array(vec![]),
        RedisValue::Pairs(vec![
            (RedisValue::BulkString(b"k".to_vec()), RedisValue::Int(2)),
            (
                RedisValue::SimpleString("s".to_string()),
                RedisValue::Members(vec![RedisValue::Boolean(false), RedisValue::Okay]),
            ),
        ]),
    ]);
    assert_eq!(
        show(&redis_value_to_java(&value, true).unwrap()),
        "[1L, null, [], {\"k\": 2L, \"s\": set(false, \"OK\")}]"
    );
    assert_eq!(
        show(&redis_value_to_java(&value, false).unwrap()),
        "[1L, null, [], {bytes[107]: 2L, \"s\": set(false, \"OK\")}]"
    );
}

#[test]
fn first_error_in_a_collection_is_the_error() {
    let first = vec![0xff];
    let second = vec![b'a', 0xe2, 0x82];
    let value = RedisValue::Array(vec![
        RedisValue::Int(1),
        RedisValue::Pairs(vec![(
            RedisValue::BulkString(b"fine".to_vec()),
            RedisValue::BulkString(first.clone()),
        )]),
        RedisValue::BulkString(second),
    ]);
    let text = std::str::from_utf8(&first).unwrap_err().to_string();
    assert_eq!(redis_value_to_java(&value, true).unwrap_err(), FFIError::Utf8(text));
    assert!(redis_value_to_java(&value, false).is_ok());
}

#[test]
fn deep_reply() {
    let mut value = RedisValue::Int(0);
    for _ in 0..200 {
        value = RedisValue::Array(vec![value]);
    }
    let mut object = redis_value_to_java(&value, true).unwrap();
    let mut depth = 0;
    while let JavaValue::ObjectArray(mut items) = object {
        assert_eq!(items.len(), 1);
        object = items.pop().unwrap();
        depth += 1;
    }
    assert_eq!(depth, 200);
    assert_eq!(show(&object), "0L");
}

#[test]
fn start_of_the_listener_is_reported() {
    assert_eq!(listener_started(Ok(Ok("/tmp/s".to_string()))), Ok("/tmp/s".to_string()));
    assert_eq!(
        listener_started(Ok(Err("cannot bind".to_string()))),
        Err(FFIError::Uds("cannot bind".to_string()))
    );
    assert_eq!(
        listener_started(Err("receiving on a closed channel".to_string())),
        Err(FFIError::Uds("receiving on a closed channel".to_string()))
    );
}

#[test]
fn text_or_its_error() {
    assert_eq!(show(&text_object(Ok("abc".to_string())).unwrap()), "\"abc\"");
    assert_eq!(
        text_object(Err("invalid".to_string())).unwrap_err(),
        FFIError::Utf8("invalid".to_string())
    );
}
