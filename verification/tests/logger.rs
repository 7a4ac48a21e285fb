use babushka_core::logger::{requested_level, Level, LogLevel};
use babushka_core::text::{decimal_string, signed_decimal_string};

#[test]
fn levels_have_their_numbers() {
    assert_eq!(Level::from(LogLevel::Error), Level(0));
    assert_eq!(Level::from(LogLevel::Warn), Level(1));
    assert_eq!(Level::from(LogLevel::Info), Level(2));
    assert_eq!(Level::from(LogLevel::Debug), Level(3));
    assert_eq!(Level::from(LogLevel::Trace), Level(4));
}

#[test]
fn numbers_have_their_levels() {
    assert_eq!(LogLevel::try_from(Level(0)), Ok(LogLevel::Error));
    assert_eq!(LogLevel::try_from(Level(1)), Ok(LogLevel::Warn));
    assert_eq!(LogLevel::try_from(Level(2)), Ok(LogLevel::Info));
    assert_eq!(LogLevel::try_from(Level(3)), Ok(LogLevel::Debug));
    assert_eq!(LogLevel::try_from(Level(4)), Ok(LogLevel::Trace));
}

#[test]
fn level_round_trip() {
    for level in [LogLevel::Error, LogLevel::Warn, LogLevel::Info, LogLevel::Debug, LogLevel::Trace]
    {
        assert_eq!(LogLevel::try_from(Level::from(level)), Ok(level));
    }
}

#[test]
fn other_numbers_are_refused_by_name() {
    assert_eq!(LogLevel::try_from(Level(5)), Err("Invalid log level: 5".to_string()));
    assert_eq!(LogLevel::try_from(Level(-1)), Err("Invalid log level: -1".to_string()));
    assert_eq!(
        LogLevel::try_from(Level(i32::MAX)),
        Err("Invalid log level: 2147483647".to_string())
    );
    assert_eq!(
        LogLevel::try_from(Level(i32::MIN)),
        Err("Invalid log level: -2147483648".to_string())
    );
}

#[test]
fn requested_level_of_the_host() {
    assert_eq!(requested_level(-1), Ok(None));
    assert_eq!(requested_level(i32::MIN), Ok(None));
    assert_eq!(requested_level(0), Ok(Some(LogLevel::Error)));
    assert_eq!(requested_level(4), Ok(Some(LogLevel::Trace)));
    assert_eq!(requested_level(17), Err("Invalid log level: 17".to_string()));
}

#[test]
fn decimal_numerals() {
    assert_eq!(decimal_string(0), "0");
    assert_eq!(decimal_string(9), "9");
    assert_eq!(decimal_string(10), "10");
    assert_eq!(decimal_string(1234567890), "1234567890");
    assert_eq!(decimal_string(u64::MAX), "18446744073709551615");
    assert_eq!(signed_decimal_string(0), "0");
    assert_eq!(signed_decimal_string(-70), "-70");
    assert_eq!(signed_decimal_string(305), "305");
}
