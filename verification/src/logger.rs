//! The log levels that the host binding passes as numbers.

use crate::text::{signed_decimal_string, signed_decimal_text};
use vstd::prelude::*;
use vstd::std_specs::convert::FromSpecImpl;
use vstd::string::StringExecFns;

verus! {

/// How much the logger says.
#[derive(Clone, Copy, Debug, PartialEq, Eq, Structural)]
pub enum LogLevel {
    Error,
    Warn,
    Info,
    Debug,
    Trace,
}

/// A log level as the host binding writes it.
#[derive(Clone, Copy, Debug, PartialEq, Eq, Structural)]
pub struct Level(pub i32);

impl LogLevel {
    /// The number that the host binding writes for this level.
    pub open spec fn number(self) -> i32 {
        match self {
            LogLevel::Error => 0,
            LogLevel::Warn => 1,
            LogLevel::Info => 2,
            LogLevel::Debug => 3,
            LogLevel::Trace => 4,
        }
    }

    /// The level that the host binding means by a number, if it means one.
    pub open spec fn of_number(number: i32) -> Option<LogLevel> {
        if number == 0 {
            Some(LogLevel::Error)
        } else if number == 1 {
            Some(LogLevel::Warn)
        } else if number == 2 {
            Some(LogLevel::Info)
        } else if number == 3 {
            Some(LogLevel::Debug)
        } else if number == 4 {
            Some(LogLevel::Trace)
        } else {
            None
        }
    }

    /// Reads the level that the host binding wrote. A number that stands
    /// for no level is refused with a text that names it.
    pub fn try_from(level: Level) -> (converted: Result<LogLevel, String>)
        ensures
            match LogLevel::of_number(level.0) {
                Some(found) => converted == Ok::<LogLevel, String>(found),
                None => converted matches Err(text) && text@ == invalid_level_text(level.0),
            },
    {
        if level.0 == 0 {
            Ok(LogLevel::Error)
        } else if level.0 == 1 {
            Ok(LogLevel::Warn)
        } else if level.0 == 2 {
            Ok(LogLevel::Info)
        } else if level.0 == 3 {
            Ok(LogLevel::Debug)
        } else if level.0 == 4 {
            Ok(LogLevel::Trace)
        } else {
            let mut text = "Invalid log level: ".to_owned();
            let number = signed_decimal_string(level.0);
            text.append(number.as_str());
            Err(text)
        }
    }
}

impl From<LogLevel> for Level {
    fn from(level: LogLevel) -> (converted: Level) {
        match level {
            LogLevel::Error => Level(0),
            LogLevel::Warn => Level(1),
            LogLevel::Info => Level(2),
            LogLevel::Debug => Level(3),
            LogLevel::Trace => Level(4),
        }
    }
}

impl FromSpecImpl<LogLevel> for Level {
    open spec fn obeys_from_spec() -> bool {
        true
    }

    open spec fn from_spec(level: LogLevel) -> Level {
        Level(level.number())
    }
}

/// The text that refuses a number that stands for no level.
pub open spec fn invalid_level_text(number: i32) -> Seq<char> {
    "Invalid log level: "@ + signed_decimal_text(number as int)
}

/// The level that the host binding asks the logger to start with: none
/// where the number is negative, and otherwise the level that the number
/// stands for.
pub open spec fn requested(level: i32) -> Result<Option<LogLevel>, Seq<char>> {
    if level < 0 {
        Ok(None)
    } else {
        match LogLevel::of_number(level) {
            Some(found) => Ok(Some(found)),
            None => Err(invalid_level_text(level)),
        }
    }
}

/// Reads the level that the host binding asks the logger to start with.
pub fn requested_level(level: i32) -> (wanted: Result<Option<LogLevel>, String>)
    ensures
        match requested(level) {
            Ok(found) => wanted == Ok::<Option<LogLevel>, String>(found),
            Err(text) => wanted matches Err(told) && told@ == text,
        },
{
    if level < 0 {
        Ok(None)
    } else {
        match LogLevel::try_from(Level(level)) {
            Ok(found) => Ok(Some(found)),
            Err(text) => Err(text),
        }
    }
}

/// Every level is the level that its number stands for, and a number
/// stands for a level only if it is that level's number.
pub proof fn level_numbers_round_trip()
    ensures
        forall|level: LogLevel| #[trigger] LogLevel::of_number(level.number()) == Some(level),
        forall|number: i32|
            (#[trigger] LogLevel::of_number(number)) matches Some(level) ==> level.number()
                == number,
{
}

} // verus!
