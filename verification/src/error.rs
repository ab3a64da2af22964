use vstd::prelude::*;

verus! {

/// Why a decimal integer could not be read, with the same kinds as the
/// standard library's integer parsing.
#[derive(Debug, Clone, Copy, PartialEq, Eq, Structural)]
pub enum ParseIntError {
    /// The text is empty.
    Empty,
    /// The text holds a character that is not a decimal digit (or a lone sign).
    InvalidDigit,
    /// The value is larger than the target type can hold.
    PosOverflow,
    /// The value is smaller than the target type can hold.
    NegOverflow,
}

} // verus!

verus! {

/// The error type for parsing minute components of timestamps.
#[derive(Debug, Clone, Copy, PartialEq, Eq, Structural)]
pub enum ParseMinuteError {
    /// The minute component is not zero-padded to 2 digits.
    NotPadded,
    /// The minute component is out of range (not between 0-59).
    Overflow(u8),
    /// Not a valid number.
    ParseInt(ParseIntError),
}

/// The error type for parsing second components of timestamps.
#[derive(Debug, Clone, Copy, PartialEq, Eq, Structural)]
pub enum ParseSecondError {
    /// The second component is not zero-padded to 2 digits.
    NotPadded,
    /// The second component is out of range (not between 0-59).
    Overflow(u8),
    /// Not a valid number.
    ParseInt(ParseIntError),
}

/// The error type for parsing hour components of timestamps.
///
/// SRT hours are 2–3 digits (0–999) and use `NotPadded` and `Overflow`;
/// `HourOverflow` is for hours that do not fit the WebVTT hour type.
#[derive(Debug, Clone, Copy, PartialEq, Eq, Structural)]
pub enum ParseHourError {
    /// The hour component is not zero-padded to 2 digits.
    NotPadded,
    /// The hour component is out of the SRT range (0–999).
    Overflow(u16),
    /// The hour component overflowed.
    HourOverflow,
    /// Not a valid number.
    ParseInt(ParseIntError),
}

/// The error type for parsing millisecond components of timestamps.
#[derive(Debug, Clone, Copy, PartialEq, Eq, Structural)]
pub enum ParseMillisecondError {
    /// The millisecond component is not zero-padded to 3 digits.
    NotPadded,
    /// The millisecond component is out of range (not between 0-999).
    Overflow(u16),
    /// Not a valid number.
    ParseInt(ParseIntError),
}

/// The error type for parsing index numbers of subtitles.
#[derive(Debug, Clone, Copy, PartialEq, Eq, Structural)]
pub enum ParseIndexNumberError {
    /// The index number is zero.
    Zero,
    /// The index number is out of range (not between 1-18446744073709551615).
    Overflow,
    /// Not a valid index number.
    ParseInt(ParseIntError),
}

} // verus!
