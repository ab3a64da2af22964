use vstd::prelude::*;

use crate::error::{
    ParseHourError, ParseIntError, ParseMillisecondError, ParseMinuteError, ParseSecondError,
};
use crate::text::{
    all_digits, chars_of, dec_value, digit_val, digit_value, is_digit, is_digit_char, padded,
    parse_uint, push_padded, spec_parse_uint, string_from_chars,
};

verus! {

/// The value of a two-character numeral (`s[0]` tens, `s[1]` units).
pub open spec fn two_digit_value(s: Seq<char>) -> nat {
    digit_val(s[0]) * 10 + digit_val(s[1])
}

/// The value of a three-character numeral.
pub open spec fn three_digit_value(s: Seq<char>) -> nat {
    digit_val(s[0]) * 100 + digit_val(s[1]) * 10 + digit_val(s[2])
}

/// `s` is exactly `n` decimal digits.
pub open spec fn digits_of_len(s: Seq<char>, n: nat) -> bool {
    s.len() == n && all_digits(s)
}

/// What reading a minute or second component gives: a single digit is not padded,
/// two digits below 60 are the value, anything else is read as a `u8` and reported
/// as out of range, or as not a number.
pub open spec fn spec_sexagesimal_from_str(s: Seq<char>) -> Result<u8, (bool, Result<u8, ParseIntError>)> {
    if digits_of_len(s, 1) {
        Err((true, Ok(0)))
    } else if digits_of_len(s, 2) && two_digit_value(s) < 60 {
        Ok(two_digit_value(s) as u8)
    } else {
        match spec_parse_uint(s, 255) {
            Ok(v) => Err((false, Ok(v as u8))),
            Err(e) => Err((false, Err(e))),
        }
    }
}

/// The result of reading a minute component from `s`.
pub open spec fn spec_minute_from_str(s: Seq<char>) -> Result<u8, ParseMinuteError> {
    match spec_sexagesimal_from_str(s) {
        Ok(v) => Ok(v),
        Err((true, _)) => Err(ParseMinuteError::NotPadded),
        Err((false, Ok(v))) => Err(ParseMinuteError::Overflow(v)),
        Err((false, Err(e))) => Err(ParseMinuteError::ParseInt(e)),
    }
}

/// The result of reading a second component from `s`.
pub open spec fn spec_second_from_str(s: Seq<char>) -> Result<u8, ParseSecondError> {
    match spec_sexagesimal_from_str(s) {
        Ok(v) => Ok(v),
        Err((true, _)) => Err(ParseSecondError::NotPadded),
        Err((false, Ok(v))) => Err(ParseSecondError::Overflow(v)),
        Err((false, Err(e))) => Err(ParseSecondError::ParseInt(e)),
    }
}

/// The result of reading an SRT hour component from `s`: one digit is not padded,
/// two digits are any value, three digits must not start with `0`; anything else is
/// read as a `u16` and reported as out of range, or as not a number.
pub open spec fn spec_hour_from_str(s: Seq<char>) -> Result<u16, ParseHourError> {
    if digits_of_len(s, 1) {
        Err(ParseHourError::NotPadded)
    } else if digits_of_len(s, 2) {
        Ok(two_digit_value(s) as u16)
    } else if digits_of_len(s, 3) && s[0] != '0' {
        Ok(three_digit_value(s) as u16)
    } else {
        match spec_parse_uint(s, 65535) {
            Ok(v) => Err(ParseHourError::Overflow(v as u16)),
            Err(e) => Err(ParseHourError::ParseInt(e)),
        }
    }
}

/// The result of reading a millisecond component from `s`: one or two digits are not
/// padded, three digits are the value; anything else is read as a `u16` and reported as
/// out of range, or as not a number.
pub open spec fn spec_millisecond_from_str(s: Seq<char>) -> Result<u16, ParseMillisecondError> {
    if digits_of_len(s, 1) || digits_of_len(s, 2) {
        Err(ParseMillisecondError::NotPadded)
    } else if digits_of_len(s, 3) {
        Ok(three_digit_value(s) as u16)
    } else {
        match spec_parse_uint(s, 65535) {
            Ok(v) => Err(ParseMillisecondError::Overflow(v as u16)),
            Err(e) => Err(ParseMillisecondError::ParseInt(e)),
        }
    }
}

/// Facts about short numerals used by the component readers.
pub proof fn lemma_short_numerals(s: Seq<char>)
    ensures
        s.len() == 2 ==> dec_value(s) == two_digit_value(s),
        s.len() == 3 ==> dec_value(s) == three_digit_value(s),
        s.len() == 1 ==> dec_value(s) == digit_val(s[0]),
{
    reveal_with_fuel(dec_value, 4);
    if s.len() >= 1 && s.len() <= 3 {
        let a = s.drop_last();
        if s.len() >= 2 {
            let b = a.drop_last();
            if s.len() == 3 {
                assert(a.last() == s[1] && b.last() == s[0]);
                assert(b.drop_last().len() == 0);
            } else {
                assert(a.last() == s[0]);
                assert(b.len() == 0);
            }
        } else {
            assert(a.len() == 0);
        }
    }
}

/// Checks whether `v[lo..hi]` is exactly `n` decimal digits.
fn exact_digits(v: &Vec<char>, lo: usize, hi: usize, n: usize) -> (b: bool)
    requires
        lo <= hi <= v.len(),
    ensures
        b == digits_of_len(v@.subrange(lo as int, hi as int), n as nat),
{
    let ghost s = v@.subrange(lo as int, hi as int);
    if hi - lo != n {
        return false;
    }
    let mut i = lo;
    while i < hi
        invariant
            lo <= i <= hi <= v.len(),
            hi - lo == n,
            s == v@.subrange(lo as int, hi as int),
            forall|j: int| 0 <= j < i - lo ==> #[trigger] is_digit(s[j]),
        decreases hi - i,
    {
        if !is_digit_char(v[i]) {
            assert(s[i - lo] == v@[i as int]);
            return false;
        }
        assert(s[i - lo] == v@[i as int]);
        i = i + 1;
    }
    true
}

/// The minute component (0–59) of a timestamp.
#[derive(Debug, Clone, Copy, PartialEq, Eq, PartialOrd, Ord, Hash, Structural)]
pub struct Minute(u8);

/// The second component (0–59) of a timestamp.
#[derive(Debug, Clone, Copy, PartialEq, Eq, PartialOrd, Ord, Hash, Structural)]
pub struct Second(u8);

/// The hour component (0–999) of an SRT timestamp.
#[derive(Debug, Clone, Copy, PartialEq, Eq, PartialOrd, Ord, Hash, Structural)]
pub struct Hour(u16);

/// The millisecond component (0–999) of a timestamp.
#[derive(Debug, Clone, Copy, PartialEq, Eq, PartialOrd, Ord, Hash, Structural)]
pub struct Millisecond(u16);

impl View for Minute {
    type V = u8;

    closed spec fn view(&self) -> u8 {
        self.0
    }
}

impl View for Second {
    type V = u8;

    closed spec fn view(&self) -> u8 {
        self.0
    }
}

impl View for Hour {
    type V = u16;

    closed spec fn view(&self) -> u16 {
        self.0
    }
}

impl View for Millisecond {
    type V = u16;

    closed spec fn view(&self) -> u16 {
        self.0
    }
}

impl Minute {
    #[verifier::type_invariant]
    spec fn inv(self) -> bool {
        self.0 <= 59
    }

    /// Create a new `Minute` with value 0.
    pub fn new() -> (m: Self)
        ensures
            m@ == 0,
    {
        Minute(0)
    }

    /// Create a new `Minute` from a `u8` no greater than 59.
    pub fn with(value: u8) -> (m: Self)
        requires
            value <= 59,
        ensures
            m@ == value,
            <u8 as vstd::std_specs::convert::FromSpec<Minute>>::from_spec(m) == value,
    {
        Minute(value)
    }

    /// Try to create a new `Minute` from a `u8`, returning `None` if the value is out of range.
    pub fn try_with(value: u8) -> (m: Option<Self>)
        ensures
            value <= 59 ==> (m matches Some(x) && x@ == value && <u8 as vstd::std_specs::convert::FromSpec<
                Minute,
            >>::from_spec(x) == value),
            value > 59 ==> m is None,
    {
        if value > 59 {
            None
        } else {
            Some(Minute(value))
        }
    }

    /// The numeric value, which is at most 59.
    pub fn get(&self) -> (v: u8)
        ensures
            v == self@,
            v <= 59,
    {
        proof {
            use_type_invariant(self);
        }
        self.0
    }

    /// Returns the string representation of this `Minute`, zero-padded to 2 digits.
    pub fn as_str(&self) -> (s: String)
        ensures
            s@ == padded(self@ as nat, 2),
    {
        let mut out: Vec<char> = Vec::new();
        push_padded(&mut out, self.0 as u64, 2);
        string_from_chars(&out)
    }

    /// Reads a minute component from `v[lo..hi]`.
    pub fn from_chars(v: &Vec<char>, lo: usize, hi: usize) -> (r: Result<Self, ParseMinuteError>)
        requires
            lo <= hi <= v.len(),
        ensures
            match r {
                Ok(m) => spec_minute_from_str(v@.subrange(lo as int, hi as int)) == Ok::<u8, ParseMinuteError>(m@),
                Err(e) => spec_minute_from_str(v@.subrange(lo as int, hi as int)) == Err::<u8, ParseMinuteError>(e),
            },
    {
        match sexagesimal_from_chars(v, lo, hi) {
            Ok(x) => Ok(Minute(x)),
            Err((true, _)) => Err(ParseMinuteError::NotPadded),
            Err((false, Ok(x))) => Err(ParseMinuteError::Overflow(x)),
            Err((false, Err(e))) => Err(ParseMinuteError::ParseInt(e)),
        }
    }

    /// Reads a minute component from `s`.
    pub fn from_str(s: &str) -> (r: Result<Self, ParseMinuteError>)
        ensures
            match r {
                Ok(m) => spec_minute_from_str(s@) == Ok::<u8, ParseMinuteError>(m@),
                Err(e) => spec_minute_from_str(s@) == Err::<u8, ParseMinuteError>(e),
            },
    {
        let v = chars_of(s);
        assert(v@.subrange(0, v@.len() as int) =~= s@);
        Self::from_chars(&v, 0, v.len())
    }
}

/// Reads a minute or second component from `v[lo..hi]`, as `spec_sexagesimal_from_str` says.
fn sexagesimal_from_chars(v: &Vec<char>, lo: usize, hi: usize) -> (r: Result<u8, (bool, Result<u8, ParseIntError>)>)
    requires
        lo <= hi <= v.len(),
    ensures
        r == spec_sexagesimal_from_str(v@.subrange(lo as int, hi as int)),
        r matches Ok(x) ==> x <= 59,
{
    let ghost s = v@.subrange(lo as int, hi as int);
    proof {
        lemma_short_numerals(s);
    }
    if exact_digits(v, lo, hi, 1) {
        return Err((true, Ok(0)));
    }
    if exact_digits(v, lo, hi, 2) {
        assert(s[0] == v@[lo as int] && s[1] == v@[lo + 1]);
        assert(is_digit(s[0]) && is_digit(s[1]));
        let x = digit_value(v[lo]) * 10 + digit_value(v[lo + 1]);
        if x < 60 {
            return Ok(x);
        }
    }
    match parse_uint(v, lo, hi, 255) {
        Ok(x) => Err((false, Ok(x as u8))),
        Err(e) => Err((false, Err(e))),
    }
}

impl Second {
    #[verifier::type_invariant]
    spec fn inv(self) -> bool {
        self.0 <= 59
    }

    /// Create a new `Second` with value 0.
    pub fn new() -> (m: Self)
        ensures
            m@ == 0,
    {
        Second(0)
    }

    /// Create a new `Second` from a `u8` no greater than 59.
    pub fn with(value: u8) -> (m: Self)
        requires
            value <= 59,
        ensures
            m@ == value,
            <u8 as vstd::std_specs::convert::FromSpec<Second>>::from_spec(m) == value,
    {
        Second(value)
    }

    /// Try to create a new `Second` from a `u8`, returning `None` if the value is out of range.
    pub fn try_with(value: u8) -> (m: Option<Self>)
        ensures
            value <= 59 ==> (m matches Some(x) && x@ == value && <u8 as vstd::std_specs::convert::FromSpec<
                Second,
            >>::from_spec(x) == value),
            value > 59 ==> m is None,
    {
        if value > 59 {
            None
        } else {
            Some(Second(value))
        }
    }

    /// The numeric value, which is at most 59.
    pub fn get(&self) -> (v: u8)
        ensures
            v == self@,
            v <= 59,
    {
        proof {
            use_type_invariant(self);
        }
        self.0
    }

    /// Returns the string representation of this `Second`, zero-padded to 2 digits.
    pub fn as_str(&self) -> (s: String)
        ensures
            s@ == padded(self@ as nat, 2),
    {
        let mut out: Vec<char> = Vec::new();
        push_padded(&mut out, self.0 as u64, 2);
        string_from_chars(&out)
    }

    /// Reads a second component from `v[lo..hi]`.
    pub fn from_chars(v: &Vec<char>, lo: usize, hi: usize) -> (r: Result<Self, ParseSecondError>)
        requires
            lo <= hi <= v.len(),
        ensures
            match r {
                Ok(m) => spec_second_from_str(v@.subrange(lo as int, hi as int)) == Ok::<u8, ParseSecondError>(m@),
                Err(e) => spec_second_from_str(v@.subrange(lo as int, hi as int)) == Err::<u8, ParseSecondError>(e),
            },
    {
        match sexagesimal_from_chars(v, lo, hi) {
            Ok(x) => Ok(Second(x)),
            Err((true, _)) => Err(ParseSecondError::NotPadded),
            Err((false, Ok(x))) => Err(ParseSecondError::Overflow(x)),
            Err((false, Err(e))) => Err(ParseSecondError::ParseInt(e)),
        }
    }

    /// Reads a second component from `s`.
    pub fn from_str(s: &str) -> (r: Result<Self, ParseSecondError>)
        ensures
            match r {
                Ok(m) => spec_second_from_str(s@) == Ok::<u8, ParseSecondError>(m@),
                Err(e) => spec_second_from_str(s@) == Err::<u8, ParseSecondError>(e),
            },
    {
        let v = chars_of(s);
        assert(v@.subrange(0, v@.len() as int) =~= s@);
        Self::from_chars(&v, 0, v.len())
    }
}

impl Hour {
    #[verifier::type_invariant]
    spec fn inv(self) -> bool {
        self.0 <= 999
    }

    /// Create a new `Hour` with value 0.
    pub fn new() -> (m: Self)
        ensures
            m@ == 0,
    {
        Hour(0)
    }

    /// Create a new `Hour` from a `u16` no greater than 999.
    pub fn with(value: u16) -> (m: Self)
        requires
            value <= 999,
        ensures
            m@ == value,
            <u16 as vstd::std_specs::convert::FromSpec<Hour>>::from_spec(m) == value,
    {
        Hour(value)
    }

    /// Try to create a new `Hour` from a `u16`, returning `None` if the value is out of range.
    pub fn try_with(value: u16) -> (m: Option<Self>)
        ensures
            value <= 999 ==> (m matches Some(x) && x@ == value && <u16 as vstd::std_specs::convert::FromSpec<
                Hour,
            >>::from_spec(x) == value),
            value > 999 ==> m is None,
    {
        if value > 999 {
            None
        } else {
            Some(Hour(value))
        }
    }

    /// The numeric value, which is at most 999.
    pub fn get(&self) -> (v: u16)
        ensures
            v == self@,
            v <= 999,
    {
        proof {
            use_type_invariant(self);
        }
        self.0
    }

    /// Returns the string representation of this `Hour`, zero-padded to 2 digits.
    pub fn as_str(&self) -> (s: String)
        ensures
            s@ == padded(self@ as nat, 2),
    {
        let mut out: Vec<char> = Vec::new();
        push_padded(&mut out, self.0 as u64, 2);
        string_from_chars(&out)
    }

    /// Reads an SRT hour component from `v[lo..hi]`.
    pub fn from_chars(v: &Vec<char>, lo: usize, hi: usize) -> (r: Result<Self, ParseHourError>)
        requires
            lo <= hi <= v.len(),
        ensures
            match r {
                Ok(m) => spec_hour_from_str(v@.subrange(lo as int, hi as int)) == Ok::<u16, ParseHourError>(m@),
                Err(e) => spec_hour_from_str(v@.subrange(lo as int, hi as int)) == Err::<u16, ParseHourError>(e),
            },
    {
        let ghost s = v@.subrange(lo as int, hi as int);
        if exact_digits(v, lo, hi, 1) {
            return Err(ParseHourError::NotPadded);
        }
        if exact_digits(v, lo, hi, 2) {
            assert(s[0] == v@[lo as int] && s[1] == v@[lo + 1]);
            assert(is_digit(s[0]) && is_digit(s[1]));
            let x = digit_value(v[lo]) as u16 * 10 + digit_value(v[lo + 1]) as u16;
            return Ok(Hour(x));
        }
        if exact_digits(v, lo, hi, 3) && v[lo] != '0' {
            assert(s[0] == v@[lo as int] && s[1] == v@[lo + 1] && s[2] == v@[lo + 2]);
            assert(is_digit(s[0]) && is_digit(s[1]) && is_digit(s[2]));
            let x = digit_value(v[lo]) as u16 * 100 + digit_value(v[lo + 1]) as u16 * 10
                + digit_value(v[lo + 2]) as u16;
            return Ok(Hour(x));
        }
        match parse_uint(v, lo, hi, 65535) {
            Ok(x) => Err(ParseHourError::Overflow(x as u16)),
            Err(e) => Err(ParseHourError::ParseInt(e)),
        }
    }

    /// Reads an SRT hour component from `s`.
    pub fn from_str(s: &str) -> (r: Result<Self, ParseHourError>)
        ensures
            match r {
                Ok(m) => spec_hour_from_str(s@) == Ok::<u16, ParseHourError>(m@),
                Err(e) => spec_hour_from_str(s@) == Err::<u16, ParseHourError>(e),
            },
    {
        let v = chars_of(s);
        assert(v@.subrange(0, v@.len() as int) =~= s@);
        Self::from_chars(&v, 0, v.len())
    }
}

impl Millisecond {
    #[verifier::type_invariant]
    spec fn inv(self) -> bool {
        self.0 <= 999
    }

    /// Create a new `Millisecond` with value 0.
    pub fn new() -> (m: Self)
        ensures
            m@ == 0,
    {
        Millisecond(0)
    }

    /// Create a new `Millisecond` from a `u16` no greater than 999.
    pub fn with(value: u16) -> (m: Self)
        requires
            value <= 999,
        ensures
            m@ == value,
            <u16 as vstd::std_specs::convert::FromSpec<Millisecond>>::from_spec(m) == value,
    {
        Millisecond(value)
    }

    /// Try to create a new `Millisecond` from a `u16`, returning `None` if the value is out of range.
    pub fn try_with(value: u16) -> (m: Option<Self>)
        ensures
            value <= 999 ==> (m matches Some(x) && x@ == value && <u16 as vstd::std_specs::convert::FromSpec<
                Millisecond,
            >>::from_spec(x) == value),
            value > 999 ==> m is None,
    {
        if value > 999 {
            None
        } else {
            Some(Millisecond(value))
        }
    }

    /// The numeric value, which is at most 999.
    pub fn get(&self) -> (v: u16)
        ensures
            v == self@,
            v <= 999,
    {
        proof {
            use_type_invariant(self);
        }
        self.0
    }

    /// Returns the string representation of this `Millisecond`, zero-padded to 3 digits.
    pub fn as_str(&self) -> (s: String)
        ensures
            s@ == padded(self@ as nat, 3),
    {
        let mut out: Vec<char> = Vec::new();
        push_padded(&mut out, self.0 as u64, 3);
        string_from_chars(&out)
    }

    /// Reads a millisecond component from `v[lo..hi]`.
    pub fn from_chars(v: &Vec<char>, lo: usize, hi: usize) -> (r: Result<Self, ParseMillisecondError>)
        requires
            lo <= hi <= v.len(),
        ensures
            match r {
                Ok(m) => spec_millisecond_from_str(v@.subrange(lo as int, hi as int)) == Ok::<u16, ParseMillisecondError>(m@),
                Err(e) => spec_millisecond_from_str(v@.subrange(lo as int, hi as int)) == Err::<u16, ParseMillisecondError>(e),
            },
    {
        let ghost s = v@.subrange(lo as int, hi as int);
        if exact_digits(v, lo, hi, 1) || exact_digits(v, lo, hi, 2) {
            return Err(ParseMillisecondError::NotPadded);
        }
        if exact_digits(v, lo, hi, 3) {
            assert(s[0] == v@[lo as int] && s[1] == v@[lo + 1] && s[2] == v@[lo + 2]);
            assert(is_digit(s[0]) && is_digit(s[1]) && is_digit(s[2]));
            let x = digit_value(v[lo]) as u16 * 100 + digit_value(v[lo + 1]) as u16 * 10
                + digit_value(v[lo + 2]) as u16;
            return Ok(Millisecond(x));
        }
        match parse_uint(v, lo, hi, 65535) {
            Ok(x) => Err(ParseMillisecondError::Overflow(x as u16)),
            Err(e) => Err(ParseMillisecondError::ParseInt(e)),
        }
    }

    /// Reads a millisecond component from `s`.
    pub fn from_str(s: &str) -> (r: Result<Self, ParseMillisecondError>)
        ensures
            match r {
                Ok(m) => spec_millisecond_from_str(s@) == Ok::<u16, ParseMillisecondError>(m@),
                Err(e) => spec_millisecond_from_str(s@) == Err::<u16, ParseMillisecondError>(e),
            },
    {
        let v = chars_of(s);
        assert(v@.subrange(0, v@.len() as int) =~= s@);
        Self::from_chars(&v, 0, v.len())
    }
}

impl Default for Minute {
    fn default() -> (x: Self)
        ensures
            x@ == 0,
    {
        Minute::new()
    }
}

impl From<Minute> for u8 {
    fn from(x: Minute) -> (v: u8) {
        x.get()
    }
}

impl vstd::std_specs::convert::FromSpecImpl<Minute> for u8 {
    open spec fn obeys_from_spec() -> bool {
        true
    }

    open spec fn from_spec(x: Minute) -> u8 {
        x@
    }
}

impl core::str::FromStr for Minute {
    type Err = ParseMinuteError;

    fn from_str(s: &str) -> (r: Result<Self, ParseMinuteError>)
        ensures
            match r {
                Ok(m) => spec_minute_from_str(s@) == Ok::<u8, ParseMinuteError>(m@),
                Err(e) => spec_minute_from_str(s@) == Err::<u8, ParseMinuteError>(e),
            },
    {
        Minute::from_str(s)
    }
}

impl Default for Second {
    fn default() -> (x: Self)
        ensures
            x@ == 0,
    {
        Second::new()
    }
}

impl From<Second> for u8 {
    fn from(x: Second) -> (v: u8) {
        x.get()
    }
}

impl vstd::std_specs::convert::FromSpecImpl<Second> for u8 {
    open spec fn obeys_from_spec() -> bool {
        true
    }

    open spec fn from_spec(x: Second) -> u8 {
        x@
    }
}

impl core::str::FromStr for Second {
    type Err = ParseSecondError;

    fn from_str(s: &str) -> (r: Result<Self, ParseSecondError>)
        ensures
            match r {
                Ok(m) => spec_second_from_str(s@) == Ok::<u8, ParseSecondError>(m@),
                Err(e) => spec_second_from_str(s@) == Err::<u8, ParseSecondError>(e),
            },
    {
        Second::from_str(s)
    }
}

impl Default for Hour {
    fn default() -> (x: Self)
        ensures
            x@ == 0,
    {
        Hour::new()
    }
}

impl From<Hour> for u16 {
    fn from(x: Hour) -> (v: u16) {
        x.get()
    }
}

impl vstd::std_specs::convert::FromSpecImpl<Hour> for u16 {
    open spec fn obeys_from_spec() -> bool {
        true
    }

    open spec fn from_spec(x: Hour) -> u16 {
        x@
    }
}

impl core::str::FromStr for Hour {
    type Err = ParseHourError;

    fn from_str(s: &str) -> (r: Result<Self, ParseHourError>)
        ensures
            match r {
                Ok(m) => spec_hour_from_str(s@) == Ok::<u16, ParseHourError>(m@),
                Err(e) => spec_hour_from_str(s@) == Err::<u16, ParseHourError>(e),
            },
    {
        Hour::from_str(s)
    }
}

impl Default for Millisecond {
    fn default() -> (x: Self)
        ensures
            x@ == 0,
    {
        Millisecond::new()
    }
}

impl From<Millisecond> for u16 {
    fn from(x: Millisecond) -> (v: u16) {
        x.get()
    }
}

impl vstd::std_specs::convert::FromSpecImpl<Millisecond> for u16 {
    open spec fn obeys_from_spec() -> bool {
        true
    }

    open spec fn from_spec(x: Millisecond) -> u16 {
        x@
    }
}

impl core::str::FromStr for Millisecond {
    type Err = ParseMillisecondError;

    fn from_str(s: &str) -> (r: Result<Self, ParseMillisecondError>)
        ensures
            match r {
                Ok(m) => spec_millisecond_from_str(s@) == Ok::<u16, ParseMillisecondError>(m@),
                Err(e) => spec_millisecond_from_str(s@) == Err::<u16, ParseMillisecondError>(e),
            },
    {
        Millisecond::from_str(s)
    }
}

} // verus!

verus! {

/// Lengths of padded numerals of small values.
proof fn lemma_padded_small(n: nat, width: nat)
    requires
        width == 2 || width == 3,
        n < crate::utils::pow10(width),
    ensures
        all_digits(padded(n, width)),
        dec_value(padded(n, width)) == n,
        n < crate::utils::pow10((width - 1) as nat) ==> padded(n, width).len() == width,
        width == 2 && n >= 10 ==> padded(n, width).len() == 2,
        width == 3 ==> padded(n, width).len() == 3,
{
    reveal_with_fuel(crate::utils::pow10, 4);
    crate::text::lemma_padded(n, width);
    crate::utils::lemma_digits_bound(n, width);
}

/// A minute's text reads back as that minute.
pub proof fn law_minute_roundtrip(m: u8)
    requires
        m <= 59,
    ensures
        spec_minute_from_str(padded(m as nat, 2)) == Ok::<u8, ParseMinuteError>(m),
{
    reveal_with_fuel(crate::utils::pow10, 3);
    lemma_padded_small(m as nat, 2);
    lemma_short_numerals(padded(m as nat, 2));
}

/// A second's text reads back as that second.
pub proof fn law_second_roundtrip(m: u8)
    requires
        m <= 59,
    ensures
        spec_second_from_str(padded(m as nat, 2)) == Ok::<u8, ParseSecondError>(m),
{
    reveal_with_fuel(crate::utils::pow10, 3);
    lemma_padded_small(m as nat, 2);
    lemma_short_numerals(padded(m as nat, 2));
}

/// An hour's text reads back as that hour.
pub proof fn law_hour_roundtrip(h: u16)
    requires
        h <= 999,
    ensures
        spec_hour_from_str(padded(h as nat, 2)) == Ok::<u16, ParseHourError>(h),
{
    reveal_with_fuel(crate::utils::pow10, 4);
    let p = padded(h as nat, 2);
    crate::text::lemma_padded(h as nat, 2);
    crate::text::lemma_dec_digits(h as nat);
    crate::utils::lemma_digits_bound(h as nat, 3);
    lemma_short_numerals(p);
    if h < 100 {
        crate::utils::lemma_digits_bound(h as nat, 2);
        assert(p.len() == 2);
    } else {
        if crate::utils::spec_digits(h as nat) < 3 {
            crate::text::lemma_dec_digits(h as nat);
            assert(crate::utils::spec_digits(h as nat) <= 2);
            lemma_value_below_pow(crate::text::dec_digits(h as nat));
            assert(false);
        }
        assert(p == crate::text::dec_digits(h as nat));
        assert(p.len() == 3);
        assert(p[0] != '0');
    }
}

/// The value of a numeral of `k` digits is below `10^k`.
proof fn lemma_value_below_pow(s: Seq<char>)
    requires
        all_digits(s),
    ensures
        dec_value(s) < crate::utils::pow10(s.len()),
    decreases s.len(),
{
    if s.len() > 0 {
        let t = s.drop_last();
        assert(all_digits(t)) by {
            assert forall|i: int| 0 <= i < t.len() implies #[trigger] crate::text::is_digit(t[i]) by {
                assert(t[i] == s[i]);
            }
        }
        assert(crate::text::is_digit(s[s.len() - 1]));
        lemma_value_below_pow(t);
    }
}

/// A millisecond's text reads back as that millisecond.
pub proof fn law_millisecond_roundtrip(m: u16)
    requires
        m <= 999,
    ensures
        spec_millisecond_from_str(padded(m as nat, 3)) == Ok::<u16, ParseMillisecondError>(m),
{
    reveal_with_fuel(crate::utils::pow10, 4);
    lemma_padded_small(m as nat, 3);
    lemma_short_numerals(padded(m as nat, 3));
}

} // verus!
