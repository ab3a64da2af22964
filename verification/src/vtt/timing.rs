use vstd::prelude::*;

use crate::srt::is_sexa_tens;
use crate::text::{digit_run, digit_run_end, is_digit, is_digit_char, parse_uint, skip_bom, skip_boms, spec_parse_uint};
use crate::types::unit::{spec_millisecond_from_str, spec_minute_from_str, spec_second_from_str};
use crate::types::{Millisecond, Minute, Second};

use super::scan::{
    arrow_at, has_arrow, has_arrow_at, skip_space, skip_space_at, skip_ws, skip_ws_at, trim_ws_end,
    trim_ws_end_at,
};
use super::settings::{cue_settings_at, spec_cue_settings};
use super::types::{no_settings, CueHeader, CueSettingsV, Hour, Timestamp, TimestampV};
use super::ParseVttError;

verus! {

/// `s[k..k + 2]` is a minute or second component: a digit from `0` to `5`, then a digit.
pub open spec fn sexa_at(s: Seq<char>, k: int) -> bool {
    is_sexa_tens(s[k]) && is_digit(s[k + 1])
}

/// `s[k..k + 3]` is three digits.
pub open spec fn ms_at(s: Seq<char>, k: int) -> bool {
    is_digit(s[k]) && is_digit(s[k + 1]) && is_digit(s[k + 2])
}

/// If `s[i..hi]` starts with a WebVTT timestamp (`H+:MM:SS.mmm` or `MM:SS.mmm`), where
/// its hour digits end (`i` when it has no hours) and where it ends.
pub open spec fn vtt_ts_shape(s: Seq<char>, i: int, hi: int) -> Option<(int, int)> {
    let j = digit_run_end(s, i, hi);
    if j > i && j + 10 <= hi && s[j] == ':' && sexa_at(s, j + 1) && s[j + 3] == ':' && sexa_at(s, j + 4)
        && s[j + 6] == '.' && ms_at(s, j + 7) {
        Some((j, j + 10))
    } else if i + 9 <= hi && sexa_at(s, i) && s[i + 2] == ':' && sexa_at(s, i + 3) && s[i + 5] == '.'
        && ms_at(s, i + 6) {
        Some((i, i + 9))
    } else {
        None
    }
}

/// Reading the components of the timestamp at `i` whose hour digits end at `j`: the
/// milliseconds first, then the hours (which must fit a `u32`), the minutes and the
/// seconds.
pub open spec fn spec_read_vtt_ts(s: Seq<char>, i: int, j: int) -> Result<TimestampV, ParseVttError> {
    let mo = if j == i { i } else { j + 1 };
    match spec_millisecond_from_str(s.subrange(mo + 6, mo + 9)) {
        Err(e) => Err(ParseVttError::ParseMillisecond(e)),
        Ok(ms) => {
            let h = if j == i { Ok(0nat) } else { spec_parse_uint(s.subrange(i, j), 0xffff_ffff) };
            match h {
                Err(_) => Err(ParseVttError::InvalidTimestamp("hours value too large")),
                Ok(h) => match spec_minute_from_str(s.subrange(mo, mo + 2)) {
                    Err(e) => Err(ParseVttError::ParseMinute(e)),
                    Ok(m) => match spec_second_from_str(s.subrange(mo + 3, mo + 5)) {
                        Err(e) => Err(ParseVttError::ParseSecond(e)),
                        Ok(sec) => Ok((h as u32, m, sec, ms)),
                    },
                },
            }
        },
    }
}

/// What reading the whole text `s` as one timestamp gives.
pub open spec fn spec_parse_timestamp(s: Seq<char>) -> Result<TimestampV, ParseVttError> {
    match vtt_ts_shape(s, 0, s.len() as int) {
        Some((j, e)) => if e == s.len() {
            spec_read_vtt_ts(s, 0, j)
        } else {
            Err(ParseVttError::InvalidTimestamp("malformed timestamp"))
        },
        None => Err(ParseVttError::InvalidTimestamp("malformed timestamp")),
    }
}

/// If `s[lo..hi]` starts with a timing `start --> end` (the arrow with spaces, tabs or
/// form feeds on both sides), the end of the start's hour digits, the start of the end
/// timestamp, the end of its hour digits, and where the timing ends.
pub open spec fn vtt_timing_shape(s: Seq<char>, lo: int, hi: int) -> Option<(int, int, int, int)> {
    match vtt_ts_shape(s, lo, hi) {
        None => None,
        Some((j1, e1)) => {
            let w1 = skip_space(s, e1, hi);
            if w1 > e1 && w1 + 3 <= hi && arrow_at(s, w1) {
                let i2 = skip_space(s, w1 + 3, hi);
                if i2 > w1 + 3 {
                    match vtt_ts_shape(s, i2, hi) {
                        Some((j2, e2)) => Some((j1, i2, j2, e2)),
                        None => None,
                    }
                } else {
                    None
                }
            } else {
                None
            }
        },
    }
}

/// The two timestamps of the timing at the start of `s[lo..hi]` and where it ends, if
/// there is one and both timestamps can be read.
pub open spec fn spec_timing(s: Seq<char>, lo: int, hi: int) -> Option<(TimestampV, TimestampV, int)> {
    match vtt_timing_shape(s, lo, hi) {
        None => None,
        Some((j1, i2, j2, e2)) => match (spec_read_vtt_ts(s, lo, j1), spec_read_vtt_ts(s, i2, j2)) {
            (Ok(a), Ok(b)) => Some((a, b, e2)),
            _ => None,
        },
    }
}

/// Reading the line `s[lo..hi]` as a timing line: leading byte order marks, then spaces,
/// tabs and form feeds are skipped; the line must contain `-->` and start with a timing;
/// what follows the timing, trimmed of white space, holds the cue settings. Gives the
/// start, the end, and the settings when any is given.
pub open spec fn spec_timing_line(s: Seq<char>, lo: int, hi: int) -> Option<(TimestampV, TimestampV, Option<CueSettingsV>)> {
    let t = skip_space(s, skip_bom(s, lo, hi), hi);
    if !has_arrow(s, t, hi) {
        None
    } else {
        match spec_timing(s, t, hi) {
            None => None,
            Some((a, b, m)) => {
                let x = skip_ws(s, m, hi);
                let y = trim_ws_end(s, x, hi);
                let st = spec_cue_settings(s, x, y);
                Some((a, b, if st == no_settings() { None } else { Some(st) }))
            },
        }
    }
}

/// Whether `v[k..k + 2]` is a minute or second component.
fn sexa_at_v(v: &Vec<char>, k: usize) -> (b: bool)
    requires
        k + 2 <= v.len(),
    ensures
        b == sexa_at(v@, k as int),
{
    '0' <= v[k] && v[k] <= '5' && is_digit_char(v[k + 1])
}

/// Whether `v[k..k + 3]` is three digits.
fn ms_at_v(v: &Vec<char>, k: usize) -> (b: bool)
    requires
        k + 3 <= v.len(),
    ensures
        b == ms_at(v@, k as int),
{
    is_digit_char(v[k]) && is_digit_char(v[k + 1]) && is_digit_char(v[k + 2])
}

/// Returns the shape of the timestamp at the start of `v[i..hi]`, if there is one.
fn ts_shape_at(v: &Vec<char>, i: usize, hi: usize) -> (r: Option<(usize, usize)>)
    requires
        i <= hi <= v.len(),
    ensures
        match r {
            Some((j, e)) => vtt_ts_shape(v@, i as int, hi as int) == Some((j as int, e as int)) && i <= j
                && j + 9 <= e <= hi,
            None => vtt_ts_shape(v@, i as int, hi as int) is None,
        },
{
    let j = digit_run(v, i, hi);
    if j > i && hi - j >= 10 && v[j] == ':' && sexa_at_v(v, j + 1) && v[j + 3] == ':' && sexa_at_v(v, j + 4)
        && v[j + 6] == '.' && ms_at_v(v, j + 7) {
        Some((j, j + 10))
    } else if hi - i >= 9 && sexa_at_v(v, i) && v[i + 2] == ':' && sexa_at_v(v, i + 3) && v[i + 5] == '.'
        && ms_at_v(v, i + 6) {
        Some((i, i + 9))
    } else {
        None
    }
}

/// Reads the components of the timestamp at `i` whose hour digits end at `j`.
fn read_ts(v: &Vec<char>, i: usize, j: usize) -> (r: Result<Timestamp, ParseVttError>)
    requires
        i <= j,
        j == i ==> i + 9 <= v.len(),
        j != i ==> j + 10 <= v.len(),
    ensures
        match r {
            Ok(t) => spec_read_vtt_ts(v@, i as int, j as int) == Ok::<TimestampV, ParseVttError>(t@),
            Err(e) => spec_read_vtt_ts(v@, i as int, j as int) == Err::<TimestampV, ParseVttError>(e),
        },
{
    let mo = if j == i { i } else { j + 1 };
    let ms = match Millisecond::from_chars(v, mo + 6, mo + 9) {
        Ok(ms) => ms,
        Err(e) => return Err(ParseVttError::ParseMillisecond(e)),
    };
    let h: u32 = if j == i {
        0
    } else {
        match parse_uint(v, i, j, 0xffff_ffff) {
            Ok(h) => h as u32,
            Err(_) => return Err(ParseVttError::InvalidTimestamp("hours value too large")),
        }
    };
    let m = match Minute::from_chars(v, mo, mo + 2) {
        Ok(m) => m,
        Err(e) => return Err(ParseVttError::ParseMinute(e)),
    };
    let s = match Second::from_chars(v, mo + 3, mo + 5) {
        Ok(s) => s,
        Err(e) => return Err(ParseVttError::ParseSecond(e)),
    };
    Ok(Timestamp::from_hmsm(Hour::with(h), m, s, ms))
}

/// Parse a WebVTT timestamp (`HH:MM:SS.mmm`, with one or more hour digits, or `MM:SS.mmm`)
/// that makes up the whole of `s`.
pub fn parse_timestamp(s: &str) -> (r: Result<Timestamp, ParseVttError>)
    ensures
        match r {
            Ok(t) => spec_parse_timestamp(s@) == Ok::<TimestampV, ParseVttError>(t@),
            Err(e) => spec_parse_timestamp(s@) == Err::<TimestampV, ParseVttError>(e),
        },
{
    let v = crate::text::chars_of(s);
    match ts_shape_at(&v, 0, v.len()) {
        Some((j, e)) => if e == v.len() {
            read_ts(&v, 0, j)
        } else {
            Err(ParseVttError::InvalidTimestamp("malformed timestamp"))
        },
        None => Err(ParseVttError::InvalidTimestamp("malformed timestamp")),
    }
}

/// Returns the shape of the timing at the start of `v[lo..hi]`, if there is one.
fn timing_shape_at(v: &Vec<char>, lo: usize, hi: usize) -> (r: Option<(usize, usize, usize, usize)>)
    requires
        lo <= hi <= v.len(),
    ensures
        match r {
            Some((j1, i2, j2, e2)) => vtt_timing_shape(v@, lo as int, hi as int) == Some(
                (j1 as int, i2 as int, j2 as int, e2 as int),
            ) && lo <= j1 && j1 + 9 <= i2 <= j2 && j2 + 9 <= e2 <= hi,
            None => vtt_timing_shape(v@, lo as int, hi as int) is None,
        },
{
    match ts_shape_at(v, lo, hi) {
        None => None,
        Some((j1, e1)) => {
            let w1 = skip_space_at(v, e1, hi);
            if w1 > e1 && hi - w1 >= 3 && v[w1] == '-' && v[w1 + 1] == '-' && v[w1 + 2] == '>' {
                let i2 = skip_space_at(v, w1 + 3, hi);
                if i2 > w1 + 3 {
                    match ts_shape_at(v, i2, hi) {
                        Some((j2, e2)) => Some((j1, i2, j2, e2)),
                        None => None,
                    }
                } else {
                    None
                }
            } else {
                None
            }
        },
    }
}

/// Reads the line `v[lo..hi]` (the characters of `input`) as a timing line, as
/// `spec_timing_line` says, into a cue header without identifier.
pub(crate) fn timing_line_at(input: &str, v: &Vec<char>, lo: usize, hi: usize) -> (r: Option<CueHeader>)
    requires
        v@ == input@,
        lo <= hi <= v.len(),
    ensures
        match r {
            Some(h) => spec_timing_line(v@, lo as int, hi as int) == Some(
                (h@.start, h@.end, h@.settings),
            ) && h@.identifier is None,
            None => spec_timing_line(v@, lo as int, hi as int) is None,
        },
{
    let b = skip_boms(v, lo, hi);
    let t = skip_space_at(v, b, hi);
    if !has_arrow_at(v, t, hi) {
        return None;
    }
    match timing_shape_at(v, t, hi) {
        None => None,
        Some((j1, i2, j2, e2)) => {
            let a = match read_ts(v, t, j1) {
                Ok(a) => a,
                Err(_) => return None,
            };
            let b = match read_ts(v, i2, j2) {
                Ok(b) => b,
                Err(_) => return None,
            };
            let x = skip_ws_at(v, e2, hi);
            let y = trim_ws_end_at(v, x, hi);
            let st = cue_settings_at(input, v, x, y);
            let mut h = CueHeader::new(a, b);
            if !st.is_empty() {
                h.set_settings(st);
            }
            Some(h)
        },
    }
}

} // verus!
