use vstd::prelude::*;

use crate::error::{
    ParseHourError, ParseIndexNumberError, ParseMillisecondError, ParseMinuteError,
    ParseSecondError,
};
use crate::text::{digit_run, digit_run_end, is_digit, is_digit_char, padded, parse_uint, spec_parse_uint};
use crate::types::unit::{
    spec_hour_from_str, spec_millisecond_from_str, spec_minute_from_str, spec_second_from_str,
};
use crate::types::{Hour, Millisecond, Minute, NonZeroU64, Second};

pub mod lazy_laws;
mod types;

pub use types::{header_text, index_view, timestamp_text, Entry, Header, Timestamp};

verus! {

broadcast use crate::types::index::lemma_nonzero_view, crate::types::index::lemma_nonzero_value;

/// The error type for parsing SRT files.
#[derive(Debug, Clone, PartialEq, Eq)]
pub enum ParseSrtError {
    /// An error occurred while parsing the minute component of a timestamp.
    ParseMinute(ParseMinuteError),
    /// An error occurred while parsing the second component of a timestamp.
    ParseSecond(ParseSecondError),
    /// An error occurred while parsing the hour component of a timestamp.
    ParseHour(ParseHourError),
    /// An error occurred while parsing the millisecond component of a timestamp.
    ParseMillisecond(ParseMillisecondError),
    /// An error occurred while parsing the index number of a subtitle.
    ParseIndex(ParseIndexNumberError),
    /// Expected an end timestamp after the arrow token "-->".
    UnclosedDuration,
    /// Unopened duration, missing start timestamp before the arrow token "-->".
    UnopenedDuration,
    /// Expected a header (timeline) line after the index.
    ExpectedHeader(NonZeroU64),
    /// An index number is not greater than the one before it.
    NonMonotonicIndex {
        /// The index number of the entry before.
        last: u64,
        /// The index number that was read.
        got: u64,
    },
    /// An unexpected token.
    Unknown(&'static str),
}

impl Default for ParseSrtError {
    fn default() -> (e: Self)
        ensures
            e == ParseSrtError::Unknown("unknown lexer error"),
    {
        ParseSrtError::Unknown("unknown lexer error")
    }
}

/// Components of a timestamp: hours, minutes, seconds, milliseconds.
pub type TimestampV = (u16, u8, u8, u16);

/// What the first token of a line is, for the SRT grammar.
pub enum LexedV {
    /// A subtitle index number (never zero).
    Number(u64),
    /// A timing line `start --> end`.
    Timing(TimestampV, TimestampV),
    /// A token that could not be read.
    Fail(ParseSrtError),
    /// The line is empty.
    Nothing,
}

/// `c` may be the tens digit of a minute or second (`0` to `5`).
pub open spec fn is_sexa_tens(c: char) -> bool {
    '0' <= c && c <= '5'
}

/// If `s[i..hi]` starts with an SRT timestamp `H:MM:SS,mmm` (one to three hour digits),
/// the index where its hour digits end.
pub open spec fn timestamp_shape(s: Seq<char>, i: int, hi: int) -> Option<int> {
    let j = digit_run_end(s, i, hi);
    if 1 <= j - i <= 3 && j + 10 <= hi && s[j] == ':' && is_sexa_tens(s[j + 1]) && is_digit(
        s[j + 2],
    ) && s[j + 3] == ':' && is_sexa_tens(s[j + 4]) && is_digit(s[j + 5]) && s[j + 6] == ','
        && is_digit(s[j + 7]) && is_digit(s[j + 8]) && is_digit(s[j + 9]) {
        Some(j)
    } else {
        None
    }
}

/// `s[i..i + 5]` is the arrow ` --> `.
pub open spec fn is_arrow(s: Seq<char>, i: int) -> bool {
    s[i] == ' ' && s[i + 1] == '-' && s[i + 2] == '-' && s[i + 3] == '>' && s[i + 4] == ' '
}

/// If `s[lo..hi]` starts with a timing line `start --> end`, the ends of the hour
/// digits of the start and of the end timestamps.
pub open spec fn timing_shape(s: Seq<char>, lo: int, hi: int) -> Option<(int, int)> {
    match timestamp_shape(s, lo, hi) {
        Some(j1) => if j1 + 15 <= hi && is_arrow(s, j1 + 10) {
            match timestamp_shape(s, j1 + 15, hi) {
                Some(j2) => Some((j1, j2)),
                None => None,
            }
        } else {
            None
        },
        None => None,
    }
}

/// The components of the timestamp at `i` whose hour digits end at `j`, or the first
/// component that could not be read.
pub open spec fn spec_read_timestamp(s: Seq<char>, i: int, j: int) -> Result<TimestampV, ParseSrtError> {
    match spec_hour_from_str(s.subrange(i, j)) {
        Err(e) => Err(ParseSrtError::ParseHour(e)),
        Ok(h) => match spec_minute_from_str(s.subrange(j + 1, j + 3)) {
            Err(e) => Err(ParseSrtError::ParseMinute(e)),
            Ok(m) => match spec_second_from_str(s.subrange(j + 4, j + 6)) {
                Err(e) => Err(ParseSrtError::ParseSecond(e)),
                Ok(sec) => match spec_millisecond_from_str(s.subrange(j + 7, j + 10)) {
                    Err(e) => Err(ParseSrtError::ParseMillisecond(e)),
                    Ok(ms) => Ok((h, m, sec, ms)),
                },
            },
        },
    }
}

/// Reading the index number `s[lo..k]` (all digits).
pub open spec fn spec_read_index(s: Seq<char>, lo: int, k: int) -> LexedV {
    if k - lo > 20 {
        LexedV::Fail(ParseSrtError::ParseIndex(ParseIndexNumberError::Overflow))
    } else {
        match spec_parse_uint(s.subrange(lo, k), 0xffff_ffff_ffff_ffff) {
            Err(e) => LexedV::Fail(ParseSrtError::ParseIndex(ParseIndexNumberError::ParseInt(e))),
            Ok(n) => if n == 0 {
                LexedV::Fail(ParseSrtError::ParseIndex(ParseIndexNumberError::Zero))
            } else {
                LexedV::Number(n as u64)
            },
        }
    }
}

/// The first token of the line `s[lo..hi]`: the longest of a timing line and an index
/// number, as the SRT grammar reads it.
pub open spec fn spec_lex(s: Seq<char>, lo: int, hi: int) -> LexedV {
    if lo >= hi {
        LexedV::Nothing
    } else {
        match timing_shape(s, lo, hi) {
            Some((j1, j2)) => match spec_read_timestamp(s, lo, j1) {
                Err(e) => LexedV::Fail(e),
                Ok(a) => match spec_read_timestamp(s, j1 + 15, j2) {
                    Err(e) => LexedV::Fail(e),
                    Ok(b) => LexedV::Timing(a, b),
                },
            },
            None => {
                let k = digit_run_end(s, lo, hi);
                if k > lo {
                    spec_read_index(s, lo, k)
                } else {
                    LexedV::Fail(ParseSrtError::Unknown("unknown lexer error"))
                }
            },
        }
    }
}

/// The first token of an SRT line.
enum Lexed {
    Number(NonZeroU64),
    Timing(Timestamp, Timestamp),
    Fail(ParseSrtError),
    Nothing,
}

/// The view of a token.
spec fn lexed_view(l: Lexed) -> LexedV {
    match l {
        Lexed::Number(n) => LexedV::Number(n@),
        Lexed::Timing(a, b) => LexedV::Timing(a@, b@),
        Lexed::Fail(e) => LexedV::Fail(e),
        Lexed::Nothing => LexedV::Nothing,
    }
}

/// Whether `c` may be the tens digit of a minute or second.
fn is_sexa_tens_char(c: char) -> (b: bool)
    ensures
        b == is_sexa_tens(c),
{
    '0' <= c && c <= '5'
}

/// Checks whether `v[i..hi]` starts with an SRT timestamp; returns where its hour digits end.
fn timestamp_shape_at(v: &Vec<char>, i: usize, hi: usize) -> (r: Option<usize>)
    requires
        i <= hi <= v.len(),
    ensures
        match r {
            Some(j) => timestamp_shape(v@, i as int, hi as int) == Some(j as int) && i < j && j + 10
                <= hi,
            None => timestamp_shape(v@, i as int, hi as int) is None,
        },
{
    let j = digit_run(v, i, hi);
    proof {
        crate::text::lemma_digit_run_end(v@, i as int, hi as int);
    }
    if 1 <= j - i && j - i <= 3 && hi >= 10 && j <= hi - 10 && v[j] == ':' && is_sexa_tens_char(
        v[j + 1],
    ) && is_digit_char(v[j + 2]) && v[j + 3] == ':' && is_sexa_tens_char(v[j + 4]) && is_digit_char(
        v[j + 5],
    ) && v[j + 6] == ',' && is_digit_char(v[j + 7]) && is_digit_char(v[j + 8]) && is_digit_char(
        v[j + 9],
    ) {
        Some(j)
    } else {
        None
    }
}

/// Checks whether `v[lo..hi]` starts with a timing line; returns where the hour digits
/// of its two timestamps end.
fn timing_shape_at(v: &Vec<char>, lo: usize, hi: usize) -> (r: Option<(usize, usize)>)
    requires
        lo <= hi <= v.len(),
    ensures
        match r {
            Some((j1, j2)) => timing_shape(v@, lo as int, hi as int) == Some((j1 as int, j2 as int))
                && lo < j1 && j1 + 15 < j2 && j2 + 10 <= hi,
            None => timing_shape(v@, lo as int, hi as int) is None,
        },
{
    match timestamp_shape_at(v, lo, hi) {
        Some(j1) => {
            if hi - j1 >= 15 && v[j1 + 10] == ' ' && v[j1 + 11] == '-' && v[j1 + 12] == '-' && v[j1
                + 13] == '>' && v[j1 + 14] == ' ' {
                match timestamp_shape_at(v, j1 + 15, hi) {
                    Some(j2) => Some((j1, j2)),
                    None => None,
                }
            } else {
                None
            }
        },
        None => None,
    }
}

/// Reads the components of the timestamp at `i` whose hour digits end at `j`.
fn read_timestamp(v: &Vec<char>, i: usize, j: usize) -> (r: Result<Timestamp, ParseSrtError>)
    requires
        i <= j,
        j + 10 <= v.len(),
    ensures
        match r {
            Ok(t) => spec_read_timestamp(v@, i as int, j as int) == Ok::<TimestampV, ParseSrtError>(t@),
            Err(e) => spec_read_timestamp(v@, i as int, j as int) == Err::<TimestampV, ParseSrtError>(e),
        },
{
    let h = match Hour::from_chars(v, i, j) {
        Ok(h) => h,
        Err(e) => return Err(ParseSrtError::ParseHour(e)),
    };
    let m = match Minute::from_chars(v, j + 1, j + 3) {
        Ok(m) => m,
        Err(e) => return Err(ParseSrtError::ParseMinute(e)),
    };
    let s = match Second::from_chars(v, j + 4, j + 6) {
        Ok(s) => s,
        Err(e) => return Err(ParseSrtError::ParseSecond(e)),
    };
    let ms = match Millisecond::from_chars(v, j + 7, j + 10) {
        Ok(ms) => ms,
        Err(e) => return Err(ParseSrtError::ParseMillisecond(e)),
    };
    Ok(Timestamp::from_hmsm(h, m, s, ms))
}

/// Reads the index number `v[lo..k]`.
fn read_index(v: &Vec<char>, lo: usize, k: usize) -> (r: Lexed)
    requires
        lo <= k <= v.len(),
    ensures
        lexed_view(r) == spec_read_index(v@, lo as int, k as int),
{
    if k - lo > 20 {
        return Lexed::Fail(ParseSrtError::ParseIndex(ParseIndexNumberError::Overflow));
    }
    match parse_uint(v, lo, k, 0xffff_ffff_ffff_ffff) {
        Err(e) => Lexed::Fail(ParseSrtError::ParseIndex(ParseIndexNumberError::ParseInt(e))),
        Ok(n) => match NonZeroU64::new(n) {
            None => Lexed::Fail(ParseSrtError::ParseIndex(ParseIndexNumberError::Zero)),
            Some(x) => Lexed::Number(x),
        },
    }
}

/// Reads the first token of the line `v[lo..hi]`.
fn lex_line(v: &Vec<char>, lo: usize, hi: usize) -> (r: Lexed)
    requires
        lo <= hi <= v.len(),
    ensures
        lexed_view(r) == spec_lex(v@, lo as int, hi as int),
{
    if lo >= hi {
        return Lexed::Nothing;
    }
    match timing_shape_at(v, lo, hi) {
        Some((j1, j2)) => {
            let a = match read_timestamp(v, lo, j1) {
                Ok(a) => a,
                Err(e) => return Lexed::Fail(e),
            };
            match read_timestamp(v, j1 + 15, j2) {
                Ok(b) => Lexed::Timing(a, b),
                Err(e) => Lexed::Fail(e),
            }
        },
        None => {
            let k = digit_run(v, lo, hi);
            if k > lo {
                read_index(v, lo, k)
            } else {
                Lexed::Fail(ParseSrtError::Unknown("unknown lexer error"))
            }
        },
    }
}

} // verus!

verus! {

/// How strictly `parse_with_options` reads an SRT file.
#[derive(Debug, Clone, Copy, PartialEq, Eq, Structural)]
pub struct Options {
    /// Accept a timing line where an index number is expected, as an entry without index.
    pub allow_missing_index: bool,
    /// Skip lines that are neither an index number nor (where allowed) a timing line,
    /// where an index number is expected.
    pub ignore_orphan_text: bool,
    /// Skip an entry whose timing line is broken, up to the next blank line.
    pub ignore_broken_header: bool,
    /// Require each index number to be greater than the one before it.
    pub monotonic_index: bool,
}

impl Options {
    /// The strict options: every deviation is an error, and index numbers must increase.
    pub fn strict() -> (o: Self)
        ensures
            o == (Options {
                allow_missing_index: false,
                ignore_orphan_text: false,
                ignore_broken_header: false,
                monotonic_index: true,
            }),
    {
        Options {
            allow_missing_index: false,
            ignore_orphan_text: false,
            ignore_broken_header: false,
            monotonic_index: true,
        }
    }

    /// The lossy options: missing indices are accepted, orphan text and broken entries are
    /// skipped, and index numbers may come in any order.
    pub fn lossy() -> (o: Self)
        ensures
            o == (Options {
                allow_missing_index: true,
                ignore_orphan_text: true,
                ignore_broken_header: true,
                monotonic_index: false,
            }),
    {
        Options {
            allow_missing_index: true,
            ignore_orphan_text: true,
            ignore_broken_header: true,
            monotonic_index: false,
        }
    }

    /// Returns these options with `allow_missing_index` set to `v`.
    pub fn with_allow_missing_index(self, v: bool) -> (o: Self)
        ensures
            o == (Options { allow_missing_index: v, ..self }),
    {
        Options { allow_missing_index: v, ..self }
    }

    /// Returns these options with `ignore_orphan_text` set to `v`.
    pub fn with_ignore_orphan_text(self, v: bool) -> (o: Self)
        ensures
            o == (Options { ignore_orphan_text: v, ..self }),
    {
        Options { ignore_orphan_text: v, ..self }
    }

    /// Returns these options with `ignore_broken_header` set to `v`.
    pub fn with_ignore_broken_header(self, v: bool) -> (o: Self)
        ensures
            o == (Options { ignore_broken_header: v, ..self }),
    {
        Options { ignore_broken_header: v, ..self }
    }

    /// Returns these options with `monotonic_index` set to `v`.
    pub fn with_monotonic_index(self, v: bool) -> (o: Self)
        ensures
            o == (Options { monotonic_index: v, ..self }),
    {
        Options { monotonic_index: v, ..self }
    }
}

/// A header as plain values: index number (if any), start, end.
pub type HeaderV = (Option<u64>, TimestampV, TimestampV);

/// An entry as plain values: its header and its body text.
pub type EntryV = (HeaderV, Seq<char>);

/// Where the SRT reader stands between two lines.
pub enum SrtState {
    /// Expecting an index number (blank lines are skipped).
    Index,
    /// Read the index number; expecting the timing line.
    Timing(u64),
    /// Read the header; collecting body lines, which so far span `s[start..end]`.
    Body(HeaderV, nat, nat),
    /// Skipping the rest of a broken entry, up to a blank line.
    Skip,
}

/// What reading one line does.
pub enum SrtStep {
    /// The reader goes on in this state, with this last index number, having finished
    /// this entry, if any.
    Next(SrtState, Option<u64>, Option<EntryV>),
    /// The reader stops with this error.
    Stop(ParseSrtError),
}

/// The body text spanning `s[start..end]` (empty when there is no body line).
pub open spec fn body_text(s: Seq<char>, start: nat, end: nat) -> Seq<char> {
    if start >= end {
        Seq::empty()
    } else {
        s.subrange(start as int, end as int)
    }
}

/// Where the line starting at `pos` ends (without its `\n` or `\r\n`), and where the next
/// line starts.
pub open spec fn srt_line_end(s: Seq<char>, pos: int) -> (int, int) {
    let i = crate::text::find_char(s, pos, '\n');
    if i < s.len() {
        (if i > pos && s[i - 1] == '\r' { i - 1 } else { i }, i + 1)
    } else {
        (s.len() as int, s.len() as int)
    }
}

/// Reading the line `s[lo..e]` in state `st`, the last index number being `last`.
pub open spec fn srt_step(s: Seq<char>, lo: int, e: int, st: SrtState, last: Option<u64>, o: Options) -> SrtStep {
    let t = crate::text::skip_bom(s, lo, e);
    let blank = t >= e;
    match st {
        SrtState::Index => if blank {
            SrtStep::Next(SrtState::Index, last, None)
        } else {
            match spec_lex(s, t, e) {
                LexedV::Number(n) => if o.monotonic_index && last is Some && n <= last->0 {
                    if o.ignore_broken_header {
                        SrtStep::Next(SrtState::Skip, last, None)
                    } else {
                        SrtStep::Stop(ParseSrtError::NonMonotonicIndex { last: last->0, got: n })
                    }
                } else {
                    SrtStep::Next(SrtState::Timing(n), Some(n), None)
                },
                LexedV::Timing(a, b) => if o.allow_missing_index {
                    SrtStep::Next(SrtState::Body((None, a, b), e as nat, e as nat), last, None)
                } else if o.ignore_orphan_text {
                    SrtStep::Next(SrtState::Index, last, None)
                } else {
                    SrtStep::Stop(ParseSrtError::Unknown("expected subtitle index number"))
                },
                LexedV::Fail(err) => if o.ignore_orphan_text {
                    SrtStep::Next(SrtState::Index, last, None)
                } else {
                    SrtStep::Stop(err)
                },
                LexedV::Nothing => SrtStep::Next(SrtState::Index, last, None),
            }
        },
        SrtState::Timing(n) => match spec_lex(s, t, e) {
            LexedV::Timing(a, b) => SrtStep::Next(
                SrtState::Body((Some(n), a, b), e as nat, e as nat),
                last,
                None,
            ),
            other => if o.ignore_broken_header {
                SrtStep::Next(if blank { SrtState::Index } else { SrtState::Skip }, last, None)
            } else {
                match other {
                    LexedV::Fail(err) => SrtStep::Stop(err),
                    _ => SrtStep::Stop(ParseSrtError::ExpectedHeader(crate::types::index::nonzero(n))),
                }
            },
        },
        SrtState::Body(h, start, end) => if blank {
            SrtStep::Next(SrtState::Index, last, Some((h, body_text(s, start, end))))
        } else {
            SrtStep::Next(
                SrtState::Body(h, if start == end { lo as nat } else { start }, e as nat),
                last,
                None,
            )
        },
        SrtState::Skip => SrtStep::Next(if blank { SrtState::Index } else { SrtState::Skip }, last, None),
    }
}

/// The entries read so far, with the entry being read at the end of the input, if any.
pub open spec fn srt_finish(s: Seq<char>, st: SrtState, acc: Seq<EntryV>) -> Seq<EntryV> {
    match st {
        SrtState::Body(h, start, end) => acc.push((h, body_text(s, start, end))),
        _ => acc,
    }
}

/// Reading `s` from `pos` on, in state `st`, with entries `acc` read before.
pub open spec fn srt_run(
    s: Seq<char>,
    pos: nat,
    st: SrtState,
    last: Option<u64>,
    acc: Seq<EntryV>,
    o: Options,
) -> Result<Seq<EntryV>, ParseSrtError>
    decreases s.len() - pos,
{
    if pos >= s.len() {
        Ok(srt_finish(s, st, acc))
    } else {
        let (e, next) = srt_line_end(s, pos as int);
        if next <= pos {
            Ok(srt_finish(s, st, acc))
        } else {
            match srt_step(s, pos as int, e, st, last, o) {
                SrtStep::Stop(err) => Err(err),
                SrtStep::Next(st2, last2, done) => srt_run(
                    s,
                    next as nat,
                    st2,
                    last2,
                    match done {
                        Some(x) => acc.push(x),
                        None => acc,
                    },
                    o,
                ),
            }
        }
    }
}

/// The entries of the SRT text `s` read with options `o`, or the error that stops the reading.
pub open spec fn spec_parse_srt(s: Seq<char>, o: Options) -> Result<Seq<EntryV>, ParseSrtError> {
    srt_run(s, 0, SrtState::Index, None, Seq::empty(), o)
}

/// The plain values of a parsed entry.
pub open spec fn entry_view<'a>(e: Entry<&'a str>) -> EntryV {
    (e.header_spec()@, e.body_spec()@)
}

/// The plain values of parsed entries.
pub open spec fn entries_view<'a>(v: Seq<Entry<&'a str>>) -> Seq<EntryV> {
    v.map_values(|e: Entry<&'a str>| entry_view(e))
}

} // verus!

verus! {

/// Where the SRT reader stands between two lines.
#[derive(Clone, Copy)]
enum State {
    Index,
    Timing(NonZeroU64),
    Body(Header, usize, usize),
    Skip,
}

/// The plain values of a reader state.
spec fn state_view(st: State) -> SrtState {
    match st {
        State::Index => SrtState::Index,
        State::Timing(n) => SrtState::Timing(n@),
        State::Body(h, start, end) => SrtState::Body(h@, start as nat, end as nat),
        State::Skip => SrtState::Skip,
    }
}

/// The body positions of a state lie within the input.
spec fn state_in_bounds(st: State, len: nat) -> bool {
    match st {
        State::Body(_, start, end) => start <= len && end <= len,
        _ => true,
    }
}

/// Returns where the line starting at `pos` ends, and where the next line starts.
fn srt_line_end_at(v: &Vec<char>, pos: usize) -> (r: (usize, usize))
    requires
        pos < v.len(),
    ensures
        (r.0 as int, r.1 as int) == srt_line_end(v@, pos as int),
        pos <= r.0 <= r.1 <= v.len(),
        r.1 > pos,
{
    let i = crate::text::find(v, pos, '\n');
    proof {
        crate::text::lemma_find_char(v@, pos as int, '\n');
    }
    if i < v.len() {
        let e = if i > pos && v[i - 1] == '\r' {
            i - 1
        } else {
            i
        };
        (e, i + 1)
    } else {
        (v.len(), v.len())
    }
}

/// The body text of an entry: `input[start..end]`, or the empty string.
pub(crate) fn body_slice<'a>(input: &'a str, start: usize, end: usize) -> (b: &'a str)
    requires
        start <= input@.len(),
        end <= input@.len(),
    ensures
        b@ == body_text(input@, start as nat, end as nat),
{
    if start >= end {
        proof {
            reveal_strlit("");
        }
        ""
    } else {
        input.substring_char(start, end)
    }
}

/// An entry with the given header and body.
fn make_entry<'a>(header: &Header, body: &'a str) -> (e: Entry<&'a str>)
    ensures
        entry_view(e) == (header@, body@),
{
    Entry::new(*header, body)
}

/// Parse an SRT string into a list of entries with borrowed text bodies, with the
/// given options.
///
/// The reader goes line by line (lines end in `\n` or `\r\n`; byte order marks at the
/// start of a line are ignored). An entry is an index number line, a timing line
/// `HH:MM:SS,mmm --> HH:MM:SS,mmm`, and body lines up to a blank line or the end.
pub fn parse_with_options<'a>(input: &'a str, o: Options) -> (r: Result<Vec<Entry<&'a str>>, ParseSrtError>)
    ensures
        match r {
            Ok(v) => spec_parse_srt(input@, o) == Ok::<Seq<EntryV>, ParseSrtError>(entries_view(v@)),
            Err(e) => spec_parse_srt(input@, o) == Err::<Seq<EntryV>, ParseSrtError>(e),
        },
{
    let v = crate::text::chars_of(input);
    let mut pos: usize = 0;
    let mut st = State::Index;
    let mut last: Option<u64> = None;
    let mut entries: Vec<Entry<&'a str>> = Vec::new();
    assert(entries_view(entries@) =~= Seq::<EntryV>::empty());
    while pos < v.len()
        invariant
            v@ == input@,
            pos <= v.len(),
            state_in_bounds(st, v.len() as nat),
            spec_parse_srt(v@, o) == srt_run(v@, pos as nat, state_view(st), last, entries_view(entries@), o),
        decreases v.len() - pos,
    {
        let (e, next) = srt_line_end_at(&v, pos);
        let t = crate::text::skip_boms(&v, pos, e);
        let blank = t >= e;
        let ghost acc = entries_view(entries@);
        match st {
            State::Index => {
                if !blank {
                    match lex_line(&v, t, e) {
                        Lexed::Number(n) => {
                            let got = n.get();
                            if o.monotonic_index && last.is_some() && got <= last.unwrap() {
                                if o.ignore_broken_header {
                                    st = State::Skip;
                                } else {
                                    return Err(ParseSrtError::NonMonotonicIndex { last: last.unwrap(), got });
                                }
                            } else {
                                st = State::Timing(n);
                                last = Some(got);
                            }
                        },
                        Lexed::Timing(a, b) => {
                            if o.allow_missing_index {
                                st = State::Body(Header::new(a, b), e, e);
                            } else if !o.ignore_orphan_text {
                                return Err(ParseSrtError::Unknown("expected subtitle index number"));
                            }
                        },
                        Lexed::Fail(err) => {
                            if !o.ignore_orphan_text {
                                return Err(err);
                            }
                        },
                        Lexed::Nothing => {},
                    }
                }
            },
            State::Timing(n) => {
                match lex_line(&v, t, e) {
                    Lexed::Timing(a, b) => {
                        st = State::Body(Header::new(a, b).with_index(n), e, e);
                    },
                    other => {
                        if o.ignore_broken_header {
                            st = if blank { State::Index } else { State::Skip };
                        } else {
                            match other {
                                Lexed::Fail(err) => {
                                    return Err(err);
                                },
                                _ => {
                                    return Err(ParseSrtError::ExpectedHeader(n));
                                },
                            }
                        }
                    },
                }
            },
            State::Body(h, start, end) => {
                if blank {
                    let body = body_slice(input, start, end);
                    let entry = make_entry(&h, body);
                    entries.push(entry);
                    proof {
                        assert(entries_view(entries@) =~= acc.push((h@, body_text(v@, start as nat, end as nat))));
                    }
                    st = State::Index;
                } else {
                    let new_start = if start == end { pos } else { start };
                    st = State::Body(h, new_start, e);
                }
            },
            State::Skip => {
                if blank {
                    st = State::Index;
                }
            },
        }
        pos = next;
    }
    let ghost acc = entries_view(entries@);
    if let State::Body(h, start, end) = st {
        let body = body_slice(input, start, end);
        let entry = make_entry(&h, body);
        entries.push(entry);
        proof {
            assert(entries_view(entries@) =~= acc.push((h@, body_text(v@, start as nat, end as nat))));
        }
    }
    Ok(entries)
}

/// Parse an SRT string into a list of entries with borrowed text bodies.
///
/// Every entry needs an index number and any malformed line is an error; index numbers
/// may come in any order.
pub fn parse<'a>(input: &'a str) -> (r: Result<Vec<Entry<&'a str>>, ParseSrtError>)
    ensures
        match r {
            Ok(v) => spec_parse_srt(input@, Options::parse_spec()) == Ok::<Seq<EntryV>, ParseSrtError>(entries_view(v@)),
            Err(e) => spec_parse_srt(input@, Options::parse_spec()) == Err::<Seq<EntryV>, ParseSrtError>(e),
        },
{
    parse_with_options(input, Options::strict().with_monotonic_index(false))
}

impl Options {
    /// The strict options as plain values.
    pub open spec fn strict_spec() -> Options {
        Options {
            allow_missing_index: false,
            ignore_orphan_text: false,
            ignore_broken_header: false,
            monotonic_index: true,
        }
    }

    /// The options `parse` reads with: no deviation allowed, except that index numbers
    /// may come in any order.
    pub open spec fn parse_spec() -> Options {
        Options::exact_spec(false)
    }

    /// The options that allow no deviation, with the index check on or off.
    pub open spec fn exact_spec(monotonic: bool) -> Options {
        Options {
            allow_missing_index: false,
            ignore_orphan_text: false,
            ignore_broken_header: false,
            monotonic_index: monotonic,
        }
    }

    /// The lossy options as plain values.
    pub open spec fn lossy_spec() -> Options {
        Options {
            allow_missing_index: true,
            ignore_orphan_text: true,
            ignore_broken_header: true,
            monotonic_index: false,
        }
    }
}

} // verus!

verus! {

/// Where the reading of a line that allows no deviation (the index check on or off) goes on, the lossy reading goes on the same way.
proof fn lemma_step_strict_lossy(s: Seq<char>, lo: int, e: int, st: SrtState, last: Option<u64>, m: bool)
    ensures
        srt_step(s, lo, e, st, last, Options::exact_spec(m)) matches SrtStep::Next(a, b, c)
            ==> srt_step(s, lo, e, st, last, Options::lossy_spec()) == SrtStep::Next(a, b, c),
{
}

/// Reading from any point on: a success that allows no deviation is also the lossy result.
proof fn lemma_run_strict_lossy(
    s: Seq<char>,
    pos: nat,
    st: SrtState,
    last: Option<u64>,
    acc: Seq<EntryV>,
    m: bool,
)
    ensures
        srt_run(s, pos, st, last, acc, Options::exact_spec(m)) is Ok ==> srt_run(
            s,
            pos,
            st,
            last,
            acc,
            Options::lossy_spec(),
        ) == srt_run(s, pos, st, last, acc, Options::exact_spec(m)),
    decreases s.len() - pos,
{
    if pos < s.len() {
        let (e, next) = srt_line_end(s, pos as int);
        if next > pos {
            lemma_step_strict_lossy(s, pos as int, e, st, last, m);
            match srt_step(s, pos as int, e, st, last, Options::exact_spec(m)) {
                SrtStep::Next(st2, last2, done) => {
                    lemma_run_strict_lossy(
                        s,
                        next as nat,
                        st2,
                        last2,
                        match done {
                            Some(x) => acc.push(x),
                            None => acc,
                        },
                        m,
                    );
                },
                SrtStep::Stop(_) => {},
            }
        }
    }
}

/// Any SRT text that the strict reader, or `parse`, accepts, the lossy reader reads to the
/// same entries.
pub proof fn law_lossy_agrees_with_strict(s: Seq<char>)
    ensures
        spec_parse_srt(s, Options::strict_spec()) is Ok ==> spec_parse_srt(s, Options::lossy_spec())
            == spec_parse_srt(s, Options::strict_spec()),
        spec_parse_srt(s, Options::parse_spec()) is Ok ==> spec_parse_srt(s, Options::lossy_spec())
            == spec_parse_srt(s, Options::parse_spec()),
{
    lemma_run_strict_lossy(s, 0, SrtState::Index, None, Seq::empty(), true);
    lemma_run_strict_lossy(s, 0, SrtState::Index, None, Seq::empty(), false);
}

} // verus!

verus! {

/// The components of a timestamp are in range.
pub open spec fn timestamp_valid(t: TimestampV) -> bool {
    t.0 <= 999 && t.1 <= 59 && t.2 <= 59 && t.3 <= 999
}

/// The tens digit of a padded value below 60 is at most `5`.
pub proof fn lemma_sexa_text(m: u8)
    requires
        m <= 59,
    ensures
        padded(m as nat, 2).len() == 2,
        is_sexa_tens(padded(m as nat, 2)[0]),
        is_digit(padded(m as nat, 2)[1]),
{
    let p = padded(m as nat, 2);
    crate::types::unit::law_minute_roundtrip(m);
    reveal_with_fuel(crate::utils::pow10, 3);
    crate::text::lemma_padded(m as nat, 2);
    crate::utils::lemma_digits_bound(m as nat, 2);
    crate::types::unit::lemma_short_numerals(p);
    assert(crate::text::is_digit(p[0]) && crate::text::is_digit(p[1]));
}

/// Facts about the text of a valid timestamp.
proof fn lemma_timestamp_text(t: TimestampV)
    requires
        timestamp_valid(t),
    ensures
        padded(t.0 as nat, 2).len() == 2 || padded(t.0 as nat, 2).len() == 3,
        crate::text::all_digits(padded(t.0 as nat, 2)),
        timestamp_text(t).len() == padded(t.0 as nat, 2).len() + 10,
        padded(t.1 as nat, 2).len() == 2,
        padded(t.2 as nat, 2).len() == 2,
        padded(t.3 as nat, 3).len() == 3,
        crate::text::all_digits(padded(t.3 as nat, 3)),
        is_sexa_tens(padded(t.1 as nat, 2)[0]),
        is_digit(padded(t.1 as nat, 2)[1]),
        is_sexa_tens(padded(t.2 as nat, 2)[0]),
        is_digit(padded(t.2 as nat, 2)[1]),
{
    reveal_with_fuel(crate::utils::pow10, 4);
    crate::text::lemma_padded(t.0 as nat, 2);
    crate::utils::lemma_digits_bound(t.0 as nat, 3);
    crate::text::lemma_padded(t.3 as nat, 3);
    crate::utils::lemma_digits_bound(t.3 as nat, 3);
    lemma_sexa_text(t.1);
    lemma_sexa_text(t.2);
}

/// The text of a valid timestamp, found in `s` at `i`, has the timestamp shape and reads
/// back as that timestamp.
proof fn lemma_timestamp_reads(s: Seq<char>, i: int, hi: int, t: TimestampV)
    requires
        timestamp_valid(t),
        0 <= i,
        i + timestamp_text(t).len() <= hi <= s.len(),
        s.subrange(i, i + timestamp_text(t).len()) == timestamp_text(t),
    ensures
        timestamp_shape(s, i, hi) == Some(i + padded(t.0 as nat, 2).len()),
        spec_read_timestamp(s, i, i + padded(t.0 as nat, 2).len()) == Ok::<TimestampV, ParseSrtError>(t),
{
    let tt = timestamp_text(t);
    let ph = padded(t.0 as nat, 2);
    let pm = padded(t.1 as nat, 2);
    let ps = padded(t.2 as nat, 2);
    let pms = padded(t.3 as nat, 3);
    lemma_timestamp_text(t);
    let j = i + ph.len();
    let l = ph.len() as int;
    assert forall|k: int| 0 <= k < tt.len() implies s[i + k] == #[trigger] tt[k] by {
        assert(s.subrange(i, i + tt.len())[k] == s[i + k]);
    }
    assert forall|k: int| i <= k < j implies is_digit(#[trigger] s[k]) by {
        assert(tt[k - i] == ph[k - i]);
        assert(s[i + (k - i)] == tt[k - i]);
    }
    assert(tt[l] == ':');
    assert(s[i + l] == tt[l]);
    crate::text::lemma_digit_run_exact(s, i, j, hi);
    assert(s[j + 1] == tt[l + 1] && tt[l + 1] == pm[0]);
    assert(s[j + 2] == tt[l + 2] && tt[l + 2] == pm[1]);
    assert(s[j + 3] == tt[l + 3] && tt[l + 3] == ':');
    assert(s[j + 4] == tt[l + 4] && tt[l + 4] == ps[0]);
    assert(s[j + 5] == tt[l + 5] && tt[l + 5] == ps[1]);
    assert(s[j + 6] == tt[l + 6] && tt[l + 6] == ',');
    assert(s[j + 7] == tt[l + 7] && tt[l + 7] == pms[0]);
    assert(s[j + 8] == tt[l + 8] && tt[l + 8] == pms[1]);
    assert(s[j + 9] == tt[l + 9] && tt[l + 9] == pms[2]);
    assert(is_digit(pms[0]) && is_digit(pms[1]) && is_digit(pms[2]));
    assert(s.subrange(i, j) =~= ph) by {
        assert forall|k: int| 0 <= k < ph.len() implies s.subrange(i, j)[k] == ph[k] by {
            assert(tt[k] == ph[k]);
            assert(s[i + k] == tt[k]);
        }
    }
    assert(s.subrange(j + 1, j + 3) =~= pm);
    assert(s.subrange(j + 4, j + 6) =~= ps);
    assert(s.subrange(j + 7, j + 10) =~= pms);
    crate::types::unit::law_hour_roundtrip(t.0);
    crate::types::unit::law_minute_roundtrip(t.1);
    crate::types::unit::law_second_roundtrip(t.2);
    crate::types::unit::law_millisecond_roundtrip(t.3);
}

} // verus!

verus! {

/// The text of a timing line: `start --> end`.
pub open spec fn timing_text(a: TimestampV, b: TimestampV) -> Seq<char> {
    timestamp_text(a) + seq![' ', '-', '-', '>', ' '] + timestamp_text(b)
}

/// The text of a valid timestamp holds no line break or carriage return, and ends in a digit.
proof fn lemma_timestamp_text_chars(t: TimestampV)
    requires
        timestamp_valid(t),
    ensures
        forall|k: int| 0 <= k < timestamp_text(t).len() ==> #[trigger] timestamp_text(t)[k] != '\n'
            && timestamp_text(t)[k] != '\r',
        is_digit(timestamp_text(t)[0]),
        is_digit(timestamp_text(t)[timestamp_text(t).len() - 1]),
{
    lemma_timestamp_text(t);
    let tt = timestamp_text(t);
    let ph = padded(t.0 as nat, 2);
    let pm = padded(t.1 as nat, 2);
    let ps = padded(t.2 as nat, 2);
    let pms = padded(t.3 as nat, 3);
    let l = ph.len() as int;
    assert forall|k: int| 0 <= k < tt.len() implies #[trigger] tt[k] != '\n' && tt[k] != '\r' by {
        if k < l {
            assert(tt[k] == ph[k]);
            assert(is_digit(ph[k]));
        } else if k == l + 1 || k == l + 2 {
            assert(is_digit(pm[k - l - 1]) || is_sexa_tens(pm[k - l - 1]));
        } else if k == l + 4 || k == l + 5 {
            assert(is_digit(ps[k - l - 4]) || is_sexa_tens(ps[k - l - 4]));
        } else if k >= l + 7 {
            assert(tt[k] == pms[k - l - 7]);
            assert(is_digit(pms[k - l - 7]));
        }
    }
    assert(tt[0] == ph[0]);
    assert(is_digit(ph[0]));
    assert(tt[tt.len() - 1] == pms[2]);
    assert(is_digit(pms[2]));
}

/// The text of a timing line, found in `s` from `lo` to the end of the line `e`, reads back
/// as that timing line.
proof fn lemma_timing_reads(s: Seq<char>, lo: int, e: int, a: TimestampV, b: TimestampV)
    requires
        timestamp_valid(a),
        timestamp_valid(b),
        0 <= lo,
        e == lo + timing_text(a, b).len(),
        e <= s.len(),
        s.subrange(lo, e) == timing_text(a, b),
    ensures
        spec_lex(s, lo, e) == LexedV::Timing(a, b),
{
    let l = timing_text(a, b);
    let ta = timestamp_text(a);
    let tb = timestamp_text(b);
    lemma_timestamp_text(a);
    lemma_timestamp_text(b);
    assert forall|k: int| 0 <= k < l.len() implies s[lo + k] == #[trigger] l[k] by {
        assert(s.subrange(lo, e)[k] == s[lo + k]);
    }
    assert(s.subrange(lo, lo + ta.len()) =~= ta) by {
        assert forall|k: int| 0 <= k < ta.len() implies s.subrange(lo, lo + ta.len())[k] == ta[k] by {
            assert(l[k] == ta[k]);
            assert(s[lo + k] == l[k]);
        }
    }
    lemma_timestamp_reads(s, lo, e, a);
    let j1 = lo + padded(a.0 as nat, 2).len();
    let o = ta.len() as int;
    assert(j1 + 10 == lo + o);
    assert(s[lo + o] == l[o] && l[o] == ' ');
    assert(s[lo + o + 1] == l[o + 1] && l[o + 1] == '-');
    assert(s[lo + o + 2] == l[o + 2] && l[o + 2] == '-');
    assert(s[lo + o + 3] == l[o + 3] && l[o + 3] == '>');
    assert(s[lo + o + 4] == l[o + 4] && l[o + 4] == ' ');
    assert(s.subrange(lo + o + 5, lo + o + 5 + tb.len()) =~= tb) by {
        assert forall|k: int| 0 <= k < tb.len() implies s.subrange(lo + o + 5, lo + o + 5 + tb.len())[k]
            == tb[k] by {
            assert(l[o + 5 + k] == tb[k]);
            assert(s[lo + (o + 5 + k)] == l[o + 5 + k]);
        }
    }
    lemma_timestamp_reads(s, lo + o + 5, e, b);
}

/// A header is valid: it has an index number and its timestamps are in range.
pub open spec fn header_valid(h: HeaderV) -> bool {
    &&& h.0 is Some
    &&& h.0->0 != 0
    &&& timestamp_valid(h.1)
    &&& timestamp_valid(h.2)
}

/// `i` starts a line of `b`: it is the start of `b`, or it follows a line feed.
pub open spec fn starts_line(b: Seq<char>, i: int) -> bool {
    0 <= i <= b.len() && (i == 0 || b[i - 1] == '\n')
}

/// `b` reads back as the body of an entry: each of its lines, short of a carriage return
/// before its line feed, holds something besides byte order marks (so `b` is not empty
/// and does not end with a line feed).
#[verifier::opaque]
pub open spec fn body_reads_back(b: Seq<char>) -> bool {
    forall|i: int| #[trigger]
        starts_line(b, i) ==> crate::text::skip_bom(b, i, srt_line_end(b, i).0) < srt_line_end(b, i).0
}

/// The index line `n` followed by a line break, found in `s` at the start, is read as the
/// index number `n`, whatever the options.
proof fn lemma_index_line(s: Seq<char>, n: u64, o: Options)
    requires
        n != 0,
        s.len() > crate::text::dec_digits(n as nat).len(),
        s.subrange(0, crate::text::dec_digits(n as nat).len() as int) == crate::text::dec_digits(n as nat),
        s[crate::text::dec_digits(n as nat).len() as int] == '\n',
    ensures
        srt_line_end(s, 0) == (crate::text::dec_digits(n as nat).len() as int, crate::text::dec_digits(n as nat).len() + 1int),
        srt_step(s, 0, crate::text::dec_digits(n as nat).len() as int, SrtState::Index, None, o)
            == SrtStep::Next(SrtState::Timing(n), Some(n), None),
{
    let d = crate::text::dec_digits(n as nat);
    crate::text::lemma_dec_digits(n as nat);
    crate::utils::lemma_u64_digits_bound(n);
    let k = d.len() as int;
    assert forall|i: int| 0 <= i < k implies #[trigger] s[i] == d[i] by {
        assert(s.subrange(0, k)[i] == s[i]);
    }
    assert forall|i: int| 0 <= i < k implies is_digit(#[trigger] s[i]) by {
        assert(s[i] == d[i]);
    }
    crate::text::lemma_find_char_exact(s, 0, k, '\n');
    assert(is_digit(s[0]));
    assert(is_digit(s[k - 1]));
    assert(crate::text::skip_bom(s, 0, k) == 0);
    crate::text::lemma_digit_run_exact(s, 0, k, k);
    assert(timestamp_shape(s, 0, k) is None);
    crate::text::lemma_parse_uint_digits(d, 0xffff_ffff_ffff_ffff);
    assert(spec_lex(s, 0, k) == LexedV::Number(n));
}

/// The timing line of `a` and `b` followed by a line break, found in `s` at `p1`, is read
/// as the timing line of the entry numbered `n`.
proof fn lemma_timing_line(s: Seq<char>, p1: int, a: TimestampV, b: TimestampV, n: u64, o: Options)
    requires
        timestamp_valid(a),
        timestamp_valid(b),
        0 <= p1,
        p1 + timing_text(a, b).len() < s.len(),
        s.subrange(p1, p1 + timing_text(a, b).len()) == timing_text(a, b),
        s[p1 + timing_text(a, b).len()] == '\n',
    ensures
        srt_line_end(s, p1) == (p1 + timing_text(a, b).len(), p1 + timing_text(a, b).len() + 1),
        srt_step(s, p1, p1 + timing_text(a, b).len(), SrtState::Timing(n), Some(n), o) == SrtStep::Next(
            SrtState::Body((Some(n), a, b), (p1 + timing_text(a, b).len()) as nat, (p1 + timing_text(a, b).len()) as nat),
            Some(n),
            None,
        ),
{
    let l = timing_text(a, b);
    let ta = timestamp_text(a);
    let tb = timestamp_text(b);
    let e2 = p1 + l.len();
    lemma_timestamp_text_chars(a);
    lemma_timestamp_text_chars(b);
    assert forall|i: int| 0 <= i < l.len() implies #[trigger] s[p1 + i] == l[i] by {
        assert(s.subrange(p1, e2)[i] == s[p1 + i]);
    }
    assert forall|i: int| p1 <= i < e2 implies #[trigger] s[i] != '\n' by {
        assert(s[p1 + (i - p1)] == l[i - p1]);
        if i - p1 < ta.len() {
            assert(l[i - p1] == ta[i - p1]);
        } else if i - p1 >= ta.len() + 5 {
            assert(l[i - p1] == tb[i - p1 - ta.len() - 5]);
        }
    }
    crate::text::lemma_find_char_exact(s, p1, e2, '\n');
    assert(s[p1 + (l.len() - 1)] == l[l.len() - 1]);
    assert(l[l.len() - 1] == tb[tb.len() - 1]);
    assert(s[p1 + 0] == l[0] && l[0] == ta[0]);
    assert(crate::text::skip_bom(s, p1, e2) == p1);
    lemma_timing_reads(s, p1, e2, a, b);
}

/// Skipping byte order marks in `s[p2 + i..p2 + e]`, where `s` holds `b` at `p2`, is
/// skipping them in `b[i..e]`.
proof fn lemma_skip_bom_within(s: Seq<char>, p2: int, b: Seq<char>, i: int, e: int)
    requires
        0 <= p2,
        p2 + b.len() <= s.len(),
        s.subrange(p2, p2 + b.len()) == b,
        0 <= i <= e <= b.len(),
    ensures
        crate::text::skip_bom(s, p2 + i, p2 + e) == p2 + crate::text::skip_bom(b, i, e),
    decreases e - i,
{
    if i < e {
        assert(s[p2 + i] == b[i]) by {
            assert(s.subrange(p2, p2 + b.len())[i] == s[p2 + i]);
        }
        lemma_skip_bom_within(s, p2, b, i + 1, e);
    }
}

/// Finding a character in `s` from `p2 + i`, where `s` ends with `b` at `p2`, is finding it
/// in `b` from `i`.
proof fn lemma_find_char_suffix(s: Seq<char>, p2: int, b: Seq<char>, i: int, c: char)
    requires
        0 <= p2,
        p2 + b.len() == s.len(),
        s.subrange(p2, s.len() as int) == b,
        0 <= i <= b.len(),
    ensures
        crate::text::find_char(s, p2 + i, c) == p2 + crate::text::find_char(b, i, c),
    decreases b.len() - i,
{
    if i < b.len() {
        assert(s[p2 + i] == b[i]) by {
            assert(s.subrange(p2, s.len() as int)[i] == s[p2 + i]);
        }
        lemma_find_char_suffix(s, p2, b, i + 1, c);
    }
}

/// The line of `s` starting at `p2 + i`, where `s` ends with `b` at `p2`, is the line of `b`
/// starting at `i`, moved.
proof fn lemma_line_end_suffix(s: Seq<char>, p2: int, b: Seq<char>, i: int)
    requires
        0 <= p2,
        p2 + b.len() == s.len(),
        s.subrange(p2, s.len() as int) == b,
        0 <= i < b.len(),
    ensures
        srt_line_end(s, p2 + i) == (p2 + srt_line_end(b, i).0, p2 + srt_line_end(b, i).1),
        i < srt_line_end(b, i).1 <= b.len(),
        srt_line_end(b, i).0 <= srt_line_end(b, i).1,
        srt_line_end(b, i).1 < b.len() ==> b[srt_line_end(b, i).1 - 1] == '\n',
        i <= srt_line_end(b, i).0,
{
    lemma_find_char_suffix(s, p2, b, i, '\n');
    crate::text::lemma_find_char(b, i, '\n');
    let j = crate::text::find_char(b, i, '\n');
    if j < b.len() && j > i {
        assert(s[p2 + j - 1] == b[j - 1]) by {
            assert(s.subrange(p2, s.len() as int)[j - 1] == s[p2 + j - 1]);
        }
    }
}

/// Reading the lines of a body `b` that reads back, found at the end of `s` at `p2`, from
/// the line starting at `q` on, into an entry whose body so far is empty (at `p2`) or
/// starts at `p2`, ends the text with that entry holding all of `b`.
proof fn lemma_body_rest(
    s: Seq<char>,
    p2: int,
    b: Seq<char>,
    h: HeaderV,
    q: int,
    st: nat,
    en: nat,
    last: Option<u64>,
    acc: Seq<EntryV>,
    o: Options,
)
    requires
        0 <= p2,
        p2 + b.len() == s.len(),
        s.subrange(p2, s.len() as int) == b,
        body_reads_back(b),
        starts_line(b, q - p2),
        (q == p2 && st == en) || (q > p2 && st == p2 && en != p2),
    ensures
        srt_run(s, q as nat, SrtState::Body(h, st, en), last, acc, o) == Ok::<Seq<EntryV>, ParseSrtError>(
            acc.push((h, b)),
        ),
    decreases s.len() - q,
{
    reveal(body_reads_back);
    let i = q - p2;
    assert(starts_line(b, i));
    assert(crate::text::skip_bom(b, i, srt_line_end(b, i).0) < srt_line_end(b, i).0);
    if q < s.len() {
        lemma_line_end_suffix(s, p2, b, i);
        let (eb, nb) = srt_line_end(b, i);
        lemma_skip_bom_within(s, p2, b, i, eb);
        let e = p2 + eb;
        let nx = p2 + nb;
        assert(srt_step(s, q, e, SrtState::Body(h, st, en), last, o) == SrtStep::Next(
            SrtState::Body(h, p2 as nat, e as nat),
            last,
            None,
        ));
        if nb < b.len() {
            assert(starts_line(b, nb));
            lemma_body_rest(s, p2, b, h, nx, p2 as nat, e as nat, last, acc, o);
        } else {
            crate::text::lemma_find_char(b, i, '\n');
            let j = crate::text::find_char(b, i, '\n');
            if j < b.len() {
                assert(starts_line(b, b.len() as int));
                assert(srt_line_end(b, b.len() as int).0 == b.len());
            }
            assert(e == s.len());
            assert(body_text(s, p2 as nat, s.len()) =~= b);
        }
    }
}

/// The body lines of an entry, read after its timing line, give the entry with the body
/// `b` at the end of the text.
proof fn lemma_body_all(s: Seq<char>, p2: int, b: Seq<char>, h: HeaderV, last: Option<u64>, o: Options)
    requires
        1 <= p2,
        p2 + b.len() == s.len(),
        s.subrange(p2, s.len() as int) == b,
        body_reads_back(b),
    ensures
        srt_run(s, p2 as nat, SrtState::Body(h, (p2 - 1) as nat, (p2 - 1) as nat), last, Seq::empty(), o)
            == Ok::<Seq<EntryV>, ParseSrtError>(seq![(h, b)]),
{
    assert(starts_line(b, 0));
    lemma_body_rest(s, p2, b, h, p2, (p2 - 1) as nat, (p2 - 1) as nat, last, Seq::empty(), o);
    assert(Seq::<EntryV>::empty().push((h, b)) =~= seq![(h, b)]);
}

/// Writing a header with `encode` and a body after it, then reading the text with any
/// options, gives back that one entry, for a body whose every line holds something besides
/// byte order marks (short of a carriage return before its line feed).
#[verifier::spinoff_prover]
pub proof fn law_entry_roundtrip(h: HeaderV, b: Seq<char>, o: Options)
    requires
        header_valid(h),
        body_reads_back(b),
    ensures
        spec_parse_srt(header_text(h) + b, o) == Ok::<Seq<EntryV>, ParseSrtError>(seq![(h, b)]),
{
    let n = h.0->0;
    let d = crate::text::dec_digits(n as nat);
    let l = timing_text(h.1, h.2);
    let s = header_text(h) + b;
    crate::text::lemma_dec_digits(n as nat);
    let k = d.len() as int;
    let p1 = k + 1;
    let e2 = p1 + l.len();
    let p2 = e2 + 1;
    assert(header_text(h) =~= d.push('\n') + l + seq!['\n']);
    assert(s.subrange(0, k) =~= d);
    lemma_index_line(s, n, o);
    assert(s.subrange(p1, e2) =~= l);
    lemma_timing_line(s, p1, h.1, h.2, n, o);
    assert(s.subrange(p2, s.len() as int) =~= b);
    let hv: HeaderV = (Some(n), h.1, h.2);
    assert(hv == h);
    lemma_body_all(s, p2, b, h, Some(n), o);
    assert(srt_run(s, p2 as nat, SrtState::Body(h, e2 as nat, e2 as nat), Some(n), Seq::empty(), o)
        == Ok::<Seq<EntryV>, ParseSrtError>(seq![(h, b)]));
    assert(srt_run(s, p1 as nat, SrtState::Timing(n), Some(n), Seq::empty(), o)
        == Ok::<Seq<EntryV>, ParseSrtError>(seq![(h, b)]));
}

} // verus!

verus! {

/// What one step of the SRT reader does, with the entry it finishes as an exec value.
fn step_line<'a>(
    input: &'a str,
    v: &Vec<char>,
    pos: usize,
    e: usize,
    st: State,
    last: Option<u64>,
    o: Options,
) -> (r: Result<(State, Option<u64>, Option<Entry<&'a str>>), ParseSrtError>)
    requires
        v@ == input@,
        pos <= e <= v.len(),
        state_in_bounds(st, v.len() as nat),
    ensures
        match r {
            Ok((st2, last2, done)) => state_in_bounds(st2, v.len() as nat) && srt_step(v@, pos as int, e as int, state_view(st), last, o)
                == SrtStep::Next(
                state_view(st2),
                last2,
                match done {
                    Some(x) => Some(entry_view(x)),
                    None => None,
                },
            ),
            Err(err) => srt_step(v@, pos as int, e as int, state_view(st), last, o) == SrtStep::Stop(err),
        },
{
    let t = crate::text::skip_boms(v, pos, e);
    let blank = t >= e;
    match st {
        State::Index => {
            if blank {
                return Ok((State::Index, last, None));
            }
            match lex_line(v, t, e) {
                Lexed::Number(n) => {
                    let got = n.get();
                    if o.monotonic_index && last.is_some() && got <= last.unwrap() {
                        if o.ignore_broken_header {
                            Ok((State::Skip, last, None))
                        } else {
                            Err(ParseSrtError::NonMonotonicIndex { last: last.unwrap(), got })
                        }
                    } else {
                        Ok((State::Timing(n), Some(got), None))
                    }
                },
                Lexed::Timing(a, b) => {
                    if o.allow_missing_index {
                        Ok((State::Body(Header::new(a, b), e, e), last, None))
                    } else if o.ignore_orphan_text {
                        Ok((State::Index, last, None))
                    } else {
                        Err(ParseSrtError::Unknown("expected subtitle index number"))
                    }
                },
                Lexed::Fail(err) => {
                    if o.ignore_orphan_text {
                        Ok((State::Index, last, None))
                    } else {
                        Err(err)
                    }
                },
                Lexed::Nothing => Ok((State::Index, last, None)),
            }
        },
        State::Timing(n) => match lex_line(v, t, e) {
            Lexed::Timing(a, b) => Ok((State::Body(Header::new(a, b).with_index(n), e, e), last, None)),
            other => {
                if o.ignore_broken_header {
                    Ok((if blank { State::Index } else { State::Skip }, last, None))
                } else {
                    match other {
                        Lexed::Fail(err) => Err(err),
                        _ => Err(ParseSrtError::ExpectedHeader(n)),
                    }
                }
            },
        },
        State::Body(h, start, end) => {
            if blank {
                let body = body_slice(input, start, end);
                Ok((State::Index, last, Some(make_entry(&h, body))))
            } else {
                let new_start = if start == end { pos } else { start };
                Ok((State::Body(h, new_start, e), last, None))
            }
        },
        State::Skip => Ok((if blank { State::Index } else { State::Skip }, last, None)),
    }
}

/// The state of the lazy SRT reader as plain values: where the next line starts, where
/// the reader stands, the last index number, and whether it has stopped.
pub struct SrtParserV {
    /// Where the next line starts.
    pub pos: nat,
    /// Where the reader stands.
    pub state: SrtState,
    /// The last index number read.
    pub last: Option<u64>,
    /// The reader has stopped (at the end, or after an error).
    pub done: bool,
}

/// What one call of `Parser::next` does from `p`, reading `s` with options `o`: the state
/// after it and the entry or error it hands out, if any.
pub open spec fn srt_next(s: Seq<char>, p: SrtParserV, o: Options) -> (SrtParserV, Option<Result<EntryV, ParseSrtError>>)
    decreases s.len() - p.pos,
{
    if p.done {
        (p, None)
    } else if p.pos >= s.len() {
        match p.state {
            SrtState::Body(h, a, b) => (
                SrtParserV { state: SrtState::Index, done: true, ..p },
                Some(Ok((h, body_text(s, a, b)))),
            ),
            _ => (SrtParserV { done: true, ..p }, None),
        }
    } else {
        let (e, nx) = srt_line_end(s, p.pos as int);
        if nx <= p.pos {
            (SrtParserV { done: true, ..p }, None)
        } else {
            match srt_step(s, p.pos as int, e, p.state, p.last, o) {
                SrtStep::Stop(err) => (SrtParserV { pos: nx as nat, state: SrtState::Skip, done: true, ..p }, Some(Err(err))),
                SrtStep::Next(st2, last2, done) => {
                    let p2 = SrtParserV { pos: nx as nat, state: st2, last: last2, done: false };
                    match done {
                        Some(x) => (p2, Some(Ok(x))),
                        None => srt_next(s, p2, o),
                    }
                },
            }
        }
    }
}

/// A lazy SRT parser that hands out entries one at a time, with the given options.
pub struct Parser<'a> {
    input: &'a str,
    chars: Vec<char>,
    pos: usize,
    state: State,
    last: Option<u64>,
    done: bool,
    options: Options,
}

impl<'a> Parser<'a> {
    /// The text being read.
    pub closed spec fn text(&self) -> Seq<char> {
        self.input@
    }

    /// The options the text is read with.
    pub closed spec fn options_spec(&self) -> Options {
        self.options
    }

    /// The state of the reader as plain values.
    pub closed spec fn state_spec(&self) -> SrtParserV {
        SrtParserV { pos: self.pos as nat, state: state_view(self.state), last: self.last, done: self.done }
    }

    /// The reader's positions lie within its text.
    #[verifier::type_invariant]
    closed spec fn wf(&self) -> bool {
        self.chars@ == self.input@ && self.pos <= self.chars@.len() && state_in_bounds(self.state, self.chars@.len() as nat)
    }

    /// A parser reading `input` with options `o`.
    pub fn with_options(input: &'a str, o: Options) -> (p: Self)
        ensures
            p.text() == input@,
            p.options_spec() == o,
            p.state_spec() == (SrtParserV { pos: 0, state: SrtState::Index, last: None, done: false }),
    {
        Parser { input, chars: crate::text::chars_of(input), pos: 0, state: State::Index, last: None, done: false, options: o }
    }

    /// A parser reading `input` strictly.
    pub fn strict(input: &'a str) -> (p: Self)
        ensures
            p.text() == input@,
            p.options_spec() == Options::strict_spec(),
            p.state_spec() == (SrtParserV { pos: 0, state: SrtState::Index, last: None, done: false }),
    {
        Self::with_options(input, Options::strict())
    }

    /// A parser reading `input` leniently.
    pub fn lossy(input: &'a str) -> (p: Self)
        ensures
            p.text() == input@,
            p.options_spec() == Options::lossy_spec(),
            p.state_spec() == (SrtParserV { pos: 0, state: SrtState::Index, last: None, done: false }),
    {
        Self::with_options(input, Options::lossy())
    }

    /// Reads on to the next entry: `None` at the end, and after an error.
    pub fn next(&mut self) -> (r: Option<Result<Entry<&'a str>, ParseSrtError>>)
        ensures
            final(self).text() == old(self).text(),
            final(self).options_spec() == old(self).options_spec(),
            (final(self).state_spec(), match r {
                Some(Ok(x)) => Some(Ok(entry_view(x))),
                Some(Err(e)) => Some(Err(e)),
                None => None,
            }) == srt_next(old(self).text(), old(self).state_spec(), old(self).options_spec()),
    {
        proof {
            use_type_invariant(&*self);
        }
        let ghost s = self.input@;
        let ghost p0 = self.state_spec();
        let o = self.options;
        if self.done {
            return None;
        }
        let mut pos = self.pos;
        let mut last = self.last;
        let mut st = State::Skip;
        core::mem::swap(&mut st, &mut self.state);
        loop
            invariant
                self.chars@ == s,
                s == self.input@,
                self.input == old(self).input,
                self.options == o,
                o == old(self).options,
                p0 == old(self).state_spec(),
                !p0.done,
                !self.done,
                self.pos <= s.len(),
                state_in_bounds(self.state, s.len() as nat),
                pos <= s.len(),
                state_in_bounds(st, s.len() as nat),
                srt_next(s, SrtParserV { pos: pos as nat, state: state_view(st), last, done: false }, o) == srt_next(s, p0, o),
            decreases s.len() - pos,
        {
            if pos >= self.chars.len() {
                self.pos = pos;
                self.last = last;
                self.done = true;
                if let State::Body(h, start, end) = st {
                    let body = body_slice(self.input, start, end);
                    self.state = State::Index;
                    return Some(Ok(make_entry(&h, body)));
                }
                self.state = st;
                return None;
            }
            let (e, nx) = srt_line_end_at(&self.chars, pos);
            match step_line(self.input, &self.chars, pos, e, st, last, o) {
                Err(err) => {
                    self.pos = nx;
                    self.last = last;
                    self.state = State::Skip;
                    self.done = true;
                    return Some(Err(err));
                },
                Ok((st2, last2, done)) => {
                    pos = nx;
                    last = last2;
                    st = st2;
                    if let Some(x) = done {
                        self.pos = pos;
                        self.last = last;
                        self.state = st;
                        return Some(Ok(x));
                    }
                },
            }
        }
    }
}

} // verus!
