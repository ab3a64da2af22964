use vstd::prelude::*;

use crate::text::{padded, push_decimal, push_padded, push_str, string_from_chars, dec_digits};
use crate::types::{Entry as GenericEntry, Hour, Millisecond, Minute, NonZeroU64, Second};
use crate::utils::{duration_from_millis, duration_of_millis, u64_digits};

verus! {

broadcast use vstd::string::group_string_axioms;

/// A single subtitle entry in an SRT file.
pub type Entry<T> = GenericEntry<Header, T>;

/// The text of an SRT timestamp with the given components: `HH:MM:SS,mmm`, the hours
/// padded to at least two digits.
pub open spec fn timestamp_text(t: (u16, u8, u8, u16)) -> Seq<char> {
    padded(t.0 as nat, 2) + seq![':'] + padded(t.1 as nat, 2) + seq![':'] + padded(t.2 as nat, 2)
        + seq![','] + padded(t.3 as nat, 3)
}

/// The number of milliseconds a timestamp with the given components stands for.
pub open spec fn timestamp_millis(t: (u16, u8, u8, u16)) -> nat {
    t.0 as nat * 3_600_000 + t.1 as nat * 60_000 + t.2 as nat * 1_000 + t.3 as nat
}

/// A timestamp in an SRT file, with millisecond precision.
#[derive(Debug, Clone, Copy, PartialEq, Eq, PartialOrd, Ord, Hash, Structural)]
pub struct Timestamp {
    hours: Hour,
    millis: Millisecond,
    minutes: Minute,
    seconds: Second,
}

impl View for Timestamp {
    /// Hours, minutes, seconds and milliseconds.
    type V = (u16, u8, u8, u16);

    closed spec fn view(&self) -> (u16, u8, u8, u16) {
        (self.hours@, self.minutes@, self.seconds@, self.millis@)
    }
}

impl Default for Timestamp {
    fn default() -> (t: Self)
        ensures
            t@ == (0u16, 0u8, 0u8, 0u16),
    {
        Self::new()
    }
}

impl Timestamp {
    /// Create a new timestamp at zero.
    pub fn new() -> (t: Self)
        ensures
            t@ == (0u16, 0u8, 0u8, 0u16),
    {
        Self::from_hmsm(Hour::new(), Minute::new(), Second::new(), Millisecond::new())
    }

    /// Create a new timestamp from hours, minutes, seconds, and milliseconds.
    pub fn from_hmsm(hours: Hour, minutes: Minute, seconds: Second, millis: Millisecond) -> (t: Self)
        ensures
            t@ == (hours@, minutes@, seconds@, millis@),
    {
        Timestamp { hours, minutes, seconds, millis }
    }

    /// Returns the hours component of this timestamp.
    pub fn hours(&self) -> (h: Hour)
        ensures
            h@ == self@.0,
    {
        self.hours
    }

    /// Returns the minutes component of this timestamp.
    pub fn minutes(&self) -> (m: Minute)
        ensures
            m@ == self@.1,
    {
        self.minutes
    }

    /// Returns the seconds component of this timestamp.
    pub fn seconds(&self) -> (s: Second)
        ensures
            s@ == self@.2,
    {
        self.seconds
    }

    /// Returns the milliseconds component of this timestamp.
    pub fn millis(&self) -> (ms: Millisecond)
        ensures
            ms@ == self@.3,
    {
        self.millis
    }

    /// Returns this timestamp with the hours replaced.
    pub fn with_hours(self, hours: Hour) -> (t: Self)
        ensures
            t@ == (hours@, self@.1, self@.2, self@.3),
    {
        let mut t = self;
        t.set_hours(hours);
        t
    }

    /// Returns this timestamp with the minutes replaced.
    pub fn with_minutes(self, minutes: Minute) -> (t: Self)
        ensures
            t@ == (self@.0, minutes@, self@.2, self@.3),
    {
        let mut t = self;
        t.set_minutes(minutes);
        t
    }

    /// Returns this timestamp with the seconds replaced.
    pub fn with_seconds(self, seconds: Second) -> (t: Self)
        ensures
            t@ == (self@.0, self@.1, seconds@, self@.3),
    {
        let mut t = self;
        t.set_seconds(seconds);
        t
    }

    /// Returns this timestamp with the milliseconds replaced.
    pub fn with_millis(self, millis: Millisecond) -> (t: Self)
        ensures
            t@ == (self@.0, self@.1, self@.2, millis@),
    {
        let mut t = self;
        t.set_millis(millis);
        t
    }

    /// Replaces the hours of this timestamp.
    pub fn set_hours(&mut self, hours: Hour) -> (r: &mut Self)
        ensures
            r@ == (hours@, old(self)@.1, old(self)@.2, old(self)@.3),
            *final(self) == *final(r),
    {
        self.hours = hours;
        self
    }

    /// Replaces the minutes of this timestamp.
    pub fn set_minutes(&mut self, minutes: Minute) -> (r: &mut Self)
        ensures
            r@ == (old(self)@.0, minutes@, old(self)@.2, old(self)@.3),
            *final(self) == *final(r),
    {
        self.minutes = minutes;
        self
    }

    /// Replaces the seconds of this timestamp.
    pub fn set_seconds(&mut self, seconds: Second) -> (r: &mut Self)
        ensures
            r@ == (old(self)@.0, old(self)@.1, seconds@, old(self)@.3),
            *final(self) == *final(r),
    {
        self.seconds = seconds;
        self
    }

    /// Replaces the milliseconds of this timestamp.
    pub fn set_millis(&mut self, millis: Millisecond) -> (r: &mut Self)
        ensures
            r@ == (old(self)@.0, old(self)@.1, old(self)@.2, millis@),
            *final(self) == *final(r),
    {
        self.millis = millis;
        self
    }

    /// Replaces all four components of this timestamp.
    pub fn set_hmsm(&mut self, hours: Hour, minutes: Minute, seconds: Second, millis: Millisecond) -> (r: &mut Self)
        ensures
            r@ == (hours@, minutes@, seconds@, millis@),
            *final(self) == *final(r),
    {
        self.hours = hours;
        self.minutes = minutes;
        self.seconds = seconds;
        self.millis = millis;
        self
    }

    /// The number of milliseconds this timestamp stands for.
    fn total_millis(&self) -> (ms: u64)
        ensures
            ms == timestamp_millis(self@),
    {
        let h = self.hours.get() as u64;
        let m = self.minutes.get() as u64;
        let s = self.seconds.get() as u64;
        let ms = self.millis.get() as u64;
        h * 3_600_000 + m * 60_000 + s * 1_000 + ms
    }

    /// Convert this timestamp to a `Duration`.
    pub fn to_duration(&self) -> (d: core::time::Duration)
        ensures
            d == duration_of_millis(timestamp_millis(self@) as u64),
    {
        duration_from_millis(self.total_millis())
    }

    /// Returns the encoded length of this timestamp.
    pub fn encoded_len(&self) -> (n: usize)
        ensures
            n == timestamp_text(self@).len(),
            12 <= n <= 13,
    {
        let h = self.hours.get();
        let m = self.minutes.get();
        let s = self.seconds.get();
        let ms = self.millis.get();
        proof {
            reveal_with_fuel(crate::utils::pow10, 4);
            assert(crate::utils::pow10(3) == 1000);
            crate::text::lemma_padded(h as nat, 2);
            crate::utils::lemma_digits_bound(h as nat, 3);
            crate::text::lemma_small_widths(m as nat, s as nat, ms as nat);
        }
        let d = u64_digits(h as u64);
        let hl = if d < 2 { 2 } else { d };
        hl + 1 + 2 + 1 + 2 + 1 + 3
    }

    /// Appends the text of this timestamp to `out`.
    pub(crate) fn push_text(&self, out: &mut Vec<char>)
        ensures
            final(out)@ == old(out)@ + timestamp_text(self@),
    {
        let ghost start = out@;
        push_padded(out, self.hours.get() as u64, 2);
        out.push(':');
        push_padded(out, self.minutes.get() as u64, 2);
        out.push(':');
        push_padded(out, self.seconds.get() as u64, 2);
        out.push(',');
        push_padded(out, self.millis.get() as u64, 3);
        assert(out@ =~= start + timestamp_text(self@));
    }

    /// Format this timestamp as SRT timestamp text.
    pub fn encode(&self) -> (s: String)
        ensures
            s@ == timestamp_text(self@),
    {
        let mut out: Vec<char> = Vec::new();
        self.push_text(&mut out);
        assert(out@ =~= timestamp_text(self@));
        string_from_chars(&out)
    }
}

/// The view of an optional index number.
pub open spec fn index_view(i: Option<NonZeroU64>) -> Option<u64> {
    match i {
        Some(n) => Some(n@),
        None => None,
    }
}

/// The text of an SRT header: the index line (when there is an index), then
/// `start --> end` and a newline.
pub open spec fn header_text(h: (Option<u64>, (u16, u8, u8, u16), (u16, u8, u8, u16))) -> Seq<char> {
    let index_line = match h.0 {
        Some(i) => dec_digits(i as nat).push('\n'),
        None => Seq::<char>::empty(),
    };
    index_line + timestamp_text(h.1) + seq![' ', '-', '-', '>', ' '] + timestamp_text(h.2) + seq!['\n']
}

/// The header of a subtitle entry, containing the index and timestamps, but not the text.
#[derive(Debug, Clone, Copy, PartialEq, Eq, Structural)]
pub struct Header {
    index: Option<NonZeroU64>,
    start: Timestamp,
    end: Timestamp,
}

impl View for Header {
    /// The index number (if any), the start and the end.
    type V = (Option<u64>, (u16, u8, u8, u16), (u16, u8, u8, u16));

    closed spec fn view(&self) -> (Option<u64>, (u16, u8, u8, u16), (u16, u8, u8, u16)) {
        (index_view(self.index), self.start@, self.end@)
    }
}

impl Header {
    /// Create a new `Header` with the given start and end times and no index.
    pub fn new(start: Timestamp, end: Timestamp) -> (h: Self)
        ensures
            h@ == (None::<u64>, start@, end@),
    {
        Header { index: None, start, end }
    }

    /// Returns the index of this subtitle header, or `None` if it was missing.
    pub fn index(&self) -> (i: Option<NonZeroU64>)
        ensures
            index_view(i) == self@.0,
    {
        self.index
    }

    /// Returns this header with the index set.
    pub fn with_index(self, index: NonZeroU64) -> (h: Self)
        ensures
            h@ == (Some(index@), self@.1, self@.2),
    {
        let mut h = self;
        h.set_index(index);
        h
    }

    /// Sets the index of this subtitle header.
    pub fn set_index(&mut self, index: NonZeroU64) -> (r: &mut Self)
        ensures
            r@ == (Some(index@), old(self)@.1, old(self)@.2),
            *final(self) == *final(r),
    {
        self.index = Some(index);
        self
    }

    /// Returns this header with the index set to `index`, possibly none.
    pub fn maybe_index(self, index: Option<NonZeroU64>) -> (h: Self)
        ensures
            h@ == (index_view(index), self@.1, self@.2),
    {
        let mut h = self;
        h.update_index(index);
        h
    }

    /// Sets the index of this subtitle header to `index`, possibly none.
    pub fn update_index(&mut self, index: Option<NonZeroU64>) -> (r: &mut Self)
        ensures
            r@ == (index_view(index), old(self)@.1, old(self)@.2),
            *final(self) == *final(r),
    {
        self.index = index;
        self
    }

    /// Returns the start time of this subtitle header.
    pub fn start(&self) -> (t: Timestamp)
        ensures
            t@ == self@.1,
    {
        self.start
    }

    /// Returns this header with the start time replaced.
    pub fn with_start(self, start: Timestamp) -> (h: Self)
        ensures
            h@ == (self@.0, start@, self@.2),
    {
        let mut h = self;
        h.set_start(start);
        h
    }

    /// Sets the start time of this subtitle header.
    pub fn set_start(&mut self, start: Timestamp) -> (r: &mut Self)
        ensures
            r@ == (old(self)@.0, start@, old(self)@.2),
            *final(self) == *final(r),
    {
        self.start = start;
        self
    }

    /// Returns the end time of this subtitle header.
    pub fn end(&self) -> (t: Timestamp)
        ensures
            t@ == self@.2,
    {
        self.end
    }

    /// Returns this header with the end time replaced.
    pub fn with_end(self, end: Timestamp) -> (h: Self)
        ensures
            h@ == (self@.0, self@.1, end@),
    {
        let mut h = self;
        h.set_end(end);
        h
    }

    /// Sets the end time of this subtitle header.
    pub fn set_end(&mut self, end: Timestamp) -> (r: &mut Self)
        ensures
            r@ == (old(self)@.0, old(self)@.1, end@),
            *final(self) == *final(r),
    {
        self.end = end;
        self
    }

    /// Returns the encoded length of this subtitle header.
    pub fn encoded_len(&self) -> (n: usize)
        ensures
            n == header_text(self@).len(),
    {
        let start_len = self.start.encoded_len();
        let end_len = self.end.encoded_len();
        match self.index {
            Some(index) => {
                let d = u64_digits(index.get());
                proof {
                    crate::text::lemma_dec_digits(index@ as nat);
                }
                d + 1 + start_len + 5 + end_len + 1
            },
            None => start_len + 5 + end_len + 1,
        }
    }

    /// Appends the text of this header to `out`.
    pub(crate) fn push_text(&self, out: &mut Vec<char>)
        ensures
            final(out)@ == old(out)@ + header_text(self@),
    {
        let ghost start = out@;
        if let Some(index) = self.index {
            push_decimal(out, index.get());
            out.push('\n');
        }
        let ghost mid = out@;
        self.start.push_text(out);
        push_str(out, " --> ");
        proof {
            reveal_strlit(" --> ");
        }
        self.end.push_text(out);
        out.push('\n');
        assert(out@ =~= start + header_text(self@));
    }

    /// Format this header as SRT text: the index line, if any, and the timing line.
    pub fn encode(&self) -> (s: String)
        ensures
            s@ == header_text(self@),
    {
        let mut out: Vec<char> = Vec::new();
        self.push_text(&mut out);
        assert(out@ =~= header_text(self@));
        string_from_chars(&out)
    }
}

} // verus!
