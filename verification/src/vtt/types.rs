use vstd::prelude::*;

use crate::text::{dec_digits, padded, push_decimal, push_padded, string_from_chars};
use crate::types::{Entry as GenericEntry, Millisecond, Minute, Second};
use crate::utils::{duration_from_millis, duration_of_millis, u64_digits};

verus! {

broadcast use vstd::string::group_string_axioms;

/// A single cue entry in a WebVTT file.
pub type Cue<T> = GenericEntry<CueHeader, T>;

/// The hour component of a WebVTT timestamp; WebVTT hours have no upper limit, and are
/// held in a `u32`.
#[derive(Debug, Clone, Copy, PartialEq, Eq, PartialOrd, Ord, Hash, Structural)]
pub struct Hour(u32);

impl View for Hour {
    type V = u32;

    closed spec fn view(&self) -> u32 {
        self.0
    }
}

impl Default for Hour {
    fn default() -> (h: Self)
        ensures
            h@ == 0,
    {
        Hour(0)
    }
}

impl Hour {
    /// Create a new `Hour` with value 0.
    pub fn new() -> (h: Self)
        ensures
            h@ == 0,
    {
        Hour(0)
    }

    /// Create a new `Hour` from a `u32`.
    pub fn with(value: u32) -> (h: Self)
        ensures
            h@ == value,
            <u32 as vstd::std_specs::convert::FromSpec<Hour>>::from_spec(h) == value,
    {
        Hour(value)
    }

    /// Returns the inner `u32` value.
    pub fn as_u32(&self) -> (v: u32)
        ensures
            v == self@,
    {
        self.0
    }
}

impl From<u32> for Hour {
    fn from(value: u32) -> (h: Self) {
        Hour(value)
    }
}

impl vstd::std_specs::convert::FromSpecImpl<u32> for Hour {
    open spec fn obeys_from_spec() -> bool {
        true
    }

    open spec fn from_spec(v: u32) -> Hour {
        Hour::spec_with(v)
    }
}

impl From<Hour> for u32 {
    fn from(hour: Hour) -> (v: u32) {
        hour.0
    }
}

impl vstd::std_specs::convert::FromSpecImpl<Hour> for u32 {
    open spec fn obeys_from_spec() -> bool {
        true
    }

    open spec fn from_spec(h: Hour) -> u32 {
        h@
    }
}

impl Hour {
    /// The hour with value `v`.
    pub closed spec fn spec_with(v: u32) -> Hour {
        Hour(v)
    }

    /// The value of `spec_with(v)` is `v`.
    pub broadcast proof fn lemma_spec_with(v: u32)
        ensures
            #[trigger] Hour::spec_with(v)@ == v,
    {
    }
}

/// Components of a WebVTT timestamp: hours, minutes, seconds, milliseconds.
pub type TimestampV = (u32, u8, u8, u16);

/// The text of a WebVTT timestamp: `MM:SS.mmm` when the hours are zero, otherwise
/// `HH:MM:SS.mmm` with the hours padded to at least two digits.
pub open spec fn timestamp_text(t: TimestampV) -> Seq<char> {
    let rest = padded(t.1 as nat, 2) + seq![':'] + padded(t.2 as nat, 2) + seq!['.'] + padded(t.3 as nat, 3);
    if t.0 == 0 {
        rest
    } else {
        padded(t.0 as nat, 2) + seq![':'] + rest
    }
}

/// The number of milliseconds a WebVTT timestamp stands for.
pub open spec fn timestamp_millis(t: TimestampV) -> nat {
    t.0 as nat * 3_600_000 + t.1 as nat * 60_000 + t.2 as nat * 1_000 + t.3 as nat
}

/// A WebVTT timestamp with millisecond precision.
#[derive(Debug, Clone, Copy, PartialEq, Eq, PartialOrd, Ord, Hash, Structural)]
pub struct Timestamp {
    hours: Hour,
    millis: Millisecond,
    minutes: Minute,
    seconds: Second,
}

impl View for Timestamp {
    type V = TimestampV;

    closed spec fn view(&self) -> TimestampV {
        (self.hours@, self.minutes@, self.seconds@, self.millis@)
    }
}

impl Default for Timestamp {
    fn default() -> (t: Self)
        ensures
            t@ == (0u32, 0u8, 0u8, 0u16),
    {
        Self::new()
    }
}

impl Timestamp {
    /// Create a new timestamp with all components set to zero.
    pub fn new() -> (t: Self)
        ensures
            t@ == (0u32, 0u8, 0u8, 0u16),
    {
        Self::from_hmsm(Hour::new(), Minute::new(), Second::new(), Millisecond::new())
    }

    /// Create a new timestamp from hours, minutes, seconds, and milliseconds.
    pub fn from_hmsm(hours: Hour, minutes: Minute, seconds: Second, millis: Millisecond) -> (t: Self)
        ensures
            t@ == (hours@, minutes@, seconds@, millis@),
    {
        Timestamp { hours, minutes, seconds, millis }
    }

    /// Returns the hours component of this timestamp.
    pub fn hours(&self) -> (h: Hour)
        ensures
            h@ == self@.0,
    {
        self.hours
    }

    /// Returns the minutes component of this timestamp.
    pub fn minutes(&self) -> (m: Minute)
        ensures
            m@ == self@.1,
    {
        self.minutes
    }

    /// Returns the seconds component of this timestamp.
    pub fn seconds(&self) -> (s: Second)
        ensures
            s@ == self@.2,
    {
        self.seconds
    }

    /// Returns the milliseconds component of this timestamp.
    pub fn millis(&self) -> (ms: Millisecond)
        ensures
            ms@ == self@.3,
    {
        self.millis
    }

    /// Returns this timestamp with the hours replaced.
    pub fn with_hours(self, hours: Hour) -> (t: Self)
        ensures
            t@ == (hours@, self@.1, self@.2, self@.3),
    {
        let mut t = self;
        t.set_hours(hours);
        t
    }

    /// Returns this timestamp with the minutes replaced.
    pub fn with_minutes(self, minutes: Minute) -> (t: Self)
        ensures
            t@ == (self@.0, minutes@, self@.2, self@.3),
    {
        let mut t = self;
        t.set_minutes(minutes);
        t
    }

    /// Returns this timestamp with the seconds replaced.
    pub fn with_seconds(self, seconds: Second) -> (t: Self)
        ensures
            t@ == (self@.0, self@.1, seconds@, self@.3),
    {
        let mut t = self;
        t.set_seconds(seconds);
        t
    }

    /// Returns this timestamp with the milliseconds replaced.
    pub fn with_millis(self, millis: Millisecond) -> (t: Self)
        ensures
            t@ == (self@.0, self@.1, self@.2, millis@),
    {
        let mut t = self;
        t.set_millis(millis);
        t
    }

    /// Replaces the hours of this timestamp.
    pub fn set_hours(&mut self, hours: Hour) -> (r: &mut Self)
        ensures
            r@ == (hours@, old(self)@.1, old(self)@.2, old(self)@.3),
            *final(self) == *final(r),
    {
        self.hours = hours;
        self
    }

    /// Replaces the minutes of this timestamp.
    pub fn set_minutes(&mut self, minutes: Minute) -> (r: &mut Self)
        ensures
            r@ == (old(self)@.0, minutes@, old(self)@.2, old(self)@.3),
            *final(self) == *final(r),
    {
        self.minutes = minutes;
        self
    }

    /// Replaces the seconds of this timestamp.
    pub fn set_seconds(&mut self, seconds: Second) -> (r: &mut Self)
        ensures
            r@ == (old(self)@.0, old(self)@.1, seconds@, old(self)@.3),
            *final(self) == *final(r),
    {
        self.seconds = seconds;
        self
    }

    /// Replaces the milliseconds of this timestamp.
    pub fn set_millis(&mut self, millis: Millisecond) -> (r: &mut Self)
        ensures
            r@ == (old(self)@.0, old(self)@.1, old(self)@.2, millis@),
            *final(self) == *final(r),
    {
        self.millis = millis;
        self
    }

    /// Replaces all four components of this timestamp.
    pub fn set_hmsm(&mut self, hours: Hour, minutes: Minute, seconds: Second, millis: Millisecond) -> (r: &mut Self)
        ensures
            r@ == (hours@, minutes@, seconds@, millis@),
            *final(self) == *final(r),
    {
        self.hours = hours;
        self.minutes = minutes;
        self.seconds = seconds;
        self.millis = millis;
        self
    }

    /// Convert this timestamp to a `Duration`.
    pub fn to_duration(&self) -> (d: core::time::Duration)
        ensures
            d == duration_of_millis(timestamp_millis(self@) as u64),
    {
        let h = self.hours.as_u32() as u64;
        let m = self.minutes.get() as u64;
        let s = self.seconds.get() as u64;
        let ms = self.millis.get() as u64;
        duration_from_millis(h * 3_600_000 + m * 60_000 + s * 1_000 + ms)
    }

    /// Returns the encoded length of this timestamp.
    pub fn encoded_len(&self) -> (n: usize)
        ensures
            n == timestamp_text(self@).len(),
    {
        let m = self.minutes.get();
        let s = self.seconds.get();
        let ms = self.millis.get();
        proof {
            crate::text::lemma_small_widths(m as nat, s as nat, ms as nat);
        }
        let base: usize = 2 + 1 + 2 + 1 + 3;
        let h = self.hours.as_u32();
        if h == 0 {
            base
        } else {
            let digits = u64_digits(h as u64);
            proof {
                crate::text::lemma_padded(h as nat, 2);
            }
            let hours_len = if digits < 2 { 2 } else { digits };
            hours_len + 1 + base
        }
    }

    /// Appends the text of this timestamp to `out`.
    pub(crate) fn push_text(&self, out: &mut Vec<char>)
        ensures
            final(out)@ == old(out)@ + timestamp_text(self@),
    {
        let ghost start = out@;
        let h = self.hours.as_u32();
        if h != 0 {
            push_padded(out, h as u64, 2);
            out.push(':');
        }
        push_padded(out, self.minutes.get() as u64, 2);
        out.push(':');
        push_padded(out, self.seconds.get() as u64, 2);
        out.push('.');
        push_padded(out, self.millis.get() as u64, 3);
        assert(out@ =~= start + timestamp_text(self@));
    }

    /// Format this timestamp as WebVTT timestamp text (with a `.` before the milliseconds).
    pub fn encode(&self) -> (s: String)
        ensures
            s@ == timestamp_text(self@),
    {
        let mut out: Vec<char> = Vec::new();
        self.push_text(&mut out);
        assert(out@ =~= timestamp_text(self@));
        string_from_chars(&out)
    }
}


/// A cue identifier: any text that does not contain `-->` and is not empty.
#[derive(Debug, Clone, PartialEq, Eq, Hash)]
pub struct CueId(CueIdInner);

#[derive(Debug, Clone, PartialEq, Eq, Hash)]
enum CueIdInner {
    Borrowed(&'static str),
    Owned(String),
}

impl View for CueId {
    type V = Seq<char>;

    closed spec fn view(&self) -> Seq<char> {
        match self.0 {
            CueIdInner::Borrowed(s) => s@,
            CueIdInner::Owned(s) => s@,
        }
    }
}

impl CueId {
    /// The identifier holds a static string, not an owned one.
    pub closed spec fn is_static(&self) -> bool {
        self.0 is Borrowed
    }

    /// Create a `CueId` from a static string.
    pub fn from_static(s: &'static str) -> (id: Self)
        ensures
            id@ == s@,
            id.is_static(),
    {
        CueId(CueIdInner::Borrowed(s))
    }

    /// Create a `CueId` from an owned string.
    pub fn from_string(s: String) -> (id: Self)
        ensures
            id@ == s@,
            !id.is_static(),
    {
        CueId(CueIdInner::Owned(s))
    }

    /// Returns the string representation of this cue identifier.
    pub fn as_str(&self) -> (r: &str)
        ensures
            r@ == self@,
    {
        match &self.0 {
            CueIdInner::Borrowed(s) => s,
            CueIdInner::Owned(s) => s.as_str(),
        }
    }
}

/// A region identifier.
#[derive(Debug, Clone, PartialEq, Eq, Hash)]
pub struct RegionId(RegionIdInner);

#[derive(Debug, Clone, PartialEq, Eq, Hash)]
enum RegionIdInner {
    Borrowed(&'static str),
    Owned(String),
}

impl View for RegionId {
    type V = Seq<char>;

    closed spec fn view(&self) -> Seq<char> {
        match self.0 {
            RegionIdInner::Borrowed(s) => s@,
            RegionIdInner::Owned(s) => s@,
        }
    }
}

impl RegionId {
    /// The identifier holds a static string, not an owned one.
    pub closed spec fn is_static(&self) -> bool {
        self.0 is Borrowed
    }

    /// Create a `RegionId` from a static string.
    pub fn from_static(s: &'static str) -> (id: Self)
        ensures
            id@ == s@,
            id.is_static(),
    {
        RegionId(RegionIdInner::Borrowed(s))
    }

    /// Create a `RegionId` from an owned string.
    pub fn from_string(s: String) -> (id: Self)
        ensures
            id@ == s@,
            !id.is_static(),
    {
        RegionId(RegionIdInner::Owned(s))
    }

    /// Returns the string representation of this region identifier.
    pub fn as_str(&self) -> (r: &str)
        ensures
            r@ == self@,
    {
        match &self.0 {
            RegionIdInner::Borrowed(s) => s,
            RegionIdInner::Owned(s) => s.as_str(),
        }
    }
}

/// Writing direction for a cue.
#[derive(Debug, Clone, Copy, PartialEq, Eq, Hash, Structural)]
pub enum Vertical {
    /// Right-to-left (`vertical:rl`).
    Rl,
    /// Left-to-right (`vertical:lr`).
    Lr,
}

/// The keyword of a writing direction.
pub open spec fn vertical_text(v: Vertical) -> Seq<char> {
    match v {
        Vertical::Rl => seq!['r', 'l'],
        Vertical::Lr => seq!['l', 'r'],
    }
}

impl Vertical {
    /// The keyword of this writing direction, as written in cue settings.
    pub fn as_str(&self) -> (r: &'static str)
        ensures
            r@ == vertical_text(*self),
    {
        proof {
            reveal_strlit("rl");
            reveal_strlit("lr");
        }
        match self {
            Vertical::Rl => "rl",
            Vertical::Lr => "lr",
        }
    }
}

/// Line position value.
#[derive(Debug, Clone, Copy, PartialEq, Eq, Hash, Structural)]
pub enum LineValue {
    /// A percentage value (0–100).
    Percentage(u8),
    /// A line number (can be negative).
    Number(i32),
}

/// Line alignment.
#[derive(Debug, Clone, Copy, PartialEq, Eq, Hash, Structural)]
pub enum LineAlign {
    /// `start`
    Start,
    /// `center`
    Center,
    /// `end`
    End,
}

/// The keyword of a line alignment.
pub open spec fn line_align_text(a: LineAlign) -> Seq<char> {
    match a {
        LineAlign::Start => seq!['s', 't', 'a', 'r', 't'],
        LineAlign::Center => seq!['c', 'e', 'n', 't', 'e', 'r'],
        LineAlign::End => seq!['e', 'n', 'd'],
    }
}

impl LineAlign {
    /// The keyword of this alignment, as written in cue settings.
    pub fn as_str(&self) -> (r: &'static str)
        ensures
            r@ == line_align_text(*self),
    {
        proof {
            reveal_strlit("start");
            reveal_strlit("center");
            reveal_strlit("end");
        }
        match self {
            LineAlign::Start => "start",
            LineAlign::Center => "center",
            LineAlign::End => "end",
        }
    }
}

/// Line setting: value and optional alignment.
#[derive(Debug, Clone, Copy, PartialEq, Eq, Hash, Structural)]
pub struct Line {
    /// The line value.
    pub value: LineValue,
    /// Optional line alignment.
    pub alignment: Option<LineAlign>,
}

impl Line {
    /// A line setting with the given value and no alignment.
    pub fn new(value: LineValue) -> (l: Self)
        ensures
            l == (Line { value, alignment: None }),
    {
        Line { value, alignment: None }
    }

    /// A line setting with the given value and alignment.
    pub fn with_alignment(value: LineValue, alignment: LineAlign) -> (l: Self)
        ensures
            l == (Line { value, alignment: Some(alignment) }),
    {
        Line { value, alignment: Some(alignment) }
    }

    /// The line value.
    pub fn value(&self) -> (v: LineValue)
        ensures
            v == self.value,
    {
        self.value
    }

    /// The line alignment, if any.
    pub fn alignment(&self) -> (a: Option<LineAlign>)
        ensures
            a == self.alignment,
    {
        self.alignment
    }
}

/// Position alignment.
#[derive(Debug, Clone, Copy, PartialEq, Eq, Hash, Structural)]
pub enum PositionAlign {
    /// `line-left`
    LineLeft,
    /// `center`
    Center,
    /// `line-right`
    LineRight,
    /// `auto`
    Auto,
}

/// The keyword of a position alignment.
pub open spec fn position_align_text(a: PositionAlign) -> Seq<char> {
    match a {
        PositionAlign::LineLeft => seq!['l', 'i', 'n', 'e', '-', 'l', 'e', 'f', 't'],
        PositionAlign::Center => seq!['c', 'e', 'n', 't', 'e', 'r'],
        PositionAlign::LineRight => seq!['l', 'i', 'n', 'e', '-', 'r', 'i', 'g', 'h', 't'],
        PositionAlign::Auto => seq!['a', 'u', 't', 'o'],
    }
}

impl PositionAlign {
    /// The keyword of this alignment, as written in cue settings.
    pub fn as_str(&self) -> (r: &'static str)
        ensures
            r@ == position_align_text(*self),
    {
        proof {
            reveal_strlit("line-left");
            reveal_strlit("center");
            reveal_strlit("line-right");
            reveal_strlit("auto");
        }
        match self {
            PositionAlign::LineLeft => "line-left",
            PositionAlign::Center => "center",
            PositionAlign::LineRight => "line-right",
            PositionAlign::Auto => "auto",
        }
    }
}

/// Position setting: percentage value and optional alignment.
#[derive(Debug, Clone, Copy, PartialEq, Eq, Hash, Structural)]
pub struct Position {
    /// The position percentage (0–100).
    pub value: u8,
    /// Optional position alignment.
    pub alignment: Option<PositionAlign>,
}

impl Position {
    /// A position setting with the given percentage and no alignment.
    pub fn new(value: u8) -> (p: Self)
        ensures
            p == (Position { value, alignment: None }),
    {
        Position { value, alignment: None }
    }

    /// A position setting with the given percentage and alignment.
    pub fn with_alignment(value: u8, alignment: PositionAlign) -> (p: Self)
        ensures
            p == (Position { value, alignment: Some(alignment) }),
    {
        Position { value, alignment: Some(alignment) }
    }

    /// The position percentage.
    pub fn value(&self) -> (v: u8)
        ensures
            v == self.value,
    {
        self.value
    }

    /// The position alignment, if any.
    pub fn alignment(&self) -> (a: Option<PositionAlign>)
        ensures
            a == self.alignment,
    {
        self.alignment
    }
}

/// Size setting: percentage (0–100).
#[derive(Debug, Clone, Copy, PartialEq, Eq, Hash, Structural)]
pub struct Size(pub u8);

impl Size {
    /// A size setting of the given percentage.
    pub fn new(value: u8) -> (s: Self)
        ensures
            s == Size(value),
    {
        Size(value)
    }

    /// The size percentage.
    pub fn value(&self) -> (v: u8)
        ensures
            v == self.0,
    {
        self.0
    }
}

/// Text alignment.
#[derive(Debug, Clone, Copy, PartialEq, Eq, Hash, Structural)]
pub enum Align {
    /// `start`
    Start,
    /// `center`
    Center,
    /// `end`
    End,
    /// `left`
    Left,
    /// `right`
    Right,
}

/// The keyword of a text alignment.
pub open spec fn align_text(a: Align) -> Seq<char> {
    match a {
        Align::Start => seq!['s', 't', 'a', 'r', 't'],
        Align::Center => seq!['c', 'e', 'n', 't', 'e', 'r'],
        Align::End => seq!['e', 'n', 'd'],
        Align::Left => seq!['l', 'e', 'f', 't'],
        Align::Right => seq!['r', 'i', 'g', 'h', 't'],
    }
}

impl Align {
    /// The keyword of this alignment, as written in cue settings.
    pub fn as_str(&self) -> (r: &'static str)
        ensures
            r@ == align_text(*self),
    {
        proof {
            reveal_strlit("start");
            reveal_strlit("center");
            reveal_strlit("end");
            reveal_strlit("left");
            reveal_strlit("right");
        }
        match self {
            Align::Start => "start",
            Align::Center => "center",
            Align::End => "end",
            Align::Left => "left",
            Align::Right => "right",
        }
    }
}

/// Cue settings as plain values.
pub struct CueSettingsV {
    /// Writing direction.
    pub vertical: Option<Vertical>,
    /// Line position.
    pub line: Option<Line>,
    /// Text position.
    pub position: Option<Position>,
    /// Cue size.
    pub size: Option<Size>,
    /// Text alignment.
    pub align: Option<Align>,
    /// Region identifier.
    pub region: Option<Seq<char>>,
}

/// Cue settings with no setting given.
pub open spec fn no_settings() -> CueSettingsV {
    CueSettingsV { vertical: None, line: None, position: None, size: None, align: None, region: None }
}

/// Cue settings: writing direction, line, position, size, alignment and region, each
/// optional.
#[derive(Debug, Clone, PartialEq, Eq)]
pub struct CueSettings {
    /// Writing direction (`vertical:rl` or `vertical:lr`).
    pub vertical: Option<Vertical>,
    /// Line position.
    pub line: Option<Line>,
    /// Text position.
    pub position: Option<Position>,
    /// Cue size as a percentage (0–100).
    pub size: Option<Size>,
    /// Text alignment.
    pub align: Option<Align>,
    /// Region identifier.
    pub region: Option<RegionId>,
}

impl View for CueSettings {
    type V = CueSettingsV;

    open spec fn view(&self) -> CueSettingsV {
        CueSettingsV {
            vertical: self.vertical,
            line: self.line,
            position: self.position,
            size: self.size,
            align: self.align,
            region: match self.region {
                Some(r) => Some(r@),
                None => None,
            },
        }
    }
}

impl Default for CueSettings {
    fn default() -> (s: Self)
        ensures
            s@ == no_settings(),
    {
        CueSettings { vertical: None, line: None, position: None, size: None, align: None, region: None }
    }
}

impl CueSettings {
    /// Whether no setting is given.
    pub fn is_empty(&self) -> (b: bool)
        ensures
            b == (self@ == no_settings()),
    {
        self.vertical.is_none() && self.line.is_none() && self.position.is_none() && self.size.is_none()
            && self.align.is_none() && self.region.is_none()
    }

    /// The writing direction, if given.
    pub fn vertical(&self) -> (v: Option<Vertical>)
        ensures
            v == self.vertical,
    {
        self.vertical
    }

    /// The line setting, if given.
    pub fn line(&self) -> (l: Option<&Line>)
        ensures
            match l {
                Some(x) => self.line == Some(*x),
                None => self.line is None,
            },
    {
        self.line.as_ref()
    }

    /// The position setting, if given.
    pub fn position(&self) -> (p: Option<&Position>)
        ensures
            match p {
                Some(x) => self.position == Some(*x),
                None => self.position is None,
            },
    {
        self.position.as_ref()
    }

    /// The size setting, if given.
    pub fn size(&self) -> (s: Option<Size>)
        ensures
            s == self.size,
    {
        self.size
    }

    /// The text alignment, if given.
    pub fn align(&self) -> (a: Option<Align>)
        ensures
            a == self.align,
    {
        self.align
    }

    /// The region identifier, if given.
    pub fn region(&self) -> (r: Option<&RegionId>)
        ensures
            match r {
                Some(x) => self@.region == Some(x@),
                None => self.region is None,
            },
    {
        self.region.as_ref()
    }

    /// Sets the writing direction.
    pub fn set_vertical(&mut self, v: Vertical) -> (r: &mut Self)
        ensures
            r@ == (CueSettingsV { vertical: Some(v), ..old(self)@ }),
            *final(self) == *final(r),
    {
        self.vertical = Some(v);
        self
    }

    /// Sets the line setting.
    pub fn set_line(&mut self, l: Line) -> (r: &mut Self)
        ensures
            r@ == (CueSettingsV { line: Some(l), ..old(self)@ }),
            *final(self) == *final(r),
    {
        self.line = Some(l);
        self
    }

    /// Sets the position setting.
    pub fn set_position(&mut self, p: Position) -> (r: &mut Self)
        ensures
            r@ == (CueSettingsV { position: Some(p), ..old(self)@ }),
            *final(self) == *final(r),
    {
        self.position = Some(p);
        self
    }

    /// Sets the size setting.
    pub fn set_size(&mut self, s: Size) -> (r: &mut Self)
        ensures
            r@ == (CueSettingsV { size: Some(s), ..old(self)@ }),
            *final(self) == *final(r),
    {
        self.size = Some(s);
        self
    }

    /// Sets the text alignment.
    pub fn set_align(&mut self, a: Align) -> (r: &mut Self)
        ensures
            r@ == (CueSettingsV { align: Some(a), ..old(self)@ }),
            *final(self) == *final(r),
    {
        self.align = Some(a);
        self
    }

    /// Sets the region identifier.
    pub fn set_region(&mut self, id: RegionId) -> (r: &mut Self)
        ensures
            r@ == (CueSettingsV { region: Some(id@), ..old(self)@ }),
            *final(self) == *final(r),
    {
        self.region = Some(id);
        self
    }

    /// Returns these settings with the writing direction set.
    pub fn with_vertical(self, v: Vertical) -> (s: Self)
        ensures
            s@ == (CueSettingsV { vertical: Some(v), ..self@ }),
    {
        let mut s = self;
        s.vertical = Some(v);
        s
    }

    /// Returns these settings with the line setting set.
    pub fn with_line(self, l: Line) -> (s: Self)
        ensures
            s@ == (CueSettingsV { line: Some(l), ..self@ }),
    {
        let mut s = self;
        s.line = Some(l);
        s
    }

    /// Returns these settings with the position setting set.
    pub fn with_position(self, p: Position) -> (s: Self)
        ensures
            s@ == (CueSettingsV { position: Some(p), ..self@ }),
    {
        let mut s = self;
        s.position = Some(p);
        s
    }

    /// Returns these settings with the size setting set.
    pub fn with_size(self, sz: Size) -> (s: Self)
        ensures
            s@ == (CueSettingsV { size: Some(sz), ..self@ }),
    {
        let mut s = self;
        s.size = Some(sz);
        s
    }

    /// Returns these settings with the text alignment set.
    pub fn with_align(self, a: Align) -> (s: Self)
        ensures
            s@ == (CueSettingsV { align: Some(a), ..self@ }),
    {
        let mut s = self;
        s.align = Some(a);
        s
    }

    /// Returns these settings with the region identifier set.
    pub fn with_region(self, id: RegionId) -> (s: Self)
        ensures
            s@ == (CueSettingsV { region: Some(id@), ..self@ }),
    {
        let mut s = self;
        s.region = Some(id);
        s
    }
}

/// The header of a WebVTT cue as plain values.
pub struct CueHeaderV {
    /// The cue identifier, if any.
    pub identifier: Option<Seq<char>>,
    /// The start timestamp.
    pub start: TimestampV,
    /// The end timestamp.
    pub end: TimestampV,
    /// The cue settings, if any.
    pub settings: Option<CueSettingsV>,
}

/// The header of a WebVTT cue: an optional identifier, the start and end timestamps,
/// and optional cue settings.
#[derive(Debug, Clone, PartialEq, Eq)]
pub struct CueHeader {
    identifier: Option<CueId>,
    start: Timestamp,
    end: Timestamp,
    settings: Option<CueSettings>,
}

impl View for CueHeader {
    type V = CueHeaderV;

    closed spec fn view(&self) -> CueHeaderV {
        CueHeaderV {
            identifier: match self.identifier {
                Some(id) => Some(id@),
                None => None,
            },
            start: self.start@,
            end: self.end@,
            settings: match self.settings {
                Some(s) => Some(s@),
                None => None,
            },
        }
    }
}

impl CueHeader {
    /// Create a new `CueHeader` with the given start and end timestamps.
    pub fn new(start: Timestamp, end: Timestamp) -> (h: Self)
        ensures
            h@ == (CueHeaderV { identifier: None, start: start@, end: end@, settings: None }),
    {
        CueHeader { identifier: None, start, end, settings: None }
    }

    /// Returns the cue identifier, if any.
    pub fn identifier(&self) -> (r: Option<&CueId>)
        ensures
            match r {
                Some(id) => self@.identifier == Some(id@),
                None => self@.identifier is None,
            },
    {
        self.identifier.as_ref()
    }

    /// Returns this header with the cue identifier set.
    pub fn with_identifier(self, id: CueId) -> (h: Self)
        ensures
            h@ == (CueHeaderV { identifier: Some(id@), ..self@ }),
    {
        let mut h = self;
        h.identifier = Some(id);
        h
    }

    /// Sets the cue identifier.
    pub fn set_identifier(&mut self, id: CueId) -> (r: &mut Self)
        ensures
            r@ == (CueHeaderV { identifier: Some(id@), ..old(self)@ }),
            *final(self) == *final(r),
    {
        self.identifier = Some(id);
        self
    }

    /// Returns the start timestamp.
    pub fn start(&self) -> (t: Timestamp)
        ensures
            t@ == self@.start,
    {
        self.start
    }

    /// Returns this header with the start timestamp replaced.
    pub fn with_start(self, start: Timestamp) -> (h: Self)
        ensures
            h@ == (CueHeaderV { start: start@, ..self@ }),
    {
        let mut h = self;
        h.start = start;
        h
    }

    /// Sets the start timestamp.
    pub fn set_start(&mut self, start: Timestamp) -> (r: &mut Self)
        ensures
            r@ == (CueHeaderV { start: start@, ..old(self)@ }),
            *final(self) == *final(r),
    {
        self.start = start;
        self
    }

    /// Returns the end timestamp.
    pub fn end(&self) -> (t: Timestamp)
        ensures
            t@ == self@.end,
    {
        self.end
    }

    /// Returns this header with the end timestamp replaced.
    pub fn with_end(self, end: Timestamp) -> (h: Self)
        ensures
            h@ == (CueHeaderV { end: end@, ..self@ }),
    {
        let mut h = self;
        h.end = end;
        h
    }

    /// Sets the end timestamp.
    pub fn set_end(&mut self, end: Timestamp) -> (r: &mut Self)
        ensures
            r@ == (CueHeaderV { end: end@, ..old(self)@ }),
            *final(self) == *final(r),
    {
        self.end = end;
        self
    }

    /// Returns the cue settings, if any.
    pub fn settings(&self) -> (r: Option<&CueSettings>)
        ensures
            match r {
                Some(s) => self@.settings == Some(s@),
                None => self@.settings is None,
            },
    {
        self.settings.as_ref()
    }

    /// Returns this header with the cue settings set.
    pub fn with_settings(self, settings: CueSettings) -> (h: Self)
        ensures
            h@ == (CueHeaderV { settings: Some(settings@), ..self@ }),
    {
        let mut h = self;
        h.settings = Some(settings);
        h
    }

    /// Sets the cue settings.
    pub fn set_settings(&mut self, settings: CueSettings) -> (r: &mut Self)
        ensures
            r@ == (CueHeaderV { settings: Some(settings@), ..old(self)@ }),
            *final(self) == *final(r),
    {
        self.settings = Some(settings);
        self
    }
}

/// A WebVTT block: a cue, a note, a style, or a region definition.
#[derive(Debug, Clone, PartialEq, Eq)]
pub enum Block<T> {
    /// A cue block containing timed text.
    Cue(Cue<T>),
    /// A NOTE block (comment).
    Note(T),
    /// A STYLE block (CSS).
    Style(T),
    /// A REGION definition block.
    Region(T),
}

} // verus!
