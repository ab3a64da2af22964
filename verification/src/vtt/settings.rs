use vstd::prelude::*;

use crate::text::{parse_i32, parse_uint, spec_parse_i32, spec_parse_uint};

use super::scan::{find_in, find_in_at, find_space, find_space_at, window_eq};
use super::types::{
    no_settings, Align, CueSettings, CueSettingsV, Line, LineAlign, LineValue, Position, PositionAlign,
    RegionId, Size, Vertical,
};

verus! {

broadcast use vstd::string::group_string_axioms;

/// The percentage written `N%` in `s[lo..hi]`, `N` an unsigned integer no larger than 100.
pub open spec fn pct_value(s: Seq<char>, lo: int, hi: int) -> Option<u8> {
    if hi > lo && s[hi - 1] == '%' {
        match spec_parse_uint(s.subrange(lo, hi - 1), 255) {
            Ok(n) => if n > 100 {
                None
            } else {
                Some(n as u8)
            },
            Err(_) => None,
        }
    } else {
        None
    }
}

/// The line value written in `s[lo..hi]`: a percentage, else a line number (an `i32`).
pub open spec fn line_value(s: Seq<char>, lo: int, hi: int) -> Option<LineValue> {
    match pct_value(s, lo, hi) {
        Some(p) => Some(LineValue::Percentage(p)),
        None => match spec_parse_i32(s.subrange(lo, hi)) {
            Ok(n) => Some(LineValue::Number(n as i32)),
            Err(_) => None,
        },
    }
}

/// The writing direction named `w`.
pub open spec fn vertical_of(w: Seq<char>) -> Option<Vertical> {
    if w == "rl"@ {
        Some(Vertical::Rl)
    } else if w == "lr"@ {
        Some(Vertical::Lr)
    } else {
        None
    }
}

/// The line alignment named `w`.
pub open spec fn line_align_of(w: Seq<char>) -> Option<LineAlign> {
    if w == "start"@ {
        Some(LineAlign::Start)
    } else if w == "center"@ {
        Some(LineAlign::Center)
    } else if w == "end"@ {
        Some(LineAlign::End)
    } else {
        None
    }
}

/// The position alignment named `w`.
pub open spec fn position_align_of(w: Seq<char>) -> Option<PositionAlign> {
    if w == "line-left"@ {
        Some(PositionAlign::LineLeft)
    } else if w == "center"@ {
        Some(PositionAlign::Center)
    } else if w == "line-right"@ {
        Some(PositionAlign::LineRight)
    } else if w == "auto"@ {
        Some(PositionAlign::Auto)
    } else {
        None
    }
}

/// The text alignment named `w`.
pub open spec fn align_of(w: Seq<char>) -> Option<Align> {
    if w == "start"@ {
        Some(Align::Start)
    } else if w == "center"@ {
        Some(Align::Center)
    } else if w == "end"@ {
        Some(Align::End)
    } else if w == "left"@ {
        Some(Align::Left)
    } else if w == "right"@ {
        Some(Align::Right)
    } else {
        None
    }
}

/// The line setting written in the value `s[lo..hi]`: a line value, optionally followed
/// by `,` and an alignment.
pub open spec fn line_setting(s: Seq<char>, lo: int, hi: int) -> Option<Line> {
    let cm = find_in(s, lo, hi, ',');
    if cm < hi {
        match line_align_of(s.subrange(cm + 1, hi)) {
            None => None,
            Some(al) => match line_value(s, lo, cm) {
                Some(lv) => Some(Line { value: lv, alignment: Some(al) }),
                None => None,
            },
        }
    } else {
        match line_value(s, lo, hi) {
            Some(lv) => Some(Line { value: lv, alignment: None }),
            None => None,
        }
    }
}

/// The position setting written in the value `s[lo..hi]`: a percentage, optionally
/// followed by `,` and an alignment.
pub open spec fn position_setting(s: Seq<char>, lo: int, hi: int) -> Option<Position> {
    let cm = find_in(s, lo, hi, ',');
    if cm < hi {
        match position_align_of(s.subrange(cm + 1, hi)) {
            None => None,
            Some(al) => match pct_value(s, lo, cm) {
                Some(p) => Some(Position { value: p, alignment: Some(al) }),
                None => None,
            },
        }
    } else {
        match pct_value(s, lo, hi) {
            Some(p) => Some(Position { value: p, alignment: None }),
            None => None,
        }
    }
}

/// What one setting token `s[i..k]` does to the settings read so far: `None` when its
/// value is empty, which ends the reading; otherwise the settings after it. A token
/// without `:`, an unknown name and a value that cannot be read change nothing.
pub open spec fn apply_setting(s: Seq<char>, i: int, k: int, acc: CueSettingsV) -> Option<CueSettingsV> {
    let c = find_in(s, i, k, ':');
    if c >= k {
        Some(acc)
    } else if c + 1 >= k {
        None
    } else {
        let key = s.subrange(i, c);
        let v = s.subrange(c + 1, k);
        if key == "vertical"@ {
            Some(
                match vertical_of(v) {
                    Some(x) => CueSettingsV { vertical: Some(x), ..acc },
                    None => acc,
                },
            )
        } else if key == "line"@ {
            Some(
                match line_setting(s, c + 1, k) {
                    Some(x) => CueSettingsV { line: Some(x), ..acc },
                    None => acc,
                },
            )
        } else if key == "position"@ {
            Some(
                match position_setting(s, c + 1, k) {
                    Some(x) => CueSettingsV { position: Some(x), ..acc },
                    None => acc,
                },
            )
        } else if key == "size"@ {
            Some(
                match pct_value(s, c + 1, k) {
                    Some(p) => CueSettingsV { size: Some(Size(p)), ..acc },
                    None => acc,
                },
            )
        } else if key == "align"@ {
            Some(
                match align_of(v) {
                    Some(x) => CueSettingsV { align: Some(x), ..acc },
                    None => acc,
                },
            )
        } else if key == "region"@ {
            Some(CueSettingsV { region: Some(v), ..acc })
        } else {
            Some(acc)
        }
    }
}

/// Reading the setting tokens of `s[i..hi]` (separated by spaces, tabs and form feeds),
/// starting from the settings `acc`.
pub open spec fn settings_run(s: Seq<char>, i: int, hi: int, acc: CueSettingsV) -> CueSettingsV
    decreases hi - i,
{
    if i >= hi {
        acc
    } else {
        let k = find_space(s, i, hi);
        if k <= i {
            settings_run(s, i + 1, hi, acc)
        } else {
            match apply_setting(s, i, k, acc) {
                None => acc,
                Some(a) => if k >= hi {
                    a
                } else {
                    settings_run(s, k + 1, hi, a)
                },
            }
        }
    }
}

/// The cue settings written in `s[lo..hi]`.
pub open spec fn spec_cue_settings(s: Seq<char>, lo: int, hi: int) -> CueSettingsV {
    settings_run(s, lo, hi, no_settings())
}

/// Reads the percentage `N%` in `v[lo..hi]`.
fn pct_value_at(v: &Vec<char>, lo: usize, hi: usize) -> (r: Option<u8>)
    requires
        lo <= hi <= v.len(),
    ensures
        r == pct_value(v@, lo as int, hi as int),
{
    if hi > lo && v[hi - 1] == '%' {
        match parse_uint(v, lo, hi - 1, 255) {
            Ok(n) => if n > 100 {
                None
            } else {
                Some(n as u8)
            },
            Err(_) => None,
        }
    } else {
        None
    }
}

/// Reads the line value in `v[lo..hi]`.
fn line_value_at(v: &Vec<char>, lo: usize, hi: usize) -> (r: Option<LineValue>)
    requires
        lo <= hi <= v.len(),
    ensures
        r == line_value(v@, lo as int, hi as int),
{
    match pct_value_at(v, lo, hi) {
        Some(p) => Some(LineValue::Percentage(p)),
        None => match parse_i32(v, lo, hi) {
            Ok(n) => Some(LineValue::Number(n)),
            Err(_) => None,
        },
    }
}

/// Reads the writing direction named `v[lo..hi]`.
fn vertical_at(v: &Vec<char>, lo: usize, hi: usize) -> (r: Option<Vertical>)
    requires
        lo <= hi <= v.len(),
    ensures
        r == vertical_of(v@.subrange(lo as int, hi as int)),
{
    if window_eq(v, lo, hi, "rl") {
        Some(Vertical::Rl)
    } else if window_eq(v, lo, hi, "lr") {
        Some(Vertical::Lr)
    } else {
        None
    }
}

/// Reads the line alignment named `v[lo..hi]`.
fn line_align_at(v: &Vec<char>, lo: usize, hi: usize) -> (r: Option<LineAlign>)
    requires
        lo <= hi <= v.len(),
    ensures
        r == line_align_of(v@.subrange(lo as int, hi as int)),
{
    if window_eq(v, lo, hi, "start") {
        Some(LineAlign::Start)
    } else if window_eq(v, lo, hi, "center") {
        Some(LineAlign::Center)
    } else if window_eq(v, lo, hi, "end") {
        Some(LineAlign::End)
    } else {
        None
    }
}

/// Reads the position alignment named `v[lo..hi]`.
fn position_align_at(v: &Vec<char>, lo: usize, hi: usize) -> (r: Option<PositionAlign>)
    requires
        lo <= hi <= v.len(),
    ensures
        r == position_align_of(v@.subrange(lo as int, hi as int)),
{
    if window_eq(v, lo, hi, "line-left") {
        Some(PositionAlign::LineLeft)
    } else if window_eq(v, lo, hi, "center") {
        Some(PositionAlign::Center)
    } else if window_eq(v, lo, hi, "line-right") {
        Some(PositionAlign::LineRight)
    } else if window_eq(v, lo, hi, "auto") {
        Some(PositionAlign::Auto)
    } else {
        None
    }
}

/// Reads the text alignment named `v[lo..hi]`.
fn align_at(v: &Vec<char>, lo: usize, hi: usize) -> (r: Option<Align>)
    requires
        lo <= hi <= v.len(),
    ensures
        r == align_of(v@.subrange(lo as int, hi as int)),
{
    if window_eq(v, lo, hi, "start") {
        Some(Align::Start)
    } else if window_eq(v, lo, hi, "center") {
        Some(Align::Center)
    } else if window_eq(v, lo, hi, "end") {
        Some(Align::End)
    } else if window_eq(v, lo, hi, "left") {
        Some(Align::Left)
    } else if window_eq(v, lo, hi, "right") {
        Some(Align::Right)
    } else {
        None
    }
}

/// Reads the line setting in the value `v[lo..hi]`.
fn line_setting_at(v: &Vec<char>, lo: usize, hi: usize) -> (r: Option<Line>)
    requires
        lo <= hi <= v.len(),
    ensures
        r == line_setting(v@, lo as int, hi as int),
{
    let cm = find_in_at(v, lo, hi, ',');
    if cm < hi {
        match line_align_at(v, cm + 1, hi) {
            None => None,
            Some(al) => match line_value_at(v, lo, cm) {
                Some(lv) => Some(Line::with_alignment(lv, al)),
                None => None,
            },
        }
    } else {
        match line_value_at(v, lo, hi) {
            Some(lv) => Some(Line::new(lv)),
            None => None,
        }
    }
}

/// Reads the position setting in the value `v[lo..hi]`.
fn position_setting_at(v: &Vec<char>, lo: usize, hi: usize) -> (r: Option<Position>)
    requires
        lo <= hi <= v.len(),
    ensures
        r == position_setting(v@, lo as int, hi as int),
{
    let cm = find_in_at(v, lo, hi, ',');
    if cm < hi {
        match position_align_at(v, cm + 1, hi) {
            None => None,
            Some(al) => match pct_value_at(v, lo, cm) {
                Some(p) => Some(Position::with_alignment(p, al)),
                None => None,
            },
        }
    } else {
        match pct_value_at(v, lo, hi) {
            Some(p) => Some(Position::new(p)),
            None => None,
        }
    }
}

/// Applies the setting token `v[i..k]` to `acc`; returns `false` when its value is empty.
fn apply_setting_at(input: &str, v: &Vec<char>, i: usize, k: usize, acc: &mut CueSettings) -> (go: bool)
    requires
        v@ == input@,
        i <= k <= v.len(),
    ensures
        match apply_setting(v@, i as int, k as int, old(acc)@) {
            None => !go && final(acc)@ == old(acc)@,
            Some(a) => go && final(acc)@ == a,
        },
{
    let c = find_in_at(v, i, k, ':');
    if c >= k {
        return true;
    }
    if c + 1 >= k {
        return false;
    }
    if window_eq(v, i, c, "vertical") {
        if let Some(x) = vertical_at(v, c + 1, k) {
            acc.set_vertical(x);
        }
    } else if window_eq(v, i, c, "line") {
        if let Some(x) = line_setting_at(v, c + 1, k) {
            acc.set_line(x);
        }
    } else if window_eq(v, i, c, "position") {
        if let Some(x) = position_setting_at(v, c + 1, k) {
            acc.set_position(x);
        }
    } else if window_eq(v, i, c, "size") {
        if let Some(p) = pct_value_at(v, c + 1, k) {
            acc.set_size(Size::new(p));
        }
    } else if window_eq(v, i, c, "align") {
        if let Some(x) = align_at(v, c + 1, k) {
            acc.set_align(x);
        }
    } else if window_eq(v, i, c, "region") {
        let id = input.substring_char(c + 1, k).to_owned();
        acc.set_region(RegionId::from_string(id));
    }
    true
}

/// Reads the cue settings written in `v[lo..hi]` (the characters of `input`).
pub fn cue_settings_at(input: &str, v: &Vec<char>, lo: usize, hi: usize) -> (r: CueSettings)
    requires
        v@ == input@,
        lo <= hi <= v.len(),
    ensures
        r@ == spec_cue_settings(v@, lo as int, hi as int),
{
    let mut acc = CueSettings::default();
    let mut i = lo;
    while i < hi
        invariant
            v@ == input@,
            lo <= i,
            hi <= v.len(),
            spec_cue_settings(v@, lo as int, hi as int) == settings_run(v@, i as int, hi as int, acc@),
        decreases hi - i,
    {
        let k = find_space_at(v, i, hi);
        if k <= i {
            i = i + 1;
        } else {
            let ghost before = acc@;
            let go = apply_setting_at(input, v, i, k, &mut acc);
            if !go {
                assert(settings_run(v@, i as int, hi as int, before) == before);
                return acc;
            }
            if k >= hi {
                return acc;
            }
            i = k + 1;
        }
    }
    acc
}

} // verus!
