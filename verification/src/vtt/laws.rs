use vstd::prelude::*;

use crate::srt::{is_sexa_tens, lemma_sexa_text};
use crate::text::{all_digits, digit_run_end, is_digit, padded, spec_parse_uint};
use crate::types::unit::{law_millisecond_roundtrip, law_minute_roundtrip, law_second_roundtrip};

use super::parser::{
    block_start, keyword_line, lemma_next_unfold, next_raw, parser_wf, spec_parse_vtt, vtt_collect, vtt_next, vtt_start,
    vtt_step,
    BlockV, ParserV, VttState, VttStep,
};
use super::scan::{arrow_at, find_arrow, find_eol, has_arrow, is_ws, skip_space, skip_ws, starts_with, trim_ws_end, vtt_line_end};
use super::settings::{settings_run, spec_cue_settings};
use super::timing::{
    ms_at, sexa_at, spec_parse_timestamp, spec_read_vtt_ts, spec_timing, spec_timing_line, vtt_timing_shape,
    vtt_ts_shape,
};
use super::types::{no_settings, timestamp_text, CueHeaderV, CueSettingsV, TimestampV};
use super::setting_laws::{lemma_run_tokens, lemma_settings_tokens, lemma_tokens_chars, setting_tokens, settings_ok, tokens_text};
use super::writer::{block_text, blocks_text, cue_text, settings_part, settings_text, signature_text, text_if};
use super::ParseVttError;

verus! {

/// The minutes, seconds and milliseconds of a timestamp are in range (the hours of a
/// WebVTT timestamp have no limit).
pub open spec fn vtt_ts_valid(t: TimestampV) -> bool {
    t.1 <= 59 && t.2 <= 59 && t.3 <= 999
}

/// Where the hour digits of the text of `t` end, relative to its start.
pub open spec fn hour_width(t: TimestampV) -> int {
    if t.0 == 0 {
        0
    } else {
        padded(t.0 as nat, 2).len() as int
    }
}

/// Facts about the text of a valid WebVTT timestamp: its parts and their characters.
proof fn lemma_vtt_ts_text(t: TimestampV)
    requires
        vtt_ts_valid(t),
    ensures
        timestamp_text(t).len() == hour_width(t) + (if t.0 == 0 { 9int } else { 10int }),
        t.0 != 0 ==> hour_width(t) >= 2 && all_digits(padded(t.0 as nat, 2)),
        padded(t.1 as nat, 2).len() == 2,
        padded(t.2 as nat, 2).len() == 2,
        padded(t.3 as nat, 3).len() == 3,
        all_digits(padded(t.3 as nat, 3)),
        sexa_at(padded(t.1 as nat, 2), 0),
        sexa_at(padded(t.2 as nat, 2), 0),
{
    reveal_with_fuel(crate::utils::pow10, 4);
    crate::text::lemma_padded(t.0 as nat, 2);
    crate::text::lemma_padded(t.3 as nat, 3);
    crate::utils::lemma_digits_bound(t.3 as nat, 3);
    lemma_sexa_text(t.1);
    lemma_sexa_text(t.2);
}

/// The text of a valid timestamp, found in `s` at `i`, has the timestamp shape and reads
/// back as that timestamp.
pub proof fn lemma_vtt_ts_reads(s: Seq<char>, i: int, hi: int, t: TimestampV)
    requires
        vtt_ts_valid(t),
        0 <= i,
        i + timestamp_text(t).len() <= hi <= s.len(),
        s.subrange(i, i + timestamp_text(t).len()) == timestamp_text(t),
    ensures
        vtt_ts_shape(s, i, hi) == Some((i + hour_width(t), i + timestamp_text(t).len())),
        spec_read_vtt_ts(s, i, i + hour_width(t)) == Ok::<TimestampV, ParseVttError>(t),
{
    let tt = timestamp_text(t);
    let ph = padded(t.0 as nat, 2);
    let pm = padded(t.1 as nat, 2);
    let ps = padded(t.2 as nat, 2);
    let pms = padded(t.3 as nat, 3);
    lemma_vtt_ts_text(t);
    let w = hour_width(t);
    let j = i + w;
    let l = if t.0 == 0 { 0int } else { w + 1 };
    assert forall|k: int| 0 <= k < tt.len() implies s[i + k] == #[trigger] tt[k] by {
        assert(s.subrange(i, i + tt.len())[k] == s[i + k]);
    }
    let rest = pm + seq![':'] + ps + seq!['.'] + pms;
    assert forall|k: int| 0 <= k < rest.len() implies s[i + l + k] == #[trigger] rest[k] by {
        if t.0 == 0 {
            assert(tt == rest);
        } else {
            assert(tt == ph + seq![':'] + rest);
            assert(tt[l + k] == rest[k]);
        }
        assert(s[i + (l + k)] == tt[l + k]);
    }
    let mo = i + l;
    assert(s[mo] == pm[0] && s[mo + 1] == pm[1]) by {
        assert(rest[0] == pm[0] && rest[1] == pm[1]);
    }
    assert(s[mo + 2] == ':') by {
        assert(rest[2] == ':');
    }
    assert(s[mo + 3] == ps[0] && s[mo + 4] == ps[1]) by {
        assert(rest[3] == ps[0] && rest[4] == ps[1]);
    }
    assert(s[mo + 5] == '.') by {
        assert(rest[5] == '.');
    }
    assert(s[mo + 6] == pms[0] && s[mo + 7] == pms[1] && s[mo + 8] == pms[2]) by {
        assert(rest[6] == pms[0] && rest[7] == pms[1] && rest[8] == pms[2]);
    }
    assert(is_digit(pms[0]) && is_digit(pms[1]) && is_digit(pms[2]));
    assert(s.subrange(mo, mo + 2) =~= pm);
    assert(s.subrange(mo + 3, mo + 5) =~= ps);
    assert(s.subrange(mo + 6, mo + 9) =~= pms);
    law_minute_roundtrip(t.1);
    law_second_roundtrip(t.2);
    law_millisecond_roundtrip(t.3);
    if t.0 == 0 {
        assert(is_digit(s[i]) && is_digit(s[i + 1]));
        crate::text::lemma_digit_run_exact(s, i, i + 2, hi);
        assert(vtt_ts_shape(s, i, hi) == Some((i, i + 9)));
    } else {
        assert forall|k: int| i <= k < j implies is_digit(#[trigger] s[k]) by {
            assert(tt[k - i] == ph[k - i]);
            assert(s[i + (k - i)] == tt[k - i]);
        }
        assert(s[j] == ':') by {
            assert(tt[w] == ':');
            assert(s[i + w] == tt[w]);
        }
        crate::text::lemma_digit_run_exact(s, i, j, hi);
        assert(s.subrange(i, j) =~= ph) by {
            assert forall|k: int| 0 <= k < ph.len() implies s.subrange(i, j)[k] == ph[k] by {
                assert(tt[k] == ph[k]);
                assert(s[i + k] == tt[k]);
            }
        }
        crate::text::lemma_padded(t.0 as nat, 2);
        crate::text::lemma_parse_uint_digits(ph, 0xffff_ffff);
        assert(vtt_ts_shape(s, i, hi) == Some((j, j + 10)));
    }
}

/// The text of a valid WebVTT timestamp, as `encode` writes it, reads back as that
/// timestamp with `parse_timestamp`.
pub proof fn law_timestamp_roundtrip(t: TimestampV)
    requires
        vtt_ts_valid(t),
    ensures
        spec_parse_timestamp(timestamp_text(t)) == Ok::<TimestampV, ParseVttError>(t),
{
    let tt = timestamp_text(t);
    assert(tt.subrange(0, tt.len() as int) =~= tt);
    lemma_vtt_ts_reads(tt, 0, tt.len() as int, t);
}

/// `x` holds no line feed and no carriage return.
pub open spec fn line_ok(x: Seq<char>) -> bool {
    forall|k: int| 0 <= k < x.len() ==> #[trigger] x[k] != '\n' && x[k] != '\r'
}

/// `x` is one line of text without the arrow `-->`.
pub open spec fn text_ok(x: Seq<char>) -> bool {
    line_ok(x) && !has_arrow(x, 0, x.len() as int)
}

/// Finding the arrow in a stretch of `s` is finding it in that stretch alone.
proof fn lemma_find_arrow_shift(s: Seq<char>, x: Seq<char>, off: int, i: int)
    requires
        0 <= off,
        off + x.len() <= s.len(),
        0 <= i <= x.len(),
        s.subrange(off, off + x.len()) == x,
    ensures
        find_arrow(s, off + i, off + x.len()) == off + find_arrow(x, i, x.len() as int),
    decreases x.len() - i,
{
    if i + 3 <= x.len() {
        assert(s[off + i] == x[i] && s[off + i + 1] == x[i + 1] && s[off + i + 2] == x[i + 2]) by {
            assert(s.subrange(off, off + x.len())[i] == s[off + i]);
            assert(s.subrange(off, off + x.len())[i + 1] == s[off + i + 1]);
            assert(s.subrange(off, off + x.len())[i + 2] == s[off + i + 2]);
        }
        if !arrow_at(x, i) {
            lemma_find_arrow_shift(s, x, off, i + 1);
        }
    }
}

/// Whether a stretch of `s` holds the arrow is whether that stretch alone does.
pub proof fn lemma_has_arrow_shift(s: Seq<char>, x: Seq<char>, off: int)
    requires
        0 <= off,
        off + x.len() <= s.len(),
        s.subrange(off, off + x.len()) == x,
    ensures
        has_arrow(s, off, off + x.len()) == has_arrow(x, 0, x.len() as int),
{
    lemma_find_arrow_shift(s, x, off, 0);
}

/// An arrow at `k` within `lo..hi` is found.
pub proof fn lemma_arrow_found(s: Seq<char>, lo: int, hi: int, k: int)
    requires
        lo <= k,
        k + 3 <= hi,
        arrow_at(s, k),
    ensures
        has_arrow(s, lo, hi),
    decreases k - lo,
{
    if lo < k && !arrow_at(s, lo) {
        lemma_arrow_found(s, lo + 1, hi, k);
    }
}

/// Whether a stretch of `s` is a keyword line is whether that stretch alone is.
pub proof fn lemma_keyword_shift(s: Seq<char>, x: Seq<char>, off: int, kw: Seq<char>)
    requires
        0 <= off,
        off + x.len() <= s.len(),
        s.subrange(off, off + x.len()) == x,
    ensures
        keyword_line(s, off, off + x.len(), kw) == keyword_line(x, 0, x.len() as int, kw),
{
    if x.len() >= kw.len() {
        assert(s.subrange(off, off + kw.len()) =~= x.subrange(0, kw.len() as int));
        if x.len() > kw.len() {
            assert(s[off + kw.len()] == x[kw.len() as int]) by {
                assert(s.subrange(off, off + x.len())[kw.len() as int] == s[off + kw.len()]);
            }
        }
    }
}

/// The end of a run of characters that are no line breaks, followed by a line break.
proof fn lemma_find_eol_exact(s: Seq<char>, i: int, j: int)
    requires
        0 <= i <= j <= s.len(),
        forall|k: int| i <= k < j ==> #[trigger] s[k] != '\n' && s[k] != '\r',
        j < s.len() ==> s[j] == '\n' || s[j] == '\r',
    ensures
        find_eol(s, i) == j,
    decreases j - i,
{
    if i < j {
        lemma_find_eol_exact(s, i + 1, j);
    }
}

/// The line `x`, found in `s` at `p` and ended by a line feed, is the next line.
pub proof fn lemma_next_line(s: Seq<char>, p: int, x: Seq<char>)
    requires
        0 <= p,
        p + x.len() < s.len(),
        s.subrange(p, p + x.len()) == x,
        line_ok(x),
        s[p + x.len()] == '\n',
    ensures
        next_raw(s, p as nat) == Some((p as nat, (p + x.len()) as nat, (p + x.len() + 1) as nat)),
{
    assert forall|k: int| p <= k < p + x.len() implies #[trigger] s[k] != '\n' && s[k] != '\r' by {
        assert(s.subrange(p, p + x.len())[k - p] == s[k]);
        assert(x[k - p] != '\n' && x[k - p] != '\r');
    }
    lemma_find_eol_exact(s, p, p + x.len());
}

/// Every character of the text of a valid timestamp is a digit, `:` or `.`; it starts
/// with a digit.
proof fn lemma_vtt_ts_chars(t: TimestampV)
    requires
        vtt_ts_valid(t),
    ensures
        forall|k: int| 0 <= k < timestamp_text(t).len() ==> is_digit(#[trigger] timestamp_text(t)[k])
            || timestamp_text(t)[k] == ':' || timestamp_text(t)[k] == '.',
        is_digit(timestamp_text(t)[0]),
        timestamp_text(t).len() >= 9,
{
    lemma_vtt_ts_text(t);
    let tt = timestamp_text(t);
    let ph = padded(t.0 as nat, 2);
    let pm = padded(t.1 as nat, 2);
    let ps = padded(t.2 as nat, 2);
    let pms = padded(t.3 as nat, 3);
    let rest = pm + seq![':'] + ps + seq!['.'] + pms;
    assert forall|k: int| 0 <= k < rest.len() implies is_digit(#[trigger] rest[k]) || rest[k] == ':' || rest[k]
        == '.' by {
        if k < 2 {
            assert(rest[k] == pm[k]);
        } else if 3 <= k < 5 {
            assert(rest[k] == ps[k - 3]);
        } else if k >= 6 {
            assert(rest[k] == pms[k - 6]);
        }
    }
    if t.0 == 0 {
        assert(tt == rest);
        assert(rest[0] == pm[0]);
    } else {
        let w = ph.len() as int;
        assert(tt == ph + seq![':'] + rest);
        assert forall|k: int| 0 <= k < tt.len() implies is_digit(#[trigger] tt[k]) || tt[k] == ':' || tt[k]
            == '.' by {
            if k < w {
                assert(tt[k] == ph[k]);
            } else if k > w {
                assert(tt[k] == rest[k - w - 1]);
            }
        }
        assert(tt[0] == ph[0]);
    }
}

/// The text of a timing line without settings.
pub open spec fn timing_text(a: TimestampV, b: TimestampV) -> Seq<char> {
    timestamp_text(a) + " --> "@ + timestamp_text(b)
}

/// The text of a timing line is one line, holds the arrow, and starts with a digit.
proof fn lemma_timing_text(a: TimestampV, b: TimestampV)
    requires
        vtt_ts_valid(a),
        vtt_ts_valid(b),
    ensures
        line_ok(timing_text(a, b)),
        has_arrow(timing_text(a, b), 0, timing_text(a, b).len() as int),
        is_digit(timing_text(a, b)[0]),
{
    reveal_strlit(" --> ");
    let x = timing_text(a, b);
    let ta = timestamp_text(a);
    let tb = timestamp_text(b);
    lemma_vtt_ts_chars(a);
    lemma_vtt_ts_chars(b);
    assert forall|k: int| 0 <= k < x.len() implies #[trigger] x[k] != '\n' && x[k] != '\r' by {
        if k < ta.len() {
            assert(x[k] == ta[k]);
        } else if k >= ta.len() + 5 {
            assert(x[k] == tb[k - ta.len() - 5]);
        }
    }
    let o = ta.len() as int;
    assert(arrow_at(x, o + 1));
    lemma_arrow_found(x, 0, x.len() as int, o + 1);
    assert(x[0] == ta[0]);
}

/// The cue settings of a header, when it has some, are ones that read back.
pub open spec fn header_settings_ok(h: CueHeaderV) -> bool {
    h.settings matches Some(st) ==> settings_ok(st)
}

/// The timing line of a cue as written: its timing, then its settings if it has some.
pub open spec fn timing_line(h: CueHeaderV) -> Seq<char> {
    timing_text(h.start, h.end) + settings_part(h)
}

/// The settings text of a header whose settings read back: nothing when it has none, else
/// the text of its setting tokens, which holds no line break.
proof fn lemma_settings_part(h: CueHeaderV)
    requires
        header_settings_ok(h),
    ensures
        line_ok(settings_part(h)),
        h.settings is None ==> settings_part(h).len() == 0,
        h.settings matches Some(st) ==> settings_part(h) == tokens_text(setting_tokens(st)),
{
    if let Some(st) = h.settings {
        lemma_settings_tokens(st);
        lemma_tokens_chars(setting_tokens(st));
        let z = settings_part(h);
        assert forall|k: int| 0 <= k < z.len() implies #[trigger] z[k] != '\n' && z[k] != '\r' by {
            assert(z[k] == tokens_text(setting_tokens(st))[k]);
        }
    }
}

/// The timing line of a cue is one line, holds the arrow, and starts with a digit.
proof fn lemma_timing_line_text(h: CueHeaderV)
    requires
        vtt_ts_valid(h.start),
        vtt_ts_valid(h.end),
        header_settings_ok(h),
    ensures
        line_ok(timing_line(h)),
        has_arrow(timing_line(h), 0, timing_line(h).len() as int),
        is_digit(timing_line(h)[0]),
{
    reveal_strlit(" --> ");
    let x = timing_text(h.start, h.end);
    let z = settings_part(h);
    let tl = timing_line(h);
    lemma_timing_text(h.start, h.end);
    lemma_settings_part(h);
    lemma_vtt_ts_chars(h.start);
    assert forall|k: int| 0 <= k < tl.len() implies #[trigger] tl[k] != '\n' && tl[k] != '\r' by {
        if k < x.len() {
            assert(tl[k] == x[k]);
        } else {
            assert(tl[k] == z[k - x.len()]);
        }
    }
    let o = timestamp_text(h.start).len() as int;
    assert(x[o + 1] == '-' && x[o + 2] == '-' && x[o + 3] == '>');
    assert(tl[o + 1] == x[o + 1] && tl[o + 2] == x[o + 2] && tl[o + 3] == x[o + 3]);
    lemma_arrow_found(tl, 0, tl.len() as int, o + 1);
    assert(tl[0] == x[0]);
}

/// The timing text of two valid timestamps, found in `s` at `lo` within `s[lo..e]`, is a
/// timing that reads back as them and ends where that text ends.
proof fn lemma_timing_prefix_reads(s: Seq<char>, lo: int, e: int, a: TimestampV, b: TimestampV)
    requires
        vtt_ts_valid(a),
        vtt_ts_valid(b),
        0 <= lo,
        lo + timing_text(a, b).len() <= e <= s.len(),
        s.subrange(lo, lo + timing_text(a, b).len()) == timing_text(a, b),
    ensures
        skip_space(s, crate::text::skip_bom(s, lo, e), e) == lo,
        spec_timing(s, lo, e) == Some((a, b, lo + timing_text(a, b).len())),
{
    reveal_strlit(" --> ");
    let x = timing_text(a, b);
    let ta = timestamp_text(a);
    let tb = timestamp_text(b);
    let e2 = lo + x.len();
    lemma_timing_text(a, b);
    lemma_vtt_ts_chars(a);
    assert forall|k: int| 0 <= k < x.len() implies s[lo + k] == #[trigger] x[k] by {
        assert(s.subrange(lo, e2)[k] == s[lo + k]);
    }
    assert(s[lo] == x[0]);
    assert(crate::text::skip_bom(s, lo, e) == lo);
    assert(skip_space(s, lo, e) == lo);
    let o = ta.len() as int;
    assert(s.subrange(lo, lo + o) =~= ta) by {
        assert forall|k: int| 0 <= k < o implies s.subrange(lo, lo + o)[k] == ta[k] by {
            assert(x[k] == ta[k]);
            assert(s[lo + k] == x[k]);
        }
    }
    lemma_vtt_ts_reads(s, lo, e, a);
    let e1 = lo + o;
    assert(s[e1] == ' ' && s[e1 + 1] == '-' && s[e1 + 2] == '-' && s[e1 + 3] == '>' && s[e1 + 4] == ' ') by {
        assert(x[o] == ' ' && x[o + 1] == '-' && x[o + 2] == '-' && x[o + 3] == '>' && x[o + 4] == ' ');
        assert(s[lo + o] == x[o] && s[lo + o + 1] == x[o + 1] && s[lo + o + 2] == x[o + 2]);
        assert(s[lo + o + 3] == x[o + 3] && s[lo + o + 4] == x[o + 4]);
    }
    lemma_vtt_ts_chars(b);
    assert(s[e1 + 5] == tb[0]) by {
        assert(x[o + 5] == tb[0]);
        assert(s[lo + (o + 5)] == x[o + 5]);
    }
    assert(skip_space(s, e1 + 1, e) == e1 + 1);
    assert(skip_space(s, e1, e) == e1 + 1);
    assert(skip_space(s, e1 + 5, e) == e1 + 5);
    assert(skip_space(s, e1 + 4, e) == e1 + 5);
    assert(s.subrange(e1 + 5, e2) =~= tb) by {
        assert forall|k: int| 0 <= k < tb.len() implies s.subrange(e1 + 5, e2)[k] == tb[k] by {
            assert(x[o + 5 + k] == tb[k]);
            assert(s[lo + (o + 5 + k)] == x[o + 5 + k]);
        }
    }
    lemma_vtt_ts_reads(s, e1 + 5, e, b);
    assert(vtt_timing_shape(s, lo, e) == Some((lo + hour_width(a), e1 + 5, e1 + 5 + hour_width(b), e2)));
}

/// The settings text of settings that read back, found in `s` as `s[p..e]`, is skipped
/// past its leading space, needs no trimming, and reads back as those settings.
proof fn lemma_settings_text_reads(s: Seq<char>, p: int, e: int, st: CueSettingsV)
    requires
        settings_ok(st),
        0 <= p,
        e == p + settings_text(st).len(),
        e <= s.len(),
        s.subrange(p, e) == settings_text(st),
    ensures
        skip_ws(s, p, e) == p + 1,
        trim_ws_end(s, p + 1, e) == e,
        spec_cue_settings(s, p + 1, e) == st,
{
    let ws = setting_tokens(st);
    let z = settings_text(st);
    lemma_settings_tokens(st);
    lemma_tokens_chars(ws);
    assert forall|m: int| 0 <= m < z.len() implies s[p + m] == #[trigger] z[m] by {
        assert(s.subrange(p, e)[m] == s[p + m]);
    }
    assert(s[p] == ' ');
    assert(!is_ws(s[p + 1]));
    assert(skip_ws(s, p + 1, e) == p + 1);
    assert(skip_ws(s, p, e) == p + 1);
    let n = z.len() as int;
    assert(!is_ws(s[e - 1])) by {
        assert(s[p + (n - 1)] == z[n - 1]);
    }
    assert(trim_ws_end(s, p + 1, e) == e);
    lemma_run_tokens(s, p, e, ws, no_settings());
}

/// The timing line of a cue whose settings read back, found in `s` as the line from `lo`
/// to `e`, reads back as that timing and those settings.
#[verifier::spinoff_prover]
pub proof fn lemma_timing_line_reads(s: Seq<char>, lo: int, e: int, h: CueHeaderV)
    requires
        vtt_ts_valid(h.start),
        vtt_ts_valid(h.end),
        header_settings_ok(h),
        0 <= lo,
        e == lo + timing_line(h).len(),
        e <= s.len(),
        s.subrange(lo, e) == timing_line(h),
    ensures
        spec_timing_line(s, lo, e) == Some((h.start, h.end, h.settings)),
{
    let x = timing_text(h.start, h.end);
    let z = settings_part(h);
    let tl = timing_line(h);
    let e2 = lo + x.len();
    lemma_timing_line_text(h);
    lemma_settings_part(h);
    lemma_has_arrow_shift(s, tl, lo);
    assert(s.subrange(lo, e2) =~= x) by {
        assert forall|k: int| 0 <= k < x.len() implies s.subrange(lo, e2)[k] == x[k] by {
            assert(tl[k] == x[k]);
            assert(s.subrange(lo, e)[k] == s[lo + k]);
        }
    }
    lemma_timing_prefix_reads(s, lo, e, h.start, h.end);
    match h.settings {
        None => {
            assert(e2 == e);
            assert(skip_ws(s, e, e) == e);
            assert(trim_ws_end(s, e, e) == e);
            assert(spec_cue_settings(s, e, e) == no_settings());
        },
        Some(st) => {
            assert(s.subrange(e2, e) =~= z) by {
                assert forall|m: int| 0 <= m < z.len() implies s.subrange(e2, e)[m] == z[m] by {
                    assert(tl[x.len() + m] == z[m]);
                    assert(s.subrange(lo, e)[x.len() + m] == s[lo + (x.len() + m)]);
                }
            }
            lemma_settings_text_reads(s, e2, e, st);
        },
    }
}

/// The reader at the start of a block at `p`, with no line kept.
pub open spec fn at_block(p: nat, seen: bool) -> ParserV {
    ParserV { pos: p, state: VttState::BlockStart, seen_cue: seen, pending: None }
}

/// Where the reader stands after a block whose text ends at `end` in `s`: done at the end
/// of the text, else at the start of the next block, past the blank line.
pub open spec fn after_block(s: Seq<char>, end: int, seen: bool) -> ParserV {
    if end >= s.len() {
        ParserV { pos: s.len(), state: VttState::Done, seen_cue: seen, pending: None }
    } else {
        at_block((end + 1) as nat, seen)
    }
}

/// The block a text-collecting state hands out with the text `t`.
pub open spec fn section_block(st: VttState, t: Seq<char>) -> BlockV {
    match st {
        VttState::CueBody(h, _, _) => BlockV::Cue(h, t),
        VttState::NoteBody(_, _) => BlockV::Note(t),
        VttState::StyleBody(_, _) => BlockV::Style(t),
        _ => BlockV::Region(t),
    }
}

/// `st` collects text and has collected none, its bounds being `e`.
pub open spec fn empty_section(st: VttState, e: nat) -> bool {
    ||| st matches VttState::CueBody(_, a, b) && a == e && b == e
    ||| st matches VttState::NoteBody(a, b) && a == e && b == e
    ||| st matches VttState::StyleBody(a, b) && a == e && b == e
    ||| st matches VttState::RegionBody(a, b) && a == e && b == e
}

/// The same text-collecting state with the bounds `a` and `b`.
pub open spec fn with_bounds(st: VttState, a: nat, b: nat) -> VttState {
    match st {
        VttState::CueBody(h, _, _) => VttState::CueBody(h, a, b),
        VttState::NoteBody(_, _) => VttState::NoteBody(a, b),
        VttState::StyleBody(_, _) => VttState::StyleBody(a, b),
        _ => VttState::RegionBody(a, b),
    }
}

/// The text of a block's section: the text and a line feed, unless the text is empty.
pub open spec fn section_text(t: Seq<char>) -> Seq<char> {
    text_if(t.len() > 0, t + seq!['\n'])
}

/// `st` collects text.
pub open spec fn is_section(st: VttState) -> bool {
    st is CueBody || st is NoteBody || st is StyleBody || st is RegionBody
}

/// At the end of the text or at a blank line, a text-collecting state hands out its block.
#[verifier::spinoff_prover]
proof fn lemma_section_emit(s: Seq<char>, r: int, st: VttState, a: nat, b: nat, seen: bool)
    requires
        is_section(st),
        0 <= r <= s.len(),
        r == s.len() || s[r] == '\n',
    ensures
        vtt_step(s, ParserV { pos: r as nat, state: with_bounds(st, a, b), seen_cue: seen, pending: None })
            == VttStep::Emit(
            after_block(s, r, seen),
            Ok::<BlockV, ParseVttError>(section_block(st, crate::srt::body_text(s, a, b))),
        ),
{
    if r < s.len() {
        assert(s.subrange(r, r) =~= Seq::<char>::empty());
        lemma_next_line(s, r, Seq::<char>::empty());
    }
    match st {
        VttState::CueBody(h, _, _) => {},
        VttState::NoteBody(_, _) => {},
        VttState::StyleBody(_, _) => {},
        _ => {},
    }
}

/// `t` is text whose lines read back one by one: no carriage return, and no empty line
/// (no line feed at its start or its end, and never two in a row).
pub open spec fn lines_ok(t: Seq<char>) -> bool {
    &&& forall|k: int| 0 <= k < t.len() ==> #[trigger] t[k] != '\r'
    &&& t.len() > 0 ==> t[0] != '\n' && t[t.len() - 1] != '\n'
    &&& forall|k: int| 0 <= k < t.len() - 1 && #[trigger] t[k] == '\n' ==> t[k + 1] != '\n'
}

/// Where the search for a line break from `i` stops: every character before it is none,
/// and it is the end or a line break.
pub proof fn lemma_find_eol_props(s: Seq<char>, i: int)
    requires
        0 <= i <= s.len(),
    ensures
        i <= find_eol(s, i) <= s.len(),
        forall|k: int| i <= k < find_eol(s, i) ==> #[trigger] s[k] != '\n' && s[k] != '\r',
        find_eol(s, i) < s.len() ==> s[find_eol(s, i)] == '\n' || s[find_eol(s, i)] == '\r',
    decreases s.len() - i,
{
    if i < s.len() && s[i] != '\n' && s[i] != '\r' {
        lemma_find_eol_props(s, i + 1);
    }
}

/// An arrow found in `s[lo..hi]` lies wholly within it.
proof fn lemma_find_arrow_props(s: Seq<char>, lo: int, hi: int)
    requires
        has_arrow(s, lo, hi),
    ensures
        lo <= find_arrow(s, lo, hi),
        find_arrow(s, lo, hi) + 3 <= hi,
        arrow_at(s, find_arrow(s, lo, hi)),
    decreases hi - lo,
{
    if lo + 3 <= hi && !arrow_at(s, lo) {
        lemma_find_arrow_props(s, lo + 1, hi);
    }
}

/// An arrow within `s[lo2..hi2]` is within any stretch around it.
pub proof fn lemma_arrow_within(s: Seq<char>, lo: int, hi: int, lo2: int, hi2: int)
    requires
        lo <= lo2,
        hi2 <= hi,
        has_arrow(s, lo2, hi2),
    ensures
        has_arrow(s, lo, hi),
{
    lemma_find_arrow_props(s, lo2, hi2);
    lemma_arrow_found(s, lo, hi, find_arrow(s, lo2, hi2));
}

/// The line of the text `s[q0..q0 + n]` starting at `q` (at its start or after one of its
/// line feeds): it is not empty, ends at a line feed within or right after the text, and,
/// in a cue's text without the arrow, holds no arrow.
proof fn lemma_body_line(s: Seq<char>, q0: int, n: int, q: int, cue: bool)
    requires
        0 <= q0,
        q0 + n < s.len(),
        s[q0 + n] == '\n',
        lines_ok(s.subrange(q0, q0 + n)),
        cue ==> !has_arrow(s.subrange(q0, q0 + n), 0, n),
        q0 <= q < q0 + n,
        q > q0 ==> s[q - 1] == '\n',
    ensures
        next_raw(s, q as nat) == Some((q as nat, find_eol(s, q) as nat, (find_eol(s, q) + 1) as nat)),
        q < find_eol(s, q) <= q0 + n,
        s[find_eol(s, q)] == '\n',
        cue ==> !has_arrow(s, q, find_eol(s, q)),
{
    let t = s.subrange(q0, q0 + n);
    assert forall|k: int| q0 <= k < q0 + n implies #[trigger] s[k] == t[k - q0] by {}
    lemma_find_eol_props(s, q);
    let j = find_eol(s, q);
    if q > q0 {
        assert(t[q - 1 - q0] == '\n');
        assert(t[q - q0] != '\n');
    }
    assert(s[q] != '\n' && s[q] != '\r') by {
        assert(s[q] == t[q - q0]);
    }
    if j > q0 + n {
        assert(s[q0 + n] != '\n');
    }
    if j < q0 + n {
        assert(s[j] != '\r') by {
            assert(s[j] == t[j - q0]);
        }
    }
    if cue && has_arrow(s, q, j) {
        assert(s.subrange(q0, q0 + n) == t);
        lemma_has_arrow_shift(s, t, q0);
        lemma_arrow_within(s, q0, q0 + n, q, j);
    }
}

/// A text-collecting state that has collected `s[q0..q - 1]`, reading on from `q` the rest
/// of the text `s[q0..q0 + n]` that reads back line by line, ends having collected all of
/// it, just past the line feed after it.
proof fn lemma_body_lines(s: Seq<char>, q0: int, n: int, q: int, st: VttState, seen: bool)
    requires
        is_section(st),
        0 <= q0,
        q0 + n < s.len(),
        s[q0 + n] == '\n',
        lines_ok(s.subrange(q0, q0 + n)),
        st is CueBody ==> !has_arrow(s.subrange(q0, q0 + n), 0, n),
        q0 + 1 < q <= q0 + n + 1,
        s[q - 1] == '\n',
    ensures
        vtt_next(s, ParserV { pos: q as nat, state: with_bounds(st, q0 as nat, (q - 1) as nat), seen_cue: seen, pending: None })
            == vtt_next(s, ParserV { pos: (q0 + n + 1) as nat, state: with_bounds(st, q0 as nat, (q0 + n) as nat), seen_cue: seen, pending: None }),
    decreases q0 + n + 1 - q,
{
    if q <= q0 + n {
        let t = s.subrange(q0, q0 + n);
        if q == q0 + n {
            assert(t[n - 1] == s[q - 1]);
        }
        lemma_body_line(s, q0, n, q, st is CueBody);
        let j = find_eol(s, q);
        let p = ParserV { pos: q as nat, state: with_bounds(st, q0 as nat, (q - 1) as nat), seen_cue: seen, pending: None };
        let p2 = ParserV { pos: (j + 1) as nat, state: with_bounds(st, q0 as nat, j as nat), seen_cue: seen, pending: None };
        match st {
            VttState::CueBody(h, _, _) => {},
            VttState::NoteBody(_, _) => {},
            VttState::StyleBody(_, _) => {},
            _ => {},
        }
        assert(vtt_step(s, p) == VttStep::Go(p2));
        lemma_next_unfold(s, p);
        lemma_body_lines(s, q0, n, j + 1, st, seen);
    }
}

/// A text-collecting state that has collected nothing, reading the section of `t` at `q`
/// followed by the end or a blank line, hands out its block with the text `t`.
#[verifier::spinoff_prover]
proof fn lemma_text_section(s: Seq<char>, q: int, st: VttState, e: nat, t: Seq<char>, seen: bool)
    requires
        empty_section(st, e),
        0 <= e < q,
        lines_ok(t),
        st is CueBody ==> !has_arrow(t, 0, t.len() as int),
        q + section_text(t).len() <= s.len(),
        s.subrange(q, q + section_text(t).len()) == section_text(t),
        q + section_text(t).len() == s.len() || s[q + section_text(t).len()] == '\n',
    ensures
        vtt_next(s, ParserV { pos: q as nat, state: st, seen_cue: seen, pending: None }) == (
            after_block(s, q + section_text(t).len(), seen),
            Some(Ok::<BlockV, ParseVttError>(section_block(st, t))),
        ),
{
    let p0 = ParserV { pos: q as nat, state: st, seen_cue: seen, pending: None };
    assert(is_section(st));
    assert(st == with_bounds(st, e, e));
    if t.len() > 0 {
        let n = t.len() as int;
        let r = q + n;
        assert(section_text(t) == t + seq!['\n']);
        assert(s.subrange(q, r) =~= t) by {
            assert forall|k: int| 0 <= k < t.len() implies s.subrange(q, r)[k] == t[k] by {
                assert(s.subrange(q, q + section_text(t).len())[k] == s[q + k]);
                assert(section_text(t)[k] == t[k]);
            }
        }
        assert(s[r] == '\n') by {
            assert(s.subrange(q, q + section_text(t).len())[t.len() as int] == s[r]);
        }
        lemma_body_line(s, q, n, q, st is CueBody);
        let j = find_eol(s, q);
        let p1 = ParserV { pos: (j + 1) as nat, state: with_bounds(st, q as nat, j as nat), seen_cue: seen, pending: None };
        match st {
            VttState::CueBody(h, _, _) => {},
            VttState::NoteBody(_, _) => {},
            VttState::StyleBody(_, _) => {},
            _ => {},
        }
        assert(vtt_step(s, p0) == VttStep::Go(p1));
        lemma_next_unfold(s, p0);
        lemma_body_lines(s, q, n, j + 1, st, seen);
        let p2 = ParserV { pos: (r + 1) as nat, state: with_bounds(st, q as nat, r as nat), seen_cue: seen, pending: None };
        lemma_section_emit(s, r + 1, st, q as nat, r as nat, seen);
        lemma_next_unfold(s, p2);
        assert(crate::srt::body_text(s, q as nat, r as nat) =~= t);
    } else {
        assert(section_text(t).len() == 0);
        lemma_section_emit(s, q, st, e, e, seen);
        lemma_next_unfold(s, p0);
        assert(crate::srt::body_text(s, e, e) =~= t);
    }
}

/// A cue identifier that reads back: one line without the arrow, not empty, not starting
/// with a byte order mark, and not a `NOTE`, `STYLE` or `REGION` line.
pub open spec fn id_ok(x: Seq<char>) -> bool {
    &&& text_ok(x)
    &&& x.len() > 0
    &&& x[0] != '\u{feff}'
    &&& !keyword_line(x, 0, x.len() as int, "NOTE"@)
    &&& !keyword_line(x, 0, x.len() as int, "STYLE"@)
    &&& !keyword_line(x, 0, x.len() as int, "REGION"@)
}

/// A block that reads back as written: valid timestamps, an identifier that reads back,
/// settings that read back, and text whose lines read back, without the arrow in a cue.
pub open spec fn block_ok(b: BlockV) -> bool {
    match b {
        BlockV::Cue(h, body) => {
            &&& vtt_ts_valid(h.start)
            &&& vtt_ts_valid(h.end)
            &&& (h.identifier matches Some(id) ==> id_ok(id))
            &&& header_settings_ok(h)
            &&& lines_ok(body)
            &&& !has_arrow(body, 0, body.len() as int)
        },
        BlockV::Note(t) => lines_ok(t),
        BlockV::Style(t) => lines_ok(t),
        BlockV::Region(t) => lines_ok(t),
    }
}

/// A line starting with `c`, which is not the first letter of any keyword, is no keyword
/// line.
proof fn lemma_not_keyword(s: Seq<char>, t: int, e: int, kw: Seq<char>, c: char)
    requires
        0 <= t < e <= s.len(),
        s[t] == c,
        kw.len() > 0,
        kw[0] != c,
    ensures
        !keyword_line(s, t, e, kw),
{
    if starts_with(s, t, e, kw) {
        assert(s.subrange(t, t + kw.len())[0] == s[t]);
    }
}

/// The keywords, letter by letter.
proof fn lemma_keywords()
    ensures
        "NOTE"@ == seq!['N', 'O', 'T', 'E'],
        "STYLE"@ == seq!['S', 'T', 'Y', 'L', 'E'],
        "REGION"@ == seq!['R', 'E', 'G', 'I', 'O', 'N'],
        "NOTE\n"@ == seq!['N', 'O', 'T', 'E', '\n'],
        "STYLE\n"@ == seq!['S', 'T', 'Y', 'L', 'E', '\n'],
        "REGION\n"@ == seq!['R', 'E', 'G', 'I', 'O', 'N', '\n'],
{
    reveal_strlit("NOTE");
    reveal_strlit("STYLE");
    reveal_strlit("REGION");
    reveal_strlit("NOTE\n");
    reveal_strlit("STYLE\n");
    reveal_strlit("REGION\n");
}

/// The timing line of a cue whose settings read back, found in `s` at `lo` and ended by a line
/// feed, is a line holding the arrow that reads back as that timing.
proof fn lemma_timing_found(s: Seq<char>, lo: int, h: CueHeaderV)
    requires
        header_settings_ok(h),
        vtt_ts_valid(h.start),
        vtt_ts_valid(h.end),
        0 <= lo,
        lo + timing_line(h).len() < s.len(),
        s.subrange(lo, lo + timing_line(h).len()) == timing_line(h),
        s[lo + timing_line(h).len()] == '\n',
    ensures
        next_raw(s, lo as nat) == Some(
            (lo as nat, (lo + timing_line(h).len()) as nat, (lo + timing_line(h).len() + 1) as nat),
        ),
        has_arrow(s, lo, lo + timing_line(h).len()),
        spec_timing_line(s, lo, lo + timing_line(h).len()) == Some(
            (h.start, h.end, h.settings),
        ),
        is_digit(s[lo]),
{
    let x = timing_line(h);
    lemma_timing_line_text(h);
    lemma_next_line(s, lo, x);
    lemma_has_arrow_shift(s, x, lo);
    lemma_timing_line_reads(s, lo, lo + x.len(), h);
    assert(s.subrange(lo, lo + x.len())[0] == s[lo]);
}

/// The reader at the start of a block, once a cue's header lines are read.
pub open spec fn in_cue(h: CueHeaderV, e1: int) -> ParserV {
    ParserV { pos: (e1 + 1) as nat, state: VttState::CueBody(h, e1 as nat, e1 as nat), seen_cue: true, pending: None }
}

/// A cue without identifier: the first line is its timing line.
#[verifier::spinoff_prover]
#[verifier::rlimit(50)]
proof fn lemma_cue_step_plain(s: Seq<char>, p: int, h: CueHeaderV, seen: bool)
    requires
        vtt_ts_valid(h.start),
        vtt_ts_valid(h.end),
        h.identifier is None,
        header_settings_ok(h),
        0 <= p,
        p + timing_line(h).len() < s.len(),
        s.subrange(p, p + timing_line(h).len()) == timing_line(h),
        s[p + timing_line(h).len()] == '\n',
    ensures
        vtt_step(s, at_block(p as nat, seen)) == VttStep::Go(in_cue(h, p + timing_line(h).len())),
{
    lemma_keywords();
    let e1 = p + timing_line(h).len();
    lemma_timing_found(s, p, h);
    lemma_not_keyword(s, p, e1, "NOTE"@, s[p]);
    lemma_not_keyword(s, p, e1, "STYLE"@, s[p]);
    lemma_not_keyword(s, p, e1, "REGION"@, s[p]);
    assert(crate::text::skip_bom(s, p, e1) == p);
    let q = ParserV { pos: (e1 + 1) as nat, state: VttState::BlockStart, seen_cue: seen, pending: None };
    let hb = super::parser::cue_header(None, (h.start, h.end, h.settings));
    assert(hb == h);
    assert(block_start(s, q, p as nat, e1 as nat) == VttStep::Go(in_cue(h, e1)));
}

/// A cue with an identifier: the identifier line, then its timing line.
#[verifier::spinoff_prover]
#[verifier::rlimit(50)]
proof fn lemma_cue_step_id(s: Seq<char>, p: int, h: CueHeaderV, id: Seq<char>, seen: bool)
    requires
        vtt_ts_valid(h.start),
        vtt_ts_valid(h.end),
        h.identifier == Some(id),
        id_ok(id),
        header_settings_ok(h),
        0 <= p,
        p + id.len() + 1 + timing_line(h).len() < s.len(),
        s.subrange(p, p + id.len()) == id,
        s[p + id.len()] == '\n',
        s.subrange(p + id.len() + 1, p + id.len() + 1 + timing_line(h).len()) == timing_line(h),
        s[p + id.len() + 1 + timing_line(h).len()] == '\n',
    ensures
        vtt_step(s, at_block(p as nat, seen)) == VttStep::Go(
            in_cue(h, p + id.len() + 1 + timing_line(h).len()),
        ),
{
    lemma_keywords();
    let e0 = p + id.len();
    let e1 = e0 + 1 + timing_line(h).len();
    lemma_next_line(s, p, id);
    lemma_has_arrow_shift(s, id, p);
    lemma_keyword_shift(s, id, p, "NOTE"@);
    lemma_keyword_shift(s, id, p, "STYLE"@);
    lemma_keyword_shift(s, id, p, "REGION"@);
    assert(s.subrange(p, e0)[0] == s[p]);
    assert(crate::text::skip_bom(s, p, e0) == p);
    lemma_timing_found(s, e0 + 1, h);
    let q = ParserV { pos: (e0 + 1) as nat, state: VttState::BlockStart, seen_cue: seen, pending: None };
    let hb = super::parser::cue_header(Some(s.subrange(p, e0)), (h.start, h.end, h.settings));
    assert(hb == h);
    assert(block_start(s, q, p as nat, e0 as nat) == VttStep::Go(in_cue(h, e1)));
}

/// A cue that reads back, written at `p` and followed by the end or a blank line, is read
/// back by one call of `Parser::next`.
#[verifier::spinoff_prover]
#[verifier::rlimit(50)]
proof fn lemma_cue_reads(s: Seq<char>, p: int, h: CueHeaderV, body: Seq<char>, seen: bool)
    requires
        block_ok(BlockV::Cue(h, body)),
        0 <= p,
        p + cue_text(h, body).len() <= s.len(),
        s.subrange(p, p + cue_text(h, body).len()) == cue_text(h, body),
        p + cue_text(h, body).len() == s.len() || s[p + cue_text(h, body).len()] == '\n',
    ensures
        vtt_next(s, at_block(p as nat, seen)) == (
            after_block(s, p + cue_text(h, body).len(), true),
            Some(Ok::<BlockV, ParseVttError>(BlockV::Cue(h, body))),
        ),
{
    reveal(super::writer::timing_part);
    let w = cue_text(h, body);
    let x = timing_line(h);
    let ip = super::writer::id_part(h);
    let sec = section_text(body);
    assert(w =~= ip + x + seq!['\n'] + sec);
    assert forall|k: int| 0 <= k < w.len() implies s[p + k] == #[trigger] w[k] by {
        assert(s.subrange(p, p + w.len())[k] == s[p + k]);
    }
    let lo = p + ip.len();
    let e1 = lo + x.len();
    assert(s.subrange(lo, e1) =~= x) by {
        assert forall|k: int| 0 <= k < x.len() implies s.subrange(lo, e1)[k] == x[k] by {
            assert(w[ip.len() + k] == x[k]);
            assert(s[p + (ip.len() + k)] == w[ip.len() + k]);
        }
    }
    assert(s[e1] == '\n') by {
        assert(w[ip.len() + x.len() as int] == '\n');
        assert(s[p + (ip.len() + x.len())] == w[ip.len() + x.len() as int]);
    }
    assert(s.subrange(e1 + 1, e1 + 1 + sec.len()) =~= sec) by {
        assert forall|k: int| 0 <= k < sec.len() implies s.subrange(e1 + 1, e1 + 1 + sec.len())[k] == sec[k] by {
            assert(w[ip.len() + x.len() + 1 + k] == sec[k]);
            assert(s[p + (ip.len() + x.len() + 1 + k)] == w[ip.len() + x.len() + 1 + k]);
        }
    }
    let p0 = at_block(p as nat, seen);
    match h.identifier {
        None => {
            lemma_cue_step_plain(s, p, h, seen);
        },
        Some(id) => {
            let e0 = p + id.len();
            assert(ip == id + seq!['\n']);
            assert(s.subrange(p, e0) =~= id) by {
                assert forall|k: int| 0 <= k < id.len() implies s.subrange(p, e0)[k] == id[k] by {
                    assert(w[k] == id[k]);
                }
            }
            assert(s[e0] == '\n') by {
                assert(w[id.len() as int] == '\n');
            }
            lemma_cue_step_id(s, p, h, id, seen);
        },
    }
    lemma_next_unfold(s, p0);
    lemma_text_section(s, e1 + 1, VttState::CueBody(h, e1 as nat, e1 as nat), e1 as nat, body, true);
}

/// The keyword of a `NOTE`, `STYLE` or `REGION` block, and the state that collects its text.
pub open spec fn keyword_of(b: BlockV) -> Seq<char> {
    match b {
        BlockV::Note(_) => "NOTE"@,
        BlockV::Style(_) => "STYLE"@,
        _ => "REGION"@,
    }
}

/// The text under the keyword of a `NOTE`, `STYLE` or `REGION` block.
pub open spec fn keyword_text(b: BlockV) -> Seq<char> {
    match b {
        BlockV::Note(t) => t,
        BlockV::Style(t) => t,
        BlockV::Region(t) => t,
        BlockV::Cue(_, t) => t,
    }
}

/// The state that collects the text of a `NOTE`, `STYLE` or `REGION` block, with bounds `e`.
pub open spec fn keyword_state(b: BlockV, e: nat) -> VttState {
    match b {
        BlockV::Note(_) => VttState::NoteBody(e, e),
        BlockV::Style(_) => VttState::StyleBody(e, e),
        _ => VttState::RegionBody(e, e),
    }
}

/// The keyword line of a `NOTE`, `STYLE` or `REGION` block starts its text-collecting state.
#[verifier::spinoff_prover]
#[verifier::rlimit(50)]
proof fn lemma_keyword_step(s: Seq<char>, p: int, b: BlockV, seen: bool)
    requires
        !(b is Cue),
        (b is Style || b is Region) ==> !seen,
        0 <= p,
        p + keyword_of(b).len() < s.len(),
        s.subrange(p, p + keyword_of(b).len()) == keyword_of(b),
        s[p + keyword_of(b).len()] == '\n',
    ensures
        vtt_step(s, at_block(p as nat, seen)) == VttStep::Go(
            ParserV {
                pos: (p + keyword_of(b).len() + 1) as nat,
                state: keyword_state(b, (p + keyword_of(b).len()) as nat),
                seen_cue: seen,
                pending: None,
            },
        ),
{
    lemma_keywords();
    let kw = keyword_of(b);
    let e = p + kw.len();
    assert(line_ok(kw));
    lemma_next_line(s, p, kw);
    assert(s[p] == kw[0]) by {
        assert(s.subrange(p, e)[0] == s[p]);
    }
    assert(crate::text::skip_bom(s, p, e) == p);
    assert(s.subrange(p, p + kw.len()) == kw);
    let q = ParserV { pos: (e + 1) as nat, state: VttState::BlockStart, seen_cue: seen, pending: None };
    match b {
        BlockV::Note(_) => {
            assert(keyword_line(s, p, e, "NOTE"@));
        },
        BlockV::Style(_) => {
            lemma_not_keyword(s, p, e, "NOTE"@, s[p]);
            assert(keyword_line(s, p, e, "STYLE"@));
        },
        BlockV::Region(_) => {
            lemma_not_keyword(s, p, e, "NOTE"@, s[p]);
            lemma_not_keyword(s, p, e, "STYLE"@, s[p]);
            assert(keyword_line(s, p, e, "REGION"@));
        },
        BlockV::Cue(_, _) => {},
    }
    assert(block_start(s, q, p as nat, e as nat) == VttStep::Go(
        ParserV { pos: (e + 1) as nat, state: keyword_state(b, e as nat), seen_cue: seen, pending: None },
    ));
}

/// A `NOTE`, `STYLE` or `REGION` block that reads back, written at `p` and followed by
/// the end or a blank line, is read back by one call of `Parser::next`.
#[verifier::spinoff_prover]
#[verifier::rlimit(50)]
proof fn lemma_keyword_block_reads(s: Seq<char>, p: int, b: BlockV, seen: bool)
    requires
        !(b is Cue),
        block_ok(b),
        (b is Style || b is Region) ==> !seen,
        0 <= p,
        p + block_text(b).len() <= s.len(),
        s.subrange(p, p + block_text(b).len()) == block_text(b),
        p + block_text(b).len() == s.len() || s[p + block_text(b).len()] == '\n',
    ensures
        vtt_next(s, at_block(p as nat, seen)) == (
            after_block(s, p + block_text(b).len(), seen),
            Some(Ok::<BlockV, ParseVttError>(b)),
        ),
{
    lemma_keywords();
    let kw = keyword_of(b);
    let t = keyword_text(b);
    let w = block_text(b);
    let sec = section_text(t);
    assert(w =~= kw + seq!['\n'] + sec);
    assert forall|k: int| 0 <= k < w.len() implies s[p + k] == #[trigger] w[k] by {
        assert(s.subrange(p, p + w.len())[k] == s[p + k]);
    }
    let e = p + kw.len();
    assert(s.subrange(p, e) =~= kw) by {
        assert forall|k: int| 0 <= k < kw.len() implies s.subrange(p, e)[k] == kw[k] by {
            assert(w[k] == kw[k]);
        }
    }
    assert(s[e] == '\n') by {
        assert(w[kw.len() as int] == '\n');
    }
    assert(s.subrange(e + 1, e + 1 + sec.len()) =~= sec) by {
        assert forall|k: int| 0 <= k < sec.len() implies s.subrange(e + 1, e + 1 + sec.len())[k] == sec[k] by {
            assert(w[kw.len() + 1 + k] == sec[k]);
            assert(s[p + (kw.len() + 1 + k)] == w[kw.len() + 1 + k]);
        }
    }
    lemma_keyword_step(s, p, b, seen);
    lemma_next_unfold(s, at_block(p as nat, seen));
    lemma_text_section(s, e + 1, keyword_state(b, e as nat), e as nat, t, seen);
    assert(section_block(keyword_state(b, e as nat), t) == b);
}

/// A block that reads back, written at `p` and followed by the end or a blank line, is read
/// back by one call of `Parser::next`.
proof fn lemma_block_reads(s: Seq<char>, p: int, b: BlockV, seen: bool)
    requires
        block_ok(b),
        (b is Style || b is Region) ==> !seen,
        0 <= p,
        p + block_text(b).len() <= s.len(),
        s.subrange(p, p + block_text(b).len()) == block_text(b),
        p + block_text(b).len() == s.len() || s[p + block_text(b).len()] == '\n',
    ensures
        vtt_next(s, at_block(p as nat, seen)) == (
            after_block(s, p + block_text(b).len(), seen || b is Cue),
            Some(Ok::<BlockV, ParseVttError>(b)),
        ),
{
    match b {
        BlockV::Cue(h, body) => lemma_cue_reads(s, p, h, body, seen),
        _ => lemma_keyword_block_reads(s, p, b, seen),
    }
}

/// Blocks that read back as written, with no `STYLE` or `REGION` block after a cue.
pub open spec fn blocks_ok(bs: Seq<BlockV>) -> bool {
    &&& forall|i: int| 0 <= i < bs.len() ==> block_ok(#[trigger] bs[i])
    &&& forall|i: int, k: int|
        0 <= i < k < bs.len() && (#[trigger] bs[i]) is Cue ==> !((#[trigger] bs[k]) is Style || bs[k] is Region)
}

/// Writing one more block appends a blank line and its text.
proof fn lemma_bt_step(bs: Seq<BlockV>, j: int)
    requires
        0 <= j < bs.len(),
    ensures
        blocks_text(bs.subrange(0, j + 1)) == blocks_text(bs.subrange(0, j)) + seq!['\n'] + block_text(bs[j]),
{
    assert(bs.subrange(0, j + 1).drop_last() =~= bs.subrange(0, j));
}

/// The text of the first `j` blocks starts the text of all of them.
proof fn lemma_bt_prefix(bs: Seq<BlockV>, j: int)
    requires
        0 <= j <= bs.len(),
    ensures
        blocks_text(bs.subrange(0, j)).len() <= blocks_text(bs).len(),
        blocks_text(bs).subrange(0, blocks_text(bs.subrange(0, j)).len() as int) == blocks_text(bs.subrange(0, j)),
    decreases bs.len(),
{
    if j == bs.len() {
        assert(bs.subrange(0, j) =~= bs);
        assert(blocks_text(bs).subrange(0, blocks_text(bs).len() as int) =~= blocks_text(bs));
    } else {
        let d = bs.drop_last();
        assert(d.subrange(0, j) =~= bs.subrange(0, j));
        lemma_bt_prefix(d, j);
        let x = blocks_text(bs.subrange(0, j));
        assert(blocks_text(bs) == blocks_text(d) + seq!['\n'] + block_text(bs.last()));
        assert(blocks_text(bs).subrange(0, x.len() as int) =~= blocks_text(d).subrange(0, x.len() as int));
    }
}

/// Where block `j` starts in the written text (after the signature and the blank line).
pub open spec fn block_offset(hd: Option<Seq<char>>, bs: Seq<BlockV>, j: int) -> int {
    signature_text(hd).len() + blocks_text(bs.subrange(0, j)).len() as int
}

/// In the written text, block `j` sits after a blank line and is followed by the end or a
/// blank line.
proof fn lemma_block_layout(hd: Option<Seq<char>>, bs: Seq<BlockV>, j: int)
    requires
        0 <= j < bs.len(),
    ensures
        ({
            let s = signature_text(hd) + blocks_text(bs);
            let o = block_offset(hd, bs, j);
            let w = block_text(bs[j]);
            &&& o + 1 + w.len() == block_offset(hd, bs, j + 1)
            &&& block_offset(hd, bs, j + 1) <= s.len()
            &&& s[o] == '\n'
            &&& s.subrange(o + 1, o + 1 + w.len()) == w
            &&& (j + 1 == bs.len() ==> block_offset(hd, bs, j + 1) == s.len())
            &&& (j + 1 < bs.len() ==> s[block_offset(hd, bs, j + 1)] == '\n')
        }),
{
    let sig = signature_text(hd);
    let s = sig + blocks_text(bs);
    let o = block_offset(hd, bs, j);
    let w = block_text(bs[j]);
    let x = blocks_text(bs.subrange(0, j));
    let y = blocks_text(bs.subrange(0, j + 1));
    lemma_bt_step(bs, j);
    lemma_bt_prefix(bs, j + 1);
    let all = blocks_text(bs);
    assert forall|k: int| 0 <= k < y.len() implies s[sig.len() + k] == #[trigger] y[k] by {
        assert(all.subrange(0, y.len() as int)[k] == all[k]);
    }
    assert(s[o] == '\n') by {
        assert(y[x.len() as int] == '\n');
        assert(s[sig.len() + x.len() as int] == y[x.len() as int]);
    }
    assert(s.subrange(o + 1, o + 1 + w.len()) =~= w) by {
        assert forall|k: int| 0 <= k < w.len() implies s.subrange(o + 1, o + 1 + w.len())[k] == w[k] by {
            assert(y[x.len() + 1 + k] == w[k]);
            assert(s[sig.len() + (x.len() + 1 + k)] == y[x.len() + 1 + k]);
        }
    }
    if j + 1 == bs.len() {
        assert(bs.subrange(0, j + 1) =~= bs);
    } else {
        lemma_bt_step(bs, j + 1);
        lemma_bt_prefix(bs, j + 2);
        let z = blocks_text(bs.subrange(0, j + 2));
        assert(s[block_offset(hd, bs, j + 1)] == '\n') by {
            assert(z[y.len() as int] == '\n');
            assert(all.subrange(0, z.len() as int)[y.len() as int] == all[y.len() as int]);
        }
    }
}

/// Reading the written blocks from block `j` on gives back the blocks from `j` on.
proof fn lemma_collect_from(hd: Option<Seq<char>>, bs: Seq<BlockV>, j: int, seen: bool)
    requires
        blocks_ok(bs),
        0 <= j < bs.len(),
        seen ==> forall|k: int| j <= k < bs.len() ==> !((#[trigger] bs[k]) is Style || bs[k] is Region),
    ensures
        vtt_collect(signature_text(hd) + blocks_text(bs), at_block((block_offset(hd, bs, j) + 1) as nat, seen)) == Ok::<
            Seq<BlockV>,
            ParseVttError,
        >(bs.subrange(j, bs.len() as int)),
    decreases bs.len() - j,
{
    let s = signature_text(hd) + blocks_text(bs);
    let o = block_offset(hd, bs, j);
    let b = bs[j];
    let p = at_block((o + 1) as nat, seen);
    lemma_block_layout(hd, bs, j);
    assert(block_ok(b));
    lemma_block_reads(s, o + 1, b, seen);
    let seen2 = seen || b is Cue;
    let p2 = after_block(s, o + 1 + block_text(b).len(), seen2);
    assert(parser_wf(s.len(), p));
    super::parser::lemma_next_measure(s, p);
    if j + 1 == bs.len() {
        assert(p2.state is Done);
        assert(bs.subrange(j, bs.len() as int) =~= seq![b]);
        assert(vtt_collect(s, p2) == Ok::<Seq<BlockV>, ParseVttError>(Seq::empty()));
        assert(seq![b].add(Seq::<BlockV>::empty()) =~= seq![b]);
    } else {
        assert forall|k: int| j + 1 <= k < bs.len() && seen2 implies !((#[trigger] bs[k]) is Style
            || bs[k] is Region) by {
            if b is Cue {
                assert(bs[j] is Cue);
            }
        }
        lemma_collect_from(hd, bs, j + 1, seen2);
        assert(seq![b].add(bs.subrange(j + 1, bs.len() as int)) =~= bs.subrange(j, bs.len() as int));
    }
}

/// Header text that the signature line can carry: no line break in it.
pub open spec fn header_ok(hd: Option<Seq<char>>) -> bool {
    hd matches Some(t) ==> line_ok(t)
}

/// The signature line of the written text takes the reader to the header.
#[verifier::spinoff_prover]
proof fn lemma_signature_step(hd: Option<Seq<char>>, bs: Seq<BlockV>)
    requires
        header_ok(hd),
    ensures
        vtt_step(signature_text(hd) + blocks_text(bs), vtt_start()) == VttStep::Go(
            ParserV { pos: signature_text(hd).len(), state: VttState::Header, seen_cue: false, pending: None },
        ),
        signature_text(hd).len() >= 7,
        signature_text(hd)[signature_text(hd).len() - 1] == '\n',
{
    reveal_strlit("WEBVTT");
    let sig = signature_text(hd);
    let s = sig + blocks_text(bs);
    let mid = match hd {
        Some(t) => text_if(t.len() > 0, seq![' '] + t),
        None => Seq::<char>::empty(),
    };
    let line = "WEBVTT"@ + mid;
    assert(sig =~= line + seq!['\n']);
    assert(line_ok(line)) by {
        assert forall|k: int| 0 <= k < line.len() implies #[trigger] line[k] != '\n' && line[k] != '\r' by {
            if k >= 7 {
                assert(line[k] == mid[k - 6]);
                if let Some(t) = hd {
                    assert(mid[k - 6] == t[k - 7]);
                }
            }
        }
    }
    assert(s.subrange(0, line.len() as int) =~= line);
    assert(s[line.len() as int] == '\n');
    lemma_next_line(s, 0, line);
    assert(s.subrange(0, 6) =~= "WEBVTT"@);
    assert(s[0] == 'W');
    assert(crate::text::skip_bom(s, 0, line.len() as int) == 0);
    if mid.len() > 0 {
        assert(s[6] == ' ');
    }
}

/// After the signature, the header ends at the blank line before the first block, or the
/// reader is done when there is no block.
#[verifier::spinoff_prover]
proof fn lemma_header_step(hd: Option<Seq<char>>, bs: Seq<BlockV>)
    requires
        header_ok(hd),
    ensures
        ({
            let s = signature_text(hd) + blocks_text(bs);
            let p1 = ParserV { pos: signature_text(hd).len(), state: VttState::Header, seen_cue: false, pending: None };
            &&& bs.len() == 0 ==> vtt_step(s, p1) == VttStep::Quit(ParserV { state: VttState::Done, ..p1 })
            &&& bs.len() > 0 ==> vtt_step(s, p1) == VttStep::Go(at_block((signature_text(hd).len() + 1) as nat, false))
                && block_offset(hd, bs, 0) == signature_text(hd).len()
        }),
{
    lemma_signature_step(hd, bs);
    let sig = signature_text(hd);
    let s = sig + blocks_text(bs);
    if bs.len() == 0 {
        assert(blocks_text(bs) == Seq::<char>::empty());
        assert(s.len() == sig.len());
    } else {
        lemma_block_layout(hd, bs, 0);
        assert(bs.subrange(0, 0) =~= Seq::<BlockV>::empty());
        assert(blocks_text(bs.subrange(0, 0)) == Seq::<char>::empty());
        assert(s.subrange(sig.len() as int, sig.len() as int) =~= Seq::<char>::empty());
        lemma_next_line(s, sig.len() as int, Seq::<char>::empty());
    }
}

/// What the writer writes reads back as the blocks written: for a signature line whose
/// header text holds no line break, and blocks with valid timestamps, identifiers that read
/// back, settings that read back (percentages no larger than 100, a region identifier
/// without white space, and not all absent when given), text without carriage returns or
/// empty lines (and, in a cue, without the arrow), and no `STYLE` or `REGION` block after a
/// cue.
#[verifier::spinoff_prover]
pub proof fn law_write_read(hd: Option<Seq<char>>, bs: Seq<BlockV>)
    requires
        header_ok(hd),
        blocks_ok(bs),
    ensures
        spec_parse_vtt(signature_text(hd) + blocks_text(bs)) == Ok::<Seq<BlockV>, ParseVttError>(bs),
{
    let sig = signature_text(hd);
    let s = sig + blocks_text(bs);
    let p0 = vtt_start();
    let p1 = ParserV { pos: sig.len(), state: VttState::Header, seen_cue: false, pending: None };
    lemma_signature_step(hd, bs);
    lemma_header_step(hd, bs);
    lemma_next_unfold(s, p0);
    lemma_next_unfold(s, p1);
    super::parser::lemma_next_measure(s, p0);
    if bs.len() == 0 {
        assert(bs =~= Seq::<BlockV>::empty());
    } else {
        let p2 = at_block((sig.len() + 1) as nat, false);
        super::parser::lemma_next_measure(s, p2);
        lemma_collect_from(hd, bs, 0, false);
        assert(bs.subrange(0, bs.len() as int) =~= bs);
    }
}

/// A text that the writer wrote, read back and written again with the same signature
/// line, is the same text (under the conditions of `law_write_read`).
pub proof fn law_read_write(hd: Option<Seq<char>>, bs: Seq<BlockV>)
    requires
        header_ok(hd),
        blocks_ok(bs),
    ensures
        ({
            let s = signature_text(hd) + blocks_text(bs);
            &&& spec_parse_vtt(s) is Ok
            &&& signature_text(hd) + blocks_text(spec_parse_vtt(s)->Ok_0) == s
        }),
{
    law_write_read(hd, bs);
}

/// A call of `Parser::next` that hands out an error leaves the reader done.
proof fn lemma_error_done(s: Seq<char>, p: ParserV)
    requires
        parser_wf(s.len(), p),
    ensures
        vtt_next(s, p).1 matches Some(Err(_)) ==> vtt_next(s, p).0.state is Done,
    decreases super::parser::vtt_measure(s, p),
{
    super::parser::lemma_step(s, p);
    lemma_next_unfold(s, p);
    if let VttStep::Go(p2) = vtt_step(s, p) {
        lemma_error_done(s, p2);
    }
}

/// Once `Parser::next` has handed out an error or nothing, every later call hands out
/// nothing and leaves the reader as it is.
pub proof fn law_parser_fused(s: Seq<char>, p: ParserV)
    requires
        parser_wf(s.len(), p),
        vtt_next(s, p).1 is None || vtt_next(s, p).1 matches Some(Err(_)),
    ensures
        vtt_next(s, vtt_next(s, p).0) == (vtt_next(s, p).0, None::<Result<BlockV, ParseVttError>>),
{
    super::parser::lemma_next_measure(s, p);
    lemma_error_done(s, p);
    let p2 = vtt_next(s, p).0;
    assert(vtt_step(s, p2) == VttStep::Quit(p2));
}

} // verus!
