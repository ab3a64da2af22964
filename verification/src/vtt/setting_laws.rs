use vstd::prelude::*;

use crate::error::ParseIntError;
use crate::text::{all_digits, dec_digits, dec_value, is_digit, scan_neg_digits, spec_parse_i32, spec_parse_uint};

use super::scan::{find_in, find_space, is_vtt_space, is_ws};
use super::settings::{
    align_of, apply_setting, line_align_of, line_setting, line_value, pct_value, position_align_of,
    position_setting, settings_run, vertical_of,
};
use super::types::{
    align_text, line_align_text, no_settings, position_align_text, vertical_text, Align, CueSettingsV, Line,
    LineAlign, LineValue, Position, PositionAlign, Size, Vertical,
};
use super::writer::{int_text, line_value_text};

verus! {

/// Where `c` first stands in `s[i..hi]`, found in a stretch of `s`, is where it stands in
/// that stretch alone, moved.
pub proof fn lemma_find_in_shift(s: Seq<char>, off: int, w: Seq<char>, a: int, b: int, c: char)
    requires
        0 <= off,
        off + w.len() <= s.len(),
        s.subrange(off, off + w.len()) == w,
        0 <= a <= b <= w.len(),
    ensures
        find_in(s, off + a, off + b, c) == off + find_in(w, a, b, c),
    decreases b - a,
{
    if a < b {
        assert(s[off + a] == w[a]) by {
            assert(s.subrange(off, off + w.len())[a] == s[off + a]);
        }
        if w[a] != c {
            lemma_find_in_shift(s, off, w, a + 1, b, c);
        }
    }
}

/// The first `c` in `s[i..hi]`, when none comes before `j` and `s[j]` is `c`, is at `j`.
pub proof fn lemma_find_in_exact(s: Seq<char>, i: int, j: int, hi: int, c: char)
    requires
        i <= j <= hi,
        forall|k: int| i <= k < j ==> #[trigger] s[k] != c,
        j < hi ==> s[j] == c,
    ensures
        find_in(s, i, hi, c) == j,
    decreases j - i,
{
    if i < j {
        lemma_find_in_exact(s, i + 1, j, hi, c);
    }
}

/// The percentage written in a stretch of `s` is the one written in that stretch alone.
proof fn lemma_pct_shift(s: Seq<char>, a: int, b: int)
    requires
        0 <= a <= b <= s.len(),
    ensures
        pct_value(s, a, b) == pct_value(s.subrange(a, b), 0, b - a),
{
    let x = s.subrange(a, b);
    if b > a {
        assert(x[b - a - 1] == s[b - 1]);
        assert(x.subrange(0, b - a - 1) =~= s.subrange(a, b - 1));
    }
}

/// The line value written in a stretch of `s` is the one written in that stretch alone.
proof fn lemma_line_value_shift(s: Seq<char>, a: int, b: int)
    requires
        0 <= a <= b <= s.len(),
    ensures
        line_value(s, a, b) == line_value(s.subrange(a, b), 0, b - a),
{
    lemma_pct_shift(s, a, b);
    assert(s.subrange(a, b).subrange(0, b - a) =~= s.subrange(a, b));
}

/// The decimal numeral of `n` reads back as `n` where `n` fits.
pub proof fn lemma_dec_reads(n: nat, max: nat)
    requires
        n <= max,
    ensures
        spec_parse_uint(dec_digits(n), max) == Ok::<nat, ParseIntError>(n),
        dec_digits(n).len() >= 1,
        all_digits(dec_digits(n)),
{
    crate::text::lemma_dec_digits(n);
    crate::text::lemma_parse_uint_digits(dec_digits(n), max);
}

/// Reading the digits after a leading `-` as a negative magnitude gives their value.
proof fn lemma_scan_neg_value(t: Seq<char>, d: Seq<char>, i: int, max: nat)
    requires
        t == seq!['-'] + d,
        all_digits(d),
        dec_value(d) <= max,
        0 <= i <= d.len(),
    ensures
        scan_neg_digits(t, i + 1, dec_value(d.take(i)), max) == Ok::<nat, ParseIntError>(dec_value(d)),
    decreases d.len() - i,
{
    if i < d.len() {
        assert(d.take(i + 1).drop_last() =~= d.take(i));
        assert(d.take(i + 1).last() == d[i]);
        assert(t[i + 1] == d[i]);
        assert(is_digit(d[i]));
        crate::text::lemma_dec_value_prefix(d, i + 1);
        lemma_scan_neg_value(t, d, i + 1, max);
    } else {
        assert(d.take(i) =~= d);
    }
}

/// The text of an `i32` reads back as that `i32`.
pub proof fn lemma_int_text_reads(n: i32)
    ensures
        spec_parse_i32(int_text(n as int)) == Ok::<int, ParseIntError>(n as int),
        int_text(n as int).len() >= 1,
        is_digit(int_text(n as int).last()),
        forall|k: int| 0 <= k < int_text(n as int).len() ==> #[trigger] int_text(n as int)[k] == '-' || is_digit(
            int_text(n as int)[k],
        ),
{
    if n < 0 {
        let m = (-(n as int)) as nat;
        let d = dec_digits(m);
        let t = int_text(n as int);
        crate::text::lemma_dec_digits(m);
        assert(t == seq!['-'] + d);
        assert(d.take(0) =~= Seq::<char>::empty());
        lemma_scan_neg_value(t, d, 0, 0x8000_0000);
        assert(t.last() == d.last());
        assert(is_digit(d[d.len() - 1]));
        assert forall|k: int| 0 <= k < t.len() implies #[trigger] t[k] == '-' || is_digit(t[k]) by {
            if k > 0 {
                assert(t[k] == d[k - 1]);
            }
        }
    } else {
        let d = dec_digits(n as nat);
        lemma_dec_reads(n as nat, 0x7fff_ffff);
        assert(is_digit(d[0]));
        assert(is_digit(d[d.len() - 1]));
    }
}

/// The text of a percentage no larger than 100 reads back as it.
pub proof fn lemma_pct_reads(p: u8)
    requires
        p <= 100,
    ensures
        pct_value(dec_digits(p as nat) + seq!['%'], 0, dec_digits(p as nat).len() + 1int) == Some(p),
{
    let x = dec_digits(p as nat) + seq!['%'];
    lemma_dec_reads(p as nat, 255);
    assert(x.subrange(0, x.len() - 1) =~= dec_digits(p as nat));
}

/// The text of a line value reads back as it, where a percentage is no larger than 100.
pub proof fn lemma_line_value_reads(v: LineValue)
    requires
        v matches LineValue::Percentage(p) ==> p <= 100,
    ensures
        line_value(line_value_text(v), 0, line_value_text(v).len() as int) == Some(v),
        forall|k: int| 0 <= k < line_value_text(v).len() ==> #[trigger] line_value_text(v)[k] != ','
            && !is_ws(line_value_text(v)[k]),
        line_value_text(v).len() > 0,
{
    match v {
        LineValue::Percentage(p) => {
            lemma_pct_reads(p);
            lemma_dec_reads(p as nat, 255);
            let d = dec_digits(p as nat);
            let x = line_value_text(v);
            assert(x == d + seq!['%']);
            assert(x.len() == d.len() + 1);
            assert(pct_value(x, 0, x.len() as int) == Some(p));
            assert(line_value(x, 0, x.len() as int) == Some(LineValue::Percentage(p)));
            assert forall|k: int| 0 <= k < x.len() implies #[trigger] x[k] != ',' && !is_ws(x[k]) by {
                if k < d.len() {
                    assert(x[k] == d[k]);
                    assert(is_digit(d[k]));
                }
            }
        },
        LineValue::Number(n) => {
            lemma_int_text_reads(n);
            let x = line_value_text(v);
            assert(x[x.len() - 1] != '%');
            assert(x.subrange(0, x.len() as int) =~= x);
            assert forall|k: int| 0 <= k < x.len() implies #[trigger] x[k] != ',' && !is_ws(x[k]) by {
                assert(x[k] == '-' || is_digit(x[k]));
            }
        },
    }
}

/// The keywords of settings and of their values, letter by letter.
pub proof fn lemma_setting_words()
    ensures
        "vertical"@ == seq!['v', 'e', 'r', 't', 'i', 'c', 'a', 'l'],
        "line"@ == seq!['l', 'i', 'n', 'e'],
        "position"@ == seq!['p', 'o', 's', 'i', 't', 'i', 'o', 'n'],
        "size"@ == seq!['s', 'i', 'z', 'e'],
        "align"@ == seq!['a', 'l', 'i', 'g', 'n'],
        "region"@ == seq!['r', 'e', 'g', 'i', 'o', 'n'],
        "rl"@ == seq!['r', 'l'],
        "lr"@ == seq!['l', 'r'],
        "start"@ == seq!['s', 't', 'a', 'r', 't'],
        "center"@ == seq!['c', 'e', 'n', 't', 'e', 'r'],
        "end"@ == seq!['e', 'n', 'd'],
        "left"@ == seq!['l', 'e', 'f', 't'],
        "right"@ == seq!['r', 'i', 'g', 'h', 't'],
        "line-left"@ == seq!['l', 'i', 'n', 'e', '-', 'l', 'e', 'f', 't'],
        "line-right"@ == seq!['l', 'i', 'n', 'e', '-', 'r', 'i', 'g', 'h', 't'],
        "auto"@ == seq!['a', 'u', 't', 'o'],
        " vertical:"@ == seq![' '] + "vertical"@ + seq![':'],
        " line:"@ == seq![' '] + "line"@ + seq![':'],
        " position:"@ == seq![' '] + "position"@ + seq![':'],
        " size:"@ == seq![' '] + "size"@ + seq![':'],
        " align:"@ == seq![' '] + "align"@ + seq![':'],
        " region:"@ == seq![' '] + "region"@ + seq![':'],
{
    reveal_strlit("vertical");
    reveal_strlit("line");
    reveal_strlit("position");
    reveal_strlit("size");
    reveal_strlit("align");
    reveal_strlit("region");
    reveal_strlit("rl");
    reveal_strlit("lr");
    reveal_strlit("start");
    reveal_strlit("center");
    reveal_strlit("end");
    reveal_strlit("left");
    reveal_strlit("right");
    reveal_strlit("line-left");
    reveal_strlit("line-right");
    reveal_strlit("auto");
    reveal_strlit(" vertical:");
    reveal_strlit(" line:");
    reveal_strlit(" position:");
    reveal_strlit(" size:");
    reveal_strlit(" align:");
    reveal_strlit(" region:");
    assert(" vertical:"@ =~= seq![' '] + "vertical"@ + seq![':']);
    assert(" line:"@ =~= seq![' '] + "line"@ + seq![':']);
    assert(" position:"@ =~= seq![' '] + "position"@ + seq![':']);
    assert(" size:"@ =~= seq![' '] + "size"@ + seq![':']);
    assert(" align:"@ =~= seq![' '] + "align"@ + seq![':']);
    assert(" region:"@ =~= seq![' '] + "region"@ + seq![':']);
}

/// The line setting written in a stretch of `s` is the one written in that stretch alone.
proof fn lemma_line_setting_shift(s: Seq<char>, off: int, w: Seq<char>, a: int, b: int)
    requires
        0 <= off,
        off + w.len() <= s.len(),
        s.subrange(off, off + w.len()) == w,
        0 <= a <= b <= w.len(),
    ensures
        line_setting(s, off + a, off + b) == line_setting(w, a, b),
{
    lemma_find_in_shift(s, off, w, a, b, ',');
    let cm = find_in(w, a, b, ',');
    crate::vtt::cue_text::lemma_find_in(w, a, b, ',');
    lemma_line_value_shift(s, off + a, off + cm);
    lemma_line_value_shift(w, a, cm);
    lemma_line_value_shift(s, off + a, off + b);
    lemma_line_value_shift(w, a, b);
    assert(s.subrange(off + a, off + cm) =~= w.subrange(a, cm));
    assert(s.subrange(off + a, off + b) =~= w.subrange(a, b));
    if cm < b {
        assert(s.subrange(off + cm + 1, off + b) =~= w.subrange(cm + 1, b));
    }
}

/// The position setting written in a stretch of `s` is the one written in that stretch alone.
proof fn lemma_position_setting_shift(s: Seq<char>, off: int, w: Seq<char>, a: int, b: int)
    requires
        0 <= off,
        off + w.len() <= s.len(),
        s.subrange(off, off + w.len()) == w,
        0 <= a <= b <= w.len(),
    ensures
        position_setting(s, off + a, off + b) == position_setting(w, a, b),
{
    lemma_find_in_shift(s, off, w, a, b, ',');
    let cm = find_in(w, a, b, ',');
    crate::vtt::cue_text::lemma_find_in(w, a, b, ',');
    lemma_pct_shift(s, off + a, off + cm);
    lemma_pct_shift(w, a, cm);
    lemma_pct_shift(s, off + a, off + b);
    lemma_pct_shift(w, a, b);
    assert(s.subrange(off + a, off + cm) =~= w.subrange(a, cm));
    assert(s.subrange(off + a, off + b) =~= w.subrange(a, b));
    if cm < b {
        assert(s.subrange(off + cm + 1, off + b) =~= w.subrange(cm + 1, b));
    }
}

/// A setting token found in a stretch of `s` does what it does alone.
pub proof fn lemma_apply_shift(s: Seq<char>, off: int, w: Seq<char>, acc: CueSettingsV)
    requires
        0 <= off,
        off + w.len() <= s.len(),
        s.subrange(off, off + w.len()) == w,
    ensures
        apply_setting(s, off, off + w.len(), acc) == apply_setting(w, 0, w.len() as int, acc),
{
    let k = w.len() as int;
    lemma_find_in_shift(s, off, w, 0, k, ':');
    let c = find_in(w, 0, k, ':');
    crate::vtt::cue_text::lemma_find_in(w, 0, k, ':');
    if c < k {
        assert(s.subrange(off, off + c) =~= w.subrange(0, c));
        assert(s.subrange(off + c + 1, off + k) =~= w.subrange(c + 1, k));
        lemma_line_setting_shift(s, off, w, c + 1, k);
        lemma_position_setting_shift(s, off, w, c + 1, k);
        lemma_pct_shift(s, off + c + 1, off + k);
        lemma_pct_shift(w, c + 1, k);
    }
}

/// `w` is a setting token that can be read: no white space in it, and a `:` that is
/// neither absent nor last.
pub open spec fn tok_ok(w: Seq<char>) -> bool {
    &&& w.len() > 0
    &&& forall|k: int| 0 <= k < w.len() ==> !is_ws(#[trigger] w[k])
    &&& find_in(w, 0, w.len() as int, ':') + 1 < w.len()
}

/// Setting tokens written one after another, each after a space.
pub open spec fn tokens_text(ws: Seq<Seq<char>>) -> Seq<char>
    decreases ws.len(),
{
    if ws.len() == 0 {
        Seq::empty()
    } else {
        seq![' '] + ws[0] + tokens_text(ws.drop_first())
    }
}

/// Applying setting tokens one after another to `acc`.
pub open spec fn apply_all(ws: Seq<Seq<char>>, acc: CueSettingsV) -> CueSettingsV
    decreases ws.len(),
{
    if ws.len() == 0 {
        acc
    } else {
        match apply_setting(ws[0], 0, ws[0].len() as int, acc) {
            Some(a) => apply_all(ws.drop_first(), a),
            None => acc,
        }
    }
}

/// Writing two lists of tokens one after the other is writing their concatenation.
pub proof fn lemma_tokens_text_add(a: Seq<Seq<char>>, b: Seq<Seq<char>>)
    ensures
        tokens_text(a + b) == tokens_text(a) + tokens_text(b),
    decreases a.len(),
{
    if a.len() == 0 {
        assert(a + b =~= b);
    } else {
        assert((a + b).drop_first() =~= a.drop_first() + b);
        lemma_tokens_text_add(a.drop_first(), b);
        assert(tokens_text(a + b) =~= tokens_text(a) + tokens_text(b));
    }
}

/// A token that can be read does something, whatever was read before.
pub proof fn lemma_tok_applies(w: Seq<char>, acc: CueSettingsV)
    requires
        tok_ok(w),
    ensures
        apply_setting(w, 0, w.len() as int, acc) is Some,
{
}

/// Applying two lists of readable tokens one after the other is applying their
/// concatenation.
pub proof fn lemma_apply_all_add(a: Seq<Seq<char>>, b: Seq<Seq<char>>, acc: CueSettingsV)
    requires
        forall|i: int| 0 <= i < a.len() ==> tok_ok(#[trigger] a[i]),
    ensures
        apply_all(a + b, acc) == apply_all(b, apply_all(a, acc)),
    decreases a.len(),
{
    if a.len() == 0 {
        assert(a + b =~= b);
    } else {
        assert((a + b).drop_first() =~= a.drop_first() + b);
        assert((a + b)[0] == a[0]);
        lemma_tok_applies(a[0], acc);
        let x = apply_setting(a[0], 0, a[0].len() as int, acc)->Some_0;
        assert forall|i: int| 0 <= i < a.drop_first().len() implies tok_ok(#[trigger] a.drop_first()[i]) by {
            assert(a.drop_first()[i] == a[i + 1]);
        }
        lemma_apply_all_add(a.drop_first(), b, x);
    }
}

/// The first separator in `s[i..hi]`, when none comes before `j` and `s[j]` is one, is at `j`.
proof fn lemma_find_space_exact(s: Seq<char>, i: int, j: int, hi: int)
    requires
        i <= j <= hi,
        forall|k: int| i <= k < j ==> !is_vtt_space(#[trigger] s[k]),
        j < hi ==> is_vtt_space(s[j]),
    ensures
        find_space(s, i, hi) == j,
    decreases j - i,
{
    if i < j {
        lemma_find_space_exact(s, i + 1, j, hi);
    }
}

/// Reading readable setting tokens, each after a space, applies them one after another.
pub proof fn lemma_run_tokens(s: Seq<char>, p: int, hi: int, ws: Seq<Seq<char>>, acc: CueSettingsV)
    requires
        ws.len() > 0,
        forall|i: int| 0 <= i < ws.len() ==> tok_ok(#[trigger] ws[i]),
        0 <= p,
        p + tokens_text(ws).len() == hi,
        hi <= s.len(),
        s.subrange(p, hi) == tokens_text(ws),
    ensures
        settings_run(s, p + 1, hi, acc) == apply_all(ws, acc),
    decreases ws.len(),
{
    let w = ws[0];
    let rest = ws.drop_first();
    let t = tokens_text(ws);
    assert(tok_ok(w));
    assert(t == seq![' '] + w + tokens_text(rest));
    let i = p + 1;
    let k = i + w.len();
    assert forall|m: int| 0 <= m < t.len() implies s[p + m] == #[trigger] t[m] by {
        assert(s.subrange(p, hi)[m] == s[p + m]);
    }
    assert(s.subrange(i, k) =~= w) by {
        assert forall|m: int| 0 <= m < w.len() implies s.subrange(i, k)[m] == w[m] by {
            assert(t[1 + m] == w[m]);
            assert(s[p + (1 + m)] == t[1 + m]);
        }
    }
    assert forall|m: int| i <= m < k implies !is_vtt_space(#[trigger] s[m]) by {
        assert(s[m] == w[m - i]) by {
            assert(s.subrange(i, k)[m - i] == s[m]);
        }
        assert(!is_ws(w[m - i]));
    }
    if rest.len() > 0 {
        assert(tokens_text(rest) == seq![' '] + rest[0] + tokens_text(rest.drop_first()));
        assert(s[k] == ' ') by {
            assert(t[1 + w.len() as int] == tokens_text(rest)[0]);
            assert(s[p + (1 + w.len())] == t[1 + w.len() as int]);
        }
    } else {
        assert(tokens_text(rest) == Seq::<char>::empty());
    }
    lemma_find_space_exact(s, i, k, hi);
    lemma_apply_shift(s, i, w, acc);
    lemma_tok_applies(w, acc);
    let x = apply_setting(w, 0, w.len() as int, acc)->Some_0;
    if rest.len() > 0 {
        assert forall|j: int| 0 <= j < rest.len() implies tok_ok(#[trigger] rest[j]) by {
            assert(rest[j] == ws[j + 1]);
        }
        assert(s.subrange(k, hi) =~= tokens_text(rest)) by {
            assert forall|m: int| 0 <= m < tokens_text(rest).len() implies s.subrange(k, hi)[m] == tokens_text(
                rest,
            )[m] by {
                assert(t[1 + w.len() + m] == tokens_text(rest)[m]);
                assert(s[p + (1 + w.len() + m)] == t[1 + w.len() + m]);
            }
        }
        lemma_run_tokens(s, k, hi, rest, x);
    }
}

/// A setting token: a name, `:`, and a value.
pub open spec fn kv(key: Seq<char>, val: Seq<char>) -> Seq<char> {
    key + seq![':'] + val
}

/// The parts of a setting token: the `:` ends the name.
proof fn lemma_kv(key: Seq<char>, val: Seq<char>)
    requires
        forall|k: int| 0 <= k < key.len() ==> #[trigger] key[k] != ':',
    ensures
        find_in(kv(key, val), 0, kv(key, val).len() as int, ':') == key.len(),
        kv(key, val).subrange(0, key.len() as int) == key,
        kv(key, val).subrange(key.len() + 1int, kv(key, val).len() as int) == val,
{
    let w = kv(key, val);
    assert forall|k: int| 0 <= k < key.len() implies #[trigger] w[k] != ':' by {
        assert(w[k] == key[k]);
    }
    lemma_find_in_exact(w, 0, key.len() as int, w.len() as int, ':');
    assert(w.subrange(0, key.len() as int) =~= key);
    assert(w.subrange(key.len() + 1int, w.len() as int) =~= val);
}

/// A token made of a name and a value without white space, the name without `:`, and
/// the value not empty, can be read.
proof fn lemma_kv_ok(key: Seq<char>, val: Seq<char>)
    requires
        key.len() > 0,
        val.len() > 0,
        forall|k: int| 0 <= k < key.len() ==> #[trigger] key[k] != ':' && !is_ws(key[k]),
        forall|k: int| 0 <= k < val.len() ==> !is_ws(#[trigger] val[k]),
    ensures
        tok_ok(kv(key, val)),
{
    lemma_kv(key, val);
    let w = kv(key, val);
    assert forall|k: int| 0 <= k < w.len() implies !is_ws(#[trigger] w[k]) by {
        if k < key.len() {
            assert(w[k] == key[k]);
        } else if k > key.len() {
            assert(w[k] == val[k - key.len() - 1]);
        }
    }
}

/// The value written for a line setting.
pub open spec fn line_val(l: Line) -> Seq<char> {
    line_value_text(l.value) + match l.alignment {
        Some(a) => seq![','] + line_align_text(a),
        None => Seq::empty(),
    }
}

/// The value written for a position setting.
pub open spec fn position_val(p: Position) -> Seq<char> {
    dec_digits(p.value as nat) + seq!['%'] + match p.alignment {
        Some(a) => seq![','] + position_align_text(a),
        None => Seq::empty(),
    }
}

/// The value written for a size setting.
pub open spec fn size_val(sz: Size) -> Seq<char> {
    dec_digits(sz.0 as nat) + seq!['%']
}

/// Keywords of values hold no white space and are not empty.
proof fn lemma_value_words(v: Vertical, la: LineAlign, pa: PositionAlign, a: Align)
    ensures
        vertical_text(v).len() > 0,
        forall|k: int| 0 <= k < vertical_text(v).len() ==> !is_ws(#[trigger] vertical_text(v)[k]) && vertical_text(v)[k] != ',',
        line_align_text(la).len() > 0,
        forall|k: int| 0 <= k < line_align_text(la).len() ==> !is_ws(#[trigger] line_align_text(la)[k]),
        position_align_text(pa).len() > 0,
        forall|k: int| 0 <= k < position_align_text(pa).len() ==> !is_ws(#[trigger] position_align_text(pa)[k]),
        align_text(a).len() > 0,
        forall|k: int| 0 <= k < align_text(a).len() ==> !is_ws(#[trigger] align_text(a)[k]),
        vertical_of(vertical_text(v)) == Some(v),
        line_align_of(line_align_text(la)) == Some(la),
        position_align_of(position_align_text(pa)) == Some(pa),
        align_of(align_text(a)) == Some(a),
{
    lemma_setting_words();
    assert(vertical_of(seq!['r', 'l']) == Some(Vertical::Rl));
    assert(seq!['l', 'r'] != seq!['r', 'l']);
    assert(line_align_of(seq!['c', 'e', 'n', 't', 'e', 'r']) == Some(LineAlign::Center)) by {
        assert(seq!['c', 'e', 'n', 't', 'e', 'r'] != seq!['s', 't', 'a', 'r', 't']);
    }
    assert(seq!['e', 'n', 'd'] != seq!['s', 't', 'a', 'r', 't']);
    assert(seq!['e', 'n', 'd'] != seq!['c', 'e', 'n', 't', 'e', 'r']);
    assert(seq!['c', 'e', 'n', 't', 'e', 'r'] != seq!['l', 'i', 'n', 'e', '-', 'l', 'e', 'f', 't']);
    assert(seq!['l', 'i', 'n', 'e', '-', 'r', 'i', 'g', 'h', 't'] != seq!['l', 'i', 'n', 'e', '-', 'l', 'e', 'f', 't']);
    assert(seq!['l', 'i', 'n', 'e', '-', 'r', 'i', 'g', 'h', 't'] != seq!['c', 'e', 'n', 't', 'e', 'r']);
    assert(seq!['a', 'u', 't', 'o'] != seq!['l', 'i', 'n', 'e', '-', 'l', 'e', 'f', 't']);
    assert(seq!['a', 'u', 't', 'o'] != seq!['c', 'e', 'n', 't', 'e', 'r']);
    assert(seq!['a', 'u', 't', 'o'] != seq!['l', 'i', 'n', 'e', '-', 'r', 'i', 'g', 'h', 't']);
    assert(seq!['l', 'e', 'f', 't'] != seq!['s', 't', 'a', 'r', 't']);
    assert(seq!['l', 'e', 'f', 't'] != seq!['c', 'e', 'n', 't', 'e', 'r']);
    assert(seq!['l', 'e', 'f', 't'] != seq!['e', 'n', 'd']);
    assert(seq!['r', 'i', 'g', 'h', 't'] != seq!['s', 't', 'a', 'r', 't']);
    assert(seq!['r', 'i', 'g', 'h', 't'] != seq!['c', 'e', 'n', 't', 'e', 'r']);
    assert(seq!['r', 'i', 'g', 'h', 't'] != seq!['e', 'n', 'd']);
    assert(seq!['r', 'i', 'g', 'h', 't'] != seq!['l', 'e', 'f', 't']);
}

/// Setting names, one against another.
proof fn lemma_names_differ()
    ensures
        "line"@ != "vertical"@,
        "position"@ != "vertical"@,
        "position"@ != "line"@,
        "size"@ != "vertical"@,
        "size"@ != "line"@,
        "size"@ != "position"@,
        "align"@ != "vertical"@,
        "align"@ != "line"@,
        "align"@ != "position"@,
        "align"@ != "size"@,
        "region"@ != "vertical"@,
        "region"@ != "line"@,
        "region"@ != "position"@,
        "region"@ != "size"@,
        "region"@ != "align"@,
        forall|k: int| 0 <= k < "vertical"@.len() ==> #[trigger] "vertical"@[k] != ':' && !is_ws("vertical"@[k]),
        forall|k: int| 0 <= k < "line"@.len() ==> #[trigger] "line"@[k] != ':' && !is_ws("line"@[k]),
        forall|k: int| 0 <= k < "position"@.len() ==> #[trigger] "position"@[k] != ':' && !is_ws("position"@[k]),
        forall|k: int| 0 <= k < "size"@.len() ==> #[trigger] "size"@[k] != ':' && !is_ws("size"@[k]),
        forall|k: int| 0 <= k < "align"@.len() ==> #[trigger] "align"@[k] != ':' && !is_ws("align"@[k]),
        forall|k: int| 0 <= k < "region"@.len() ==> #[trigger] "region"@[k] != ':' && !is_ws("region"@[k]),
        "vertical"@.len() == 8,
        "line"@.len() == 4,
        "position"@.len() == 8,
        "size"@.len() == 4,
        "align"@.len() == 5,
        "region"@.len() == 6,
{
    lemma_setting_words();
    assert("position"@[0] != "vertical"@[0]);
    assert("size"@[0] != "line"@[0]);
}

/// A writing direction token sets the writing direction.
pub proof fn lemma_apply_vertical(v: Vertical, acc: CueSettingsV)
    ensures
        apply_setting(kv("vertical"@, vertical_text(v)), 0, kv("vertical"@, vertical_text(v)).len() as int, acc)
            == Some(CueSettingsV { vertical: Some(v), ..acc }),
        tok_ok(kv("vertical"@, vertical_text(v))),
{
    lemma_names_differ();
    lemma_value_words(v, LineAlign::Start, PositionAlign::Auto, Align::Start);
    lemma_kv("vertical"@, vertical_text(v));
    lemma_kv_ok("vertical"@, vertical_text(v));
}

/// The value of a line setting, with its percentage no larger than 100, reads back.
proof fn lemma_line_val_reads(l: Line)
    requires
        l.value matches LineValue::Percentage(p) ==> p <= 100,
    ensures
        line_setting(line_val(l), 0, line_val(l).len() as int) == Some(l),
        line_val(l).len() > 0,
        forall|k: int| 0 <= k < line_val(l).len() ==> !is_ws(#[trigger] line_val(l)[k]),
{
    let x = line_value_text(l.value);
    let val = line_val(l);
    lemma_line_value_reads(l.value);
    lemma_value_words(Vertical::Rl, match l.alignment { Some(a) => a, None => LineAlign::Start }, PositionAlign::Auto, Align::Start);
    assert forall|k: int| 0 <= k < x.len() implies #[trigger] val[k] != ',' by {
        assert(val[k] == x[k]);
    }
    lemma_line_value_shift(val, 0, x.len() as int);
    assert(val.subrange(0, x.len() as int) =~= x);
    match l.alignment {
        Some(a) => {
            assert(val[x.len() as int] == ',');
            lemma_find_in_exact(val, 0, x.len() as int, val.len() as int, ',');
            assert(val.subrange(x.len() + 1int, val.len() as int) =~= line_align_text(a));
            assert forall|k: int| 0 <= k < val.len() implies !is_ws(#[trigger] val[k]) by {
                if k > x.len() {
                    assert(val[k] == line_align_text(a)[k - x.len() - 1]);
                }
            }
        },
        None => {
            assert(val =~= x);
            lemma_find_in_exact(val, 0, x.len() as int, val.len() as int, ',');
        },
    }
}

/// A line token sets the line.
pub proof fn lemma_apply_line(l: Line, acc: CueSettingsV)
    requires
        l.value matches LineValue::Percentage(p) ==> p <= 100,
    ensures
        apply_setting(kv("line"@, line_val(l)), 0, kv("line"@, line_val(l)).len() as int, acc) == Some(
            CueSettingsV { line: Some(l), ..acc },
        ),
        tok_ok(kv("line"@, line_val(l))),
{
    lemma_names_differ();
    lemma_line_val_reads(l);
    let w = kv("line"@, line_val(l));
    lemma_kv("line"@, line_val(l));
    lemma_kv_ok("line"@, line_val(l));
    lemma_line_setting_shift(w, 5, line_val(l), 0, line_val(l).len() as int);
}


/// The value of a position setting, with its percentage no larger than 100, reads back.
proof fn lemma_position_val_reads(p: Position)
    requires
        p.value <= 100,
    ensures
        position_setting(position_val(p), 0, position_val(p).len() as int) == Some(p),
        position_val(p).len() > 0,
        forall|k: int| 0 <= k < position_val(p).len() ==> !is_ws(#[trigger] position_val(p)[k]),
{
    let x = line_value_text(LineValue::Percentage(p.value));
    let val = position_val(p);
    lemma_line_value_reads(LineValue::Percentage(p.value));
    lemma_pct_reads(p.value);
    lemma_value_words(
        Vertical::Rl,
        LineAlign::Start,
        match p.alignment {
            Some(a) => a,
            None => PositionAlign::Auto,
        },
        Align::Start,
    );
    assert(x == dec_digits(p.value as nat) + seq!['%']);
    assert forall|k: int| 0 <= k < x.len() implies #[trigger] val[k] != ',' && !is_ws(val[k]) by {
        assert(val[k] == x[k]);
    }
    lemma_pct_shift(val, 0, x.len() as int);
    assert(val.subrange(0, x.len() as int) =~= x);
    match p.alignment {
        Some(a) => {
            assert(val[x.len() as int] == ',');
            lemma_find_in_exact(val, 0, x.len() as int, val.len() as int, ',');
            assert(val.subrange(x.len() + 1int, val.len() as int) =~= position_align_text(a));
            assert forall|k: int| 0 <= k < val.len() implies !is_ws(#[trigger] val[k]) by {
                if k > x.len() {
                    assert(val[k] == position_align_text(a)[k - x.len() - 1]);
                }
            }
        },
        None => {
            assert(val =~= x);
            lemma_find_in_exact(val, 0, x.len() as int, val.len() as int, ',');
        },
    }
}

/// A position token sets the position.
pub proof fn lemma_apply_position(p: Position, acc: CueSettingsV)
    requires
        p.value <= 100,
    ensures
        apply_setting(kv("position"@, position_val(p)), 0, kv("position"@, position_val(p)).len() as int, acc)
            == Some(CueSettingsV { position: Some(p), ..acc }),
        tok_ok(kv("position"@, position_val(p))),
{
    lemma_names_differ();
    lemma_position_val_reads(p);
    let w = kv("position"@, position_val(p));
    lemma_kv("position"@, position_val(p));
    lemma_kv_ok("position"@, position_val(p));
    lemma_position_setting_shift(w, 9, position_val(p), 0, position_val(p).len() as int);
}

/// A size token sets the size.
pub proof fn lemma_apply_size(sz: Size, acc: CueSettingsV)
    requires
        sz.0 <= 100,
    ensures
        apply_setting(kv("size"@, size_val(sz)), 0, kv("size"@, size_val(sz)).len() as int, acc) == Some(
            CueSettingsV { size: Some(sz), ..acc },
        ),
        tok_ok(kv("size"@, size_val(sz))),
{
    lemma_names_differ();
    let x = line_value_text(LineValue::Percentage(sz.0));
    lemma_line_value_reads(LineValue::Percentage(sz.0));
    lemma_pct_reads(sz.0);
    assert(x == size_val(sz));
    let w = kv("size"@, size_val(sz));
    lemma_kv("size"@, size_val(sz));
    lemma_kv_ok("size"@, size_val(sz));
    lemma_pct_shift(w, 5, w.len() as int);
}

/// An alignment token sets the alignment.
pub proof fn lemma_apply_align(a: Align, acc: CueSettingsV)
    ensures
        apply_setting(kv("align"@, align_text(a)), 0, kv("align"@, align_text(a)).len() as int, acc) == Some(
            CueSettingsV { align: Some(a), ..acc },
        ),
        tok_ok(kv("align"@, align_text(a))),
{
    lemma_names_differ();
    lemma_value_words(Vertical::Rl, LineAlign::Start, PositionAlign::Auto, a);
    lemma_kv("align"@, align_text(a));
    lemma_kv_ok("align"@, align_text(a));
}

/// A region identifier that can stand in a token: not empty, without white space.
pub open spec fn region_ok(r: Seq<char>) -> bool {
    r.len() > 0 && forall|k: int| 0 <= k < r.len() ==> !is_ws(#[trigger] r[k])
}

/// A region token sets the region.
pub proof fn lemma_apply_region(r: Seq<char>, acc: CueSettingsV)
    requires
        region_ok(r),
    ensures
        apply_setting(kv("region"@, r), 0, kv("region"@, r).len() as int, acc) == Some(
            CueSettingsV { region: Some(r), ..acc },
        ),
        tok_ok(kv("region"@, r)),
{
    lemma_names_differ();
    lemma_kv("region"@, r);
    lemma_kv_ok("region"@, r);
}


/// Settings that the writer writes and the reader reads back: at least one setting given,
/// percentages no larger than 100, and a region identifier that can stand in a token.
pub open spec fn settings_ok(st: CueSettingsV) -> bool {
    &&& st != no_settings()
    &&& (st.line matches Some(l) ==> (l.value matches LineValue::Percentage(p) ==> p <= 100))
    &&& (st.position matches Some(p) ==> p.value <= 100)
    &&& (st.size matches Some(sz) ==> sz.0 <= 100)
    &&& (st.region matches Some(r) ==> region_ok(r))
}

/// Every token of `ws` can be read.
pub open spec fn toks_ok(ws: Seq<Seq<char>>) -> bool {
    forall|i: int| 0 <= i < ws.len() ==> tok_ok(#[trigger] ws[i])
}

/// The token written for the writing direction, if given.
pub open spec fn vertical_toks(st: CueSettingsV) -> Seq<Seq<char>> {
    match st.vertical {
        Some(v) => seq![kv("vertical"@, vertical_text(v))],
        None => Seq::empty(),
    }
}

/// The token written for the line, if given.
pub open spec fn line_toks(st: CueSettingsV) -> Seq<Seq<char>> {
    match st.line {
        Some(l) => seq![kv("line"@, line_val(l))],
        None => Seq::empty(),
    }
}

/// The token written for the position, if given.
pub open spec fn position_toks(st: CueSettingsV) -> Seq<Seq<char>> {
    match st.position {
        Some(p) => seq![kv("position"@, position_val(p))],
        None => Seq::empty(),
    }
}

/// The token written for the size, if given.
pub open spec fn size_toks(st: CueSettingsV) -> Seq<Seq<char>> {
    match st.size {
        Some(sz) => seq![kv("size"@, size_val(sz))],
        None => Seq::empty(),
    }
}

/// The token written for the alignment, if given.
pub open spec fn align_toks(st: CueSettingsV) -> Seq<Seq<char>> {
    match st.align {
        Some(a) => seq![kv("align"@, align_text(a))],
        None => Seq::empty(),
    }
}

/// The token written for the region, if given.
pub open spec fn region_toks(st: CueSettingsV) -> Seq<Seq<char>> {
    match st.region {
        Some(r) => seq![kv("region"@, r)],
        None => Seq::empty(),
    }
}

/// The tokens written for the settings, in the order vertical, line, position, size,
/// align, region.
pub open spec fn setting_tokens(st: CueSettingsV) -> Seq<Seq<char>> {
    vertical_toks(st) + line_toks(st) + position_toks(st) + size_toks(st) + align_toks(st) + region_toks(st)
}

/// One token, applied or written alone.
proof fn lemma_one_token(w: Seq<char>, acc: CueSettingsV)
    requires
        tok_ok(w),
    ensures
        apply_all(seq![w], acc) == apply_setting(w, 0, w.len() as int, acc)->Some_0,
        tokens_text(seq![w]) == seq![' '] + w,
        toks_ok(seq![w]),
{
    lemma_tok_applies(w, acc);
    let x = apply_setting(w, 0, w.len() as int, acc)->Some_0;
    assert(seq![w].drop_first() =~= Seq::<Seq<char>>::empty());
    assert(apply_all(Seq::<Seq<char>>::empty(), x) == x);
    assert(tokens_text(Seq::<Seq<char>>::empty()) == Seq::<char>::empty());
    assert(tokens_text(seq![w]) =~= seq![' '] + w);
}

/// No token: nothing applied, nothing written.
proof fn lemma_no_token(acc: CueSettingsV)
    ensures
        apply_all(Seq::<Seq<char>>::empty(), acc) == acc,
        tokens_text(Seq::<Seq<char>>::empty()) == Seq::<char>::empty(),
        toks_ok(Seq::<Seq<char>>::empty()),
{
}

/// The token of the writing direction, if given: its text is what the writer writes, it can be read,
/// and reading it sets the writing direction.
proof fn lemma_vertical_toks(st: CueSettingsV, acc: CueSettingsV)
    requires
        acc.vertical == None::<Vertical>,
    ensures
        super::writer::vertical_part(st) == tokens_text(vertical_toks(st)),
        toks_ok(vertical_toks(st)),
        apply_all(vertical_toks(st), acc) == (CueSettingsV { vertical: st.vertical, ..acc }),
{
    reveal(super::writer::vertical_part);
    lemma_setting_words();
    lemma_no_token(acc);
    if let Some(v) = st.vertical {
        lemma_apply_vertical(v, acc);
        lemma_one_token(kv("vertical"@, vertical_text(v)), acc);
        assert(super::writer::vertical_part(st) =~= tokens_text(vertical_toks(st)));
    }
}

/// The token of the line, if given: its text is what the writer writes, it can be read,
/// and reading it sets the line.
proof fn lemma_line_toks(st: CueSettingsV, acc: CueSettingsV)
    requires
        acc.line == None::<Line>,
        st.line matches Some(l) ==> (l.value matches LineValue::Percentage(p) ==> p <= 100),
    ensures
        super::writer::line_part(st) == tokens_text(line_toks(st)),
        toks_ok(line_toks(st)),
        apply_all(line_toks(st), acc) == (CueSettingsV { line: st.line, ..acc }),
{
    reveal(super::writer::line_part);
    lemma_setting_words();
    lemma_no_token(acc);
    if let Some(l) = st.line {
        lemma_apply_line(l, acc);
        lemma_one_token(kv("line"@, line_val(l)), acc);
        assert(super::writer::line_part(st) =~= tokens_text(line_toks(st)));
    }
}

/// The token of the position, if given: its text is what the writer writes, it can be read,
/// and reading it sets the position.
proof fn lemma_position_toks(st: CueSettingsV, acc: CueSettingsV)
    requires
        acc.position == None::<Position>,
        st.position matches Some(p) ==> p.value <= 100,
    ensures
        super::writer::position_part(st) == tokens_text(position_toks(st)),
        toks_ok(position_toks(st)),
        apply_all(position_toks(st), acc) == (CueSettingsV { position: st.position, ..acc }),
{
    reveal(super::writer::position_part);
    lemma_setting_words();
    lemma_no_token(acc);
    if let Some(p) = st.position {
        lemma_apply_position(p, acc);
        lemma_one_token(kv("position"@, position_val(p)), acc);
        assert(super::writer::position_part(st) =~= tokens_text(position_toks(st)));
    }
}

/// The token of the size, if given: its text is what the writer writes, it can be read,
/// and reading it sets the size.
proof fn lemma_size_toks(st: CueSettingsV, acc: CueSettingsV)
    requires
        acc.size == None::<Size>,
        st.size matches Some(sz) ==> sz.0 <= 100,
    ensures
        super::writer::size_part(st) == tokens_text(size_toks(st)),
        toks_ok(size_toks(st)),
        apply_all(size_toks(st), acc) == (CueSettingsV { size: st.size, ..acc }),
{
    reveal(super::writer::size_part);
    lemma_setting_words();
    lemma_no_token(acc);
    if let Some(sz) = st.size {
        lemma_apply_size(sz, acc);
        lemma_one_token(kv("size"@, size_val(sz)), acc);
        assert(super::writer::size_part(st) =~= tokens_text(size_toks(st)));
    }
}

/// The token of the alignment, if given: its text is what the writer writes, it can be read,
/// and reading it sets the alignment.
proof fn lemma_align_toks(st: CueSettingsV, acc: CueSettingsV)
    requires
        acc.align == None::<Align>,
    ensures
        super::writer::align_part(st) == tokens_text(align_toks(st)),
        toks_ok(align_toks(st)),
        apply_all(align_toks(st), acc) == (CueSettingsV { align: st.align, ..acc }),
{
    reveal(super::writer::align_part);
    lemma_setting_words();
    lemma_no_token(acc);
    if let Some(a) = st.align {
        lemma_apply_align(a, acc);
        lemma_one_token(kv("align"@, align_text(a)), acc);
        assert(super::writer::align_part(st) =~= tokens_text(align_toks(st)));
    }
}

/// The token of the region, if given: its text is what the writer writes, it can be read,
/// and reading it sets the region.
proof fn lemma_region_toks(st: CueSettingsV, acc: CueSettingsV)
    requires
        acc.region == None::<Seq<char>>,
        st.region matches Some(r) ==> region_ok(r),
    ensures
        super::writer::region_part(st) == tokens_text(region_toks(st)),
        toks_ok(region_toks(st)),
        apply_all(region_toks(st), acc) == (CueSettingsV { region: st.region, ..acc }),
{
    reveal(super::writer::region_part);
    lemma_setting_words();
    lemma_no_token(acc);
    if let Some(r) = st.region {
        lemma_apply_region(r, acc);
        lemma_one_token(kv("region"@, r), acc);
        assert(super::writer::region_part(st) =~= tokens_text(region_toks(st)));
    }
}

/// Appending a list of readable tokens to readable tokens keeps them readable, and
/// applies and writes them after the others.
proof fn lemma_append_tokens(a: Seq<Seq<char>>, b: Seq<Seq<char>>, acc: CueSettingsV)
    requires
        toks_ok(a),
        toks_ok(b),
    ensures
        toks_ok(a + b),
        apply_all(a + b, acc) == apply_all(b, apply_all(a, acc)),
        tokens_text(a + b) == tokens_text(a) + tokens_text(b),
{
    assert forall|i: int| 0 <= i < (a + b).len() implies tok_ok(#[trigger] (a + b)[i]) by {
        if i < a.len() {
            assert((a + b)[i] == a[i]);
        } else {
            assert((a + b)[i] == b[i - a.len()]);
        }
    }
    lemma_apply_all_add(a, b, acc);
    lemma_tokens_text_add(a, b);
}

/// The settings text is the text of the setting tokens, which are readable and, applied
/// to no settings, give the settings back.
pub proof fn lemma_settings_tokens(st: CueSettingsV)
    requires
        settings_ok(st),
    ensures
        super::writer::settings_text(st) == tokens_text(setting_tokens(st)),
        toks_ok(setting_tokens(st)),
        apply_all(setting_tokens(st), no_settings()) == st,
        setting_tokens(st).len() > 0,
{
    let a0 = no_settings();
    let a1 = CueSettingsV { vertical: st.vertical, ..a0 };
    let a2 = CueSettingsV { line: st.line, ..a1 };
    let a3 = CueSettingsV { position: st.position, ..a2 };
    let a4 = CueSettingsV { size: st.size, ..a3 };
    let a5 = CueSettingsV { align: st.align, ..a4 };
    let t1 = vertical_toks(st);
    let t2 = line_toks(st);
    let t3 = position_toks(st);
    let t4 = size_toks(st);
    let t5 = align_toks(st);
    let t6 = region_toks(st);
    lemma_vertical_toks(st, a0);
    lemma_line_toks(st, a1);
    lemma_position_toks(st, a2);
    lemma_size_toks(st, a3);
    lemma_align_toks(st, a4);
    lemma_region_toks(st, a5);
    lemma_append_tokens(t1, t2, a0);
    lemma_append_tokens(t1 + t2, t3, a0);
    lemma_append_tokens(t1 + t2 + t3, t4, a0);
    lemma_append_tokens(t1 + t2 + t3 + t4, t5, a0);
    lemma_append_tokens(t1 + t2 + t3 + t4 + t5, t6, a0);
    assert(CueSettingsV { region: st.region, ..a5 } == st);
    if setting_tokens(st).len() == 0 {
        assert(t1.len() == 0 && t2.len() == 0 && t3.len() == 0);
        assert(t4.len() == 0 && t5.len() == 0 && t6.len() == 0);
        assert(st == no_settings());
    }
}

/// In the text of readable tokens every character is a space or no white space at all,
/// and every space is followed by a character that is no white space.
pub proof fn lemma_tokens_chars(ws: Seq<Seq<char>>)
    requires
        toks_ok(ws),
    ensures
        forall|k: int|
            #![trigger tokens_text(ws)[k]]
            0 <= k < tokens_text(ws).len() ==> tokens_text(ws)[k] == ' ' || !is_ws(tokens_text(ws)[k]),
        forall|k: int|
            #![trigger tokens_text(ws)[k]]
            0 <= k < tokens_text(ws).len() && tokens_text(ws)[k] == ' ' ==> k + 1 < tokens_text(ws).len()
                && !is_ws(tokens_text(ws)[k + 1]),
        ws.len() > 0 ==> tokens_text(ws).len() > 1 && tokens_text(ws)[0] == ' ',
    decreases ws.len(),
{
    if ws.len() > 0 {
        let w = ws[0];
        let rest = ws.drop_first();
        let r = tokens_text(rest);
        let t = tokens_text(ws);
        assert(tok_ok(w));
        assert(toks_ok(rest)) by {
            assert forall|i: int| 0 <= i < rest.len() implies tok_ok(#[trigger] rest[i]) by {
                assert(rest[i] == ws[i + 1]);
            }
        }
        lemma_tokens_chars(rest);
        assert(t == seq![' '] + w + r);
        let n = w.len() as int;
        assert forall|k: int| 0 <= k < t.len() implies t[k] == ' ' || !is_ws(#[trigger] t[k]) by {
            if 1 <= k <= n {
                assert(t[k] == w[k - 1]);
            } else if k > n {
                assert(t[k] == r[k - 1 - n]);
            }
        }
        assert forall|k: int| 0 <= k < t.len() && #[trigger] t[k] == ' ' implies k + 1 < t.len() && !is_ws(
            t[k + 1],
        ) by {
            if k == 0 {
                assert(t[1] == w[0]);
            } else if k <= n {
                assert(t[k] == w[k - 1]);
            } else {
                assert(t[k] == r[k - 1 - n]);
                assert(t[k + 1] == r[k - n]);
            }
        }
    }
}

} // verus!
