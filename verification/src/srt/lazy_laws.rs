use vstd::prelude::*;

use super::{body_text, spec_parse_srt, srt_line_end, srt_next, srt_run, srt_step, EntryV, Options, ParseSrtError, SrtParserV, SrtState, SrtStep};

verus! {

/// How far a lazy reader is from its end: nothing once it has stopped, else what is left
/// of the text, and one more.
pub open spec fn srt_measure(s: Seq<char>, p: SrtParserV) -> nat {
    if p.done {
        0
    } else {
        (s.len() - p.pos + 1) as nat
    }
}

/// The entries handed out by calls of `Parser::next` from state `p` on, up to the end or
/// the first error.
pub open spec fn srt_collect(s: Seq<char>, p: SrtParserV, o: Options) -> Result<Seq<EntryV>, ParseSrtError>
    decreases srt_measure(s, p),
{
    if p.done {
        Ok(Seq::empty())
    } else {
        let (p2, r) = srt_next(s, p, o);
        match r {
            None => Ok(Seq::empty()),
            Some(Err(e)) => Err(e),
            Some(Ok(x)) => if srt_measure(s, p2) < srt_measure(s, p) {
                match srt_collect(s, p2, o) {
                    Ok(rest) => Ok(seq![x] + rest),
                    Err(e) => Err(e),
                }
            } else {
                Ok(seq![x])
            },
        }
    }
}

/// The reader's state before anything is read.
pub open spec fn srt_start() -> SrtParserV {
    SrtParserV { pos: 0, state: SrtState::Index, last: None, done: false }
}

/// The next line always starts after the current one.
proof fn lemma_line_advances(s: Seq<char>, pos: int)
    requires
        0 <= pos < s.len(),
    ensures
        srt_line_end(s, pos).1 > pos,
        srt_line_end(s, pos).1 <= s.len(),
{
    crate::text::lemma_find_char(s, pos, '\n');
}

/// A call of `Parser::next` that hands out an entry moves on: it stops, or it stands past
/// where it started and within the text.
proof fn lemma_next_advances(s: Seq<char>, p: SrtParserV, o: Options)
    requires
        !p.done,
        p.pos <= s.len(),
    ensures
        srt_next(s, p, o).1 is Some ==> srt_next(s, p, o).0.done || (p.pos < srt_next(s, p, o).0.pos <= s.len()),
    decreases s.len() - p.pos,
{
    if p.pos < s.len() {
        lemma_line_advances(s, p.pos as int);
        let (e, nx) = srt_line_end(s, p.pos as int);
        if let SrtStep::Next(st2, last2, done) = srt_step(s, p.pos as int, e, p.state, p.last, o) {
            if done is None {
                let p2 = SrtParserV { pos: nx as nat, state: st2, last: last2, done: false };
                lemma_next_advances(s, p2, o);
            }
        }
    }
}

/// Reading lazily from a state gives what reading all at once from that state gives,
/// after the entries read before.
proof fn lemma_collect_run(s: Seq<char>, pos: nat, st: SrtState, last: Option<u64>, acc: Seq<EntryV>, o: Options)
    requires
        pos <= s.len(),
    ensures
        srt_run(s, pos, st, last, acc, o) == match srt_collect(
            s,
            SrtParserV { pos, state: st, last, done: false },
            o,
        ) {
            Ok(v) => Ok::<Seq<EntryV>, ParseSrtError>(acc + v),
            Err(e) => Err(e),
        },
    decreases s.len() - pos,
{
    let p = SrtParserV { pos, state: st, last, done: false };
    lemma_next_advances(s, p, o);
    if pos >= s.len() {
        match st {
            SrtState::Body(h, a, b) => {
                let (p2, r) = srt_next(s, p, o);
                assert(p2.done);
                assert(srt_collect(s, p2, o) == Ok::<Seq<EntryV>, ParseSrtError>(Seq::empty()));
                assert(acc.push((h, super::body_text(s, a, b))) =~= acc + (seq![(h, super::body_text(s, a, b))] + Seq::<EntryV>::empty()));
            },
            _ => {
                assert(acc + Seq::<EntryV>::empty() =~= acc);
            },
        }
    } else {
        lemma_line_advances(s, pos as int);
        let (e, nx) = srt_line_end(s, pos as int);
        match srt_step(s, pos as int, e, st, last, o) {
            SrtStep::Stop(err) => {},
            SrtStep::Next(st2, last2, done) => {
                let p2 = SrtParserV { pos: nx as nat, state: st2, last: last2, done: false };
                match done {
                    Some(x) => {
                        lemma_collect_run(s, nx as nat, st2, last2, acc.push(x), o);
                        match srt_collect(s, p2, o) {
                            Ok(v) => {
                                assert(acc.push(x) + v =~= acc + (seq![x] + v));
                            },
                            Err(_) => {},
                        }
                    },
                    None => {
                        lemma_collect_run(s, nx as nat, st2, last2, acc, o);
                        lemma_next_advances(s, p2, o);
                        assert(srt_next(s, p, o) == srt_next(s, p2, o));
                    },
                }
            },
        }
    }
}

/// The lazy parser, called until it hands out nothing, gives the entries that parsing all
/// at once gives, or stops with the same error.
pub proof fn law_parser_agrees_with_parse(s: Seq<char>, o: Options)
    ensures
        srt_collect(s, srt_start(), o) == spec_parse_srt(s, o),
{
    lemma_collect_run(s, 0, SrtState::Index, None, Seq::empty(), o);
    if let Ok(v) = srt_collect(s, srt_start(), o) {
        assert(Seq::<EntryV>::empty() + v =~= v);
    }
}

/// `t` is empty or a stretch of `s`.
pub open spec fn is_slice(s: Seq<char>, t: Seq<char>) -> bool {
    exists|a: int, b: int| 0 <= a <= b <= s.len() && t == s.subrange(a, b)
}

/// The text between two bounds within `s` is empty or a stretch of `s`.
pub proof fn lemma_body_slice(s: Seq<char>, a: nat, b: nat)
    requires
        a <= s.len(),
        b <= s.len(),
    ensures
        is_slice(s, body_text(s, a, b)),
{
    if a >= b {
        assert(body_text(s, a, b) =~= s.subrange(0, 0));
    } else {
        assert(body_text(s, a, b) == s.subrange(a as int, b as int));
    }
}

/// The line of `s` starting at `i` holds something besides byte order marks (its line
/// break, and a `\r` before it, left out).
pub open spec fn srt_line_full(s: Seq<char>, i: int) -> bool {
    crate::text::skip_bom(s, i, srt_line_end(s, i).0) < srt_line_end(s, i).0
}

/// `s[a..b]` is made of whole lines of `s`, none of them blank: every line starting in it
/// holds something besides byte order marks and ends within it.
pub open spec fn srt_lines_ok(s: Seq<char>, a: int, b: int) -> bool {
    forall|i: int|
        #![trigger srt_line_end(s, i)]
        (a <= i && i < b && (i == a || s[i - 1] == '\n')) ==> (srt_line_full(s, i) && srt_line_end(s, i).0 <= b)
}

/// `t` is a body read from `s`: empty, or a stretch of `s` that neither starts nor ends
/// with a line feed, made of lines none of which is blank.
pub open spec fn body_in(s: Seq<char>, t: Seq<char>) -> bool {
    t.len() == 0 || {
        &&& t[0] != '\n'
        &&& t[t.len() - 1] != '\n'
        &&& exists|a: int, b: int| 0 <= a < b <= s.len() && t == s.subrange(a, b) && srt_lines_ok(s, a, b)
    }
}

/// `pos` is where the line after a line ending at `b` starts: past its line break, or at
/// the end of the text.
pub open spec fn srt_gap(s: Seq<char>, b: int, pos: int) -> bool {
    ||| pos == b && b == s.len()
    ||| b < s.len() && s[b] == '\n' && pos == b + 1
    ||| b + 1 < s.len() && s[b] == '\r' && s[b + 1] == '\n' && pos == b + 2
}

/// An entry read from `s` with options `o`: it has an index number unless the options
/// allow none, and its body is as `body_in` says.
pub open spec fn entry_ok(s: Seq<char>, x: EntryV, o: Options) -> bool {
    &&& (!o.allow_missing_index ==> x.0.0 is Some)
    &&& body_in(s, x.1)
}

/// A reader's state at `pos` agrees with `s` and `o`: an entry being read has an index
/// number unless the options allow none, and the body read so far lies within `s`, made
/// of lines that are not blank, the last one ending just before `pos`.
pub open spec fn state_ok(s: Seq<char>, st: SrtState, o: Options, pos: int) -> bool {
    match st {
        SrtState::Body(h, a, b) => {
            &&& a <= b <= s.len()
            &&& (!o.allow_missing_index ==> h.0 is Some)
            &&& a < b ==> srt_lines_ok(s, a as int, b as int) && srt_gap(s, b as int, pos) && s[b - 1] != '\n'
                && s[a as int] != '\n'
        },
        _ => true,
    }
}

/// A line starting within clean lines is full and ends within them.
proof fn lemma_lines_ok_at(s: Seq<char>, a: int, b: int, i: int)
    requires
        srt_lines_ok(s, a, b),
        a <= i < b,
        i == a || s[i - 1] == '\n',
    ensures
        srt_line_full(s, i),
        srt_line_end(s, i).0 <= b,
{
}

/// The line of `s` at `lo`: where it ends, where the next one starts, and no line break
/// before its end.
proof fn lemma_srt_line(s: Seq<char>, lo: int)
    requires
        0 <= lo < s.len(),
    ensures
        lo <= srt_line_end(s, lo).0 <= srt_line_end(s, lo).1 <= s.len(),
        srt_gap(s, srt_line_end(s, lo).0, srt_line_end(s, lo).1),
        forall|k: int| lo <= k < srt_line_end(s, lo).0 ==> #[trigger] s[k] != '\n',
{
    crate::text::lemma_find_char(s, lo, '\n');
}

/// One line read keeps the state in agreement, and a finished entry is as `entry_ok` says.
#[verifier::spinoff_prover]
proof fn lemma_step_entries(s: Seq<char>, lo: int, st: SrtState, last: Option<u64>, o: Options)
    requires
        state_ok(s, st, o, lo),
        0 <= lo < s.len(),
    ensures
        srt_step(s, lo, srt_line_end(s, lo).0, st, last, o) matches SrtStep::Next(st2, _, done) ==> state_ok(
            s,
            st2,
            o,
            srt_line_end(s, lo).1,
        ) && (done matches Some(x) ==> entry_ok(s, x, o)),
{
    lemma_srt_line(s, lo);
    let (e, nx) = srt_line_end(s, lo);
    if let SrtState::Body(h, a, b) = st {
        if a < b {
            assert(body_text(s, a, b) == s.subrange(a as int, b as int));
        } else {
            assert(body_text(s, a, b).len() == 0);
        }
        if crate::text::skip_bom(s, lo, e) < e {
            assert(srt_line_full(s, lo));
            let a2: int = if a == b { lo } else { a as int };
            assert forall|i: int|
                #![trigger srt_line_end(s, i)]
                a2 <= i < e && (i == a2 || s[i - 1] == '\n') implies srt_line_full(s, i) && srt_line_end(s, i).0 <= e by {
                if i < lo {
                    assert(a < b);
                    assert(lo == b + 1 || lo == b + 2);
                    if i == b {
                        assert(s[b - 1] != '\n');
                    } else if i == b + 1 {
                        assert(s[b as int] == '\r');
                    } else {
                        assert(i < b);
                        assert(a2 == a);
                        assert(a <= i && (i == a || s[i - 1] == '\n'));
                        lemma_lines_ok_at(s, a as int, b as int, i);
                    }
                } else if i > lo {
                    assert(s[i - 1] != '\n');
                }
            }
            assert(s[e - 1] != '\n');
        }
    }
}

/// Reading on from a state in agreement, with entries as `entry_ok` says read before, gives
/// only such entries.
proof fn lemma_run_entries(s: Seq<char>, pos: nat, st: SrtState, last: Option<u64>, acc: Seq<EntryV>, o: Options)
    requires
        state_ok(s, st, o, pos as int),
        pos <= s.len(),
        forall|i: int| 0 <= i < acc.len() ==> entry_ok(s, #[trigger] acc[i], o),
    ensures
        srt_run(s, pos, st, last, acc, o) matches Ok(v) ==> forall|i: int| 0 <= i < v.len() ==> entry_ok(s, #[trigger] v[i], o),
    decreases s.len() - pos,
{
    if pos >= s.len() {
        if let SrtState::Body(h, a, b) = st {
            if a < b {
                assert(body_text(s, a, b) == s.subrange(a as int, b as int));
            } else {
                assert(body_text(s, a, b).len() == 0);
            }
            let v = acc.push((h, body_text(s, a, b)));
            assert forall|i: int| 0 <= i < v.len() implies entry_ok(s, #[trigger] v[i], o) by {
                if i < acc.len() {
                    assert(v[i] == acc[i]);
                }
            }
        }
    } else {
        lemma_line_advances(s, pos as int);
        let (e, nx) = srt_line_end(s, pos as int);
        lemma_step_entries(s, pos as int, st, last, o);
        if let SrtStep::Next(st2, last2, done) = srt_step(s, pos as int, e, st, last, o) {
            let acc2 = match done {
                Some(x) => acc.push(x),
                None => acc,
            };
            assert forall|i: int| 0 <= i < acc2.len() implies entry_ok(s, #[trigger] acc2[i], o) by {
                if i < acc.len() {
                    assert(acc2[i] == acc[i]);
                }
            }
            lemma_run_entries(s, nx as nat, st2, last2, acc2, o);
        }
    }
}

/// Where the non-empty bodies of `v` lie in `s`: `offs[i]` bounds the body of entry `i`
/// when that body is not empty, and these stretches come one after another in `s`.
pub open spec fn bodies_placed(s: Seq<char>, v: Seq<EntryV>, offs: Seq<(int, int)>) -> bool {
    &&& offs.len() == v.len()
    &&& forall|i: int|
        0 <= i < v.len() && v[i].1.len() > 0 ==> 0 <= (#[trigger] offs[i]).0 < offs[i].1 <= s.len() && v[i].1
            == s.subrange(offs[i].0, offs[i].1)
    &&& forall|i: int, j: int|
        0 <= i < j < v.len() && v[i].1.len() > 0 && v[j].1.len() > 0 ==> (#[trigger] offs[i]).1 < (
        #[trigger] offs[j]).0
}

/// The non-empty bodies placed by `offs` end before `x`.
pub open spec fn ends_before(v: Seq<EntryV>, offs: Seq<(int, int)>, x: int) -> bool {
    forall|i: int| 0 <= i < v.len() && v[i].1.len() > 0 ==> (#[trigger] offs[i]).1 < x
}

/// A body being read starts after the bodies already read.
pub open spec fn floor_ok(st: SrtState, v: Seq<EntryV>, offs: Seq<(int, int)>) -> bool {
    match st {
        SrtState::Body(_, a, b) => a < b ==> ends_before(v, offs, a as int),
        _ => true,
    }
}

/// Adding the entry whose body is `s[a..b]` after bodies that end before `a`.
proof fn lemma_push_placed(
    s: Seq<char>,
    acc: Seq<EntryV>,
    offs: Seq<(int, int)>,
    h: super::HeaderV,
    a: nat,
    b: nat,
)
    requires
        bodies_placed(s, acc, offs),
        a <= s.len(),
        b <= s.len(),
        a < b ==> ends_before(acc, offs, a as int),
    ensures
        bodies_placed(s, acc.push((h, body_text(s, a, b))), offs.push((a as int, b as int))),
{
    let v = acc.push((h, body_text(s, a, b)));
    let o2 = offs.push((a as int, b as int));
    let n = acc.len() as int;
    if a < b {
        assert(body_text(s, a, b) == s.subrange(a as int, b as int));
    } else {
        assert(body_text(s, a, b).len() == 0);
    }
    assert forall|i: int| 0 <= i < v.len() && v[i].1.len() > 0 implies 0 <= (#[trigger] o2[i]).0 < o2[i].1 <= s.len()
        && v[i].1 == s.subrange(o2[i].0, o2[i].1) by {
        if i < n {
            assert(v[i] == acc[i] && o2[i] == offs[i]);
        }
    }
    assert forall|i: int, j: int| 0 <= i < j < v.len() && v[i].1.len() > 0 && v[j].1.len() > 0 implies (
    #[trigger] o2[i]).1 < (#[trigger] o2[j]).0 by {
        assert(v[i] == acc[i] && o2[i] == offs[i]);
        if j < n {
            assert(v[j] == acc[j] && o2[j] == offs[j]);
        }
    }
}

/// Reading on, the bodies of the entries read lie one after another in `s`.
proof fn lemma_run_placed(
    s: Seq<char>,
    pos: nat,
    st: SrtState,
    last: Option<u64>,
    acc: Seq<EntryV>,
    o: Options,
    offs: Seq<(int, int)>,
) -> (out: Seq<(int, int)>)
    requires
        state_ok(s, st, o, pos as int),
        pos <= s.len(),
        bodies_placed(s, acc, offs),
        ends_before(acc, offs, pos as int),
        floor_ok(st, acc, offs),
    ensures
        srt_run(s, pos, st, last, acc, o) matches Ok(v) ==> bodies_placed(s, v, out),
    decreases s.len() - pos,
{
    if pos >= s.len() {
        if let SrtState::Body(h, a, b) = st {
            lemma_push_placed(s, acc, offs, h, a, b);
            offs.push((a as int, b as int))
        } else {
            offs
        }
    } else {
        lemma_line_advances(s, pos as int);
        let (e, nx) = srt_line_end(s, pos as int);
        lemma_step_entries(s, pos as int, st, last, o);
        match srt_step(s, pos as int, e, st, last, o) {
            SrtStep::Stop(_) => offs,
            SrtStep::Next(st2, last2, done) => {
                match done {
                    Some(x) => {
                        if let SrtState::Body(h, a, b) = st {
                            lemma_push_placed(s, acc, offs, h, a, b);
                            let acc2 = acc.push(x);
                            let offs2 = offs.push((a as int, b as int));
                            assert(x == (h, body_text(s, a, b)));
                            assert(ends_before(acc2, offs2, nx)) by {
                                assert forall|i: int| 0 <= i < acc2.len() && acc2[i].1.len() > 0 implies (
                                #[trigger] offs2[i]).1 < nx by {
                                    if i < acc.len() {
                                        assert(acc2[i] == acc[i] && offs2[i] == offs[i]);
                                    } else {
                                        assert(a < b);
                                    }
                                }
                            }
                            lemma_run_placed(s, nx as nat, st2, last2, acc2, o, offs2)
                        } else {
                            offs
                        }
                    },
                    None => {
                        assert(ends_before(acc, offs, nx));
                        lemma_run_placed(s, nx as nat, st2, last2, acc, o, offs)
                    },
                }
            },
        }
    }
}

/// Every entry read from an SRT text has an index number, unless the options allow
/// entries without one, and a body that is empty or a stretch of the text made of lines
/// none of which is blank, neither starting nor ending with a line feed; the non-empty
/// bodies lie in the text one after another, in the order of the entries.
pub proof fn law_entries_read(s: Seq<char>, o: Options)
    ensures
        spec_parse_srt(s, o) matches Ok(v) ==> (forall|i: int| 0 <= i < v.len() ==> entry_ok(s, #[trigger] v[i], o))
            && exists|offs: Seq<(int, int)>| bodies_placed(s, v, offs),
{
    lemma_run_entries(s, 0, SrtState::Index, None, Seq::empty(), o);
    let out = lemma_run_placed(s, 0, SrtState::Index, None, Seq::empty(), o, Seq::empty());
    if let Ok(v) = spec_parse_srt(s, o) {
        assert(bodies_placed(s, v, out));
    }
}

} // verus!
