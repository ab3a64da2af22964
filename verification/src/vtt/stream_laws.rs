use vstd::prelude::*;

use crate::srt::lazy_laws::{is_slice, lemma_body_slice};
use crate::text::{is_digit, skip_bom};

use super::parser::{
    lemma_next_measure, lemma_next_unfold, lemma_next_wf, lemma_step, next_raw, parser_wf, spec_parse_vtt,
    vtt_collect, vtt_measure, vtt_next, vtt_start, vtt_step, BlockV, ParserV, VttState, VttStep,
};
use super::laws::{lemma_arrow_found, lemma_arrow_within, lemma_find_eol_props};
use super::scan::{arrow_at, find_eol, has_arrow, skip_ws, starts_with, vtt_line_end};
use super::parser::{block_start, cue_header, extend, keyword_line, lemma_skip_ws, skip_boundary};
use super::timing::{spec_timing_line, vtt_timing_shape, vtt_ts_shape};
use super::scan::skip_space;
use super::ParseVttError;

verus! {

/// The text of block `b` is empty or a stretch of `s`.
pub open spec fn block_slice(s: Seq<char>, b: BlockV) -> bool {
    match b {
        BlockV::Cue(_, t) => is_slice(s, t),
        BlockV::Note(t) => is_slice(s, t),
        BlockV::Style(t) => is_slice(s, t),
        BlockV::Region(t) => is_slice(s, t),
    }
}

/// A `STYLE` or `REGION` block.
pub open spec fn is_head_block(b: BlockV) -> bool {
    b is Style || b is Region
}

/// No `STYLE` or `REGION` block comes after a cue in `bs`.
pub open spec fn head_blocks_first(bs: Seq<BlockV>) -> bool {
    forall|i: int, k: int| 0 <= i < k < bs.len() && (#[trigger] bs[i]) is Cue ==> !is_head_block(#[trigger] bs[k])
}

/// The error with which the signature line of `s` is refused, if it is: a missing first
/// line, or one that (past byte order marks) does not start with `WEBVTT`, is a missing
/// signature; `WEBVTT` followed by anything but a space or a tab is an invalid one.
pub open spec fn signature_error(s: Seq<char>) -> Option<ParseVttError> {
    match next_raw(s, 0) {
        None => Some(ParseVttError::MissingSignature),
        Some((lo, e, _)) => {
            let t = skip_bom(s, lo as int, e as int);
            if !starts_with(s, t, e as int, "WEBVTT"@) {
                Some(ParseVttError::MissingSignature)
            } else if t + 6 < e && s[t + 6] != ' ' && s[t + 6] != '\t' {
                Some(ParseVttError::InvalidSignature)
            } else {
                None
            }
        },
    }
}

/// `c` ends a line.
pub open spec fn is_term(c: char) -> bool {
    c == '\n' || c == '\r'
}

/// `t` is text whose lines, split at `\n`, `\r\n` or `\r`, are none of them empty.
pub open spec fn lines_clean(t: Seq<char>) -> bool {
    &&& t.len() > 0 ==> !is_term(t[0]) && !is_term(t[t.len() - 1])
    &&& forall|k: int|
        #![trigger t[k], t[k + 1]]
        0 <= k < t.len() - 1 && is_term(t[k]) && is_term(t[k + 1]) ==> t[k] == '\r' && t[k + 1] == '\n'
}

/// `t` holds no arrow `-->`, so that none of its lines does.
pub open spec fn arrow_free(t: Seq<char>) -> bool {
    forall|k: int| 0 <= k && k + 3 <= t.len() ==> !arrow_at(t, k)
}

/// The text of block `b` has no empty line, and a cue's none with the arrow.
pub open spec fn block_clean(b: BlockV) -> bool {
    match b {
        BlockV::Cue(_, t) => lines_clean(t) && arrow_free(t),
        BlockV::Note(t) => lines_clean(t),
        BlockV::Style(t) => lines_clean(t),
        BlockV::Region(t) => lines_clean(t),
    }
}

/// `s[a..b]` is empty, or starts and ends with no line break and holds no empty line.
pub open spec fn span_clean(s: Seq<char>, a: int, b: int) -> bool {
    a < b ==> {
        &&& !is_term(s[a])
        &&& !is_term(s[b - 1])
        &&& forall|k: int|
            #![trigger s[k], s[k + 1]]
            a <= k < b - 1 && is_term(s[k]) && is_term(s[k + 1]) ==> s[k] == '\r' && s[k + 1] == '\n'
    }
}

/// `s[a..b]` holds no arrow.
pub open spec fn span_arrow_free(s: Seq<char>, a: int, b: int) -> bool {
    forall|k: int| a <= k && k + 3 <= b ==> !arrow_at(s, k)
}

/// `pos` is where the line after the one ending at `b` starts: past one line ending, or at
/// the end of the text.
pub open spec fn after_line(s: Seq<char>, b: int, pos: int) -> bool {
    ||| pos == b && b == s.len()
    ||| b < s.len() && is_term(s[b]) && (pos == b + 1 || (pos == b + 2 && s[b] == '\r' && s[b + 1] == '\n'))
}

/// Text collected so far in `s[a..b]`, the reader standing at `pos`.
pub open spec fn span_ok(s: Seq<char>, a: int, b: int, pos: int) -> bool {
    a <= b && (a < b ==> span_clean(s, a, b) && after_line(s, b, pos))
}

/// The text a reader collects, and the line it keeps, agree with `s`: the kept line ends
/// where the reader stands; collected text has no empty line, and a cue's none with the
/// arrow.
pub open spec fn text_state_ok(s: Seq<char>, p: ParserV) -> bool {
    &&& !(p.state is BlockStart) ==> p.pending is None
    &&& (p.pending matches Some((lo, e)) ==> lo < s.len() && vtt_line_end(s, lo as int) == (e as int, p.pos as int))
    &&& match p.state {
        VttState::CueBody(_, a, b) => span_ok(s, a as int, b as int, p.pos as int) && span_arrow_free(
            s,
            a as int,
            b as int,
        ),
        VttState::NoteBody(a, b) => span_ok(s, a as int, b as int, p.pos as int),
        VttState::StyleBody(a, b) => span_ok(s, a as int, b as int, p.pos as int),
        VttState::RegionBody(a, b) => span_ok(s, a as int, b as int, p.pos as int),
        _ => true,
    }
}

/// The line of `s` starting at `lo`: no line break in it, a line break or the end after
/// it, and the next line after that line ending.
proof fn lemma_line_facts(s: Seq<char>, lo: int)
    requires
        0 <= lo < s.len(),
    ensures
        lo <= vtt_line_end(s, lo).0 <= vtt_line_end(s, lo).1 <= s.len(),
        forall|k: int| lo <= k < vtt_line_end(s, lo).0 ==> !is_term(#[trigger] s[k]),
        after_line(s, vtt_line_end(s, lo).0, vtt_line_end(s, lo).1),
{
    lemma_find_eol_props(s, lo);
}

/// A line without the arrow holds no arrow at any place.
proof fn lemma_no_arrow(s: Seq<char>, lo: int, e: int)
    requires
        !has_arrow(s, lo, e),
    ensures
        span_arrow_free(s, lo, e),
{
    assert forall|k: int| lo <= k && k + 3 <= e implies !arrow_at(s, k) by {
        if arrow_at(s, k) {
            lemma_arrow_found(s, lo, e, k);
        }
    }
}

/// A stretch of one line is clean.
proof fn lemma_in_line_clean(s: Seq<char>, a: int, e: int)
    requires
        forall|k: int| a <= k < e ==> !is_term(#[trigger] s[k]),
    ensures
        span_clean(s, a, e),
{
}

/// Adding the line `s[lo..e]`, not empty, to text `s[a..b]` read before it.
proof fn lemma_extend_span(s: Seq<char>, a: int, b: int, lo: int, e: int, nx: int, cue: bool)
    requires
        0 <= lo < s.len(),
        0 <= a,
        vtt_line_end(s, lo) == (e, nx),
        lo < e,
        span_ok(s, a, b, lo),
        cue ==> span_arrow_free(s, a, b) && !has_arrow(s, lo, e),
    ensures
        span_ok(s, extend(a as nat, b as nat, lo as nat, e as nat).0 as int, e, nx),
        cue ==> span_arrow_free(s, extend(a as nat, b as nat, lo as nat, e as nat).0 as int, e),
{
    lemma_line_facts(s, lo);
    if cue {
        lemma_no_arrow(s, lo, e);
    }
    if a == b {
        lemma_in_line_clean(s, lo, e);
    } else {
        assert(b < lo);
        assert(!is_term(s[a]));
        assert(!is_term(s[e - 1]));
        assert(extend(a as nat, b as nat, lo as nat, e as nat).0 == a);
        assert forall|k: int| #![trigger s[k], s[k + 1]] a <= k < e - 1 && is_term(s[k]) && is_term(s[k + 1]) implies s[k]
            == '\r' && s[k + 1] == '\n' by {
            if k >= lo {
                assert(!is_term(s[k]));
            } else if k == b - 1 {
                assert(!is_term(s[b - 1]));
            } else if k == b + 1 {
                assert(lo == b + 2);
                assert(!is_term(s[lo]));
            } else if k == b {
                if lo == b + 1 {
                    assert(!is_term(s[lo]));
                }
            }
        }
        if cue {
            assert forall|k: int| a <= k && k + 3 <= e implies !arrow_at(s, k) by {
                if k + 3 > b && k < lo {
                    if k <= b {
                        assert(is_term(s[b]));
                    } else {
                        assert(is_term(s[b + 1]));
                    }
                }
            }
        }
    }
}

/// The line kept by skipping to a block boundary ends where reading goes on.
proof fn lemma_skip_boundary_kept(s: Seq<char>, pos: nat)
    ensures
        skip_boundary(s, pos).1 matches Some((lo, e)) ==> lo < s.len() && vtt_line_end(s, lo as int) == (
            e as int,
            skip_boundary(s, pos).0 as int,
        ),
    decreases s.len() - pos,
{
    if pos < s.len() {
        let (e, nx) = vtt_line_end(s, pos as int);
        if nx > pos && e != pos && !has_arrow(s, pos as int, e) {
            lemma_skip_boundary_kept(s, nx as nat);
        }
    }
}

/// Clean text collected in `s[a..b]` is clean text once taken out.
proof fn lemma_span_text(s: Seq<char>, a: nat, b: nat, cue: bool)
    requires
        a <= s.len(),
        b <= s.len(),
        span_clean(s, a as int, b as int),
        cue ==> span_arrow_free(s, a as int, b as int),
    ensures
        lines_clean(crate::srt::body_text(s, a, b)),
        cue ==> arrow_free(crate::srt::body_text(s, a, b)),
{
    let t = crate::srt::body_text(s, a, b);
    if a < b {
        assert(t == s.subrange(a as int, b as int));
        assert forall|k: int| #![trigger t[k], t[k + 1]] 0 <= k < t.len() - 1 && is_term(t[k]) && is_term(t[k + 1]) implies t[k]
            == '\r' && t[k + 1] == '\n' by {
            assert(t[k] == s[a + k] && t[k + 1] == s[a + k + 1]);
        }
        if cue {
            assert forall|k: int| 0 <= k && k + 3 <= t.len() implies !arrow_at(t, k) by {
                assert(t[k] == s[a + k] && t[k + 1] == s[a + k + 1] && t[k + 2] == s[a + k + 2]);
                assert(!arrow_at(s, a + k));
            }
        }
    }
}

/// The state entered at the start of a block keeps the collected text and kept line in
/// agreement with `s`.
#[verifier::spinoff_prover]
#[verifier::rlimit(50)]
proof fn lemma_block_start_text(s: Seq<char>, q: ParserV, lo: nat, e: nat)
    requires
        q.state is BlockStart,
        q.pending is None,
        lo < s.len(),
        vtt_line_end(s, lo as int) == (e as int, q.pos as int),
    ensures
        match block_start(s, q, lo, e) {
            VttStep::Go(p2) => text_state_ok(s, p2),
            VttStep::Emit(p2, _) => text_state_ok(s, p2),
            VttStep::Quit(p2) => text_state_ok(s, p2),
        },
{
    lemma_line_facts(s, lo as int);
    let t = skip_bom(s, lo as int, e as int);
    crate::text::lemma_skip_bom(s, lo as int, e as int);
    if t < e && t + 5 <= e {
        lemma_skip_ws(s, t + 5, e as int);
        let a = skip_ws(s, t + 5, e as int);
        assert forall|k: int| a <= k < e implies !is_term(#[trigger] s[k]) by {}
        lemma_in_line_clean(s, a, e as int);
    }
    lemma_skip_boundary_kept(s, q.pos);
    if q.pos < s.len() {
        lemma_line_facts(s, q.pos as int);
        let (e2, nx2) = vtt_line_end(s, q.pos as int);
        lemma_skip_boundary_kept(s, nx2 as nat);
    }
}

/// One step keeps the collected text and kept line in agreement with `s`, and a block
/// handed out has text without empty lines, and a cue's without the arrow.
#[verifier::spinoff_prover]
#[verifier::rlimit(50)]
proof fn lemma_step_text(s: Seq<char>, p: ParserV)
    requires
        parser_wf(s.len(), p),
        !(p.state is Signature),
        text_state_ok(s, p),
    ensures
        match vtt_step(s, p) {
            VttStep::Go(p2) => text_state_ok(s, p2),
            VttStep::Emit(p2, r) => text_state_ok(s, p2) && (r is Ok ==> block_clean(r->Ok_0)),
            VttStep::Quit(p2) => text_state_ok(s, p2),
        },
{
    if p.pos < s.len() {
        lemma_line_facts(s, p.pos as int);
    }
    match p.state {
        VttState::BlockStart => {
            match p.pending {
                Some((lo, e)) => {
                    lemma_block_start_text(s, ParserV { pos: p.pos, pending: None, ..p }, lo, e);
                },
                None => {
                    if p.pos < s.len() {
                        let (e, nx) = vtt_line_end(s, p.pos as int);
                        lemma_block_start_text(s, ParserV { pos: nx as nat, pending: None, ..p }, p.pos, e as nat);
                    }
                },
            }
        },
        VttState::CueBody(h, a, b) => {
            lemma_span_text(s, a, b, true);
            if p.pos < s.len() {
                let (e, nx) = vtt_line_end(s, p.pos as int);
                if e != p.pos && !has_arrow(s, p.pos as int, e) {
                    lemma_extend_span(s, a as int, b as int, p.pos as int, e, nx, true);
                }
            }
        },
        VttState::NoteBody(a, b) => {
            lemma_span_text(s, a, b, false);
            if p.pos < s.len() {
                let (e, nx) = vtt_line_end(s, p.pos as int);
                if e != p.pos {
                    lemma_extend_span(s, a as int, b as int, p.pos as int, e, nx, false);
                }
            }
        },
        VttState::StyleBody(a, b) => {
            lemma_span_text(s, a, b, false);
            if p.pos < s.len() {
                let (e, nx) = vtt_line_end(s, p.pos as int);
                if e != p.pos {
                    lemma_extend_span(s, a as int, b as int, p.pos as int, e, nx, false);
                }
            }
        },
        VttState::RegionBody(a, b) => {
            lemma_span_text(s, a, b, false);
            if p.pos < s.len() {
                let (e, nx) = vtt_line_end(s, p.pos as int);
                if e != p.pos {
                    lemma_extend_span(s, a as int, b as int, p.pos as int, e, nx, false);
                }
            }
        },
        _ => {},
    }
}

/// A reader past the signature, whose state agrees with what it has read: a cue being
/// read has been seen, and once a cue has been seen no `STYLE` or `REGION` block is read.
pub open spec fn reading_ok(p: ParserV) -> bool {
    &&& !(p.state is Signature)
    &&& (p.state is CueBody ==> p.seen_cue)
    &&& (p.seen_cue ==> !(p.state is StyleBody) && !(p.state is RegionBody))
}

/// What a block handed out from `p` to `p2` is like: read without error, its text a
/// stretch of `s` without empty lines (and, in a cue, without the arrow), a cue marking the reader as having seen one, and no `STYLE` or `REGION`
/// block once a cue has been seen.
pub open spec fn emitted_ok(s: Seq<char>, p: ParserV, p2: ParserV, r: Result<BlockV, ParseVttError>) -> bool {
    &&& r is Ok
    &&& block_slice(s, r->Ok_0)
    &&& block_clean(r->Ok_0)
    &&& (r->Ok_0 is Cue ==> p2.seen_cue)
    &&& (p.seen_cue ==> !is_head_block(r->Ok_0))
}

/// One step of a reader past the signature keeps its state in agreement, never forgets
/// a cue, and hands out only blocks read without error, as `emitted_ok` says.
proof fn lemma_step_ok(s: Seq<char>, p: ParserV)
    requires
        parser_wf(s.len(), p),
        reading_ok(p),
        text_state_ok(s, p),
    ensures
        match vtt_step(s, p) {
            VttStep::Go(p2) => reading_ok(p2) && text_state_ok(s, p2) && (p.seen_cue ==> p2.seen_cue),
            VttStep::Emit(p2, r) => reading_ok(p2) && text_state_ok(s, p2) && (p.seen_cue ==> p2.seen_cue)
                && emitted_ok(s, p, p2, r),
            VttStep::Quit(p2) => reading_ok(p2) && text_state_ok(s, p2),
        },
{
    lemma_step_text(s, p);
    match p.state {
        VttState::CueBody(_, a, b) => {
            lemma_body_slice(s, a, b);
        },
        VttState::NoteBody(a, b) => {
            lemma_body_slice(s, a, b);
        },
        VttState::StyleBody(a, b) => {
            lemma_body_slice(s, a, b);
        },
        VttState::RegionBody(a, b) => {
            lemma_body_slice(s, a, b);
        },
        _ => {},
    }
}

/// One call of `Parser::next` from a reader past the signature keeps its state in
/// agreement, never forgets a cue, and hands out only blocks as `emitted_ok` says.
proof fn lemma_next_ok(s: Seq<char>, p: ParserV)
    requires
        parser_wf(s.len(), p),
        reading_ok(p),
        text_state_ok(s, p),
    ensures
        reading_ok(vtt_next(s, p).0),
        text_state_ok(s, vtt_next(s, p).0),
        p.seen_cue ==> vtt_next(s, p).0.seen_cue,
        vtt_next(s, p).1 matches Some(r) ==> emitted_ok(s, p, vtt_next(s, p).0, r),
    decreases vtt_measure(s, p),
{
    lemma_step(s, p);
    lemma_step_ok(s, p);
    lemma_next_unfold(s, p);
    if let VttStep::Go(p2) = vtt_step(s, p) {
        lemma_next_ok(s, p2);
    }
}

/// Reading on from a reader past the signature meets no error; the blocks read have
/// texts that are stretches of `s`, no `STYLE` or `REGION` block comes after a cue, and
/// none at all once a cue has been seen.
proof fn lemma_collect_ok(s: Seq<char>, p: ParserV)
    requires
        parser_wf(s.len(), p),
        reading_ok(p),
        text_state_ok(s, p),
    ensures
        vtt_collect(s, p) is Ok,
        forall|i: int| 0 <= i < vtt_collect(s, p)->Ok_0.len() ==> block_slice(s, #[trigger] vtt_collect(s, p)->Ok_0[i])
            && block_clean(vtt_collect(s, p)->Ok_0[i]),
        head_blocks_first(vtt_collect(s, p)->Ok_0),
        p.seen_cue ==> forall|i: int| 0 <= i < vtt_collect(s, p)->Ok_0.len() ==> !is_head_block(
            #[trigger] vtt_collect(s, p)->Ok_0[i],
        ),
    decreases (if p.state is Done { 0nat } else { vtt_measure(s, p) + 1 }),
{
    if !(p.state is Done) {
        let (p2, r) = vtt_next(s, p);
        lemma_next_ok(s, p);
        lemma_next_measure(s, p);
        lemma_next_wf(s, p);
        if let Some(Ok(b)) = r {
            lemma_collect_ok(s, p2);
            let rest = vtt_collect(s, p2)->Ok_0;
            let bs = seq![b].add(rest);
            assert(vtt_collect(s, p) == Ok::<Seq<BlockV>, ParseVttError>(bs));
            assert forall|i: int| 0 <= i < bs.len() implies block_slice(s, #[trigger] bs[i]) && block_clean(bs[i]) by {
                if i > 0 {
                    assert(bs[i] == rest[i - 1]);
                }
            }
            assert forall|i: int, k: int| 0 <= i < k < bs.len() && (#[trigger] bs[i]) is Cue implies !is_head_block(
                #[trigger] bs[k],
            ) by {
                assert(bs[k] == rest[k - 1]);
                if i > 0 {
                    assert(bs[i] == rest[i - 1]);
                }
            }
            if p.seen_cue {
                assert forall|i: int| 0 <= i < bs.len() implies !is_head_block(#[trigger] bs[i]) by {
                    if i > 0 {
                        assert(bs[i] == rest[i - 1]);
                    }
                }
            }
        }
    }
}

/// Reading a WebVTT text with `Parser::next` fails exactly when its signature line is
/// refused: the first call then hands out that error and the reader is done. Otherwise
/// every block handed out, up to the end, is read without error.
pub proof fn law_signature(s: Seq<char>)
    ensures
        signature_error(s) matches Some(e) ==> vtt_next(s, vtt_start()).1 == Some(Err::<BlockV, ParseVttError>(e))
            && vtt_next(s, vtt_start()).0.state is Done && spec_parse_vtt(s) == Err::<Seq<BlockV>, ParseVttError>(
            e,
        ),
        signature_error(s) is None ==> spec_parse_vtt(s) is Ok,
{
    let p0 = vtt_start();
    lemma_step(s, p0);
    lemma_next_unfold(s, p0);
    lemma_next_measure(s, p0);
    if signature_error(s) is None {
        if let VttStep::Go(p1) = vtt_step(s, p0) {
            lemma_collect_ok(s, p1);
            lemma_next_wf(s, p1);
            lemma_next_measure(s, p1);
        }
    }
}

/// What `parse` reads has every block's text a stretch of the input with no empty line
/// (lines split at `\n`, `\r\n` or `\r`), no cue text holding the arrow, and no `STYLE`
/// or `REGION` block after a cue.
pub proof fn law_block_order(s: Seq<char>)
    ensures
        spec_parse_vtt(s) matches Ok(bs) ==> head_blocks_first(bs) && forall|i: int|
            0 <= i < bs.len() ==> block_slice(s, #[trigger] bs[i]) && block_clean(bs[i]),
{
    let p0 = vtt_start();
    lemma_step(s, p0);
    lemma_next_unfold(s, p0);
    lemma_next_measure(s, p0);
    if let VttStep::Go(p1) = vtt_step(s, p0) {
        lemma_collect_ok(s, p1);
        lemma_next_wf(s, p1);
        lemma_next_measure(s, p1);
        assert(vtt_collect(s, p0) == vtt_collect(s, p1));
    }
}

/// Skipping spaces never goes back.
proof fn lemma_skip_space_bounds(s: Seq<char>, i: int, hi: int)
    requires
        i <= hi,
    ensures
        i <= skip_space(s, i, hi) <= hi,
        forall|k: int| i <= k < skip_space(s, i, hi) ==> #[trigger] s[k] == ' ' || s[k] == '\t' || s[k] == '\u{c}',
    decreases hi - i,
{
    if i < hi && super::scan::is_vtt_space(s[i]) {
        lemma_skip_space_bounds(s, i + 1, hi);
    }
}

/// A line that reads as a timing line holds the arrow, and its first character past byte
/// order marks is a digit, a space, a tab or a form feed.
proof fn lemma_timing_line_start(s: Seq<char>, lo: int, e: int)
    requires
        0 <= lo <= e <= s.len(),
        spec_timing_line(s, lo, e) is Some,
    ensures
        skip_bom(s, lo, e) < e,
        has_arrow(s, skip_bom(s, lo, e), e),
        is_digit(s[skip_bom(s, lo, e)]) || s[skip_bom(s, lo, e)] == ' ' || s[skip_bom(s, lo, e)] == '\t'
            || s[skip_bom(s, lo, e)] == '\u{c}',
{
    let t = skip_bom(s, lo, e);
    crate::text::lemma_skip_bom(s, lo, e);
    lemma_skip_space_bounds(s, t, e);
    let t2 = skip_space(s, t, e);
    crate::text::lemma_digit_run_end(s, t2, e);
    assert(vtt_timing_shape(s, t2, e) is Some);
    assert(vtt_ts_shape(s, t2, e) is Some);
    assert(t2 < e);
    assert(is_digit(s[t2]));
    lemma_arrow_within(s, t, e, t2, e);
    if t2 > t {
        assert(s[t] == ' ' || s[t] == '\t' || s[t] == '\u{c}');
    }
}

/// A reader collecting a cue hands out that cue on the next call of `Parser::next`.
proof fn lemma_cue_emitted(s: Seq<char>, p: ParserV)
    requires
        parser_wf(s.len(), p),
        p.state is CueBody,
    ensures
        vtt_next(s, p).1 matches Some(Ok(BlockV::Cue(h, _))) && h == p.state->CueBody_0,
    decreases vtt_measure(s, p),
{
    lemma_step(s, p);
    lemma_next_unfold(s, p);
    if let VttStep::Go(p2) = vtt_step(s, p) {
        lemma_cue_emitted(s, p2);
    }
}

/// Where the first header line reads as a timing line, the reader goes from the start
/// straight to collecting a cue with that timing.
#[verifier::spinoff_prover]
#[verifier::rlimit(50)]
proof fn lemma_header_timing(s: Seq<char>, nx0: nat, lo: nat, e: nat, nx: nat)
    requires
        signature_error(s) is None,
        next_raw(s, 0) matches Some(r) && r.2 == nx0,
        next_raw(s, nx0) == Some((lo, e, nx)),
        spec_timing_line(s, lo as int, e as int) is Some,
    ensures
        vtt_next(s, vtt_start()) == vtt_next(
            s,
            ParserV {
                pos: nx,
                state: VttState::CueBody(cue_header(None, spec_timing_line(s, lo as int, e as int)->Some_0), e, e),
                seen_cue: true,
                pending: None,
            },
        ),
        parser_wf(
            s.len(),
            ParserV {
                pos: nx,
                state: VttState::CueBody(cue_header(None, spec_timing_line(s, lo as int, e as int)->Some_0), e, e),
                seen_cue: true,
                pending: None,
            },
        ),
{
    let p0 = vtt_start();
    let tm = spec_timing_line(s, lo as int, e as int)->Some_0;
    lemma_step(s, p0);
    lemma_next_unfold(s, p0);
    super::parser::lemma_line_end(s, 0);
    super::parser::lemma_line_end(s, nx0 as int);
    lemma_timing_line_start(s, lo as int, e as int);
    let t = skip_bom(s, lo as int, e as int);
    crate::text::lemma_skip_bom(s, lo as int, e as int);
    lemma_arrow_within(s, lo as int, e as int, t, e as int);
    assert(!keyword_line(s, t, e as int, "NOTE"@) && !keyword_line(s, t, e as int, "STYLE"@) && !keyword_line(
        s,
        t,
        e as int,
        "REGION"@,
    )) by {
        reveal_strlit("NOTE");
        reveal_strlit("STYLE");
        reveal_strlit("REGION");
        if starts_with(s, t, e as int, "NOTE"@) {
            assert(s.subrange(t, t + 4)[0] == s[t]);
        }
        if starts_with(s, t, e as int, "STYLE"@) {
            assert(s.subrange(t, t + 5)[0] == s[t]);
        }
        if starts_with(s, t, e as int, "REGION"@) {
            assert(s.subrange(t, t + 6)[0] == s[t]);
        }
    }
    let p1 = ParserV { pos: nx0, state: VttState::Header, seen_cue: false, pending: None };
    assert(vtt_step(s, p0) == VttStep::Go(p1));
    let p2 = ParserV { pos: nx, state: VttState::BlockStart, seen_cue: false, pending: Some((lo, e)) };
    assert(vtt_step(s, p1) == VttStep::Go(p2));
    lemma_step(s, p1);
    lemma_next_unfold(s, p1);
    let p3 = ParserV { pos: nx, state: VttState::CueBody(cue_header(None, tm), e, e), seen_cue: true, pending: None };
    assert(block_start(s, ParserV { pos: nx, pending: None, ..p2 }, lo, e) == VttStep::Go(p3));
    assert(vtt_step(s, p2) == VttStep::Go(p3));
    lemma_step(s, p2);
    lemma_next_unfold(s, p2);
}

/// A timing line right after the signature line ends the header and starts the first
/// block, a cue without identifier with that timing and those settings: whatever the
/// text holds otherwise, the first block `parse` reads is that cue.
#[verifier::spinoff_prover]
pub proof fn law_timing_after_signature(s: Seq<char>)
    requires
        signature_error(s) is None,
    ensures
        ({
            let nx0 = next_raw(s, 0)->Some_0.2;
            let line = next_raw(s, nx0);
            (line is Some && spec_timing_line(s, line->Some_0.0 as int, line->Some_0.1 as int) is Some) ==> {
                let tm = spec_timing_line(s, line->Some_0.0 as int, line->Some_0.1 as int)->Some_0;
                &&& spec_parse_vtt(s) is Ok
                &&& spec_parse_vtt(s)->Ok_0.len() > 0
                &&& spec_parse_vtt(s)->Ok_0[0] matches BlockV::Cue(h, _)
                &&& h == cue_header(None, tm)
            }
        }),
{
    let p0 = vtt_start();
    law_signature(s);
    let nx0 = next_raw(s, 0)->Some_0.2;
    let line = next_raw(s, nx0);
    if line is Some && spec_timing_line(s, line->Some_0.0 as int, line->Some_0.1 as int) is Some {
        let (lo, e, nx) = line->Some_0;
        let tm = spec_timing_line(s, lo as int, e as int)->Some_0;
        lemma_header_timing(s, nx0, lo, e, nx);
        let p3 = ParserV { pos: nx, state: VttState::CueBody(cue_header(None, tm), e, e), seen_cue: true, pending: None };
        lemma_cue_emitted(s, p3);
        lemma_step(s, p0);
        lemma_next_measure(s, p0);
        lemma_next_wf(s, p0);
        let p4 = vtt_next(s, p0).0;
        if !(p4.state is Done) {
            lemma_next_measure(s, p4);
        }
    }
}

} // verus!
