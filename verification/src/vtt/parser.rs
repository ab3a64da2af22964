use vstd::prelude::*;

use crate::srt::{body_slice, body_text};
use crate::text::{chars_of, skip_bom, skip_boms};

use super::scan::{
    find_eol, has_arrow, has_arrow_at, line_end_at, skip_ws, skip_ws_at, starts_with, starts_with_at,
    vtt_line_end,
};
use super::timing::{spec_timing_line, timing_line_at};
use super::types::{Block, Cue, CueHeader, CueHeaderV, CueId};
use super::ParseVttError;

verus! {

broadcast use vstd::string::group_string_axioms;

/// Where the WebVTT reader stands between two lines.
pub enum VttState {
    /// Expecting the `WEBVTT` signature line.
    Signature,
    /// After the signature, skipping header text up to the first blank line.
    Header,
    /// Expecting the start of a block (cue, `NOTE`, `STYLE`, `REGION`) or blank lines.
    BlockStart,
    /// Collecting the text of a cue, which so far spans `s[start..end]`.
    CueBody(CueHeaderV, nat, nat),
    /// Collecting the text of a `NOTE` block.
    NoteBody(nat, nat),
    /// Collecting the text of a `STYLE` block.
    StyleBody(nat, nat),
    /// Collecting the text of a `REGION` block.
    RegionBody(nat, nat),
    /// The reader is exhausted or has met an error.
    Done,
}

/// The state of the WebVTT reader as plain values.
pub struct ParserV {
    /// Where the next line starts.
    pub pos: nat,
    /// Where the reader stands.
    pub state: VttState,
    /// Whether a cue has been read (`STYLE` and `REGION` blocks come only before the first).
    pub seen_cue: bool,
    /// A line to be read again before the next one, as its bounds.
    pub pending: Option<(nat, nat)>,
}

/// A WebVTT block as plain values.
pub enum BlockV {
    /// A cue: its header and its text.
    Cue(CueHeaderV, Seq<char>),
    /// A `NOTE` block.
    Note(Seq<char>),
    /// A `STYLE` block.
    Style(Seq<char>),
    /// A `REGION` block.
    Region(Seq<char>),
}

/// What the reader does with one line.
pub enum VttStep {
    /// It goes on reading.
    Go(ParserV),
    /// It hands out a block or an error.
    Emit(ParserV, Result<BlockV, ParseVttError>),
    /// It has nothing more to hand out.
    Quit(ParserV),
}

/// The bounds of the line starting at `pos` and where the next line starts, if any
/// text is left.
pub open spec fn next_raw(s: Seq<char>, pos: nat) -> Option<(nat, nat, nat)> {
    if pos >= s.len() {
        None
    } else {
        let (e, nx) = vtt_line_end(s, pos as int);
        Some((pos, e as nat, nx as nat))
    }
}

/// Skipping lines from `pos` on up to a blank line, or up to a line holding `-->`, which
/// is kept to be read again: where reading goes on, and the kept line.
pub open spec fn skip_boundary(s: Seq<char>, pos: nat) -> (nat, Option<(nat, nat)>)
    decreases s.len() - pos,
{
    if pos >= s.len() {
        (pos, None)
    } else {
        let (e, nx) = vtt_line_end(s, pos as int);
        if nx <= pos {
            (pos, None)
        } else if e == pos {
            (nx as nat, None)
        } else if has_arrow(s, pos as int, e) {
            (nx as nat, Some((pos, e as nat)))
        } else {
            skip_boundary(s, nx as nat)
        }
    }
}

/// `s[t..e]` is the keyword `kw` alone, or followed by a space or a tab.
pub open spec fn keyword_line(s: Seq<char>, t: int, e: int, kw: Seq<char>) -> bool {
    starts_with(s, t, e, kw) && (e == t + kw.len() || s[t + kw.len()] == ' ' || s[t + kw.len()] == '\t')
}

/// The header of a cue read from a timing line, with the given identifier.
pub open spec fn cue_header(
    id: Option<Seq<char>>,
    timing: (super::types::TimestampV, super::types::TimestampV, Option<super::types::CueSettingsV>),
) -> CueHeaderV {
    CueHeaderV { identifier: id, start: timing.0, end: timing.1, settings: timing.2 }
}

/// Reading the line `s[lo..e]` at the start of a block, the reader being in `q` (past
/// the line, with no line kept).
pub open spec fn block_start(s: Seq<char>, q: ParserV, lo: nat, e: nat) -> VttStep {
    let t = skip_bom(s, lo as int, e as int);
    if t >= e {
        VttStep::Go(q)
    } else if keyword_line(s, t, e as int, "NOTE"@) {
        let a = skip_ws(s, t + 5, e as int);
        if e == t + 4 || a >= e {
            VttStep::Go(ParserV { state: VttState::NoteBody(e, e), ..q })
        } else {
            VttStep::Go(ParserV { state: VttState::NoteBody(a as nat, e), ..q })
        }
    } else if keyword_line(s, t, e as int, "STYLE"@) && !q.seen_cue {
        VttStep::Go(ParserV { state: VttState::StyleBody(e, e), ..q })
    } else if keyword_line(s, t, e as int, "REGION"@) && !q.seen_cue {
        VttStep::Go(ParserV { state: VttState::RegionBody(e, e), ..q })
    } else if has_arrow(s, t, e as int) {
        match spec_timing_line(s, lo as int, e as int) {
            Some(tm) => VttStep::Go(
                ParserV { state: VttState::CueBody(cue_header(None, tm), e, e), seen_cue: true, ..q },
            ),
            None => {
                let (p2, kept) = skip_boundary(s, q.pos);
                VttStep::Go(ParserV { pos: p2, pending: kept, ..q })
            },
        }
    } else {
        match next_raw(s, q.pos) {
            None => VttStep::Quit(ParserV { state: VttState::Done, ..q }),
            Some((lo2, e2, nx2)) => {
                let q2 = ParserV { pos: nx2, ..q };
                if has_arrow(s, lo2 as int, e2 as int) {
                    match spec_timing_line(s, lo2 as int, e2 as int) {
                        Some(tm) => VttStep::Go(
                            ParserV {
                                state: VttState::CueBody(cue_header(Some(s.subrange(t, e as int)), tm), e2, e2),
                                seen_cue: true,
                                ..q2
                            },
                        ),
                        None => {
                            let (p3, kept) = skip_boundary(s, nx2);
                            VttStep::Go(ParserV { pos: p3, pending: kept, ..q2 })
                        },
                    }
                } else if e2 == lo2 {
                    VttStep::Go(q2)
                } else {
                    VttStep::Go(ParserV { pending: Some((lo2, e2)), ..q2 })
                }
            },
        }
    }
}

/// The text of a block that spans `s[start..end]`, extended by the line `s[lo..e]`.
pub open spec fn extend(start: nat, end: nat, lo: nat, e: nat) -> (nat, nat) {
    (if start == end { lo } else { start }, e)
}

/// What the reader does with the next line, in state `p`.
pub open spec fn vtt_step(s: Seq<char>, p: ParserV) -> VttStep {
    match p.state {
        VttState::Done => VttStep::Quit(p),
        VttState::Signature => match next_raw(s, p.pos) {
            None => VttStep::Emit(ParserV { state: VttState::Done, ..p }, Err(ParseVttError::MissingSignature)),
            Some((lo, e, nx)) => {
                let t = skip_bom(s, lo as int, e as int);
                let q = ParserV { pos: nx, ..p };
                if !starts_with(s, t, e as int, "WEBVTT"@) {
                    VttStep::Emit(ParserV { state: VttState::Done, ..q }, Err(ParseVttError::MissingSignature))
                } else if t + 6 < e && s[t + 6] != ' ' && s[t + 6] != '\t' {
                    VttStep::Emit(ParserV { state: VttState::Done, ..q }, Err(ParseVttError::InvalidSignature))
                } else {
                    VttStep::Go(ParserV { state: VttState::Header, ..q })
                }
            },
        },
        VttState::Header => match next_raw(s, p.pos) {
            None => VttStep::Quit(ParserV { state: VttState::Done, ..p }),
            Some((lo, e, nx)) => if e == lo {
                VttStep::Go(ParserV { pos: nx, state: VttState::BlockStart, ..p })
            } else if has_arrow(s, lo as int, e as int) {
                VttStep::Go(ParserV { pos: nx, state: VttState::BlockStart, pending: Some((lo, e)), ..p })
            } else {
                VttStep::Go(ParserV { pos: nx, ..p })
            },
        },
        VttState::BlockStart => {
            let taken = match p.pending {
                Some((lo, e)) => Some((lo, e, p.pos)),
                None => next_raw(s, p.pos),
            };
            match taken {
                None => VttStep::Quit(ParserV { state: VttState::Done, pending: None, ..p }),
                Some((lo, e, nx)) => block_start(s, ParserV { pos: nx, pending: None, ..p }, lo, e),
            }
        },
        VttState::CueBody(h, start, end) => match next_raw(s, p.pos) {
            None => VttStep::Emit(
                ParserV { state: VttState::Done, ..p },
                Ok(BlockV::Cue(h, body_text(s, start, end))),
            ),
            Some((lo, e, nx)) => if e == lo {
                VttStep::Emit(
                    ParserV { pos: nx, state: VttState::BlockStart, ..p },
                    Ok(BlockV::Cue(h, body_text(s, start, end))),
                )
            } else if has_arrow(s, lo as int, e as int) {
                VttStep::Emit(
                    ParserV { pos: nx, state: VttState::BlockStart, pending: Some((lo, e)), ..p },
                    Ok(BlockV::Cue(h, body_text(s, start, end))),
                )
            } else {
                let (a, b) = extend(start, end, lo, e);
                VttStep::Go(ParserV { pos: nx, state: VttState::CueBody(h, a, b), ..p })
            },
        },
        VttState::NoteBody(start, end) => match next_raw(s, p.pos) {
            None => VttStep::Emit(ParserV { state: VttState::Done, ..p }, Ok(BlockV::Note(body_text(s, start, end)))),
            Some((lo, e, nx)) => if e == lo {
                VttStep::Emit(
                    ParserV { pos: nx, state: VttState::BlockStart, ..p },
                    Ok(BlockV::Note(body_text(s, start, end))),
                )
            } else {
                let (a, b) = extend(start, end, lo, e);
                VttStep::Go(ParserV { pos: nx, state: VttState::NoteBody(a, b), ..p })
            },
        },
        VttState::StyleBody(start, end) => match next_raw(s, p.pos) {
            None => VttStep::Emit(ParserV { state: VttState::Done, ..p }, Ok(BlockV::Style(body_text(s, start, end)))),
            Some((lo, e, nx)) => if e == lo {
                VttStep::Emit(
                    ParserV { pos: nx, state: VttState::BlockStart, ..p },
                    Ok(BlockV::Style(body_text(s, start, end))),
                )
            } else {
                let (a, b) = extend(start, end, lo, e);
                VttStep::Go(ParserV { pos: nx, state: VttState::StyleBody(a, b), ..p })
            },
        },
        VttState::RegionBody(start, end) => match next_raw(s, p.pos) {
            None => VttStep::Emit(
                ParserV { state: VttState::Done, ..p },
                Ok(BlockV::Region(body_text(s, start, end))),
            ),
            Some((lo, e, nx)) => if e == lo {
                VttStep::Emit(
                    ParserV { pos: nx, state: VttState::BlockStart, ..p },
                    Ok(BlockV::Region(body_text(s, start, end))),
                )
            } else {
                let (a, b) = extend(start, end, lo, e);
                VttStep::Go(ParserV { pos: nx, state: VttState::RegionBody(a, b), ..p })
            },
        },
    }
}

/// A measure of how much is left to read: each step that goes on lowers it.
pub open spec fn vtt_measure(s: Seq<char>, p: ParserV) -> nat {
    (if p.pos < s.len() { (s.len() - p.pos) as nat } else { 0 }) * 2 + if p.pending is Some { 1nat } else { 0nat }
}

/// What one call of `Parser::next` does in state `p`: the state after it and what it
/// hands out, if anything.
pub open spec fn vtt_next(s: Seq<char>, p: ParserV) -> (ParserV, Option<Result<BlockV, ParseVttError>>)
    decreases vtt_measure(s, p),
{
    match vtt_step(s, p) {
        VttStep::Quit(p2) => (p2, None),
        VttStep::Emit(p2, r) => (p2, Some(r)),
        VttStep::Go(p2) => if vtt_measure(s, p2) < vtt_measure(s, p) {
            vtt_next(s, p2)
        } else {
            (p2, None)
        },
    }
}

/// The state of a reader that has not read anything.
pub open spec fn vtt_start() -> ParserV {
    ParserV { pos: 0, state: VttState::Signature, seen_cue: false, pending: None }
}

/// The reader's positions lie within a text of length `n`.
pub open spec fn parser_wf(n: nat, p: ParserV) -> bool {
    &&& p.pos <= n
    &&& p.pending matches Some((a, b)) ==> a <= b <= n
    &&& match p.state {
        VttState::CueBody(_, a, b) => a <= n && b <= n,
        VttState::NoteBody(a, b) => a <= n && b <= n,
        VttState::StyleBody(a, b) => a <= n && b <= n,
        VttState::RegionBody(a, b) => a <= n && b <= n,
        _ => true,
    }
}

/// The plain values of a parsed block.
pub open spec fn block_view<'a>(b: Block<&'a str>) -> BlockV {
    match b {
        Block::Cue(c) => BlockV::Cue(c.header_spec()@, c.body_spec()@),
        Block::Note(t) => BlockV::Note(t@),
        Block::Style(t) => BlockV::Style(t@),
        Block::Region(t) => BlockV::Region(t@),
    }
}

/// The plain values of what one call of `Parser::next` hands out.
pub open spec fn item_view<'a>(r: Option<Result<Block<&'a str>, ParseVttError>>) -> Option<Result<BlockV, ParseVttError>> {
    match r {
        None => None,
        Some(Ok(b)) => Some(Ok(block_view(b))),
        Some(Err(e)) => Some(Err(e)),
    }
}

/// Where `vtt_line_end` puts the end of a line and the start of the next.
pub proof fn lemma_line_end(s: Seq<char>, pos: int)
    requires
        0 <= pos < s.len(),
    ensures
        pos <= vtt_line_end(s, pos).0 <= vtt_line_end(s, pos).1 <= s.len(),
        vtt_line_end(s, pos).1 > pos,
{
    lemma_find_eol(s, pos);
}

/// Bounds of `find_eol`.
proof fn lemma_find_eol(s: Seq<char>, i: int)
    requires
        0 <= i <= s.len(),
    ensures
        i <= find_eol(s, i) <= s.len(),
    decreases s.len() - i,
{
    if i < s.len() && s[i] != '\n' && s[i] != '\r' {
        lemma_find_eol(s, i + 1);
    }
}

/// Skipping to a block boundary moves forward, stays in the text, and keeps a line only
/// after moving past it.
pub proof fn lemma_skip_boundary(s: Seq<char>, pos: nat)
    requires
        pos <= s.len(),
    ensures
        pos <= skip_boundary(s, pos).0 <= s.len(),
        skip_boundary(s, pos).1 matches Some((a, b)) ==> pos <= a <= b <= s.len() && skip_boundary(s, pos).0 > pos,
    decreases s.len() - pos,
{
    if pos < s.len() {
        lemma_line_end(s, pos as int);
        let (e, nx) = vtt_line_end(s, pos as int);
        if e != pos && !has_arrow(s, pos as int, e) {
            lemma_skip_boundary(s, nx as nat);
        }
    }
}

/// Bounds of `skip_ws`.
pub proof fn lemma_skip_ws(s: Seq<char>, i: int, hi: int)
    requires
        i <= hi,
    ensures
        i <= skip_ws(s, i, hi) <= hi,
    decreases hi - i,
{
    if i < hi && super::scan::is_ws(s[i]) {
        lemma_skip_ws(s, i + 1, hi);
    }
}

/// Reading a line at the start of a block keeps the reader's positions within the text
/// and does not raise the measure.
proof fn lemma_block_start(s: Seq<char>, q: ParserV, lo: nat, e: nat)
    requires
        parser_wf(s.len(), q),
        q.pending is None,
        lo <= e <= s.len(),
    ensures
        match block_start(s, q, lo, e) {
            VttStep::Go(p2) => parser_wf(s.len(), p2) && vtt_measure(s, p2) <= vtt_measure(s, q),
            VttStep::Emit(p2, _) => parser_wf(s.len(), p2),
            VttStep::Quit(p2) => parser_wf(s.len(), p2) && p2.state is Done,
        },
{
    crate::text::lemma_skip_bom(s, lo as int, e as int);
    let t = skip_bom(s, lo as int, e as int);
    if t + 5 <= e {
        lemma_skip_ws(s, t + 5, e as int);
    }
    lemma_skip_boundary(s, q.pos);
    if q.pos < s.len() {
        lemma_line_end(s, q.pos as int);
        let (e2, nx2) = vtt_line_end(s, q.pos as int);
        lemma_skip_boundary(s, nx2 as nat);
    }
}

/// One step of the reader keeps its positions within the text, and a step that goes on
/// lowers the measure.
pub proof fn lemma_step(s: Seq<char>, p: ParserV)
    requires
        parser_wf(s.len(), p),
    ensures
        match vtt_step(s, p) {
            VttStep::Go(p2) => parser_wf(s.len(), p2) && vtt_measure(s, p2) < vtt_measure(s, p),
            VttStep::Emit(p2, _) => parser_wf(s.len(), p2) && (p2.state is Done || vtt_measure(s, p2) < vtt_measure(
                s,
                p,
            )),
            VttStep::Quit(p2) => parser_wf(s.len(), p2) && p2.state is Done,
        },
{
    if p.pos < s.len() {
        lemma_line_end(s, p.pos as int);
    }
    if let VttState::BlockStart = p.state {
        let taken = match p.pending {
            Some((lo, e)) => Some((lo, e, p.pos)),
            None => next_raw(s, p.pos),
        };
        if let Some((lo, e, nx)) = taken {
            lemma_block_start(s, ParserV { pos: nx, pending: None, ..p }, lo, e);
        }
    }
}

/// A call of `Parser::next` keeps the reader's positions within the text.
pub proof fn lemma_next_wf(s: Seq<char>, p: ParserV)
    requires
        parser_wf(s.len(), p),
    ensures
        parser_wf(s.len(), vtt_next(s, p).0),
    decreases vtt_measure(s, p),
{
    lemma_step(s, p);
    if let VttStep::Go(p2) = vtt_step(s, p) {
        lemma_next_wf(s, p2);
    }
}

} // verus!

verus! {

/// Where the WebVTT reader stands between two lines.
enum State {
    Signature,
    Header,
    BlockStart,
    CueBody(CueHeader, usize, usize),
    NoteBody(usize, usize),
    StyleBody(usize, usize),
    RegionBody(usize, usize),
    Done,
}

/// The reader's position, state, whether it has seen a cue, and a line kept to be read
/// again.
struct Cursor {
    pos: usize,
    state: State,
    seen_cue: bool,
    pending: Option<(usize, usize)>,
}

/// What the reader does with one line.
enum Step<'a> {
    Go(Cursor),
    Emit(Cursor, Result<Block<&'a str>, ParseVttError>),
    Quit(Cursor),
}

/// The plain values of a reader state.
spec fn state_view(st: State) -> VttState {
    match st {
        State::Signature => VttState::Signature,
        State::Header => VttState::Header,
        State::BlockStart => VttState::BlockStart,
        State::CueBody(h, a, b) => VttState::CueBody(h@, a as nat, b as nat),
        State::NoteBody(a, b) => VttState::NoteBody(a as nat, b as nat),
        State::StyleBody(a, b) => VttState::StyleBody(a as nat, b as nat),
        State::RegionBody(a, b) => VttState::RegionBody(a as nat, b as nat),
        State::Done => VttState::Done,
    }
}

/// The plain values of a kept line.
spec fn pending_view(p: Option<(usize, usize)>) -> Option<(nat, nat)> {
    match p {
        Some((a, b)) => Some((a as nat, b as nat)),
        None => None,
    }
}

/// The plain values of a cursor.
spec fn cursor_view(c: Cursor) -> ParserV {
    ParserV { pos: c.pos as nat, state: state_view(c.state), seen_cue: c.seen_cue, pending: pending_view(c.pending) }
}

/// The plain values of a step.
spec fn step_view<'a>(r: Step<'a>) -> VttStep {
    match r {
        Step::Go(c) => VttStep::Go(cursor_view(c)),
        Step::Emit(c, Ok(b)) => VttStep::Emit(cursor_view(c), Ok(block_view(b))),
        Step::Emit(c, Err(e)) => VttStep::Emit(cursor_view(c), Err(e)),
        Step::Quit(c) => VttStep::Quit(cursor_view(c)),
    }
}

/// Returns the bounds of the line starting at `pos` and where the next line starts.
fn next_raw_at(v: &Vec<char>, pos: usize) -> (r: Option<(usize, usize, usize)>)
    requires
        pos <= v.len(),
    ensures
        match r {
            Some((lo, e, nx)) => next_raw(v@, pos as nat) == Some((lo as nat, e as nat, nx as nat)) && lo <= e
                <= nx <= v.len(),
            None => next_raw(v@, pos as nat) is None,
        },
{
    if pos >= v.len() {
        None
    } else {
        let (e, nx) = line_end_at(v, pos);
        Some((pos, e, nx))
    }
}

/// Skips lines from `pos` on up to a block boundary, as `skip_boundary` says.
fn skip_boundary_at(v: &Vec<char>, pos: usize) -> (r: (usize, Option<(usize, usize)>))
    requires
        pos <= v.len(),
    ensures
        (r.0 as nat, pending_view(r.1)) == skip_boundary(v@, pos as nat),
{
    let mut p = pos;
    while p < v.len()
        invariant
            pos <= p <= v.len(),
            skip_boundary(v@, pos as nat) == skip_boundary(v@, p as nat),
        decreases v.len() - p,
    {
        let (e, nx) = line_end_at(v, p);
        if e == p {
            return (nx, None);
        }
        if has_arrow_at(v, p, e) {
            return (nx, Some((p, e)));
        }
        p = nx;
    }
    (p, None)
}

/// Whether `v[t..e]` is the keyword `kw` alone, or followed by a space or a tab.
fn keyword_line_at(v: &Vec<char>, t: usize, e: usize, kw: &str) -> (b: bool)
    requires
        t <= e <= v.len(),
    ensures
        b == keyword_line(v@, t as int, e as int, kw@),
{
    if !starts_with_at(v, t, e, kw) {
        return false;
    }
    let n = kw.unicode_len();
    e == t + n || v[t + n] == ' ' || v[t + n] == '\t'
}

/// Reads the line `v[lo..e]` at the start of a block, as `block_start` says.
fn block_start_at<'a>(input: &'a str, v: &Vec<char>, q: Cursor, lo: usize, e: usize) -> (r: Step<'a>)
    requires
        v@ == input@,
        parser_wf(v.len() as nat, cursor_view(q)),
        q.pending is None,
        lo <= e <= v.len(),
    ensures
        step_view(r) == block_start(v@, cursor_view(q), lo as nat, e as nat),
{
    let ghost s = v@;
    proof {
        reveal_strlit("NOTE");
        reveal_strlit("STYLE");
        reveal_strlit("REGION");
    }
    let t = skip_boms(v, lo, e);
    if t >= e {
        return Step::Go(q);
    }
    if keyword_line_at(v, t, e, "NOTE") {
        let a = if e - t >= 5 { skip_ws_at(v, t + 5, e) } else { e };
        proof {
            if t + 5 > e {
                assert(skip_ws(s, t + 5, e as int) == t + 5);
            }
        }
        let st = if e - t == 4 || a >= e { State::NoteBody(e, e) } else { State::NoteBody(a, e) };
        return Step::Go(Cursor { state: st, ..q });
    }
    if keyword_line_at(v, t, e, "STYLE") && !q.seen_cue {
        return Step::Go(Cursor { state: State::StyleBody(e, e), ..q });
    }
    if keyword_line_at(v, t, e, "REGION") && !q.seen_cue {
        return Step::Go(Cursor { state: State::RegionBody(e, e), ..q });
    }
    if has_arrow_at(v, t, e) {
        match timing_line_at(input, v, lo, e) {
            Some(h) => {
                return Step::Go(Cursor { state: State::CueBody(h, e, e), seen_cue: true, ..q });
            },
            None => {
                let (p2, kept) = skip_boundary_at(v, q.pos);
                return Step::Go(Cursor { pos: p2, pending: kept, ..q });
            },
        }
    }
    match next_raw_at(v, q.pos) {
        None => Step::Quit(Cursor { state: State::Done, ..q }),
        Some((lo2, e2, nx2)) => {
            if has_arrow_at(v, lo2, e2) {
                match timing_line_at(input, v, lo2, e2) {
                    Some(h) => {
                        let id = CueId::from_string(input.substring_char(t, e).to_owned());
                        let mut h = h;
                        h.set_identifier(id);
                        Step::Go(Cursor { pos: nx2, state: State::CueBody(h, e2, e2), seen_cue: true, ..q })
                    },
                    None => {
                        let (p3, kept) = skip_boundary_at(v, nx2);
                        Step::Go(Cursor { pos: p3, pending: kept, ..q })
                    },
                }
            } else if e2 == lo2 {
                Step::Go(Cursor { pos: nx2, ..q })
            } else {
                Step::Go(Cursor { pos: nx2, pending: Some((lo2, e2)), ..q })
            }
        },
    }
}

/// What the reader does with the next line, as `vtt_step` says.
fn step_at<'a>(input: &'a str, v: &Vec<char>, c: Cursor) -> (r: Step<'a>)
    requires
        v@ == input@,
        parser_wf(v.len() as nat, cursor_view(c)),
    ensures
        step_view(r) == vtt_step(v@, cursor_view(c)),
{
    proof {
        reveal_strlit("WEBVTT");
    }
    let Cursor { pos, state, seen_cue, pending } = c;
    match state {
        State::Done => Step::Quit(Cursor { pos, state: State::Done, seen_cue, pending }),
        State::Signature => match next_raw_at(v, pos) {
            None => Step::Emit(Cursor { pos, state: State::Done, seen_cue, pending }, Err(ParseVttError::MissingSignature)),
            Some((lo, e, nx)) => {
                let t = skip_boms(v, lo, e);
                if !starts_with_at(v, t, e, "WEBVTT") {
                    Step::Emit(
                        Cursor { pos: nx, state: State::Done, seen_cue, pending },
                        Err(ParseVttError::MissingSignature),
                    )
                } else if e - t > 6 && v[t + 6] != ' ' && v[t + 6] != '\t' {
                    Step::Emit(
                        Cursor { pos: nx, state: State::Done, seen_cue, pending },
                        Err(ParseVttError::InvalidSignature),
                    )
                } else {
                    Step::Go(Cursor { pos: nx, state: State::Header, seen_cue, pending })
                }
            },
        },
        State::Header => match next_raw_at(v, pos) {
            None => Step::Quit(Cursor { pos, state: State::Done, seen_cue, pending }),
            Some((lo, e, nx)) => if e == lo {
                Step::Go(Cursor { pos: nx, state: State::BlockStart, seen_cue, pending })
            } else if has_arrow_at(v, lo, e) {
                Step::Go(Cursor { pos: nx, state: State::BlockStart, seen_cue, pending: Some((lo, e)) })
            } else {
                Step::Go(Cursor { pos: nx, state: State::Header, seen_cue, pending })
            },
        },
        State::BlockStart => {
            let taken = match pending {
                Some((lo, e)) => Some((lo, e, pos)),
                None => next_raw_at(v, pos),
            };
            match taken {
                None => Step::Quit(Cursor { pos, state: State::Done, seen_cue, pending: None }),
                Some((lo, e, nx)) => block_start_at(
                    input,
                    v,
                    Cursor { pos: nx, state: State::BlockStart, seen_cue, pending: None },
                    lo,
                    e,
                ),
            }
        },
        State::CueBody(h, start, end) => match next_raw_at(v, pos) {
            None => {
                let body = body_slice(input, start, end);
                Step::Emit(Cursor { pos, state: State::Done, seen_cue, pending }, Ok(Block::Cue(Cue::new(h, body))))
            },
            Some((lo, e, nx)) => if e == lo {
                let body = body_slice(input, start, end);
                Step::Emit(
                    Cursor { pos: nx, state: State::BlockStart, seen_cue, pending },
                    Ok(Block::Cue(Cue::new(h, body))),
                )
            } else if has_arrow_at(v, lo, e) {
                let body = body_slice(input, start, end);
                Step::Emit(
                    Cursor { pos: nx, state: State::BlockStart, seen_cue, pending: Some((lo, e)) },
                    Ok(Block::Cue(Cue::new(h, body))),
                )
            } else {
                let a = if start == end { lo } else { start };
                Step::Go(Cursor { pos: nx, state: State::CueBody(h, a, e), seen_cue, pending })
            },
        },
        State::NoteBody(start, end) => match next_raw_at(v, pos) {
            None => {
                let body = body_slice(input, start, end);
                Step::Emit(Cursor { pos, state: State::Done, seen_cue, pending }, Ok(Block::Note(body)))
            },
            Some((lo, e, nx)) => if e == lo {
                let body = body_slice(input, start, end);
                Step::Emit(Cursor { pos: nx, state: State::BlockStart, seen_cue, pending }, Ok(Block::Note(body)))
            } else {
                let a = if start == end { lo } else { start };
                Step::Go(Cursor { pos: nx, state: State::NoteBody(a, e), seen_cue, pending })
            },
        },
        State::StyleBody(start, end) => match next_raw_at(v, pos) {
            None => {
                let body = body_slice(input, start, end);
                Step::Emit(Cursor { pos, state: State::Done, seen_cue, pending }, Ok(Block::Style(body)))
            },
            Some((lo, e, nx)) => if e == lo {
                let body = body_slice(input, start, end);
                Step::Emit(Cursor { pos: nx, state: State::BlockStart, seen_cue, pending }, Ok(Block::Style(body)))
            } else {
                let a = if start == end { lo } else { start };
                Step::Go(Cursor { pos: nx, state: State::StyleBody(a, e), seen_cue, pending })
            },
        },
        State::RegionBody(start, end) => match next_raw_at(v, pos) {
            None => {
                let body = body_slice(input, start, end);
                Step::Emit(Cursor { pos, state: State::Done, seen_cue, pending }, Ok(Block::Region(body)))
            },
            Some((lo, e, nx)) => if e == lo {
                let body = body_slice(input, start, end);
                Step::Emit(Cursor { pos: nx, state: State::BlockStart, seen_cue, pending }, Ok(Block::Region(body)))
            } else {
                let a = if start == end { lo } else { start };
                Step::Go(Cursor { pos: nx, state: State::RegionBody(a, e), seen_cue, pending })
            },
        },
    }
}

/// A lazy WebVTT parser that hands out blocks one at a time.
///
/// The reader goes line by line (lines end in `\n`, `\r\n` or `\r`). The text must start
/// with the `WEBVTT` signature; header text up to the first blank line is skipped. Then come
/// cues (an optional identifier line, a timing line `start --> end` with optional cue
/// settings, and text lines up to a blank line), `NOTE` blocks, and, before the first cue,
/// `STYLE` and `REGION` blocks. A malformed timing line makes the reader skip to the next
/// block.
pub struct Parser<'a> {
    input: &'a str,
    chars: Vec<char>,
    cur: Cursor,
}

impl<'a> View for Parser<'a> {
    type V = ParserV;

    closed spec fn view(&self) -> ParserV {
        cursor_view(self.cur)
    }
}

impl<'a> Parser<'a> {
    /// The text being read.
    pub closed spec fn text(&self) -> Seq<char> {
        self.input@
    }

    /// The reader's positions lie within its text.
    #[verifier::type_invariant]
    closed spec fn wf(&self) -> bool {
        self.chars@ == self.input@ && parser_wf(self.chars@.len(), cursor_view(self.cur))
    }

    /// Create a new WebVTT parser for the given input.
    pub fn new(input: &'a str) -> (p: Self)
        ensures
            p.text() == input@,
            p@ == vtt_start(),
    {
        Parser {
            input,
            chars: chars_of(input),
            cur: Cursor { pos: 0, state: State::Signature, seen_cue: false, pending: None },
        }
    }

    /// Reads on to the next block: `None` once the text is exhausted or after an error.
    pub fn next(&mut self) -> (r: Option<Result<Block<&'a str>, ParseVttError>>)
        ensures
            final(self).text() == old(self).text(),
            (final(self)@, item_view(r)) == vtt_next(old(self).text(), old(self)@),
    {
        proof {
            use_type_invariant(&*self);
        }
        let input = self.input;
        let ghost s = self.input@;
        let ghost p0 = self@;
        let mut c = Cursor { pos: 0, state: State::Done, seen_cue: false, pending: None };
        core::mem::swap(&mut c, &mut self.cur);
        let mut res: Option<Result<Block<&'a str>, ParseVttError>> = None;
        loop
            invariant_except_break
                vtt_next(s, cursor_view(c)) == vtt_next(s, p0),
                res is None,
            invariant
                self.chars@ == s,
                s == input@,
                parser_wf(s.len(), cursor_view(c)),
            ensures
                (cursor_view(c), item_view(res)) == vtt_next(s, p0),
            decreases vtt_measure(s, cursor_view(c)),
        {
            proof {
                lemma_step(s, cursor_view(c));
                lemma_next_unfold(s, cursor_view(c));
            }
            match step_at(input, &self.chars, c) {
                Step::Go(c2) => {
                    c = c2;
                },
                Step::Emit(c2, item) => {
                    let ghost g = item;
                    proof {
                        match g {
                            Ok(b) => assert(item_view(Some(g)) == Some(Ok::<BlockV, ParseVttError>(block_view(b)))),
                            Err(e) => assert(item_view(Some(g)) == Some(Err::<BlockV, ParseVttError>(e))),
                        }
                    }
                    c = c2;
                    res = Some(item);
                    break ;
                },
                Step::Quit(c2) => {
                    c = c2;
                    break ;
                },
            }
        }
        self.cur = c;
        res
    }
}

/// One call of `Parser::next` is one step of the reader, and, where the step goes on,
/// the call from the state after it.
pub proof fn lemma_next_unfold(s: Seq<char>, p: ParserV)
    requires
        parser_wf(s.len(), p),
    ensures
        match vtt_step(s, p) {
            VttStep::Go(p2) => vtt_next(s, p) == vtt_next(s, p2),
            VttStep::Emit(p2, r) => vtt_next(s, p) == (p2, Some(r)),
            VttStep::Quit(p2) => vtt_next(s, p) == (p2, None::<Result<BlockV, ParseVttError>>),
        },
{
    lemma_step(s, p);
}

/// The blocks read from `s` by calls of `Parser::next` from state `p` on, up to the end
/// or the first error.
pub open spec fn vtt_collect(s: Seq<char>, p: ParserV) -> Result<Seq<BlockV>, ParseVttError>
    decreases (if p.state is Done { 0nat } else { vtt_measure(s, p) + 1 }),
{
    if p.state is Done {
        Ok(Seq::empty())
    } else {
        let (p2, r) = vtt_next(s, p);
        match r {
            None => Ok(Seq::empty()),
            Some(Err(e)) => Err(e),
            Some(Ok(b)) => if (if p2.state is Done { 0nat } else { vtt_measure(s, p2) + 1 }) < vtt_measure(s, p) + 1 {
                match vtt_collect(s, p2) {
                    Ok(bs) => Ok(seq![b].add(bs)),
                    Err(e) => Err(e),
                }
            } else {
                Ok(seq![b])
            },
        }
    }
}

/// The blocks of the WebVTT text `s`, or the first error.
pub open spec fn spec_parse_vtt(s: Seq<char>) -> Result<Seq<BlockV>, ParseVttError> {
    vtt_collect(s, vtt_start())
}

/// The plain values of parsed blocks.
pub open spec fn blocks_view<'a>(v: Seq<Block<&'a str>>) -> Seq<BlockV> {
    v.map_values(|b: Block<&'a str>| block_view(b))
}

/// A call of `Parser::next` that hands out something leaves the reader done, or with a
/// lower measure.
pub proof fn lemma_next_measure(s: Seq<char>, p: ParserV)
    requires
        parser_wf(s.len(), p),
    ensures
        vtt_next(s, p).1 is Some ==> vtt_next(s, p).0.state is Done || vtt_measure(s, vtt_next(s, p).0)
            < vtt_measure(s, p),
        vtt_next(s, p).1 is None ==> vtt_next(s, p).0.state is Done,
    decreases vtt_measure(s, p),
{
    lemma_step(s, p);
    if let VttStep::Go(p2) = vtt_step(s, p) {
        lemma_next_measure(s, p2);
    }
}

/// Parse a WebVTT string into its blocks (cues, notes, styles and regions), with
/// borrowed text, or the first error.
pub fn parse<'a>(input: &'a str) -> (r: Result<Vec<Block<&'a str>>, ParseVttError>)
    ensures
        match r {
            Ok(v) => spec_parse_vtt(input@) == Ok::<Seq<BlockV>, ParseVttError>(blocks_view(v@)),
            Err(e) => spec_parse_vtt(input@) == Err::<Seq<BlockV>, ParseVttError>(e),
        },
{
    let ghost s = input@;
    let mut p = Parser::new(input);
    let mut out: Vec<Block<&'a str>> = Vec::new();
    assert(blocks_view(out@) =~= Seq::<BlockV>::empty());
    loop
        invariant
            p.text() == s,
            s == input@,
            spec_parse_vtt(s) == match vtt_collect(s, p@) {
                Ok(bs) => Ok(blocks_view(out@) + bs),
                Err(e) => Err(e),
            },
        decreases (if p@.state is Done { 0nat } else { vtt_measure(s, p@) + 1 }),
    {
        proof {
            use_type_invariant(&p);
            lemma_next_measure(s, p@);
        }
        let ghost before = p@;
        let ghost acc = blocks_view(out@);
        match p.next() {
            None => {
                assert(acc + Seq::<BlockV>::empty() =~= acc);
                return Ok(out);
            },
            Some(Err(e)) => {
                return Err(e);
            },
            Some(Ok(b)) => {
                out.push(b);
                proof {
                    assert(blocks_view(out@) =~= acc.push(block_view(b)));
                    match vtt_collect(s, p@) {
                        Ok(bs) => assert(acc + seq![block_view(b)].add(bs) =~= blocks_view(out@) + bs),
                        Err(e) => {},
                    }
                }
            },
        }
    }
}

} // verus!
