use vstd::prelude::*;

use crate::text::{dec_digits, push_decimal, push_str, string_from_chars};

use super::parser::BlockV;
use super::types::{
    align_text, line_align_text, position_align_text, timestamp_text, vertical_text, Block, CueHeaderV,
    CueSettings, CueSettingsV, LineValue,
};

verus! {

broadcast use vstd::string::group_string_axioms;

/// Text that a block can hold: anything that lends out a string slice.
pub trait TextBody {
    /// The characters of this text.
    spec fn text_of(&self) -> Seq<char>;

    /// This text as a string slice.
    fn as_text(&self) -> (r: &str)
        ensures
            r@ == self.text_of(),
    ;
}

impl<'b> TextBody for &'b str {
    open spec fn text_of(&self) -> Seq<char> {
        (*self)@
    }

    fn as_text(&self) -> (r: &str) {
        *self
    }
}

impl TextBody for String {
    open spec fn text_of(&self) -> Seq<char> {
        self@
    }

    fn as_text(&self) -> (r: &str) {
        self.as_str()
    }
}

/// The plain values of a block holding any kind of text.
pub open spec fn block_value<T: TextBody>(b: Block<T>) -> BlockV {
    match b {
        Block::Cue(c) => BlockV::Cue(c.header_spec()@, c.body_spec().text_of()),
        Block::Note(t) => BlockV::Note(t.text_of()),
        Block::Style(t) => BlockV::Style(t.text_of()),
        Block::Region(t) => BlockV::Region(t.text_of()),
    }
}

/// The decimal text of an `i32`, with a leading `-` when it is negative.
pub open spec fn int_text(n: int) -> Seq<char> {
    if n < 0 {
        seq!['-'] + dec_digits((-n) as nat)
    } else {
        dec_digits(n as nat)
    }
}

/// The text of a line value: `N%` or the line number.
pub open spec fn line_value_text(v: LineValue) -> Seq<char> {
    match v {
        LineValue::Percentage(p) => dec_digits(p as nat) + seq!['%'],
        LineValue::Number(n) => int_text(n as int),
    }
}

/// `t` when `b` holds, else nothing.
pub open spec fn text_if(b: bool, t: Seq<char>) -> Seq<char> {
    if b {
        t
    } else {
        Seq::empty()
    }
}

/// The text of the writing direction setting, if given.
#[verifier::opaque]
pub open spec fn vertical_part(st: CueSettingsV) -> Seq<char> {
    match st.vertical {
        Some(v) => " vertical:"@ + vertical_text(v),
        None => Seq::empty(),
    }
}

/// The text of the line setting, if given.
#[verifier::opaque]
pub open spec fn line_part(st: CueSettingsV) -> Seq<char> {
    match st.line {
        Some(l) => " line:"@ + line_value_text(l.value) + match l.alignment {
            Some(a) => seq![','] + line_align_text(a),
            None => Seq::empty(),
        },
        None => Seq::empty(),
    }
}

/// The text of the position setting, if given.
#[verifier::opaque]
pub open spec fn position_part(st: CueSettingsV) -> Seq<char> {
    match st.position {
        Some(p) => " position:"@ + dec_digits(p.value as nat) + seq!['%'] + match p.alignment {
            Some(a) => seq![','] + position_align_text(a),
            None => Seq::empty(),
        },
        None => Seq::empty(),
    }
}

/// The text of the size setting, if given.
#[verifier::opaque]
pub open spec fn size_part(st: CueSettingsV) -> Seq<char> {
    match st.size {
        Some(sz) => " size:"@ + dec_digits(sz.0 as nat) + seq!['%'],
        None => Seq::empty(),
    }
}

/// The text of the alignment setting, if given.
#[verifier::opaque]
pub open spec fn align_part(st: CueSettingsV) -> Seq<char> {
    match st.align {
        Some(a) => " align:"@ + align_text(a),
        None => Seq::empty(),
    }
}

/// The text of the region setting, if given.
#[verifier::opaque]
pub open spec fn region_part(st: CueSettingsV) -> Seq<char> {
    match st.region {
        Some(r) => " region:"@ + r,
        None => Seq::empty(),
    }
}

/// The text of cue settings as written after a timing: each given setting, in the order
/// vertical, line, position, size, align, region, preceded by a space.
pub open spec fn settings_text(st: CueSettingsV) -> Seq<char> {
    vertical_part(st) + line_part(st) + position_part(st) + size_part(st) + align_part(st) + region_part(st)
}

/// The text of a cue: the identifier line if any, the timing line with the settings if
/// any, and the text followed by a line break unless it is empty.
pub open spec fn cue_text(h: CueHeaderV, body: Seq<char>) -> Seq<char> {
    id_part(h) + timing_part(h) + settings_part(h) + seq!['\n'] + text_if(body.len() > 0, body + seq!['\n'])
}

/// The text of a block, without the blank line before it.
pub open spec fn block_text(b: BlockV) -> Seq<char> {
    match b {
        BlockV::Cue(h, body) => cue_text(h, body),
        BlockV::Note(t) => "NOTE\n"@ + text_if(t.len() > 0, t + seq!['\n']),
        BlockV::Style(t) => "STYLE\n"@ + text_if(t.len() > 0, t + seq!['\n']),
        BlockV::Region(t) => "REGION\n"@ + text_if(t.len() > 0, t + seq!['\n']),
    }
}

/// The signature line with the given header text.
pub open spec fn signature_text(header: Option<Seq<char>>) -> Seq<char> {
    "WEBVTT"@ + (match header {
        Some(t) => text_if(t.len() > 0, seq![' '] + t),
        None => Seq::empty(),
    }) + seq!['\n']
}

/// The state of a writer as plain values: the text written so far, whether the signature
/// has been written, and whether a block has been written.
pub struct WriterV {
    /// The text written so far.
    pub text: Seq<char>,
    /// The signature line has been written.
    pub signed: bool,
    /// A block has been written.
    pub wrote_block: bool,
}

/// A WebVTT writer that builds the text of a file block by block.
pub struct Writer {
    out: Vec<char>,
    has_written_signature: bool,
    has_written_block: bool,
}

impl View for Writer {
    type V = WriterV;

    closed spec fn view(&self) -> WriterV {
        WriterV { text: self.out@, signed: self.has_written_signature, wrote_block: self.has_written_block }
    }
}

/// Appends the line setting, if given, to `out`.
fn push_line(settings: &CueSettings, out: &mut Vec<char>)
    ensures
        final(out)@ == old(out)@ + line_part(settings@),
{
    let ghost start = out@;
    proof {
        reveal_strlit(" line:");
        reveal(line_part);
    }
    if let Some(line) = settings.line() {
        push_str(out, " line:");
        match line.value() {
            LineValue::Percentage(p) => {
                push_decimal(out, p as u64);
                out.push('%');
            },
            LineValue::Number(n) => {
                if n < 0 {
                    out.push('-');
                    let m: i64 = 0 - (n as i64);
                    push_decimal(out, m as u64);
                } else {
                    push_decimal(out, n as u64);
                }
            },
        }
        if let Some(a) = line.alignment() {
            out.push(',');
            push_str(out, a.as_str());
        }
    }
    assert(out@ =~= start + line_part(settings@));
}

/// Appends the position setting, if given, to `out`.
fn push_position(settings: &CueSettings, out: &mut Vec<char>)
    ensures
        final(out)@ == old(out)@ + position_part(settings@),
{
    let ghost start = out@;
    proof {
        reveal_strlit(" position:");
        reveal(position_part);
    }
    if let Some(pos) = settings.position() {
        push_str(out, " position:");
        push_decimal(out, pos.value() as u64);
        out.push('%');
        if let Some(a) = pos.alignment() {
            out.push(',');
            push_str(out, a.as_str());
        }
    }
    assert(out@ =~= start + position_part(settings@));
}

/// Appends the writing direction setting, if given, to `out`.
fn push_vertical(settings: &CueSettings, out: &mut Vec<char>)
    ensures
        final(out)@ == old(out)@ + vertical_part(settings@),
{
    let ghost start = out@;
    proof {
        reveal_strlit(" vertical:");
        reveal(vertical_part);
    }
    if let Some(v) = settings.vertical() {
        push_str(out, " vertical:");
        push_str(out, v.as_str());
    }
    assert(out@ =~= start + vertical_part(settings@));
}

/// Appends the size setting, if given, to `out`.
fn push_size(settings: &CueSettings, out: &mut Vec<char>)
    ensures
        final(out)@ == old(out)@ + size_part(settings@),
{
    let ghost start = out@;
    proof {
        reveal_strlit(" size:");
        reveal(size_part);
    }
    if let Some(size) = settings.size() {
        push_str(out, " size:");
        push_decimal(out, size.value() as u64);
        out.push('%');
    }
    assert(out@ =~= start + size_part(settings@));
}

/// Appends the alignment setting, if given, to `out`.
fn push_align(settings: &CueSettings, out: &mut Vec<char>)
    ensures
        final(out)@ == old(out)@ + align_part(settings@),
{
    let ghost start = out@;
    proof {
        reveal_strlit(" align:");
        reveal(align_part);
    }
    if let Some(a) = settings.align() {
        push_str(out, " align:");
        push_str(out, a.as_str());
    }
    assert(out@ =~= start + align_part(settings@));
}

/// Appends the region setting, if given, to `out`.
fn push_region(settings: &CueSettings, out: &mut Vec<char>)
    ensures
        final(out)@ == old(out)@ + region_part(settings@),
{
    let ghost start = out@;
    proof {
        reveal_strlit(" region:");
        reveal(region_part);
    }
    if let Some(region) = settings.region() {
        push_str(out, " region:");
        push_str(out, region.as_str());
    }
    assert(out@ =~= start + region_part(settings@));
}

/// Appends the cue settings to `out`.
fn format_cue_settings(settings: &CueSettings, out: &mut Vec<char>)
    ensures
        final(out)@ == old(out)@ + settings_text(settings@),
{
    let ghost start = out@;
    push_vertical(settings, out);
    push_line(settings, out);
    push_position(settings, out);
    push_size(settings, out);
    push_align(settings, out);
    push_region(settings, out);
    assert(out@ =~= start + settings_text(settings@));
}

/// The identifier line of a cue, if it has an identifier.
pub open spec fn id_part(h: CueHeaderV) -> Seq<char> {
    match h.identifier {
        Some(id) => id + seq!['\n'],
        None => Seq::empty(),
    }
}

/// The timing of a cue: its start, the arrow, and its end.
#[verifier::opaque]
pub open spec fn timing_part(h: CueHeaderV) -> Seq<char> {
    timestamp_text(h.start) + " --> "@ + timestamp_text(h.end)
}

/// The settings of a cue as written after its timing, if it has settings.
pub open spec fn settings_part(h: CueHeaderV) -> Seq<char> {
    match h.settings {
        Some(st) => settings_text(st),
        None => Seq::empty(),
    }
}

/// Appends the timing of a cue to `out`.
fn push_timing(header: &super::types::CueHeader, out: &mut Vec<char>)
    ensures
        final(out)@ == old(out)@ + timing_part(header@),
{
    let ghost start = out@;
    proof {
        reveal_strlit(" --> ");
        reveal(timing_part);
    }
    header.start().push_text(out);
    push_str(out, " --> ");
    header.end().push_text(out);
    assert(out@ =~= start + timing_part(header@));
}

/// Appends the text of a cue to `out`.
fn push_cue<T: TextBody>(cue: &super::types::Cue<T>, out: &mut Vec<char>)
    ensures
        final(out)@ == old(out)@ + cue_text(cue.header_spec()@, cue.body_spec().text_of()),
{
    let ghost start = out@;
    let ghost h = cue.header_spec()@;
    let header = cue.header_ref();
    if let Some(id) = header.identifier() {
        push_str(out, id.as_str());
        out.push('\n');
    }
    let ghost p1 = out@;
    assert(p1 =~= start + id_part(h));
    push_timing(header, out);
    let ghost p2 = out@;
    if let Some(settings) = header.settings() {
        format_cue_settings(settings, out);
    }
    let ghost p3 = out@;
    assert(p3 =~= p2 + settings_part(h));
    out.push('\n');
    let ghost p4 = out@;
    let body = cue.body_ref().as_text();
    if body.unicode_len() > 0 {
        push_str(out, body);
        out.push('\n');
    }
    let ghost b = cue.body_spec().text_of();
    assert(out@ =~= p4 + text_if(b.len() > 0, b + seq!['\n']));
    assert(out@ =~= start + cue_text(h, b));
}

/// Appends a keyword line and the text under it, if any, to `out`.
fn push_titled(kw: &str, text: &str, out: &mut Vec<char>)
    ensures
        final(out)@ == old(out)@ + kw@ + text_if(text@.len() > 0, text@ + seq!['\n']),
{
    let ghost start = out@;
    push_str(out, kw);
    if text.unicode_len() > 0 {
        push_str(out, text);
        out.push('\n');
    }
    assert(out@ =~= start + kw@ + text_if(text@.len() > 0, text@ + seq!['\n']));
}

impl Writer {
    /// Create a new writer with nothing written.
    pub fn new() -> (w: Self)
        ensures
            w@ == (WriterV { text: Seq::empty(), signed: false, wrote_block: false }),
    {
        Writer { out: Vec::new(), has_written_signature: false, has_written_block: false }
    }

    /// Write the `WEBVTT` signature with optional header text, unless it has been
    /// written; `write` writes it before the first block if it has not.
    pub fn write_header(&mut self, header_text: Option<&str>)
        ensures
            final(self)@ == (if old(self)@.signed {
                old(self)@
            } else {
                WriterV {
                    text: old(self)@.text + signature_text(
                        match header_text {
                            Some(t) => Some(t@),
                            None => None,
                        },
                    ),
                    signed: true,
                    ..old(self)@
                }
            }),
    {
        if self.has_written_signature {
            return ;
        }
        let ghost start = self.out@;
        proof {
            reveal_strlit("WEBVTT");
        }
        self.has_written_signature = true;
        push_str(&mut self.out, "WEBVTT");
        if let Some(text) = header_text {
            if text.unicode_len() > 0 {
                self.out.push(' ');
                push_str(&mut self.out, text);
            }
        }
        self.out.push('\n');
        assert(self.out@ =~= start + signature_text(
            match header_text {
                Some(t) => Some(t@),
                None => None,
            },
        ));
    }

    /// Write a single WebVTT block, after a blank line; the signature comes first if it
    /// has not been written.
    pub fn write<T: TextBody>(&mut self, block: &Block<T>)
        ensures
            final(self)@ == (WriterV {
                text: old(self)@.text + text_if(!old(self)@.signed, signature_text(None)) + seq!['\n']
                    + block_text(block_value(*block)),
                signed: true,
                wrote_block: true,
            }),
    {
        let ghost start = self.out@;
        let ghost signed = self.has_written_signature;
        if !self.has_written_signature {
            self.write_header(None);
        }
        let ghost mid = self.out@;
        assert(mid =~= start + text_if(!signed, signature_text(None)));
        self.out.push('\n');
        proof {
            reveal_strlit("NOTE\n");
            reveal_strlit("STYLE\n");
            reveal_strlit("REGION\n");
        }
        match block {
            Block::Cue(cue) => push_cue(cue, &mut self.out),
            Block::Note(text) => push_titled("NOTE\n", text.as_text(), &mut self.out),
            Block::Style(text) => push_titled("STYLE\n", text.as_text(), &mut self.out),
            Block::Region(text) => push_titled("REGION\n", text.as_text(), &mut self.out),
        }
        assert(self.out@ =~= mid + seq!['\n'] + block_text(block_value(*block)));
        self.has_written_block = true;
    }

    /// Write all the given blocks, one after another.
    pub fn write_all<T: TextBody>(&mut self, blocks: &[Block<T>])
        ensures
            final(self)@.text == old(self)@.text + text_if(!old(self)@.signed && blocks@.len() > 0, signature_text(None))
                + blocks_text(blocks@.map_values(|b: Block<T>| block_value(b))),
            final(self)@.signed == (old(self)@.signed || blocks@.len() > 0),
            final(self)@.wrote_block == (old(self)@.wrote_block || blocks@.len() > 0),
    {
        let ghost start = self@;
        let mut i: usize = 0;
        while i < blocks.len()
            invariant
                i <= blocks@.len(),
                self@.text == start.text + text_if(!start.signed && i > 0, signature_text(None)) + blocks_text(
                    blocks@.subrange(0, i as int).map_values(|b: Block<T>| block_value(b)),
                ),
                self@.signed == (start.signed || i > 0),
                self@.wrote_block == (start.wrote_block || i > 0),
            decreases blocks@.len() - i,
        {
            let ghost before = self@.text;
            self.write(&blocks[i]);
            proof {
                let bs = blocks@.subrange(0, i as int).map_values(|b: Block<T>| block_value(b));
                let bs2 = blocks@.subrange(0, i + 1).map_values(|b: Block<T>| block_value(b));
                assert(bs2 =~= bs.push(block_value(blocks@[i as int])));
                lemma_blocks_text_push(bs, block_value(blocks@[i as int]));
            }
            i = i + 1;
        }
        assert(blocks@.subrange(0, blocks@.len() as int) =~= blocks@);
    }

    /// Returns the text written since the writer was made or last drained, leaving the
    /// writer with no text but as signed as before.
    pub fn take_text(&mut self) -> (s: String)
        ensures
            s@ == old(self)@.text,
            final(self)@ == (WriterV { text: Seq::empty(), ..old(self)@ }),
    {
        let s = string_from_chars(&self.out);
        self.out = Vec::new();
        s
    }

    /// Consume the writer and return the text written.
    pub fn into_inner(self) -> (s: String)
        ensures
            s@ == self@.text,
    {
        string_from_chars(&self.out)
    }
}

/// The text of blocks written one after another, each after a blank line.
pub open spec fn blocks_text(bs: Seq<BlockV>) -> Seq<char>
    decreases bs.len(),
{
    if bs.len() == 0 {
        Seq::empty()
    } else {
        blocks_text(bs.drop_last()) + seq!['\n'] + block_text(bs.last())
    }
}

/// Writing one more block appends its text after a blank line.
pub proof fn lemma_blocks_text_push(bs: Seq<BlockV>, b: BlockV)
    ensures
        blocks_text(bs.push(b)) == blocks_text(bs) + seq!['\n'] + block_text(b),
{
    assert(bs.push(b).drop_last() =~= bs);
}

} // verus!
