//! Cue text: the tags, timestamps and text runs inside a WebVTT cue, read as a token
//! stream ([`CueParser`]) or as a tree ([`CueText`]).
use vstd::prelude::*;

use crate::text::{chars_of, is_digit, is_digit_char, string_from_chars};

use super::scan::{find_in, find_in_at, skip_ws, skip_ws_at, trim_ws_end, trim_ws_end_at, window_eq};
use super::timing::{parse_timestamp, spec_parse_timestamp};
use super::types::{Timestamp, TimestampV};

verus! {

broadcast use vstd::string::group_string_axioms;

/// A recognized WebVTT cue text tag name.
#[derive(Debug, Clone, Copy, PartialEq, Eq, Hash, Structural)]
pub enum Tag {
    /// `<b>`: bold.
    Bold,
    /// `<i>`: italic.
    Italic,
    /// `<u>`: underline.
    Underline,
    /// `<c>`: class span.
    Class,
    /// `<ruby>`: ruby annotation container.
    Ruby,
    /// `<rt>`: ruby text.
    RubyText,
    /// `<v>`: voice span.
    Voice,
    /// `<lang>`: language span.
    Lang,
}

/// The tag named `w`, if any.
pub open spec fn tag_of(w: Seq<char>) -> Option<Tag> {
    if w == "b"@ {
        Some(Tag::Bold)
    } else if w == "i"@ {
        Some(Tag::Italic)
    } else if w == "u"@ {
        Some(Tag::Underline)
    } else if w == "c"@ {
        Some(Tag::Class)
    } else if w == "ruby"@ {
        Some(Tag::Ruby)
    } else if w == "rt"@ {
        Some(Tag::RubyText)
    } else if w == "v"@ {
        Some(Tag::Voice)
    } else if w == "lang"@ {
        Some(Tag::Lang)
    } else {
        None
    }
}

/// The name of a tag.
pub open spec fn tag_name(t: Tag) -> Seq<char> {
    match t {
        Tag::Bold => "b"@,
        Tag::Italic => "i"@,
        Tag::Underline => "u"@,
        Tag::Class => "c"@,
        Tag::Ruby => "ruby"@,
        Tag::RubyText => "rt"@,
        Tag::Voice => "v"@,
        Tag::Lang => "lang"@,
    }
}

impl Tag {
    /// The tag named `s`, if any.
    pub fn from_str(s: &str) -> (r: Option<Tag>)
        ensures
            r == tag_of(s@),
    {
        let v = chars_of(s);
        let r = tag_at(&v, 0, v.len());
        assert(v@.subrange(0, v@.len() as int) =~= s@);
        r
    }

    /// The name of this tag, as written between `<` and `>`.
    pub fn as_str(&self) -> (r: &'static str)
        ensures
            r@ == tag_name(*self),
    {
        match self {
            Tag::Bold => "b",
            Tag::Italic => "i",
            Tag::Underline => "u",
            Tag::Class => "c",
            Tag::Ruby => "ruby",
            Tag::RubyText => "rt",
            Tag::Voice => "v",
            Tag::Lang => "lang",
        }
    }
}

/// Reads the tag named `v[lo..hi]`.
fn tag_at(v: &Vec<char>, lo: usize, hi: usize) -> (r: Option<Tag>)
    requires
        lo <= hi <= v.len(),
    ensures
        r == tag_of(v@.subrange(lo as int, hi as int)),
{
    if window_eq(v, lo, hi, "b") {
        Some(Tag::Bold)
    } else if window_eq(v, lo, hi, "i") {
        Some(Tag::Italic)
    } else if window_eq(v, lo, hi, "u") {
        Some(Tag::Underline)
    } else if window_eq(v, lo, hi, "c") {
        Some(Tag::Class)
    } else if window_eq(v, lo, hi, "ruby") {
        Some(Tag::Ruby)
    } else if window_eq(v, lo, hi, "rt") {
        Some(Tag::RubyText)
    } else if window_eq(v, lo, hi, "v") {
        Some(Tag::Voice)
    } else if window_eq(v, lo, hi, "lang") {
        Some(Tag::Lang)
    } else {
        None
    }
}

/// The character an entity name (between `&` and `;`) stands for.
pub open spec fn entity_char(name: Seq<char>) -> Option<char> {
    if name == "amp"@ {
        Some('&')
    } else if name == "lt"@ {
        Some('<')
    } else if name == "gt"@ {
        Some('>')
    } else if name == "lrm"@ {
        Some('\u{200E}')
    } else if name == "rlm"@ {
        Some('\u{200F}')
    } else if name == "nbsp"@ {
        Some('\u{00A0}')
    } else {
        None
    }
}

/// Decoding the entity whose name starts at `i` (just after `&`): the character and
/// where the text goes on (after the `;`).
pub open spec fn entity_at(s: Seq<char>, i: int) -> Option<(char, int)> {
    let end = find_in(s, i, s.len() as int, ';');
    if end >= s.len() {
        None
    } else {
        match entity_char(s.subrange(i, end)) {
            Some(c) => Some((c, end + 1)),
            None => None,
        }
    }
}

/// The entity reference starting at `i`, if `s[i]` is `&` and an entity follows: the
/// character it stands for and where the text goes on.
pub open spec fn entity_step(s: Seq<char>, i: int) -> Option<(char, int)> {
    if 0 <= i < s.len() && s[i] == '&' {
        match entity_at(s, i + 1) {
            Some((c, next)) => if next > i {
                Some((c, next))
            } else {
                None
            },
            None => None,
        }
    } else {
        None
    }
}

/// The text `s[i..]` with entities decoded and NUL characters replaced by U+FFFD.
pub open spec fn normalize_from(s: Seq<char>, i: int) -> Seq<char>
    decreases s.len() - i,
{
    if i >= s.len() {
        Seq::empty()
    } else {
        match entity_step(s, i) {
            Some((c, next)) => seq![c] + normalize_from(s, next),
            None => if s[i] == '\0' {
                seq!['\u{FFFD}'] + normalize_from(s, i + 1)
            } else {
                seq![s[i]] + normalize_from(s, i + 1)
            },
        }
    }
}

/// The text `s` with entities decoded and NUL characters replaced by U+FFFD.
pub open spec fn normalize_text(s: Seq<char>) -> Seq<char> {
    normalize_from(s, 0)
}

/// `s` holds an entity reference or a NUL character, so that its normalized form may differ.
pub open spec fn needs_normalization(s: Seq<char>) -> bool {
    exists|k: int| 0 <= k < s.len() && (s[k] == '&' || s[k] == '\0')
}

/// Text of a cue, as read: borrowed from the cue or owned.
#[derive(Debug, Clone, PartialEq, Eq)]
pub enum CueStr<'a> {
    /// Borrowed directly from the input.
    Borrowed(&'a str),
    /// Owned text.
    Owned(String),
}

impl<'a> View for CueStr<'a> {
    type V = Seq<char>;

    open spec fn view(&self) -> Seq<char> {
        match self {
            CueStr::Borrowed(s) => s@,
            CueStr::Owned(s) => s@,
        }
    }
}

impl<'a> CueStr<'a> {
    /// Text borrowed from `s`.
    pub fn borrowed(s: &'a str) -> (c: Self)
        ensures
            c == CueStr::Borrowed(s),
    {
        CueStr::Borrowed(s)
    }

    /// Returns the text as read, with entities left as they are.
    pub fn as_str(&self) -> (r: &str)
        ensures
            r@ == self@,
    {
        match self {
            CueStr::Borrowed(s) => s,
            CueStr::Owned(s) => s.as_str(),
        }
    }

    /// Returns the text as read, with entities left as they are.
    pub fn as_raw(&self) -> (r: &str)
        ensures
            r@ == self@,
    {
        self.as_str()
    }

    /// Whether the text holds an entity reference or a NUL character.
    pub fn requires_normalization(&self) -> (b: bool)
        ensures
            b == needs_normalization(self@),
    {
        let v = chars_of(self.as_str());
        let mut k: usize = 0;
        while k < v.len()
            invariant
                v@ == self@,
                k <= v.len(),
                forall|j: int| 0 <= j < k ==> v@[j] != '&' && v@[j] != '\0',
            decreases v.len() - k,
        {
            if v[k] == '&' || v[k] == '\0' {
                return true;
            }
            k = k + 1;
        }
        false
    }

    /// The text with the entities `&amp;`, `&lt;`, `&gt;`, `&lrm;`, `&rlm;` and `&nbsp;`
    /// decoded and NUL characters replaced by U+FFFD; other `&` stay as they are.
    pub fn normalize(&self) -> (r: String)
        ensures
            r@ == normalize_text(self@),
    {
        let v = chars_of(self.as_str());
        let mut out: Vec<char> = Vec::new();
        let mut j: usize = 0;
        while j < v.len()
            invariant
                v@ == self@,
                j <= v.len(),
                normalize_text(v@) == out@ + normalize_from(v@, j as int),
            decreases v.len() - j,
        {
            let ghost before = out@;
            if v[j] == '&' {
                match decode_entity(&v, j + 1) {
                    Some((ch, next)) => {
                        if next > j {
                            out.push(ch);
                            assert(out@ + normalize_from(v@, next as int) =~= before + normalize_from(v@, j as int));
                            j = next;
                            continue ;
                        }
                    },
                    None => {},
                }
            }
            if v[j] == '\0' {
                out.push('\u{FFFD}');
            } else {
                out.push(v[j]);
            }
            assert(out@ + normalize_from(v@, j + 1) =~= before + normalize_from(v@, j as int));
            j = j + 1;
        }
        assert(out@ + normalize_from(v@, j as int) =~= out@);
        string_from_chars(&out)
    }
}

/// Reads the entity whose name starts at `i` (just after `&`), as `entity_at` says.
fn decode_entity(v: &Vec<char>, i: usize) -> (r: Option<(char, usize)>)
    requires
        i <= v.len(),
    ensures
        match r {
            Some((c, next)) => entity_at(v@, i as int) == Some((c, next as int)) && next <= v.len(),
            None => entity_at(v@, i as int) is None,
        },
{
    let end = find_in_at(v, i, v.len(), ';');
    if end >= v.len() {
        return None;
    }
    let c = if window_eq(v, i, end, "amp") {
        '&'
    } else if window_eq(v, i, end, "lt") {
        '<'
    } else if window_eq(v, i, end, "gt") {
        '>'
    } else if window_eq(v, i, end, "lrm") {
        '\u{200E}'
    } else if window_eq(v, i, end, "rlm") {
        '\u{200F}'
    } else if window_eq(v, i, end, "nbsp") {
        '\u{00A0}'
    } else {
        return None;
    };
    Some((c, end + 1))
}

/// A token of cue text as plain values.
pub enum TokenV {
    /// A run of text, as read.
    Text(Seq<char>),
    /// A start tag: its name, its classes (dot-separated), and its annotation.
    StartTag(Tag, Seq<char>, Option<Seq<char>>),
    /// An end tag.
    EndTag(Tag),
    /// A timestamp tag.
    Timestamp(TimestampV),
}

/// A token emitted by the [`CueParser`].
#[derive(Debug, Clone, PartialEq, Eq)]
pub enum CueToken<'a> {
    /// A run of plain text, as read.
    Text(CueStr<'a>),
    /// A start tag like `<b>`, `<c.classname>`, or `<v Speaker Name>`.
    StartTag {
        /// The tag name.
        tag: Tag,
        /// Dot-separated class names (e.g., `"loud.important"`), empty if none.
        classes: &'a str,
        /// Annotation text (for `<v>` and `<lang>`), `None` if absent.
        annotation: Option<&'a str>,
    },
    /// An end tag like `</b>`.
    EndTag(Tag),
    /// A timestamp tag like `<00:05.000>`.
    Timestamp(Timestamp),
}

impl<'a> CueToken<'a> {
    /// The text of a text token as read, with entities left as they are; `None` for
    /// any other token.
    pub fn as_raw_text(&self) -> (r: Option<&str>)
        ensures
            match self {
                CueToken::Text(c) => r matches Some(x) && x@ == c@,
                _ => r is None,
            },
    {
        match self {
            CueToken::Text(c) => Some(c.as_raw()),
            _ => None,
        }
    }

    /// The text of a text token with entities decoded and NUL replaced; `None` for any
    /// other token.
    pub fn as_normalized_text(&self) -> (r: Option<String>)
        ensures
            match self {
                CueToken::Text(c) => r matches Some(x) && x@ == normalize_text(c@),
                _ => r is None,
            },
    {
        match self {
            CueToken::Text(c) => Some(c.normalize()),
            _ => None,
        }
    }

    /// Whether this is a text token whose normalized form may differ from its raw text.
    pub fn requires_normalization(&self) -> (b: bool)
        ensures
            b == (self matches CueToken::Text(c) && needs_normalization(c@)),
    {
        match self {
            CueToken::Text(c) => c.requires_normalization(),
            _ => false,
        }
    }
}

/// The plain values of a token.
pub open spec fn token_view<'a>(t: CueToken<'a>) -> TokenV {
    match t {
        CueToken::Text(c) => TokenV::Text(c@),
        CueToken::StartTag { tag, classes, annotation } => TokenV::StartTag(
            tag,
            classes@,
            match annotation {
                Some(a) => Some(a@),
                None => None,
            },
        ),
        CueToken::EndTag(t) => TokenV::EndTag(t),
        CueToken::Timestamp(ts) => TokenV::Timestamp(ts@),
    }
}

/// A text token holds text borrowed from the cue, not a copy.
pub open spec fn token_borrowed<'a>(t: CueToken<'a>) -> bool {
    t matches CueToken::Text(c) ==> c is Borrowed
}

/// The first index in `i..hi` holding a space or a tab, or `hi`.
pub open spec fn find_blank(s: Seq<char>, i: int, hi: int) -> int
    decreases hi - i,
{
    if i >= hi || s[i] == ' ' || s[i] == '\t' {
        i
    } else {
        find_blank(s, i + 1, hi)
    }
}

/// The token written between `<` and `>` as `s[ts..te]`, if it is one: an end tag
/// `/name`, a timestamp (when it starts with a digit), or a start tag `name.classes
/// annotation`. Unknown tag names give nothing.
pub open spec fn tag_token(s: Seq<char>, ts: int, te: int) -> Option<TokenV> {
    if te <= ts {
        None
    } else if s[ts] == '/' {
        let a = skip_ws(s, ts + 1, te);
        let b = trim_ws_end(s, a, te);
        match tag_of(s.subrange(a, b)) {
            Some(t) => Some(TokenV::EndTag(t)),
            None => None,
        }
    } else if is_digit(s[ts]) {
        match spec_parse_timestamp(s.subrange(ts, te)) {
            Ok(t) => Some(TokenV::Timestamp(t)),
            Err(_) => None,
        }
    } else {
        let sp = find_blank(s, ts, te);
        let ann = if sp < te {
            let a = skip_ws(s, sp + 1, te);
            let b = trim_ws_end(s, a, te);
            if a == b {
                None
            } else {
                Some(s.subrange(a, b))
            }
        } else {
            None
        };
        let dot = find_in(s, ts, sp, '.');
        let classes = if dot < sp {
            s.subrange(dot + 1, sp)
        } else {
            Seq::empty()
        };
        match tag_of(s.subrange(ts, dot)) {
            Some(t) => Some(TokenV::StartTag(t, classes, ann)),
            None => None,
        }
    }
}

/// Reading the tag that starts at `pos` (where `s` holds `<`): where reading goes on
/// (past the closing `>`, or at the end), and the token, if the tag is one.
pub open spec fn read_tag(s: Seq<char>, pos: int) -> (int, Option<TokenV>) {
    let te = find_in(s, pos + 1, s.len() as int, '>');
    (if te < s.len() { te + 1 } else { te }, tag_token(s, pos + 1, te))
}

/// What one call of `CueParser::next` at `pos` does: where reading goes on and the
/// token, if any. A tag that is no token is skipped; one at the very end ends the stream.
pub open spec fn cue_next(s: Seq<char>, pos: int) -> (int, Option<TokenV>)
    decreases s.len() - pos,
{
    if pos < 0 || pos >= s.len() {
        (pos, None)
    } else if s[pos] == '<' {
        let (p2, t) = read_tag(s, pos);
        match t {
            Some(tok) => (p2, Some(tok)),
            None => if pos < p2 < s.len() {
                cue_next(s, p2)
            } else {
                (p2, None)
            },
        }
    } else {
        let i = find_in(s, pos, s.len() as int, '<');
        (i, Some(TokenV::Text(s.subrange(pos, i))))
    }
}

/// All the tokens of `s` from `pos` on.
pub open spec fn cue_tokens(s: Seq<char>, pos: int) -> Seq<TokenV>
    decreases s.len() - pos,
{
    let (p2, t) = cue_next(s, pos);
    match t {
        None => Seq::empty(),
        Some(tok) => if pos < p2 <= s.len() {
            seq![tok] + cue_tokens(s, p2)
        } else {
            seq![tok]
        },
    }
}

/// A lazy cue text parser, handing out tokens one at a time.
pub struct CueParser<'a> {
    input: &'a str,
    chars: Vec<char>,
    pos: usize,
}

impl<'a> CueParser<'a> {
    /// The text being read.
    pub closed spec fn text(&self) -> Seq<char> {
        self.input@
    }

    /// Where reading goes on.
    pub closed spec fn position(&self) -> int {
        self.pos as int
    }

    /// The parser's position lies within its text.
    #[verifier::type_invariant]
    closed spec fn wf(&self) -> bool {
        self.chars@ == self.input@ && self.pos <= self.chars@.len()
    }

    /// Create a new cue text parser for the given raw cue text.
    pub fn new(input: &'a str) -> (p: Self)
        ensures
            p.text() == input@,
            p.position() == 0,
    {
        CueParser { input, chars: chars_of(input), pos: 0 }
    }

    /// Reads a text run from the current position up to the next `<` or the end.
    fn parse_text(&mut self) -> (t: CueToken<'a>)
        requires
            old(self).pos < old(self).chars@.len(),
            old(self).chars@[old(self).pos as int] != '<',
            old(self).chars@ == old(self).input@,
        ensures
            final(self).input == old(self).input,
            final(self).chars == old(self).chars,
            (final(self).pos as int, Some(token_view(t))) == cue_next(old(self).input@, old(self).pos as int),
            final(self).pos <= final(self).chars@.len(),
            token_borrowed(t),
    {
        let start = self.pos;
        let i = find_in_at(&self.chars, start, self.chars.len(), '<');
        self.pos = i;
        CueToken::Text(CueStr::Borrowed(self.input.substring_char(start, i)))
    }

    /// Reads the tag at the current position (where the text holds `<`).
    fn parse_tag(&mut self) -> (t: Option<CueToken<'a>>)
        requires
            old(self).pos < old(self).chars@.len(),
            old(self).chars@[old(self).pos as int] == '<',
            old(self).chars@ == old(self).input@,
        ensures
            final(self).input == old(self).input,
            final(self).chars == old(self).chars,
            final(self).pos as int == read_tag(old(self).input@, old(self).pos as int).0,
            match t {
                Some(tok) => read_tag(old(self).input@, old(self).pos as int).1 == Some(token_view(tok))
                    && token_borrowed(tok),
                None => read_tag(old(self).input@, old(self).pos as int).1 is None,
            },
            old(self).pos < final(self).pos <= final(self).chars@.len(),
    {
        let v = &self.chars;
        assert(self.pos < v.len());
        let ts = self.pos + 1;
        let te = find_in_at(v, ts, v.len(), '>');
        self.pos = if te < v.len() { te + 1 } else { te };
        token_at(self.input, v, ts, te)
    }

    /// Reads on to the next token: `None` at the end of the text.
    pub fn next(&mut self) -> (r: Option<CueToken<'a>>)
        ensures
            final(self).text() == old(self).text(),
            (final(self).position(), match r {
                Some(t) => Some(token_view(t)),
                None => None,
            }) == cue_next(old(self).text(), old(self).position()),
            r matches Some(t) ==> token_borrowed(t),
    {
        proof {
            use_type_invariant(&*self);
        }
        let ghost s = self.input@;
        let ghost p0 = self.pos as int;
        loop
            invariant
                self.input == old(self).input,
                p0 == old(self).pos as int,
                s == old(self).input@,
                self.input@ == s,
                self.chars@ == s,
                self.pos <= s.len(),
                cue_next(s, self.pos as int) == cue_next(s, p0),
            decreases s.len() - self.pos,
        {
            if self.pos >= self.chars.len() {
                return None;
            }
            if self.chars[self.pos] == '<' {
                let saved = self.pos;
                match self.parse_tag() {
                    Some(tok) => {
                        return Some(tok);
                    },
                    None => {
                        if !(self.pos < self.chars.len()) {
                            return None;
                        }
                        assert(saved < self.pos);
                    },
                }
            } else {
                return Some(self.parse_text());
            }
        }
    }

    /// Reads all the remaining tokens.
    pub fn tokens(self) -> (v: Vec<CueToken<'a>>)
        ensures
            v@.map_values(|t: CueToken<'a>| token_view(t)) == cue_tokens(self.text(), self.position()),
            forall|i: int| 0 <= i < v@.len() ==> token_borrowed(#[trigger] v@[i]),
    {
        proof {
            use_type_invariant(&self);
        }
        let mut p = self;
        let ghost s = p.text();
        let mut out: Vec<CueToken<'a>> = Vec::new();
        loop
            invariant
                p.text() == s,
                s == self.text(),
                0 <= p.position() <= s.len(),
                cue_tokens(s, self.position()) == out@.map_values(|t: CueToken<'a>| token_view(t)) + cue_tokens(
                    s,
                    p.position(),
                ),
                forall|i: int| 0 <= i < out@.len() ==> token_borrowed(#[trigger] out@[i]),
            decreases s.len() - p.position(),
        {
            proof {
                use_type_invariant(&p);
                lemma_cue_next_advances(s, p.position());
            }
            let ghost before = p.position();
            let ghost acc = out@.map_values(|t: CueToken<'a>| token_view(t));
            match p.next() {
                None => {
                    assert(acc + Seq::<TokenV>::empty() =~= acc);
                    return out;
                },
                Some(t) => {
                    out.push(t);
                    proof {
                        assert(out@.map_values(|t: CueToken<'a>| token_view(t)) =~= acc.push(token_view(t)));
                        assert(acc + (seq![token_view(t)] + cue_tokens(s, p.position())) =~= acc.push(token_view(t))
                            + cue_tokens(s, p.position()));
                    }
                },
            }
        }
    }
}

/// A call of `CueParser::next` that hands out a token moves forward, within the text.
pub proof fn lemma_cue_next_advances(s: Seq<char>, pos: int)
    requires
        0 <= pos <= s.len(),
    ensures
        cue_next(s, pos).1 is Some ==> pos < cue_next(s, pos).0 <= s.len(),
        0 <= cue_next(s, pos).0 <= s.len(),
    decreases s.len() - pos,
{
    if pos < s.len() {
        if s[pos] == '<' {
            lemma_find_in(s, pos + 1, s.len() as int, '>');
            let (p2, t) = read_tag(s, pos);
            if t is None && pos < p2 < s.len() {
                lemma_cue_next_advances(s, p2);
            }
        } else {
            lemma_find_in(s, pos, s.len() as int, '<');
        }
    }
}

/// Bounds of `find_in`.
pub proof fn lemma_find_in(s: Seq<char>, i: int, hi: int, c: char)
    requires
        i <= hi,
    ensures
        i <= find_in(s, i, hi, c) <= hi,
        find_in(s, i, hi, c) < hi ==> s[find_in(s, i, hi, c)] == c,
    decreases hi - i,
{
    if i < hi && s[i] != c {
        lemma_find_in(s, i + 1, hi, c);
    }
}

/// Returns the first index in `i..hi` holding a space or a tab, or `hi`.
fn find_blank_at(v: &Vec<char>, i: usize, hi: usize) -> (j: usize)
    requires
        i <= hi <= v.len(),
    ensures
        j == find_blank(v@, i as int, hi as int),
        i <= j <= hi,
{
    let mut j = i;
    while j < hi && v[j] != ' ' && v[j] != '\t'
        invariant
            i <= j <= hi <= v.len(),
            find_blank(v@, i as int, hi as int) == find_blank(v@, j as int, hi as int),
        decreases hi - j,
    {
        j = j + 1;
    }
    j
}

/// Reads the token written between `<` and `>` as `v[ts..te]`, as `tag_token` says.
fn token_at<'a>(input: &'a str, v: &Vec<char>, ts: usize, te: usize) -> (r: Option<CueToken<'a>>)
    requires
        v@ == input@,
        ts <= te <= v.len(),
    ensures
        match r {
            Some(tok) => tag_token(v@, ts as int, te as int) == Some(token_view(tok)) && token_borrowed(tok),
            None => tag_token(v@, ts as int, te as int) is None,
        },
{
    if te <= ts {
        return None;
    }
    if v[ts] == '/' {
        let a = skip_ws_at(v, ts + 1, te);
        let b = trim_ws_end_at(v, a, te);
        return match tag_at(v, a, b) {
            Some(t) => Some(CueToken::EndTag(t)),
            None => None,
        };
    }
    if is_digit_char(v[ts]) {
        return match parse_timestamp(input.substring_char(ts, te)) {
            Ok(t) => Some(CueToken::Timestamp(t)),
            Err(_) => None,
        };
    }
    let sp = find_blank_at(v, ts, te);
    let annotation: Option<&'a str> = if sp < te {
        let a = skip_ws_at(v, sp + 1, te);
        let b = trim_ws_end_at(v, a, te);
        if a == b {
            None
        } else {
            Some(input.substring_char(a, b))
        }
    } else {
        None
    };
    let dot = find_in_at(v, ts, sp, '.');
    let classes: &'a str = if dot < sp {
        input.substring_char(dot + 1, sp)
    } else {
        input.substring_char(sp, sp)
    };
    assert(classes@ == (if dot < sp { v@.subrange(dot + 1, sp as int) } else { Seq::<char>::empty() }));
    match tag_at(v, ts, dot) {
        Some(tag) => Some(CueToken::StartTag { tag, classes, annotation }),
        None => None,
    }
}

/// A node of the cue text tree as plain values.
pub enum NodeV {
    /// A text node, as read.
    Text(Seq<char>),
    /// A timestamp node.
    Timestamp(TimestampV),
    /// A tag node: its name, classes, annotation and children.
    Tag(Tag, Seq<char>, Option<Seq<char>>, Seq<NodeV>),
}

/// A tag that has been opened and not yet closed, as plain values: its name, classes,
/// annotation and the children read so far.
pub type OpenV = (Tag, Seq<char>, Option<Seq<char>>, Seq<NodeV>);

/// The tree being built: the children of the root, and the tags still open (innermost last).
pub struct TreeV {
    /// The children of the root.
    pub root: Seq<NodeV>,
    /// The open tags, innermost last.
    pub stack: Seq<OpenV>,
}

/// The node an open tag becomes when it is closed.
pub open spec fn close_node(o: OpenV) -> NodeV {
    NodeV::Tag(o.0, o.1, o.2, o.3)
}

/// Adds a node to the innermost open tag, or to the root when no tag is open.
pub open spec fn add_node(t: TreeV, n: NodeV) -> TreeV {
    if t.stack.len() > 0 {
        let top = t.stack.last();
        TreeV { root: t.root, stack: t.stack.drop_last().push((top.0, top.1, top.2, top.3.push(n))) }
    } else {
        TreeV { root: t.root.push(n), stack: t.stack }
    }
}

/// The index of the innermost open tag among `stack[..i]` named `tag`, or -1.
pub open spec fn find_open(stack: Seq<OpenV>, tag: Tag, i: int) -> int
    decreases i,
{
    if i <= 0 {
        -1
    } else if stack[i - 1].0 == tag {
        i - 1
    } else {
        find_open(stack, tag, i - 1)
    }
}

/// Closes the open tags `stack[k..]`, innermost first, adding each to the tree `t`.
pub open spec fn close_from(t: TreeV, stack: Seq<OpenV>, k: int) -> TreeV
    decreases stack.len() - k,
{
    if k >= stack.len() || k < 0 {
        t
    } else {
        add_node(close_from(t, stack, k + 1), close_node(stack[k]))
    }
}

/// What an end tag named `tag` does: the innermost open tag of that name is closed, after
/// the tags opened inside it, which are closed and placed before it; without such a tag,
/// all open tags are closed into the root.
pub open spec fn end_tag(t: TreeV, tag: Tag) -> TreeV {
    let k = find_open(t.stack, tag, t.stack.len() as int);
    if k >= 0 {
        let base = TreeV { root: t.root, stack: t.stack.subrange(0, k) };
        add_node(close_from(base, t.stack, k + 1), close_node(t.stack[k]))
    } else {
        close_from(TreeV { root: t.root, stack: Seq::empty() }, t.stack, 0)
    }
}

/// What one token does to the tree being built.
pub open spec fn tree_step(t: TreeV, tok: TokenV) -> TreeV {
    match tok {
        TokenV::Text(x) => add_node(t, NodeV::Text(x)),
        TokenV::Timestamp(ts) => add_node(t, NodeV::Timestamp(ts)),
        TokenV::StartTag(tag, classes, ann) => TreeV { root: t.root, stack: t.stack.push((tag, classes, ann, Seq::empty())) },
        TokenV::EndTag(tag) => end_tag(t, tag),
    }
}

/// The tree after the tokens `toks[..i]`.
pub open spec fn tree_run(toks: Seq<TokenV>, i: int) -> TreeV
    decreases i,
{
    if i <= 0 {
        TreeV { root: Seq::empty(), stack: Seq::empty() }
    } else {
        tree_step(tree_run(toks, i - 1), toks[i - 1])
    }
}

/// Closes all the tags still open, innermost first, into their parents.
pub open spec fn close_all(t: TreeV) -> Seq<NodeV>
    decreases t.stack.len(),
{
    if t.stack.len() == 0 {
        t.root
    } else {
        close_all(add_node(TreeV { root: t.root, stack: t.stack.drop_last() }, close_node(t.stack.last())))
    }
}

/// The children of the root of the cue text tree of `s`.
pub open spec fn spec_cue_tree(s: Seq<char>) -> Seq<NodeV> {
    let toks = cue_tokens(s, 0);
    close_all(tree_run(toks, toks.len() as int))
}

/// A node in the cue text tree.
#[derive(Debug, PartialEq, Eq)]
pub enum Node<'a> {
    /// A text node.
    Text(CueStr<'a>),
    /// A timestamp node.
    Timestamp(Timestamp),
    /// A tag node with children.
    Tag(TagNode<'a>),
}

/// A tag node in the cue text tree.
#[derive(Debug, PartialEq, Eq)]
pub struct TagNode<'a> {
    /// The tag name.
    pub tag: Tag,
    /// Dot-separated class names, empty if none.
    pub classes: &'a str,
    /// Annotation text (for `<v>` and `<lang>`).
    pub annotation: Option<&'a str>,
    /// Child nodes.
    pub children: Vec<Node<'a>>,
}

impl<'a> TagNode<'a> {
    /// The tag name.
    pub fn tag(&self) -> (t: Tag)
        ensures
            t == self.tag,
    {
        self.tag
    }

    /// The dot-separated class names, empty if none.
    pub fn classes(&self) -> (c: &'a str)
        ensures
            c == self.classes,
    {
        self.classes
    }

    /// The annotation, if any.
    pub fn annotation(&self) -> (a: Option<&'a str>)
        ensures
            a == self.annotation,
    {
        self.annotation
    }

    /// The child nodes.
    pub fn children(&self) -> (c: &[Node<'a>])
        ensures
            c@ == self.children@,
    {
        self.children.as_slice()
    }
}

/// The plain values of an annotation.
pub open spec fn ann_view<'a>(a: Option<&'a str>) -> Option<Seq<char>> {
    match a {
        Some(x) => Some(x@),
        None => None,
    }
}

/// The plain values of a node.
pub open spec fn node_view<'a>(n: Node<'a>) -> NodeV
    decreases n, 0nat,
{
    match n {
        Node::Text(c) => NodeV::Text(c@),
        Node::Timestamp(t) => NodeV::Timestamp(t@),
        Node::Tag(tn) => NodeV::Tag(tn.tag, tn.classes@, ann_view(tn.annotation), nodes_view(tn.children@, tn.children@.len())),
    }
}

/// The plain values of the nodes `cs[..k]`.
pub open spec fn nodes_view<'a>(cs: Seq<Node<'a>>, k: nat) -> Seq<NodeV>
    decreases cs, k,
{
    if k == 0 || k > cs.len() {
        Seq::empty()
    } else {
        nodes_view(cs, (k - 1) as nat).push(node_view(cs[k - 1]))
    }
}

/// The plain values of all the nodes of `cs`.
pub open spec fn all_nodes_view<'a>(cs: Seq<Node<'a>>) -> Seq<NodeV> {
    nodes_view(cs, cs.len())
}

/// Every text node of `n`, at any depth, borrows its text from the cue.
pub open spec fn node_borrowed<'a>(n: Node<'a>) -> bool
    decreases n, 0nat,
{
    match n {
        Node::Text(c) => c is Borrowed,
        Node::Timestamp(_) => true,
        Node::Tag(tn) => nodes_borrowed(tn.children@, tn.children@.len()),
    }
}

/// Every text node of `cs[..k]`, at any depth, borrows its text from the cue.
pub open spec fn nodes_borrowed<'a>(cs: Seq<Node<'a>>, k: nat) -> bool
    decreases cs, k,
{
    if k == 0 || k > cs.len() {
        true
    } else {
        nodes_borrowed(cs, (k - 1) as nat) && node_borrowed(cs[k - 1])
    }
}

/// Every text node of `cs`, at any depth, borrows its text from the cue.
pub open spec fn all_borrowed<'a>(cs: Seq<Node<'a>>) -> bool {
    nodes_borrowed(cs, cs.len())
}

/// Every text node under the open tags of `st` borrows its text from the cue.
pub open spec fn stack_borrowed<'a>(st: Seq<TagNode<'a>>) -> bool {
    forall|i: int| 0 <= i < st.len() ==> all_borrowed(#[trigger] st[i].children@)
}

/// The first `k` nodes are borrowed alike when a node is appended.
proof fn lemma_nodes_borrowed_prefix<'a>(cs: Seq<Node<'a>>, n: Node<'a>, k: nat)
    requires
        k <= cs.len(),
    ensures
        nodes_borrowed(cs.push(n), k) == nodes_borrowed(cs, k),
    decreases k,
{
    if k > 0 {
        lemma_nodes_borrowed_prefix(cs, n, (k - 1) as nat);
        assert(cs.push(n)[k - 1] == cs[k - 1]);
    }
}

/// Appending a node whose text is borrowed to nodes whose text is borrowed.
proof fn lemma_nodes_borrowed_push<'a>(cs: Seq<Node<'a>>, n: Node<'a>)
    ensures
        all_borrowed(cs.push(n)) == (all_borrowed(cs) && node_borrowed(n)),
{
    lemma_nodes_borrowed_prefix(cs, n, cs.len());
    assert(cs.push(n)[cs.len() as int] == n);
}

/// The plain values of an open tag node.
pub open spec fn open_view<'a>(tn: TagNode<'a>) -> OpenV {
    (tn.tag, tn.classes@, ann_view(tn.annotation), all_nodes_view(tn.children@))
}

/// The plain values of a stack of open tag nodes.
pub open spec fn stack_view<'a>(st: Seq<TagNode<'a>>) -> Seq<OpenV> {
    st.map_values(|tn: TagNode<'a>| open_view(tn))
}

/// The plain values of a tree being built.
pub open spec fn tree_view<'a>(root: Seq<Node<'a>>, stack: Seq<TagNode<'a>>) -> TreeV {
    TreeV { root: all_nodes_view(root), stack: stack_view(stack) }
}

/// The first `k` node values do not change when a node is appended.
proof fn lemma_nodes_view_prefix<'a>(cs: Seq<Node<'a>>, n: Node<'a>, k: nat)
    requires
        k <= cs.len(),
    ensures
        nodes_view(cs.push(n), k) == nodes_view(cs, k),
    decreases k,
{
    if k > 0 {
        lemma_nodes_view_prefix(cs, n, (k - 1) as nat);
        assert(cs.push(n)[k - 1] == cs[k - 1]);
    }
}

/// Appending a node appends its value.
proof fn lemma_nodes_view_push<'a>(cs: Seq<Node<'a>>, n: Node<'a>)
    ensures
        all_nodes_view(cs.push(n)) == all_nodes_view(cs).push(node_view(n)),
{
    lemma_nodes_view_prefix(cs, n, cs.len());
    assert(cs.push(n)[cs.len() as int] == n);
}

/// A closed tag node has the value of its open tag, closed.
proof fn lemma_close_view<'a>(tn: TagNode<'a>)
    ensures
        node_view(Node::Tag(tn)) == close_node(open_view(tn)),
{
}

/// Adds a node to the innermost open tag, or to the root.
fn add_to<'a>(root: &mut Vec<Node<'a>>, stack: &mut Vec<TagNode<'a>>, n: Node<'a>)
    ensures
        tree_view(final(root)@, final(stack)@) == add_node(tree_view(old(root)@, old(stack)@), node_view(n)),
        all_borrowed(old(root)@) && stack_borrowed(old(stack)@) && node_borrowed(n) ==> all_borrowed(final(root)@)
            && stack_borrowed(final(stack)@),
{
    let ghost st0 = old(stack)@;
    if stack.len() > 0 {
        let mut top = stack.pop().unwrap();
        let ghost c0 = top.children@;
        top.children.push(n);
        proof {
            lemma_nodes_view_push(c0, n);
            lemma_nodes_borrowed_push(c0, n);
            assert(c0 == st0[st0.len() - 1].children@);
        }
        stack.push(top);
        proof {
            assert(st0.drop_last() =~= st0.subrange(0, st0.len() - 1));
            assert(stack_view(stack@) =~= stack_view(st0).drop_last().push(open_view(top)));
            if stack_borrowed(st0) && node_borrowed(n) {
                assert forall|i: int| 0 <= i < stack@.len() implies all_borrowed(#[trigger] stack@[i].children@) by {
                    if i < stack@.len() - 1 {
                        assert(stack@[i] == st0[i]);
                    }
                }
            }
        }
    } else {
        let ghost r0 = root@;
        root.push(n);
        proof {
            lemma_nodes_view_push(r0, n);
            lemma_nodes_borrowed_push(r0, n);
        }
    }
}

/// Open tags with names other than `tag` do not change where the innermost `tag` is found.
proof fn lemma_find_open_skip(sv: Seq<OpenV>, tag: Tag, a: int, b: int)
    requires
        0 <= a <= b <= sv.len(),
        forall|j: int| a <= j < b ==> sv[j].0 != tag,
    ensures
        find_open(sv, tag, b) == find_open(sv, tag, a),
    decreases b - a,
{
    if b > a {
        lemma_find_open_skip(sv, tag, a, b - 1);
    }
}

/// Closes the innermost open tag named `tag`, as `end_tag` says.
fn close_tag<'a>(root: &mut Vec<Node<'a>>, stack: &mut Vec<TagNode<'a>>, tag: Tag)
    ensures
        tree_view(final(root)@, final(stack)@) == end_tag(tree_view(old(root)@, old(stack)@), tag),
        all_borrowed(old(root)@) && stack_borrowed(old(stack)@) ==> all_borrowed(final(root)@) && stack_borrowed(
            final(stack)@,
        ),
{
    let ghost b0 = all_borrowed(root@) && stack_borrowed(stack@);
    let ghost root0 = root@;
    let ghost st0 = stack@;
    let ghost sv0 = stack_view(st0);
    let ghost n = st0.len() as int;
    let ghost r0 = all_nodes_view(root@);
    let mut popped: Vec<TagNode<'a>> = Vec::new();
    let mut matched: Option<TagNode<'a>> = None;
    while matched.is_none() && stack.len() > 0
        invariant
            stack@.len() <= n,
            stack@ == st0.subrange(0, stack@.len() as int),
            all_nodes_view(root@) == r0,
            sv0 == stack_view(st0),
            n == st0.len(),
            matched is None ==> popped@ == st0.subrange(stack@.len() as int, n),
            matched is None ==> forall|j: int| stack@.len() <= j < n ==> sv0[j].0 != tag,
            matched matches Some(m) ==> stack@.len() < n && m == st0[stack@.len() as int] && m.tag == tag
                && popped@ == st0.subrange(stack@.len() + 1int, n) && forall|j: int|
                stack@.len() + 1 <= j < n ==> sv0[j].0 != tag,
            root@ == root0,
            b0 == (all_borrowed(root0) && stack_borrowed(st0)),
        decreases stack@.len() + (if matched is None { 1int } else { 0int }),
    {
        let ghost before = stack@;
        let node = stack.pop().unwrap();
        proof {
            assert(node == st0[stack@.len() as int]);
            assert(stack@ =~= st0.subrange(0, stack@.len() as int));
        }
        if node.tag == tag {
            matched = Some(node);
        } else {
            popped.insert(0, node);
            proof {
                assert(popped@ =~= st0.subrange(stack@.len() as int, n));
            }
        }
    }
    let ghost m0 = stack@.len() as int;
    let ghost start = if matched is Some { m0 + 1 } else { 0 };
    let ghost base = tree_view(root@, stack@);
    proof {
        assert(stack_view(stack@) =~= sv0.subrange(0, m0));
        if b0 {
            assert forall|i: int| 0 <= i < stack@.len() implies all_borrowed(#[trigger] stack@[i].children@) by {
                assert(stack@[i] == st0[i]);
            }
        }
        if matched is None {
            assert(m0 == 0);
            lemma_find_open_skip(sv0, tag, 0, n);
        } else {
            lemma_find_open_skip(sv0, tag, m0 + 1, n);
        }
    }
    while popped.len() > 0
        invariant
            n == st0.len(),
            sv0 == stack_view(st0),
            0 <= start,
            start + popped@.len() <= n,
            popped@ == st0.subrange(start, start + popped@.len()),
            tree_view(root@, stack@) == close_from(base, sv0, start + popped@.len()),
            b0 == (all_borrowed(root0) && stack_borrowed(st0)),
            b0 ==> all_borrowed(root@) && stack_borrowed(stack@),
        decreases popped@.len(),
    {
        let ghost l = popped@.len() as int;
        let p = popped.pop().unwrap();
        proof {
            assert(p == st0[start + l - 1]);
            assert(popped@ =~= st0.subrange(start, start + popped@.len()));
            lemma_close_view(p);
            if b0 {
                assert(all_borrowed(st0[start + l - 1].children@));
            }
        }
        add_to(root, stack, Node::Tag(p));
    }
    let ghost t0 = TreeV { root: r0, stack: sv0 };
    if let Some(node) = matched {
        proof {
            lemma_close_view(node);
            assert(sv0[m0] == open_view(node));
            if b0 {
                assert(all_borrowed(st0[m0].children@));
            }
            assert(find_open(sv0, tag, m0 + 1) == m0);
            assert(base == TreeV { root: r0, stack: sv0.subrange(0, m0) });
        }
        add_to(root, stack, Node::Tag(node));
        proof {
            assert(end_tag(t0, tag) == add_node(close_from(base, sv0, m0 + 1), close_node(sv0[m0])));
        }
    } else {
        proof {
            assert(find_open(sv0, tag, 0) == -1);
            assert(m0 == 0);
            assert(base.stack =~= Seq::<OpenV>::empty());
            assert(base == TreeV { root: r0, stack: Seq::<OpenV>::empty() });
            assert(end_tag(t0, tag) == close_from(base, sv0, 0));
        }
    }
}

/// Applies one token to the tree being built, as `tree_step` says.
fn tree_token<'a>(root: &mut Vec<Node<'a>>, stack: &mut Vec<TagNode<'a>>, tok: CueToken<'a>)
    ensures
        tree_view(final(root)@, final(stack)@) == tree_step(tree_view(old(root)@, old(stack)@), token_view(tok)),
        all_borrowed(old(root)@) && stack_borrowed(old(stack)@) && token_borrowed(tok) ==> all_borrowed(final(root)@)
            && stack_borrowed(final(stack)@),
{
    match tok {
        CueToken::Text(x) => add_to(root, stack, Node::Text(x)),
        CueToken::Timestamp(ts) => add_to(root, stack, Node::Timestamp(ts)),
        CueToken::StartTag { tag, classes, annotation } => {
            let ghost st0 = stack@;
            let tn = TagNode { tag, classes, annotation, children: Vec::new() };
            proof {
                assert(all_nodes_view(tn.children@) =~= Seq::<NodeV>::empty());
            }
            stack.push(tn);
            proof {
                assert(stack_view(stack@) =~= stack_view(st0).push(open_view(tn)));
                if stack_borrowed(st0) {
                    assert forall|i: int| 0 <= i < stack@.len() implies all_borrowed(#[trigger] stack@[i].children@) by {
                        if i < st0.len() {
                            assert(stack@[i] == st0[i]);
                        }
                    }
                }
            }
        },
        CueToken::EndTag(tag) => close_tag(root, stack, tag),
    }
}

/// A parsed WebVTT cue text tree.
#[derive(Debug, PartialEq, Eq)]
pub struct CueText<'a> {
    children: Vec<Node<'a>>,
}

impl<'a> View for CueText<'a> {
    type V = Seq<NodeV>;

    closed spec fn view(&self) -> Seq<NodeV> {
        all_nodes_view(self.children@)
    }
}

impl<'a> CueText<'a> {
    /// Every text node of the tree, at any depth, borrows its text from the cue.
    #[verifier::type_invariant]
    closed spec fn wf(&self) -> bool {
        all_borrowed(self.children@)
    }

    /// Every text node of the tree, at any depth, borrows its text from the cue.
    pub closed spec fn text_borrowed(&self) -> bool {
        all_borrowed(self.children@)
    }

    /// Parse raw cue text into a tree: text and timestamps go into the innermost open
    /// tag; an end tag closes the innermost open tag of its name, after the tags opened
    /// inside it; tags left open at the end are closed.
    pub fn parse(input: &'a str) -> (t: Self)
        ensures
            t@ == spec_cue_tree(input@),
            t.text_borrowed(),
    {
        let mut toks = CueParser::new(input).tokens();
        let ghost all = toks@.map_values(|t: CueToken<'a>| token_view(t));
        let ghost len = toks@.len() as int;
        let mut rev: Vec<CueToken<'a>> = Vec::new();
        while toks.len() > 0
            invariant
                len == toks@.len() + rev@.len(),
                forall|j: int| 0 <= j < toks@.len() ==> token_borrowed(#[trigger] toks@[j]),
                forall|j: int| 0 <= j < rev@.len() ==> token_borrowed(#[trigger] rev@[j]),
                forall|j: int| 0 <= j < toks@.len() ==> token_view(#[trigger] toks@[j]) == all[j],
                forall|j: int| 0 <= j < rev@.len() ==> token_view(#[trigger] rev@[j]) == all[len - 1 - j],
                all.len() == len,
            decreases toks@.len(),
        {
            let ghost t0 = toks@;
            let t = toks.pop().unwrap();
            proof {
                assert(t == t0[t0.len() - 1]);
            }
            rev.push(t);
        }
        let mut root: Vec<Node<'a>> = Vec::new();
        let mut stack: Vec<TagNode<'a>> = Vec::new();
        proof {
            assert(tree_view(root@, stack@) == tree_run(all, 0)) by {
                assert(all_nodes_view(root@) =~= Seq::<NodeV>::empty());
                assert(stack_view(stack@) =~= Seq::<OpenV>::empty());
            }
        }
        while rev.len() > 0
            invariant
                rev@.len() <= len,
                all.len() == len,
                forall|j: int| 0 <= j < rev@.len() ==> token_view(#[trigger] rev@[j]) == all[len - 1 - j],
                forall|j: int| 0 <= j < rev@.len() ==> token_borrowed(#[trigger] rev@[j]),
                tree_view(root@, stack@) == tree_run(all, len - rev@.len()),
                all_borrowed(root@),
                stack_borrowed(stack@),
            decreases rev@.len(),
        {
            let ghost i = len - rev@.len();
            let ghost r0 = rev@;
            let t = rev.pop().unwrap();
            proof {
                assert(t == r0[r0.len() - 1]);
            }
            proof {
                assert(token_view(t) == all[i]);
                assert(token_borrowed(t));
            }
            tree_token(&mut root, &mut stack, t);
        }
        while stack.len() > 0
            invariant
                close_all(tree_view(root@, stack@)) == close_all(tree_run(all, len)),
                all_borrowed(root@),
                stack_borrowed(stack@),
            decreases stack@.len(),
        {
            let ghost st = stack@;
            let node = stack.pop().unwrap();
            proof {
                lemma_close_view(node);
                assert(stack_view(stack@) =~= stack_view(st).drop_last());
                assert(node == st[st.len() - 1]);
                assert forall|i: int| 0 <= i < stack@.len() implies all_borrowed(#[trigger] stack@[i].children@) by {
                    assert(stack@[i] == st[i]);
                }
            }
            add_to(&mut root, &mut stack, Node::Tag(node));
        }
        proof {
            assert(all == cue_tokens(input@, 0));
        }
        CueText { children: root }
    }

    /// Returns the root children of the tree.
    pub fn children(&self) -> (c: &[Node<'a>])
        ensures
            all_nodes_view(c@) == self@,
            all_borrowed(c@),
    {
        proof {
            use_type_invariant(self);
        }
        self.children.as_slice()
    }
}

/// Normalizing from `i` on changes nothing where no `&` or NUL character follows.
proof fn lemma_normalize_plain(s: Seq<char>, i: int)
    requires
        0 <= i <= s.len(),
        forall|k: int| i <= k < s.len() ==> #[trigger] s[k] != '&' && s[k] != '\0',
    ensures
        normalize_from(s, i) == s.subrange(i, s.len() as int),
    decreases s.len() - i,
{
    if i < s.len() {
        lemma_normalize_plain(s, i + 1);
        assert(seq![s[i]] + s.subrange(i + 1, s.len() as int) =~= s.subrange(i, s.len() as int));
    } else {
        assert(s.subrange(i, s.len() as int) =~= Seq::<char>::empty());
    }
}

/// Text that holds no entity reference and no NUL character is its own normalized form.
pub proof fn law_normalize_plain(s: Seq<char>)
    requires
        !needs_normalization(s),
    ensures
        normalize_text(s) == s,
{
    assert forall|k: int| 0 <= k < s.len() implies #[trigger] s[k] != '&' && s[k] != '\0' by {
        if s[k] == '&' || s[k] == '\0' {
            assert(needs_normalization(s));
        }
    }
    lemma_normalize_plain(s, 0);
    assert(s.subrange(0, s.len() as int) =~= s);
}

/// Cue text without `<` is one text token holding all of it (none when it is empty).
pub proof fn law_plain_text_tokens(s: Seq<char>)
    requires
        forall|k: int| 0 <= k < s.len() ==> #[trigger] s[k] != '<',
    ensures
        cue_tokens(s, 0) == (if s.len() == 0 {
            Seq::<TokenV>::empty()
        } else {
            seq![TokenV::Text(s)]
        }),
{
    if s.len() > 0 {
        lemma_find_in(s, 0, s.len() as int, '<');
        assert(find_in(s, 0, s.len() as int, '<') == s.len());
        assert(s.subrange(0, s.len() as int) =~= s);
        assert(cue_next(s, s.len() as int) == (s.len() as int, None::<TokenV>));
        assert(cue_tokens(s, s.len() as int) =~= Seq::<TokenV>::empty());
        assert(seq![TokenV::Text(s)] + Seq::<TokenV>::empty() =~= seq![TokenV::Text(s)]);
    }
}

} // verus!
