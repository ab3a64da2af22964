use fasrt::error::{
    ParseHourError, ParseIndexNumberError, ParseIntError, ParseMillisecondError, ParseMinuteError, ParseSecondError,
};
use fasrt::srt::{self, Options, ParseSrtError};
use fasrt::types::{Hour, Millisecond, Minute, NonZeroU64, Second};
use fasrt::vtt::cue_text::{CueParser, CueStr, CueText, CueToken, Node, Tag};
use fasrt::vtt::{
    self, Align, Block, Cue, CueId, CueSettings, Header, Line, LineAlign, LineValue, ParseVttError, Parser,
    Position, PositionAlign, RegionId, Size, Timestamp, Vertical, Writer,
};

fn vtt_blocks(input: &str) -> Result<Vec<Block<&str>>, ParseVttError> {
    vtt::parse(input)
}

fn settings_parts(
    st: Option<&CueSettings>,
) -> Option<(Option<Vertical>, Option<Line>, Option<Position>, Option<Size>, Option<Align>, Option<String>)> {
    st.map(|x| {
        (x.vertical(), x.line().cloned(), x.position().cloned(), x.size(), x.align(), x.region().map(|r| r.as_str().to_string()))
    })
}

fn vts(h: u32, m: u8, s: u8, ms: u16) -> Timestamp {
    Timestamp::from_hmsm(vtt::Hour::with(h), Minute::with(m), Second::with(s), Millisecond::with(ms))
}

// ── Units ───────────────────────────────────────────────────────────────────

#[test]
fn unit_text_is_padded() {
    assert_eq!(Minute::with(7).as_str(), "07");
    assert_eq!(Second::with(59).as_str(), "59");
    assert_eq!(Hour::with(5).as_str(), "05");
    assert_eq!(Hour::with(123).as_str(), "123");
    assert_eq!(Millisecond::with(4).as_str(), "004");
    assert_eq!(Millisecond::with(999).as_str(), "999");
}

#[test]
fn unit_text_reads_back() {
    for m in 0..60u8 {
        let t = Minute::with(m).as_str();
        assert_eq!(Minute::from_str(&t), Ok(Minute::with(m)));
        assert_eq!(Second::from_str(&t), Ok(Second::with(m)));
    }
    for h in [0u16, 9, 10, 99, 100, 999] {
        assert_eq!(Hour::from_str(&Hour::with(h).as_str()), Ok(Hour::with(h)));
    }
    for ms in [0u16, 1, 10, 100, 999] {
        assert_eq!(Millisecond::from_str(&Millisecond::with(ms).as_str()), Ok(Millisecond::with(ms)));
    }
}

#[test]
fn units_parse_through_from_str_trait() {
    assert_eq!("07".parse::<Minute>(), Ok(Minute::with(7)));
    assert_eq!("7".parse::<Minute>(), Err(ParseMinuteError::NotPadded));
    assert_eq!("59".parse::<Second>(), Ok(Second::with(59)));
    assert_eq!("123".parse::<Hour>(), Ok(Hour::with(123)));
    assert_eq!("042".parse::<Millisecond>(), Ok(Millisecond::with(42)));
}

#[test]
fn units_with_convert_back() {
    assert_eq!(u8::from(Minute::with(59)), 59);
    assert_eq!(u8::from(Second::with(0)), 0);
    assert_eq!(u16::from(Hour::with(999)), 999);
    assert_eq!(u16::from(Millisecond::with(7)), 7);
    assert_eq!(vtt::Hour::with(123_456).as_u32(), 123_456);
    assert_eq!(u32::from(vtt::Hour::with(4)), 4);
    assert!(Minute::try_with(60).is_none());
    assert!(Hour::try_with(1000).is_none());
}

#[test]
fn minute_errors() {
    assert_eq!(Minute::from_str("5"), Err(ParseMinuteError::NotPadded));
    assert_eq!(Minute::from_str("60"), Err(ParseMinuteError::Overflow(60)));
    assert_eq!(Minute::from_str("256"), Err(ParseMinuteError::ParseInt(ParseIntError::PosOverflow)));
    assert_eq!(Minute::from_str("ab"), Err(ParseMinuteError::ParseInt(ParseIntError::InvalidDigit)));
    assert_eq!(Minute::from_str(""), Err(ParseMinuteError::ParseInt(ParseIntError::Empty)));
}

#[test]
fn second_errors() {
    assert_eq!(Second::from_str("7"), Err(ParseSecondError::NotPadded));
    assert_eq!(Second::from_str("075"), Err(ParseSecondError::Overflow(75)));
    assert_eq!(Second::from_str("-"), Err(ParseSecondError::ParseInt(ParseIntError::InvalidDigit)));
}

#[test]
fn hour_errors() {
    assert_eq!(Hour::from_str("1"), Err(ParseHourError::NotPadded));
    assert_eq!(Hour::from_str("1000"), Err(ParseHourError::Overflow(1000)));
    assert_eq!(Hour::from_str("012"), Err(ParseHourError::Overflow(12)));
    assert_eq!(Hour::from_str("70000"), Err(ParseHourError::ParseInt(ParseIntError::PosOverflow)));
}

#[test]
fn millisecond_errors() {
    assert_eq!(Millisecond::from_str("12"), Err(ParseMillisecondError::NotPadded));
    assert_eq!(Millisecond::from_str("1000"), Err(ParseMillisecondError::Overflow(1000)));
    assert_eq!(Millisecond::from_str("1x0"), Err(ParseMillisecondError::ParseInt(ParseIntError::InvalidDigit)));
}

#[test]
fn try_with_bounds() {
    assert!(Minute::try_with(59).is_some());
    assert!(Minute::try_with(60).is_none());
    assert!(Hour::try_with(999).is_some());
    assert!(Hour::try_with(1000).is_none());
    assert!(Millisecond::try_with(1000).is_none());
    assert_eq!(NonZeroU64::new(0), None);
    assert_eq!(NonZeroU64::new(3).map(|n| n.get()), Some(3));
}

// ── SRT ─────────────────────────────────────────────────────────────────────

#[test]
fn srt_timestamp_encode_and_duration() {
    let t = srt::Timestamp::from_hmsm(Hour::with(101), Minute::with(2), Second::with(3), Millisecond::with(4));
    assert_eq!(t.encode(), "101:02:03,004");
    assert_eq!(t.encoded_len(), 13);
    assert_eq!(t.to_duration().as_millis(), 101 * 3_600_000 + 2 * 60_000 + 3_000 + 4);
}

#[test]
fn srt_header_encode_reads_back() {
    let start = srt::Timestamp::from_hmsm(Hour::with(0), Minute::with(1), Second::with(2), Millisecond::with(3));
    let end = srt::Timestamp::from_hmsm(Hour::with(0), Minute::with(4), Second::with(5), Millisecond::with(6));
    let h = srt::Header::new(start, end).with_index(NonZeroU64::new(42).unwrap());
    let text = format!("{}Body line", h.encode());
    assert_eq!(text, "42\n00:01:02,003 --> 00:04:05,006\nBody line");
    assert_eq!(h.encoded_len(), h.encode().chars().count());
    for o in [Options::strict(), Options::lossy()] {
        let entries = srt::parse_with_options(&text, o).unwrap();
        assert_eq!(entries.len(), 1);
        assert_eq!(entries[0].header(), h);
        assert_eq!(entries[0].body(), "Body line");
    }
    let text = format!("{}First line\nsecond\r\nthird", h.encode());
    for o in [Options::strict(), Options::lossy()] {
        let entries = srt::parse_with_options(&text, o).unwrap();
        assert_eq!(entries.len(), 1);
        assert_eq!(entries[0].header(), h);
        assert_eq!(entries[0].body(), "First line\nsecond\r\nthird");
    }
}

#[test]
fn srt_lossy_agrees_on_strict_input() {
    let text = "1\n00:00:01,000 --> 00:00:02,000\nA\n\n2\n00:00:03,000 --> 00:00:04,000\nB\n";
    assert_eq!(srt::parse(text), srt::parse_with_options(text, Options::lossy()));
}

#[test]
fn srt_lazy_parser_agrees_with_parse() {
    let inputs = [
        "1\n00:00:01,000 --> 00:00:02,000\nA\nB\n\n2\n00:00:03,000 --> 00:00:04,000\nC",
        "1\n00:00:01,000 --> 00:00:02,000\nA\n\n1\n00:00:03,000 --> 00:00:04,000\nB\n",
        "",
        "\n\n",
        "1\nnope\n",
    ];
    for text in inputs {
        for o in [Options::strict(), Options::lossy()] {
            let mut p = srt::Parser::with_options(text, o);
            let mut lazy: Vec<_> = Vec::new();
            let mut err = None;
            while let Some(r) = p.next() {
                match r {
                    Ok(e) => lazy.push(e),
                    Err(e) => {
                        err = Some(e);
                        break;
                    },
                }
            }
            let all = match err {
                Some(e) => Err(e),
                None => Ok(lazy),
            };
            assert_eq!(all, srt::parse_with_options(text, o));
        }
    }
}

#[test]
fn srt_parse_errors() {
    let repeated = "1\n00:00:01,000 --> 00:00:02,000\nA\n\n1\n00:00:03,000 --> 00:00:04,000\nB\n";
    assert_eq!(
        srt::parse_with_options(repeated, Options::strict()),
        Err(ParseSrtError::NonMonotonicIndex { last: 1, got: 1 })
    );
    let entries = srt::parse(repeated).unwrap();
    assert_eq!(entries.len(), 2);
    assert_eq!(entries[1].body(), "B");
    let backwards = "5\n00:00:01,000 --> 00:00:02,000\nA\n\n3\n00:00:03,000 --> 00:00:04,000\nB\n";
    assert_eq!(srt::parse(backwards).unwrap().len(), 2);
    assert_eq!(
        srt::parse("0\n00:00:01,000 --> 00:00:02,000\nA\n"),
        Err(ParseSrtError::ParseIndex(ParseIndexNumberError::Zero))
    );
    assert_eq!(
        srt::parse("123456789012345678901\n"),
        Err(ParseSrtError::ParseIndex(ParseIndexNumberError::Overflow))
    );
    assert_eq!(
        srt::parse("18446744073709551616\n"),
        Err(ParseSrtError::ParseIndex(ParseIndexNumberError::ParseInt(ParseIntError::PosOverflow)))
    );
    assert_eq!(srt::parse("1\nnope\n"), Err(ParseSrtError::Unknown("unknown lexer error")));
    assert!(matches!(srt::parse("1\n\n"), Err(ParseSrtError::ExpectedHeader(n)) if n.get() == 1));
    assert_eq!(
        srt::parse("00:00:01,000 --> 00:00:02,000\nA\n"),
        Err(ParseSrtError::Unknown("expected subtitle index number"))
    );
    assert_eq!(
        srt::parse("1\n00:60:01,000 --> 00:00:02,000\n"),
        Err(ParseSrtError::ParseIndex(ParseIndexNumberError::Zero))
    );
    assert_eq!(
        srt::parse("1\n0:00:01,000 --> 00:00:02,000\n"),
        Err(ParseSrtError::ParseHour(ParseHourError::NotPadded))
    );
    assert_eq!(ParseSrtError::default(), ParseSrtError::Unknown("unknown lexer error"));
}

#[test]
fn srt_parser_after_error_is_done() {
    let mut p = srt::Parser::strict("x\n1\n00:00:01,000 --> 00:00:02,000\nA\n");
    assert!(matches!(p.next(), Some(Err(_))));
    assert!(p.next().is_none());
    assert!(p.next().is_none());
}

// ── WebVTT ──────────────────────────────────────────────────────────────────

#[test]
fn vtt_timestamp_encode_reads_back() {
    for t in [vts(0, 2, 3, 4), vts(1, 2, 3, 4), vts(12345, 0, 0, 0), vts(0, 59, 59, 999)] {
        let text = t.encode();
        assert_eq!(text.chars().count(), t.encoded_len());
        assert_eq!(vtt::parse_timestamp(&text), Ok(t));
    }
    assert_eq!(vts(0, 2, 3, 4).encode(), "02:03.004");
    assert_eq!(vts(1, 2, 3, 4).encode(), "01:02:03.004");
    assert_eq!(vts(12345, 0, 0, 0).encode(), "12345:00:00.000");
}

#[test]
fn vtt_timestamp_duration() {
    let t = vts(1, 2, 3, 4);
    assert_eq!(t.to_duration().as_millis(), 3_723_004);
}

#[test]
fn vtt_parse_timestamp_errors() {
    assert_eq!(vtt::parse_timestamp("1:02.000"), Err(ParseVttError::InvalidTimestamp("malformed timestamp")));
    assert_eq!(vtt::parse_timestamp("00:60.000"), Err(ParseVttError::InvalidTimestamp("malformed timestamp")));
    assert_eq!(
        vtt::parse_timestamp("4294967296:00:00.000"),
        Err(ParseVttError::InvalidTimestamp("hours value too large"))
    );
    assert_eq!(vtt::parse_timestamp("4294967295:00:00.000").map(|t| t.hours().as_u32()), Ok(4294967295));
    assert_eq!(ParseVttError::default(), ParseVttError::Unknown("unknown lexer error"));
}

#[test]
fn vtt_signature_errors() {
    assert_eq!(vtt_blocks("WEBVTX\n"), Err(ParseVttError::MissingSignature));
    assert_eq!(vtt_blocks("WEBVTT-\n"), Err(ParseVttError::InvalidSignature));
    assert_eq!(vtt_blocks("\u{feff}\u{feff}WEBVTT\n"), Ok(vec![]));
}

#[test]
fn vtt_signature_refusal_is_the_only_error() {
    assert_eq!(vtt_blocks(""), Err(ParseVttError::MissingSignature));
    assert_eq!(vtt_blocks("WEBVTTX\n\n00:01.000 --> 00:02.000\na\n"), Err(ParseVttError::InvalidSignature));
    let mut p = Parser::new("WEBVTT\tgarbage\n\nnot a cue\n\n00:bad --> x\nb\n\n00:01.000 --> 00:02.000\nc\n");
    let mut n = 0;
    while let Some(r) = p.next() {
        assert!(r.is_ok());
        n += 1;
    }
    assert_eq!(n, 1);
}

fn within(outer: &str, inner: &str) -> bool {
    let o = outer.as_ptr() as usize;
    let i = inner.as_ptr() as usize;
    inner.is_empty() || (o <= i && i + inner.len() <= o + outer.len())
}

#[test]
fn vtt_blocks_borrow_and_keep_style_first() {
    let text = "WEBVTT\n\nSTYLE\n::cue {}\n\nNOTE n\n\n00:01.000 --> 00:02.000\nhi\n\nSTYLE\nlate\n\nREGION\nr\n";
    let blocks = vtt_blocks(text).unwrap();
    let mut seen_cue = false;
    for b in &blocks {
        match b {
            Block::Cue(c) => {
                seen_cue = true;
                assert!(within(text, c.body_ref()));
            },
            Block::Style(t) | Block::Region(t) => {
                assert!(!seen_cue);
                assert!(within(text, t));
            },
            Block::Note(t) => assert!(within(text, t)),
        }
    }
    assert!(seen_cue);
}

#[test]
fn srt_entries_borrow_and_have_indices() {
    let text = "1\n00:00:01,000 --> 00:00:02,000\nA\nB\n\n2\n00:00:03,000 --> 00:00:04,000\n\n";
    for e in srt::parse(text).unwrap() {
        assert!(e.header().index().is_some());
        assert!(within(text, e.body_ref()));
    }
    let entries = srt::parse(text).unwrap();
    let mut last_end = 0usize;
    for e in &entries {
        let b = *e.body_ref();
        if !b.is_empty() {
            let start = b.as_ptr() as usize - text.as_ptr() as usize;
            assert!(start >= last_end);
            assert!(!b.starts_with('\n') && !b.ends_with('\n'));
            last_end = start + b.len();
        }
    }
    let cr = "1\n00:00:01,000 --> 00:00:02,000\n\rX\r\r\n";
    assert_eq!(*srt::parse(cr).unwrap()[0].body_ref(), "\rX\r");
    let loose = "00:00:01,000 --> 00:00:02,000\nA\n";
    let entries = srt::parse_with_options(loose, Options::lossy()).unwrap();
    assert_eq!(entries.len(), 1);
    assert!(entries[0].header().index().is_none());
    assert!(within(loose, entries[0].body_ref()));
}

#[test]
fn identifiers_keep_how_they_were_made() {
    assert_ne!(CueId::from_static("a"), CueId::from_string("a".to_string()));
    assert_eq!(CueId::from_static("a").as_str(), CueId::from_string("a".to_string()).as_str());
    assert_ne!(RegionId::from_static("r"), RegionId::from_string("r".to_string()));
}

#[test]
fn cue_text_nodes_and_tokens_borrow() {
    let tree = CueText::parse("<b>hello</b> world");
    assert_eq!(tree.children().len(), 2);
    assert!(matches!(&tree.children()[1], Node::Text(CueStr::Borrowed(" world"))));
    let toks = CueParser::new("<b>bold</b>").tokens();
    assert!(matches!(&toks[1], CueToken::Text(CueStr::Borrowed("bold"))));
}

#[test]
fn vtt_parser_after_error_is_done() {
    let mut p = Parser::new("nothing");
    assert_eq!(p.next(), Some(Err(ParseVttError::MissingSignature)));
    assert_eq!(p.next(), None);
    assert_eq!(p.next(), None);
}

#[test]
fn vtt_broken_timing_skips_block() {
    let text = "WEBVTT\n\n00:00:01.000 --> 00:00:0x.000\nlost\n\n00:01.000 --> 00:02.000\nkept\n";
    let blocks = vtt_blocks(text).unwrap();
    assert_eq!(blocks.len(), 1);
    assert!(matches!(&blocks[0], Block::Cue(c) if *c.body_ref() == "kept"));
}

#[test]
fn vtt_arrow_in_body_starts_new_cue() {
    let text = "WEBVTT\n\n00:01.000 --> 00:02.000\nfirst\n00:03.000 --> 00:04.000\nsecond\n";
    let blocks = vtt_blocks(text).unwrap();
    assert_eq!(blocks.len(), 2);
    assert!(matches!(&blocks[1], Block::Cue(c) if *c.body_ref() == "second"));
}

#[test]
fn vtt_cr_line_endings() {
    let text = "WEBVTT\r\r00:01.000 --> 00:02.000\rone\rtwo\r";
    let blocks = vtt_blocks(text).unwrap();
    assert_eq!(blocks.len(), 1);
    assert!(matches!(&blocks[0], Block::Cue(c) if *c.body_ref() == "one\rtwo"));
}

#[test]
fn vtt_all_cue_settings() {
    let text = "WEBVTT\n\n00:01.000 --> 00:02.000 vertical:lr line:-3,end position:25%,line-right size:100% align:left region:r1\nx\n";
    let blocks = vtt_blocks(text).unwrap();
    let Block::Cue(cue) = &blocks[0] else { panic!("expected a cue") };
    let st = cue.header_ref().settings().unwrap();
    assert_eq!(st.vertical(), Some(Vertical::Lr));
    assert_eq!(st.line(), Some(&Line::with_alignment(LineValue::Number(-3), LineAlign::End)));
    assert_eq!(st.position(), Some(&Position::with_alignment(25, PositionAlign::LineRight)));
    assert_eq!(st.size(), Some(Size::new(100)));
    assert_eq!(st.align(), Some(Align::Left));
    assert_eq!(st.region().map(|r| r.as_str()), Some("r1"));
}

#[test]
fn vtt_cue_settings_edge_cases() {
    let text = "WEBVTT\n\n00:01.000 --> 00:02.000 size:101% line:+7 align:middle foo:bar position:5% vertical: align:end\nx\n";
    let blocks = vtt_blocks(text).unwrap();
    let Block::Cue(cue) = &blocks[0] else { panic!("expected a cue") };
    let st = cue.header_ref().settings().unwrap();
    assert_eq!(st.size(), None);
    assert_eq!(st.line(), Some(&Line::new(LineValue::Number(7))));
    assert_eq!(st.position(), Some(&Position::new(5)));
    assert_eq!(st.align(), None);
}

#[test]
fn vtt_write_settings_text() {
    let settings = CueSettings::default()
        .with_vertical(Vertical::Rl)
        .with_line(Line::with_alignment(LineValue::Number(-2), LineAlign::Center))
        .with_position(Position::with_alignment(30, PositionAlign::Auto))
        .with_size(Size::new(50))
        .with_align(Align::Right)
        .with_region(RegionId::from_static("fred"));
    let header = Header::new(vts(0, 0, 1, 0), vts(0, 0, 2, 0)).with_settings(settings);
    let mut w = Writer::new();
    w.write(&Block::Cue(Cue::new(header, "t")));
    assert_eq!(
        w.into_inner(),
        "WEBVTT\n\n00:01.000 --> 00:02.000 vertical:rl line:-2,center position:30%,auto size:50% align:right region:fred\nt\n"
    );
}

#[test]
fn vtt_write_then_read_blocks() {
    let blocks: Vec<Block<&str>> = vec![
        Block::Note("a note"),
        Block::Style("::cue { color: red; }"),
        Block::Region(""),
        Block::Cue(Cue::new(
            Header::new(vts(0, 0, 1, 0), vts(2, 0, 0, 5)).with_identifier(CueId::from_static("intro")),
            "Hello!",
        )),
        Block::Cue(Cue::new(Header::new(vts(0, 1, 0, 0), vts(0, 1, 1, 0)), "")),
        Block::Note(""),
        Block::Cue(Cue::new(
            Header::new(vts(0, 2, 0, 0), vts(0, 2, 1, 0)).with_settings(
                CueSettings::default()
                    .with_vertical(Vertical::Lr)
                    .with_line(Line::new(LineValue::Percentage(10)))
                    .with_position(Position::with_alignment(100, PositionAlign::LineLeft))
                    .with_size(Size::new(0))
                    .with_align(Align::Center)
                    .with_region(RegionId::from_static("r:1")),
            ),
            "first line\nsecond line",
        )),
        Block::Cue(Cue::new(
            Header::new(vts(0, 3, 0, 0), vts(0, 3, 1, 0))
                .with_settings(CueSettings::default().with_line(Line::new(LineValue::Number(-7)))),
            "one",
        )),
        Block::Note("two\nlines"),
    ];
    for header in [None, Some("Kind: captions --> here")] {
        let mut w = Writer::new();
        w.write_header(header);
        w.write_all(&blocks);
        let text = w.into_inner();
        check_blocks(&vtt_blocks(&text).unwrap(), &blocks);
    }
}

fn check_blocks(read: &[Block<&str>], blocks: &[Block<&str>]) {
    assert_eq!(read.len(), blocks.len());
    for (a, b) in read.iter().zip(blocks.iter()) {
        match (a, b) {
            (Block::Cue(x), Block::Cue(y)) => {
                assert_eq!(x.header_ref().start(), y.header_ref().start());
                assert_eq!(x.header_ref().end(), y.header_ref().end());
                assert_eq!(
                    x.header_ref().identifier().map(|i| i.as_str().to_string()),
                    y.header_ref().identifier().map(|i| i.as_str().to_string())
                );
                assert_eq!(settings_parts(x.header_ref().settings()), settings_parts(y.header_ref().settings()));
                assert_eq!(x.body_ref(), y.body_ref());
            },
            (Block::Note(x), Block::Note(y)) | (Block::Style(x), Block::Style(y)) | (Block::Region(x), Block::Region(y)) => {
                assert_eq!(x, y)
            },
            _ => panic!("block kinds differ"),
        }
    }
}

#[test]
fn vtt_write_header_once() {
    let mut w = Writer::new();
    w.write_header(Some("first"));
    w.write_header(Some("second"));
    w.write_header(Some(""));
    assert_eq!(w.into_inner(), "WEBVTT first\n");
    let mut w = Writer::new();
    w.write_header(Some(""));
    assert_eq!(w.into_inner(), "WEBVTT\n");
}

#[test]
fn vtt_ids_and_keywords() {
    assert_eq!(CueId::from_static("a").as_str(), "a");
    assert_eq!(CueId::from_string("b".to_string()).as_str(), "b");
    assert_eq!(RegionId::from_string("r".to_string()).as_str(), "r");
    assert_eq!(Vertical::Rl.as_str(), "rl");
    assert_eq!(LineAlign::Start.as_str(), "start");
    assert_eq!(PositionAlign::LineLeft.as_str(), "line-left");
    assert_eq!(Align::Center.as_str(), "center");
    assert_eq!(u32::from(vtt::Hour::from(7u32)), 7);
}

// ── Cue text ────────────────────────────────────────────────────────────────

#[test]
fn cue_text_plain_is_one_token() {
    assert_eq!(CueParser::new("just words").tokens(), vec![CueToken::Text(CueStr::borrowed("just words"))]);
    assert!(CueParser::new("").tokens().is_empty());
}

#[test]
fn cue_text_normalize_plain_is_identity() {
    let s = CueStr::borrowed("nothing to decode; <tag>");
    assert!(!s.requires_normalization());
    assert_eq!(s.normalize(), s.as_str());
}

#[test]
fn cue_text_entities() {
    let s = CueStr::borrowed("&amp;&lt;&gt;&lrm;&rlm;&nbsp;&amp&x;\0");
    assert_eq!(s.normalize(), "&<>\u{200E}\u{200F}\u{00A0}&amp&x;\u{FFFD}");
}

#[test]
fn cue_text_tags() {
    let toks = CueParser::new("<c.a.b>x</ c ><v  Ann  Lee >y<00:01.500><bad>z<>").tokens();
    assert_eq!(
        toks,
        vec![
            CueToken::StartTag { tag: Tag::Class, classes: "a.b", annotation: None },
            CueToken::Text(CueStr::borrowed("x")),
            CueToken::EndTag(Tag::Class),
            CueToken::StartTag { tag: Tag::Voice, classes: "", annotation: Some("Ann  Lee") },
            CueToken::Text(CueStr::borrowed("y")),
            CueToken::Timestamp(vts(0, 0, 1, 500)),
            CueToken::Text(CueStr::borrowed("z")),
        ]
    );
    assert_eq!(Tag::from_str("ruby"), Some(Tag::Ruby));
    assert_eq!(Tag::from_str("span"), None);
    assert_eq!(Tag::Lang.as_str(), "lang");
}

#[test]
fn cue_text_tree_misnested() {
    let tree = CueText::parse("<b><i>x</b>y");
    let kids = tree.children();
    assert_eq!(kids.len(), 3);
    match &kids[0] {
        Node::Tag(t) => {
            assert_eq!(t.tag(), Tag::Italic);
            assert_eq!(t.children().len(), 1);
        },
        _ => panic!("expected tag"),
    }
    match &kids[1] {
        Node::Tag(t) => {
            assert_eq!(t.tag(), Tag::Bold);
            assert_eq!(t.children().len(), 0);
        },
        _ => panic!("expected tag"),
    }
    assert!(matches!(&kids[2], Node::Text(t) if t.as_str() == "y"));
}
