use vstd::prelude::*;

use crate::error::{ParseHourError, ParseMillisecondError, ParseMinuteError, ParseSecondError};

pub mod cue_laws;
pub mod cue_text;
pub mod laws;
pub mod setting_laws;
pub mod stream_laws;
mod parser;
mod scan;
mod settings;
mod timing;
mod types;
mod writer;

pub use parser::{
    block_view, blocks_view, item_view, parse, spec_parse_vtt, vtt_collect, vtt_next, vtt_start, vtt_step, BlockV,
    Parser, ParserV, VttState, VttStep,
};
pub use settings::spec_cue_settings;
pub use timing::{parse_timestamp, spec_parse_timestamp, spec_timing_line, vtt_ts_shape};
pub use types::CueHeader as Header;
pub use types::{
    align_text, line_align_text, no_settings, position_align_text, timestamp_text, vertical_text, Align, Block,
    Cue, CueHeader, CueHeaderV, CueId, CueSettings, CueSettingsV, Hour, Line, LineAlign, LineValue, Position,
    PositionAlign, RegionId, Size, Timestamp, TimestampV, Vertical,
};
pub use writer::{
    block_text, block_value, blocks_text, cue_text, settings_text, signature_text, TextBody, Writer, WriterV,
};

verus! {

/// The error type for parsing WebVTT files.
#[derive(Debug, Clone, PartialEq, Eq)]
pub enum ParseVttError {
    /// An error occurred while parsing the minute component of a timestamp.
    ParseMinute(ParseMinuteError),
    /// An error occurred while parsing the second component of a timestamp.
    ParseSecond(ParseSecondError),
    /// An error occurred while parsing the hour component of a timestamp.
    ParseHour(ParseHourError),
    /// An error occurred while parsing the millisecond component of a timestamp.
    ParseMillisecond(ParseMillisecondError),
    /// The file does not start with the required `WEBVTT` signature.
    MissingSignature,
    /// The character after `WEBVTT` is not a space, tab, or newline.
    InvalidSignature,
    /// A timestamp could not be parsed.
    InvalidTimestamp(&'static str),
    /// The timing line is malformed (missing `-->`).
    InvalidTimingLine,
    /// The end timestamp is missing after `-->`.
    UnclosedDuration,
    /// An unknown error occurred.
    Unknown(&'static str),
}

impl Default for ParseVttError {
    fn default() -> (e: Self)
        ensures
            e == ParseVttError::Unknown("unknown lexer error"),
    {
        ParseVttError::Unknown("unknown lexer error")
    }
}

} // verus!
