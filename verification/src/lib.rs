//! Subtitle parsing and writing (SRT and WebVTT).
use vstd::prelude::*;

pub mod error;
pub mod srt;
pub mod text;
pub mod types;
pub mod utils;
pub mod vtt;
