use vstd::prelude::*;

pub mod entry;
pub mod index;
pub mod srt;
pub mod unit;

pub use entry::Entry;
pub use index::NonZeroU64;
pub use srt::{SrtEntry, SrtHeader, SrtTimestamp};
pub use unit::{Hour, Millisecond, Minute, Second};
