use vstd::prelude::*;

use crate::types::Entry;

verus! {

/// A timestamp in an SRT file (the same type as `crate::srt::Timestamp`).
pub type SrtTimestamp = crate::srt::Timestamp;

/// The header of an SRT entry (the same type as `crate::srt::Header`).
pub type SrtHeader = crate::srt::Header;

/// A single subtitle entry in an SRT file.
pub type SrtEntry<T> = Entry<SrtHeader, T>;

} // verus!
