# fasrt

Parsing and writing of SRT and WebVTT subtitles, with every function of the
library proved by Verus against a contract.

- `src/types/` — the time units (`Hour`, `Minute`, `Second`, `Millisecond`),
  index numbers and subtitle entries.
- `src/srt.rs`, `src/srt/` — the SRT reader (all at once with `parse`, or entry by
  entry with `Parser`), its options, timestamps and headers, and the laws that
  relate them (`lazy_laws.rs`: the lazy reader agrees with `parse`, and every entry
  read has an index number and a body that is a stretch of the input without blank lines).
- `src/vtt.rs`, `src/vtt/` — the WebVTT reader (`Parser`, `parse`), timing lines
  and cue settings, the writer, cue text tokens and trees (`cue_text.rs`), and
  the laws: timestamps and written files read back (`laws.rs`,
  `setting_laws.rs`), and what any text reads as (`stream_laws.rs`: the signature is the
  only error, blocks are clean stretches of the input, no `STYLE` or `REGION` after a cue).
- `app/` — an `std::io::Write` adapter for the writer and error types that
  implement `Display` and `std::error::Error`.

Each reader is specified by a step function on plain values (`srt_step`,
`vtt_step`); the executable code is proved to follow it, and the laws are stated
over those step functions.
