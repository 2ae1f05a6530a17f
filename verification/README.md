# haste

Plays Source 2 demo files. The library in `src/` is verified with Verus; it does no input or output of
its own. `app/` reads files, decodes protobuf messages, and calls visitors, blocking or async.

How the library is laid out:

- `bitreader`, `cursor`: values of any number of bits, read from bytes; `varint`: variable-length
  integers, with their encoding.
- `demostream`, `demofile`: commands and their headers, streams of commands, and a demo file in memory.
- `snappy`: decompression, by the `snap` crate.
- `stringtables`, `instancebaseline`, `messages`, `context`: what is known of the game.
- `run`: which commands a run plays, passes over, or stops at.
- `playback`: a state machine from what is pending and what came of it to what is next. Whoever drives
  it performs each `Action` and reports an `Event`.
- `parser`, `streaming`: a stream, a visitor and a playback together; the scan for full packets.
- `coherence`: what holds of every playback. `likeness`: playbacks that get the same reports show the
  same. `performance`: whole runs, among it that the segments of a demo's full packets, where they get
  the same reports as the whole, show a visitor the same commands, messages, entities and ends of ticks
  as the demo played as a whole. `course`: where the stream is when a run has ended, and that a run
  that starts over does not depend on what was run before.

What the library takes on trust is marked `external_body`: calls into `snap`, `core::str::from_utf8`
and `str::parse`.
