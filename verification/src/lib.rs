//! Reading of Source 2 demo files: the bit-packed messages, the file's framing, and the decisions
//! that a player of such a file takes.

pub mod bitcode;
pub mod bitreader;
pub mod coherence;
pub mod context;
pub mod course;
pub mod cursor;
pub mod demofile;
pub mod demostream;
pub mod framing;
pub mod instancebaseline;
pub mod likeness;
pub mod messages;
pub mod outcomes;
pub mod parser;
pub mod performance;
pub mod playback;
pub mod run;
pub mod snappy;
pub mod streaming;
pub mod stringtables;
pub mod varint;
pub mod verdicts;
