//! Conversion of time-synchronised lyrics between three text formats: ASS
//! with karaoke tags, QRC and LYS.
//!
//! The conversions work on the lines of a file and give the lines of
//! another; reading and writing files is left to the caller. What a
//! conversion gives is stated over the matches that the regular expressions
//! of [`matcher`] find in a line; everything behind the matching is verified.
//!
//! - [`time`] is the time codec and the rounding of durations.
//! - [`matcher`] holds the patterns and the calls into the `regex` crate.
//! - [`dialogue`] reads a dialogue line of ASS as a record.
//! - [`role`] sorts role tags and infers the LYS property of a line.
//! - [`metadata`] reads metadata comments.
//! - [`emit`] writes a record as a line of QRC or LYS.
//! - [`rebuild`] reconstructs karaoke text from timed words.
//! - [`ass_reader`] reads the events of a file of ASS.
//! - [`convert`] holds the four conversions.
//! - [`round_trip`] shows that a line without silences comes back as it went.
//! - [`lrc`] writes translations and romanisation as lines of LRC.
//! - [`cli`] decides what a command line asks for.
//! - [`text`], [`number`] and [`error`] serve the others.

pub mod ass_reader;
pub mod cli;
pub mod convert;
pub mod dialogue;
pub mod emit;
pub mod error;
pub mod lrc;
pub mod matcher;
pub mod metadata;
pub mod number;
pub mod rebuild;
pub mod role;
pub mod round_trip;
pub mod text;
pub mod time;
