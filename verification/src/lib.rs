//! Verified core of the MicroVid video re-encoder.
use vstd::prelude::*;

pub mod command;
pub mod commands;
pub mod cropdetect;
pub mod estimate;
pub mod history;
pub mod ffmpeg;
pub mod models;
pub mod naming;
pub mod machine;
pub mod path;
pub mod probe;
pub mod queue;
pub mod state;
pub mod subtitles;
pub mod testencode;
pub mod text;

verus! {
} // verus!
