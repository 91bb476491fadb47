//! The subtitle format readers and writers.

pub mod subtitle_rw_implementation;
pub mod subtitle_rw_interface;
pub mod timing_line;
