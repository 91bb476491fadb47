//! Conversion of WebVTT subtitles to SubRip, with the parsing and
//! formatting rules proved against their specifications.

pub mod converters;
pub mod subtitle_rw_interface;
pub mod text;
