# subtitle_converter

Converts WebVTT subtitles to SubRip.

- `src/text.rs`: splitting, joining and trimming of text, with the laws
  that tie splitting and joining together.
- `src/converters/subtitle_rw_interface.rs`: the intermediate subtitle
  (`xx:xx:xx.xx` time stamps), its construction and the errors of reading.
- `src/converters/timing_line.rs`: recognition of WebVTT time stamp lines,
  `\d{2}:\d{2}:\d{2}.\d{3} --> \d{2}:\d{2}:\d{2}.\d{3}` anywhere in a line.
- `src/converters/subtitle_rw_implementation.rs`: the WebVTT reader, as a
  state machine fed one line at a time, and the SubRip record writer.
- `src/subtitle_rw_interface.rs`: the first form of the subtitle type, which
  also bounds the text to 80 bytes.
- `app/main.rs`: the command line program: opens the files, reads lines,
  writes records.
