use std::rc::Rc;

use subtitle_converter::converters::subtitle_rw_implementation::{
    collect_timestamps, subtitle_from_cue, ReadStep, SubRipWriter, WebVttReader,
};
use subtitle_converter::converters::timing_line::is_time_stamp_line;
use subtitle_converter::converters::subtitle_rw_interface::{
    valid_time_format, SubReadError, SubTitle, SubTitleError,
};

fn sub(start: &str, end: &str, text: &str) -> SubTitle {
    SubTitle {
        start: Rc::new(start.to_string()),
        end: Rc::new(end.to_string()),
        text: Rc::new(text.to_string()),
    }
}

fn message(r: Result<SubTitle, SubReadError>) -> String {
    match r {
        Err(SubReadError::SubTitleError(m)) => m,
        other => panic!("expected a subtitle error, got {:?}", other),
    }
}

fn lines(ls: &[&str]) -> Vec<String> {
    ls.iter().map(|l| l.to_string()).collect()
}

/// Drives a reader over `input`'s lines as `BufRead::read_line` gives them.
fn read_all(input: &str) -> Vec<Result<SubTitle, SubReadError>> {
    let mut chunks: Vec<String> = input.split_inclusive('\n').map(|l| l.to_string()).collect();
    chunks.reverse();
    let mut reader = WebVttReader::new();
    let mut results = Vec::new();
    for _ in 0..10 {
        let mut step = reader.begin_read();
        loop {
            match step {
                ReadStep::ReadLine => {
                    let line = chunks.pop().unwrap_or_default();
                    let n = line.len();
                    step = reader.line_read(line, n);
                }
                ReadStep::Done(r) => {
                    results.push(r);
                    break;
                }
            }
        }
    }
    results
}

#[test]
fn valid_time_format_accepts_only_two_digit_fields() {
    assert!(valid_time_format("00:00:01.00"));
    assert!(valid_time_format("99:59:59.99"));
    assert!(!valid_time_format("00:00:01.000"));
    assert!(!valid_time_format("0:00:01.00"));
    assert!(!valid_time_format("00:00:01,00"));
    assert!(!valid_time_format("00:00:01.0a"));
    assert!(!valid_time_format("00:00:00:01.00"));
    assert!(!valid_time_format("00:00:01.00.00"));
    assert!(!valid_time_format("٠١:00:01.00"));
    assert!(!valid_time_format(""));
}

#[test]
fn new_from_strs_builds_the_subtitle() {
    let s = SubTitle::new_from_strs("00:00:01.00", "00:00:04.50", "Hello there").unwrap();
    assert_eq!(*s.start, "00:00:01.00");
    assert_eq!(*s.end, "00:00:04.50");
    assert_eq!(*s.text, "Hello there");
    let long = "x".repeat(200);
    assert!(SubTitle::new_from_strs("00:00:01.00", "00:00:04.50", &long).is_ok());
}

#[test]
fn new_from_strs_reports_the_start_first() {
    match SubTitle::new_from_strs("0:00:01.00", "bad", "t") {
        Err(SubTitleError::Start(m)) => assert_eq!(m, "Start has invalid time format: 0:00:01.00"),
        other => panic!("unexpected {:?}", other),
    }
}

#[test]
fn new_from_strs_reports_the_end() {
    match SubTitle::new_from_strs("00:00:01.00", "00:00:04", "t") {
        Err(SubTitleError::End(m)) => assert_eq!(m, "End has invalid time format: 00:00:04"),
        other => panic!("unexpected {:?}", other),
    }
}

#[test]
fn split_time_stamp_gives_the_fields() {
    let stamp = Rc::new("01:02:03.45".to_string());
    assert_eq!(SubTitle::split_time_stamp(&stamp), vec!["01", "02", "03", "45"]);
    let loose = Rc::new("1:2:3".to_string());
    assert_eq!(SubTitle::split_time_stamp(&loose), vec!["1", "2", "3"]);
    let more = Rc::new("a:b:c.d.e:f".to_string());
    assert_eq!(SubTitle::split_time_stamp(&more), vec!["a", "b", "c", "d", "e"]);
}

#[test]
fn collect_timestamps_drops_the_last_millisecond_digit() {
    let got = collect_timestamps("00:00:01.000 --> 00:00:04.000\n").unwrap();
    assert_eq!(got, vec!["00:00:01.00".to_string(), "00:00:04.00".to_string()]);
}

#[test]
fn collect_timestamps_ignores_settings_after_the_stamps() {
    let got = collect_timestamps("00:00:01.000 --> 00:00:02.500 align:start").unwrap();
    assert_eq!(got, vec!["00:00:01.00".to_string(), "00:00:02.50".to_string()]);
    let got = collect_timestamps("00:00:01.000 --> 00:00:04.000 align:start line:0\n").unwrap();
    assert_eq!(got, vec!["00:00:01.00", "00:00:04.00"]);
}

#[test]
fn collect_timestamps_compares_lengths_bitwise() {
    // 11 & 12 == 8
    assert!(collect_timestamps("00:00:01.00 --> 00:00:04.000").is_none());
    // 12 & 14 == 12: a longer end piece still passes
    let got = collect_timestamps("00:00:01.000 --> 00:00:04.000\r\n").unwrap();
    assert_eq!(got, vec!["00:00:01.00", "00:00:04.00"]);
    // 12 & 12 == 12
    let got = collect_timestamps("00:00:01.000 --> 00:00:04.000").unwrap();
    assert_eq!(got, vec!["00:00:01.00", "00:00:04.00"]);
}

#[test]
fn subtitle_from_cue_joins_text_lines_with_spaces() {
    let cue = lines(&["00:00:01.000 --> 00:00:04.000\n", "Hello\n", "world\n"]);
    let (r, valid) = subtitle_from_cue(&cue);
    let s = r.unwrap();
    assert!(valid);
    assert_eq!(*s.start, "00:00:01.00");
    assert_eq!(*s.end, "00:00:04.00");
    assert_eq!(*s.text, "Hello\n world\n");
}

#[test]
fn subtitle_from_cue_without_pattern_fails() {
    let cue = lines(&["Hello\n", "world\n"]);
    let (r, valid) = subtitle_from_cue(&cue);
    assert_eq!(message(r), "Missing time stamp line");
    assert!(!valid);
}

#[test]
fn subtitle_from_cue_with_bad_lengths_fails() {
    // the pattern is found, but 16 & 12 == 0
    let cue = lines(&["xxxx00:00:01.000 --> 00:00:04.000"]);
    let (r, valid) = subtitle_from_cue(&cue);
    assert_eq!(message(r), "Could not collect time stamps");
    assert!(!valid);
}

#[test]
fn subtitle_from_cue_reports_a_bad_subtitle_and_goes_on() {
    let cue = lines(&["\u{661}\u{662}:00:01.000 --> 00:00:04.000\n", "x\n"]);
    let (r, valid) = subtitle_from_cue(&cue);
    assert_eq!(
        message(r),
        "Could not make subtitle from the dataStart(\"Start has invalid time format: \u{661}\u{662}:00:01.00\")"
    );
    assert!(valid);
}

#[test]
fn reader_reads_every_cue_then_stops() {
    let input = "WEBVTT\n\n00:00:01.000 --> 00:00:04.000\nHello\n\n\n00:00:05.500 --> 00:00:07.250\nOne\nTwo\n\n";
    let results = read_all(input);
    let first = results[0].as_ref().unwrap();
    assert_eq!(*first.start, "00:00:01.00");
    assert_eq!(*first.end, "00:00:04.00");
    assert_eq!(*first.text, "Hello\n");
    let second = results[1].as_ref().unwrap();
    assert_eq!(*second.start, "00:00:05.50");
    assert_eq!(*second.end, "00:00:07.25");
    assert_eq!(*second.text, "One\n Two\n");
    let mut rest = results.into_iter().skip(2);
    assert_eq!(message(rest.next().unwrap()), "There are no subtitles in this file");
    for r in rest {
        assert_eq!(message(r), "PreviousError");
    }
}

#[test]
fn reader_without_header_fails_for_good() {
    let results = read_all("NOT VTT\n\n00:00:01.000 --> 00:00:04.000\nHello\n\n");
    let mut it = results.into_iter();
    assert_eq!(message(it.next().unwrap()), "No file WEBVTT tag");
    for r in it {
        assert_eq!(message(r), "PreviousError");
    }
}

#[test]
fn reader_header_may_carry_whitespace() {
    let results = read_all("  WEBVTT \r\n\n00:00:01.000 --> 00:00:04.000\nHi\n\n");
    assert_eq!(*results[0].as_ref().unwrap().text, "Hi\n");
}

#[test]
fn reader_missing_time_stamp_line_fails_for_good() {
    let results = read_all("WEBVTT\n\nNOTE a comment\n\n00:00:01.000 --> 00:00:04.000\nHi\n\n");
    let mut it = results.into_iter();
    assert_eq!(message(it.next().unwrap()), "Missing time stamp line");
    for r in it {
        assert_eq!(message(r), "PreviousError");
    }
}

#[test]
fn reader_goes_on_after_a_bad_subtitle() {
    let input = "WEBVTT\n\n\u{661}\u{662}:00:01.000 --> 00:00:04.000\nBad\n\n00:00:05.000 --> 00:00:06.000\nGood\n\n";
    let results = read_all(input);
    assert!(message_of_ref(&results[0]).starts_with("Could not make subtitle from the data"));
    assert_eq!(*results[1].as_ref().unwrap().text, "Good\n");
}

fn message_of_ref(r: &Result<SubTitle, SubReadError>) -> String {
    match r {
        Err(SubReadError::SubTitleError(m)) => m.clone(),
        other => panic!("expected a subtitle error, got {:?}", other),
    }
}

#[test]
fn reader_set_file_starts_over() {
    let mut reader = WebVttReader::new();
    match reader.begin_read() {
        ReadStep::ReadLine => {}
        _ => panic!("the header is asked for first"),
    }
    match reader.line_read("nope\n".to_string(), 5) {
        ReadStep::Done(r) => assert_eq!(message(r), "No file WEBVTT tag"),
        _ => panic!("a bad header ends the read"),
    }
    reader.set_file();
    match reader.begin_read() {
        ReadStep::ReadLine => {}
        _ => panic!("a new file asks for its header"),
    }
}

#[test]
fn convert_to_subrip_writes_a_record() {
    let s = sub("00:00:01.00", "00:01:04.50", "Hello\n");
    let rec = SubRipWriter::convert_to_subrip(&s, 12);
    assert_eq!(rec, vec!["12", "00:00:01,00 --> 00:01:04,50", "Hello\n"]);
    let rec = SubRipWriter::convert_to_subrip(&s, -5);
    assert_eq!(rec[0], "-5");
}

#[test]
fn writer_numbers_records_from_one() {
    let mut w = SubRipWriter::new();
    assert_eq!(w.last_written(), 0);
    let s = sub("00:00:01.00", "00:00:02.00", "a");
    assert_eq!(w.next_record(&s)[0], "1");
    w.record_written();
    assert_eq!(w.next_record(&s)[0], "2");
    w.record_written();
    assert_eq!(w.last_written(), 2);
}

#[test]
fn writer_checks_time_stamps() {
    assert!(SubRipWriter::is_convertible(&sub("00:00:01.00", "00:00:02.00", "")));
    assert!(!SubRipWriter::is_convertible(&sub("00:00:01", "00:00:02.00", "")));
    assert!(!SubRipWriter::is_convertible(&sub("00:00:01.00", "00:02.00", "")));
}

#[test]
fn io_errors_convert_into_read_errors() {
    let e = std::io::Error::new(std::io::ErrorKind::Other, "boom");
    match SubReadError::from(e) {
        SubReadError::IoError(inner) => assert_eq!(inner.to_string(), "boom"),
        other => panic!("unexpected {:?}", other),
    }
}

#[test]
fn time_stamp_lines_are_recognised() {
    assert!(is_time_stamp_line("00:00:01.000 --> 00:00:04.000\n"));
    assert!(is_time_stamp_line("00:00:01.000 --> 00:00:04.000 align:start\n"));
    assert!(is_time_stamp_line("cue 00:00:01x000 --> 12:34:56.789"));
    assert!(is_time_stamp_line("\u{661}\u{662}:00:01.000 --> 00:00:04.000"));
    assert!(!is_time_stamp_line("Hello\n"));
    assert!(!is_time_stamp_line("00:00:01.000 -> 00:00:04.000"));
    assert!(!is_time_stamp_line("00:00:01.00 --> 00:00:04.000"));
    assert!(!is_time_stamp_line("00:00:01\n000 --> 00:00:04.000"));
    assert!(!is_time_stamp_line("0a:00:01.000 --> 00:00:04.000"));
    assert!(!is_time_stamp_line(""));
}

#[test]
fn reader_reads_cues_with_settings() {
    let results = read_all("WEBVTT\n\n00:00:01.000 --> 00:00:02.500 align:start\nHi\n\n");
    let s = results[0].as_ref().unwrap();
    assert_eq!(*s.start, "00:00:01.00");
    assert_eq!(*s.end, "00:00:02.50");
}

#[test]
fn writer_numbers_many_records_in_order() {
    let mut w = SubRipWriter::new();
    let s = sub("00:00:01.00", "00:00:02.00", "a");
    for k in 1..=50 {
        assert_eq!(w.next_record(&s)[0], k.to_string());
        if k % 3 != 0 {
            w.record_written();
        } else {
            // a write that failed leaves the count alone; the next one retries it
            assert_eq!(w.next_record(&s)[0], k.to_string());
            w.record_written();
        }
    }
    assert_eq!(w.last_written(), 50);
}

#[test]
fn record_numbers_in_decimal() {
    let s = sub("00:00:01.00", "00:00:02.00", "a");
    assert_eq!(SubRipWriter::convert_to_subrip(&s, 0)[0], "0");
    assert_eq!(SubRipWriter::convert_to_subrip(&s, 1090)[0], "1090");
    assert_eq!(SubRipWriter::convert_to_subrip(&s, i32::MAX)[0], i32::MAX.to_string());
    assert_eq!(SubRipWriter::convert_to_subrip(&s, i32::MIN)[0], i32::MIN.to_string());
}
