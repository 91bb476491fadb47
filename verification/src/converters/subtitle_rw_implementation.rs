//! The WebVTT reader and the SubRip writer. Time stamps in the
//! intermediate form are `xx:xx:xx.xx`.

use std::rc::Rc;
use vstd::prelude::*;
use vstd::string::*;
use crate::converters::subtitle_rw_interface::{
    is_decimal_digit, lemma_time_stamp_pieces, new_from_strs_spec, read_result_view, time_stamp_pieces,
    is_time_stamp, SubReadError, SubReadErrorView, SubTitle, SubTitleError, SubTitleErrorView,
    SubTitleView,
};
use crate::converters::timing_line::{
    is_time_stamp_line, stamp_at, stamp_digit, time_stamp_line, time_stamp_line_at,
};
use crate::text::{
    byte_len, concat_str, drop_last_char, is_white_space, join_with, lemma_split_join,
    lemma_split_two_seps, same_text, split_char, split_on, strings_view, trim, trim_end, trim_start,
    trim_str, without_last,
};

verus! {

/// The text that `format!("{:?}", e)` gives for a subtitle error.
pub uninterp spec fn subtitle_error_debug_text(e: SubTitleErrorView) -> Seq<char>;

/// Formats a subtitle error with its derived `Debug` (`format!("{:?}")`).
/// Claimed: the text is a function of the error alone; its shape (variant
/// name, escaped message) is not stated.
#[verifier::external_body]
fn debug_text(error: &SubTitleError) -> (res: String)
    ensures
        res@ == subtitle_error_debug_text(error@),
{
    format!("{:?}", error)
}

/// The character of a decimal digit.
pub open spec fn digit_char(d: int) -> char {
    (d + 48) as char
}

/// Decimal digits of `n`, most significant first, no leading zeros.
pub open spec fn nat_text(n: nat) -> Seq<char>
    decreases n,
{
    if n < 10 {
        seq![digit_char(n as int)]
    } else {
        nat_text(n / 10).push(digit_char((n % 10) as int))
    }
}

/// Decimal text of `n`, with a leading `-` when negative.
pub open spec fn int_text(n: int) -> Seq<char> {
    if n < 0 {
        seq!['-'] + nat_text((-n) as nat)
    } else {
        nat_text(n as nat)
    }
}

/// The value of a run of decimal digits, most significant first.
pub open spec fn digits_value(s: Seq<char>) -> int
    decreases s.len(),
{
    if s.len() == 0 {
        0
    } else {
        10 * digits_value(s.drop_last()) + (s.last() as int - 48)
    }
}

/// A decimal numeral of a natural number: at least one digit, digits only,
/// and no leading zero unless it is `0` itself.
pub open spec fn plain_numeral(s: Seq<char>) -> bool {
    &&& s.len() >= 1
    &&& forall|i: int| 0 <= i < s.len() ==> #[trigger] is_decimal_digit(s[i])
    &&& s[0] == '0' ==> s.len() == 1
}

/// A decimal numeral of an integer: a plain numeral, or `-` and a plain
/// numeral other than `0`.
pub open spec fn signed_numeral(s: Seq<char>) -> bool {
    if s.len() > 0 && s[0] == '-' {
        plain_numeral(s.drop_first()) && s.drop_first() != seq!['0']
    } else {
        plain_numeral(s)
    }
}

/// The value a signed numeral reads back as.
pub open spec fn numeral_value(s: Seq<char>) -> int {
    if s.len() > 0 && s[0] == '-' {
        -digits_value(s.drop_first())
    } else {
        digits_value(s)
    }
}

/// The decimal text of `n` is a numeral with no leading zero that reads
/// back, digit by digit, as `n`.
pub proof fn lemma_nat_text_numeral(n: nat)
    ensures
        plain_numeral(nat_text(n)),
        digits_value(nat_text(n)) == n,
        n > 0 ==> nat_text(n)[0] != '0',
    decreases n,
{
    let s = nat_text(n);
    if n < 10 {
        assert(s == seq![digit_char(n as int)]);
        assert(s.drop_last() =~= Seq::<char>::empty());
        assert((n + 48) as char as int == n + 48);
        assert(s[0] == digit_char(n as int));
        assert(digits_value(s) == 10 * digits_value(s.drop_last()) + (s.last() as int - 48));
        assert(digits_value(s.drop_last()) == 0);
    } else {
        let m = n / 10;
        lemma_nat_text_numeral(m);
        let t = nat_text(m);
        let d = digit_char((n % 10) as int);
        assert(s == t.push(d));
        assert(s.drop_last() =~= t);
        assert((n % 10 + 48) as char as int == n % 10 + 48);
        assert(s[0] == t[0]);
        assert forall|i: int| 0 <= i < s.len() implies #[trigger] is_decimal_digit(s[i]) by {
            if i < t.len() {
                assert(s[i] == t[i]);
                assert(is_decimal_digit(t[i]));
            }
        }
        assert(digits_value(s) == 10 * m + n % 10);
        assert(n == 10 * m + n % 10) by (nonlinear_arith)
            requires
                m == n / 10,
        ;
    }
}

/// The decimal text of an integer is a signed numeral that reads back as
/// the integer.
pub proof fn lemma_int_text_numeral(n: int)
    ensures
        signed_numeral(int_text(n)),
        numeral_value(int_text(n)) == n,
{
    if n < 0 {
        let m = (-n) as nat;
        lemma_nat_text_numeral(m);
        let s = int_text(n);
        assert(s.drop_first() =~= nat_text(m));
        assert(s[0] == '-');
        if nat_text(m) == seq!['0'] {
            assert(nat_text(m)[0] == '0');
        }
    } else {
        lemma_nat_text_numeral(n as nat);
        let s = nat_text(n as nat);
        if s.len() > 0 && s[0] == '-' {
            assert(is_decimal_digit(s[0]));
        }
    }
}

/// The one-character text of the digit `d`.
fn digit_str(d: u32) -> (res: &'static str)
    requires
        d < 10,
    ensures
        res@ == seq![digit_char(d as int)],
{
    proof {
        reveal_strlit("0");
        reveal_strlit("1");
        reveal_strlit("2");
        reveal_strlit("3");
        reveal_strlit("4");
        reveal_strlit("5");
        reveal_strlit("6");
        reveal_strlit("7");
        reveal_strlit("8");
        reveal_strlit("9");
    }
    if d == 0 {
        "0"
    } else if d == 1 {
        "1"
    } else if d == 2 {
        "2"
    } else if d == 3 {
        "3"
    } else if d == 4 {
        "4"
    } else if d == 5 {
        "5"
    } else if d == 6 {
        "6"
    } else if d == 7 {
        "7"
    } else if d == 8 {
        "8"
    } else {
        "9"
    }
}

/// Decimal text of `n`.
fn nat_text_exec(n: u32) -> (res: String)
    ensures
        res@ == nat_text(n as nat),
    decreases n,
{
    if n < 10 {
        String::from_str(digit_str(n))
    } else {
        let mut res = nat_text_exec(n / 10);
        res.append(digit_str(n % 10));
        res
    }
}

/// Decimal text of `n`, with a leading `-` when negative, as `i32`'s
/// `Display` writes it.
fn i32_text(n: i32) -> (res: String)
    ensures
        res@ == int_text(n as int),
{
    if n < 0 {
        let magnitude: u32 = (0i64 - n as i64) as u32;
        proof {
            reveal_strlit("-");
        }
        let mut res = String::from_str("-");
        let digits = nat_text_exec(magnitude);
        res.append(digits.as_str());
        res
    } else {
        nat_text_exec(n as u32)
    }
}

/// What [`collect_timestamps`] gives for a line: the line is split at each
/// space and the second piece (the arrow) is dropped; when the byte lengths
/// of the first two remaining pieces have `12` as their bitwise and, those
/// two pieces are the time stamps, each trimmed and without its last
/// character. Whatever follows them (formatting settings) is ignored.
pub open spec fn collect_timestamps_spec(line: Seq<char>) -> Option<Seq<Seq<char>>> {
    let parts = split_on(line, ' ').remove(1);
    if (byte_len(parts[0]) & byte_len(parts[1])) == 12usize {
        Some(seq![without_last(trim(parts[0])), without_last(trim(parts[1]))])
    } else {
        None
    }
}

/// Extracts the two time stamps of a WebVTT time stamp line, in the
/// intermediate form (the last digit of the thousandths dropped), ignoring
/// any formatting text after them.
pub fn collect_timestamps(time_stamp_ln: &str) -> (res: Option<Vec<String>>)
    requires
        split_on(time_stamp_ln@, ' ').len() >= 3,
    ensures
        match res {
            Some(v) => collect_timestamps_spec(time_stamp_ln@) == Some(strings_view(v@)),
            None => collect_timestamps_spec(time_stamp_ln@) is None,
        },
{
    let mut split_stamp_ln = split_char(time_stamp_ln, ' ');
    let ghost all = split_on(time_stamp_ln@, ' ');
    let ghost parts = all.remove(1);
    let ghost before = split_stamp_ln@;
    split_stamp_ln.remove(1);
    assert(split_stamp_ln@[0] == before[0]);
    assert(split_stamp_ln@[1] == before[2]);
    assert(split_stamp_ln@[0]@ == parts[0]);
    assert(split_stamp_ln@[1]@ == parts[1]);
    let combined_stamp_len = split_stamp_ln[0].len() & split_stamp_ln[1].len();
    if combined_stamp_len == 12 {
        let mut ret: Vec<String> = Vec::new();
        ret.push(drop_last_char(trim_str(split_stamp_ln[0])));
        ret.push(drop_last_char(trim_str(split_stamp_ln[1])));
        assert(strings_view(ret@) =~= seq![
            without_last(trim(parts[0])),
            without_last(trim(parts[1])),
        ]);
        Some(ret)
    } else {
        None
    }
}

/// The text of a cue: its lines after the time stamp line, in order,
/// separated by single spaces (each line keeps its own line ending).
pub open spec fn cue_text_spec(lines: Seq<Seq<char>>) -> Seq<char> {
    join_with(lines.skip(1), ' ')
}

/// Each further text line is added to the cue's text after a space: a
/// cue with one text line has that line as its text, and one more line
/// extends the text of the cue without it by a space and that line.
pub proof fn lemma_cue_text_grows(lines: Seq<Seq<char>>)
    ensures
        lines.len() == 1 ==> cue_text_spec(lines) == Seq::<char>::empty(),
        lines.len() == 2 ==> cue_text_spec(lines) == lines[1],
        lines.len() >= 3 ==> cue_text_spec(lines) == cue_text_spec(lines.drop_last()) + seq![' ']
            + lines.last(),
{
    if lines.len() == 1 {
        assert(lines.skip(1) =~= Seq::<Seq<char>>::empty());
    } else if lines.len() == 2 {
        assert(lines.skip(1) =~= seq![lines[1]]);
    } else if lines.len() >= 3 {
        assert(lines.skip(1).drop_last() =~= lines.drop_last().skip(1));
        assert(lines.skip(1).last() == lines.last());
        assert(cue_text_spec(lines) =~= cue_text_spec(lines.drop_last()).push(' ') + lines.last());
    }
}

/// Every text line of a cue is kept, in order: when no text line holds a
/// space, splitting the text at spaces gives back the text lines.
pub proof fn lemma_cue_text_keeps_lines(lines: Seq<Seq<char>>)
    requires
        lines.len() >= 2,
        forall|k: int| 1 <= k < lines.len() ==> !(#[trigger] lines[k]).contains(' '),
    ensures
        split_on(cue_text_spec(lines), ' ') == lines.skip(1),
{
    let rest = lines.skip(1);
    assert forall|k: int| 0 <= k < rest.len() implies !(#[trigger] rest[k]).contains(' ') by {
        assert(rest[k] == lines[k + 1]);
    }
    lemma_split_join(rest, ' ');
}

/// Joins the lines after the first with spaces.
fn cue_text(lines: &Vec<String>) -> (text: String)
    requires
        lines@.len() >= 1,
    ensures
        text@ == cue_text_spec(strings_view(lines@)),
{
    let ghost all = strings_view(lines@);
    let mut text = String::new();
    let mut i: usize = 1;
    proof {
        reveal_strlit(" ");
        assert(all.subrange(1, 1) =~= Seq::<Seq<char>>::empty());
    }
    while i < lines.len()
        invariant
            1 <= i <= lines@.len(),
            all == strings_view(lines@),
            text@ == join_with(all.subrange(1, i as int), ' '),
        decreases lines@.len() - i,
    {
        let ghost prev = text@;
        assert(all.subrange(1, i + 1).drop_last() =~= all.subrange(1, i as int));
        assert(all[i as int] == lines@[i as int]@);
        if i == 1 {
            text.append(lines[i].as_str());
            assert(all.subrange(1, 2) =~= seq![all[1]]);
        } else {
            proof {
                reveal_strlit(" ");
            }
            text.append(" ");
            text.append(lines[i].as_str());
            assert(text@ =~= prev.push(' ') + all[i as int]);
        }
        i = i + 1;
    }
    assert(all.subrange(1, lines@.len() as int) =~= all.skip(1));
    text
}

/// What a finished cue gives, and whether the file stays readable after
/// it: a first line without the time stamp pattern, or one whose time
/// stamps cannot be collected, makes the file unreadable; a subtitle that
/// cannot be built is reported and reading goes on.
pub open spec fn cue_spec(lines: Seq<Seq<char>>) -> (Result<SubTitleView, SubReadErrorView>, bool) {
    if !time_stamp_line(lines[0]) {
        (Err(SubReadErrorView::SubTitleError("Missing time stamp line"@)), false)
    } else {
        match collect_timestamps_spec(lines[0]) {
            None => (Err(SubReadErrorView::SubTitleError("Could not collect time stamps"@)), false),
            Some(stamps) => match new_from_strs_spec(stamps[0], stamps[1], cue_text_spec(lines)) {
                Ok(sub) => (Ok(sub), true),
                Err(e) => (
                    Err(
                        SubReadErrorView::SubTitleError(
                            "Could not make subtitle from the data"@ + subtitle_error_debug_text(e),
                        ),
                    ),
                    true,
                ),
            },
        }
    }
}

/// The pattern found at `i` has spaces at `i + 12` and `i + 16`, so the
/// line splits at spaces into at least three pieces.
proof fn lemma_time_stamp_line_splits(s: Seq<char>)
    requires
        time_stamp_line(s),
    ensures
        split_on(s, ' ').len() >= 3,
{
    let i = choose|i: int| time_stamp_line_at(s, i);
    lemma_split_two_seps(s, i + 12, i + 16, ' ');
}

/// Builds the subtitle of a cue from its lines (the time stamp line
/// first). The second part of the result tells whether the file stays
/// readable.
pub fn subtitle_from_cue(lines: &Vec<String>) -> (res: (Result<SubTitle, SubReadError>, bool))
    requires
        lines@.len() >= 1,
    ensures
        (read_result_view(res.0), res.1) == cue_spec(strings_view(lines@)),
        res.0 is Ok ==> lines@.len() >= 2 && (forall|k: int|
            1 <= k < lines@.len() ==> !(#[trigger] lines@[k]@).contains(' ')) ==> split_on(
            res.0->Ok_0.text@,
            ' ',
        ) == strings_view(lines@).skip(1),
        res.0 is Ok && lines@.len() >= 3 ==> res.0->Ok_0.text@.len() >= lines@[lines@.len()
            - 1]@.len() + 1,
{
    let ghost all = strings_view(lines@);
    assert(all[0] == lines@[0]@);
    if !is_time_stamp_line(lines[0].as_str()) {
        return (Err(SubReadError::SubTitleError(String::from_str("Missing time stamp line"))), false);
    }
    proof {
        lemma_time_stamp_line_splits(lines@[0]@);
    }
    match collect_timestamps(lines[0].as_str()) {
        None => (
            Err(SubReadError::SubTitleError(String::from_str("Could not collect time stamps"))),
            false,
        ),
        Some(mut time_stamps) => {
            let ghost stamps = strings_view(time_stamps@);
            assert(stamps.len() >= 2);
            let start = time_stamps.remove(0);
            let end = time_stamps.remove(0);
            assert(start@ == stamps[0]);
            assert(end@ == stamps[1]);
            let text = cue_text(lines);
            proof {
                lemma_cue_text_grows(all);
                if all.len() >= 2 && (forall|k: int|
                    1 <= k < lines@.len() ==> !(#[trigger] lines@[k]@).contains(' ')) {
                    assert forall|k: int| 1 <= k < all.len() implies !(#[trigger] all[k]).contains(
                        ' ',
                    ) by {
                        assert(all[k] == lines@[k]@);
                    }
                    lemma_cue_text_keeps_lines(all);
                }
                if all.len() >= 3 {
                    assert(all.last() == lines@[lines@.len() - 1]@);
                }
            }
            match SubTitle::new_from_strs(start.as_str(), end.as_str(), text.as_str()) {
                Ok(sub) => (Ok(sub), true),
                Err(error) => {
                    let details = debug_text(&error);
                    (
                        Err(
                            SubReadError::SubTitleError(
                                concat_str("Could not make subtitle from the data", details.as_str()),
                            ),
                        ),
                        true,
                    )
                },
            }
        },
    }
}

/// What the reader's next line is for.
#[derive(PartialEq, Eq, Structural, Clone, Copy, Debug)]
pub enum ReadStage {
    /// No read is under way.
    Idle,
    /// The `WEBVTT` header line.
    Header,
    /// Blank lines before a cue, or its time stamp line.
    Blank,
    /// A text line of the cue, or the blank line that ends it.
    Cue,
}

/// The state of a WebVTT reader between lines. The lines themselves are
/// read by the caller, which hands each one over with the count that
/// reading it returned.
pub struct WebVttReader {
    /// Cleared after an error or the end of the file, so that later reads
    /// fail at once.
    valid_file: bool,
    /// Whether the `WEBVTT` header line has been read.
    previously_read: bool,
    stage: ReadStage,
    lines: Vec<String>,
}

/// A [`WebVttReader`] with its pending lines as character sequences.
pub struct ReaderView {
    pub valid_file: bool,
    pub previously_read: bool,
    pub stage: ReadStage,
    pub lines: Seq<Seq<char>>,
}

impl View for WebVttReader {
    type V = ReaderView;

    closed spec fn view(&self) -> ReaderView {
        ReaderView {
            valid_file: self.valid_file,
            previously_read: self.previously_read,
            stage: self.stage,
            lines: strings_view(self.lines@),
        }
    }
}

/// What the reader asks of its caller after a step.
pub enum ReadStep {
    /// Read one more line and hand it to [`WebVttReader::line_read`].
    ReadLine,
    /// The read is over, with this result.
    Done(Result<SubTitle, SubReadError>),
}

/// A [`ReadStep`] seen through the views of its result.
pub enum StepView {
    ReadLine,
    Done(Result<SubTitleView, SubReadErrorView>),
}

impl View for ReadStep {
    type V = StepView;

    open spec fn view(&self) -> StepView {
        match self {
            ReadStep::ReadLine => StepView::ReadLine,
            ReadStep::Done(r) => StepView::Done(read_result_view(*r)),
        }
    }
}

/// What holds of every reader between steps: past the header stage the
/// header has been read, and a cue under way has its time stamp line.
pub open spec fn reader_consistent(r: ReaderView) -> bool {
    &&& (r.stage == ReadStage::Blank || r.stage == ReadStage::Cue) ==> r.previously_read
    &&& r.stage == ReadStage::Cue ==> r.lines.len() >= 1
}

/// A reader state with the given flags, stage and pending lines.
pub open spec fn reader_state(
    valid_file: bool,
    previously_read: bool,
    stage: ReadStage,
    lines: Seq<Seq<char>>,
) -> ReaderView {
    ReaderView { valid_file, previously_read, stage, lines }
}

/// A finished read that failed with `message`.
pub open spec fn failed(message: Seq<char>) -> StepView {
    StepView::Done(Err(SubReadErrorView::SubTitleError(message)))
}

/// The start of a read: a reader that failed after its header was read
/// fails again at once; otherwise the header, or the next cue, is asked for.
pub open spec fn begin_spec(r: ReaderView) -> (ReaderView, StepView) {
    if !r.valid_file && r.previously_read {
        (
            reader_state(r.valid_file, r.previously_read, ReadStage::Idle, Seq::empty()),
            failed("PreviousError"@),
        )
    } else if !r.previously_read {
        (
            reader_state(r.valid_file, r.previously_read, ReadStage::Header, Seq::empty()),
            StepView::ReadLine,
        )
    } else {
        (
            reader_state(r.valid_file, r.previously_read, ReadStage::Blank, Seq::empty()),
            StepView::ReadLine,
        )
    }
}

/// One line handed to the reader, with `n`, the count that reading it
/// returned (`0` at the end of the file).
pub open spec fn line_spec(r: ReaderView, line: Seq<char>, n: nat) -> (ReaderView, StepView) {
    match r.stage {
        ReadStage::Header => if trim(line) != "WEBVTT"@ {
            (reader_state(false, true, ReadStage::Idle, Seq::empty()), failed("No file WEBVTT tag"@))
        } else {
            (reader_state(true, true, ReadStage::Blank, Seq::empty()), StepView::ReadLine)
        },
        ReadStage::Blank => if n > 0 && line[0] == '\n' {
            (r, StepView::ReadLine)
        } else if n == 0 {
            (
                reader_state(false, r.previously_read, ReadStage::Idle, Seq::empty()),
                failed("There are no subtitles in this file"@),
            )
        } else {
            (
                reader_state(r.valid_file, r.previously_read, ReadStage::Cue, seq![line]),
                StepView::ReadLine,
            )
        },
        ReadStage::Cue => if n >= 2 {
            (
                reader_state(r.valid_file, r.previously_read, ReadStage::Cue, r.lines.push(line)),
                StepView::ReadLine,
            )
        } else {
            let (result, stays_valid) = cue_spec(r.lines);
            (
                reader_state(
                    r.valid_file && stays_valid,
                    r.previously_read,
                    ReadStage::Idle,
                    Seq::empty(),
                ),
                StepView::Done(result),
            )
        },
        ReadStage::Idle => (r, StepView::ReadLine),
    }
}

impl WebVttReader {
    #[verifier::type_invariant]
    spec fn consistent(self) -> bool {
        reader_consistent(self@)
    }

    /// A reader of a fresh file: nothing read yet.
    pub fn new() -> (reader: Self)
        ensures
            reader@ == reader_state(false, false, ReadStage::Idle, Seq::empty()),
            reader_consistent(reader@),
    {
        let reader = WebVttReader {
            valid_file: false,
            previously_read: false,
            stage: ReadStage::Idle,
            lines: Vec::new(),
        };
        assert(reader@.lines =~= Seq::<Seq<char>>::empty());
        reader
    }

    /// Starts over on another file.
    pub fn set_file(&mut self)
        ensures
            final(self)@ == reader_state(false, false, ReadStage::Idle, Seq::empty()),
            reader_consistent(final(self)@),
    {
        *self = WebVttReader::new();
    }

    /// Starts reading the next subtitle.
    pub fn begin_read(&mut self) -> (step: ReadStep)
        ensures
            (final(self)@, step@) == begin_spec(old(self)@),
            reader_consistent(final(self)@),
    {
        proof {
            use_type_invariant(&*self);
        }
        let empty: Vec<String> = Vec::new();
        assert(strings_view(empty@) =~= Seq::<Seq<char>>::empty());
        if !self.valid_file && self.previously_read {
            *self = WebVttReader {
                valid_file: self.valid_file,
                previously_read: self.previously_read,
                stage: ReadStage::Idle,
                lines: empty,
            };
            ReadStep::Done(Err(SubReadError::SubTitleError(String::from_str("PreviousError"))))
        } else if !self.previously_read {
            *self = WebVttReader {
                valid_file: self.valid_file,
                previously_read: self.previously_read,
                stage: ReadStage::Header,
                lines: empty,
            };
            ReadStep::ReadLine
        } else {
            *self = WebVttReader {
                valid_file: self.valid_file,
                previously_read: self.previously_read,
                stage: ReadStage::Blank,
                lines: empty,
            };
            ReadStep::ReadLine
        }
    }

    /// Takes the line that was asked for, with the count that reading it
    /// returned (`0` at the end of the file).
    pub fn line_read(&mut self, line: String, n: usize) -> (step: ReadStep)
        requires
            old(self)@.stage != ReadStage::Idle,
            n > 0 ==> line@.len() > 0,
        ensures
            (final(self)@, step@) == line_spec(old(self)@, line@, n as nat),
            reader_consistent(final(self)@),
            old(self)@.stage == ReadStage::Cue && n >= 2 ==> final(self)@.stage == ReadStage::Cue
                && final(self)@.lines == old(self)@.lines.push(line@) && step is ReadLine,
            old(self)@.stage == ReadStage::Cue && n < 2 ==> final(self)@.stage == ReadStage::Idle
                && step is Done,
    {
        let mut current = WebVttReader::new();
        std::mem::swap(self, &mut current);
        proof {
            use_type_invariant(&current);
            reveal_strlit("WEBVTT");
        }
        let ghost r = current@;
        let WebVttReader { valid_file, previously_read, stage, lines } = current;
        let mut lines = lines;
        let empty: Vec<String> = Vec::new();
        assert(strings_view(empty@) =~= Seq::<Seq<char>>::empty());
        match stage {
            ReadStage::Header => {
                let trimmed = trim_str(line.as_str());
                if !same_text(trimmed, "WEBVTT") {
                    *self = WebVttReader {
                        valid_file: false,
                        previously_read: true,
                        stage: ReadStage::Idle,
                        lines: empty,
                    };
                    ReadStep::Done(
                        Err(SubReadError::SubTitleError(String::from_str("No file WEBVTT tag"))),
                    )
                } else {
                    *self = WebVttReader {
                        valid_file: true,
                        previously_read: true,
                        stage: ReadStage::Blank,
                        lines: empty,
                    };
                    ReadStep::ReadLine
                }
            },
            ReadStage::Blank => {
                if n > 0 && line.as_str().get_char(0) == '\n' {
                    *self = WebVttReader { valid_file, previously_read, stage, lines };
                    ReadStep::ReadLine
                } else if n == 0 {
                    *self = WebVttReader {
                        valid_file: false,
                        previously_read,
                        stage: ReadStage::Idle,
                        lines: empty,
                    };
                    ReadStep::Done(
                        Err(
                            SubReadError::SubTitleError(
                                String::from_str("There are no subtitles in this file"),
                            ),
                        ),
                    )
                } else {
                    let mut first: Vec<String> = Vec::new();
                    first.push(line);
                    assert(strings_view(first@) =~= seq![line@]);
                    *self = WebVttReader {
                        valid_file,
                        previously_read,
                        stage: ReadStage::Cue,
                        lines: first,
                    };
                    ReadStep::ReadLine
                }
            },
            ReadStage::Cue => {
                if n >= 2 {
                    let ghost before = lines@;
                    lines.push(line);
                    assert(strings_view(lines@) =~= strings_view(before).push(line@));
                    *self = WebVttReader { valid_file, previously_read, stage: ReadStage::Cue, lines };
                    ReadStep::ReadLine
                } else {
                    let (result, stays_valid) = subtitle_from_cue(&lines);
                    *self = WebVttReader {
                        valid_file: valid_file && stays_valid,
                        previously_read,
                        stage: ReadStage::Idle,
                        lines: empty,
                    };
                    ReadStep::Done(result)
                }
            },
            ReadStage::Idle => {
                *self = WebVttReader { valid_file, previously_read, stage, lines };
                ReadStep::ReadLine
            },
        }
    }
}


/// The SubRip form of a time stamp: the pieces of the intermediate form
/// with `,` before the hundredths.
pub open spec fn subrip_time(stamp: Seq<char>) -> Seq<char> {
    let p = time_stamp_pieces(stamp);
    p[0] + seq![':'] + p[1] + seq![':'] + p[2] + seq![','] + p[3]
}

/// A time stamp that [`subrip_time`] can be taken of: at least three
/// `:`-fields, and at least two `.`-fields in the third.
pub open spec fn subrip_time_ready(stamp: Seq<char>) -> bool {
    &&& split_on(stamp, ':').len() >= 3
    &&& time_stamp_pieces(stamp).len() >= 4
}

/// A SubRip record: its number, its time line, its text.
pub open spec fn subrip_record(sub: SubTitleView, index: int) -> Seq<Seq<char>> {
    seq![
        int_text(index),
        subrip_time(sub.start) + seq![' ', '-', '-', '>', ' '] + subrip_time(sub.end),
        sub.text,
    ]
}

/// A SubRip record has three lines: a numeral that reads back as its
/// number, the time line, and the subtitle's text unchanged.
pub proof fn lemma_subrip_record_shape(sub: SubTitleView, index: int)
    ensures
        subrip_record(sub, index).len() == 3,
        signed_numeral(subrip_record(sub, index)[0]),
        numeral_value(subrip_record(sub, index)[0]) == index,
        subrip_record(sub, index)[2] == sub.text,
{
    lemma_int_text_numeral(index);
}

/// A time stamp `hh:mm:ss.cc` becomes `hh:mm:ss,cc`.
pub proof fn lemma_subrip_time_of_time_stamp(stamp: Seq<char>)
    requires
        is_time_stamp(stamp),
    ensures
        subrip_time_ready(stamp),
        subrip_time(stamp) == stamp.update(8, ','),
{
    lemma_time_stamp_pieces(stamp);
    crate::converters::subtitle_rw_interface::lemma_time_fields_valid(stamp);
    assert(subrip_time(stamp) =~= stamp.update(8, ','));
}

/// Whether `stamp` can be written the SubRip way.
fn time_ready(stamp: &Rc<String>) -> (ok: bool)
    ensures
        ok == subrip_time_ready(stamp@),
{
    let segs = split_char(stamp.as_str(), ':');
    if segs.len() < 3 {
        return false;
    }
    let secs = split_char(segs[2], '.');
    secs.len() >= 2
}

/// Writes a time stamp of the intermediate form the SubRip way.
fn convert_time_str(timestr: &Rc<String>) -> (res: String)
    requires
        subrip_time_ready(timestr@),
    ensures
        res@ == subrip_time(timestr@),
{
    proof {
        reveal_strlit(":");
        reveal_strlit(",");
    }
    let split_tm_stamp = SubTitle::split_time_stamp(timestr);
    let mut sub_rip_time = String::from_str(split_tm_stamp[0]);
    sub_rip_time.append(":");
    sub_rip_time.append(split_tm_stamp[1]);
    sub_rip_time.append(":");
    sub_rip_time.append(split_tm_stamp[2]);
    sub_rip_time.append(",");
    sub_rip_time.append(split_tm_stamp[3]);
    sub_rip_time
}

/// The state of a SubRip writer: how many records it has written, which
/// numbers the next one.
pub struct SubRipWriter {
    last_written: i32,
}

impl View for SubRipWriter {
    type V = int;

    closed spec fn view(&self) -> int {
        self.last_written as int
    }
}

impl SubRipWriter {
    /// A writer that has written nothing.
    pub fn new() -> (writer: Self)
        ensures
            writer@ == 0,
    {
        SubRipWriter { last_written: 0 }
    }

    /// How many records have been written.
    pub fn last_written(&self) -> (n: i32)
        ensures
            n == self@,
    {
        self.last_written
    }

    /// Whether both time stamps of `subtitle` can be written the SubRip way.
    pub fn is_convertible(subtitle: &SubTitle) -> (ok: bool)
        ensures
            ok == (subrip_time_ready(subtitle.start@) && subrip_time_ready(subtitle.end@)),
    {
        time_ready(&subtitle.start) && time_ready(&subtitle.end)
    }

    /// The lines of the SubRip record of `subtitle` numbered `sub_index`:
    /// the number, `start --> end` with the SubRip times, the text.
    pub fn convert_to_subrip(subtitle: &SubTitle, sub_index: i32) -> (record: Vec<String>)
        requires
            subrip_time_ready(subtitle.start@),
            subrip_time_ready(subtitle.end@),
        ensures
            strings_view(record@) == subrip_record(subtitle@, sub_index as int),
            record@.len() == 3,
            signed_numeral(record@[0]@),
            numeral_value(record@[0]@) == sub_index,
            record@[2]@ == subtitle.text@,
            is_time_stamp(subtitle.start@) && is_time_stamp(subtitle.end@) ==> record@[1]@
                == subtitle.start@.update(8, ',') + seq![' ', '-', '-', '>', ' ']
                + subtitle.end@.update(8, ','),
    {
        proof {
            reveal_strlit(" --> ");
            lemma_subrip_record_shape(subtitle@, sub_index as int);
            if is_time_stamp(subtitle.start@) && is_time_stamp(subtitle.end@) {
                lemma_subrip_time_of_time_stamp(subtitle.start@);
                lemma_subrip_time_of_time_stamp(subtitle.end@);
            }
        }
        let mut ret_sub: Vec<String> = Vec::new();
        ret_sub.push(i32_text(sub_index));
        let mut timestr = convert_time_str(&subtitle.start);
        timestr.append(" --> ");
        let end = convert_time_str(&subtitle.end);
        timestr.append(end.as_str());
        ret_sub.push(timestr);
        assert(timestr@ =~= subrip_time(subtitle.start@) + seq![' ', '-', '-', '>', ' '] + subrip_time(
            subtitle.end@,
        ));
        let text = String::from_str(subtitle.text.as_str());
        assert(text@ == subtitle.text@);
        ret_sub.push(text);
        assert(ret_sub@[0]@ == int_text(sub_index as int));
        assert(strings_view(ret_sub@) =~= subrip_record(subtitle@, sub_index as int));
        ret_sub
    }

    /// The record to write for `to_write`, numbered one past the records
    /// written so far.
    pub fn next_record(&self, to_write: &SubTitle) -> (record: Vec<String>)
        requires
            self@ < i32::MAX,
            subrip_time_ready(to_write.start@),
            subrip_time_ready(to_write.end@),
        ensures
            strings_view(record@) == subrip_record(to_write@, next_number(self@)),
            record@.len() == 3,
            numeral_value(record@[0]@) == self@ + 1,
            record@[2]@ == to_write.text@,
    {
        SubRipWriter::convert_to_subrip(to_write, self.last_written + 1)
    }

    /// Counts one more record as written.
    pub fn record_written(&mut self)
        requires
            old(self)@ < i32::MAX,
        ensures
            final(self)@ == next_number(old(self)@),
    {
        self.last_written = self.last_written + 1;
    }
}


/// The number of the next record after `count` records.
pub open spec fn next_number(count: int) -> int {
    count + 1
}

/// How many of `writes` completed.
pub open spec fn completed(writes: Seq<bool>) -> nat
    decreases writes.len(),
{
    if writes.len() == 0 {
        0
    } else {
        (if writes[0] { 1nat } else { 0nat }) + completed(writes.drop_first())
    }
}

/// The numbers of the records written, in order, when a writer that has
/// written `count` records goes through `writes`: `true` is a write that
/// completed (its record from [`SubRipWriter::next_record`], then
/// [`SubRipWriter::record_written`]), `false` a write that failed or a
/// change of file, neither of which touches the count.
pub open spec fn numbers_written(count: int, writes: Seq<bool>) -> Seq<int>
    decreases writes.len(),
{
    if writes.len() == 0 {
        Seq::empty()
    } else if writes[0] {
        seq![next_number(count)] + numbers_written(next_number(count), writes.drop_first())
    } else {
        numbers_written(count, writes.drop_first())
    }
}

/// From `count` on, the records written are numbered `count + 1`,
/// `count + 2`, ..., one per completed write.
proof fn lemma_numbers_from(count: int, writes: Seq<bool>)
    ensures
        numbers_written(count, writes) == Seq::new(completed(writes), |i: int| count + i + 1),
    decreases writes.len(),
{
    if writes.len() > 0 {
        lemma_numbers_from(next_number(count), writes.drop_first());
        lemma_numbers_from(count, writes.drop_first());
        assert(numbers_written(count, writes) =~= Seq::new(
            completed(writes),
            |i: int| count + i + 1,
        ));
    }
}

/// A new writer numbers its records `1`, `2`, `3`, ... in the order they
/// are written, with no gap and no repeat, whatever writes fail between.
pub proof fn lemma_records_numbered_in_order(writes: Seq<bool>)
    ensures
        numbers_written(0, writes) == Seq::new(completed(writes), |i: int| i + 1),
{
    lemma_numbers_from(0, writes);
    assert(numbers_written(0, writes) =~= Seq::new(completed(writes), |i: int| i + 1));
}

/// A WebVTT time stamp `hh:mm:ss.ttt`: every field decimal digits, three
/// of them for the thousandths.
pub open spec fn is_webvtt_time(t: Seq<char>) -> bool {
    &&& t.len() == 12
    &&& t[2] == ':' && t[5] == ':' && t[8] == '.'
    &&& forall|i: int|
        0 <= i < 12 && i != 2 && i != 5 && i != 8 ==> #[trigger] is_decimal_digit(t[i])
}

/// A WebVTT time stamp is ASCII, free of spaces and of whitespace.
proof fn lemma_webvtt_time_chars(t: Seq<char>)
    requires
        is_webvtt_time(t),
    ensures
        vstd::utf8::is_ascii_chars(t),
        !t.contains(' '),
        forall|i: int| 0 <= i < t.len() ==> !is_white_space(#[trigger] t[i]),
        is_time_stamp(t.drop_last()),
{
    assert forall|i: int| 0 <= i < t.len() implies '\0' <= #[trigger] t[i] <= '\u{7f}'
        && t[i] != ' ' && !is_white_space(t[i]) by {
        if i != 2 && i != 5 && i != 8 {
            assert(is_decimal_digit(t[i]));
        }
    }
    assert forall|i: int|
        0 <= i < 11 && i != 2 && i != 5 && i != 8 implies #[trigger] is_decimal_digit(
        t.drop_last()[i],
    ) by {
        assert(is_decimal_digit(t[i]));
    }
}

/// The time stamp line of a WebVTT cue, `start --> end` and a line feed,
/// gives the two time stamps without the last digit of their thousandths.
/// (The end piece keeps its line feed until it is trimmed: the lengths
/// compared are `12` and `13`, whose bitwise and is `12`.)
pub proof fn lemma_collect_time_stamp_line(t1: Seq<char>, t2: Seq<char>)
    requires
        is_webvtt_time(t1),
        is_webvtt_time(t2),
    ensures
        collect_timestamps_spec(t1 + seq![' ', '-', '-', '>', ' '] + t2 + seq!['\n']) == Some(
            seq![t1.drop_last(), t2.drop_last()],
        ),
        split_on(t1 + seq![' ', '-', '-', '>', ' '] + t2 + seq!['\n'], ' ').len() == 3,
{
    lemma_webvtt_time_chars(t1);
    lemma_webvtt_time_chars(t2);
    let line = t1 + seq![' ', '-', '-', '>', ' '] + t2 + seq!['\n'];
    let arrow = seq!['-', '-', '>'];
    let t2n = t2 + seq!['\n'];
    let pieces = seq![t1, arrow, t2n];
    assert(pieces.drop_last().drop_last() =~= seq![t1]);
    assert(join_with(seq![t1], ' ') == t1);
    assert(join_with(pieces.drop_last(), ' ') == join_with(pieces.drop_last().drop_last(), ' ').push(
        ' ',
    ) + pieces.drop_last().last());
    assert(join_with(pieces, ' ') == join_with(pieces.drop_last(), ' ').push(' ') + pieces.last());
    assert(join_with(pieces, ' ') =~= line);
    assert(!t2n.contains(' ')) by {
        if t2n.contains(' ') {
            let j = choose|j: int| 0 <= j < t2n.len() && t2n[j] == ' ';
            if j < t2.len() {
                assert(t2[j] == ' ');
            }
        }
    }
    assert(!arrow.contains(' ')) by {
        if arrow.contains(' ') {
            let j = choose|j: int| 0 <= j < arrow.len() && arrow[j] == ' ';
        }
    }
    assert forall|k: int| 0 <= k < 3 implies !(#[trigger] pieces[k]).contains(' ') by {}
    lemma_split_join(pieces, ' ');
    let parts = split_on(line, ' ').remove(1);
    assert(parts =~= seq![t1, t2n]);
    assert(vstd::utf8::is_ascii_chars(t2n)) by {
        assert forall|i: int| 0 <= i < t2n.len() implies '\0' <= #[trigger] t2n[i] <= '\u{7f}' by {
            if i < t2.len() {
                assert(t2n[i] == t2[i]);
            }
        }
    }
    vstd::utf8::is_ascii_chars_encode_utf8(t1);
    vstd::utf8::is_ascii_chars_encode_utf8(t2n);
    assert(byte_len(t1) == 12usize);
    assert(byte_len(t2n) == 13usize);
    assert((12usize & 13usize) == 12usize) by (bit_vector);
    assert(trim_start(t1) == t1);
    assert(!is_white_space(t1[11]));
    assert(trim_end(t1) == t1);
    assert(trim(t1) == t1);
    assert(t2n[0] == t2[0]);
    assert(trim_start(t2n) == t2n);
    assert(t2n.drop_last() =~= t2);
    assert(!is_white_space(t2[11]));
    assert(trim_end(t2) == t2);
    assert(trim_end(t2n) == t2);
    assert(trim(t2n) == t2);
}

/// A line that starts with two WebVTT time stamps around ` --> ` holds
/// the time stamp line pattern, whatever follows them.
pub proof fn lemma_webvtt_stamp_line_found(t1: Seq<char>, t2: Seq<char>, rest: Seq<char>)
    requires
        is_webvtt_time(t1),
        is_webvtt_time(t2),
    ensures
        time_stamp_line(t1 + seq![' ', '-', '-', '>', ' '] + t2 + rest),
{
    let s = t1 + seq![' ', '-', '-', '>', ' '] + t2 + rest;
    assert forall|k: int| 0 <= k < 12 && k != 2 && k != 5 && k != 8 implies stamp_digit(
        #[trigger] s[k],
    ) && stamp_digit(s[k + 17]) by {
        assert(is_decimal_digit(t1[k]));
        assert(is_decimal_digit(t2[k]));
        assert(s[k] == t1[k]);
        assert(s[k + 17] == t2[k]);
    }
    assert(s[2] == t1[2] && s[5] == t1[5] && s[8] == t1[8]);
    assert(s[19] == t2[2] && s[22] == t2[5] && s[25] == t2[8]);
    assert(s[12] == ' ' && s[13] == '-' && s[14] == '-' && s[15] == '>' && s[16] == ' ');
    assert(stamp_at(s, 0));
    assert(stamp_at(s, 17));
    assert(time_stamp_line_at(s, 0));
}

/// A WebVTT cue whose time stamp line is `start --> end` (and a line
/// feed) becomes the subtitle from `start` to `end`, each without the last
/// digit of its thousandths, and the file stays readable; its SubRip time
/// line is `start --> end` in the SubRip way.
pub proof fn lemma_webvtt_cue_to_subrip(t1: Seq<char>, t2: Seq<char>, lines: Seq<Seq<char>>, index: int)
    requires
        is_webvtt_time(t1),
        is_webvtt_time(t2),
        lines.len() >= 1,
        lines[0] == t1 + seq![' ', '-', '-', '>', ' '] + t2 + seq!['\n'],
    ensures
        cue_spec(lines) == (
            Ok::<SubTitleView, SubReadErrorView>(
                SubTitleView { start: t1.drop_last(), end: t2.drop_last(), text: cue_text_spec(lines) },
            ),
            true,
        ),
        subrip_record(
            SubTitleView { start: t1.drop_last(), end: t2.drop_last(), text: cue_text_spec(lines) },
            index,
        )[1] == t1.drop_last().update(8, ',') + seq![' ', '-', '-', '>', ' '] + t2.drop_last().update(
            8,
            ',',
        ),
{
    lemma_webvtt_stamp_line_found(t1, t2, seq!['\n']);
    lemma_collect_time_stamp_line(t1, t2);
    lemma_webvtt_time_chars(t1);
    lemma_webvtt_time_chars(t2);
    lemma_subrip_time_of_time_stamp(t1.drop_last());
    lemma_subrip_time_of_time_stamp(t2.drop_last());
}

/// Reading a WebVTT cue: once its lines are gathered and the line that ends
/// it comes (a count under 2), the read gives the cue's subtitle and the
/// reader's flags stay as they were.
pub proof fn lemma_webvtt_cue_read(
    r: ReaderView,
    t1: Seq<char>,
    t2: Seq<char>,
    line: Seq<char>,
    n: nat,
)
    requires
        r.stage == ReadStage::Cue,
        r.lines.len() >= 1,
        r.lines[0] == t1 + seq![' ', '-', '-', '>', ' '] + t2 + seq!['\n'],
        is_webvtt_time(t1),
        is_webvtt_time(t2),
        n < 2,
    ensures
        line_spec(r, line, n) == (
            reader_state(r.valid_file, r.previously_read, ReadStage::Idle, Seq::empty()),
            StepView::Done(
                Ok(
                    SubTitleView {
                        start: t1.drop_last(),
                        end: t2.drop_last(),
                        text: cue_text_spec(r.lines),
                    },
                ),
            ),
        ),
{
    lemma_webvtt_cue_to_subrip(t1, t2, r.lines, 0);
}

/// A read failure after which the file is not read again.
pub open spec fn sticky_message(m: Seq<char>) -> bool {
    ||| m == "No file WEBVTT tag"@
    ||| m == "There are no subtitles in this file"@
    ||| m == "Missing time stamp line"@
    ||| m == "Could not collect time stamps"@
    ||| m == "PreviousError"@
}

/// A reader that has read its header and found the file unusable.
pub open spec fn failed_for_good(r: ReaderView) -> bool {
    !r.valid_file && r.previously_read
}

/// Once a read has failed with one of the [`sticky_message`] messages,
/// the reader is failed for good: every later read fails with
/// `PreviousError` at once, without asking for a line, and stays failed.
/// The readers that [`WebVttReader`]'s functions leave behind are all
/// [`reader_consistent`].
pub proof fn lemma_failure_is_sticky(r: ReaderView, line: Seq<char>, n: nat, m: Seq<char>)
    requires
        reader_consistent(r),
        n > 0 ==> line.len() > 0,
    ensures
        line_spec(r, line, n).1 == failed(m) && sticky_message(m) ==> failed_for_good(
            line_spec(r, line, n).0,
        ),
        begin_spec(r).1 == failed(m) && sticky_message(m) ==> failed_for_good(begin_spec(r).0),
        failed_for_good(r) ==> begin_spec(r).1 == failed("PreviousError"@) && failed_for_good(
            begin_spec(r).0,
        ),
{
    if r.stage == ReadStage::Cue && n < 2 && line_spec(r, line, n).1 == failed(m) && sticky_message(m) {
        if time_stamp_line(r.lines[0]) {
            if let Some(stamps) = collect_timestamps_spec(r.lines[0]) {
                if let Err(e) = new_from_strs_spec(stamps[0], stamps[1], cue_text_spec(r.lines)) {
                    let lead = "Could not make subtitle from the data"@;
                    reveal_strlit("Could not make subtitle from the data");
                    reveal_strlit("No file WEBVTT tag");
                    reveal_strlit("There are no subtitles in this file");
                    reveal_strlit("Missing time stamp line");
                    reveal_strlit("Could not collect time stamps");
                    reveal_strlit("PreviousError");
                    assert(m == lead + subtitle_error_debug_text(e));
                    assert(m[0] == 'C' && m[10] == 'm');
                    assert(false);
                }
            }
        }
    }
}

/// Every step of the reader keeps it consistent.
pub proof fn lemma_steps_keep_consistency(r: ReaderView, line: Seq<char>, n: nat)
    requires
        reader_consistent(r),
    ensures
        reader_consistent(begin_spec(r).0),
        reader_consistent(line_spec(r, line, n).0),
{
}

/// A cue runs to a blank line or the end of the file: in the middle of a
/// cue, every line with a count of at least 2 is added to it, with the
/// flags left alone, and another line is asked for; only a count under 2
/// ends the read.
pub proof fn lemma_cue_gathers_lines(r: ReaderView, line: Seq<char>, n: nat)
    requires
        r.stage == ReadStage::Cue,
    ensures
        n >= 2 ==> line_spec(r, line, n) == (
            reader_state(r.valid_file, r.previously_read, ReadStage::Cue, r.lines.push(line)),
            StepView::ReadLine,
        ),
        n < 2 ==> line_spec(r, line, n).1 is Done && line_spec(r, line, n).0.stage
            == ReadStage::Idle,
{
}

/// The first line of a file must be `WEBVTT`, whitespace around it aside:
/// then the reader goes on to the cues and the file is readable; any other
/// first line fails the read and the file for good.
pub proof fn lemma_header_checked(r: ReaderView, line: Seq<char>, n: nat)
    requires
        r.stage == ReadStage::Header,
    ensures
        trim(line) == "WEBVTT"@ ==> line_spec(r, line, n) == (
            reader_state(true, true, ReadStage::Blank, Seq::empty()),
            StepView::ReadLine,
        ),
        trim(line) != "WEBVTT"@ ==> line_spec(r, line, n).1 == failed("No file WEBVTT tag"@)
            && failed_for_good(line_spec(r, line, n).0),
{
}

/// Before a cue, lines that start with a line feed are skipped; the first
/// other line starts the cue; the end of the file fails the read and the
/// file for good.
pub proof fn lemma_blank_lines_skipped(r: ReaderView, line: Seq<char>, n: nat)
    requires
        r.stage == ReadStage::Blank,
        r.previously_read,
    ensures
        n > 0 && line[0] == '\n' ==> line_spec(r, line, n) == (r, StepView::ReadLine),
        n > 0 && line[0] != '\n' ==> line_spec(r, line, n) == (
            reader_state(r.valid_file, r.previously_read, ReadStage::Cue, seq![line]),
            StepView::ReadLine,
        ),
        n == 0 ==> line_spec(r, line, n).1 == failed("There are no subtitles in this file"@)
            && failed_for_good(line_spec(r, line, n).0),
{
}

/// The `WEBVTT` header is asked for only until it has been read.
pub proof fn lemma_header_read_once(r: ReaderView)
    ensures
        (begin_spec(r).1 is ReadLine && begin_spec(r).0.stage == ReadStage::Header)
            <==> !r.previously_read,
{
}

} // verus!
