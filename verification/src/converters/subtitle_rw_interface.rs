//! The intermediate form of a subtitle, shared by readers and writers.
//! Times in it are written `xx:xx:xx.xx`.

use std::rc::Rc;
use vstd::prelude::*;
use vstd::string::*;
use crate::text::{concat_str, join_with, lemma_join_split, lemma_split_join, split_char, split_on};

verus! {

/// An ASCII decimal digit, the digits of `char::is_digit(10)`.
pub open spec fn is_decimal_digit(c: char) -> bool {
    '0' <= c && c <= '9'
}

/// A time stamp of the intermediate form: `hh:mm:ss.cc`, every field two
/// decimal digits.
pub open spec fn is_time_stamp(s: Seq<char>) -> bool {
    &&& s.len() == 11
    &&& s[2] == ':' && s[5] == ':' && s[8] == '.'
    &&& forall|i: int|
        0 <= i < 11 && i != 2 && i != 5 && i != 8 ==> #[trigger] is_decimal_digit(s[i])
}

/// Exactly two characters, both decimal digits.
pub open spec fn two_digits(p: Seq<char>) -> bool {
    p.len() == 2 && is_decimal_digit(p[0]) && is_decimal_digit(p[1])
}

/// The time format as checked field by field: three `:`-separated fields,
/// the last of them two `.`-separated fields, each field two digits.
pub open spec fn time_fields_valid(s: Seq<char>) -> bool {
    let segs = split_on(s, ':');
    &&& segs.len() == 3
    &&& split_on(segs[2], '.').len() == 2
    &&& two_digits(segs[0])
    &&& two_digits(segs[1])
    &&& two_digits(split_on(segs[2], '.')[0])
    &&& two_digits(split_on(segs[2], '.')[1])
}

/// Checking the fields one by one accepts exactly the `hh:mm:ss.cc` shape.
pub proof fn lemma_time_fields_valid(s: Seq<char>)
    ensures
        time_fields_valid(s) <==> is_time_stamp(s),
{
    let segs = split_on(s, ':');
    if time_fields_valid(s) {
        let secs = split_on(segs[2], '.');
        lemma_join_split(s, ':');
        lemma_join_split(segs[2], '.');
        assert(segs.drop_last().drop_last() =~= seq![segs[0]]);
        assert(secs.drop_last() =~= seq![secs[0]]);
        assert(join_with(secs.drop_last(), '.') == secs[0]);
        assert(join_with(secs, '.') == join_with(secs.drop_last(), '.').push('.') + secs.last());
        assert(segs[2] =~= secs[0].push('.') + secs[1]);
        assert(join_with(segs.drop_last().drop_last(), ':') == segs[0]);
        assert(join_with(segs.drop_last(), ':') == join_with(segs.drop_last().drop_last(), ':').push(':')
            + segs.drop_last().last());
        assert(join_with(segs, ':') == join_with(segs.drop_last(), ':').push(':') + segs.last());
        assert(s =~= segs[0].push(':') + segs[1] + seq![':'] + secs[0] + seq!['.'] + secs[1]);
        assert(is_time_stamp(s));
    }
    if is_time_stamp(s) {
        let p0 = s.subrange(0, 2);
        let p1 = s.subrange(3, 5);
        let p2 = s.subrange(6, 11);
        let q0 = s.subrange(6, 8);
        let q1 = s.subrange(9, 11);
        let segs_expected = seq![p0, p1, p2];
        let secs_expected = seq![q0, q1];
        assert(is_decimal_digit(s[0]) && is_decimal_digit(s[1]) && is_decimal_digit(s[3])
            && is_decimal_digit(s[4]) && is_decimal_digit(s[6]) && is_decimal_digit(s[7])
            && is_decimal_digit(s[9]) && is_decimal_digit(s[10]));
        assert(segs_expected.drop_last().drop_last() =~= seq![p0]);
        assert(segs_expected.drop_last() =~= seq![p0, p1]);
        assert(join_with(seq![p0], ':') == p0);
        assert(join_with(seq![p0, p1], ':') == join_with(seq![p0, p1].drop_last(), ':').push(':')
            + seq![p0, p1].last());
        assert(join_with(segs_expected, ':') == join_with(segs_expected.drop_last(), ':').push(':')
            + segs_expected.last());
        assert(join_with(segs_expected, ':') =~= s);
        assert forall|k: int| 0 <= k < 3 implies !(#[trigger] segs_expected[k]).contains(':') by {
            if segs_expected[k].contains(':') {
                let j = choose|j: int|
                    0 <= j < segs_expected[k].len() && segs_expected[k][j] == ':';
                if k == 0 {
                    assert(s[j] == ':');
                } else if k == 1 {
                    assert(s[3 + j] == ':');
                } else {
                    assert(s[6 + j] == ':');
                }
            }
        }
        lemma_split_join(segs_expected, ':');
        assert(secs_expected.drop_last() =~= seq![q0]);
        assert(join_with(seq![q0], '.') == q0);
        assert(join_with(secs_expected, '.') == join_with(secs_expected.drop_last(), '.').push('.')
            + secs_expected.last());
        assert(join_with(secs_expected, '.') =~= p2);
        assert forall|k: int| 0 <= k < 2 implies !(#[trigger] secs_expected[k]).contains('.') by {
            if secs_expected[k].contains('.') {
                let j = choose|j: int|
                    0 <= j < secs_expected[k].len() && secs_expected[k][j] == '.';
                if k == 0 {
                    assert(s[6 + j] == '.');
                } else {
                    assert(s[9 + j] == '.');
                }
            }
        }
        lemma_split_join(secs_expected, '.');
        assert(time_fields_valid(s));
    }
}

/// Whether `c` is a decimal digit.
fn decimal_digit(c: char) -> (res: bool)
    ensures
        res == is_decimal_digit(c),
{
    '0' <= c && c <= '9'
}

/// Whether `field` is exactly two decimal digits.
fn two_digit_field(field: &str) -> (res: bool)
    ensures
        res == two_digits(field@),
{
    if field.unicode_len() != 2 {
        return false;
    }
    decimal_digit(field.get_char(0)) && decimal_digit(field.get_char(1))
}

/// Whether `to_test` is a time stamp of the form `xx:xx:xx.xx`.
pub fn valid_time_format(to_test: &str) -> (res: bool)
    ensures
        res == is_time_stamp(to_test@),
{
    proof {
        lemma_time_fields_valid(to_test@);
    }
    let time_segments = split_char(to_test, ':');
    if time_segments.len() == 3 {
        let sec_segments = split_char(time_segments[2], '.');
        if sec_segments.len() == 2 {
            two_digit_field(time_segments[0]) && two_digit_field(time_segments[1])
                && two_digit_field(sec_segments[0]) && two_digit_field(sec_segments[1])
        } else {
            false
        }
    } else {
        false
    }
}


/// Why a subtitle could not be built from its parts; each variant carries
/// a message that ends with the offending input.
#[derive(Debug)]
pub enum SubTitleError {
    Start(String),
    End(String),
    Text(String),
}

/// A [`SubTitleError`] with its message as a character sequence.
pub enum SubTitleErrorView {
    Start(Seq<char>),
    End(Seq<char>),
    Text(Seq<char>),
}

impl View for SubTitleError {
    type V = SubTitleErrorView;

    open spec fn view(&self) -> SubTitleErrorView {
        match self {
            SubTitleError::Start(m) => SubTitleErrorView::Start(m@),
            SubTitleError::End(m) => SubTitleErrorView::End(m@),
            SubTitleError::Text(m) => SubTitleErrorView::Text(m@),
        }
    }
}

/// One subtitle: when it starts, when it ends (both `xx:xx:xx.xx`) and its
/// text. Clones share the strings.
#[derive(Clone, Debug)]
pub struct SubTitle {
    pub start: Rc<String>,
    pub end: Rc<String>,
    pub text: Rc<String>,
}

/// A [`SubTitle`] as three character sequences.
pub struct SubTitleView {
    pub start: Seq<char>,
    pub end: Seq<char>,
    pub text: Seq<char>,
}

impl View for SubTitle {
    type V = SubTitleView;

    open spec fn view(&self) -> SubTitleView {
        SubTitleView { start: self.start@, end: self.end@, text: self.text@ }
    }
}

/// A subtitle result seen through the views of its two sides.
pub open spec fn subtitle_result_view(r: Result<SubTitle, SubTitleError>) -> Result<
    SubTitleView,
    SubTitleErrorView,
> {
    match r {
        Ok(sub) => Ok(sub@),
        Err(e) => Err(e@),
    }
}

/// What [`SubTitle::new_from_strs`] gives: the start is checked first, then
/// the end; the text is taken as it is.
pub open spec fn new_from_strs_spec(start: Seq<char>, end: Seq<char>, text: Seq<char>) -> Result<
    SubTitleView,
    SubTitleErrorView,
> {
    if !is_time_stamp(start) {
        Err(SubTitleErrorView::Start("Start has invalid time format: "@ + start))
    } else if !is_time_stamp(end) {
        Err(SubTitleErrorView::End("End has invalid time format: "@ + end))
    } else {
        Ok(SubTitleView { start, end, text })
    }
}

/// The pieces of a time stamp as [`SubTitle::split_time_stamp`] gives
/// them: the first two `:`-fields, then the third split at each `.`.
pub open spec fn time_stamp_pieces(stamp: Seq<char>) -> Seq<Seq<char>> {
    let segs = split_on(stamp, ':');
    seq![segs[0], segs[1]] + split_on(segs[2], '.')
}

impl SubTitle {
    /// Builds a subtitle, or says which part is wrong: the start and the end
    /// must be time stamps `xx:xx:xx.xx`.
    pub fn new_from_strs(start: &str, end: &str, text: &str) -> (res: Result<SubTitle, SubTitleError>)
        ensures
            subtitle_result_view(res) == new_from_strs_spec(start@, end@, text@),
    {
        if valid_time_format(start) {
            if valid_time_format(end) {
                Ok(
                    SubTitle {
                        start: Rc::new(String::from_str(start)),
                        end: Rc::new(String::from_str(end)),
                        text: Rc::new(String::from_str(text)),
                    },
                )
            } else {
                Err(SubTitleError::End(concat_str("End has invalid time format: ", end)))
            }
        } else {
            Err(SubTitleError::Start(concat_str("Start has invalid time format: ", start)))
        }
    }

    /// The fields of a time stamp: hours, minutes, then seconds and
    /// hundredths (the third `:`-field split at each `.`).
    pub fn split_time_stamp(stamp: &Rc<String>) -> (res: Vec<&str>)
        requires
            split_on(stamp@, ':').len() >= 3,
        ensures
            res@.len() == time_stamp_pieces(stamp@).len(),
            forall|k: int| 0 <= k < res@.len() ==> #[trigger] res@[k]@ == time_stamp_pieces(stamp@)[k],
            is_time_stamp(stamp@) ==> time_stamp_pieces(stamp@) == seq![
                stamp@.subrange(0, 2),
                stamp@.subrange(3, 5),
                stamp@.subrange(6, 8),
                stamp@.subrange(9, 11),
            ],
    {
        proof {
            lemma_time_stamp_pieces(stamp@);
        }
        let whole: &str = stamp.as_str();
        let mut split_stamp: Vec<&str> = Vec::new();
        let split_time = split_char(whole, ':');
        let sec_mili_split = split_char(split_time[2], '.');
        split_stamp.push(split_time[0]);
        split_stamp.push(split_time[1]);
        let ghost expected = time_stamp_pieces(stamp@);
        let mut i: usize = 0;
        while i < sec_mili_split.len()
            invariant
                i <= sec_mili_split@.len(),
                expected == time_stamp_pieces(stamp@),
                sec_mili_split@.len() + 2 == expected.len(),
                split_stamp@.len() == i + 2,
                forall|k: int| 0 <= k < sec_mili_split@.len() ==> #[trigger] sec_mili_split@[k]@ == expected[k + 2],
                forall|k: int| 0 <= k < split_stamp@.len() ==> #[trigger] split_stamp@[k]@ == expected[k],
            decreases sec_mili_split@.len() - i,
        {
            split_stamp.push(sec_mili_split[i]);
            i = i + 1;
        }
        split_stamp
    }
}

/// For a time stamp, the pieces are its four two-digit fields.
pub proof fn lemma_time_stamp_pieces(stamp: Seq<char>)
    ensures
        is_time_stamp(stamp) ==> time_stamp_pieces(stamp) == seq![
            stamp.subrange(0, 2),
            stamp.subrange(3, 5),
            stamp.subrange(6, 8),
            stamp.subrange(9, 11),
        ],
{
    if is_time_stamp(stamp) {
        lemma_time_fields_valid(stamp);
        let segs = split_on(stamp, ':');
        let secs = split_on(segs[2], '.');
        lemma_join_split(stamp, ':');
        lemma_join_split(segs[2], '.');
        assert(join_with(secs.drop_last(), '.') == secs[0]);
        assert(join_with(secs, '.') == join_with(secs.drop_last(), '.').push('.') + secs.last());
        assert(join_with(segs.drop_last().drop_last(), ':') == segs[0]);
        assert(join_with(segs.drop_last(), ':') == join_with(segs.drop_last().drop_last(), ':').push(':')
            + segs.drop_last().last());
        assert(join_with(segs, ':') == join_with(segs.drop_last(), ':').push(':') + segs.last());
        assert(segs[0] =~= stamp.subrange(0, 2));
        assert(segs[1] =~= stamp.subrange(3, 5));
        assert(secs[0] =~= stamp.subrange(6, 8));
        assert(secs[1] =~= stamp.subrange(9, 11));
        assert(time_stamp_pieces(stamp) =~= seq![
            stamp.subrange(0, 2),
            stamp.subrange(3, 5),
            stamp.subrange(6, 8),
            stamp.subrange(9, 11),
        ]);
    }
}


#[verifier::external_type_specification]
#[verifier::external_body]
pub struct ExIoError(std::io::Error);

/// Why a subtitle could not be read: the file's contents, or reading it.
#[derive(Debug)]
pub enum SubReadError {
    SubTitleError(String),
    IoError(std::io::Error),
}

/// A [`SubReadError`] with its message as a character sequence; an input
/// error is seen only as such.
pub enum SubReadErrorView {
    SubTitleError(Seq<char>),
    IoError,
}

impl View for SubReadError {
    type V = SubReadErrorView;

    open spec fn view(&self) -> SubReadErrorView {
        match self {
            SubReadError::SubTitleError(m) => SubReadErrorView::SubTitleError(m@),
            SubReadError::IoError(_) => SubReadErrorView::IoError,
        }
    }
}

/// A read result seen through the views of its two sides.
pub open spec fn read_result_view(r: Result<SubTitle, SubReadError>) -> Result<
    SubTitleView,
    SubReadErrorView,
> {
    match r {
        Ok(sub) => Ok(sub@),
        Err(e) => Err(e@),
    }
}

impl From<std::io::Error> for SubReadError {
    fn from(error: std::io::Error) -> (res: Self) {
        SubReadError::IoError(error)
    }
}

impl vstd::std_specs::convert::FromSpecImpl<std::io::Error> for SubReadError {
    open spec fn obeys_from_spec() -> bool {
        true
    }

    open spec fn from_spec(error: std::io::Error) -> Self {
        SubReadError::IoError(error)
    }
}

} // verus!
