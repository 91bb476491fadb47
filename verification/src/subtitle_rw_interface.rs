//! The first form of the subtitle type: the same time stamp rule as in
//! [`crate::converters::subtitle_rw_interface`], and a bound on the text.

use std::rc::Rc;
use vstd::prelude::*;
use vstd::string::*;
use crate::converters::subtitle_rw_interface::{is_time_stamp, valid_time_format};
use crate::text::{byte_len, concat_str};

verus! {

/// The most bytes that a subtitle's text may take, so that it does not
/// cover too much of the screen.
pub const MAXSUBLENGTH: usize = 80;

/// Why a subtitle could not be built from its parts; each variant carries
/// a message that ends with the offending input.
pub enum SubTitleError {
    Start(String),
    End(String),
    Text(String),
}

/// A [`SubTitleError`] with its message as a character sequence.
pub enum SubTitleErrorView {
    Start(Seq<char>),
    End(Seq<char>),
    Text(Seq<char>),
}

impl View for SubTitleError {
    type V = SubTitleErrorView;

    open spec fn view(&self) -> SubTitleErrorView {
        match self {
            SubTitleError::Start(m) => SubTitleErrorView::Start(m@),
            SubTitleError::End(m) => SubTitleErrorView::End(m@),
            SubTitleError::Text(m) => SubTitleErrorView::Text(m@),
        }
    }
}

/// One subtitle: when it starts, when it ends (both `xx:xx:xx.xx`) and its
/// text, at most [`MAXSUBLENGTH`] bytes. Clones share the strings.
#[derive(Clone)]
pub struct SubTitle {
    start: Rc<String>,
    end: Rc<String>,
    text: Rc<String>,
}

/// A [`SubTitle`] as three character sequences.
pub struct SubTitleView {
    pub start: Seq<char>,
    pub end: Seq<char>,
    pub text: Seq<char>,
}

impl View for SubTitle {
    type V = SubTitleView;

    closed spec fn view(&self) -> SubTitleView {
        SubTitleView { start: self.start@, end: self.end@, text: self.text@ }
    }
}

/// A subtitle result seen through the views of its two sides.
pub open spec fn subtitle_result_view(r: Result<SubTitle, SubTitleError>) -> Result<
    SubTitleView,
    SubTitleErrorView,
> {
    match r {
        Ok(sub) => Ok(sub@),
        Err(e) => Err(e@),
    }
}

/// What [`SubTitle::new_from_strs`] gives: the start is checked first, then
/// the end, then the length of the text.
pub open spec fn new_from_strs_spec(start: Seq<char>, end: Seq<char>, text: Seq<char>) -> Result<
    SubTitleView,
    SubTitleErrorView,
> {
    if !is_time_stamp(start) {
        Err(SubTitleErrorView::Start("Start has invalid time format: "@ + start))
    } else if !is_time_stamp(end) {
        Err(SubTitleErrorView::End("End has invalid time format: "@ + end))
    } else if byte_len(text) > MAXSUBLENGTH {
        Err(SubTitleErrorView::Text("This subtitle is too long: "@ + text))
    } else {
        Ok(SubTitleView { start, end, text })
    }
}

/// With valid times, the whole text decides: it is accepted exactly when
/// its UTF-8 encoding takes at most 80 bytes, and refused with a message
/// that ends with the whole text otherwise; a subtitle built always has a
/// text of at most 80 bytes.
pub proof fn lemma_text_bound(start: Seq<char>, end: Seq<char>, text: Seq<char>)
    ensures
        new_from_strs_spec(start, end, text) is Ok ==> byte_len(text) <= 80,
        is_time_stamp(start) && is_time_stamp(end) && byte_len(text) > 80 ==> new_from_strs_spec(
            start,
            end,
            text,
        ) == Err::<SubTitleView, SubTitleErrorView>(
            SubTitleErrorView::Text("This subtitle is too long: "@ + text),
        ),
        is_time_stamp(start) && is_time_stamp(end) && byte_len(text) <= 80 ==> new_from_strs_spec(
            start,
            end,
            text,
        ) is Ok,
{
}

impl SubTitle {
    /// Builds a subtitle, or says which part is wrong: the start and the end
    /// must be time stamps `xx:xx:xx.xx`, the text at most 80 bytes long.
    pub fn new_from_strs(start: &str, end: &str, text: &str) -> (res: Result<SubTitle, SubTitleError>)
        ensures
            subtitle_result_view(res) == new_from_strs_spec(start@, end@, text@),
            res is Ok ==> byte_len(text@) <= 80,
            is_time_stamp(start@) && is_time_stamp(end@) && byte_len(text@) > 80 ==> res is Err
                && res->Err_0@ == SubTitleErrorView::Text("This subtitle is too long: "@ + text@),
            is_time_stamp(start@) && is_time_stamp(end@) && byte_len(text@) <= 80 ==> res is Ok,
    {
        proof {
            lemma_text_bound(start@, end@, text@);
        }
        if valid_time_format(start) {
            if valid_time_format(end) {
                if text.len() <= MAXSUBLENGTH {
                    Ok(
                        SubTitle {
                            start: Rc::new(String::from_str(start)),
                            end: Rc::new(String::from_str(end)),
                            text: Rc::new(String::from_str(text)),
                        },
                    )
                } else {
                    Err(SubTitleError::Text(concat_str("This subtitle is too long: ", text)))
                }
            } else {
                Err(SubTitleError::End(concat_str("End has invalid time format: ", end)))
            }
        } else {
            Err(SubTitleError::Start(concat_str("Start has invalid time format: ", start)))
        }
    }
}

} // verus!
