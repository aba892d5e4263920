//! The parser: from a command line to its range and its command text.

use vstd::prelude::*;
use crate::grammar;
use crate::grammar::{CommandView, EndpointView, RangeView};
use crate::laws::{law_no_marker_no_range, law_reconstruction};
use crate::text::{chars_of, digits_end, lemma_digit_run, position_of, value_of_digits};

verus! {

/// One position in the sequence of items that a command works on.
#[derive(Debug, Clone, PartialEq)]
pub enum Endpoint<'a> {
    /// The item with this index.
    Fixed(usize),
    /// The item this many steps away from the present one.
    Moment(usize),
    /// The item that this pattern finds.
    Search(&'a str),
}

/// The items that a command applies to.
#[derive(Debug, Clone, PartialEq)]
pub enum Range<'a> {
    /// One item.
    Single(Endpoint<'a>),
    /// The items from the first position to the second.
    DoubledEnded(Endpoint<'a>, Endpoint<'a>),
    /// The items from a position up to the present.
    PastToPresent(Endpoint<'a>),
}

/// A command line, split into its range and the text that follows it.
#[derive(Debug, Clone, PartialEq)]
pub struct Command<'a> {
    /// The items that the command applies to, where the line names any.
    pub range: Option<Range<'a>>,
    /// Everything after the range, exactly as it was typed.
    pub command: &'a str,
}

impl<'a> View for Endpoint<'a> {
    type V = EndpointView;

    open spec fn view(&self) -> EndpointView {
        match *self {
            Endpoint::Fixed(index) => EndpointView::Fixed(index as nat),
            Endpoint::Moment(count) => EndpointView::Moment(count as nat),
            Endpoint::Search(pattern) => EndpointView::Search(pattern@),
        }
    }
}

impl<'a> View for Range<'a> {
    type V = RangeView;

    open spec fn view(&self) -> RangeView {
        match *self {
            Range::Single(only) => RangeView::Single(only@),
            Range::DoubledEnded(left, right) => RangeView::DoubledEnded(left@, right@),
            Range::PastToPresent(from) => RangeView::PastToPresent(from@),
        }
    }
}

impl<'a> View for Command<'a> {
    type V = CommandView;

    open spec fn view(&self) -> CommandView {
        CommandView {
            range: match self.range {
                Some(range) => Some(range@),
                None => None,
            },
            command: self.command@,
        }
    }
}

impl<'a> Command<'a> {
    /// A command with the given range and text.
    pub fn new(range: Option<Range<'a>>, command: &'a str) -> (made: Command<'a>)
        ensures
            made.range == range,
            made.command == command,
    {
        Command { range, command }
    }
}

/// `digit+` at position `from` of `chars`: the number and the position after its last digit.
fn number_at(chars: &[char], from: usize) -> (found: Option<(usize, usize)>)
    requires
        from <= chars.len(),
    ensures
        match grammar::number(chars@.skip(from as int)) {
            Some(n) => found matches Some((value, end)) && value == n.value && end == from
                + n.len,
            None => found is None,
        },
        found matches Some((_, end)) ==> from < end <= chars.len(),
{
    let end = digits_end(chars, from);
    if end == from {
        return None;
    }
    proof {
        let s = chars@.skip(from as int);
        lemma_digit_run(s);
        assert(s.take(end - from) == chars@.subrange(from as int, end as int));
    }
    match value_of_digits(chars, from, end) {
        Some(value) => Some((value, end)),
        None => None,
    }
}

/// `endpoint` at position `from` of `text`: the endpoint and the position after it.
/// `chars` holds the characters of `text`.
fn endpoint_at<'a>(text: &'a str, chars: &[char], from: usize) -> (found: Option<
    (Endpoint<'a>, usize),
>)
    requires
        chars@ == text@,
        from <= chars.len(),
    ensures
        match grammar::endpoint(text@.skip(from as int)) {
            Some(e) => found matches Some((value, end)) && value@ == e.value && end == from
                + e.len,
            None => found is None,
        },
        found matches Some((_, end)) ==> from < end <= chars.len(),
{
    if from == chars.len() {
        return None;
    }
    let ghost s = text@.skip(from as int);
    let first = chars[from];
    if '0' <= first && first <= '9' {
        match number_at(chars, from) {
            Some((index, end)) => Some((Endpoint::Fixed(index), end)),
            None => None,
        }
    } else if first == '#' {
        assert(s.skip(1) == text@.skip(from + 1));
        match number_at(chars, from + 1) {
            Some((count, end)) => Some((Endpoint::Moment(count), end)),
            None => None,
        }
    } else if first == '/' {
        assert(s.skip(1) == text@.skip(from + 1));
        let close = position_of(chars, from + 1, '/');
        if close < chars.len() {
            let pattern = text.substring_char(from + 1, close);
            assert(pattern@ == s.subrange(1, close - from));
            Some((Endpoint::Search(pattern), close + 1))
        } else {
            None
        }
    } else {
        None
    }
}

/// `range` at the start of `text`: the range and the position after it. `chars` holds the
/// characters of `text`.
fn range_at_start<'a>(text: &'a str, chars: &[char]) -> (found: Option<(Range<'a>, usize)>)
    requires
        chars@ == text@,
    ensures
        match grammar::range(text@) {
            Some(r) => found matches Some((value, end)) && value@ == r.value && end == r.len,
            None => found is None,
        },
        found matches Some((_, end)) ==> 0 < end <= chars.len(),
{
    assert(text@.skip(0) == text@);
    match endpoint_at(text, chars, 0) {
        None => None,
        Some((left, comma)) => {
            if comma < chars.len() && chars[comma] == ',' {
                match endpoint_at(text, chars, comma + 1) {
                    Some((right, end)) => Some((Range::DoubledEnded(left, right), end)),
                    None => Some((Range::PastToPresent(left), comma + 1)),
                }
            } else {
                Some((Range::Single(left), comma))
            }
        },
    }
}

/// Reads the number that `input` starts with.
///
/// Returns what follows the number and its value, or `None` where `input` does not start
/// with a digit or the digits write a number too large for a `usize`.
pub fn number<'a>(input: &'a str) -> (found: Option<(&'a str, usize)>)
    ensures
        match grammar::number(input@) {
            Some(n) => found matches Some((rest, value)) && value == n.value && rest@
                == input@.skip(n.len as int),
            None => found is None,
        },
{
    let chars = chars_of(input);
    let all = chars.as_slice();
    assert(all@.skip(0) == input@);
    match number_at(all, 0) {
        Some((value, end)) => {
            let rest = input.substring_char(end, chars.len());
            Some((rest, value))
        },
        None => None,
    }
}

/// Splits a command line into its range and the command text after it.
///
/// Every line has a reading: one that does not start with a range is command text as a
/// whole, whatever it looks like.
pub fn command<'a>(input: &'a str) -> (parsed: Command<'a>)
    ensures
        parsed@ == grammar::command(input@),
        grammar::range_span(input@) + parsed@.command == input@,
        !grammar::starts_with_marker(input@) ==> parsed@.range is None && parsed@.command
            == input@,
{
    proof {
        law_reconstruction(input@);
        if !grammar::starts_with_marker(input@) {
            law_no_marker_no_range(input@);
        }
    }
    let chars = chars_of(input);
    match range_at_start(input, chars.as_slice()) {
        Some((range, end)) => Command {
            range: Some(range),
            command: input.substring_char(end, chars.len()),
        },
        None => {
            Command { range: None, command: input }
        },
    }
}

/// Splits a command line into its range and the command text after it. The result is
/// never `None`.
pub fn parse_cmd<'a>(cmd: &'a str) -> (parsed: Option<Command<'a>>)
    ensures
        parsed is Some,
        parsed.unwrap()@ == grammar::command(cmd@),
        grammar::range_span(cmd@) + parsed.unwrap()@.command == cmd@,
        !grammar::starts_with_marker(cmd@) ==> parsed.unwrap()@.range is None
            && parsed.unwrap()@.command == cmd@,
{
    Some(command(cmd))
}

} // verus!
