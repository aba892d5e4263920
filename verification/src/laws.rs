//! What holds of the grammar on every text.

use vstd::prelude::*;
use crate::cmd::Command;
use crate::grammar::{
    command, endpoint, endpoint_fits, ends_endpoint, fixed, moment, number, range, range_len,
    range_span, search, spells_endpoint, spells_number, spells_range, starts_with_marker,
    CommandView, EndpointView, Matched, RangeView,
};
use crate::text::{
    all_digits, decimal_value, digit_run, is_digit, lemma_digit_run, lemma_digit_run_at_least,
    lemma_digit_run_unique, lemma_run_before, lemma_run_before_unique, run_before,
};

verus! {

/// The three kinds of endpoint exclude one another: the first character of a text decides
/// which one it can start with, so at most one alternative applies.
pub proof fn law_endpoint_kinds_exclusive(s: Seq<char>)
    ensures
        fixed(s) is Some ==> s.len() > 0 && is_digit(s[0]),
        moment(s) is Some ==> s.len() > 0 && s[0] == '#',
        search(s) is Some ==> s.len() > 0 && s[0] == '/',
        !(fixed(s) is Some && moment(s) is Some),
        !(fixed(s) is Some && search(s) is Some),
        !(moment(s) is Some && search(s) is Some),
        endpoint(s) is Some ==> starts_with_marker(s),
{
}

/// When each kind of endpoint applies. A fixed index needs a digit first; a moment needs
/// `#` and a digit right after it; either needs the number to fit in a `usize`. A search
/// needs `/` first and another `/` anywhere after it.
pub proof fn law_endpoint_applies(s: Seq<char>)
    ensures
        fixed(s) is Some <==> s.len() > 0 && is_digit(s[0]) && decimal_value(
            s.take(digit_run(s) as int),
        ) <= usize::MAX,
        moment(s) is Some <==> s.len() > 1 && s[0] == '#' && is_digit(s[1]) && decimal_value(
            s.skip(1).take(digit_run(s.skip(1)) as int),
        ) <= usize::MAX,
        search(s) is Some <==> s.len() > 0 && s[0] == '/' && s.skip(1).contains('/'),
{
    if s.len() > 0 && s[0] == '/' {
        let rest = s.skip(1);
        lemma_run_before(rest, '/');
        let n = run_before(rest, '/');
        if n == rest.len() {
            assert(rest.take(n as int) == rest);
        }
    }
}

/// An endpoint never reaches past the end of the text, is never empty, and the
/// characters it spans are a way to write it.
pub proof fn law_endpoint_spelled(s: Seq<char>)
    ensures
        endpoint(s) matches Some(e) ==> 0 < e.len <= s.len() && spells_endpoint(
            s.take(e.len as int),
            e.value,
        ),
{
    if s.len() > 0 {
        if is_digit(s[0]) {
            lemma_number_spelled(s);
        } else if s[0] == '#' {
            let rest = s.skip(1);
            lemma_number_spelled(rest);
            if let Some(n) = number(rest) {
                assert(s.take(1 + n.len as int).skip(1) == rest.take(n.len as int));
            }
        } else if s[0] == '/' {
            let rest = s.skip(1);
            lemma_run_before(rest, '/');
            if let Some(e) = search(s) {
                let pattern = s.subrange(1, e.len - 1);
                assert(pattern == rest.take(e.len - 2));
                assert(s.take(e.len as int) == seq!['/'] + pattern + seq!['/']);
            }
        }
    }
}

/// The digits that `number` reads are a way to write its value.
proof fn lemma_number_spelled(s: Seq<char>)
    ensures
        number(s) matches Some(n) ==> 0 < n.len <= s.len() && spells_number(
            s.take(n.len as int),
            n.value,
        ),
{
    lemma_digit_run(s);
}

/// How a range is chosen. A text without an endpoint at its start has no range. After an
/// endpoint, a comma followed by a second endpoint gives both; a comma followed by anything
/// else is taken with the first endpoint; and without a comma the endpoint stands alone.
pub proof fn law_range_choice(s: Seq<char>)
    ensures
        match endpoint(s) {
            None => range(s) is None,
            Some(left) => if left.len < s.len() && s[left.len as int] == ',' {
                match endpoint(s.skip(left.len as int + 1)) {
                    Some(right) => range(s) == Some(
                        Matched {
                            value: RangeView::DoubledEnded(left.value, right.value),
                            len: left.len + 1 + right.len,
                        },
                    ),
                    None => range(s) == Some(
                        Matched {
                            value: RangeView::PastToPresent(left.value),
                            len: left.len + 1,
                        },
                    ),
                }
            } else {
                range(s) == Some(
                    Matched { value: RangeView::Single(left.value), len: left.len },
                )
            },
        },
{
}

/// A line has a range exactly where it starts with an endpoint.
pub proof fn law_range_iff_endpoint(s: Seq<char>)
    ensures
        range(s) is Some <==> endpoint(s) is Some,
{
}

/// A range takes all it can. After a single endpoint no comma follows, and after an
/// endpoint with its comma no second endpoint follows: either would have been taken.
pub proof fn law_range_greedy(s: Seq<char>)
    ensures
        range(s) matches Some(r) ==> (r.value is Single ==> r.len == s.len() || (r.len
            < s.len() && s[r.len as int] != ',')),
        range(s) matches Some(r) ==> (r.value is PastToPresent ==> endpoint(
            s.skip(r.len as int),
        ) is None),
{
    law_range_choice(s);
    law_endpoint_spelled(s);
}

/// The characters that a range spans lie within the text and are a way to write that range.
pub proof fn law_range_spelled(s: Seq<char>)
    ensures
        range(s) matches Some(r) ==> 0 < r.len <= s.len() && spells_range(
            s.take(r.len as int),
            r.value,
        ),
        range_len(s) <= s.len(),
{
    law_range_choice(s);
    law_endpoint_spelled(s);
    if let Some(left) = endpoint(s) {
        if left.len < s.len() && s[left.len as int] == ',' {
            let after = s.skip(left.len as int + 1);
            law_endpoint_spelled(after);
            match endpoint(after) {
                Some(right) => {
                    let span = s.take((left.len + 1 + right.len) as int);
                    let comma = left.len as int;
                    assert(span.take(comma) == s.take(comma));
                    assert(span.skip(comma + 1) == after.take(right.len as int));
                },
                None => {
                    let span = s.take(left.len as int + 1);
                    assert(span.drop_last() == s.take(left.len as int));
                },
            }
        }
    }
}

/// Nothing is lost and nothing is added: the characters that spell the range, followed by
/// the command text, are the line.
pub proof fn law_reconstruction(s: Seq<char>)
    ensures
        range_span(s) + command(s).command == s,
{
    law_range_spelled(s);
}

/// A line that does not start with a digit, `#` or `/` has no range, and all of it is
/// command text.
pub proof fn law_no_marker_no_range(s: Seq<char>)
    requires
        !starts_with_marker(s),
    ensures
        command(s) == (CommandView { range: None, command: s }),
{
    assert(s.skip(0) == s);
}

/// A line that starts with digits has the number they write as its first endpoint,
/// provided that the digits are all of the run (no digit follows them) and the number fits
/// in a `usize`. What follows decides the shape of the range: without a comma the number
/// stands alone and the rest of the line is the command text.
pub proof fn law_leading_number(digits: Seq<char>, suffix: Seq<char>)
    requires
        digits.len() > 0,
        all_digits(digits),
        decimal_value(digits) <= usize::MAX,
        suffix.len() > 0 ==> !is_digit(suffix[0]),
    ensures
        endpoint(digits + suffix) == Some(
            Matched { value: EndpointView::Fixed(decimal_value(digits)), len: digits.len() },
        ),
        match command(digits + suffix).range {
            Some(RangeView::Single(only)) => only == EndpointView::Fixed(decimal_value(digits)),
            Some(RangeView::PastToPresent(from)) => from == EndpointView::Fixed(
                decimal_value(digits),
            ),
            Some(RangeView::DoubledEnded(left, _)) => left == EndpointView::Fixed(
                decimal_value(digits),
            ),
            None => false,
        },
        suffix.len() == 0 || suffix[0] != ',' ==> command(digits + suffix) == (CommandView {
            range: Some(RangeView::Single(EndpointView::Fixed(decimal_value(digits)))),
            command: suffix,
        }),
        suffix.len() > 0 && suffix[0] == ',' ==> command(digits + suffix) == (
        match endpoint(suffix.skip(1)) {
            Some(right) => CommandView {
                range: Some(
                    RangeView::DoubledEnded(
                        EndpointView::Fixed(decimal_value(digits)),
                        right.value,
                    ),
                ),
                command: suffix.skip(1 + right.len as int),
            },
            None => CommandView {
                range: Some(RangeView::PastToPresent(EndpointView::Fixed(decimal_value(digits)))),
                command: suffix.skip(1),
            },
        }),
{
    let s = digits + suffix;
    let n = digits.len();
    assert(s.take(n as int) == digits);
    assert(s.skip(n as int) == suffix);
    lemma_digit_run_unique(s, n);
    law_range_choice(s);
    if suffix.len() > 0 && suffix[0] == ',' {
        assert(s.skip(n as int + 1) == suffix.skip(1));
        law_endpoint_spelled(suffix.skip(1));
        match endpoint(suffix.skip(1)) {
            Some(right) => {
                assert(s.skip((n + 1 + right.len) as int) == suffix.skip(1 + right.len as int));
            },
            None => {},
        }
    }
}

/// Digits that are followed by another digit are not read on their own: whatever is read
/// at the start of such a line spans more than these digits.
pub proof fn law_digits_read_together(digits: Seq<char>, suffix: Seq<char>)
    requires
        digits.len() > 0,
        all_digits(digits),
        suffix.len() > 0 && is_digit(suffix[0]),
    ensures
        endpoint(digits + suffix) matches Some(e) ==> e.len > digits.len(),
        range(digits + suffix) matches Some(r) ==> r.len > digits.len(),
{
    let s = digits + suffix;
    let longer = s.take(digits.len() as int + 1);
    assert forall|i: int| 0 <= i < longer.len() implies is_digit(#[trigger] longer[i]) by {
        if i < digits.len() {
            assert(longer[i] == digits[i]);
        } else {
            assert(longer[i] == suffix[0]);
        }
    }
    lemma_digit_run_at_least(s, digits.len() + 1);
    law_range_choice(s);
}

/// A line that starts with digits has no range where the number they write does not fit
/// in a `usize`: all of it is command text.
pub proof fn law_number_too_large(digits: Seq<char>, suffix: Seq<char>)
    requires
        digits.len() > 0,
        all_digits(digits),
        decimal_value(digits) > usize::MAX,
        suffix.len() > 0 ==> !is_digit(suffix[0]),
    ensures
        command(digits + suffix) == (CommandView { range: None, command: digits + suffix }),
{
    let s = digits + suffix;
    assert(s.take(digits.len() as int) == digits);
    lemma_digit_run_unique(s, digits.len());
    assert(s.skip(0) == s);
}

/// Every way to write an endpoint is read back as that endpoint, whatever comes after it,
/// provided that a number fits in a `usize` and no further digit follows its digits.
pub proof fn law_endpoint_read_back(t: Seq<char>, e: EndpointView, suffix: Seq<char>)
    requires
        spells_endpoint(t, e),
        endpoint_fits(e),
        ends_endpoint(e, suffix),
    ensures
        endpoint(t + suffix) == Some(Matched { value: e, len: t.len() }),
{
    let s = t + suffix;
    assert(s.take(t.len() as int) == t);
    match e {
        EndpointView::Fixed(_) => {
            lemma_digit_run_unique(s, t.len());
        },
        EndpointView::Moment(_) => {
            let digits = t.skip(1);
            assert(s.skip(1) == digits + suffix);
            assert((digits + suffix).take(digits.len() as int) == digits);
            lemma_digit_run_unique(digits + suffix, digits.len());
        },
        EndpointView::Search(pattern) => {
            let rest = s.skip(1);
            lemma_run_before_unique(rest, '/', pattern.len());
            assert(s.subrange(1, 1 + pattern.len() as int) == pattern);
        },
    }
}

/// A single endpoint that is not followed by a comma is read back as it stands.
proof fn lemma_single_read_back(t: Seq<char>, only: EndpointView, suffix: Seq<char>)
    requires
        spells_endpoint(t, only),
        endpoint_fits(only),
        ends_endpoint(only, suffix),
        suffix.len() > 0 ==> suffix[0] != ',',
    ensures
        range(t + suffix) == Some(Matched { value: RangeView::Single(only), len: t.len() }),
{
    law_endpoint_read_back(t, only, suffix);
}

/// An endpoint and a comma, with no endpoint after them, are read back as they stand.
proof fn lemma_past_to_present_read_back(t: Seq<char>, from: EndpointView, suffix: Seq<char>)
    requires
        t.len() > 0,
        t.last() == ',',
        spells_endpoint(t.drop_last(), from),
        endpoint_fits(from),
        endpoint(suffix) is None,
    ensures
        range(t + suffix) == Some(
            Matched { value: RangeView::PastToPresent(from), len: t.len() },
        ),
{
    let s = t + suffix;
    let written = t.drop_last();
    let after = seq![','] + suffix;
    assert(s == written + after);
    law_endpoint_read_back(written, from, after);
    assert(s.skip(written.len() as int + 1) == suffix);
}

/// Two endpoints with a comma between them are read back as they stand.
proof fn lemma_double_ended_read_back(
    t: Seq<char>,
    comma: int,
    left: EndpointView,
    right: EndpointView,
    suffix: Seq<char>,
)
    requires
        0 <= comma < t.len(),
        t[comma] == ',',
        spells_endpoint(t.take(comma), left),
        spells_endpoint(t.skip(comma + 1), right),
        endpoint_fits(left),
        endpoint_fits(right),
        ends_endpoint(right, suffix),
    ensures
        range(t + suffix) == Some(
            Matched { value: RangeView::DoubledEnded(left, right), len: t.len() },
        ),
{
    let s = t + suffix;
    let after = t.skip(comma) + suffix;
    assert(s == t.take(comma) + after);
    law_endpoint_read_back(t.take(comma), left, after);
    assert(s.skip(comma + 1) == t.skip(comma + 1) + suffix);
    law_endpoint_read_back(t.skip(comma + 1), right, suffix);
}

/// Every way to write a range is read back as that range, provided that its numbers fit
/// in a `usize` and that what comes after does not go on with the range: no digit after a
/// final number, no comma after a single endpoint, no endpoint after a final comma.
pub proof fn law_range_read_back(t: Seq<char>, r: RangeView, suffix: Seq<char>)
    requires
        spells_range(t, r),
        match r {
            RangeView::Single(only) => endpoint_fits(only) && ends_endpoint(only, suffix) && (
            suffix.len() > 0 ==> suffix[0] != ','),
            RangeView::PastToPresent(from) => endpoint_fits(from) && endpoint(suffix) is None,
            RangeView::DoubledEnded(left, right) => endpoint_fits(left) && endpoint_fits(right)
                && ends_endpoint(right, suffix),
        },
    ensures
        range(t + suffix) == Some(Matched { value: r, len: t.len() }),
        command(t + suffix) == (CommandView { range: Some(r), command: suffix }),
{
    match r {
        RangeView::Single(only) => {
            lemma_single_read_back(t, only, suffix);
        },
        RangeView::PastToPresent(from) => {
            lemma_past_to_present_read_back(t, from, suffix);
        },
        RangeView::DoubledEnded(left, right) => {
            let comma = choose|comma: int|
                0 <= comma < t.len() && t[comma] == ',' && #[trigger] spells_endpoint(
                    t.take(comma),
                    left,
                ) && spells_endpoint(t.skip(comma + 1), right);
            lemma_double_ended_read_back(t, comma, left, right, suffix);
        },
    }
    assert((t + suffix).skip(t.len() as int) == suffix);
}

/// Parsing has no hidden state: what two calls return for the same line is equal in
/// every part.
pub proof fn law_deterministic(line: Seq<char>, first: Option<Command>, second: Option<Command>)
    requires
        first is Some && first.unwrap()@ == command(line),
        second is Some && second.unwrap()@ == command(line),
    ensures
        first.unwrap()@ == second.unwrap()@,
        first.unwrap()@.range == second.unwrap()@.range,
        first.unwrap()@.command == second.unwrap()@.command,
{
}

} // verus!
