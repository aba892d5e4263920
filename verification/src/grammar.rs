//! The grammar of a command line, as functions on its text.
//!
//! ```text
//! command         := range? rest
//! range           := double_ended | past_to_present | single
//! double_ended    := endpoint "," endpoint
//! past_to_present := endpoint ","
//! single          := endpoint
//! endpoint        := fixed | moment | search
//! fixed           := digit+
//! moment          := "#" digit+
//! search          := "/" [^/]* "/"
//! rest            := any remaining characters
//! ```
//!
//! Each rule is a function from a text to what the rule recognises at the very start of
//! it: `None` where the rule does not apply, else the value and the number of characters
//! that spell it. Alternatives are ordered, and the first that applies wins. A run of
//! digits is a number only where its value fits in a `usize`; digits that write more are
//! no endpoint at all, so that a line which starts with them is plain command text.

use vstd::prelude::*;
use crate::text::{all_digits, decimal_value, digit_run, is_digit, run_before};

verus! {

/// What a grammar rule recognised at the start of a text.
pub struct Matched<T> {
    /// The value that the matched characters spell.
    pub value: T,
    /// How many characters were matched.
    pub len: nat,
}

/// The mathematical value of an [`Endpoint`](crate::cmd::Endpoint).
pub enum EndpointView {
    Fixed(nat),
    Moment(nat),
    Search(Seq<char>),
}

/// The mathematical value of a [`Range`](crate::cmd::Range).
pub enum RangeView {
    Single(EndpointView),
    DoubledEnded(EndpointView, EndpointView),
    PastToPresent(EndpointView),
}

/// The mathematical value of a [`Command`](crate::cmd::Command).
pub struct CommandView {
    /// The range, where the line starts with one.
    pub range: Option<RangeView>,
    /// The characters after the range.
    pub command: Seq<char>,
}

/// `digit+`, read as a number in base ten.
pub open spec fn number(s: Seq<char>) -> Option<Matched<nat>> {
    let len = digit_run(s);
    let value = decimal_value(s.take(len as int));
    if len > 0 && value <= usize::MAX {
        Some(Matched { value, len })
    } else {
        None
    }
}

/// `fixed := digit+`
pub open spec fn fixed(s: Seq<char>) -> Option<Matched<EndpointView>> {
    match number(s) {
        Some(n) => Some(Matched { value: EndpointView::Fixed(n.value), len: n.len }),
        None => None,
    }
}

/// `moment := "#" digit+`
pub open spec fn moment(s: Seq<char>) -> Option<Matched<EndpointView>> {
    if s.len() > 0 && s[0] == '#' {
        match number(s.skip(1)) {
            Some(n) => Some(Matched { value: EndpointView::Moment(n.value), len: 1 + n.len }),
            None => None,
        }
    } else {
        None
    }
}

/// `search := "/" [^/]* "/"`; the pattern is what stands between the two slashes.
pub open spec fn search(s: Seq<char>) -> Option<Matched<EndpointView>> {
    if s.len() > 0 && s[0] == '/' {
        let pattern_len = run_before(s.skip(1), '/');
        if 1 + pattern_len < s.len() {
            Some(
                Matched {
                    value: EndpointView::Search(s.subrange(1, 1 + pattern_len as int)),
                    len: pattern_len + 2,
                },
            )
        } else {
            None
        }
    } else {
        None
    }
}

/// `endpoint := fixed | moment | search`
pub open spec fn endpoint(s: Seq<char>) -> Option<Matched<EndpointView>> {
    if fixed(s) is Some {
        fixed(s)
    } else if moment(s) is Some {
        moment(s)
    } else {
        search(s)
    }
}

/// `double_ended := endpoint "," endpoint`
pub open spec fn double_ended(s: Seq<char>) -> Option<Matched<RangeView>> {
    match endpoint(s) {
        Some(left) => if left.len < s.len() && s[left.len as int] == ',' {
            match endpoint(s.skip(left.len as int + 1)) {
                Some(right) => Some(
                    Matched {
                        value: RangeView::DoubledEnded(left.value, right.value),
                        len: left.len + 1 + right.len,
                    },
                ),
                None => None,
            }
        } else {
            None
        },
        None => None,
    }
}

/// `past_to_present := endpoint ","`
pub open spec fn past_to_present(s: Seq<char>) -> Option<Matched<RangeView>> {
    match endpoint(s) {
        Some(from) => if from.len < s.len() && s[from.len as int] == ',' {
            Some(Matched { value: RangeView::PastToPresent(from.value), len: from.len + 1 })
        } else {
            None
        },
        None => None,
    }
}

/// `single := endpoint`
pub open spec fn single(s: Seq<char>) -> Option<Matched<RangeView>> {
    match endpoint(s) {
        Some(only) => Some(Matched { value: RangeView::Single(only.value), len: only.len }),
        None => None,
    }
}

/// `range := double_ended | past_to_present | single`
pub open spec fn range(s: Seq<char>) -> Option<Matched<RangeView>> {
    if double_ended(s) is Some {
        double_ended(s)
    } else if past_to_present(s) is Some {
        past_to_present(s)
    } else {
        single(s)
    }
}

/// How many characters at the start of `s` spell its range; zero where it has none.
pub open spec fn range_len(s: Seq<char>) -> nat {
    match range(s) {
        Some(r) => r.len,
        None => 0,
    }
}

/// The characters at the start of `s` that spell its range; empty where it has none.
pub open spec fn range_span(s: Seq<char>) -> Seq<char> {
    s.take(range_len(s) as int)
}

/// `command := range? rest`: the range where there is one, and every character after it.
pub open spec fn command(s: Seq<char>) -> CommandView {
    CommandView {
        range: match range(s) {
            Some(r) => Some(r.value),
            None => None,
        },
        command: s.skip(range_len(s) as int),
    }
}

/// `s` starts with a character that can open an endpoint: a digit, `#` or `/`.
pub open spec fn starts_with_marker(s: Seq<char>) -> bool {
    s.len() > 0 && (is_digit(s[0]) || s[0] == '#' || s[0] == '/')
}

/// `t` is one or more digits that write `value`.
pub open spec fn spells_number(t: Seq<char>, value: nat) -> bool {
    t.len() > 0 && all_digits(t) && decimal_value(t) == value
}

/// `t`, from its first character to its last, is a way to write the endpoint `e`.
pub open spec fn spells_endpoint(t: Seq<char>, e: EndpointView) -> bool {
    match e {
        EndpointView::Fixed(index) => spells_number(t, index),
        EndpointView::Moment(count) => t.len() > 0 && t[0] == '#' && spells_number(
            t.skip(1),
            count,
        ),
        EndpointView::Search(pattern) => t == seq!['/'] + pattern + seq!['/']
            && !pattern.contains('/'),
    }
}

/// The numbers that `e` holds fit in a `usize`.
pub open spec fn endpoint_fits(e: EndpointView) -> bool {
    match e {
        EndpointView::Fixed(index) => index <= usize::MAX,
        EndpointView::Moment(count) => count <= usize::MAX,
        EndpointView::Search(_) => true,
    }
}

/// `suffix` does not go on with the number that `e` ends in: where `e` is a number, no
/// digit comes first in `suffix`.
pub open spec fn ends_endpoint(e: EndpointView, suffix: Seq<char>) -> bool {
    !(e is Search) && suffix.len() > 0 ==> !is_digit(suffix[0])
}

/// `t`, from its first character to its last, is a way to write the range `r`.
pub open spec fn spells_range(t: Seq<char>, r: RangeView) -> bool {
    match r {
        RangeView::Single(only) => spells_endpoint(t, only),
        RangeView::PastToPresent(from) => t.len() > 0 && t.last() == ',' && spells_endpoint(
            t.drop_last(),
            from,
        ),
        RangeView::DoubledEnded(left, right) => exists|comma: int|
            0 <= comma < t.len() && t[comma] == ',' && #[trigger] spells_endpoint(
                t.take(comma),
                left,
            ) && spells_endpoint(t.skip(comma + 1), right),
    }
}

} // verus!
