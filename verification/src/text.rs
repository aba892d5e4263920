//! Character-level building blocks of the grammar: runs of decimal digits, the number
//! they write, and the distance to a delimiter.
//!
//! Texts are modelled as `Seq<char>`, the view of a `str`. The executable scanners work
//! on a slice of the same characters, so that every step is a constant-time index.

use vstd::prelude::*;
use vstd::std_specs::iter::IteratorSpec;

verus! {

/// `c` is one of the decimal digits `0` to `9`.
pub open spec fn is_digit(c: char) -> bool {
    '0' <= c && c <= '9'
}

/// The number that a decimal digit stands for.
pub open spec fn digit_value(c: char) -> nat
    recommends
        is_digit(c),
{
    (c as int - '0' as int) as nat
}

/// Every character of `s` is a decimal digit.
pub open spec fn all_digits(s: Seq<char>) -> bool {
    forall|i: int| 0 <= i < s.len() ==> is_digit(#[trigger] s[i])
}

/// How many decimal digits `s` starts with.
pub open spec fn digit_run(s: Seq<char>) -> nat
    decreases s.len(),
{
    if s.len() > 0 && is_digit(s[0]) {
        1 + digit_run(s.skip(1))
    } else {
        0
    }
}

/// How many characters of `s` come before the first `stop`; the length of `s` where
/// `stop` does not occur.
pub open spec fn run_before(s: Seq<char>, stop: char) -> nat
    decreases s.len(),
{
    if s.len() > 0 && s[0] != stop {
        1 + run_before(s.skip(1), stop)
    } else {
        0
    }
}

/// The number written in base ten by `digits`, most significant digit first. Leading
/// zeros do not change it, and the empty text writes zero.
pub open spec fn decimal_value(digits: Seq<char>) -> nat
    decreases digits.len(),
{
    if digits.len() == 0 {
        0
    } else {
        10 * decimal_value(digits.drop_last()) + digit_value(digits.last())
    }
}

/// `digit_run(s)` is the length of the longest prefix of `s` made of digits only.
pub proof fn lemma_digit_run(s: Seq<char>)
    ensures
        digit_run(s) <= s.len(),
        all_digits(s.take(digit_run(s) as int)),
        digit_run(s) < s.len() ==> !is_digit(s[digit_run(s) as int]),
    decreases s.len(),
{
    if s.len() > 0 && is_digit(s[0]) {
        lemma_digit_run(s.skip(1));
        let n = digit_run(s);
        assert forall|i: int| 0 <= i < n implies is_digit(#[trigger] s.take(n as int)[i]) by {
            if i > 0 {
                assert(s.take(n as int)[i] == s.skip(1).take(n - 1)[i - 1]);
            }
        }
    }
}

/// A prefix of digits that cannot be extended is the digit run.
pub proof fn lemma_digit_run_unique(s: Seq<char>, n: nat)
    requires
        n <= s.len(),
        all_digits(s.take(n as int)),
        n < s.len() ==> !is_digit(s[n as int]),
    ensures
        digit_run(s) == n,
    decreases n,
{
    if n > 0 {
        assert(s[0] == s.take(n as int)[0]);
        let rest = s.skip(1);
        assert forall|i: int| 0 <= i < n - 1 implies is_digit(
            #[trigger] rest.take(n - 1)[i],
        ) by {
            assert(rest.take(n - 1)[i] == s.take(n as int)[i + 1]);
        }
        lemma_digit_run_unique(rest, (n - 1) as nat);
    }
}

/// The digit run is at least as long as any prefix made of digits only.
pub proof fn lemma_digit_run_at_least(s: Seq<char>, n: nat)
    requires
        n <= s.len(),
        all_digits(s.take(n as int)),
    ensures
        digit_run(s) >= n,
    decreases n,
{
    if n > 0 {
        assert(s[0] == s.take(n as int)[0]);
        let rest = s.skip(1);
        assert forall|i: int| 0 <= i < n - 1 implies is_digit(
            #[trigger] rest.take(n - 1)[i],
        ) by {
            assert(rest.take(n - 1)[i] == s.take(n as int)[i + 1]);
        }
        lemma_digit_run_at_least(rest, (n - 1) as nat);
    }
}

/// `run_before(s, stop)` is the position of the first `stop` in `s`, or the length of
/// `s` where there is none.
pub proof fn lemma_run_before(s: Seq<char>, stop: char)
    ensures
        run_before(s, stop) <= s.len(),
        !s.take(run_before(s, stop) as int).contains(stop),
        run_before(s, stop) < s.len() ==> s[run_before(s, stop) as int] == stop,
    decreases s.len(),
{
    if s.len() > 0 && s[0] != stop {
        lemma_run_before(s.skip(1), stop);
        let n = run_before(s, stop);
        let head = s.take(n as int);
        let shorter = s.skip(1).take(n - 1);
        if head.contains(stop) {
            let i = choose|i: int| 0 <= i < head.len() && head[i] == stop;
            assert(shorter[i - 1] == stop);
        }
    }
}

/// A prefix without `stop` that ends at a `stop`, or at the end of `s`, is the run before it.
pub proof fn lemma_run_before_unique(s: Seq<char>, stop: char, n: nat)
    requires
        n <= s.len(),
        !s.take(n as int).contains(stop),
        n < s.len() ==> s[n as int] == stop,
    ensures
        run_before(s, stop) == n,
    decreases n,
{
    if n > 0 {
        assert(s.take(n as int)[0] == s[0]);
        let rest = s.skip(1);
        let shorter = rest.take(n - 1);
        if shorter.contains(stop) {
            let i = choose|i: int| 0 <= i < shorter.len() && shorter[i] == stop;
            assert(s.take(n as int)[i + 1] == stop);
        }
        lemma_run_before_unique(rest, stop, (n - 1) as nat);
    }
}

/// Writing more digits after a number never makes it smaller.
pub proof fn lemma_decimal_value_prefix(digits: Seq<char>, k: nat)
    requires
        k <= digits.len(),
    ensures
        decimal_value(digits.take(k as int)) <= decimal_value(digits),
    decreases digits.len(),
{
    if k < digits.len() {
        assert(digits.drop_last().take(k as int) == digits.take(k as int));
        lemma_decimal_value_prefix(digits.drop_last(), k);
    } else {
        assert(digits.take(k as int) == digits);
    }
}

/// Collects the characters of `text` so that they can be indexed in constant time.
pub(crate) fn chars_of(text: &str) -> (chars: Vec<char>)
    ensures
        chars@ == text@,
{
    let mut chars: Vec<char> = Vec::new();
    let mut rest = text.chars();
    loop
        invariant
            chars@ + rest.remaining() == text@,
            rest.decrease() is Some,
        ensures
            chars@ == text@,
        decreases rest.decrease()->0,
    {
        match rest.next() {
            Some(c) => {
                chars.push(c);
            },
            None => {
                break ;
            },
        }
    }
    chars
}

/// The position at which the run of digits that starts at `from` ends.
pub(crate) fn digits_end(chars: &[char], from: usize) -> (end: usize)
    requires
        from <= chars.len(),
    ensures
        end == from + digit_run(chars@.skip(from as int)),
        end <= chars.len(),
{
    let mut end: usize = from;
    while end < chars.len() && '0' <= chars[end] && chars[end] <= '9'
        invariant
            from <= end <= chars.len(),
            from + digit_run(chars@.skip(from as int)) == end + digit_run(
                chars@.skip(end as int),
            ),
        decreases chars.len() - end,
    {
        assert(chars@.skip(end as int).skip(1) == chars@.skip(end + 1));
        end = end + 1;
    }
    end
}

/// The position of the first `stop` at or after `from`, or the length of `chars` where
/// there is none.
pub(crate) fn position_of(chars: &[char], from: usize, stop: char) -> (at: usize)
    requires
        from <= chars.len(),
    ensures
        at == from + run_before(chars@.skip(from as int), stop),
        at <= chars.len(),
{
    let mut at: usize = from;
    while at < chars.len() && chars[at] != stop
        invariant
            from <= at <= chars.len(),
            from + run_before(chars@.skip(from as int), stop) == at + run_before(
                chars@.skip(at as int),
                stop,
            ),
        decreases chars.len() - at,
    {
        assert(chars@.skip(at as int).skip(1) == chars@.skip(at + 1));
        at = at + 1;
    }
    at
}

/// The number written by `chars[from..end]`, or `None` where it does not fit in a `usize`.
pub(crate) fn value_of_digits(chars: &[char], from: usize, end: usize) -> (value: Option<usize>)
    requires
        from <= end <= chars.len(),
        all_digits(chars@.subrange(from as int, end as int)),
    ensures
        match value {
            Some(v) => v == decimal_value(chars@.subrange(from as int, end as int)),
            None => decimal_value(chars@.subrange(from as int, end as int)) > usize::MAX,
        },
{
    let ghost digits = chars@.subrange(from as int, end as int);
    let mut value: usize = 0;
    let mut at: usize = from;
    while at < end
        invariant
            from <= at <= end <= chars.len(),
            digits == chars@.subrange(from as int, end as int),
            all_digits(digits),
            value == decimal_value(digits.take(at - from)),
        decreases end - at,
    {
        let c = chars[at];
        proof {
            let longer = digits.take(at + 1 - from);
            assert(longer.drop_last() == digits.take(at - from));
            lemma_decimal_value_prefix(digits, (at + 1 - from) as nat);
        }
        let digit: usize = (c as u32 - '0' as u32) as usize;
        let shifted = match value.checked_mul(10) {
            Some(shifted) => shifted,
            None => {
                return None;
            },
        };
        value = match shifted.checked_add(digit) {
            Some(sum) => sum,
            None => {
                return None;
            },
        };
        at = at + 1;
    }
    assert(digits.take(end - from) == digits);
    Some(value)
}

} // verus!
