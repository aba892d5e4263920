//! Which action a command asks for.
//!
//! The command text is split into words at white space. The first word is the keyword;
//! some keywords take the second word as their argument. A keyword that is not known, or
//! one that lacks its argument, asks for nothing.

use vstd::prelude::*;
use crate::cmd::Command;
use crate::text::chars_of;

verus! {

/// What the application is asked to do.
#[derive(Debug, Clone, PartialEq)]
pub enum Action<'a> {
    /// `quit` or `q`: shut down.
    Quit,
    /// `nick <name>`: take this nickname.
    SetNick(&'a str),
    /// `clearnick` or `cnick`: drop the nickname.
    ClearNick,
    /// `setchannel <channel>` or `schan <channel>`: switch to the channel that is named
    /// by this word, which is handed on as it was written.
    SetChannel(&'a str),
    /// `togglesidebar` or `tbar`: show the sidebar if it is hidden, hide it if it is shown.
    ToggleSidebar,
    /// Nothing to do.
    Nothing,
}

/// The mathematical value of an [`Action`].
pub enum ActionView {
    Quit,
    SetNick(Seq<char>),
    ClearNick,
    SetChannel(Seq<char>),
    ToggleSidebar,
    Nothing,
}

impl<'a> View for Action<'a> {
    type V = ActionView;

    open spec fn view(&self) -> ActionView {
        match *self {
            Action::Quit => ActionView::Quit,
            Action::SetNick(name) => ActionView::SetNick(name@),
            Action::ClearNick => ActionView::ClearNick,
            Action::SetChannel(channel) => ActionView::SetChannel(channel@),
            Action::ToggleSidebar => ActionView::ToggleSidebar,
            Action::Nothing => ActionView::Nothing,
        }
    }
}

/// `c` is white space: one of the characters that Unicode gives the property
/// `White_Space`.
pub open spec fn is_space(c: char) -> bool {
    let code = c as int;
    ||| 0x09 <= code <= 0x0D
    ||| code == 0x20
    ||| code == 0x85
    ||| code == 0xA0
    ||| code == 0x1680
    ||| 0x2000 <= code <= 0x200A
    ||| code == 0x2028
    ||| code == 0x2029
    ||| code == 0x202F
    ||| code == 0x205F
    ||| code == 0x3000
}

/// How many white-space characters `s` starts with.
pub open spec fn space_run(s: Seq<char>) -> nat
    decreases s.len(),
{
    if s.len() > 0 && is_space(s[0]) {
        1 + space_run(s.skip(1))
    } else {
        0
    }
}

/// How many characters other than white space `s` starts with.
pub open spec fn word_run(s: Seq<char>) -> nat
    decreases s.len(),
{
    if s.len() > 0 && !is_space(s[0]) {
        1 + word_run(s.skip(1))
    } else {
        0
    }
}

/// `s` without the white space that it starts with.
pub open spec fn trim_start(s: Seq<char>) -> Seq<char> {
    s.skip(space_run(s) as int)
}

/// The first word of `s`: the longest run of characters other than white space that
/// comes after any leading white space. It is empty exactly where `s` has no word.
pub open spec fn first_word(s: Seq<char>) -> Seq<char> {
    trim_start(s).take(word_run(trim_start(s)) as int)
}

/// What follows the first word of `s`.
pub open spec fn after_first_word(s: Seq<char>) -> Seq<char> {
    trim_start(s).skip(word_run(trim_start(s)) as int)
}

/// The second word of `s`; empty exactly where `s` has fewer than two words.
pub open spec fn second_word(s: Seq<char>) -> Seq<char> {
    first_word(after_first_word(s))
}

/// The action that the command text `text` asks for.
pub open spec fn action(text: Seq<char>) -> ActionView {
    let keyword = first_word(text);
    let argument = second_word(text);
    if keyword == "quit"@ || keyword == "q"@ {
        ActionView::Quit
    } else if keyword == "nick"@ {
        if argument.len() > 0 {
            ActionView::SetNick(argument)
        } else {
            ActionView::Nothing
        }
    } else if keyword == "clearnick"@ || keyword == "cnick"@ {
        ActionView::ClearNick
    } else if keyword == "setchannel"@ || keyword == "schan"@ {
        if argument.len() > 0 {
            ActionView::SetChannel(argument)
        } else {
            ActionView::Nothing
        }
    } else if keyword == "togglesidebar"@ || keyword == "tbar"@ {
        ActionView::ToggleSidebar
    } else {
        ActionView::Nothing
    }
}

/// Whether `c` is white space.
pub fn is_whitespace(c: char) -> (yes: bool)
    ensures
        yes == is_space(c),
{
    let code: u32 = c as u32;
    (0x09 <= code && code <= 0x0D) || code == 0x20 || code == 0x85 || code == 0xA0 || code
        == 0x1680 || (0x2000 <= code && code <= 0x200A) || code == 0x2028 || code == 0x2029
        || code == 0x202F || code == 0x205F || code == 0x3000
}

/// The position at which the run of white space that starts at `from` ends.
fn spaces_end(chars: &[char], from: usize) -> (end: usize)
    requires
        from <= chars.len(),
    ensures
        end == from + space_run(chars@.skip(from as int)),
        end <= chars.len(),
{
    let mut end: usize = from;
    while end < chars.len() && is_whitespace(chars[end])
        invariant
            from <= end <= chars.len(),
            from + space_run(chars@.skip(from as int)) == end + space_run(
                chars@.skip(end as int),
            ),
        decreases chars.len() - end,
    {
        assert(chars@.skip(end as int).skip(1) == chars@.skip(end + 1));
        end = end + 1;
    }
    end
}

/// The position at which the word that starts at `from` ends.
fn word_end(chars: &[char], from: usize) -> (end: usize)
    requires
        from <= chars.len(),
    ensures
        end == from + word_run(chars@.skip(from as int)),
        end <= chars.len(),
{
    let mut end: usize = from;
    while end < chars.len() && !is_whitespace(chars[end])
        invariant
            from <= end <= chars.len(),
            from + word_run(chars@.skip(from as int)) == end + word_run(
                chars@.skip(end as int),
            ),
        decreases chars.len() - end,
    {
        assert(chars@.skip(end as int).skip(1) == chars@.skip(end + 1));
        end = end + 1;
    }
    end
}

/// Whether `chars[from..to]` reads `word`.
fn reads(chars: &[char], from: usize, to: usize, word: &str) -> (same: bool)
    requires
        from <= to <= chars.len(),
    ensures
        same == (chars@.subrange(from as int, to as int) == word@),
{
    let len = word.unicode_len();
    if to - from != len {
        return false;
    }
    let ghost span = chars@.subrange(from as int, to as int);
    let mut at: usize = 0;
    while at < len
        invariant
            at <= len == word@.len() == to - from,
            to <= chars.len(),
            span == chars@.subrange(from as int, to as int),
            span.take(at as int) == word@.take(at as int),
        decreases len - at,
    {
        if chars[from + at] != word.get_char(at) {
            return false;
        }
        at = at + 1;
    }
    assert(span.take(len as int) == span);
    assert(word@.take(len as int) == word@);
    true
}

/// The action that `command` asks for. Only its text counts: the range says which items
/// the action is meant for, not which action it is.
pub fn action_of<'a>(command: &Command<'a>) -> (asked: Action<'a>)
    ensures
        asked@ == action(command.command@),
{
    let text = command.command;
    let owned = chars_of(text);
    let chars = owned.as_slice();
    let start = spaces_end(chars, 0);
    let end = word_end(chars, start);
    let next = spaces_end(chars, end);
    let stop = word_end(chars, next);
    proof {
        let s = text@;
        assert(s.skip(0) == s);
        assert(first_word(s) == chars@.subrange(start as int, end as int));
        assert(after_first_word(s) == s.skip(end as int));
        assert(trim_start(s.skip(end as int)) == s.skip(next as int));
        assert(second_word(s) == chars@.subrange(next as int, stop as int));
    }
    if reads(chars, start, end, "quit") || reads(chars, start, end, "q") {
        Action::Quit
    } else if reads(chars, start, end, "nick") {
        if next < stop {
            Action::SetNick(text.substring_char(next, stop))
        } else {
            Action::Nothing
        }
    } else if reads(chars, start, end, "clearnick") || reads(chars, start, end, "cnick") {
        Action::ClearNick
    } else if reads(chars, start, end, "setchannel") || reads(chars, start, end, "schan") {
        if next < stop {
            Action::SetChannel(text.substring_char(next, stop))
        } else {
            Action::Nothing
        }
    } else if reads(chars, start, end, "togglesidebar") || reads(chars, start, end, "tbar") {
        Action::ToggleSidebar
    } else {
        Action::Nothing
    }
}

} // verus!
