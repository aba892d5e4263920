use cmd_parsing::command;
use cmd_parsing::Command;
use cmd_parsing::Endpoint::{Fixed, Moment, Search};
use cmd_parsing::Range::{DoubledEnded, PastToPresent, Single};

#[test]
fn cmd_no_range() {
    let result = command("d");

    assert_eq!(result, Command::new(None, "d"));
}

#[test]
fn past_to_present_cmd() {
    let result = command("5,d");

    assert_eq!(result, Command::new(Some(PastToPresent(Fixed(5))), "d"));
}

#[test]
fn double_ended_cmd() {
    let result = command("10,5d");

    assert_eq!(
        result,
        Command::new(Some(DoubledEnded(Fixed(10), Fixed(5))), "d")
    );
}

#[test]
fn past_to_present_moment_cmd() {
    let result = command("#5,d");

    assert_eq!(result, Command::new(Some(PastToPresent(Moment(5))), "d"));
}

#[test]
fn invalid_moment() {
    let result = command(",#5d");

    assert_eq!(result, Command::new(None, ",#5d"));
}

#[test]
fn search_cmd() {
    let result = command("/foo/d");

    assert_eq!(result, Command::new(Some(Single(Search("foo"))), "d"));
}

#[test]
fn search_to_present_cmd() {
    let result = command("/bar/,d");

    assert_eq!(
        result,
        Command::new(Some(PastToPresent(Search("bar"))), "d")
    );
}

#[test]
fn double_ended_search_cmd() {
    let result = command("/foo/,/bar/d");

    assert_eq!(
        result,
        Command::new(Some(DoubledEnded(Search("foo"), Search("bar"))), "d")
    );
}

#[test]
fn no_range_cmd() {
    let result = command("d foo bar");

    assert_eq!(result, Command::new(None, "d foo bar"));
}

#[test]
fn no_range_cmd_with_slashes() {
    let result = command("d b/ar/");

    assert_eq!(result, Command::new(None, "d b/ar/"));
}
