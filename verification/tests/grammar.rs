use cmd_parsing::Endpoint::{Fixed, Moment, Search};
use cmd_parsing::Range::{DoubledEnded, PastToPresent, Single};
use cmd_parsing::{command, number, parse_cmd, Command};

/// The characters of `input` that the range of `input` spans.
fn span_of(input: &str) -> &str {
    let parsed = command(input);
    &input[..input.len() - parsed.command.len()]
}

#[test]
fn parse_cmd_is_the_total_reading() {
    for line in ["", "d", "5,d", "10,5d", ",#5d", "/foo", "#", "/foo/,/bar/d", "99999999999999999999999"] {
        assert_eq!(parse_cmd(line), Some(command(line)));
    }
}

#[test]
fn new_keeps_both_parts() {
    let made = Command::new(Some(Single(Moment(3))), " w ");
    assert_eq!(made.range, Some(Single(Moment(3))));
    assert_eq!(made.command, " w ");
    let bare = Command::new(None, "");
    assert_eq!(bare.range, None);
    assert_eq!(bare.command, "");
}

#[test]
fn empty_line() {
    assert_eq!(command(""), Command::new(None, ""));
}

#[test]
fn endpoint_alone_leaves_empty_command() {
    assert_eq!(command("5"), Command::new(Some(Single(Fixed(5))), ""));
    assert_eq!(command("#12"), Command::new(Some(Single(Moment(12))), ""));
    assert_eq!(command("/x y/"), Command::new(Some(Single(Search("x y"))), ""));
    assert_eq!(command("5,"), Command::new(Some(PastToPresent(Fixed(5))), ""));
    assert_eq!(command("10,5"), Command::new(Some(DoubledEnded(Fixed(10), Fixed(5))), ""));
}

#[test]
fn number_is_read_in_base_ten() {
    assert_eq!(command("0d").range, Some(Single(Fixed(0))));
    assert_eq!(command("10d").range, Some(Single(Fixed(10))));
    assert_eq!(command("1234567890 x").range, Some(Single(Fixed(1234567890))));
    assert_eq!(command("#409d").range, Some(Single(Moment(409))));
}

#[test]
fn leading_zeros_do_not_change_the_number() {
    assert_eq!(command("007d"), Command::new(Some(Single(Fixed(7))), "d"));
    assert_eq!(command("#000,"), Command::new(Some(PastToPresent(Moment(0))), ""));
}

#[test]
fn leading_number_is_the_first_endpoint() {
    assert_eq!(command("12 rest"), Command::new(Some(Single(Fixed(12))), " rest"));
    assert_eq!(command("12,rest"), Command::new(Some(PastToPresent(Fixed(12))), "rest"));
    assert_eq!(command("12,#3rest"), Command::new(Some(DoubledEnded(Fixed(12), Moment(3))), "rest"));
    assert_eq!(command("12,/a/rest"), Command::new(Some(DoubledEnded(Fixed(12), Search("a"))), "rest"));
    assert_eq!(command("123"), Command::new(Some(Single(Fixed(123))), ""));
}

#[test]
fn largest_number_fits() {
    let line = format!("{}d", usize::MAX);
    assert_eq!(command(&line), Command::new(Some(Single(Fixed(usize::MAX))), "d"));
    let moment = format!("#{},", usize::MAX);
    assert_eq!(command(&moment), Command::new(Some(PastToPresent(Moment(usize::MAX))), ""));
}

#[test]
fn number_too_large_is_no_endpoint() {
    let digits = format!("{}0", usize::MAX);
    let line = format!("{}d", digits);
    assert_eq!(command(&line), Command::new(None, &line));
    let one_more = "18446744073709551616";
    if usize::MAX as u128 == u64::MAX as u128 {
        assert_eq!(command(one_more), Command::new(None, one_more));
    }
    let moment = format!("#{}", digits);
    assert_eq!(command(&moment), Command::new(None, &moment));
}

#[test]
fn second_number_too_large_leaves_the_comma_taken() {
    let digits = format!("{}9", usize::MAX);
    let line = format!("1,{}d", digits);
    let rest = format!("{}d", digits);
    assert_eq!(command(&line), Command::new(Some(PastToPresent(Fixed(1))), &rest));
}

#[test]
fn moment_needs_a_digit() {
    assert_eq!(command("#"), Command::new(None, "#"));
    assert_eq!(command("#d"), Command::new(None, "#d"));
    assert_eq!(command("# 5"), Command::new(None, "# 5"));
    assert_eq!(command("##5"), Command::new(None, "##5"));
}

#[test]
fn search_needs_its_closing_slash() {
    assert_eq!(command("/"), Command::new(None, "/"));
    assert_eq!(command("/foo"), Command::new(None, "/foo"));
    assert_eq!(command("/foo,5d"), Command::new(None, "/foo,5d"));
}

#[test]
fn search_pattern_may_be_empty() {
    assert_eq!(command("//d"), Command::new(Some(Single(Search(""))), "d"));
    assert_eq!(command("//,//"), Command::new(Some(DoubledEnded(Search(""), Search(""))), ""));
}

#[test]
fn search_pattern_ends_at_the_next_slash() {
    assert_eq!(command("/a/b/c"), Command::new(Some(Single(Search("a"))), "b/c"));
    assert_eq!(command("/a,b/,5"), Command::new(Some(DoubledEnded(Search("a,b"), Fixed(5))), ""));
    assert_eq!(command("/#1/d"), Command::new(Some(Single(Search("#1"))), "d"));
}

#[test]
fn search_pattern_keeps_every_character() {
    assert_eq!(command("/ caf\u{e9} \u{1F600}/,w"), Command::new(Some(PastToPresent(Search(" caf\u{e9} \u{1F600}"))), "w"));
    assert_eq!(command("/\u{e9}/\u{e9}"), Command::new(Some(Single(Search("\u{e9}"))), "\u{e9}"));
}

#[test]
fn comma_without_second_endpoint_is_taken() {
    assert_eq!(command("5,,d"), Command::new(Some(PastToPresent(Fixed(5))), ",d"));
    assert_eq!(command("5, 6"), Command::new(Some(PastToPresent(Fixed(5))), " 6"));
    assert_eq!(command("/a/,/b"), Command::new(Some(PastToPresent(Search("a"))), "/b"));
    assert_eq!(command("#1,#d"), Command::new(Some(PastToPresent(Moment(1))), "#d"));
}

#[test]
fn at_most_two_endpoints() {
    assert_eq!(command("1,2,3"), Command::new(Some(DoubledEnded(Fixed(1), Fixed(2))), ",3"));
    assert_eq!(command("#5,#6x"), Command::new(Some(DoubledEnded(Moment(5), Moment(6))), "x"));
    assert_eq!(command("1,/a/,#2"), Command::new(Some(DoubledEnded(Fixed(1), Search("a"))), ",#2"));
}

#[test]
fn command_text_is_not_trimmed() {
    assert_eq!(command("5 ,d"), Command::new(Some(Single(Fixed(5))), " ,d"));
    assert_eq!(command("3  d  "), Command::new(Some(Single(Fixed(3))), "  d  "));
    assert_eq!(command(" 5,d"), Command::new(None, " 5,d"));
    assert_eq!(command("\t/a/"), Command::new(None, "\t/a/"));
}

#[test]
fn only_ascii_digits_count() {
    assert_eq!(command("\u{663}d"), Command::new(None, "\u{663}d"));
    assert_eq!(command("5\u{663}"), Command::new(Some(Single(Fixed(5))), "\u{663}"));
    assert_eq!(command("+5"), Command::new(None, "+5"));
    assert_eq!(command("-5"), Command::new(None, "-5"));
}

#[test]
fn line_without_marker_is_all_command() {
    for line in ["d foo bar", "", " ", ",", "quit", "x/5/", "\u{e9}5", "-1,2", "a#1"] {
        assert_eq!(command(line), Command::new(None, line));
    }
}

#[test]
fn span_and_command_make_the_line() {
    let lines = [
        "", "d", "5", "5,", "5,d", "10,5d", "#5,d", ",#5d", "/foo/d", "/bar/,d", "/foo/,/bar/d",
        "d b/ar/", "/foo", "#", "1,2,3", "//", "/\u{e9}\u{1F600}/,\u{e9}", "007 x",
        "99999999999999999999999 d", "1,99999999999999999999999",
    ];
    for line in lines {
        let parsed = command(line);
        let span = span_of(line);
        assert_eq!(format!("{}{}", span, parsed.command), line);
        assert!(line.ends_with(parsed.command));
        assert_eq!(parsed.range.is_none(), span.is_empty());
    }
    assert_eq!(span_of("10,5d"), "10,5");
    assert_eq!(span_of("/foo/,/bar/d"), "/foo/,/bar/");
    assert_eq!(span_of("#5,d"), "#5,");
    assert_eq!(span_of(",#5d"), "");
}

#[test]
fn same_line_same_result() {
    for line in ["", "5,d", "/foo/,/bar/d", "d foo bar", "#1,#2 x", "/open"] {
        let first = command(line);
        let second = command(line);
        assert_eq!(first, second);
        assert_eq!(parse_cmd(line), parse_cmd(line));
    }
    let owned = String::from("10,5d");
    assert_eq!(command(&owned), command("10,5d"));
}

#[test]
fn number_reads_leading_digits() {
    assert_eq!(number("42abc"), Some(("abc", 42)));
    assert_eq!(number("42"), Some(("", 42)));
    assert_eq!(number("0010,5"), Some((",5", 10)));
    assert_eq!(number("7\u{e9}"), Some(("\u{e9}", 7)));
}

#[test]
fn number_rejects_what_is_no_number() {
    assert_eq!(number(""), None);
    assert_eq!(number("abc"), None);
    assert_eq!(number(" 5"), None);
    assert_eq!(number("#5"), None);
    assert_eq!(number("+5"), None);
    let too_large = format!("{}0", usize::MAX);
    assert_eq!(number(&too_large), None);
    let largest = format!("{}", usize::MAX);
    assert_eq!(number(&largest), Some(("", usize::MAX)));
}
