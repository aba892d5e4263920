use cmd_parsing::{command, Command, Endpoint, Range};

/// The number that `s` starts with, and how many bytes write it.
fn plain_number(s: &str) -> Option<(usize, usize)> {
    let len = s.bytes().take_while(|b| b.is_ascii_digit()).count();
    if len == 0 {
        return None;
    }
    s[..len].parse::<usize>().ok().map(|value| (value, len))
}

/// The endpoint that `s` starts with, and how many bytes write it.
fn plain_endpoint(s: &str) -> Option<(Endpoint<'_>, usize)> {
    if let Some((value, len)) = plain_number(s) {
        return Some((Endpoint::Fixed(value), len));
    }
    if let Some(rest) = s.strip_prefix('#') {
        return plain_number(rest).map(|(value, len)| (Endpoint::Moment(value), len + 1));
    }
    if let Some(rest) = s.strip_prefix('/') {
        return rest.find('/').map(|close| (Endpoint::Search(&rest[..close]), close + 2));
    }
    None
}

/// The reading of `s`, by the rules of the grammar taken one after the other.
fn plain_command(s: &str) -> Command<'_> {
    let Some((left, len)) = plain_endpoint(s) else {
        return Command::new(None, s);
    };
    let Some(after_comma) = s[len..].strip_prefix(',') else {
        return Command::new(Some(Range::Single(left)), &s[len..]);
    };
    match plain_endpoint(after_comma) {
        Some((right, more)) => {
            Command::new(Some(Range::DoubledEnded(left, right)), &after_comma[more..])
        }
        None => Command::new(Some(Range::PastToPresent(left)), after_comma),
    }
}

/// Calls `visit` on every line of at most `longest` characters taken from `alphabet`.
fn each_line(alphabet: &[char], longest: usize, line: &mut String, visit: &mut dyn FnMut(&str)) {
    visit(line);
    if longest == 0 {
        return;
    }
    for &c in alphabet {
        line.push(c);
        each_line(alphabet, longest - 1, line, visit);
        line.pop();
    }
}

#[test]
fn every_short_line_reads_as_the_grammar_says() {
    let alphabet = ['0', '7', '#', '/', ',', 'd', '\u{e9}'];
    let mut seen: usize = 0;
    each_line(&alphabet, 6, &mut String::new(), &mut |line| {
        assert_eq!(command(line), plain_command(line));
        seen += 1;
    });
    assert_eq!(seen, 137257);
}

#[test]
fn every_short_line_is_span_then_command() {
    let alphabet = ['1', '#', '/', ',', ' ', '\u{1F600}'];
    each_line(&alphabet, 5, &mut String::new(), &mut |line| {
        let parsed = command(line);
        assert!(line.ends_with(parsed.command));
        let span = &line[..line.len() - parsed.command.len()];
        assert_eq!(parsed.range.is_some(), !span.is_empty());
        assert_eq!(command(span).range, parsed.range);
        if parsed.range.is_none() {
            assert_eq!(parsed.command, line);
        }
    });
}

#[test]
fn long_digit_runs_read_as_the_grammar_says() {
    let largest = usize::MAX.to_string();
    for digits in 1..=largest.len() + 2 {
        for digit in ['0', '1', '9'] {
            let run: String = std::iter::repeat(digit).take(digits).collect();
            for line in [run.clone(), format!("{},", run), format!("#{}w", run), format!("1,{}", run), format!("{},{}d", run, run)] {
                assert_eq!(command(&line), plain_command(&line));
            }
        }
    }
}
