use winnow::ascii::{alpha1, line_ending, space0};
use winnow::combinator::{delimited, preceded, repeat, separated_pair, terminated};
use winnow::error::Error;
use winnow::token::{tag, take_till1};
use winnow::{IResult, Parser};
use yarn_slinger::parser::{
    hashtag_text, parse, parse_body_end_marker, parse_body_start_marker, parse_delimited_body,
    parse_dialogue, parse_file_hashtag, parse_file_hashtags, parse_header,
    parse_header_delimiter, parse_identifier, parse_node, parse_statement, ParseError,
};

#[test]
fn parse_file_hashtags_test() {
    let (rest, file_hashtags) = parse_file_hashtags("#abc def \n# abc def ghi \nafter").unwrap();

    assert_eq!(file_hashtags[0].hashtag_text, "abc def ");
    assert_eq!(file_hashtags[1].hashtag_text, " abc def ghi ");
    assert_eq!(rest, "after");
}

#[test]
fn parse_file_hashtag_test() {
    let (rest, file_hashtag) = parse_file_hashtag("#abc def \nafter").unwrap();
    assert_eq!(file_hashtag.hashtag_text, "abc def ");
    assert_eq!(rest, "after");
}

#[test]
fn hashtag_text_test() {
    let (rest, hashtag_text) = hashtag_text("abc def \nafter").unwrap();
    assert_eq!(hashtag_text, "abc def ");
    assert_eq!(rest, "after");
}

#[test]
fn file_hashtags_stop_at_the_first_line_that_is_no_tag() {
    let (rest, file_hashtags) = parse_file_hashtags("after\n#tag\n").unwrap();
    assert!(file_hashtags.is_empty());
    assert_eq!(rest, "after\n#tag\n");
    let (rest, file_hashtags) = parse_file_hashtags("#a\r\n#\n#b\n").unwrap();
    assert_eq!(file_hashtags.len(), 1);
    assert_eq!(file_hashtags[0].hashtag_text, "a");
    assert_eq!(rest, "#\n#b\n");
}

#[test]
fn a_line_of_text_needs_text_and_a_line_ending() {
    assert_eq!(hashtag_text("abc\r\nrest").unwrap(), ("rest", "abc"));
    assert_eq!(hashtag_text("h\u{e9}llo w\u{f6}rld\n").unwrap(), ("", "h\u{e9}llo w\u{f6}rld"));
    assert_eq!(hashtag_text(""), Err(ParseError::Unexpected));
    assert_eq!(hashtag_text("\nabc\n"), Err(ParseError::Unexpected));
    assert_eq!(hashtag_text("abc"), Err(ParseError::Unexpected));
    assert_eq!(hashtag_text("abc\rdef\n"), Err(ParseError::Unexpected));
}

#[test]
fn an_identifier_is_a_run_of_ascii_letters() {
    assert_eq!(parse_identifier("title: x").unwrap(), (": x", "title"));
    assert_eq!(parse_identifier("aB1c").unwrap(), ("1c", "aB"));
    assert_eq!(parse_identifier("abc").unwrap(), ("", "abc"));
    assert_eq!(parse_identifier("1c"), Err(ParseError::Unexpected));
    assert_eq!(parse_identifier("_a"), Err(ParseError::Unexpected));
    assert_eq!(parse_identifier("\u{e9}a"), Err(ParseError::Unexpected));
    assert_eq!(parse_identifier(""), Err(ParseError::Unexpected));
}

#[test]
fn a_header_delimiter_is_a_colon_and_its_spaces() {
    assert_eq!(parse_header_delimiter(": \t value").unwrap(), ("value", " \t "));
    assert_eq!(parse_header_delimiter(":value").unwrap(), ("value", ""));
    assert_eq!(parse_header_delimiter(":").unwrap(), ("", ""));
    assert_eq!(parse_header_delimiter(" :"), Err(ParseError::Unexpected));
    assert_eq!(parse_header_delimiter(""), Err(ParseError::Unexpected));
}

#[test]
fn a_header_has_a_key_and_a_value() {
    let (rest, header) = parse_header("title:  Start\n---\n").unwrap();
    assert_eq!(header.header_key, "title");
    assert_eq!(header.header_value, "Start");
    assert_eq!(rest, "---\n");
    assert_eq!(parse_header("title:\n").unwrap_err(), ParseError::Unexpected);
    assert_eq!(parse_header("title Start\n").unwrap_err(), ParseError::Unexpected);
    assert_eq!(parse_header("title: Start").unwrap_err(), ParseError::Unexpected);
    assert_eq!(parse_header(": Start\n").unwrap_err(), ParseError::Unexpected);
}

#[test]
fn a_statement_is_a_line_of_text() {
    let (rest, statement) = parse_statement("foo bar\nbaz\n").unwrap();
    assert_eq!(statement.line_statement, "foo bar");
    assert_eq!(rest, "baz\n");
    assert_eq!(parse_statement("\n").unwrap_err(), ParseError::Unexpected);
}

#[test]
fn body_markers_stand_on_lines_of_their_own() {
    assert_eq!(parse_body_start_marker("---\nfoo"), Ok(("foo", ())));
    assert_eq!(parse_body_start_marker("---\r\nfoo"), Ok(("foo", ())));
    assert_eq!(parse_body_start_marker("--- \n"), Err(ParseError::Unexpected));
    assert_eq!(parse_body_start_marker("===\n"), Err(ParseError::Unexpected));
    assert_eq!(parse_body_start_marker("---"), Err(ParseError::Unexpected));
    assert_eq!(parse_body_end_marker("===\nfoo"), Ok(("foo", ())));
    assert_eq!(parse_body_end_marker("---\n"), Err(ParseError::Unexpected));
    assert_eq!(parse_body_end_marker("==\n"), Err(ParseError::Unexpected));
}

#[test]
fn the_closing_marker_is_taken_for_a_statement() {
    assert_eq!(parse_delimited_body("---\nfoo\n===\n").unwrap_err(), ParseError::Unexpected);
    assert_eq!(parse_delimited_body("---\n===\n").unwrap_err(), ParseError::Unexpected);
    assert_eq!(parse_delimited_body("---\nfoo\n===").unwrap_err(), ParseError::Unexpected);
    assert_eq!(parse_node("title: a\n---\nfoo\n===\n").unwrap_err(), ParseError::Unexpected);
    assert_eq!(parse_node("---\nfoo\n===\n").unwrap_err(), ParseError::Unexpected);
    assert_eq!(
        parse_dialogue("#tag\ntitle: a\n---\nfoo\n===\n").unwrap_err(),
        ParseError::Unexpected
    );
    assert_eq!(parse("title: a\n---\nfoo\n===\n").unwrap_err(), ParseError::Unexpected);
    assert_eq!(parse("").unwrap_err(), ParseError::Unexpected);
}

const SAMPLES: [&str; 24] = [
    "",
    "\n",
    "\r\n",
    "\r",
    "abc",
    "abc\n",
    "abc\r\n",
    "abc\rdef\n",
    "abc def \nafter",
    "#abc def \n# abc def ghi \nafter",
    "#\n",
    "##\n",
    ":",
    ":  \tx",
    ": \n",
    "title: test\n---\nfoo\nbar\na {1 + 3} cool expression\n===",
    "title: test\n---\nfoo\n===\n",
    "title:test\r\ntags: a b\r\n---\r\n===\r\n",
    "---\n===\n",
    "---",
    "===\nrest",
    "t\u{ef}tle: x\n",
    "\u{e9}\n\u{e9}",
    "Title9: x\n",
];

fn combined_text_line(input: &str) -> IResult<&str, &str> {
    terminated(take_till1(|x| x == '\r' || x == '\n'), line_ending).parse_next(input)
}

fn combined_header(input: &str) -> IResult<&str, (&str, &str)> {
    terminated(
        separated_pair(
            alpha1,
            preceded(":", space0),
            take_till1(|x| x == '\r' || x == '\n'),
        ),
        line_ending,
    )
    .parse_next(input)
}

fn combined_body(input: &str) -> IResult<&str, Vec<&str>> {
    delimited(
        terminated(tag("---"), line_ending),
        repeat(0.., combined_text_line),
        terminated(tag("==="), line_ending),
    )
    .parse_next(input)
}

#[test]
fn lines_of_text_are_parsed_as_the_combinators_parse_them() {
    for input in SAMPLES {
        let expected: Result<(&str, &str), winnow::error::ErrMode<Error<&str>>> =
            combined_text_line(input);
        assert_eq!(hashtag_text(input).ok(), expected.ok(), "{input:?}");
    }
}

#[test]
fn primitives_are_parsed_as_the_combinators_parse_them() {
    for input in SAMPLES {
        let identifier: IResult<&str, &str> = alpha1.parse_next(input);
        assert_eq!(parse_identifier(input).ok(), identifier.ok(), "{input:?}");
        let delimiter: IResult<&str, &str> = preceded(":", space0).parse_next(input);
        assert_eq!(parse_header_delimiter(input).ok(), delimiter.ok(), "{input:?}");
        let start: IResult<&str, &str> = terminated(tag("---"), line_ending).parse_next(input);
        assert_eq!(
            parse_body_start_marker(input).ok().map(|found| found.0),
            start.ok().map(|found| found.0),
            "{input:?}"
        );
        let end: IResult<&str, &str> = terminated(tag("==="), line_ending).parse_next(input);
        assert_eq!(
            parse_body_end_marker(input).ok().map(|found| found.0),
            end.ok().map(|found| found.0),
            "{input:?}"
        );
    }
}

#[test]
fn headers_and_bodies_are_parsed_as_the_combinators_parse_them() {
    for input in SAMPLES {
        let header = combined_header(input).ok();
        let found = parse_header(input).ok();
        assert_eq!(
            found.map(|(rest, header)| (rest, (header.header_key, header.header_value))),
            header,
            "{input:?}"
        );
        let body = combined_body(input).ok();
        let found = parse_delimited_body(input).ok();
        assert_eq!(
            found.map(|(rest, body)| {
                (rest, body.iter().map(|s| s.line_statement).collect::<Vec<_>>())
            }),
            body,
            "{input:?}"
        );
    }
}

#[test]
fn parsed_values_are_written_as_they_stood() {
    let (_, header) = parse_header("title:  Start\n").unwrap();
    assert_eq!(header.to_string(), "title: Start");
    let (_, statement) = parse_statement("foo bar\n").unwrap();
    assert_eq!(statement.to_string(), "foo bar");
    let (_, hashtag) = parse_file_hashtag("#abc def \n").unwrap();
    assert_eq!(hashtag.to_string(), "# abc def ");
}
