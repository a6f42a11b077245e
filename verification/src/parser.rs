//! A parser for the outer structure of a script: the tags of the file, and
//! the nodes with their headers and the lines of their bodies.
//!
//! ```text
//! dialogue      : file_hashtag* node+
//! file_hashtag  : '#' text line_ending
//! node          : header+ body
//! header        : identifier ':' spaces text line_ending
//! body          : '---' line_ending statement* '===' line_ending
//! statement     : text line_ending
//! ```
//!
//! `text` is one character or more, none of them a line break; `identifier`
//! is one ASCII letter or more; `spaces` is any number of spaces and tabs.
//! Whatever repeats takes as much as it can.
//!
//! As the grammar stands, the line that closes a body is a statement like any
//! other, and the statements take it. The parts of a script parse, but no
//! body ends, and so no text is a node or a script: see
//! [`lemma_no_body_ever_ends`].

use vstd::prelude::*;
use vstd::string::{StrSliceExecFns, StringExecFns};
use winnow::error::{ErrMode, Error};
use winnow::Parser;

verus! {

/// `winnow::error::ErrMode`, the way in which a parser of winnow fails. The
/// parser here only tells failure from success.
#[verifier::external_type_specification]
#[verifier::external_body]
#[verifier::reject_recursive_types(E)]
pub struct ExErrMode<E>(ErrMode<E>);

/// `winnow::error::Error`, the place and the kind of a failure of a parser of
/// winnow. The parser here does not look into it.
#[verifier::external_type_specification]
#[verifier::external_body]
#[verifier::reject_recursive_types(I)]
pub struct ExError<I>(Error<I>);

/// Why a text is not what the grammar asks for.
#[derive(Clone, Copy, Debug, PartialEq, Eq, Structural)]
pub enum ParseError {
    /// The text does not go on as the grammar asks.
    Unexpected,
    /// The text goes on behind what the grammar asks for.
    TrailingInput,
}

/// A tag of a file.
#[derive(Debug)]
pub struct FileHashtag<'a> {
    pub hashtag_text: &'a str,
}

/// A header of a node.
#[derive(Debug)]
pub struct Header<'a> {
    pub header_key: &'a str,
    pub header_value: &'a str,
}

/// A statement in the body of a node.
#[derive(Debug)]
pub struct Statement<'a> {
    pub line_statement: &'a str,
}

/// A node: its headers and the statements of its body.
#[derive(Debug)]
pub struct Node<'a> {
    pub headers: Vec<Header<'a>>,
    pub body: Vec<Statement<'a>>,
}

/// The nodes of a script.
#[derive(Debug)]
pub struct Dialogue<'a> {
    pub nodes: Vec<Node<'a>>,
}

/// The mathematical value of a [`Header`].
pub struct HeaderView {
    pub header_key: Seq<char>,
    pub header_value: Seq<char>,
}

/// The mathematical value of a [`Node`].
pub struct NodeView {
    pub headers: Seq<HeaderView>,
    pub body: Seq<Seq<char>>,
}

impl<'a> DeepView for FileHashtag<'a> {
    type V = Seq<char>;

    open spec fn deep_view(&self) -> Seq<char> {
        self.hashtag_text@
    }
}

impl<'a> DeepView for Statement<'a> {
    type V = Seq<char>;

    open spec fn deep_view(&self) -> Seq<char> {
        self.line_statement@
    }
}

impl<'a> DeepView for Header<'a> {
    type V = HeaderView;

    open spec fn deep_view(&self) -> HeaderView {
        HeaderView { header_key: self.header_key@, header_value: self.header_value@ }
    }
}

impl<'a> DeepView for Node<'a> {
    type V = NodeView;

    open spec fn deep_view(&self) -> NodeView {
        NodeView { headers: self.headers.deep_view(), body: self.body.deep_view() }
    }
}

impl<'a> DeepView for Dialogue<'a> {
    type V = Seq<NodeView>;

    open spec fn deep_view(&self) -> Seq<NodeView> {
        self.nodes.deep_view()
    }
}

impl<'a> FileHashtag<'a> {
    /// The tag as it is written: `# ` and the text.
    pub fn to_string(&self) -> (text: String)
        ensures
            text@ == "# "@ + self.hashtag_text@,
    {
        "# ".to_owned().concat(self.hashtag_text)
    }
}

impl<'a> Header<'a> {
    /// The header as it is written: the key, `: ` and the value.
    pub fn to_string(&self) -> (text: String)
        ensures
            text@ == self.header_key@ + ": "@ + self.header_value@,
    {
        self.header_key.to_owned().concat(": ").concat(self.header_value)
    }
}

impl<'a> Statement<'a> {
    /// The statement as it is written.
    pub fn to_string(&self) -> (text: String)
        ensures
            text@ == self.line_statement@,
    {
        self.line_statement.to_owned()
    }
}

// ---------------------------------------------------------------------------
// The grammar
// ---------------------------------------------------------------------------

/// Whether the character breaks a line.
pub open spec fn is_line_break(c: char) -> bool {
    c == '\r' || c == '\n'
}

/// Whether the character is an ASCII letter.
pub open spec fn is_alpha(c: char) -> bool {
    ('a' <= c && c <= 'z') || ('A' <= c && c <= 'Z')
}

/// Whether the character is a space or a tab.
pub open spec fn is_space(c: char) -> bool {
    c == ' ' || c == '\t'
}

/// Whether the text starts with a character that breaks no line.
pub open spec fn starts_with_text(input: Seq<char>) -> bool {
    input.len() > 0 && !is_line_break(input[0])
}

/// Whether the text starts with an ASCII letter.
pub open spec fn starts_with_letter(input: Seq<char>) -> bool {
    input.len() > 0 && is_alpha(input[0])
}

/// The number of characters at the start of the text that are all `wanted`.
pub open spec fn leading(input: Seq<char>, wanted: spec_fn(char) -> bool) -> nat
    decreases input.len(),
{
    if input.len() > 0 && wanted(input[0]) {
        1 + leading(input.drop_first(), wanted)
    } else {
        0
    }
}

/// The text behind its first `count` characters.
pub open spec fn behind(input: Seq<char>, count: int) -> Seq<char> {
    input.subrange(count, input.len() as int)
}

/// The length of the line ending with which the text starts: a line feed, or
/// a carriage return and a line feed.
pub open spec fn line_ending_len(input: Seq<char>) -> Option<nat> {
    if input.len() >= 1 && input[0] == '\n' {
        Some(1)
    } else if input.len() >= 2 && input[0] == '\r' && input[1] == '\n' {
        Some(2)
    } else {
        None
    }
}

/// A line of text at the start of the input: one character or more up to a
/// line break, and the line ending behind them. Gives the text and what is
/// left behind the line ending.
pub open spec fn spec_text_line(input: Seq<char>) -> Option<(Seq<char>, Seq<char>)> {
    let length = leading(input, |c: char| !is_line_break(c));
    if length == 0 {
        None
    } else {
        match line_ending_len(behind(input, length as int)) {
            Some(ending) => Some((input.take(length as int), behind(input, (length + ending) as int))),
            None => None,
        }
    }
}

/// A literal at the start of the input. Gives what is left behind it.
pub open spec fn spec_tag(literal: Seq<char>, input: Seq<char>) -> Option<Seq<char>> {
    if literal.is_prefix_of(input) {
        Some(behind(input, literal.len() as int))
    } else {
        None
    }
}

/// A literal on a line of its own at the start of the input.
pub open spec fn spec_marker(literal: Seq<char>, input: Seq<char>) -> Option<Seq<char>> {
    match spec_tag(literal, input) {
        Some(rest) => match line_ending_len(rest) {
            Some(ending) => Some(behind(rest, ending as int)),
            None => None,
        },
        None => None,
    }
}

/// A tag of the file at the start of the input.
pub open spec fn spec_file_hashtag(input: Seq<char>) -> Option<(Seq<char>, Seq<char>)> {
    match spec_tag("#"@, input) {
        Some(rest) => spec_text_line(rest),
        None => None,
    }
}

/// As many tags of the file as stand at the start of the input.
pub open spec fn spec_file_hashtags(input: Seq<char>) -> (Seq<Seq<char>>, Seq<char>)
    decreases input.len(),
{
    match spec_file_hashtag(input) {
        Some((hashtag, rest)) => if rest.len() < input.len() {
            let (more, left) = spec_file_hashtags(rest);
            (seq![hashtag] + more, left)
        } else {
            (Seq::empty(), input)
        },
        None => (Seq::empty(), input),
    }
}

/// An identifier at the start of the input.
pub open spec fn spec_identifier(input: Seq<char>) -> Option<(Seq<char>, Seq<char>)> {
    let length = leading(input, |c: char| is_alpha(c));
    if length == 0 {
        None
    } else {
        Some((input.take(length as int), behind(input, length as int)))
    }
}

/// The colon between the key and the value of a header, with the spaces
/// behind it. Gives the spaces and what is left.
pub open spec fn spec_header_delimiter(input: Seq<char>) -> Option<(Seq<char>, Seq<char>)> {
    match spec_tag(":"@, input) {
        Some(rest) => {
            let length = leading(rest, |c: char| is_space(c));
            Some((rest.take(length as int), behind(rest, length as int)))
        },
        None => None,
    }
}

/// A header at the start of the input.
pub open spec fn spec_header(input: Seq<char>) -> Option<(HeaderView, Seq<char>)> {
    match spec_identifier(input) {
        Some((header_key, rest)) => match spec_header_delimiter(rest) {
            Some((_, rest)) => match spec_text_line(rest) {
                Some((header_value, rest)) => Some((HeaderView { header_key, header_value }, rest)),
                None => None,
            },
            None => None,
        },
        None => None,
    }
}

/// As many headers as stand at the start of the input.
pub open spec fn spec_headers(input: Seq<char>) -> (Seq<HeaderView>, Seq<char>)
    decreases input.len(),
{
    match spec_header(input) {
        Some((header, rest)) => if rest.len() < input.len() {
            let (more, left) = spec_headers(rest);
            (seq![header] + more, left)
        } else {
            (Seq::empty(), input)
        },
        None => (Seq::empty(), input),
    }
}

/// As many statements as stand at the start of the input.
pub open spec fn spec_statements(input: Seq<char>) -> (Seq<Seq<char>>, Seq<char>)
    decreases input.len(),
{
    match spec_text_line(input) {
        Some((statement, rest)) => if rest.len() < input.len() {
            let (more, left) = spec_statements(rest);
            (seq![statement] + more, left)
        } else {
            (Seq::empty(), input)
        },
        None => (Seq::empty(), input),
    }
}

/// The body of a node at the start of the input, between its two markers.
pub open spec fn spec_delimited_body(input: Seq<char>) -> Option<(Seq<Seq<char>>, Seq<char>)> {
    match spec_marker("---"@, input) {
        Some(rest) => {
            let (statements, rest) = spec_statements(rest);
            match spec_marker("==="@, rest) {
                Some(rest) => Some((statements, rest)),
                None => None,
            }
        },
        None => None,
    }
}

/// A node at the start of the input.
pub open spec fn spec_node(input: Seq<char>) -> Option<(NodeView, Seq<char>)> {
    let (headers, rest) = spec_headers(input);
    if headers.len() == 0 {
        None
    } else {
        match spec_delimited_body(rest) {
            Some((body, rest)) => Some((NodeView { headers, body }, rest)),
            None => None,
        }
    }
}

/// As many nodes as stand at the start of the input.
pub open spec fn spec_nodes(input: Seq<char>) -> (Seq<NodeView>, Seq<char>)
    decreases input.len(),
{
    match spec_node(input) {
        Some((node, rest)) => if rest.len() < input.len() {
            let (more, left) = spec_nodes(rest);
            (seq![node] + more, left)
        } else {
            (Seq::empty(), input)
        },
        None => (Seq::empty(), input),
    }
}

/// A script at the start of the input: the tags of the file, then one node
/// or more.
pub open spec fn spec_dialogue(input: Seq<char>) -> Option<((Seq<Seq<char>>, Seq<NodeView>), Seq<char>)> {
    let (hashtags, rest) = spec_file_hashtags(input);
    let (nodes, rest) = spec_nodes(rest);
    if nodes.len() == 0 {
        None
    } else {
        Some(((hashtags, nodes), rest))
    }
}

/// A script that makes up the whole input.
pub open spec fn spec_parse(input: Seq<char>) -> Result<(Seq<Seq<char>>, Seq<NodeView>), ParseError> {
    match spec_dialogue(input) {
        Some((script, rest)) => if rest.len() == 0 {
            Ok(script)
        } else {
            Err(ParseError::TrailingInput)
        },
        None => Err(ParseError::Unexpected),
    }
}

// ---------------------------------------------------------------------------
// What the parser takes from winnow
// ---------------------------------------------------------------------------

/// Whether the character breaks a line.
fn line_break(c: char) -> (breaks: bool)
    ensures
        breaks == is_line_break(c),
{
    c == '\r' || c == '\n'
}

/// `winnow::token::tag` on text: succeeds exactly where the input starts
/// with the literal, and then gives the literal and what is left behind it.
#[verifier::external_body]
fn tag<'a>(literal: &str, input: &'a str) -> (result: Result<
    (&'a str, &'a str),
    ErrMode<Error<&'a str>>,
>)
    ensures
        result is Ok <==> literal@.is_prefix_of(input@),
        result matches Ok((rest, matched)) ==> matched@ == literal@ && rest@ == behind(
            input@,
            literal@.len() as int,
        ),
{
    winnow::token::tag(literal).parse_next(input)
}

/// `winnow::token::take_till1` on text, told to stop at a line break: takes
/// the characters up to the first line break, or all of them where there is
/// none, and fails exactly where that would be no character at all.
#[verifier::external_body]
fn take_till1_line_break<'a>(input: &'a str) -> (result: Result<
    (&'a str, &'a str),
    ErrMode<Error<&'a str>>,
>)
    ensures
        result is Ok <==> starts_with_text(input@),
        result matches Ok((rest, taken)) ==> {
            &&& input@ == taken@ + rest@
            &&& forall|i: int| 0 <= i < taken@.len() ==> !is_line_break(#[trigger] taken@[i])
            &&& rest@.len() > 0 ==> is_line_break(rest@[0])
        },
{
    winnow::token::take_till1(|c: char| line_break(c)).parse_next(input)
}

/// `winnow::ascii::line_ending` on text: succeeds exactly where the input
/// starts with a line feed, or with a carriage return and a line feed, and
/// then gives that line ending and what is left behind it.
#[verifier::external_body]
fn line_ending<'a>(input: &'a str) -> (result: Result<
    (&'a str, &'a str),
    ErrMode<Error<&'a str>>,
>)
    ensures
        result is Ok <==> line_ending_len(input@) is Some,
        result matches Ok((rest, matched)) ==> matched@ == input@.take(
            line_ending_len(input@)->0 as int,
        ) && rest@ == behind(input@, line_ending_len(input@)->0 as int),
{
    winnow::ascii::line_ending(input)
}

/// `winnow::ascii::alpha1` on text: takes the ASCII letters up to the first
/// character that is none, and fails exactly where that would be no
/// character at all.
#[verifier::external_body]
fn alpha1<'a>(input: &'a str) -> (result: Result<(&'a str, &'a str), ErrMode<Error<&'a str>>>)
    ensures
        result is Ok <==> starts_with_letter(input@),
        result matches Ok((rest, taken)) ==> {
            &&& input@ == taken@ + rest@
            &&& forall|i: int| 0 <= i < taken@.len() ==> is_alpha(#[trigger] taken@[i])
            &&& rest@.len() > 0 ==> !is_alpha(rest@[0])
        },
{
    winnow::ascii::alpha1(input)
}

/// `winnow::ascii::space0` on text: takes the spaces and tabs up to the
/// first character that is neither. It never fails.
#[verifier::external_body]
fn space0<'a>(input: &'a str) -> (result: Result<(&'a str, &'a str), ErrMode<Error<&'a str>>>)
    ensures
        result is Ok,
        result matches Ok((rest, taken)) ==> {
            &&& input@ == taken@ + rest@
            &&& forall|i: int| 0 <= i < taken@.len() ==> is_space(#[trigger] taken@[i])
            &&& rest@.len() > 0 ==> !is_space(rest@[0])
        },
{
    winnow::ascii::space0(input)
}

/// A text that is cut behind its last wanted character at the start is cut
/// at the number of its leading wanted characters.
pub proof fn lemma_leading_is_where_the_cut_is(
    input: Seq<char>,
    taken: Seq<char>,
    rest: Seq<char>,
    wanted: spec_fn(char) -> bool,
)
    requires
        input == taken + rest,
        forall|i: int| 0 <= i < taken.len() ==> wanted(#[trigger] taken[i]),
        rest.len() > 0 ==> !wanted(rest[0]),
    ensures
        leading(input, wanted) == taken.len(),
        taken == input.take(taken.len() as int),
        rest == behind(input, taken.len() as int),
    decreases taken.len(),
{
    assert(taken =~= input.take(taken.len() as int));
    assert(rest =~= behind(input, taken.len() as int));
    if taken.len() > 0 {
        assert(input[0] == taken[0]);
        assert(input.drop_first() =~= taken.drop_first() + rest);
        assert forall|i: int| 0 <= i < taken.drop_first().len() implies wanted(
            #[trigger] taken.drop_first()[i],
        ) by {
            assert(taken.drop_first()[i] == taken[i + 1]);
        }
        lemma_leading_is_where_the_cut_is(input.drop_first(), taken.drop_first(), rest, wanted);
    } else {
        assert(input =~= rest);
    }
}

/// No more characters lead a text than the text has.
pub proof fn lemma_leading_is_within(input: Seq<char>, wanted: spec_fn(char) -> bool)
    ensures
        leading(input, wanted) <= input.len(),
    decreases input.len(),
{
    if input.len() > 0 && wanted(input[0]) {
        lemma_leading_is_within(input.drop_first(), wanted);
    }
}

// ---------------------------------------------------------------------------
// The parser
// ---------------------------------------------------------------------------

/// Whether an outcome of parsing is what the grammar gives: the value and the
/// rest where the grammar gives them, and else the error that the text does
/// not go on as the grammar asks.
pub open spec fn agrees<T>(
    result: Result<(Seq<char>, T), ParseError>,
    grammar: Option<(T, Seq<char>)>,
) -> bool {
    match result {
        Ok((rest, value)) => grammar == Some((value, rest)),
        Err(error) => grammar is None && error == ParseError::Unexpected,
    }
}

/// A line of text: one character or more up to a line break, and the line
/// ending behind them. Gives the text, and what is left behind the line
/// ending.
pub fn hashtag_text<'a>(input: &'a str) -> (result: Result<(&'a str, &'a str), ParseError>)
    ensures
        agrees(
            match result {
                Ok((rest, text)) => Ok((rest@, text@)),
                Err(error) => Err(error),
            },
            spec_text_line(input@),
        ),
{
    let wanted = Ghost(|c: char| !is_line_break(c));
    match take_till1_line_break(input) {
        Ok((rest, text)) => {
            proof {
                lemma_leading_is_where_the_cut_is(input@, text@, rest@, wanted@);
            }
            match line_ending(rest) {
                Ok((rest, _)) => {
                    assert(rest@ =~= behind(
                        input@,
                        (text@.len() + line_ending_len(behind(input@, text@.len() as int))->0) as int,
                    ));
                    Ok((rest, text))
                },
                Err(_) => Err(ParseError::Unexpected),
            }
        },
        Err(_) => {
            assert(leading(input@, wanted@) == 0);
            Err(ParseError::Unexpected)
        },
    }
}

/// What is left behind a line of text is shorter than the input.
pub proof fn lemma_text_line_consumes(input: Seq<char>)
    ensures
        spec_text_line(input) matches Some((_, rest)) ==> rest.len() < input.len(),
{
    lemma_leading_is_within(input, |c: char| !is_line_break(c));
}

/// A tag of the file: `#`, then a line of text.
pub fn parse_file_hashtag<'a>(input: &'a str) -> (result: Result<
    (&'a str, FileHashtag<'a>),
    ParseError,
>)
    ensures
        agrees(
            match result {
                Ok((rest, hashtag)) => Ok((rest@, hashtag.deep_view())),
                Err(error) => Err(error),
            },
            spec_file_hashtag(input@),
        ),
{
    match tag("#", input) {
        Ok((rest, _)) => match hashtag_text(rest) {
            Ok((rest, text)) => Ok((rest, FileHashtag { hashtag_text: text })),
            Err(error) => Err(error),
        },
        Err(_) => Err(ParseError::Unexpected),
    }
}

/// As many tags of the file as stand at the start of the input. This never
/// fails: where there is no tag, the list is empty and the input is left as
/// it is.
pub fn parse_file_hashtags<'a>(input: &'a str) -> (result: Result<
    (&'a str, Vec<FileHashtag<'a>>),
    ParseError,
>)
    ensures
        result matches Ok((rest, hashtags)) && (hashtags.deep_view(), rest@) == spec_file_hashtags(
            input@,
        ),
{
    let mut hashtags: Vec<FileHashtag<'a>> = Vec::new();
    let mut rest = input;
    assert(hashtags.deep_view() + spec_file_hashtags(rest@).0 =~= spec_file_hashtags(input@).0);
    loop
        invariant
            spec_file_hashtags(input@) == (
                hashtags.deep_view() + spec_file_hashtags(rest@).0,
                spec_file_hashtags(rest@).1,
            ),
        decreases rest@.len(),
    {
        let ghost before = hashtags.deep_view();
        match parse_file_hashtag(rest) {
            Ok((next, hashtag)) => {
                proof {
                    lemma_text_line_consumes(behind(rest@, "#"@.len() as int));
                    assert(spec_file_hashtag(rest@) == Some((hashtag.deep_view(), next@)));
                    assert(next@.len() < rest@.len());
                    assert(spec_file_hashtags(rest@).0 == seq![hashtag.deep_view()]
                        + spec_file_hashtags(next@).0);
                }
                hashtags.push(hashtag);
                assert(hashtags.deep_view() =~= before.push(hashtag.deep_view()));
                assert(hashtags.deep_view() + spec_file_hashtags(next@).0 =~= before
                    + spec_file_hashtags(rest@).0);
                rest = next;
            },
            Err(_) => {
                assert(hashtags.deep_view() + Seq::<Seq<char>>::empty() =~= hashtags.deep_view());
                return Ok((rest, hashtags));
            },
        }
    }
}

/// An identifier: one ASCII letter or more.
pub fn parse_identifier<'a>(input: &'a str) -> (result: Result<(&'a str, &'a str), ParseError>)
    ensures
        agrees(
            match result {
                Ok((rest, identifier)) => Ok((rest@, identifier@)),
                Err(error) => Err(error),
            },
            spec_identifier(input@),
        ),
{
    let wanted = Ghost(|c: char| is_alpha(c));
    match alpha1(input) {
        Ok((rest, identifier)) => {
            proof {
                lemma_leading_is_where_the_cut_is(input@, identifier@, rest@, wanted@);
            }
            let first = identifier.get_char(0);
            if ('a' <= first && first <= 'z') || ('A' <= first && first <= 'Z') {
                Ok((rest, identifier))
            } else {
                Err(ParseError::Unexpected)
            }
        },
        Err(_) => {
            assert(leading(input@, wanted@) == 0);
            Err(ParseError::Unexpected)
        },
    }
}

/// The colon between the key and the value of a header, with the spaces and
/// tabs behind it. Gives the spaces and tabs.
pub fn parse_header_delimiter<'a>(input: &'a str) -> (result: Result<
    (&'a str, &'a str),
    ParseError,
>)
    ensures
        agrees(
            match result {
                Ok((rest, spaces)) => Ok((rest@, spaces@)),
                Err(error) => Err(error),
            },
            spec_header_delimiter(input@),
        ),
{
    let wanted = Ghost(|c: char| is_space(c));
    match tag(":", input) {
        Ok((rest, _)) => match space0(rest) {
            Ok((left, spaces)) => {
                proof {
                    lemma_leading_is_where_the_cut_is(rest@, spaces@, left@, wanted@);
                }
                Ok((left, spaces))
            },
            Err(_) => Err(ParseError::Unexpected),
        },
        Err(_) => Err(ParseError::Unexpected),
    }
}

/// A header: an identifier, the delimiter, and a line of text.
pub fn parse_header<'a>(input: &'a str) -> (result: Result<(&'a str, Header<'a>), ParseError>)
    ensures
        agrees(
            match result {
                Ok((rest, header)) => Ok((rest@, header.deep_view())),
                Err(error) => Err(error),
            },
            spec_header(input@),
        ),
{
    let (rest, header_key) = match parse_identifier(input) {
        Ok(found) => found,
        Err(error) => return Err(error),
    };
    let (rest, _) = match parse_header_delimiter(rest) {
        Ok(found) => found,
        Err(error) => return Err(error),
    };
    let (rest, header_value) = match hashtag_text(rest) {
        Ok(found) => found,
        Err(error) => return Err(error),
    };
    Ok((rest, Header { header_key, header_value }))
}

/// A statement: a line of text.
pub fn parse_statement<'a>(input: &'a str) -> (result: Result<
    (&'a str, Statement<'a>),
    ParseError,
>)
    ensures
        agrees(
            match result {
                Ok((rest, statement)) => Ok((rest@, statement.deep_view())),
                Err(error) => Err(error),
            },
            spec_text_line(input@),
        ),
{
    match hashtag_text(input) {
        Ok((rest, text)) => Ok((rest, Statement { line_statement: text })),
        Err(error) => Err(error),
    }
}

/// A literal on a line of its own.
fn parse_marker<'a>(literal: &str, input: &'a str) -> (result: Result<(&'a str, ()), ParseError>)
    ensures
        agrees(
            match result {
                Ok((rest, _)) => Ok((rest@, ())),
                Err(error) => Err(error),
            },
            match spec_marker(literal@, input@) {
                Some(rest) => Some(((), rest)),
                None => None,
            },
        ),
{
    match tag(literal, input) {
        Ok((rest, _)) => match line_ending(rest) {
            Ok((rest, _)) => Ok((rest, ())),
            Err(_) => Err(ParseError::Unexpected),
        },
        Err(_) => Err(ParseError::Unexpected),
    }
}

/// The marker that opens the body of a node: `---` on a line of its own.
pub fn parse_body_start_marker<'a>(input: &'a str) -> (result: Result<(&'a str, ()), ParseError>)
    ensures
        agrees(
            match result {
                Ok((rest, _)) => Ok((rest@, ())),
                Err(error) => Err(error),
            },
            match spec_marker("---"@, input@) {
                Some(rest) => Some(((), rest)),
                None => None,
            },
        ),
{
    parse_marker("---", input)
}

/// The marker that closes the body of a node: `===` on a line of its own.
pub fn parse_body_end_marker<'a>(input: &'a str) -> (result: Result<(&'a str, ()), ParseError>)
    ensures
        agrees(
            match result {
                Ok((rest, _)) => Ok((rest@, ())),
                Err(error) => Err(error),
            },
            match spec_marker("==="@, input@) {
                Some(rest) => Some(((), rest)),
                None => None,
            },
        ),
{
    parse_marker("===", input)
}

/// What is left behind a header is shorter than the input.
pub proof fn lemma_header_consumes(input: Seq<char>)
    ensures
        spec_header(input) matches Some((_, rest)) ==> rest.len() < input.len(),
{
    if let Some((_, rest)) = spec_identifier(input) {
        lemma_leading_is_within(input, |c: char| is_alpha(c));
        if let Some((_, rest)) = spec_header_delimiter(rest) {
            let colon = behind(input, leading(input, |c: char| is_alpha(c)) as int);
            lemma_leading_is_within(behind(colon, ":"@.len() as int), |c: char| is_space(c));
            lemma_text_line_consumes(rest);
        }
    }
}

/// As many statements as stand at the start of the input. This never fails.
fn parse_statements<'a>(input: &'a str) -> (result: (&'a str, Vec<Statement<'a>>))
    ensures
        (result.1.deep_view(), result.0@) == spec_statements(input@),
{
    let mut statements: Vec<Statement<'a>> = Vec::new();
    let mut rest = input;
    assert(statements.deep_view() + spec_statements(rest@).0 =~= spec_statements(input@).0);
    loop
        invariant
            spec_statements(input@) == (
                statements.deep_view() + spec_statements(rest@).0,
                spec_statements(rest@).1,
            ),
        decreases rest@.len(),
    {
        let ghost before = statements.deep_view();
        match parse_statement(rest) {
            Ok((next, statement)) => {
                proof {
                    lemma_text_line_consumes(rest@);
                    assert(spec_statements(rest@).0 == seq![statement.deep_view()]
                        + spec_statements(next@).0);
                }
                statements.push(statement);
                assert(statements.deep_view() =~= before.push(statement.deep_view()));
                assert(statements.deep_view() + spec_statements(next@).0 =~= before
                    + spec_statements(rest@).0);
                rest = next;
            },
            Err(_) => {
                assert(statements.deep_view() + Seq::<Seq<char>>::empty()
                    =~= statements.deep_view());
                return (rest, statements);
            },
        }
    }
}

/// As many headers as stand at the start of the input. This never fails.
fn parse_headers<'a>(input: &'a str) -> (result: (&'a str, Vec<Header<'a>>))
    ensures
        (result.1.deep_view(), result.0@) == spec_headers(input@),
{
    let mut headers: Vec<Header<'a>> = Vec::new();
    let mut rest = input;
    assert(headers.deep_view() + spec_headers(rest@).0 =~= spec_headers(input@).0);
    loop
        invariant
            spec_headers(input@) == (
                headers.deep_view() + spec_headers(rest@).0,
                spec_headers(rest@).1,
            ),
        decreases rest@.len(),
    {
        let ghost before = headers.deep_view();
        match parse_header(rest) {
            Ok((next, header)) => {
                proof {
                    lemma_header_consumes(rest@);
                    assert(spec_headers(rest@).0 == seq![header.deep_view()] + spec_headers(
                        next@,
                    ).0);
                }
                headers.push(header);
                assert(headers.deep_view() =~= before.push(header.deep_view()));
                assert(headers.deep_view() + spec_headers(next@).0 =~= before + spec_headers(
                    rest@,
                ).0);
                rest = next;
            },
            Err(_) => {
                assert(headers.deep_view() + Seq::<HeaderView>::empty() =~= headers.deep_view());
                return (rest, headers);
            },
        }
    }
}

/// The body of a node: the opening marker, as many statements as follow, and
/// the closing marker.
pub fn parse_delimited_body<'a>(input: &'a str) -> (result: Result<
    (&'a str, Vec<Statement<'a>>),
    ParseError,
>)
    ensures
        agrees(
            match result {
                Ok((rest, body)) => Ok((rest@, body.deep_view())),
                Err(error) => Err(error),
            },
            spec_delimited_body(input@),
        ),
{
    let (rest, _) = match parse_body_start_marker(input) {
        Ok(found) => found,
        Err(error) => return Err(error),
    };
    let (rest, body) = parse_statements(rest);
    let (rest, _) = match parse_body_end_marker(rest) {
        Ok(found) => found,
        Err(error) => return Err(error),
    };
    Ok((rest, body))
}

/// A node: one header or more, and the body.
pub fn parse_node<'a>(input: &'a str) -> (result: Result<(&'a str, Node<'a>), ParseError>)
    ensures
        agrees(
            match result {
                Ok((rest, node)) => Ok((rest@, node.deep_view())),
                Err(error) => Err(error),
            },
            spec_node(input@),
        ),
{
    let (rest, headers) = parse_headers(input);
    if headers.len() == 0 {
        return Err(ParseError::Unexpected);
    }
    match parse_delimited_body(rest) {
        Ok((rest, body)) => Ok((rest, Node { headers, body })),
        Err(error) => Err(error),
    }
}

/// What is left behind a node is shorter than the input.
pub proof fn lemma_node_consumes(input: Seq<char>)
    ensures
        spec_node(input) matches Some((_, rest)) ==> rest.len() < input.len(),
{
    lemma_headers_leave_no_more(input);
    let (headers, rest) = spec_headers(input);
    if headers.len() > 0 {
        if let Some(rest) = spec_marker("---"@, rest) {
            lemma_statements_leave_no_more(rest);
        }
    }
}

/// Headers leave no more than there was, and less where there is a header.
pub proof fn lemma_headers_leave_no_more(input: Seq<char>)
    ensures
        spec_headers(input).1.len() <= input.len(),
        spec_headers(input).0.len() > 0 ==> spec_headers(input).1.len() < input.len(),
    decreases input.len(),
{
    if let Some((_, rest)) = spec_header(input) {
        if rest.len() < input.len() {
            lemma_headers_leave_no_more(rest);
        }
    }
}

/// Statements leave no more than there was.
pub proof fn lemma_statements_leave_no_more(input: Seq<char>)
    ensures
        spec_statements(input).1.len() <= input.len(),
    decreases input.len(),
{
    if let Some((_, rest)) = spec_text_line(input) {
        if rest.len() < input.len() {
            lemma_statements_leave_no_more(rest);
        }
    }
}

/// Where the statements stop, no line of text follows.
pub proof fn lemma_statements_take_all_they_can(input: Seq<char>)
    ensures
        spec_text_line(spec_statements(input).1) is None,
    decreases input.len(),
{
    if let Some((_, rest)) = spec_text_line(input) {
        lemma_text_line_consumes(input);
        lemma_statements_take_all_they_can(rest);
    }
}

/// A marker on a line of its own is a line of text, as long as no character
/// of the marker breaks a line and the marker is not empty.
pub proof fn lemma_a_marker_is_a_line_of_text(literal: Seq<char>, input: Seq<char>)
    requires
        literal.len() > 0,
        forall|i: int| 0 <= i < literal.len() ==> !is_line_break(#[trigger] literal[i]),
        spec_marker(literal, input) is Some,
    ensures
        spec_text_line(input) is Some,
{
    let rest = behind(input, literal.len() as int);
    let ending = line_ending_len(rest)->0;
    assert(input =~= literal + rest);
    assert(is_line_break(rest[0]));
    lemma_leading_is_where_the_cut_is(input, literal, rest, |c: char| !is_line_break(c));
}

/// The marker that closes a body is itself a line of text, and the statements
/// of a body take every line of text that they can. So no body ever ends: no
/// text holds a node, and none is a script.
pub proof fn lemma_no_body_ever_ends(input: Seq<char>)
    ensures
        spec_delimited_body(input) is None,
        spec_node(input) is None,
        spec_dialogue(input) is None,
        spec_parse(input) == Err::<(Seq<Seq<char>>, Seq<NodeView>), _>(ParseError::Unexpected),
{
    reveal_strlit("===");
    assert forall|text: Seq<char>| spec_delimited_body(text) is None by {
        if let Some(rest) = spec_marker("---"@, text) {
            let left = spec_statements(rest).1;
            lemma_statements_take_all_they_can(rest);
            if spec_marker("==="@, left) is Some {
                lemma_a_marker_is_a_line_of_text("==="@, left);
            }
        }
    }
    assert forall|text: Seq<char>| spec_node(text) is None by {
        assert(spec_delimited_body(spec_headers(text).1) is None);
    }
    assert(spec_node(spec_file_hashtags(input).1) is None);
}

/// The tags of the file, then one node or more.
pub fn parse_dialogue<'a>(input: &'a str) -> (result: Result<
    (&'a str, (Vec<FileHashtag<'a>>, Dialogue<'a>)),
    ParseError,
>)
    ensures
        agrees(
            match result {
                Ok((rest, script)) => Ok((rest@, (script.0.deep_view(), script.1.deep_view()))),
                Err(error) => Err(error),
            },
            spec_dialogue(input@),
        ),
{
    let (start, hashtags) = match parse_file_hashtags(input) {
        Ok(found) => found,
        Err(error) => return Err(error),
    };
    let mut nodes: Vec<Node<'a>> = Vec::new();
    let mut rest = start;
    assert(nodes.deep_view() + spec_nodes(rest@).0 =~= spec_nodes(start@).0);
    loop
        invariant
            spec_nodes(start@) == (
                nodes.deep_view() + spec_nodes(rest@).0,
                spec_nodes(rest@).1,
            ),
            (hashtags.deep_view(), start@) == spec_file_hashtags(input@),
        decreases rest@.len(),
    {
        let ghost before = nodes.deep_view();
        match parse_node(rest) {
            Ok((next, node)) => {
                proof {
                    lemma_node_consumes(rest@);
                    assert(spec_nodes(rest@).0 == seq![node.deep_view()] + spec_nodes(next@).0);
                }
                nodes.push(node);
                assert(nodes.deep_view() =~= before.push(node.deep_view()));
                assert(nodes.deep_view() + spec_nodes(next@).0 =~= before + spec_nodes(rest@).0);
                rest = next;
            },
            Err(_) => {
                assert(nodes.deep_view() + Seq::<NodeView>::empty() =~= nodes.deep_view());
                if nodes.len() == 0 {
                    return Err(ParseError::Unexpected);
                }
                return Ok((rest, (hashtags, Dialogue { nodes })));
            },
        }
    }
}

/// Parses a whole script: the tags of the file and the nodes. Text that is
/// left behind the last node is an error.
pub fn parse<'a>(input: &'a str) -> (result: Result<
    (Vec<FileHashtag<'a>>, Dialogue<'a>),
    ParseError,
>)
    ensures
        match result {
            Ok(script) => spec_parse(input@) == Ok::<_, ParseError>(
                (script.0.deep_view(), script.1.deep_view()),
            ),
            Err(error) => spec_parse(input@) == Err::<(Seq<Seq<char>>, Seq<NodeView>), _>(error),
        },
{
    match parse_dialogue(input) {
        Ok((rest, script)) => {
            if rest.is_empty() {
                Ok(script)
            } else {
                Err(ParseError::TrailingInput)
            }
        },
        Err(error) => Err(error),
    }
}

} // verus!
