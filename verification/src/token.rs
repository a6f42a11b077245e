//! Tokens as they flow between the grammar's lexer, the indentation-aware
//! wrapper and the parser.

use vstd::prelude::*;

verus! {

/// The channel on which tokens are handed to the parser.
pub const TOKEN_DEFAULT_CHANNEL: isize = 0;

/// The kinds of token that the indentation-aware wrapper tells apart.
///
/// Every other kind of the grammar is carried through as `Other` with the
/// number that the grammar gives it.
#[derive(Clone, Copy, Debug, PartialEq, Eq, Structural)]
pub enum TokenType {
    /// Synthetic: a block of options opens.
    Indent,
    /// Synthetic: a block of options closes.
    Dedent,
    /// Synthetic: a blank line directly below the content of an option.
    BlankLineFollowingOption,
    /// A line break together with the whitespace that indents the next line.
    Newline,
    /// The marker that starts a shortcut option.
    ShortcutArrow,
    /// The marker that closes the body of a node.
    BodyEnd,
    /// The end of the input.
    Eof,
    /// Any other token of the grammar.
    Other(isize),
}

/// One token.
#[derive(Debug, PartialEq, Eq)]
pub struct Token {
    pub token_type: TokenType,
    pub channel: isize,
    /// Index of the first character of the token in the input.
    pub start: isize,
    /// Index of the last character of the token in the input; `start - 1` for
    /// a token of no width.
    pub stop: isize,
    pub line: isize,
    pub column: isize,
    pub text: String,
}

/// The mathematical value of a [`Token`].
pub struct TokenView {
    pub token_type: TokenType,
    pub channel: isize,
    pub start: isize,
    pub stop: isize,
    pub line: isize,
    pub column: isize,
    pub text: Seq<char>,
}

impl View for Token {
    type V = TokenView;

    open spec fn view(&self) -> TokenView {
        TokenView {
            token_type: self.token_type,
            channel: self.channel,
            start: self.start,
            stop: self.stop,
            line: self.line,
            column: self.column,
            text: self.text@,
        }
    }
}

impl DeepView for Token {
    type V = TokenView;

    open spec fn deep_view(&self) -> TokenView {
        self@
    }
}

/// The mathematical values of a sequence of tokens, in the same order.
pub open spec fn token_views(tokens: Seq<Token>) -> Seq<TokenView> {
    tokens.map_values(|t: Token| t@)
}

impl Clone for Token {
    fn clone(&self) -> (copy: Token)
        ensures
            copy@ == self@,
    {
        Token {
            token_type: self.token_type,
            channel: self.channel,
            start: self.start,
            stop: self.stop,
            line: self.line,
            column: self.column,
            text: self.text.clone(),
        }
    }
}

/// Where the underlying lexer stands once it has produced a token.
///
/// The index just past the token, `token_start_char_index + text_len`, always
/// fits the type of a token's indices.
#[derive(Clone, Copy, Debug)]
pub struct LexerPosition {
    line: isize,
    char_position_in_line: isize,
    token_start_char_index: isize,
    text_len: usize,
}

impl LexerPosition {
    #[verifier::type_invariant]
    spec fn in_range(self) -> bool {
        0 <= self.token_start_char_index && self.token_start_char_index + self.text_len
            <= isize::MAX
    }

    /// The line on which the lexer stands.
    pub closed spec fn line(self) -> isize {
        self.line
    }

    /// The offset within that line.
    pub closed spec fn char_position_in_line(self) -> isize {
        self.char_position_in_line
    }

    /// The index at which the last token starts.
    pub closed spec fn token_start_char_index(self) -> isize {
        self.token_start_char_index
    }

    /// The length of the text matched for the last token.
    pub closed spec fn text_len(self) -> usize {
        self.text_len
    }

    /// The index just past the last token.
    pub open spec fn end_index(self) -> int {
        self.token_start_char_index() + self.text_len()
    }

    /// Whether the index just past the last token fits; it does for every
    /// position that a program holds.
    pub open spec fn in_bounds(self) -> bool {
        Self::admits(self.token_start_char_index(), self.text_len())
    }

    /// Whether a lexer can stand at a token that starts at
    /// `token_start_char_index` and is `text_len` long.
    pub open spec fn admits(token_start_char_index: isize, text_len: usize) -> bool {
        0 <= token_start_char_index && token_start_char_index + text_len <= isize::MAX
    }

    /// The position with the given parts, if the index just past the token
    /// fits.
    pub fn new(
        line: isize,
        char_position_in_line: isize,
        token_start_char_index: isize,
        text_len: usize,
    ) -> (position: Option<LexerPosition>)
        ensures
            position is Some <==> Self::admits(token_start_char_index, text_len),
            position matches Some(p) ==> {
                &&& p.line() == line
                &&& p.char_position_in_line() == char_position_in_line
                &&& p.token_start_char_index() == token_start_char_index
                &&& p.text_len() == text_len
            },
    {
        if token_start_char_index < 0 {
            return None;
        }
        let room: usize = (isize::MAX - token_start_char_index) as usize;
        if text_len > room {
            return None;
        }
        Some(LexerPosition { line, char_position_in_line, token_start_char_index, text_len })
    }

    /// The line on which the lexer stands.
    pub fn get_line(&self) -> (line: isize)
        ensures
            line == self.line(),
    {
        self.line
    }

    /// The offset within that line.
    pub fn get_char_position_in_line(&self) -> (column: isize)
        ensures
            column == self.char_position_in_line(),
    {
        self.char_position_in_line
    }

    /// The index just past the last token.
    pub fn get_end_index(&self) -> (index: isize)
        ensures
            index == self.end_index(),
            0 <= index,
            self.in_bounds(),
    {
        proof {
            use_type_invariant(self);
        }
        self.token_start_char_index + (self.text_len as isize)
    }
}

} // verus!
