//! A layer over the grammar's lexer that turns the indentation of shortcut
//! option blocks into explicit tokens.
//!
//! The grammar is blind to whitespace everywhere but inside blocks of shortcut
//! options. The wrapper watches the tokens go by and, behind each line break,
//! inserts the markers that open and close such blocks, so that the parser
//! sees a stream that is delimited throughout.
//!
//! The underlying lexer stays with the caller. For each token that the parser
//! asks for, the caller first offers the wrapper the chance to answer from what
//! it holds ([`IndentAwareYarnSpinnerLexer::next_pending_token`]); where it
//! cannot, the caller pulls one token from the underlying lexer and hands it
//! over ([`IndentAwareYarnSpinnerLexer::next_token`]).

use crate::diagnostic::{Diagnostic, DiagnosticSeverity, DiagnosticView, Position};
use crate::token::{
    token_views, LexerPosition, Token, TokenType, TokenView, TOKEN_DEFAULT_CHANNEL,
};
use std::collections::VecDeque;
use std::ops::Range;
use vstd::prelude::*;

verus! {

/// What the wrapper remembers between two tokens.
pub struct LexerState {
    /// The source was found exhausted.
    pub hit_eof: bool,
    /// The token that the underlying lexer produced last.
    pub last_token: Option<TokenView>,
    /// Tokens that are computed but not handed out yet, oldest first.
    pub pending_tokens: Seq<TokenView>,
    /// A shortcut marker stands on the line that is being read.
    pub line_contains_shortcut: bool,
    /// The indentation measured last.
    pub last_indent: isize,
    /// The indentations of the blocks that are open, innermost last.
    pub unbalanced_indents: Seq<isize>,
    /// The line at which the content of an option was seen last.
    pub last_seen_option_content: Option<isize>,
    /// The file that is being read.
    pub file_name: Seq<char>,
    /// What the wrapper has reported so far, in order.
    pub diagnostics: Seq<DiagnosticView>,
}

/// What one character adds to the indentation of a line.
pub open spec fn indentation_weight(c: char) -> int {
    if c == ' ' {
        1
    } else if c == '\t' {
        8
    } else {
        0
    }
}

/// The indentation that a run of text amounts to: 1 for each space and 8 for
/// each tab in it.
pub open spec fn indentation_length(text: Seq<char>) -> int
    decreases text.len(),
{
    if text.len() == 0 {
        0
    } else {
        indentation_length(text.drop_last()) + indentation_weight(text.last())
    }
}

/// The indentation as the wrapper measures it: [`indentation_length`], held at
/// the largest number that the measure can take.
pub open spec fn measured_indentation(text: Seq<char>) -> isize {
    if indentation_length(text) <= isize::MAX {
        indentation_length(text) as isize
    } else {
        isize::MAX
    }
}

/// Whether the text holds both a space and a tab.
pub open spec fn mixes_tabs_and_spaces(text: Seq<char>) -> bool {
    text.contains(' ') && text.contains('\t')
}

/// The number of bytes that the text takes in UTF-8.
pub open spec fn byte_len(text: Seq<char>) -> nat {
    vstd::utf8::encode_utf8(text).len()
}

/// The text behind its first character.
pub open spec fn without_first(text: Seq<char>) -> Seq<char> {
    if text.len() > 0 {
        text.subrange(1, text.len() as int)
    } else {
        text
    }
}

/// The warning about a line break whose indentation mixes tabs and spaces.
///
/// It points at the line of the token, from its start over the length of the
/// token's text, and quotes the text without the line break that leads it.
pub open spec fn indentation_warning(file_name: Seq<char>, token: TokenView) -> DiagnosticView {
    DiagnosticView {
        file_name: Some(file_name),
        range: Some(
            (
                Position { line: token.line as usize, character: 0 },
                Position { line: token.line as usize, character: byte_len(token.text) as usize },
            ),
        ),
        message: "Indentation contains tabs and spaces"@,
        context: Some(without_first(token.text)),
        severity: DiagnosticSeverity::Warning,
        start_line: token.line as usize,
    }
}

/// What the wrapper has reported once it has measured the given line break.
pub open spec fn diagnostics_after_measuring(
    diagnostics: Seq<DiagnosticView>,
    file_name: Seq<char>,
    token: TokenView,
) -> Seq<DiagnosticView> {
    if mixes_tabs_and_spaces(token.text) {
        diagnostics.push(indentation_warning(file_name, token))
    } else {
        diagnostics
    }
}

/// A token that the wrapper makes up where the underlying lexer stands: it has
/// no text and no width.
pub open spec fn synthetic_token(token_type: TokenType, position: LexerPosition) -> TokenView {
    TokenView {
        token_type,
        channel: TOKEN_DEFAULT_CHANNEL,
        start: position.end_index() as isize,
        stop: (position.end_index() - 1) as isize,
        line: position.line(),
        column: position.char_position_in_line(),
        text: Seq::empty(),
    }
}

/// The marker that the wrapper answers with once the source is exhausted.
pub open spec fn end_marker() -> TokenView {
    TokenView {
        token_type: TokenType::Eof,
        channel: TOKEN_DEFAULT_CHANNEL,
        start: 0,
        stop: 0,
        line: 0,
        column: -1isize,
        text: "<EOF>"@,
    }
}

/// How many of the open blocks a line of the given indentation closes: the
/// innermost ones, as long as each is indented deeper than the line.
pub open spec fn dedents_due(unbalanced_indents: Seq<isize>, depth: isize) -> nat
    decreases unbalanced_indents.len(),
{
    if unbalanced_indents.len() > 0 && depth < unbalanced_indents.last() {
        1 + dedents_due(unbalanced_indents.drop_last(), depth)
    } else {
        0
    }
}

/// `count` copies of one token.
pub open spec fn repeated(token: TokenView, count: nat) -> Seq<TokenView> {
    Seq::new(count, |i: int| token)
}

/// Zero or one token.
pub open spec fn optional(present: bool, token: TokenView) -> Seq<TokenView> {
    if present {
        seq![token]
    } else {
        Seq::empty()
    }
}

/// Taking one more character into a prefix of the text adds that character's
/// weight to the indentation, and its presence to what the prefix contains.
proof fn lemma_indentation_of_longer_prefix(text: Seq<char>, index: int)
    requires
        0 <= index < text.len(),
    ensures
        indentation_length(text.take(index + 1)) == indentation_length(text.take(index))
            + indentation_weight(text[index]),
        0 <= indentation_length(text.take(index)),
        forall|c: char|
            text.take(index + 1).contains(c) <==> text.take(index).contains(c) || text[index]
                == c,
    decreases index,
{
    assert(text.take(index + 1).drop_last() =~= text.take(index));
    assert(text.take(index + 1).last() == text[index]);
    if index > 0 {
        lemma_indentation_of_longer_prefix(text, index - 1);
    }
    assert forall|c: char|
        text.take(index + 1).contains(c) <==> text.take(index).contains(c) || text[index]
            == c by {
        if text.take(index + 1).contains(c) {
            let i = choose|i: int| 0 <= i < index + 1 && #[trigger] text.take(index + 1)[i] == c;
            if i < index {
                assert(text.take(index)[i] == c);
            }
        }
        if text.take(index).contains(c) {
            let i = choose|i: int| 0 <= i < index && #[trigger] text.take(index)[i] == c;
            assert(text.take(index + 1)[i] == c);
        }
        if text[index] == c {
            assert(text.take(index + 1)[index] == c);
        }
    }
}

impl LexerState {
    /// The state in which a wrapper starts on the given file.
    pub open spec fn initial(file_name: Seq<char>) -> LexerState {
        LexerState {
            hit_eof: false,
            last_token: None,
            pending_tokens: Seq::empty(),
            line_contains_shortcut: false,
            last_indent: 0,
            unbalanced_indents: Seq::empty(),
            last_seen_option_content: None,
            file_name,
            diagnostics: Seq::empty(),
        }
    }

    /// Whether the line break `token` ends a blank line while the content of an
    /// option is on record: the token before it was of the same type.
    pub open spec fn sees_blank_line(self, token: TokenView) -> bool {
        &&& self.last_seen_option_content is Some
        &&& self.last_token matches Some(last)
        &&& last.token_type == token.token_type
    }

    /// Whether that blank line stands directly below the recorded content.
    pub open spec fn blank_line_follows_option(
        self,
        token: TokenView,
        position: LexerPosition,
    ) -> bool {
        &&& self.sees_blank_line(token)
        &&& position.line() - self.last_seen_option_content->0 == 1
    }

    /// Whether the line behind the line break `token` opens a block: a shortcut
    /// marker stood on the line that ends, and the new line is indented deeper
    /// than the last.
    pub open spec fn opens_block(self, token: TokenView) -> bool {
        self.line_contains_shortcut && measured_indentation(token.text) > self.last_indent
    }

    /// The open blocks once the line behind `token` may have opened one.
    pub open spec fn indents_with_opened(self, token: TokenView) -> Seq<isize> {
        if self.opens_block(token) {
            self.unbalanced_indents.push(measured_indentation(token.text))
        } else {
            self.unbalanced_indents
        }
    }

    /// How many blocks the line behind `token` closes.
    pub open spec fn blocks_closed(self, token: TokenView) -> nat {
        dedents_due(self.indents_with_opened(token), measured_indentation(token.text))
    }

    /// The state after a line break.
    ///
    /// The line break is queued unchanged. Behind it follow, in this order: the
    /// marker of a blank line below the content of an option, the marker that
    /// opens a block, and one closing marker for each block that the new line
    /// closes.
    pub open spec fn after_newline(self, token: TokenView, position: LexerPosition) -> LexerState {
        let depth = measured_indentation(token.text);
        let opened = self.indents_with_opened(token);
        let closed = self.blocks_closed(token);
        let remaining = opened.take(opened.len() - closed);
        LexerState {
            pending_tokens: self.pending_tokens.push(token) + optional(
                self.blank_line_follows_option(token, position),
                synthetic_token(TokenType::BlankLineFollowingOption, position),
            ) + optional(self.opens_block(token), synthetic_token(TokenType::Indent, position))
                + repeated(synthetic_token(TokenType::Dedent, position), closed),
            line_contains_shortcut: false,
            last_indent: depth,
            unbalanced_indents: remaining,
            last_seen_option_content: if closed > 0 && remaining.len() == 0 {
                Some(position.line())
            } else if self.line_contains_shortcut {
                Some(position.line())
            } else if self.sees_blank_line(token) {
                None
            } else {
                self.last_seen_option_content
            },
            diagnostics: diagnostics_after_measuring(self.diagnostics, self.file_name, token),
            ..self
        }
    }

    /// The state after the end of the input: every open block is closed, then
    /// the token is queued.
    pub open spec fn after_eof(self, token: TokenView, position: LexerPosition) -> LexerState {
        LexerState {
            pending_tokens: self.pending_tokens + repeated(
                synthetic_token(TokenType::Dedent, position),
                self.unbalanced_indents.len(),
            ) + seq![token],
            unbalanced_indents: Seq::empty(),
            ..self
        }
    }

    /// The state after a shortcut marker.
    pub open spec fn after_shortcut_arrow(self, token: TokenView) -> LexerState {
        LexerState {
            pending_tokens: self.pending_tokens.push(token),
            line_contains_shortcut: true,
            ..self
        }
    }

    /// The state after the end of a node's body: nothing that tracks blocks
    /// outlives the node.
    pub open spec fn after_body_end(self, token: TokenView) -> LexerState {
        LexerState {
            pending_tokens: self.pending_tokens.push(token),
            line_contains_shortcut: false,
            last_indent: 0,
            unbalanced_indents: Seq::empty(),
            last_seen_option_content: None,
            ..self
        }
    }

    /// The state after any other token.
    pub open spec fn after_other(self, token: TokenView) -> LexerState {
        LexerState { pending_tokens: self.pending_tokens.push(token), ..self }
    }

    /// The state once the token that the underlying lexer produced is taken in.
    pub open spec fn after_token(self, token: TokenView, position: LexerPosition) -> LexerState {
        let handled = match token.token_type {
            TokenType::Newline => self.after_newline(token, position),
            TokenType::Eof => self.after_eof(token, position),
            TokenType::ShortcutArrow => self.after_shortcut_arrow(token),
            TokenType::BodyEnd => self.after_body_end(token),
            _ => self.after_other(token),
        };
        LexerState { last_token: Some(token), ..handled }
    }

    /// Whether the wrapper can answer without a token of the underlying lexer.
    pub open spec fn answers_alone(self, source_is_exhausted: bool) -> bool {
        (self.hit_eof && self.pending_tokens.len() > 0) || source_is_exhausted
    }

    /// The state once the wrapper has answered alone.
    pub open spec fn after_answering_alone(self) -> LexerState {
        if self.hit_eof && self.pending_tokens.len() > 0 {
            LexerState { pending_tokens: self.pending_tokens.drop_first(), ..self }
        } else {
            LexerState { hit_eof: true, ..self }
        }
    }

    /// The token with which the wrapper answers alone.
    pub open spec fn answer_alone(self) -> TokenView {
        if self.hit_eof && self.pending_tokens.len() > 0 {
            self.pending_tokens[0]
        } else {
            end_marker()
        }
    }

    /// The state once the wrapper has taken in a token and handed one out.
    pub open spec fn after_next_token(self, token: TokenView, position: LexerPosition) -> LexerState {
        let taken = self.after_token(token, position);
        LexerState { pending_tokens: taken.pending_tokens.drop_first(), ..taken }
    }

    /// The token that the wrapper hands out once it has taken in a token.
    pub open spec fn next_token(self, token: TokenView, position: LexerPosition) -> TokenView {
        self.after_token(token, position).pending_tokens[0]
    }
}

impl LexerState {
    /// What holds of every state that a wrapper reaches: the indentation
    /// measured last is not negative; the open blocks are indented ever
    /// deeper, the innermost no deeper than the line measured last; and
    /// directly behind a line break no shortcut marker is on record.
    pub open spec fn well_formed(self) -> bool {
        &&& 0 <= self.last_indent
        &&& forall|i: int, j: int|
            0 <= i < j < self.unbalanced_indents.len() ==> self.unbalanced_indents[i]
                < self.unbalanced_indents[j]
        &&& forall|i: int|
            0 <= i < self.unbalanced_indents.len() ==> 0 < #[trigger] self.unbalanced_indents[i]
                <= self.last_indent
        &&& (self.last_token matches Some(last) && last.token_type == TokenType::Newline)
            ==> !self.line_contains_shortcut
    }
}

/// The blocks that a line closes are among the open ones, and the innermost
/// block that stays open is indented no deeper than the line.
pub proof fn lemma_dedents_due(unbalanced_indents: Seq<isize>, depth: isize)
    ensures
        dedents_due(unbalanced_indents, depth) <= unbalanced_indents.len(),
        dedents_due(unbalanced_indents, depth) < unbalanced_indents.len()
            ==> unbalanced_indents[unbalanced_indents.len() - dedents_due(
            unbalanced_indents,
            depth,
        ) - 1] <= depth,
        forall|i: int|
            unbalanced_indents.len() - dedents_due(unbalanced_indents, depth) <= i
                < unbalanced_indents.len() ==> depth < #[trigger] unbalanced_indents[i],
    decreases unbalanced_indents.len(),
{
    if unbalanced_indents.len() > 0 && depth < unbalanced_indents.last() {
        let rest = unbalanced_indents.drop_last();
        lemma_dedents_due(rest, depth);
        assert forall|i: int|
            unbalanced_indents.len() - dedents_due(unbalanced_indents, depth) <= i
                < unbalanced_indents.len() implies depth < #[trigger] unbalanced_indents[i] by {
            if i < rest.len() {
                assert(unbalanced_indents[i] == rest[i]);
            }
        }
    }
}

/// The indentation of a text is never negative, so neither is its measure.
pub proof fn lemma_indentation_is_not_negative(text: Seq<char>)
    ensures
        0 <= indentation_length(text),
        0 <= measured_indentation(text),
    decreases text.len(),
{
    if text.len() > 0 {
        lemma_indentation_is_not_negative(text.drop_last());
    }
}

/// A wrapper starts in a well-formed state.
pub proof fn lemma_initial_state_is_well_formed(file_name: Seq<char>)
    ensures
        LexerState::initial(file_name).well_formed(),
{
}

/// Neither taking in a token nor handing one out leads out of the well-formed
/// states.
pub proof fn lemma_well_formed_is_kept(
    state: LexerState,
    token: TokenView,
    position: LexerPosition,
)
    ensures
        state.well_formed() ==> state.after_token(token, position).well_formed(),
        state.well_formed() ==> state.after_next_token(token, position).well_formed(),
        state.well_formed() ==> state.after_answering_alone().well_formed(),
{
    if state.well_formed() {
        if token.token_type == TokenType::Newline {
            let depth = measured_indentation(token.text);
            let opened = state.indents_with_opened(token);
            let closed = state.blocks_closed(token);
            let remaining = opened.take(opened.len() - closed);
            lemma_indentation_is_not_negative(token.text);
            lemma_dedents_due(opened, depth);
            let after = state.after_newline(token, position);
            assert(after.unbalanced_indents == remaining);
            assert forall|i: int| 0 <= i < remaining.len() implies 0 < #[trigger] remaining[i]
                <= depth by {
                assert(remaining[i] == opened[i]);
                assert(remaining.len() == opened.len() - closed);
                if i < remaining.len() - 1 {
                    assert(opened[i] < opened[remaining.len() - 1]);
                }
                assert(0 < opened[i]);
            }
            assert(after.well_formed());
        }
    }
}

/// No block outlives a node or the input: once the end of a node's body or
/// the end of the input is taken in, no block is open. A wrapper that
/// answers alone opens none either.
pub proof fn lemma_no_indentation_leaks(
    state: LexerState,
    token: TokenView,
    position: LexerPosition,
)
    ensures
        token.token_type == TokenType::BodyEnd || token.token_type == TokenType::Eof ==> {
            &&& state.after_token(token, position).unbalanced_indents.len() == 0
            &&& state.after_next_token(token, position).unbalanced_indents.len() == 0
        },
        state.after_answering_alone().unbalanced_indents == state.unbalanced_indents,
{
}

/// One request of the parser for a token, as the wrapper sees it: whether
/// the source is exhausted, and the token that the underlying lexer gives
/// where the wrapper asks for one, with the place where that lexer then
/// stands.
pub struct Pull {
    pub source_is_exhausted: bool,
    pub token: TokenView,
    pub position: LexerPosition,
}

impl LexerState {
    /// The state once a request is answered: alone where the wrapper can,
    /// and else with the help of the token of the underlying lexer.
    pub open spec fn after_pull(self, pull: Pull) -> LexerState {
        if self.answers_alone(pull.source_is_exhausted) {
            self.after_answering_alone()
        } else {
            self.after_next_token(pull.token, pull.position)
        }
    }

    /// The state once the requests are answered, one after the other.
    pub open spec fn after_pulls(self, pulls: Seq<Pull>) -> LexerState
        decreases pulls.len(),
    {
        if pulls.len() == 0 {
            self
        } else {
            self.after_pulls(pulls.drop_last()).after_pull(pulls.last())
        }
    }
}

/// No indentation leaks, whatever the input. Start a wrapper and have it
/// answer any requests, with a source that is found exhausted at every
/// request or at none: a source is empty or it is not. Then no block is open
/// after a request that met the end of a node's body, the end of the input,
/// or the exhausted source, and the state is well-formed throughout.
pub proof fn lemma_no_indentation_leaks_in_a_run(file_name: Seq<char>, pulls: Seq<Pull>)
    requires
        forall|i: int, j: int|
            0 <= i < pulls.len() && 0 <= j < pulls.len() ==> (#[trigger] pulls[i]).source_is_exhausted
                == (#[trigger] pulls[j]).source_is_exhausted,
    ensures
        LexerState::initial(file_name).after_pulls(pulls).well_formed(),
        pulls.len() > 0 && (pulls.last().source_is_exhausted || pulls.last().token.token_type
            == TokenType::BodyEnd || pulls.last().token.token_type == TokenType::Eof)
            ==> LexerState::initial(file_name).after_pulls(pulls).unbalanced_indents.len() == 0,
        pulls.len() > 0 && pulls.last().source_is_exhausted ==> LexerState::initial(
            file_name,
        ).after_pulls(pulls).pending_tokens.len() == 0,
        pulls.len() > 0 && !pulls.last().source_is_exhausted ==> !LexerState::initial(
            file_name,
        ).after_pulls(pulls).hit_eof,
    decreases pulls.len(),
{
    let start = LexerState::initial(file_name);
    if pulls.len() > 0 {
        let earlier = pulls.drop_last();
        let before = start.after_pulls(earlier);
        assert forall|i: int, j: int| 0 <= i < earlier.len() && 0 <= j < earlier.len() implies (
        #[trigger] earlier[i]).source_is_exhausted == (#[trigger] earlier[j]).source_is_exhausted by {
            assert(earlier[i] == pulls[i]);
            assert(earlier[j] == pulls[j]);
        }
        lemma_no_indentation_leaks_in_a_run(file_name, earlier);
        lemma_well_formed_is_kept(before, pulls.last().token, pulls.last().position);
        if earlier.len() > 0 {
            assert(earlier.last() == pulls[pulls.len() - 2]);
            assert(earlier.last().source_is_exhausted == pulls.last().source_is_exhausted);
        }
    } else {
        lemma_initial_state_is_well_formed(file_name);
    }
}

/// A line break whose indentation mixes tabs and spaces adds exactly one
/// diagnostic, a warning for the token's line, however many tabs and spaces
/// there are; any other line break adds none.
pub proof fn lemma_one_warning_per_mixed_line(
    state: LexerState,
    token: TokenView,
    position: LexerPosition,
)
    ensures
        mixes_tabs_and_spaces(token.text) ==> {
            &&& state.after_newline(token, position).diagnostics == state.diagnostics.push(
                indentation_warning(state.file_name, token),
            )
            &&& indentation_warning(state.file_name, token).severity
                == DiagnosticSeverity::Warning
            &&& indentation_warning(state.file_name, token).start_line == token.line as usize
        },
        !mixes_tabs_and_spaces(token.text) ==> state.after_newline(token, position).diagnostics
            == state.diagnostics,
{
}

/// A blank line directly below the recorded content of an option queues
/// exactly one marker for it, without text, right behind the line break; no
/// block opens on such a line.
///
/// Unless the blank line closes the last open block, which puts its own
/// line on record, nothing is on record afterwards, and the line break of a
/// second blank line queues no such marker.
pub proof fn lemma_blank_line_following_option(
    state: LexerState,
    first: TokenView,
    first_position: LexerPosition,
    second: TokenView,
    second_position: LexerPosition,
)
    requires
        state.well_formed(),
        first.token_type == TokenType::Newline,
        second.token_type == TokenType::Newline,
        state.last_token matches Some(last) && last.token_type == TokenType::Newline,
        state.last_seen_option_content matches Some(line) && first_position.line() - line == 1,
    ensures
        ({
            let marker = synthetic_token(TokenType::BlankLineFollowingOption, first_position);
            let after = state.after_token(first, first_position);
            let closed = state.blocks_closed(first);
            &&& marker.text.len() == 0
            &&& after.pending_tokens == state.pending_tokens.push(first).push(marker) + repeated(
                synthetic_token(TokenType::Dedent, first_position),
                closed,
            )
            &&& !(closed > 0 && after.unbalanced_indents.len() == 0) ==> {
                &&& after.last_seen_option_content is None
                &&& after.after_token(second, second_position).pending_tokens
                    == after.pending_tokens.push(second) + repeated(
                    synthetic_token(TokenType::Dedent, second_position),
                    after.blocks_closed(second),
                )
            }
        }),
{
    let marker = synthetic_token(TokenType::BlankLineFollowingOption, first_position);
    let after = state.after_token(first, first_position);
    let closed = state.blocks_closed(first);
    assert(state.blank_line_follows_option(first, first_position));
    assert(!state.opens_block(first));
    assert(after.pending_tokens =~= state.pending_tokens.push(first).push(marker) + repeated(
        synthetic_token(TokenType::Dedent, first_position),
        closed,
    ));
    if !(closed > 0 && after.unbalanced_indents.len() == 0) {
        assert(!after.sees_blank_line(second));
        assert(!after.line_contains_shortcut);
        assert(after.after_token(second, second_position).pending_tokens
            =~= after.pending_tokens.push(second) + repeated(
            synthetic_token(TokenType::Dedent, second_position),
            after.blocks_closed(second),
        ));
    }
}

/// How many of the tokens are of the given type.
pub open spec fn count_of(tokens: Seq<TokenView>, token_type: TokenType) -> int
    decreases tokens.len(),
{
    if tokens.len() == 0 {
        0
    } else {
        count_of(tokens.drop_last(), token_type) + if tokens.last().token_type == token_type {
            1int
        } else {
            0int
        }
    }
}

/// Two runs of tokens in a row hold as many tokens of a type as both
/// together.
pub proof fn lemma_count_of_add(first: Seq<TokenView>, second: Seq<TokenView>, token_type: TokenType)
    ensures
        count_of(first + second, token_type) == count_of(first, token_type) + count_of(
            second,
            token_type,
        ),
    decreases second.len(),
{
    if second.len() == 0 {
        assert(first + second =~= first);
    } else {
        assert((first + second).drop_last() =~= first + second.drop_last());
        lemma_count_of_add(first, second.drop_last(), token_type);
    }
}

/// Copies of one token are all of its type and of no other.
pub proof fn lemma_count_of_repeated(token: TokenView, count: nat, token_type: TokenType)
    ensures
        count_of(repeated(token, count), token_type) == if token.token_type == token_type {
            count as int
        } else {
            0
        },
    decreases count,
{
    if count > 0 {
        assert(repeated(token, count).drop_last() =~= repeated(token, (count - 1) as nat));
        lemma_count_of_repeated(token, (count - 1) as nat, token_type);
    }
}

impl LexerState {
    /// The tokens that taking in a token adds to the queue.
    pub open spec fn queued_by(self, token: TokenView, position: LexerPosition) -> Seq<TokenView> {
        self.after_token(token, position).pending_tokens.skip(self.pending_tokens.len() as int)
    }
}

/// The markers balance: taking in a token queues exactly one opening marker
/// for each block that it opens and one closing marker for each block that
/// it closes.
///
/// This holds of every token of the underlying lexer, which makes up no
/// markers of its own, but one: the end of a node's body while a block is
/// open, which forgets the block without closing it.
pub proof fn lemma_markers_balance(state: LexerState, token: TokenView, position: LexerPosition)
    requires
        token.token_type != TokenType::Indent,
        token.token_type != TokenType::Dedent,
        !(token.token_type == TokenType::BodyEnd && state.unbalanced_indents.len() > 0),
    ensures
        count_of(state.queued_by(token, position), TokenType::Indent) - count_of(
            state.queued_by(token, position),
            TokenType::Dedent,
        ) == state.after_token(token, position).unbalanced_indents.len()
            - state.unbalanced_indents.len(),
{
    let queued = state.queued_by(token, position);
    let indent = synthetic_token(TokenType::Indent, position);
    let dedent = synthetic_token(TokenType::Dedent, position);
    let blank = synthetic_token(TokenType::BlankLineFollowingOption, position);
    if token.token_type == TokenType::Newline {
        let closed = state.blocks_closed(token);
        let parts = seq![token] + optional(state.blank_line_follows_option(token, position), blank)
            + optional(state.opens_block(token), indent);
        assert(queued =~= parts + repeated(dedent, closed));
        lemma_dedents_due(state.indents_with_opened(token), measured_indentation(token.text));
        lemma_count_of_add(parts, repeated(dedent, closed), TokenType::Indent);
        lemma_count_of_add(parts, repeated(dedent, closed), TokenType::Dedent);
        lemma_count_of_repeated(dedent, closed, TokenType::Indent);
        lemma_count_of_repeated(dedent, closed, TokenType::Dedent);
        lemma_count_of_few(parts, TokenType::Indent);
        lemma_count_of_few(parts, TokenType::Dedent);
    } else if token.token_type == TokenType::Eof {
        let closed = state.unbalanced_indents.len();
        assert(queued =~= repeated(dedent, closed) + seq![token]);
        lemma_count_of_add(repeated(dedent, closed), seq![token], TokenType::Indent);
        lemma_count_of_add(repeated(dedent, closed), seq![token], TokenType::Dedent);
        lemma_count_of_repeated(dedent, closed, TokenType::Indent);
        lemma_count_of_repeated(dedent, closed, TokenType::Dedent);
        lemma_count_of_few(seq![token], TokenType::Indent);
        lemma_count_of_few(seq![token], TokenType::Dedent);
    } else {
        assert(queued =~= seq![token]);
        lemma_count_of_few(queued, TokenType::Indent);
        lemma_count_of_few(queued, TokenType::Dedent);
    }
}

/// What a run of up to three tokens holds of a type, token by token.
proof fn lemma_count_of_few(tokens: Seq<TokenView>, token_type: TokenType)
    requires
        tokens.len() <= 3,
    ensures
        count_of(tokens, token_type) == (if tokens.len() > 0 && tokens[0].token_type == token_type {
            1int
        } else {
            0int
        }) + (if tokens.len() > 1 && tokens[1].token_type == token_type {
            1int
        } else {
            0int
        }) + (if tokens.len() > 2 && tokens[2].token_type == token_type {
            1int
        } else {
            0int
        }),
    decreases tokens.len(),
{
    if tokens.len() > 0 {
        lemma_count_of_few(tokens.drop_last(), token_type);
    }
}

/// How many more opening markers than closing markers the tokens hold.
pub open spec fn surplus_of_indents(tokens: Seq<TokenView>) -> int {
    count_of(tokens, TokenType::Indent) - count_of(tokens, TokenType::Dedent)
}

/// A run of tokens holds of a type what its first token and the rest hold.
pub proof fn lemma_count_of_first_and_rest(tokens: Seq<TokenView>, token_type: TokenType)
    requires
        tokens.len() > 0,
    ensures
        count_of(tokens, token_type) == count_of(tokens.drop_first(), token_type) + if tokens[0].token_type
            == token_type {
            1int
        } else {
            0int
        },
{
    assert(tokens =~= seq![tokens[0]] + tokens.drop_first());
    lemma_count_of_add(seq![tokens[0]], tokens.drop_first(), token_type);
    lemma_count_of_few(seq![tokens[0]], token_type);
}

impl LexerState {
    /// The token with which a request is answered.
    pub open spec fn answer_to(self, pull: Pull) -> TokenView {
        if self.answers_alone(pull.source_is_exhausted) {
            self.answer_alone()
        } else {
            self.next_token(pull.token, pull.position)
        }
    }

    /// The tokens with which the requests are answered, one after the other.
    pub open spec fn answers_to(self, pulls: Seq<Pull>) -> Seq<TokenView>
        decreases pulls.len(),
    {
        if pulls.len() == 0 {
            Seq::empty()
        } else {
            self.answers_to(pulls.drop_last()).push(
                self.after_pulls(pulls.drop_last()).answer_to(pulls.last()),
            )
        }
    }

    /// Whether answering the request forgets a block without closing it: the
    /// underlying lexer gives the end of a node's body while a block is open.
    pub open spec fn forgets_a_block(self, pull: Pull) -> bool {
        &&& !self.answers_alone(pull.source_is_exhausted)
        &&& pull.token.token_type == TokenType::BodyEnd
        &&& self.unbalanced_indents.len() > 0
    }

    /// Whether the underlying lexer gives a marker of its own making for the
    /// request.
    pub open spec fn is_given_a_marker(self, pull: Pull) -> bool {
        &&& !self.answers_alone(pull.source_is_exhausted)
        &&& (pull.token.token_type == TokenType::Indent || pull.token.token_type
            == TokenType::Dedent)
    }
}

/// The stream is balanced. Start a wrapper and have it answer any requests
/// in the course of which the underlying lexer gives no markers of its own
/// making and no block is forgotten. Then among the tokens that the wrapper
/// has handed out or holds in its queue there are as many more opening than
/// closing markers as blocks are open. So once no block is open and the
/// queue is empty, every opening marker that was handed out has been
/// followed by its closing marker.
pub proof fn lemma_markers_balance_in_a_run(file_name: Seq<char>, pulls: Seq<Pull>)
    requires
        forall|i: int|
            0 <= i < pulls.len() ==> {
                let before = #[trigger] LexerState::initial(file_name).after_pulls(pulls.take(i));
                !before.forgets_a_block(pulls[i]) && !before.is_given_a_marker(pulls[i])
            },
    ensures
        ({
            let start = LexerState::initial(file_name);
            surplus_of_indents(start.answers_to(pulls)) + surplus_of_indents(
                start.after_pulls(pulls).pending_tokens,
            ) == start.after_pulls(pulls).unbalanced_indents.len()
        }),
    decreases pulls.len(),
{
    let start = LexerState::initial(file_name);
    if pulls.len() > 0 {
        let earlier = pulls.drop_last();
        let pull = pulls.last();
        let before = start.after_pulls(earlier);
        let after = start.after_pulls(pulls);
        let answer = before.answer_to(pull);
        assert(pulls.take(pulls.len() - 1) =~= earlier);
        assert forall|i: int| 0 <= i < earlier.len() implies {
            let state = #[trigger] start.after_pulls(earlier.take(i));
            !state.forgets_a_block(earlier[i]) && !state.is_given_a_marker(earlier[i])
        } by {
            assert(earlier.take(i) =~= pulls.take(i));
            assert(earlier[i] == pulls[i]);
        }
        lemma_markers_balance_in_a_run(file_name, earlier);
        let handed_out = start.answers_to(earlier);
        lemma_count_of_add(handed_out, seq![answer], TokenType::Indent);
        lemma_count_of_add(handed_out, seq![answer], TokenType::Dedent);
        lemma_count_of_few(seq![answer], TokenType::Indent);
        lemma_count_of_few(seq![answer], TokenType::Dedent);
        assert(handed_out.push(answer) =~= handed_out + seq![answer]);
        if before.answers_alone(pull.source_is_exhausted) {
            if before.hit_eof && before.pending_tokens.len() > 0 {
                lemma_count_of_first_and_rest(before.pending_tokens, TokenType::Indent);
                lemma_count_of_first_and_rest(before.pending_tokens, TokenType::Dedent);
            }
        } else {
            let taken = before.after_token(pull.token, pull.position);
            let queued = before.queued_by(pull.token, pull.position);
            lemma_a_token_is_queued(before, pull.token, pull.position);
            lemma_tokens_are_queued_behind(before, pull.token, pull.position);
            lemma_markers_balance(before, pull.token, pull.position);
            lemma_count_of_add(before.pending_tokens, queued, TokenType::Indent);
            lemma_count_of_add(before.pending_tokens, queued, TokenType::Dedent);
            lemma_count_of_first_and_rest(taken.pending_tokens, TokenType::Indent);
            lemma_count_of_first_and_rest(taken.pending_tokens, TokenType::Dedent);
        }
    } else {
        assert(start.answers_to(pulls) =~= Seq::<TokenView>::empty());
    }
}

/// Taking in a token leaves the queue as it was and adds to its end.
pub proof fn lemma_tokens_are_queued_behind(
    state: LexerState,
    token: TokenView,
    position: LexerPosition,
)
    ensures
        state.after_token(token, position).pending_tokens == state.pending_tokens + state.queued_by(
            token,
            position,
        ),
{
    let after = state.after_token(token, position).pending_tokens;
    assert(state.pending_tokens.is_prefix_of(after));
    assert(after =~= state.pending_tokens + after.skip(state.pending_tokens.len() as int));
}

/// Taking in a token leaves at least one token queued.
pub proof fn lemma_a_token_is_queued(state: LexerState, token: TokenView, position: LexerPosition)
    ensures
        state.after_token(token, position).pending_tokens.len() > 0,
{
}

/// The wrapper itself.
pub struct IndentAwareYarnSpinnerLexer {
    hit_eof: bool,
    last_token: Option<Token>,
    pending_tokens: VecDeque<Token>,
    line_contains_shortcut: bool,
    last_indent: isize,
    unbalanced_indents: Vec<isize>,
    last_seen_option_content: Option<isize>,
    file_name: String,
    diagnostics: Vec<Diagnostic>,
}

/// The mathematical values of a sequence of diagnostics, in the same order.
pub open spec fn diagnostic_views(diagnostics: Seq<Diagnostic>) -> Seq<DiagnosticView> {
    diagnostics.map_values(|d: Diagnostic| d@)
}

impl View for IndentAwareYarnSpinnerLexer {
    type V = LexerState;

    closed spec fn view(&self) -> LexerState {
        LexerState {
            hit_eof: self.hit_eof,
            last_token: match self.last_token {
                Some(token) => Some(token@),
                None => None,
            },
            pending_tokens: token_views(self.pending_tokens@),
            line_contains_shortcut: self.line_contains_shortcut,
            last_indent: self.last_indent,
            unbalanced_indents: self.unbalanced_indents@,
            last_seen_option_content: self.last_seen_option_content,
            file_name: self.file_name@,
            diagnostics: diagnostic_views(self.diagnostics@),
        }
    }
}

/// The stretch of the line that a line break's warning points at.
fn get_newline_indentation_range(token: &Token) -> (range: Range<Position>)
    ensures
        range.start == (Position { line: token.line as usize, character: 0 }),
        range.end == (Position {
            line: token.line as usize,
            character: byte_len(token.text@) as usize,
        }),
{
    let line = token.line as usize;
    let start = Position { line, character: 0 };
    let stop = Position { line, character: token.text.as_str().len() };
    start..stop
}

/// The text of a line break without the character that leads it.
fn get_newline_indentation_text(token: &Token) -> (text: String)
    ensures
        text@ == without_first(token.text@),
{
    let text = token.text.as_str();
    let length = text.unicode_len();
    if length > 0 {
        text.substring_char(1, length).to_owned()
    } else {
        String::new()
    }
}

impl IndentAwareYarnSpinnerLexer {
    /// A wrapper that has seen nothing yet of the file of the given name.
    pub fn new(file_name: String) -> (lexer: Self)
        ensures
            lexer@ == LexerState::initial(file_name@),
    {
        let lexer = IndentAwareYarnSpinnerLexer {
            file_name,
            hit_eof: false,
            last_token: None,
            pending_tokens: VecDeque::new(),
            line_contains_shortcut: false,
            last_indent: 0,
            unbalanced_indents: Vec::new(),
            last_seen_option_content: None,
            diagnostics: Vec::new(),
        };
        assert(lexer@.pending_tokens =~= Seq::empty());
        assert(lexer@.diagnostics =~= Seq::empty());
        lexer
    }

    /// Answers the parser's request for a token from what the wrapper holds,
    /// where it can.
    ///
    /// Once the source was found exhausted, tokens that are still queued are
    /// handed out, oldest first. Where the source is exhausted, this is
    /// recorded and the answer is the end marker. In every other case the
    /// answer is `None` and nothing changes: the caller pulls exactly one token
    /// from the underlying lexer and hands it to [`Self::next_token`].
    pub fn next_pending_token(&mut self, source_is_exhausted: bool) -> (token: Option<Token>)
        ensures
            token is Some <==> old(self)@.answers_alone(source_is_exhausted),
            token matches Some(t) ==> t@ == old(self)@.answer_alone() && final(self)@ == old(
                self,
            )@.after_answering_alone(),
            token is None ==> final(self)@ == old(self)@,
    {
        if self.hit_eof && self.pending_tokens.len() > 0 {
            let token = self.pending_tokens.pop_front();
            assert(self@.pending_tokens =~= old(self)@.pending_tokens.drop_first());
            token
        } else if source_is_exhausted {
            self.hit_eof = true;
            Some(
                Token {
                    token_type: TokenType::Eof,
                    channel: TOKEN_DEFAULT_CHANNEL,
                    start: 0,
                    stop: 0,
                    line: 0,
                    column: -1,
                    text: "<EOF>".to_owned(),
                },
            )
        } else {
            None
        }
    }

    /// Takes in the token that the underlying lexer has just produced, with
    /// the place where that lexer now stands, and hands out the token that the
    /// parser gets next: the oldest one queued.
    ///
    /// Once the end of a node's body or the end of the input is taken in, no
    /// block is open.
    pub fn next_token(&mut self, current: Token, position: LexerPosition) -> (token: Token)
        ensures
            token@ == old(self)@.next_token(current@, position),
            final(self)@ == old(self)@.after_next_token(current@, position),
            current.token_type == TokenType::BodyEnd || current.token_type == TokenType::Eof
                ==> final(self)@.unbalanced_indents.len() == 0,
    {
        self.check_next_token(current, &position);
        let ghost taken = self@;
        let token = self.pending_tokens.pop_front();
        assert(self@.pending_tokens =~= taken.pending_tokens.drop_first());
        match token {
            Some(token) => token,
            None => {
                proof {
                    lemma_a_token_is_queued(old(self)@, current@, position);
                }
                unreached()
            },
        }
    }

    /// Sorts the token by its type and queues it, together with the markers
    /// that it calls for.
    fn check_next_token(&mut self, current: Token, position: &LexerPosition)
        ensures
            final(self)@ == old(self)@.after_token(current@, *position),
    {
        let ghost before = self@;
        match current.token_type {
            TokenType::Newline => self.handle_newline_token(current.clone(), position),
            TokenType::Eof => self.handle_eof_token(current.clone(), position),
            TokenType::ShortcutArrow => {
                self.pending_tokens.push_back(current.clone());
                self.line_contains_shortcut = true;
                assert(self@.pending_tokens =~= before.pending_tokens.push(current@));
            },
            TokenType::BodyEnd => {
                self.line_contains_shortcut = false;
                self.last_indent = 0;
                self.unbalanced_indents.clear();
                self.last_seen_option_content = None;
                self.pending_tokens.push_back(current.clone());
                assert(self@.pending_tokens =~= before.pending_tokens.push(current@));
            },
            _ => {
                self.pending_tokens.push_back(current.clone());
                assert(self@.pending_tokens =~= before.pending_tokens.push(current@));
            },
        }
        self.last_token = Some(current);
    }

    /// What the wrapper has reported so far, in order.
    pub fn diagnostics(&self) -> (diagnostics: &Vec<Diagnostic>)
        ensures
            diagnostic_views(diagnostics@) == self@.diagnostics,
    {
        &self.diagnostics
    }

    /// The indentations of the blocks that are open, innermost last.
    pub fn unbalanced_indents(&self) -> (indents: &Vec<isize>)
        ensures
            indents@ == self@.unbalanced_indents,
    {
        &self.unbalanced_indents
    }

    /// Whether the source was found exhausted.
    pub fn hit_eof(&self) -> (hit: bool)
        ensures
            hit == self@.hit_eof,
    {
        self.hit_eof
    }

    /// Queues a token of the given type without text, as though it had stood
    /// in the input where the underlying lexer stands.
    fn insert_token(&mut self, text: String, token_type: TokenType, position: &LexerPosition)
        ensures
            final(self)@ == (LexerState {
                pending_tokens: old(self)@.pending_tokens.push(
                    TokenView { text: text@, ..synthetic_token(token_type, *position) },
                ),
                ..old(self)@
            }),
    {
        let start_index = position.get_end_index();
        let line = position.get_line();
        let char_position_in_line = position.get_char_position_in_line();
        let token = Token {
            token_type,
            channel: TOKEN_DEFAULT_CHANNEL,
            start: start_index,
            stop: start_index - 1,
            line,
            column: char_position_in_line,
            text,
        };
        assert(token@ == (TokenView { text: text@, ..synthetic_token(token_type, *position) }));
        self.pending_tokens.push_back(token);
        assert(final(self)@.pending_tokens =~= old(self)@.pending_tokens.push(
            TokenView { text: text@, ..synthetic_token(token_type, *position) },
        ));
    }

    /// Takes in a line break and looks ahead at the indentation of the line
    /// that it leads to.
    fn handle_newline_token(&mut self, current_token: Token, position: &LexerPosition)
        requires
            current_token.token_type == TokenType::Newline,
        ensures
            final(self)@ == old(self)@.after_newline(current_token@, *position),
    {
        let ghost token = current_token@;
        let ghost before = old(self)@;
        let line = position.get_line();

        self.pending_tokens.push_back(current_token.clone());
        assert(self@.pending_tokens =~= before.pending_tokens.push(token));

        if let Some(last_seen_option_content) = self.last_seen_option_content {
            let is_blank_line = match &self.last_token {
                Some(last) => current_token.token_type == last.token_type,
                None => false,
            };
            if is_blank_line {
                if last_seen_option_content < isize::MAX && line == last_seen_option_content + 1 {
                    self.insert_token(
                        String::new(),
                        TokenType::BlankLineFollowingOption,
                        position,
                    );
                }
                self.last_seen_option_content = None;
            }
        }
        assert(self@.pending_tokens =~= before.pending_tokens.push(token) + optional(
            before.blank_line_follows_option(token, *position),
            synthetic_token(TokenType::BlankLineFollowingOption, *position),
        ));

        let current_indentation_length = self.get_length_of_newline_token(&current_token);

        if self.line_contains_shortcut {
            if current_indentation_length > self.last_indent {
                self.unbalanced_indents.push(current_indentation_length);
                self.insert_token(String::new(), TokenType::Indent, position);
            }
            self.line_contains_shortcut = false;
            self.last_seen_option_content = Some(line);
        }
        let ghost opened = before.indents_with_opened(token);
        let ghost queued = before.pending_tokens.push(token) + optional(
            before.blank_line_follows_option(token, *position),
            synthetic_token(TokenType::BlankLineFollowingOption, *position),
        ) + optional(before.opens_block(token), synthetic_token(TokenType::Indent, *position));
        let ghost recorded = self@.last_seen_option_content;
        let ghost dedent = synthetic_token(TokenType::Dedent, *position);
        assert(self@.unbalanced_indents == opened);
        assert(self@.pending_tokens =~= queued);

        if self.unbalanced_indents.len() > 0 {
            let mut top = self.unbalanced_indents[self.unbalanced_indents.len() - 1];
            let ghost mut closed: nat = 0;
            assert(opened.take(opened.len() - 0) =~= opened);
            while current_indentation_length < top
                invariant
                    0 <= current_indentation_length,
                    current_indentation_length == measured_indentation(token.text),
                    closed <= opened.len(),
                    dedent == synthetic_token(TokenType::Dedent, *position),
                    line == position.line(),
                    self.unbalanced_indents@ == opened.take(opened.len() - closed),
                    top == if self.unbalanced_indents@.len() > 0 {
                        self.unbalanced_indents@.last()
                    } else {
                        0
                    },
                    dedents_due(opened, current_indentation_length) == closed + dedents_due(
                        self.unbalanced_indents@,
                        current_indentation_length,
                    ),
                    self@ == (LexerState {
                        pending_tokens: queued + repeated(dedent, closed),
                        unbalanced_indents: self.unbalanced_indents@,
                        last_seen_option_content: if closed > 0 && self.unbalanced_indents@.len()
                            == 0 {
                            Some(line)
                        } else {
                            recorded
                        },
                        line_contains_shortcut: false,
                        diagnostics: diagnostics_after_measuring(
                            before.diagnostics,
                            before.file_name,
                            token,
                        ),
                        ..before
                    }),
                decreases self.unbalanced_indents@.len(),
            {
                let ghost stack = self.unbalanced_indents@;
                self.insert_token(String::new(), TokenType::Dedent, position);
                self.unbalanced_indents.pop();
                proof {
                    assert(stack.drop_last() =~= opened.take(opened.len() - (closed + 1)));
                    closed = closed + 1;
                }
                if self.unbalanced_indents.len() > 0 {
                    top = self.unbalanced_indents[self.unbalanced_indents.len() - 1];
                } else {
                    self.last_seen_option_content = Some(line);
                    top = 0;
                }
                assert(self@.pending_tokens =~= queued + repeated(dedent, closed));
            }
            assert(closed == before.blocks_closed(token));
        } else {
            assert(opened.take(opened.len() - 0) =~= opened);
            assert(self@.pending_tokens =~= queued + repeated(dedent, 0));
        }

        self.last_indent = current_indentation_length;
        assert(self@.pending_tokens =~= before.after_newline(token, *position).pending_tokens);
    }

    /// Takes in the end of the input: closes every block that is still open,
    /// innermost first, and queues the token behind the closing markers.
    fn handle_eof_token(&mut self, current_token: Token, position: &LexerPosition)
        ensures
            final(self)@ == old(self)@.after_eof(current_token@, *position),
    {
        let ghost dedent = synthetic_token(TokenType::Dedent, *position);
        let ghost open_blocks = old(self)@.unbalanced_indents.len();
        while self.unbalanced_indents.len() > 0
            invariant
                self.unbalanced_indents@.len() <= open_blocks,
                dedent == synthetic_token(TokenType::Dedent, *position),
                self@ == (LexerState {
                    pending_tokens: old(self)@.pending_tokens + repeated(
                        dedent,
                        (open_blocks - self.unbalanced_indents@.len()) as nat,
                    ),
                    unbalanced_indents: self.unbalanced_indents@,
                    ..old(self)@
                }),
            decreases self.unbalanced_indents@.len(),
        {
            let ghost before = self@;
            self.unbalanced_indents.pop();
            self.insert_token(String::new(), TokenType::Dedent, position);
            assert(self@.pending_tokens =~= old(self)@.pending_tokens + repeated(
                dedent,
                (open_blocks - self.unbalanced_indents@.len()) as nat,
            ));
        }
        let ghost closed = self@;
        self.pending_tokens.push_back(current_token);
        assert(self@.pending_tokens =~= closed.pending_tokens.push(current_token@));
        assert(self@.pending_tokens =~= old(self)@.after_eof(
            current_token@,
            *position,
        ).pending_tokens);
        assert(self@.unbalanced_indents =~= Seq::empty());
    }

    /// Measures the indentation that follows a line break: 1 for each space
    /// and 8 for each tab in the token's text. Where the text holds both, one
    /// warning is reported for the line.
    pub fn get_length_of_newline_token(&mut self, current_token: &Token) -> (length: isize)
        requires
            current_token.token_type == TokenType::Newline,
        ensures
            length == measured_indentation(current_token.text@),
            0 <= length,
            final(self)@ == (LexerState {
                diagnostics: diagnostics_after_measuring(
                    old(self)@.diagnostics,
                    old(self)@.file_name,
                    current_token@,
                ),
                ..old(self)@
            }),
    {
        let mut length: isize = 0;
        let mut saw_spaces = false;
        let mut saw_tabs = false;
        let ghost text = current_token.text@;

        for c in chars: current_token.text.as_str().chars()
            invariant
                chars.seq() == text,
                0 <= length,
                length == measured_indentation(text.take(chars.index() as int)),
                saw_spaces == text.take(chars.index() as int).contains(' '),
                saw_tabs == text.take(chars.index() as int).contains('\t'),
        {
            proof {
                lemma_indentation_of_longer_prefix(text, chars.index() as int);
            }
            if c == ' ' {
                length = if length < isize::MAX {
                    length + 1
                } else {
                    isize::MAX
                };
                saw_spaces = true;
            } else if c == '\t' {
                length = if length <= isize::MAX - 8 {
                    length + 8
                } else {
                    isize::MAX
                };
                saw_tabs = true;
            }
        }
        assert(text.take(text.len() as int) =~= text);

        if saw_spaces && saw_tabs {
            let diagnostic = Diagnostic::from_message(
                "Indentation contains tabs and spaces".to_owned(),
            ).with_range(get_newline_indentation_range(current_token)).with_context(
                get_newline_indentation_text(current_token),
            ).with_start_line(current_token.line as usize).with_file_name(
                self.file_name.clone(),
            ).with_severity(DiagnosticSeverity::Warning);
            assert(diagnostic@ == indentation_warning(old(self)@.file_name, current_token@));
            self.diagnostics.push(diagnostic);
            assert(final(self)@.diagnostics =~= old(self)@.diagnostics.push(
                indentation_warning(old(self)@.file_name, current_token@),
            ));
        }
        length
    }
}

} // verus!
