use yarn_slinger::diagnostic::DiagnosticSeverity;
use yarn_slinger::indent_aware_lexer::IndentAwareYarnSpinnerLexer;
use yarn_slinger::token::{LexerPosition, Token, TokenType, TOKEN_DEFAULT_CHANNEL};

fn token(token_type: TokenType, text: &str, line: isize) -> Token {
    Token {
        token_type,
        channel: TOKEN_DEFAULT_CHANNEL,
        start: 0,
        stop: 0,
        line,
        column: 0,
        text: text.to_string(),
    }
}

fn position(line: isize) -> LexerPosition {
    LexerPosition::new(line, 0, 10, 2).unwrap()
}

#[test]
fn one_leading_tab_measures_eight() {
    let mut lexer = IndentAwareYarnSpinnerLexer::new("a.yarn".to_string());
    let length = lexer.get_length_of_newline_token(&token(TokenType::Newline, "\n\t", 1));
    assert_eq!(length, 8);
    assert!(lexer.diagnostics().is_empty());
}

#[test]
fn one_leading_space_measures_one() {
    let mut lexer = IndentAwareYarnSpinnerLexer::new("a.yarn".to_string());
    let length = lexer.get_length_of_newline_token(&token(TokenType::Newline, "\n ", 1));
    assert_eq!(length, 1);
    assert!(lexer.diagnostics().is_empty());
}

#[test]
fn tab_then_space_measures_nine_and_warns_once() {
    let mut lexer = IndentAwareYarnSpinnerLexer::new("a.yarn".to_string());
    let length = lexer.get_length_of_newline_token(&token(TokenType::Newline, "\n\t ", 7));
    assert_eq!(length, 9);
    let diagnostics = lexer.diagnostics();
    assert_eq!(diagnostics.len(), 1);
    assert_eq!(diagnostics[0].severity, DiagnosticSeverity::Warning);
    assert_eq!(diagnostics[0].message, "Indentation contains tabs and spaces");
    assert_eq!(diagnostics[0].context, Some("\t ".to_string()));
    assert_eq!(diagnostics[0].start_line, 7);
    assert_eq!(diagnostics[0].file_name, Some("a.yarn".to_string()));
    let range = diagnostics[0].range.clone().unwrap();
    assert_eq!(range.start.line, 7);
    assert_eq!(range.start.character, 0);
    assert_eq!(range.end.line, 7);
    assert_eq!(range.end.character, 3);
}

#[test]
fn indent_and_dedent_surround_an_option_block() {
    let mut lexer = IndentAwareYarnSpinnerLexer::new("a.yarn".to_string());
    assert!(lexer.next_pending_token(false).is_none());
    let out = lexer.next_token(token(TokenType::ShortcutArrow, "->", 1), position(1));
    assert_eq!(out.token_type, TokenType::ShortcutArrow);
    let out = lexer.next_token(token(TokenType::Newline, "\n    ", 1), position(2));
    assert_eq!(out.token_type, TokenType::Newline);
    assert_eq!(lexer.unbalanced_indents(), &vec![4]);
    let out = lexer.next_token(token(TokenType::Other(20), "text", 2), position(2));
    assert_eq!(out.token_type, TokenType::Indent);
    assert_eq!(out.text, "");
    assert_eq!(out.start, 12);
    assert_eq!(out.stop, 11);
    assert_eq!(out.line, 2);
    let out = lexer.next_token(token(TokenType::Newline, "\n", 2), position(3));
    assert_eq!(out.token_type, TokenType::Other(20));
    assert!(lexer.unbalanced_indents().is_empty());
    let out = lexer.next_token(token(TokenType::BodyEnd, "===", 3), position(3));
    assert_eq!(out.token_type, TokenType::Newline);
    let out = lexer.next_token(token(TokenType::Eof, "<EOF>", 3), position(3));
    assert_eq!(out.token_type, TokenType::Dedent);
    let out = lexer.next_token(token(TokenType::Eof, "<EOF>", 3), position(3));
    assert_eq!(out.token_type, TokenType::BodyEnd);
    let out = lexer.next_token(token(TokenType::Eof, "<EOF>", 3), position(3));
    assert_eq!(out.token_type, TokenType::Eof);
}

fn drain(lexer: &mut IndentAwareYarnSpinnerLexer, last_line: isize, count: usize) -> Vec<TokenType> {
    let mut types = vec![];
    for _ in 0..count {
        let out = lexer.next_token(token(TokenType::Eof, "<EOF>", last_line), position(last_line));
        types.push(out.token_type);
    }
    types
}

#[test]
fn no_indentation_is_left_after_the_end_of_a_body() {
    let mut lexer = IndentAwareYarnSpinnerLexer::new("a.yarn".to_string());
    lexer.next_token(token(TokenType::ShortcutArrow, "->", 1), position(1));
    lexer.next_token(token(TokenType::Newline, "\n\t", 1), position(2));
    lexer.next_token(token(TokenType::ShortcutArrow, "->", 2), position(2));
    lexer.next_token(token(TokenType::Newline, "\n\t\t", 2), position(3));
    assert_eq!(lexer.unbalanced_indents(), &vec![8, 16]);
    lexer.next_token(token(TokenType::BodyEnd, "===", 3), position(3));
    assert!(lexer.unbalanced_indents().is_empty());
    lexer.next_token(token(TokenType::Newline, "\n", 3), position(4));
    assert!(lexer.unbalanced_indents().is_empty());
}

#[test]
fn no_indentation_is_left_after_the_end_of_the_input() {
    let mut lexer = IndentAwareYarnSpinnerLexer::new("a.yarn".to_string());
    let mut out = vec![];
    out.push(lexer.next_token(token(TokenType::ShortcutArrow, "->", 1), position(1)).token_type);
    out.push(lexer.next_token(token(TokenType::Newline, "\n  ", 1), position(2)).token_type);
    out.push(lexer.next_token(token(TokenType::ShortcutArrow, "->", 2), position(2)).token_type);
    out.push(lexer.next_token(token(TokenType::Newline, "\n    ", 2), position(3)).token_type);
    assert_eq!(lexer.unbalanced_indents(), &vec![2, 4]);
    out.push(lexer.next_token(token(TokenType::Eof, "<EOF>", 3), position(3)).token_type);
    assert!(lexer.unbalanced_indents().is_empty());
    out.extend(drain(&mut lexer, 3, 8));
    assert_eq!(
        out,
        vec![
            TokenType::ShortcutArrow,
            TokenType::Newline,
            TokenType::Indent,
            TokenType::ShortcutArrow,
            TokenType::Newline,
            TokenType::Indent,
            TokenType::Dedent,
            TokenType::Dedent,
            TokenType::Eof,
            TokenType::Eof,
            TokenType::Eof,
            TokenType::Eof,
            TokenType::Eof,
        ]
    );
}

#[test]
fn dedenting_closes_every_deeper_block() {
    let mut lexer = IndentAwareYarnSpinnerLexer::new("a.yarn".to_string());
    lexer.next_token(token(TokenType::ShortcutArrow, "->", 1), position(1));
    lexer.next_token(token(TokenType::Newline, "\n  ", 1), position(2));
    lexer.next_token(token(TokenType::ShortcutArrow, "->", 2), position(2));
    lexer.next_token(token(TokenType::Newline, "\n    ", 2), position(3));
    lexer.next_token(token(TokenType::ShortcutArrow, "->", 3), position(3));
    lexer.next_token(token(TokenType::Newline, "\n      ", 3), position(4));
    assert_eq!(lexer.unbalanced_indents(), &vec![2, 4, 6]);
    lexer.next_token(token(TokenType::Other(20), "text", 4), position(4));
    lexer.next_token(token(TokenType::Newline, "\n   ", 4), position(5));
    assert_eq!(lexer.unbalanced_indents(), &vec![2]);
    lexer.next_token(token(TokenType::Other(20), "text", 5), position(5));
    lexer.next_token(token(TokenType::Newline, "\n  ", 5), position(6));
    assert_eq!(lexer.unbalanced_indents(), &vec![2]);
    lexer.next_token(token(TokenType::Other(20), "text", 6), position(6));
    lexer.next_token(token(TokenType::Newline, "\n", 6), position(7));
    assert!(lexer.unbalanced_indents().is_empty());
}

#[test]
fn a_shortcut_without_deeper_indentation_opens_no_block() {
    let mut lexer = IndentAwareYarnSpinnerLexer::new("a.yarn".to_string());
    lexer.next_token(token(TokenType::ShortcutArrow, "->", 1), position(1));
    lexer.next_token(token(TokenType::Other(20), "option", 1), position(1));
    lexer.next_token(token(TokenType::Newline, "\n", 1), position(2));
    assert!(lexer.unbalanced_indents().is_empty());
    let types = drain(&mut lexer, 2, 4);
    assert_eq!(types, vec![TokenType::Eof, TokenType::Eof, TokenType::Eof, TokenType::Eof]);
}

#[test]
fn blank_line_after_option_content_is_marked_once() {
    let mut lexer = IndentAwareYarnSpinnerLexer::new("a.yarn".to_string());
    let mut out = vec![];
    out.push(lexer.next_token(token(TokenType::ShortcutArrow, "->", 1), position(1)));
    out.push(lexer.next_token(token(TokenType::Other(20), "option", 1), position(1)));
    // The line break of the option's line puts line 2 on record.
    out.push(lexer.next_token(token(TokenType::Newline, "\n", 1), position(2)));
    // A blank line: the line break follows a line break, and the lexer now stands on line 3.
    out.push(lexer.next_token(token(TokenType::Newline, "\n", 2), position(3)));
    // A second blank line.
    out.push(lexer.next_token(token(TokenType::Newline, "\n", 3), position(4)));
    out.push(lexer.next_token(token(TokenType::Eof, "<EOF>", 4), position(4)));
    out.push(lexer.next_token(token(TokenType::Eof, "<EOF>", 4), position(4)));
    out.push(lexer.next_token(token(TokenType::Eof, "<EOF>", 4), position(4)));
    let types: Vec<TokenType> = out.iter().map(|t| t.token_type).collect();
    assert_eq!(
        types,
        vec![
            TokenType::ShortcutArrow,
            TokenType::Other(20),
            TokenType::Newline,
            TokenType::Newline,
            TokenType::BlankLineFollowingOption,
            TokenType::Newline,
            TokenType::Eof,
            TokenType::Eof,
        ]
    );
    let marker = &out[4];
    assert_eq!(marker.text, "");
    assert_eq!(marker.channel, TOKEN_DEFAULT_CHANNEL);
    assert_eq!(marker.line, 3);
    assert_eq!(marker.start, 12);
    assert_eq!(marker.stop, 11);
}

#[test]
fn blank_line_further_down_is_not_marked() {
    let mut lexer = IndentAwareYarnSpinnerLexer::new("a.yarn".to_string());
    let mut out = vec![];
    out.push(lexer.next_token(token(TokenType::ShortcutArrow, "->", 1), position(1)));
    out.push(lexer.next_token(token(TokenType::Newline, "\n", 1), position(2)));
    out.push(lexer.next_token(token(TokenType::Other(20), "text", 2), position(2)));
    out.push(lexer.next_token(token(TokenType::Newline, "\n", 2), position(3)));
    out.push(lexer.next_token(token(TokenType::Newline, "\n", 3), position(4)));
    out.push(lexer.next_token(token(TokenType::Newline, "\n", 4), position(5)));
    assert!(out.iter().all(|t| t.token_type != TokenType::BlankLineFollowingOption));
    let types = drain(&mut lexer, 5, 3);
    assert_eq!(types, vec![TokenType::Eof, TokenType::Eof, TokenType::Eof]);
}

#[test]
fn exhausted_source_is_answered_with_the_end_marker() {
    let mut lexer = IndentAwareYarnSpinnerLexer::new("empty.yarn".to_string());
    assert!(!lexer.hit_eof());
    let marker = lexer.next_pending_token(true).unwrap();
    assert!(lexer.hit_eof());
    assert_eq!(marker.token_type, TokenType::Eof);
    assert_eq!(marker.text, "<EOF>");
    assert_eq!(marker.channel, TOKEN_DEFAULT_CHANNEL);
    assert_eq!((marker.start, marker.stop, marker.line, marker.column), (0, 0, 0, -1));
    assert!(lexer.unbalanced_indents().is_empty());
    let again = lexer.next_pending_token(true).unwrap();
    assert_eq!(again, marker);
    assert!(lexer.next_pending_token(false).is_none());
}

#[test]
fn queued_tokens_are_handed_out_once_the_source_is_exhausted() {
    let mut lexer = IndentAwareYarnSpinnerLexer::new("a.yarn".to_string());
    lexer.next_token(token(TokenType::ShortcutArrow, "->", 1), position(1));
    let out = lexer.next_token(token(TokenType::Newline, "\n ", 1), position(2));
    assert_eq!(out.token_type, TokenType::Newline);
    assert!(lexer.next_pending_token(false).is_none());
    let marker = lexer.next_pending_token(true).unwrap();
    assert_eq!(marker.token_type, TokenType::Eof);
    let queued = lexer.next_pending_token(false).unwrap();
    assert_eq!(queued.token_type, TokenType::Indent);
    assert!(lexer.next_pending_token(false).is_none());
}

#[test]
fn many_mixed_tabs_and_spaces_give_one_warning() {
    let mut lexer = IndentAwareYarnSpinnerLexer::new("a.yarn".to_string());
    let out = lexer.next_token(token(TokenType::Newline, "\r\n \t \t\t  ", 3), position(4));
    assert_eq!(out.token_type, TokenType::Newline);
    assert_eq!(lexer.diagnostics().len(), 1);
    assert_eq!(lexer.diagnostics()[0].context, Some("\n \t \t\t  ".to_string()));
    assert_eq!(lexer.diagnostics()[0].start_line, 3);
    let length = lexer.get_length_of_newline_token(&token(TokenType::Newline, "\n \t \t\t  ", 4));
    assert_eq!(length, 28);
    assert_eq!(lexer.diagnostics().len(), 2);
    lexer.next_token(token(TokenType::Newline, "\n    ", 4), position(5));
    lexer.next_token(token(TokenType::Newline, "\n\t\t", 5), position(6));
    lexer.next_token(token(TokenType::Other(20), " \t", 6), position(6));
    assert_eq!(lexer.diagnostics().len(), 2);
}

#[test]
fn position_must_fit_the_indices_of_a_token() {
    assert!(LexerPosition::new(1, 0, 0, 0).is_some());
    assert!(LexerPosition::new(1, 0, isize::MAX, 0).is_some());
    assert!(LexerPosition::new(1, 0, isize::MAX, 1).is_none());
    assert!(LexerPosition::new(1, 0, -1, 0).is_none());
    assert!(LexerPosition::new(1, 0, 5, usize::MAX).is_none());
    let position = LexerPosition::new(7, 3, 40, 2).unwrap();
    assert_eq!(position.get_line(), 7);
    assert_eq!(position.get_char_position_in_line(), 3);
    assert_eq!(position.get_end_index(), 42);
}

#[test]
fn blank_line_that_closes_the_last_block_is_put_on_record() {
    let mut lexer = IndentAwareYarnSpinnerLexer::new("a.yarn".to_string());
    let mut out = vec![];
    out.push(lexer.next_token(token(TokenType::ShortcutArrow, "->", 1), position(1)));
    // The next line holds nothing but its indentation, which opens a block.
    out.push(lexer.next_token(token(TokenType::Newline, "\n    ", 1), position(2)));
    // Its line break ends a blank line and closes the block again.
    out.push(lexer.next_token(token(TokenType::Newline, "\n", 2), position(3)));
    assert!(lexer.unbalanced_indents().is_empty());
    // So the blank line that follows counts as one below the content of an option too.
    out.push(lexer.next_token(token(TokenType::Newline, "\n", 3), position(4)));
    out.extend((0..6).map(|_| {
        lexer.next_token(token(TokenType::Eof, "<EOF>", 4), position(4))
    }));
    let types: Vec<TokenType> = out.iter().map(|t| t.token_type).collect();
    assert_eq!(
        types,
        vec![
            TokenType::ShortcutArrow,
            TokenType::Newline,
            TokenType::Indent,
            TokenType::Newline,
            TokenType::BlankLineFollowingOption,
            TokenType::Dedent,
            TokenType::Newline,
            TokenType::BlankLineFollowingOption,
            TokenType::Eof,
            TokenType::Eof,
        ]
    );
}
