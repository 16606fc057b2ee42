use offside_lexer::lexer::Lexer;
use offside_lexer::token::LexError;
use offside_lexer::token::LexErrorKind;
use offside_lexer::token::Token;
use offside_lexer::token_type::TokenType;
use offside_lexer::util::is_alnum;
use offside_lexer::util::is_alpha;
use offside_lexer::util::is_digit;

fn sym(k: TokenType) -> Result<Option<Token>, LexError> {
    Ok(Some(Token::Symbol(k)))
}

#[test]
fn startup_begin_consumes_nothing() {
    let mut lx = Lexer::new("x = 1");
    assert_eq!(lx.lex(vec![TokenType::BEGIN]), sym(TokenType::BEGIN));
    // the identifier is still there: no character was consumed
    assert_eq!(
        lx.lex(vec![TokenType::NAME]),
        Ok(Some(Token::Name(String::from("x"))))
    );
}

#[test]
fn startup_begin_fires_once() {
    let mut lx = Lexer::new("");
    assert_eq!(lx.lex(vec![TokenType::BEGIN]), sym(TokenType::BEGIN));
    // the stack now holds the base entry alone, so only the final END applies
    assert_eq!(lx.lex(vec![TokenType::BEGIN]), Ok(None));
}

#[test]
fn name_maximal_run() {
    let mut lx = Lexer::new("foo_bar123'' = 1");
    assert_eq!(
        lx.lex(vec![TokenType::NAME]),
        Ok(Some(Token::Name(String::from("foo_bar123''"))))
    );
    assert_eq!(lx.lex(vec![TokenType::EQ]), sym(TokenType::EQ));
}

#[test]
fn name_leading_underscore() {
    let mut lx = Lexer::new("_tmp");
    assert_eq!(
        lx.lex(vec![TokenType::NAME]),
        Ok(Some(Token::Name(String::from("_tmp"))))
    );
}

#[test]
fn keywords_lex_as_symbols() {
    let mut lx = Lexer::new("let type print");
    assert_eq!(lx.lex(vec![TokenType::LET]), sym(TokenType::LET));
    assert_eq!(lx.lex(vec![TokenType::TYPE]), sym(TokenType::TYPE));
    assert_eq!(lx.lex(vec![TokenType::PRINT]), sym(TokenType::PRINT));
}

#[test]
fn keyword_prefix_is_a_name() {
    let mut lx = Lexer::new("lets");
    assert_eq!(
        lx.lex(vec![TokenType::NAME]),
        Ok(Some(Token::Name(String::from("lets"))))
    );
}

#[test]
fn apostrophes_are_trailing_only() {
    // the apostrophe run ends the identifier: what follows it is a new token
    let mut lx = Lexer::new("x'a");
    assert_eq!(
        lx.lex(vec![TokenType::NAME]),
        Ok(Some(Token::Name(String::from("x'"))))
    );
    assert_eq!(
        lx.lex(vec![TokenType::NAME]),
        Ok(Some(Token::Name(String::from("a"))))
    );
}

#[test]
fn number_stops_at_first_non_digit() {
    let mut lx = Lexer::new("12ab");
    assert_eq!(lx.lex(vec![TokenType::NUMBER]), Ok(Some(Token::Number(12))));
    assert_eq!(
        lx.lex(vec![TokenType::NAME]),
        Ok(Some(Token::Name(String::from("ab"))))
    );
}

#[test]
fn number_simple() {
    let mut lx = Lexer::new("1234");
    assert_eq!(lx.lex(vec![TokenType::NUMBER]), Ok(Some(Token::Number(1234))));
}

#[test]
fn number_zero() {
    let mut lx = Lexer::new("0");
    assert_eq!(lx.lex(vec![TokenType::NUMBER]), Ok(Some(Token::Number(0))));
}

#[test]
fn number_max() {
    let mut lx = Lexer::new("2147483647");
    assert_eq!(
        lx.lex(vec![TokenType::NUMBER]),
        Ok(Some(Token::Number(2147483647)))
    );
}

#[test]
fn number_leading_zeros() {
    let mut lx = Lexer::new("000000000002147483647");
    assert_eq!(
        lx.lex(vec![TokenType::NUMBER]),
        Ok(Some(Token::Number(2147483647)))
    );
}

#[test]
fn number_overflow_faults() {
    let mut lx = Lexer::new("2147483648");
    assert_eq!(
        lx.lex(vec![TokenType::NUMBER]),
        Err(LexError { kind: LexErrorKind::NumericLiteralOverflow, at: 0 })
    );
}

#[test]
fn number_overflow_position_after_whitespace() {
    let mut lx = Lexer::new("  99999999999999999");
    assert_eq!(
        lx.lex(vec![TokenType::NUMBER]),
        Err(LexError { kind: LexErrorKind::NumericLiteralOverflow, at: 2 })
    );
}

#[test]
fn string_round_trip() {
    // "abc" takes exactly 5 characters: the cursor lands on the space,
    // and the following name is still intact
    let mut lx = Lexer::new("\"abc\" x");
    assert_eq!(
        lx.lex(vec![TokenType::STRING]),
        Ok(Some(Token::String(String::from("abc"))))
    );
    assert_eq!(
        lx.lex(vec![TokenType::NAME]),
        Ok(Some(Token::Name(String::from("x"))))
    );
}

#[test]
fn string_empty() {
    let mut lx = Lexer::new("\"\"");
    assert_eq!(lx.lex(vec![TokenType::STRING]), Ok(Some(Token::String(String::new()))));
}

#[test]
fn string_no_escape_processing() {
    let mut lx = Lexer::new("\"a\\nb\"");
    assert_eq!(
        lx.lex(vec![TokenType::STRING]),
        Ok(Some(Token::String(String::from("a\\nb"))))
    );
}

#[test]
fn string_unterminated_faults() {
    let mut lx = Lexer::new("  \"abc");
    assert_eq!(
        lx.lex(vec![TokenType::STRING]),
        Err(LexError { kind: LexErrorKind::UnterminatedStringLiteral, at: 2 })
    );
}

#[test]
fn char_plain() {
    let mut lx = Lexer::new("'a'");
    assert_eq!(lx.lex(vec![TokenType::CHAR]), Ok(Some(Token::Char('a'))));
}

#[test]
fn char_quote_as_content() {
    let mut lx = Lexer::new("'''");
    assert_eq!(lx.lex(vec![TokenType::CHAR]), Ok(Some(Token::Char('\''))));
}

#[test]
fn char_escapes() {
    let cases = vec![
        ("'\\n'", '\n'),
        ("'\\t'", '\t'),
        ("'\\r'", '\r'),
        ("'\\0'", '\0'),
        ("'\\\\'", '\\'),
        ("'\\''", '\''),
        ("'\\\"'", '"'),
    ];
    for (src, want) in cases {
        let mut lx = Lexer::new(src);
        assert_eq!(lx.lex(vec![TokenType::CHAR]), Ok(Some(Token::Char(want))));
    }
}

#[test]
fn char_two_content_characters_fault() {
    let mut lx = Lexer::new("'ab'");
    assert_eq!(
        lx.lex(vec![TokenType::CHAR]),
        Err(LexError { kind: LexErrorKind::MalformedCharacterLiteral, at: 2 })
    );
}

#[test]
fn char_unterminated_after_open() {
    let mut lx = Lexer::new("'");
    assert_eq!(
        lx.lex(vec![TokenType::CHAR]),
        Err(LexError { kind: LexErrorKind::UnterminatedCharacterLiteral, at: 0 })
    );
}

#[test]
fn char_unterminated_inside_escape() {
    let mut lx = Lexer::new("'\\");
    assert_eq!(
        lx.lex(vec![TokenType::CHAR]),
        Err(LexError { kind: LexErrorKind::UnterminatedCharacterLiteral, at: 0 })
    );
}

#[test]
fn char_unterminated_before_close() {
    let mut lx = Lexer::new("'a");
    assert_eq!(
        lx.lex(vec![TokenType::CHAR]),
        Err(LexError { kind: LexErrorKind::UnterminatedCharacterLiteral, at: 0 })
    );
}

#[test]
fn char_invalid_escape_faults() {
    let mut lx = Lexer::new("'\\q'");
    assert_eq!(
        lx.lex(vec![TokenType::CHAR]),
        Err(LexError { kind: LexErrorKind::InvalidEscapeCharacter, at: 2 })
    );
}

#[test]
fn eq_operator() {
    let mut lx = Lexer::new("=");
    assert_eq!(lx.lex(vec![TokenType::EQ]), sym(TokenType::EQ));
}

#[test]
fn unrecognized_character_gives_no_token() {
    let mut lx = Lexer::new("+");
    assert_eq!(lx.lex(vec![TokenType::NAME, TokenType::NUMBER]), Ok(None));
}

#[test]
fn indent_opens_block() {
    let mut lx = Lexer::new("a\n  b");
    assert_eq!(lx.lex(vec![TokenType::BEGIN]), sym(TokenType::BEGIN));
    assert_eq!(
        lx.lex(vec![TokenType::NAME]),
        Ok(Some(Token::Name(String::from("a"))))
    );
    assert_eq!(
        lx.lex(vec![TokenType::BEGIN, TokenType::END]),
        sym(TokenType::BEGIN)
    );
    assert_eq!(
        lx.lex(vec![TokenType::NAME]),
        Ok(Some(Token::Name(String::from("b"))))
    );
}

#[test]
fn tab_counts_eight() {
    let mut lx = Lexer::new("a\n\tb\n        c\n         d");
    assert_eq!(lx.lex(vec![TokenType::BEGIN]), sym(TokenType::BEGIN));
    assert_eq!(
        lx.lex(vec![TokenType::NAME]),
        Ok(Some(Token::Name(String::from("a"))))
    );
    // one tab: width 8, above the base level
    assert_eq!(lx.lex(vec![TokenType::BEGIN]), sym(TokenType::BEGIN));
    assert_eq!(
        lx.lex(vec![TokenType::NAME]),
        Ok(Some(Token::Name(String::from("b"))))
    );
    // eight spaces weigh the same as the tab: neither indent nor dedent
    // fires, and the same call falls through to the name scan
    assert_eq!(
        lx.lex(vec![TokenType::BEGIN, TokenType::END, TokenType::NAME]),
        Ok(Some(Token::Name(String::from("c"))))
    );
    // nine spaces: one more than the tab
    assert_eq!(lx.lex(vec![TokenType::BEGIN]), sym(TokenType::BEGIN));
    assert_eq!(
        lx.lex(vec![TokenType::NAME]),
        Ok(Some(Token::Name(String::from("d"))))
    );
}

#[test]
fn newline_takes_priority_over_begin_and_end() {
    let mut lx = Lexer::new("a\n  b");
    assert_eq!(lx.lex(vec![TokenType::BEGIN]), sym(TokenType::BEGIN));
    assert_eq!(
        lx.lex(vec![TokenType::NAME]),
        Ok(Some(Token::Name(String::from("a"))))
    );
    // all three structural kinds requested, width changed: NEWLINE wins
    assert_eq!(
        lx.lex(vec![TokenType::BEGIN, TokenType::END, TokenType::NEWLINE]),
        sym(TokenType::NEWLINE)
    );
}

#[test]
fn dedent_pops_one_level_per_call() {
    let mut lx = Lexer::new("a\n  b\n    c\n  d\ne");
    assert_eq!(lx.lex(vec![TokenType::BEGIN]), sym(TokenType::BEGIN));
    assert_eq!(
        lx.lex(vec![TokenType::NAME]),
        Ok(Some(Token::Name(String::from("a"))))
    );
    assert_eq!(lx.lex(vec![TokenType::BEGIN]), sym(TokenType::BEGIN));
    assert_eq!(
        lx.lex(vec![TokenType::NAME]),
        Ok(Some(Token::Name(String::from("b"))))
    );
    assert_eq!(lx.lex(vec![TokenType::BEGIN]), sym(TokenType::BEGIN));
    assert_eq!(
        lx.lex(vec![TokenType::NAME]),
        Ok(Some(Token::Name(String::from("c"))))
    );
    // back to width 2: one level popped
    assert_eq!(lx.lex(vec![TokenType::END]), sym(TokenType::END));
    assert_eq!(
        lx.lex(vec![TokenType::NAME]),
        Ok(Some(Token::Name(String::from("d"))))
    );
    // back to width 0: another single pop at the next dedent point
    assert_eq!(lx.lex(vec![TokenType::END]), sym(TokenType::END));
    assert_eq!(
        lx.lex(vec![TokenType::NAME]),
        Ok(Some(Token::Name(String::from("e"))))
    );
    // only the base level is left: the final END drains at end of input
    assert_eq!(lx.lex(vec![TokenType::END]), sym(TokenType::END));
}

#[test]
fn deep_dedent_still_pops_only_one() {
    let mut lx = Lexer::new("a\n  b\n    c\nd");
    assert_eq!(lx.lex(vec![TokenType::BEGIN]), sym(TokenType::BEGIN));
    assert_eq!(
        lx.lex(vec![TokenType::NAME]),
        Ok(Some(Token::Name(String::from("a"))))
    );
    assert_eq!(lx.lex(vec![TokenType::BEGIN]), sym(TokenType::BEGIN));
    assert_eq!(
        lx.lex(vec![TokenType::NAME]),
        Ok(Some(Token::Name(String::from("b"))))
    );
    assert_eq!(lx.lex(vec![TokenType::BEGIN]), sym(TokenType::BEGIN));
    assert_eq!(
        lx.lex(vec![TokenType::NAME]),
        Ok(Some(Token::Name(String::from("c"))))
    );
    // the width fell below two levels, but a single call pops exactly one
    assert_eq!(lx.lex(vec![TokenType::END]), sym(TokenType::END));
    assert_eq!(
        lx.lex(vec![TokenType::NAME]),
        Ok(Some(Token::Name(String::from("d"))))
    );
    // two entries remain on the stack, so the end-of-input END does not fire
    assert_eq!(lx.lex(vec![TokenType::END]), Ok(None));
}

#[test]
fn width_resets_at_each_newline() {
    // the whitespace run "\n  \n " compares the final line's indent, 1:
    // the two spaces on the blank line are discarded
    let mut lx = Lexer::new("a\n  \n b\n  c");
    assert_eq!(lx.lex(vec![TokenType::BEGIN]), sym(TokenType::BEGIN));
    assert_eq!(
        lx.lex(vec![TokenType::NAME]),
        Ok(Some(Token::Name(String::from("a"))))
    );
    assert_eq!(lx.lex(vec![TokenType::BEGIN]), sym(TokenType::BEGIN));
    assert_eq!(
        lx.lex(vec![TokenType::NAME]),
        Ok(Some(Token::Name(String::from("b"))))
    );
    // width 2 is above the pushed width 1: an indent, not a dedent
    assert_eq!(
        lx.lex(vec![TokenType::BEGIN, TokenType::END]),
        sym(TokenType::BEGIN)
    );
    assert_eq!(
        lx.lex(vec![TokenType::NAME]),
        Ok(Some(Token::Name(String::from("c"))))
    );
}

#[test]
fn blank_lines_do_not_defeat_dedent() {
    // the final line's indent 1 lies below the open block's width 2, even
    // though the blank line's space would once have been added to it
    let mut lx = Lexer::new("a\n  b\n \n x");
    assert_eq!(lx.lex(vec![TokenType::BEGIN]), sym(TokenType::BEGIN));
    assert_eq!(
        lx.lex(vec![TokenType::NAME]),
        Ok(Some(Token::Name(String::from("a"))))
    );
    assert_eq!(lx.lex(vec![TokenType::BEGIN]), sym(TokenType::BEGIN));
    assert_eq!(
        lx.lex(vec![TokenType::NAME]),
        Ok(Some(Token::Name(String::from("b"))))
    );
    assert_eq!(lx.lex(vec![TokenType::END]), sym(TokenType::END));
    assert_eq!(
        lx.lex(vec![TokenType::NAME]),
        Ok(Some(Token::Name(String::from("x"))))
    );
}

#[test]
fn end_at_end_of_input_consumes_nothing() {
    let mut lx = Lexer::new("");
    assert_eq!(lx.lex(vec![TokenType::BEGIN]), sym(TokenType::BEGIN));
    assert_eq!(lx.lex(vec![TokenType::END]), sym(TokenType::END));
    // the final END is produced exactly once: calling again yields nothing
    assert_eq!(lx.lex(vec![TokenType::END]), Ok(None));
    assert_eq!(lx.lex(vec![TokenType::NEWLINE]), Ok(None));
}

#[test]
fn assignment_scenario() {
    let mut lx = Lexer::new("  x = 1\n");
    // indents empty: startup BEGIN, consuming nothing
    assert_eq!(lx.lex(vec![TokenType::BEGIN]), sym(TokenType::BEGIN));
    // two leading spaces without a newline: no width comparison, the
    // dispatch falls through to the name scan
    assert_eq!(
        lx.lex(vec![
            TokenType::NAME,
            TokenType::NUMBER,
            TokenType::EQ,
            TokenType::NEWLINE
        ]),
        Ok(Some(Token::Name(String::from("x"))))
    );
    assert_eq!(lx.lex(vec![TokenType::EQ]), sym(TokenType::EQ));
    assert_eq!(lx.lex(vec![TokenType::NUMBER]), Ok(Some(Token::Number(1))));
    assert_eq!(lx.lex(vec![TokenType::NEWLINE]), sym(TokenType::NEWLINE));
}

#[test]
fn token_type_of_each_variant() {
    assert_eq!(Token::Name(String::from("x")).token_type(), TokenType::NAME);
    assert_eq!(Token::Number(7).token_type(), TokenType::NUMBER);
    assert_eq!(Token::String(String::from("s")).token_type(), TokenType::STRING);
    assert_eq!(Token::Char('c').token_type(), TokenType::CHAR);
    assert_eq!(Token::Symbol(TokenType::LET).token_type(), TokenType::LET);
}

#[test]
fn character_classes() {
    assert!(is_alpha('a'));
    assert!(is_alpha('Z'));
    assert!(is_alpha('_'));
    assert!(!is_alpha('0'));
    assert!(!is_alpha(' '));
    assert!(is_digit('0'));
    assert!(is_digit('9'));
    assert!(!is_digit('a'));
    assert!(is_alnum('a'));
    assert!(is_alnum('5'));
    assert!(is_alnum('_'));
    assert!(!is_alnum('\''));
    assert!(!is_alnum('='));
}
