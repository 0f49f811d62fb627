use calc_lexer::{LexError, Lexer, Token};

fn lex_str(text: &str) -> Result<Vec<Token>, LexError> {
    let source: Vec<char> = text.chars().collect();
    let mut lexer = Lexer::create(source);
    lexer.run()
}

fn s(text: &str) -> String {
    text.to_string()
}

fn payload(token: &Token) -> &String {
    match token {
        Token::Newline(t)
        | Token::Number(t)
        | Token::Var(t)
        | Token::Let(t)
        | Token::Plus(t)
        | Token::Minus(t)
        | Token::Asterisk(t)
        | Token::EQ(t)
        | Token::InvalidToken(t) => t,
    }
}

#[test]
fn empty_input_gives_no_tokens() {
    assert_eq!(lex_str(""), Ok(vec![]));
}

#[test]
fn blank_input_gives_no_tokens() {
    assert_eq!(lex_str(" "), Ok(vec![]));
    assert_eq!(lex_str(" \t\r  "), Ok(vec![]));
    assert_eq!(lex_str("\t"), Ok(vec![]));
}

#[test]
fn number_plus_number() {
    assert_eq!(
        lex_str("12+3"),
        Ok(vec![Token::Number(s("12")), Token::Plus(s("+")), Token::Number(s("3"))])
    );
}

#[test]
fn spaces_around_eq_are_dropped() {
    assert_eq!(
        lex_str("1 = 2"),
        Ok(vec![Token::Number(s("1")), Token::EQ(s("=")), Token::Number(s("2"))])
    );
}

#[test]
fn let_keyword() {
    assert_eq!(lex_str("LET"), Ok(vec![Token::Let(s("LET"))]));
}

#[test]
fn unknown_word_is_fatal() {
    assert_eq!(lex_str("LETX"), Err(LexError::InvalidKeyword(s("LETX"))));
}

#[test]
fn unknown_word_after_tokens_gives_no_tokens() {
    assert_eq!(lex_str("1 + ab - 2"), Err(LexError::InvalidKeyword(s("ab"))));
    assert_eq!(lex_str("LET x = LE"), Err(LexError::InvalidKeyword(s("LE"))));
}

#[test]
fn lowercase_let_is_no_keyword() {
    assert_eq!(lex_str("let"), Err(LexError::InvalidKeyword(s("let"))));
}

#[test]
fn lone_letter_is_var() {
    assert_eq!(lex_str("a"), Ok(vec![Token::Var(s("a"))]));
}

#[test]
fn letters_split_by_operator_are_vars() {
    assert_eq!(
        lex_str("a+b"),
        Ok(vec![Token::Var(s("a")), Token::Plus(s("+")), Token::Var(s("b"))])
    );
}

#[test]
fn non_ascii_letter_is_var() {
    assert_eq!(lex_str("é"), Ok(vec![Token::Var(s("é"))]));
}

#[test]
fn full_expression_line() {
    assert_eq!(
        lex_str("100 + 1 = 0 + 2 * 1\n"),
        Ok(vec![
            Token::Number(s("100")),
            Token::Plus(s("+")),
            Token::Number(s("1")),
            Token::EQ(s("=")),
            Token::Number(s("0")),
            Token::Plus(s("+")),
            Token::Number(s("2")),
            Token::Asterisk(s("*")),
            Token::Number(s("1")),
            Token::Newline(s("\n")),
        ])
    );
}

#[test]
fn assignment_statements() {
    assert_eq!(
        lex_str("LET a = 7 - b\nLET c = a*2\n"),
        Ok(vec![
            Token::Let(s("LET")),
            Token::Var(s("a")),
            Token::EQ(s("=")),
            Token::Number(s("7")),
            Token::Minus(s("-")),
            Token::Var(s("b")),
            Token::Newline(s("\n")),
            Token::Let(s("LET")),
            Token::Var(s("c")),
            Token::EQ(s("=")),
            Token::Var(s("a")),
            Token::Asterisk(s("*")),
            Token::Number(s("2")),
            Token::Newline(s("\n")),
        ])
    );
}

#[test]
fn unknown_characters_are_invalid_tokens() {
    assert_eq!(
        lex_str("1 / 2;"),
        Ok(vec![
            Token::Number(s("1")),
            Token::InvalidToken(s("/")),
            Token::Number(s("2")),
            Token::InvalidToken(s(";")),
        ])
    );
}

#[test]
fn only_decimal_digits_make_numbers() {
    assert_eq!(
        lex_str("4\u{0663}"),
        Ok(vec![Token::Number(s("4")), Token::InvalidToken(s("\u{0663}"))])
    );
}

#[test]
fn leading_and_trailing_whitespace_are_dropped() {
    assert_eq!(
        lex_str("  \t7 \r\n 8\t "),
        Ok(vec![Token::Number(s("7")), Token::Newline(s("\n")), Token::Number(s("8"))])
    );
}

#[test]
fn newlines_are_tokens() {
    assert_eq!(
        lex_str("\n\n"),
        Ok(vec![Token::Newline(s("\n")), Token::Newline(s("\n"))])
    );
}

#[test]
fn texts_rebuild_input_without_blanks() {
    let input = "LET x = 12 *  3 -4\n y\t+ 5 ? 6";
    let tokens = lex_str(input).unwrap();
    let joined: String = tokens.iter().map(|t| payload(t).as_str()).collect();
    let stripped: String = input.chars().filter(|c| !matches!(c, ' ' | '\t' | '\r')).collect();
    assert_eq!(joined, stripped);
    assert!(tokens.iter().all(|t| !payload(t).is_empty()));
}

#[test]
fn digit_run_is_one_number() {
    assert_eq!(
        lex_str("123-4567*89"),
        Ok(vec![
            Token::Number(s("123")),
            Token::Minus(s("-")),
            Token::Number(s("4567")),
            Token::Asterisk(s("*")),
            Token::Number(s("89")),
        ])
    );
    assert_eq!(
        lex_str("12 34"),
        Ok(vec![Token::Number(s("12")), Token::Number(s("34"))])
    );
}

#[test]
fn second_run_gives_nothing_more() {
    let mut lexer = Lexer::create("1+2".chars().collect());
    assert_eq!(
        lexer.run(),
        Ok(vec![Token::Number(s("1")), Token::Plus(s("+")), Token::Number(s("2"))])
    );
    assert_eq!(lexer.run(), Ok(vec![]));
}

#[test]
fn run_after_error_gives_nothing_more() {
    let mut lexer = Lexer::create("AB 1".chars().collect());
    assert_eq!(lexer.run(), Err(LexError::InvalidKeyword(s("AB"))));
    assert_eq!(lexer.run(), Ok(vec![]));
}

#[test]
fn given_letters_decide_words() {
    let mut lexer = Lexer::create_with_letters("LET".chars().collect(), vec![true, true, true]);
    assert_eq!(lexer.run(), Ok(vec![Token::Let(s("LET"))]));
    let mut lexer = Lexer::create_with_letters("LET".chars().collect(), vec![true, false, true]);
    assert_eq!(
        lexer.run(),
        Ok(vec![Token::Var(s("L")), Token::InvalidToken(s("E")), Token::Var(s("T"))])
    );
    let mut lexer = Lexer::create_with_letters("ab".chars().collect(), vec![false, false]);
    assert_eq!(
        lexer.run(),
        Ok(vec![Token::InvalidToken(s("a")), Token::InvalidToken(s("b"))])
    );
    let mut lexer = Lexer::create_with_letters("LETX".chars().collect(), vec![true; 4]);
    assert_eq!(lexer.run(), Err(LexError::InvalidKeyword(s("LETX"))));
}
