use roxty::scanner::{ScanError, Scanner, Token, TokenType};

fn scan_all(src: &str) -> Vec<Token> {
    let mut scanner = Scanner::init_scanner(src.as_bytes().to_vec());
    let mut tokens = Vec::new();
    loop {
        let t = scanner.scan_token();
        let done = t.typo == TokenType::TOKEN_EOF;
        tokens.push(t);
        if done {
            break;
        }
    }
    tokens
}

fn kinds(src: &str) -> Vec<TokenType> {
    scan_all(src).iter().map(|t| t.typo).collect()
}

#[test]
fn scans_single_character_punctuation() {
    assert_eq!(
        kinds("(){};,.-+/*"),
        vec![
            TokenType::TOKEN_LEFT_PAREN,
            TokenType::TOKEN_RIGHT_PAREN,
            TokenType::TOKEN_LEFT_BRACE,
            TokenType::TOKEN_RIGHT_BRACE,
            TokenType::TOKEN_SEMICOLON,
            TokenType::TOKEN_COMMA,
            TokenType::TOKEN_DOT,
            TokenType::TOKEN_MINUS,
            TokenType::TOKEN_PLUS,
            TokenType::TOKEN_SLASH,
            TokenType::TOKEN_STAR,
            TokenType::TOKEN_EOF,
        ]
    );
}

#[test]
fn two_character_operators_are_greedy() {
    assert_eq!(
        kinds("! != = == < <= > >="),
        vec![
            TokenType::TOKEN_BANG,
            TokenType::TOKEN_BANG_EQUAL,
            TokenType::TOKEN_EQUAL,
            TokenType::TOKEN_EQUAL_EQUAL,
            TokenType::TOKEN_LESS,
            TokenType::TOKEN_LESS_EQUAL,
            TokenType::TOKEN_GREATER,
            TokenType::TOKEN_GREATER_EQUAL,
            TokenType::TOKEN_EOF,
        ]
    );
}

#[test]
fn keywords_are_classified_exactly() {
    assert_eq!(
        kinds("and class else false for fun if nil or print return super this true var while"),
        vec![
            TokenType::TOKEN_AND,
            TokenType::TOKEN_CLASS,
            TokenType::TOKEN_ELSE,
            TokenType::TOKEN_FALSE,
            TokenType::TOKEN_FOR,
            TokenType::TOKEN_FUN,
            TokenType::TOKEN_IF,
            TokenType::TOKEN_NIL,
            TokenType::TOKEN_OR,
            TokenType::TOKEN_PRINT,
            TokenType::TOKEN_RETURN,
            TokenType::TOKEN_SUPER,
            TokenType::TOKEN_THIS,
            TokenType::TOKEN_TRUE,
            TokenType::TOKEN_VAR,
            TokenType::TOKEN_WHILE,
            TokenType::TOKEN_EOF,
        ]
    );
}

#[test]
fn near_keywords_are_identifiers() {
    assert_eq!(
        kinds("andy classes fore _x x1 tru"),
        vec![
            TokenType::TOKEN_IDENTIFIER,
            TokenType::TOKEN_IDENTIFIER,
            TokenType::TOKEN_IDENTIFIER,
            TokenType::TOKEN_IDENTIFIER,
            TokenType::TOKEN_IDENTIFIER,
            TokenType::TOKEN_IDENTIFIER,
            TokenType::TOKEN_EOF,
        ]
    );
}

#[test]
fn numbers_take_a_fraction_only_before_a_digit() {
    let ts = scan_all("123 1.5 1.");
    assert_eq!(ts[0].typo, TokenType::TOKEN_NUMBER);
    assert_eq!((ts[0].start, ts[0].length), (0, 3));
    assert_eq!(ts[1].typo, TokenType::TOKEN_NUMBER);
    assert_eq!((ts[1].start, ts[1].length), (4, 3));
    assert_eq!(ts[2].typo, TokenType::TOKEN_NUMBER);
    assert_eq!((ts[2].start, ts[2].length), (8, 1));
    assert_eq!(ts[3].typo, TokenType::TOKEN_DOT);
}

#[test]
fn strings_track_embedded_newlines() {
    let ts = scan_all("\"ab\ncd\"");
    assert_eq!(ts[0].typo, TokenType::TOKEN_STRING);
    assert_eq!(ts[0].start, 0);
    assert_eq!(ts[0].length, 7);
    assert_eq!(ts[0].line, 2);
}

#[test]
fn unterminated_string_yields_error_token() {
    let ts = scan_all("\"abc");
    assert_eq!(ts[0].typo, TokenType::TOKEN_ERROR);
    assert_eq!(ts[0].error, Some(ScanError::UnterminatedString));
}

#[test]
fn unexpected_character_yields_error_token() {
    let ts = scan_all("@");
    assert_eq!(ts[0].typo, TokenType::TOKEN_ERROR);
    assert_eq!(ts[0].error, Some(ScanError::UnexpectedCharacter));
}

#[test]
fn comments_run_to_the_end_of_the_line() {
    let ts = scan_all("// hello\n+");
    assert_eq!(ts[0].typo, TokenType::TOKEN_PLUS);
    assert_eq!(ts[0].line, 2);
}

#[test]
fn empty_source_scans_to_end_of_input() {
    let ts = scan_all("");
    assert_eq!(ts.len(), 1);
    assert_eq!(ts[0].typo, TokenType::TOKEN_EOF);
}

#[test]
fn blank_space_counts_lines() {
    let ts = scan_all(" \n\t\r\n1");
    assert_eq!(ts[0].typo, TokenType::TOKEN_NUMBER);
    assert_eq!(ts[0].line, 3);
}

#[test]
fn cursor_primitives_walk_the_source() {
    let mut s = Scanner::init_scanner(b"ab".to_vec());
    assert!(!s.is_at_end());
    assert_eq!(s.peek(), b'a');
    assert_eq!(s.peek_next(), b'b');
    assert_eq!(s.advance(), b'a');
    assert!(s.matchi(b'b'));
    assert!(!s.matchi(b'c'));
    assert!(s.is_at_end());
    assert_eq!(s.peek(), 0);
    assert_eq!(s.peek_next(), 0);
}

#[test]
fn skip_whitespace_stops_at_content() {
    let mut s = Scanner::init_scanner(b"  // note\n  +".to_vec());
    s.skip_whitespace();
    assert_eq!(s.peek(), b'+');
    assert_eq!(s.line, 2);
}

#[test]
fn check_keyword_compares_the_lexeme_tail() {
    let s = Scanner { source: b"and".to_vec(), start: 0, current: 3, line: 1 };
    assert_eq!(s.check_keyword(1, 2, b"nd", TokenType::TOKEN_AND), TokenType::TOKEN_AND);
    assert_eq!(s.check_keyword(1, 2, b"nn", TokenType::TOKEN_AND), TokenType::TOKEN_IDENTIFIER);
    assert_eq!(s.identifier_type(), TokenType::TOKEN_AND);
    let t = Scanner { source: b"anvil".to_vec(), start: 0, current: 5, line: 1 };
    assert_eq!(t.identifier_type(), TokenType::TOKEN_IDENTIFIER);
}
