use bytelox::scanner::{Scanner, TokenType, TokenValue};

fn bits(x: f64) -> u64 {
    x.to_bits()
}

#[test]
fn add_numbers() {
    let mut s = Scanner::new("10.23    + 20.6".to_string());
    let toks = s.scan_tokens();
    assert_eq!(toks.len(), 4);
    assert_eq!(toks[0].kind, TokenType::Number);
    assert_eq!(toks[0].value, Some(TokenValue::Number(bits(10.23))));
    assert_eq!(toks[0].start, 0);
    assert_eq!(toks[0].length, 5);
    assert_eq!(toks[0].line, 1);
    assert_eq!(toks[1].kind, TokenType::Plus);
    assert_eq!(toks[1].start, 9);
    assert_eq!(toks[1].length, 1);
    assert_eq!(toks[2].kind, TokenType::Number);
    assert_eq!(toks[2].value, Some(TokenValue::Number(bits(20.6))));
    assert_eq!(toks[2].start, 11);
    assert_eq!(toks[2].length, 4);
    assert_eq!(toks[3].kind, TokenType::Eof);
}

#[test]
fn var_decl_tokens() {
    let mut s = Scanner::new("var x = 10;".to_string());
    let toks = s.scan_tokens();
    let kinds: Vec<TokenType> = toks.iter().map(|t| t.kind).collect();
    assert_eq!(
        kinds,
        vec![
            TokenType::Var,
            TokenType::Identifier,
            TokenType::Equal,
            TokenType::Number,
            TokenType::Semicolon,
            TokenType::Eof,
        ]
    );
    assert_eq!(toks[1].value, Some(TokenValue::Identifier("x".to_string())));
    assert_eq!(toks[3].value, Some(TokenValue::Number(bits(10.0))));
    assert_eq!(toks[0].start, 0);
    assert_eq!(toks[0].length, 3);
    assert_eq!(toks[1].start, 4);
    assert_eq!(toks[2].start, 6);
    assert_eq!(toks[3].start, 8);
    assert_eq!(toks[3].length, 2);
    assert_eq!(toks[4].start, 10);
}

#[test]
fn string_token() {
    let mut s = Scanner::new("\"hello\"".to_string());
    let toks = s.scan_tokens();
    assert_eq!(toks.len(), 2);
    assert_eq!(toks[0].kind, TokenType::String);
    assert_eq!(toks[0].value, Some(TokenValue::String("hello".to_string())));
    assert_eq!(toks[0].start, 0);
    assert_eq!(toks[0].length, 7);
    assert_eq!(toks[1].kind, TokenType::Eof);
}

#[test]
fn relational_tokens() {
    let mut s = Scanner::new("10 <= 20".to_string());
    let toks = s.scan_tokens();
    let kinds: Vec<TokenType> = toks.iter().map(|t| t.kind).collect();
    assert_eq!(
        kinds,
        vec![TokenType::Number, TokenType::LessEqual, TokenType::Number, TokenType::Eof]
    );
    assert_eq!(toks[1].start, 3);
    assert_eq!(toks[1].length, 2);
}

#[test]
fn two_char_operators() {
    let mut s = Scanner::new("! != = == < <= > >=".to_string());
    let toks = s.scan_tokens();
    let kinds: Vec<TokenType> = toks.iter().map(|t| t.kind).collect();
    assert_eq!(
        kinds,
        vec![
            TokenType::Bang,
            TokenType::BangEqual,
            TokenType::Equal,
            TokenType::EqualEqual,
            TokenType::Less,
            TokenType::LessEqual,
            TokenType::Greater,
            TokenType::GreaterEqual,
            TokenType::Eof,
        ]
    );
}

#[test]
fn keywords() {
    let mut s = Scanner::new("for while print return or nil".to_string());
    let toks = s.scan_tokens();
    let kinds: Vec<TokenType> = toks.iter().map(|t| t.kind).collect();
    assert_eq!(
        kinds,
        vec![
            TokenType::For,
            TokenType::While,
            TokenType::Print,
            TokenType::Return,
            TokenType::Or,
            TokenType::Nil,
            TokenType::Eof,
        ]
    );
}

#[test]
fn keyword_prefix_is_identifier() {
    let mut s = Scanner::new("variable".to_string());
    let toks = s.scan_tokens();
    assert_eq!(toks[0].kind, TokenType::Identifier);
    assert_eq!(toks[0].value, Some(TokenValue::Identifier("variable".to_string())));
    assert_eq!(toks[0].length, 8);
}

#[test]
fn multiline() {
    let mut s = Scanner::new("10\n20\n30".to_string());
    let toks = s.scan_tokens();
    assert_eq!(toks.len(), 4);
    assert_eq!(toks[0].line, 1);
    assert_eq!(toks[1].line, 2);
    assert_eq!(toks[2].line, 3);
    assert_eq!(toks[0].start, 0);
    assert_eq!(toks[1].start, 3);
    assert_eq!(toks[2].start, 6);
}

#[test]
fn comments_are_skipped() {
    let mut s = Scanner::new("1 // rest of the line\n2".to_string());
    let toks = s.scan_tokens();
    assert_eq!(toks.len(), 3);
    assert_eq!(toks[0].value, Some(TokenValue::Number(bits(1.0))));
    assert_eq!(toks[1].value, Some(TokenValue::Number(bits(2.0))));
    assert_eq!(toks[1].line, 2);
}

#[test]
fn unknown_token() {
    let mut s = Scanner::new("@".to_string());
    let toks = s.scan_tokens();
    assert_eq!(toks[0].kind, TokenType::Error);
    assert_eq!(toks[0].value, Some(TokenValue::Error("Unknown Token @".to_string())));
    assert_eq!(toks[1].kind, TokenType::Eof);
}

#[test]
fn unterminated_string() {
    let mut s = Scanner::new("\"abc".to_string());
    let toks = s.scan_tokens();
    assert_eq!(toks[0].kind, TokenType::Error);
    assert_eq!(toks[0].value, Some(TokenValue::Error("Unterminated string".to_string())));
    assert_eq!(toks[1].kind, TokenType::Eof);
}

#[test]
fn string_with_newline_counts_lines() {
    let mut s = Scanner::new("\"a\nb\" 1".to_string());
    let toks = s.scan_tokens();
    assert_eq!(toks[0].kind, TokenType::String);
    assert_eq!(toks[0].value, Some(TokenValue::String("a\nb".to_string())));
    assert_eq!(toks[0].line, 2);
    assert_eq!(toks[1].line, 2);
}

#[test]
fn number_without_fraction_then_dot() {
    let mut s = Scanner::new("10.".to_string());
    let toks = s.scan_tokens();
    assert_eq!(toks[0].kind, TokenType::Number);
    assert_eq!(toks[0].value, Some(TokenValue::Number(bits(10.0))));
    assert_eq!(toks[0].length, 2);
    assert_eq!(toks[1].kind, TokenType::Dot);
}

#[test]
fn scan_token_single() {
    let mut s = Scanner::new("  nil".to_string());
    let t = s.scan_token();
    assert_eq!(t.kind, TokenType::Nil);
    assert_eq!(t.start, 2);
    assert_eq!(t.length, 3);
    let e = s.scan_token();
    assert_eq!(e.kind, TokenType::Eof);
}
