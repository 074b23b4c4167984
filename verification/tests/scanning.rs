use lox_vm::scanner::{is_alpha, is_digit};
use lox_vm::source::Source;
use lox_vm::token::{ParseFn, Precedence, Token, TokenType};
use lox_vm::Scanner;

fn kinds(source: &str) -> Vec<TokenType> {
    let mut scanner = Scanner::new(source);
    let mut kinds = Vec::new();
    while let Some(token) = scanner.scan_token().unwrap() {
        kinds.push(token.token_type);
    }
    kinds
}

fn tokens(source: &str) -> Vec<Token> {
    let mut scanner = Scanner::new(source);
    let mut tokens = Vec::new();
    while let Some(token) = scanner.scan_token().unwrap() {
        tokens.push(token);
    }
    tokens
}

#[test]
fn scans_punctuation() {
    assert_eq!(
        kinds("(){},;.-+/*"),
        vec![
            TokenType::LeftParen,
            TokenType::RightParen,
            TokenType::LeftBrace,
            TokenType::RightBrace,
            TokenType::Comma,
            TokenType::Semicolon,
            TokenType::Dot,
            TokenType::Minus,
            TokenType::Plus,
            TokenType::Slash,
            TokenType::Star,
        ]
    );
}

#[test]
fn scans_one_or_two_character_operators() {
    assert_eq!(
        kinds("! != = == < <= > >="),
        vec![
            TokenType::Bang,
            TokenType::BangEqual,
            TokenType::Equal,
            TokenType::EqualEqual,
            TokenType::Less,
            TokenType::LessEqual,
            TokenType::Greater,
            TokenType::GreaterEqual,
        ]
    );
    assert_eq!(kinds("!=="), vec![TokenType::BangEqual, TokenType::Equal]);
    assert_eq!(kinds("==="), vec![TokenType::EqualEqual, TokenType::Equal]);
}

#[test]
fn scans_every_keyword() {
    assert_eq!(
        kinds("and class else false for fun if nil or print return super this true var while"),
        vec![
            TokenType::And,
            TokenType::Class,
            TokenType::Else,
            TokenType::False,
            TokenType::For,
            TokenType::Fun,
            TokenType::If,
            TokenType::Nil,
            TokenType::Or,
            TokenType::Print,
            TokenType::Return,
            TokenType::Super,
            TokenType::This,
            TokenType::True,
            TokenType::Var,
            TokenType::While,
        ]
    );
}

#[test]
fn words_near_keywords_are_identifiers() {
    for word in [
        "a", "an", "andy", "f", "fa", "fo", "fu", "fals", "falsee", "forr", "funn", "t", "th",
        "tr", "thi", "thiss", "tru", "truee", "i", "iff", "o", "orr", "n", "ni", "nill", "x1",
        "And", "AND", "prin", "printt", "retur", "supe", "va", "whil", "clas", "els", "fx", "tx",
    ] {
        assert_eq!(kinds(word), vec![TokenType::Identifier], "{}", word);
    }
}

#[test]
fn underscore_begins_no_token() {
    let mut scanner = Scanner::new("_a");
    assert_eq!(scanner.scan_token().unwrap_err(), "Unexpected character.");
}

#[test]
fn stray_character_is_an_error() {
    let mut scanner = Scanner::new("  @");
    assert_eq!(scanner.scan_token().unwrap_err(), "Unexpected character.");
    let mut scanner = Scanner::new("a é");
    assert_eq!(scanner.scan_token().unwrap().unwrap().source, "a");
    assert_eq!(scanner.scan_token().unwrap_err(), "Unexpected character.");
}

#[test]
fn unterminated_string_is_an_error() {
    let mut scanner = Scanner::new("\"abc");
    assert_eq!(scanner.scan_token().unwrap_err(), "Unterminated string.");
    let mut scanner = Scanner::new("\"");
    assert_eq!(scanner.scan_token().unwrap_err(), "Unterminated string.");
}

#[test]
fn end_of_text_gives_none_again_and_again() {
    let mut scanner = Scanner::new("  // only a comment");
    assert!(scanner.scan_token().unwrap().is_none());
    assert!(scanner.scan_token().unwrap().is_none());
    let mut scanner = Scanner::new("");
    assert!(scanner.scan_token().unwrap().is_none());
}

#[test]
fn token_records_start_length_line_and_text() {
    let tokens = tokens("var answer\n  = 42.5;");
    assert_eq!(tokens.len(), 5);
    assert_eq!(tokens[0].token_type, TokenType::Var);
    assert_eq!((tokens[0].start, tokens[0].length, tokens[0].line), (0, 3, 1));
    assert_eq!(tokens[0].source, "var");
    assert_eq!(tokens[1].token_type, TokenType::Identifier);
    assert_eq!((tokens[1].start, tokens[1].length, tokens[1].line), (4, 6, 1));
    assert_eq!(tokens[1].source, "answer");
    assert_eq!(tokens[2].token_type, TokenType::Equal);
    assert_eq!((tokens[2].start, tokens[2].length, tokens[2].line), (13, 1, 2));
    assert_eq!(tokens[3].token_type, TokenType::Number);
    assert_eq!((tokens[3].start, tokens[3].length, tokens[3].line), (15, 4, 2));
    assert_eq!(tokens[3].source, "42.5");
    assert_eq!(tokens[4].token_type, TokenType::Semicolon);
    assert_eq!((tokens[4].start, tokens[4].length, tokens[4].line), (19, 1, 2));
}

#[test]
fn number_needs_a_digit_after_the_point() {
    let tokens = tokens("12.ab 3.14 7.");
    let texts: Vec<&str> = tokens.iter().map(|t| t.source.as_str()).collect();
    assert_eq!(texts, vec!["12", ".", "ab", "3.14", "7", "."]);
    assert_eq!(tokens[0].token_type, TokenType::Number);
    assert_eq!(tokens[1].token_type, TokenType::Dot);
    assert_eq!(tokens[3].token_type, TokenType::Number);
}

#[test]
fn string_may_span_lines_and_keeps_its_quotes() {
    let tokens = tokens("\"one\ntwo\" x");
    assert_eq!(tokens[0].token_type, TokenType::String);
    assert_eq!(tokens[0].source, "\"one\ntwo\"");
    assert_eq!(tokens[0].length, 9);
    assert_eq!(tokens[0].line, 2);
    assert_eq!(tokens[1].line, 2);
    let tokens = self::tokens("\"\"");
    assert_eq!(tokens[0].source, "\"\"");
    assert_eq!(tokens[0].length, 2);
}

#[test]
fn string_has_no_escapes() {
    let tokens = tokens("\"a\\\" b");
    assert_eq!(tokens[0].source, "\"a\\\"");
    assert_eq!(tokens[1].token_type, TokenType::Identifier);
}

#[test]
fn comments_and_blanks_are_skipped() {
    let tokens = tokens("// first\n\t a // second\r\n/ b");
    let texts: Vec<&str> = tokens.iter().map(|t| t.source.as_str()).collect();
    assert_eq!(texts, vec!["a", "/", "b"]);
    assert_eq!(tokens[0].line, 2);
    assert_eq!(tokens[1].line, 3);
}

#[test]
fn scan_all_stops_at_the_first_error() {
    let mut scanner = Scanner::new("a + @ b");
    let (tokens, error) = scanner.scan_all();
    assert_eq!(tokens.len(), 2);
    assert_eq!(error.unwrap(), "Unexpected character.");
    let mut scanner = Scanner::new("a + b");
    let (tokens, error) = scanner.scan_all();
    assert_eq!(tokens.len(), 3);
    assert!(error.is_none());
}

#[test]
fn letters_and_digits() {
    for c in ['a', 'z', 'A', 'Z', 'm'] {
        assert!(is_alpha(c));
        assert!(!is_digit(c));
    }
    for c in ['0', '9', '5'] {
        assert!(is_digit(c));
        assert!(!is_alpha(c));
    }
    for c in ['_', ' ', '@', '[', '`', '{', '/', ':', 'é'] {
        assert!(!is_alpha(c));
        assert!(!is_digit(c));
    }
}

#[test]
fn source_cursor() {
    let mut source = Source::new("ab=");
    assert_eq!(source.index(), 0);
    assert_eq!(source.current(), None);
    assert_eq!(source.peek(), Some('a'));
    assert_eq!(source.peek_next(), Some('b'));
    assert_eq!(source.advance(), Some('a'));
    assert_eq!(source.current(), Some('a'));
    assert!(!source.test('='));
    assert_eq!(source.index(), 1);
    assert_eq!(source.advance(), Some('b'));
    assert!(source.test('='));
    assert_eq!(source.index(), 3);
    assert_eq!(source.peek(), None);
    assert_eq!(source.peek_next(), None);
    assert_eq!(source.advance(), None);
    assert_eq!(source.index(), 3);
    assert_eq!(source.get(1), Some('b'));
    assert_eq!(source.get(3), None);
    assert_eq!(source.slice(1, 3), "b=");
    assert_eq!(source.slice(2, 2), "");
}

#[test]
fn precedence_levels_rise() {
    let levels = [
        Precedence::Lowest,
        Precedence::Assignment,
        Precedence::Or,
        Precedence::And,
        Precedence::Equality,
        Precedence::Comparison,
        Precedence::Term,
        Precedence::Factor,
        Precedence::Unary,
        Precedence::Call,
        Precedence::Primary,
    ];
    for i in 0..levels.len() {
        assert_eq!(levels[i].rank() as usize, i);
        let next = if i + 1 < levels.len() { levels[i + 1] } else { Precedence::Primary };
        assert_eq!(levels[i].up(), next);
        for j in 0..levels.len() {
            assert_eq!(levels[i].at_most(levels[j]), i <= j);
            assert_eq!(levels[i] <= levels[j], i <= j);
        }
    }
}

#[test]
fn rule_table() {
    let rule = TokenType::LeftParen.rule();
    assert_eq!(
        (rule.precedence, rule.prefix, rule.infix),
        (Precedence::Call, Some(ParseFn::Grouping), Some(ParseFn::Call))
    );
    let rule = TokenType::Minus.rule();
    assert_eq!(
        (rule.precedence, rule.prefix, rule.infix),
        (Precedence::Term, Some(ParseFn::Unary), Some(ParseFn::Binary))
    );
    let rule = TokenType::Plus.rule();
    assert_eq!((rule.precedence, rule.prefix, rule.infix), (Precedence::Term, None, Some(ParseFn::Binary)));
    for kind in [TokenType::Slash, TokenType::Star] {
        let rule = kind.rule();
        assert_eq!((rule.precedence, rule.prefix, rule.infix), (Precedence::Factor, None, Some(ParseFn::Binary)));
    }
    let rule = TokenType::Bang.rule();
    assert_eq!((rule.precedence, rule.prefix, rule.infix), (Precedence::Lowest, Some(ParseFn::Unary), None));
    for kind in [TokenType::BangEqual, TokenType::EqualEqual] {
        let rule = kind.rule();
        assert_eq!((rule.precedence, rule.prefix, rule.infix), (Precedence::Equality, None, Some(ParseFn::Binary)));
    }
    for kind in [TokenType::Less, TokenType::Greater, TokenType::LessEqual, TokenType::GreaterEqual] {
        let rule = kind.rule();
        assert_eq!((rule.precedence, rule.prefix, rule.infix), (Precedence::Comparison, None, Some(ParseFn::Binary)));
    }
    let rule = TokenType::And.rule();
    assert_eq!((rule.precedence, rule.prefix, rule.infix), (Precedence::And, None, Some(ParseFn::And)));
    let rule = TokenType::Or.rule();
    assert_eq!((rule.precedence, rule.prefix, rule.infix), (Precedence::Or, None, Some(ParseFn::Or)));
    let rule = TokenType::Identifier.rule();
    assert_eq!((rule.precedence, rule.prefix, rule.infix), (Precedence::Lowest, Some(ParseFn::Variable), None));
    let rule = TokenType::String.rule();
    assert_eq!((rule.precedence, rule.prefix, rule.infix), (Precedence::Lowest, Some(ParseFn::String), None));
    let rule = TokenType::Number.rule();
    assert_eq!((rule.precedence, rule.prefix, rule.infix), (Precedence::Lowest, Some(ParseFn::Number), None));
    for kind in [TokenType::Nil, TokenType::True, TokenType::False] {
        let rule = kind.rule();
        assert_eq!((rule.precedence, rule.prefix, rule.infix), (Precedence::Lowest, Some(ParseFn::Literal), None));
    }
    for kind in [
        TokenType::RightParen,
        TokenType::LeftBrace,
        TokenType::RightBrace,
        TokenType::Comma,
        TokenType::Dot,
        TokenType::Semicolon,
        TokenType::Equal,
        TokenType::Class,
        TokenType::Else,
        TokenType::For,
        TokenType::Fun,
        TokenType::If,
        TokenType::Print,
        TokenType::Return,
        TokenType::Super,
        TokenType::This,
        TokenType::Var,
        TokenType::While,
    ] {
        let rule = kind.rule();
        assert_eq!((rule.precedence, rule.prefix, rule.infix), (Precedence::Lowest, None, None));
    }
}

#[test]
fn token_new_keeps_its_fields() {
    let token = Token::new(TokenType::Identifier, 3, 2, 7, "ab".to_string());
    assert_eq!(token.token_type, TokenType::Identifier);
    assert_eq!((token.start, token.length, token.line), (3, 2, 7));
    assert_eq!(token.source, "ab");
    let copy = token.clone();
    assert_eq!(copy.source, "ab");
    assert_eq!((copy.start, copy.length, copy.line), (3, 2, 7));
}
