//! Tokens, precedence levels, and the table that tells the parser what to do
//! with each kind of token.

use vstd::prelude::*;

verus! {

/// The kinds of token.
#[derive(Clone, Copy, Debug, PartialEq, Eq, Structural)]
pub enum TokenType {
    // Single-character tokens.
    LeftParen,
    RightParen,
    LeftBrace,
    RightBrace,
    Comma,
    Dot,
    Minus,
    Plus,
    Semicolon,
    Slash,
    Star,
    // One or two character tokens.
    Bang,
    BangEqual,
    Equal,
    EqualEqual,
    Greater,
    GreaterEqual,
    Less,
    LessEqual,
    // Literals.
    Identifier,
    String,
    Number,
    // Keywords.
    And,
    Class,
    Else,
    False,
    For,
    Fun,
    If,
    Nil,
    Or,
    Print,
    Return,
    Super,
    This,
    True,
    Var,
    While,
}

/// The precedence levels, from the loosest to the tightest.
#[derive(Clone, Copy, Debug, PartialEq, Eq, PartialOrd, Structural)]
pub enum Precedence {
    Lowest,
    Assignment,  // =
    Or,  // or
    And,  // and
    Equality,  // == !=
    Comparison,  // < > <= >=
    Term,  // + -
    Factor,  // * /
    Unary,  // ! -
    Call,  // . ()
    Primary,
}

impl Precedence {
    /// The position of the level, from 0 for `Lowest` to 10 for `Primary`.
    pub open spec fn rank_spec(self) -> nat {
        match self {
            Precedence::Lowest => 0,
            Precedence::Assignment => 1,
            Precedence::Or => 2,
            Precedence::And => 3,
            Precedence::Equality => 4,
            Precedence::Comparison => 5,
            Precedence::Term => 6,
            Precedence::Factor => 7,
            Precedence::Unary => 8,
            Precedence::Call => 9,
            Precedence::Primary => 10,
        }
    }

    /// The next tighter level; `Primary` stays.
    pub open spec fn up_spec(self) -> Precedence {
        match self {
            Precedence::Lowest => Precedence::Assignment,
            Precedence::Assignment => Precedence::Or,
            Precedence::Or => Precedence::And,
            Precedence::And => Precedence::Equality,
            Precedence::Equality => Precedence::Comparison,
            Precedence::Comparison => Precedence::Term,
            Precedence::Term => Precedence::Factor,
            Precedence::Factor => Precedence::Unary,
            Precedence::Unary => Precedence::Call,
            Precedence::Call => Precedence::Primary,
            Precedence::Primary => Precedence::Primary,
        }
    }

    pub fn rank(self) -> (r: u8)
        ensures
            r == self.rank_spec(),
            r <= 10,
    {
        match self {
            Precedence::Lowest => 0,
            Precedence::Assignment => 1,
            Precedence::Or => 2,
            Precedence::And => 3,
            Precedence::Equality => 4,
            Precedence::Comparison => 5,
            Precedence::Term => 6,
            Precedence::Factor => 7,
            Precedence::Unary => 8,
            Precedence::Call => 9,
            Precedence::Primary => 10,
        }
    }

    pub fn up(self) -> (r: Self)
        ensures
            r == self.up_spec(),
            r.rank_spec() == if self.rank_spec() < 10 {
                self.rank_spec() + 1
            } else {
                10
            },
    {
        match self {
            Self::Lowest => Self::Assignment,
            Self::Assignment => Self::Or,
            Self::Or => Self::And,
            Self::And => Self::Equality,
            Self::Equality => Self::Comparison,
            Self::Comparison => Self::Term,
            Self::Term => Self::Factor,
            Self::Factor => Self::Unary,
            Self::Unary => Self::Call,
            Self::Call => Self::Primary,
            Self::Primary => Self::Primary,
        }
    }

    /// Whether this level is at most as tight as the other.
    pub fn at_most(self, other: Precedence) -> (r: bool)
        ensures
            r == (self.rank_spec() <= other.rank_spec()),
    {
        self.rank() <= other.rank()
    }
}

/// What the parser does with a token: the ways to compile an expression
/// that begins with the token, or that continues with it.
#[derive(Clone, Copy, Debug, PartialEq, Eq, Structural)]
pub enum ParseFn {
    Grouping,
    Call,
    Unary,
    Binary,
    Variable,
    String,
    Number,
    Literal,
    And,
    Or,
}

/// One row of the table: what a kind of token does at the start of an
/// expression, what it does after an operand, and how tightly it binds
/// there.
#[derive(Clone, Copy, Debug, PartialEq, Eq, Structural)]
pub struct Rule {
    pub precedence: Precedence,
    pub prefix: Option<ParseFn>,
    pub infix: Option<ParseFn>,
}

impl Rule {
    pub fn new(precedence: Precedence, prefix: Option<ParseFn>, infix: Option<ParseFn>) -> (r:
        Self)
        ensures
            r == (Rule { precedence, prefix, infix }),
    {
        Rule { precedence, prefix, infix }
    }
}

impl TokenType {
    /// The table.
    pub open spec fn rule_spec(self) -> Rule {
        match self {
            TokenType::LeftParen => Rule {
                precedence: Precedence::Call,
                prefix: Some(ParseFn::Grouping),
                infix: Some(ParseFn::Call),
            },
            TokenType::Minus => Rule {
                precedence: Precedence::Term,
                prefix: Some(ParseFn::Unary),
                infix: Some(ParseFn::Binary),
            },
            TokenType::Plus => Rule {
                precedence: Precedence::Term,
                prefix: None,
                infix: Some(ParseFn::Binary),
            },
            TokenType::Slash | TokenType::Star => Rule {
                precedence: Precedence::Factor,
                prefix: None,
                infix: Some(ParseFn::Binary),
            },
            TokenType::Bang => Rule {
                precedence: Precedence::Lowest,
                prefix: Some(ParseFn::Unary),
                infix: None,
            },
            TokenType::BangEqual | TokenType::EqualEqual => Rule {
                precedence: Precedence::Equality,
                prefix: None,
                infix: Some(ParseFn::Binary),
            },
            TokenType::Greater
            | TokenType::GreaterEqual
            | TokenType::Less
            | TokenType::LessEqual => Rule {
                precedence: Precedence::Comparison,
                prefix: None,
                infix: Some(ParseFn::Binary),
            },
            TokenType::Identifier => Rule {
                precedence: Precedence::Lowest,
                prefix: Some(ParseFn::Variable),
                infix: None,
            },
            TokenType::String => Rule {
                precedence: Precedence::Lowest,
                prefix: Some(ParseFn::String),
                infix: None,
            },
            TokenType::Number => Rule {
                precedence: Precedence::Lowest,
                prefix: Some(ParseFn::Number),
                infix: None,
            },
            TokenType::And => Rule {
                precedence: Precedence::And,
                prefix: None,
                infix: Some(ParseFn::And),
            },
            TokenType::Or => Rule {
                precedence: Precedence::Or,
                prefix: None,
                infix: Some(ParseFn::Or),
            },
            TokenType::False | TokenType::Nil | TokenType::True => Rule {
                precedence: Precedence::Lowest,
                prefix: Some(ParseFn::Literal),
                infix: None,
            },
            _ => Rule { precedence: Precedence::Lowest, prefix: None, infix: None },
        }
    }

    /// The row of the table for this kind of token.
    pub fn rule(&self) -> (r: Rule)
        ensures
            r == self.rule_spec(),
    {
        match self {
            Self::LeftParen => Rule::new(
                Precedence::Call,
                Some(ParseFn::Grouping),
                Some(ParseFn::Call),
            ),
            Self::RightParen => Rule::new(Precedence::Lowest, None, None),
            Self::LeftBrace => Rule::new(Precedence::Lowest, None, None),
            Self::RightBrace => Rule::new(Precedence::Lowest, None, None),
            Self::Comma => Rule::new(Precedence::Lowest, None, None),
            Self::Dot => Rule::new(Precedence::Lowest, None, None),
            Self::Minus => Rule::new(
                Precedence::Term,
                Some(ParseFn::Unary),
                Some(ParseFn::Binary),
            ),
            Self::Plus => Rule::new(Precedence::Term, None, Some(ParseFn::Binary)),
            Self::Semicolon => Rule::new(Precedence::Lowest, None, None),
            Self::Slash => Rule::new(Precedence::Factor, None, Some(ParseFn::Binary)),
            Self::Star => Rule::new(Precedence::Factor, None, Some(ParseFn::Binary)),
            Self::Bang => Rule::new(Precedence::Lowest, Some(ParseFn::Unary), None),
            Self::BangEqual => Rule::new(Precedence::Equality, None, Some(ParseFn::Binary)),
            Self::Equal => Rule::new(Precedence::Lowest, None, None),
            Self::EqualEqual => Rule::new(Precedence::Equality, None, Some(ParseFn::Binary)),
            Self::Greater => Rule::new(Precedence::Comparison, None, Some(ParseFn::Binary)),
            Self::GreaterEqual => Rule::new(Precedence::Comparison, None, Some(ParseFn::Binary)),
            Self::Less => Rule::new(Precedence::Comparison, None, Some(ParseFn::Binary)),
            Self::LessEqual => Rule::new(Precedence::Comparison, None, Some(ParseFn::Binary)),
            Self::Identifier => Rule::new(Precedence::Lowest, Some(ParseFn::Variable), None),
            Self::String => Rule::new(Precedence::Lowest, Some(ParseFn::String), None),
            Self::Number => Rule::new(Precedence::Lowest, Some(ParseFn::Number), None),
            Self::And => Rule::new(Precedence::And, None, Some(ParseFn::And)),
            Self::Class => Rule::new(Precedence::Lowest, None, None),
            Self::Else => Rule::new(Precedence::Lowest, None, None),
            Self::False => Rule::new(Precedence::Lowest, Some(ParseFn::Literal), None),
            Self::For => Rule::new(Precedence::Lowest, None, None),
            Self::Fun => Rule::new(Precedence::Lowest, None, None),
            Self::If => Rule::new(Precedence::Lowest, None, None),
            Self::Nil => Rule::new(Precedence::Lowest, Some(ParseFn::Literal), None),
            Self::Or => Rule::new(Precedence::Or, None, Some(ParseFn::Or)),
            Self::Print => Rule::new(Precedence::Lowest, None, None),
            Self::Return => Rule::new(Precedence::Lowest, None, None),
            Self::Super => Rule::new(Precedence::Lowest, None, None),
            Self::This => Rule::new(Precedence::Lowest, None, None),
            Self::True => Rule::new(Precedence::Lowest, Some(ParseFn::Literal), None),
            Self::Var => Rule::new(Precedence::Lowest, None, None),
            Self::While => Rule::new(Precedence::Lowest, None, None),
        }
    }
}

/// A token: its kind, where its text begins, how long it is, the line it
/// ends on, and the text itself.
#[derive(Debug)]
pub struct Token {
    pub token_type: TokenType,
    pub start: usize,
    pub length: usize,
    pub line: usize,
    pub source: String,
}

/// The mathematical model of a [`Token`].
pub struct TokenView {
    pub kind: TokenType,
    pub start: nat,
    pub length: nat,
    pub line: nat,
    pub lexeme: Seq<char>,
}

impl View for Token {
    type V = TokenView;

    open spec fn view(&self) -> TokenView {
        TokenView {
            kind: self.token_type,
            start: self.start as nat,
            length: self.length as nat,
            line: self.line as nat,
            lexeme: self.source@,
        }
    }
}

impl Token {
    pub fn new(token_type: TokenType, start: usize, length: usize, line: usize, source: String) -> (r:
        Self)
        ensures
            r@ == (TokenView {
                kind: token_type,
                start: start as nat,
                length: length as nat,
                line: line as nat,
                lexeme: source@,
            }),
    {
        Token { token_type, start, length, line, source }
    }
}

impl Clone for Token {
    fn clone(&self) -> (r: Self)
        ensures
            r@ == self@,
    {
        Token {
            token_type: self.token_type,
            start: self.start,
            length: self.length,
            line: self.line,
            source: self.source.clone(),
        }
    }
}

} // verus!
