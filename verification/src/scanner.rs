//! The scanner: from source text to tokens.

use vstd::prelude::*;
use vstd::string::*;
use crate::source::Source;
use crate::text::{failure, fails_with};
use crate::token::{Token, TokenType, TokenView};

verus! {

pub open spec fn is_alpha_spec(c: char) -> bool {
    ('a' <= c && c <= 'z') || ('A' <= c && c <= 'Z')
}

pub open spec fn is_digit_spec(c: char) -> bool {
    '0' <= c && c <= '9'
}

/// Whether a character is an ASCII letter.
pub fn is_alpha(c: char) -> (r: bool)
    ensures
        r == is_alpha_spec(c),
{
    ('a' <= c && c <= 'z') || ('A' <= c && c <= 'Z')
}

/// Whether a character is an ASCII digit.
pub fn is_digit(c: char) -> (r: bool)
    ensures
        r == is_digit_spec(c),
{
    '0' <= c && c <= '9'
}

/// The number of the next line. Line numbers stop at the largest machine
/// index.
pub open spec fn bump(line: nat) -> nat {
    if line < usize::MAX {
        line + 1
    } else {
        line
    }
}

/// A position in the text and the number of its line.
pub struct Place {
    pub index: nat,
    pub line: nat,
}

/// Where the next token starts: the place after the blanks, the line ends
/// and the `//` comments that begin at `index`. Inside a comment
/// (`in_comment`) everything up to the end of the line is passed over.
pub open spec fn skip_blank(chars: Seq<char>, index: nat, line: nat, in_comment: bool) -> Place
    decreases chars.len() - index, (if in_comment {
        1nat
    } else {
        0nat
    }),
{
    if index >= chars.len() {
        Place { index, line }
    } else {
        let c = chars[index as int];
        if in_comment {
            if c == '\n' {
                skip_blank(chars, index, line, false)
            } else {
                skip_blank(chars, index + 1, line, true)
            }
        } else if c == ' ' || c == '\r' || c == '\t' {
            skip_blank(chars, index + 1, line, false)
        } else if c == '\n' {
            skip_blank(chars, index + 1, bump(line), false)
        } else if c == '/' && index + 1 < chars.len() && chars[index + 1 as int] == '/' {
            skip_blank(chars, index + 2, line, true)
        } else {
            Place { index, line }
        }
    }
}

/// The end of the run of digits that begins at `index`.
pub open spec fn digits_end(chars: Seq<char>, index: nat) -> nat
    decreases chars.len() - index,
{
    if index < chars.len() && is_digit_spec(chars[index as int]) {
        digits_end(chars, index + 1)
    } else {
        index
    }
}

/// The end of the run of letters and digits that begins at `index`.
pub open spec fn word_end(chars: Seq<char>, index: nat) -> nat
    decreases chars.len() - index,
{
    if index < chars.len() && (is_alpha_spec(chars[index as int]) || is_digit_spec(
        chars[index as int],
    )) {
        word_end(chars, index + 1)
    } else {
        index
    }
}

/// The end of the number whose first digit lies before `index`: more
/// digits, then a fraction if a point and a digit follow.
pub open spec fn number_end(chars: Seq<char>, index: nat) -> nat {
    let whole = digits_end(chars, index);
    if whole + 1 < chars.len() && chars[whole as int] == '.' && is_digit_spec(chars[whole + 1 as int]) {
        digits_end(chars, whole + 1)
    } else {
        whole
    }
}

/// The place after the double quote that closes the string whose contents
/// begin at `index`, or `None` where the text ends before one. Line ends
/// inside the string count.
pub open spec fn string_end(chars: Seq<char>, index: nat, line: nat) -> Option<Place>
    decreases chars.len() - index,
{
    if index >= chars.len() {
        None
    } else if chars[index as int] == '"' {
        Some(Place { index: index + 1, line })
    } else if chars[index as int] == '\n' {
        string_end(chars, index + 1, bump(line))
    } else {
        string_end(chars, index + 1, line)
    }
}

/// The kind of a word: one of the sixteen keywords, or an identifier.
pub open spec fn keyword_of(word: Seq<char>) -> TokenType {
    if word == "and"@ {
        TokenType::And
    } else if word == "class"@ {
        TokenType::Class
    } else if word == "else"@ {
        TokenType::Else
    } else if word == "false"@ {
        TokenType::False
    } else if word == "for"@ {
        TokenType::For
    } else if word == "fun"@ {
        TokenType::Fun
    } else if word == "if"@ {
        TokenType::If
    } else if word == "nil"@ {
        TokenType::Nil
    } else if word == "or"@ {
        TokenType::Or
    } else if word == "print"@ {
        TokenType::Print
    } else if word == "return"@ {
        TokenType::Return
    } else if word == "super"@ {
        TokenType::Super
    } else if word == "this"@ {
        TokenType::This
    } else if word == "true"@ {
        TokenType::True
    } else if word == "var"@ {
        TokenType::Var
    } else if word == "while"@ {
        TokenType::While
    } else {
        TokenType::Identifier
    }
}

/// The kind of the token that is one character, or that character and `=`.
pub open spec fn punctuation(c: char, followed_by_equal: bool) -> Option<TokenType> {
    if c == '(' {
        Some(TokenType::LeftParen)
    } else if c == ')' {
        Some(TokenType::RightParen)
    } else if c == '{' {
        Some(TokenType::LeftBrace)
    } else if c == '}' {
        Some(TokenType::RightBrace)
    } else if c == ';' {
        Some(TokenType::Semicolon)
    } else if c == ',' {
        Some(TokenType::Comma)
    } else if c == '.' {
        Some(TokenType::Dot)
    } else if c == '-' {
        Some(TokenType::Minus)
    } else if c == '+' {
        Some(TokenType::Plus)
    } else if c == '/' {
        Some(TokenType::Slash)
    } else if c == '*' {
        Some(TokenType::Star)
    } else if c == '!' {
        Some(
            if followed_by_equal {
                TokenType::BangEqual
            } else {
                TokenType::Bang
            },
        )
    } else if c == '=' {
        Some(
            if followed_by_equal {
                TokenType::EqualEqual
            } else {
                TokenType::Equal
            },
        )
    } else if c == '<' {
        Some(
            if followed_by_equal {
                TokenType::LessEqual
            } else {
                TokenType::Less
            },
        )
    } else if c == '>' {
        Some(
            if followed_by_equal {
                TokenType::GreaterEqual
            } else {
                TokenType::Greater
            },
        )
    } else {
        None
    }
}

/// Whether a token of the given kind takes the `=` that follows it.
pub open spec fn takes_equal(kind: TokenType) -> bool {
    kind == TokenType::BangEqual || kind == TokenType::EqualEqual || kind == TokenType::LessEqual
        || kind == TokenType::GreaterEqual
}

/// What a scan finds: a token, the end of the text (`Ok(None)`), or an
/// error; and the place where the next scan begins.
pub struct Scan {
    pub result: Result<Option<TokenView>, Seq<char>>,
    pub start: nat,
    pub place: Place,
}

/// The token of the given kind from `start` to `end`.
pub open spec fn token(chars: Seq<char>, kind: TokenType, start: nat, end: Place) -> TokenView {
    TokenView {
        kind,
        start,
        length: (end.index - start) as nat,
        line: end.line,
        lexeme: chars.subrange(start as int, end.index as int),
    }
}

/// A scan that found a token.
pub open spec fn found(chars: Seq<char>, kind: TokenType, start: nat, end: Place) -> Scan {
    Scan { result: Ok(Some(token(chars, kind, start, end))), start, place: end }
}

/// The scan of the token that begins at `start`, where no blank begins.
pub open spec fn scan_at(chars: Seq<char>, start: nat, line: nat) -> Scan {
    if start >= chars.len() {
        Scan { result: Ok(None), start, place: Place { index: start, line } }
    } else {
        let c = chars[start as int];
        let followed = start + 1 < chars.len() && chars[start + 1 as int] == '=';
        match punctuation(c, followed) {
            Some(kind) => found(
                chars,
                kind,
                start,
                Place {
                    index: if takes_equal(kind) {
                        start + 2
                    } else {
                        start + 1
                    },
                    line,
                },
            ),
            None => if c == '"' {
                match string_end(chars, start + 1, line) {
                    Some(end) => found(chars, TokenType::String, start, end),
                    None => Scan {
                        result: Err("Unterminated string."@),
                        start,
                        place: skip_to_end(chars, start + 1, line),
                    },
                }
            } else if is_alpha_spec(c) {
                let end = word_end(chars, start + 1);
                found(
                    chars,
                    keyword_of(chars.subrange(start as int, end as int)),
                    start,
                    Place { index: end, line },
                )
            } else if is_digit_spec(c) {
                found(
                    chars,
                    TokenType::Number,
                    start,
                    Place { index: number_end(chars, start + 1), line },
                )
            } else {
                Scan {
                    result: Err("Unexpected character."@),
                    start,
                    place: Place { index: start + 1, line },
                }
            },
        }
    }
}

/// The end of the text, with the line ends from `index` on counted.
pub open spec fn skip_to_end(chars: Seq<char>, index: nat, line: nat) -> Place
    decreases chars.len() - index,
{
    if index >= chars.len() {
        Place { index, line }
    } else if chars[index as int] == '\n' {
        skip_to_end(chars, index + 1, bump(line))
    } else {
        skip_to_end(chars, index + 1, line)
    }
}

/// One scan from a place: past the blanks and comments, then one token.
pub open spec fn scan(chars: Seq<char>, from: Place) -> Scan {
    let start = skip_blank(chars, from.index, from.line, false);
    scan_at(chars, start.index, start.line)
}

/// The scanner.
pub struct Scanner<'source> {
    source: Source<'source>,
    start: usize,
    line: usize,
}

/// The mathematical model of a [`Scanner`]: the text, where the last token
/// began, and the place of the next scan.
pub struct ScannerView {
    pub chars: Seq<char>,
    pub start: nat,
    pub place: Place,
}

impl<'source> View for Scanner<'source> {
    type V = ScannerView;

    closed spec fn view(&self) -> ScannerView {
        ScannerView {
            chars: self.source@.chars,
            start: self.start as nat,
            place: Place { index: self.source@.index, line: self.line as nat },
        }
    }
}

/// Whether a scan result is what the model of a scan says.
pub open spec fn scanned(r: Result<Option<Token>, String>, expected: Result<
    Option<TokenView>,
    Seq<char>,
>) -> bool {
    match expected {
        Ok(Some(token)) => r is Ok && r->Ok_0.is_some() && r->Ok_0.unwrap()@ == token,
        Ok(None) => r is Ok && r->Ok_0.is_none(),
        Err(message) => fails_with(r, message),
    }
}

impl<'source> Scanner<'source> {
    /// A scanner at the start of the text, on line one.
    pub fn new(source: &'source str) -> (r: Self)
        ensures
            r@ == (ScannerView { chars: source@, start: 0, place: Place { index: 0, line: 1 } }),
    {
        Scanner { source: Source::new(source), start: 0, line: 1 }
    }

    /// The position of the next scan.
    fn position(&self) -> (r: usize)
        ensures
            r == self@.place.index,
            self@.place.index <= self@.chars.len() <= usize::MAX,
    {
        self.source.index()
    }

    fn advance(&mut self) -> (r: Option<char>)
        ensures
            final(self)@.chars == old(self)@.chars,
            final(self)@.start == old(self)@.start,
            final(self)@.place.line == old(self)@.place.line,
            old(self)@.place.index < old(self)@.chars.len() ==> r == Some(
                old(self)@.chars[old(self)@.place.index as int],
            ) && final(self)@.place.index == old(self)@.place.index + 1,
            old(self)@.place.index >= old(self)@.chars.len() ==> r.is_none() && final(
                self)@.place.index == old(self)@.place.index,
    {
        self.source.advance()
    }

    fn current(&self) -> (r: Option<char>)
        ensures
            r == (if 0 < self@.place.index {
                Some(self@.chars[self@.place.index - 1 as int])
            } else {
                None
            }),
    {
        self.source.current()
    }

    fn peek(&self) -> (r: Option<char>)
        ensures
            r == (if self@.place.index < self@.chars.len() {
                Some(self@.chars[self@.place.index as int])
            } else {
                None
            }),
            self@.place.index <= self@.chars.len() <= usize::MAX,
    {
        self.source.peek()
    }

    fn peek_next(&self) -> (r: Option<char>)
        ensures
            r == (if self@.place.index + 1 < self@.chars.len() {
                Some(self@.chars[self@.place.index + 1 as int])
            } else {
                None
            }),
    {
        self.source.peek_next()
    }

    fn get(&self, index: usize) -> (r: Option<char>)
        ensures
            r == (if index < self@.chars.len() {
                Some(self@.chars[index as int])
            } else {
                None
            }),
    {
        self.source.get(index)
    }

    fn slice(&self, start: usize, end: usize) -> (r: &str)
        requires
            start <= end <= self@.chars.len(),
        ensures
            r@ == self@.chars.subrange(start as int, end as int),
    {
        self.source.slice(start, end)
    }

    fn test(&mut self, expected: char) -> (r: bool)
        ensures
            final(self)@.chars == old(self)@.chars,
            final(self)@.start == old(self)@.start,
            final(self)@.place.line == old(self)@.place.line,
            r == (old(self)@.place.index < old(self)@.chars.len() && old(self)@.chars[old(self)@.place.index as int] == expected),
            final(self)@.place.index == if r {
                old(self)@.place.index + 1
            } else {
                old(self)@.place.index
            },
    {
        self.source.test(expected)
    }

    /// Counts a line end.
    fn next_line(&mut self)
        ensures
            final(self)@ == (ScannerView {
                place: Place { line: bump(old(self)@.place.line), ..old(self)@.place },
                ..old(self)@
            }),
    {
        if self.line < usize::MAX {
            self.line += 1;
        }
    }

    /// Marks the place of the next scan as the start of a token.
    fn mark_start(&mut self)
        ensures
            final(self)@ == (ScannerView { start: old(self)@.place.index, ..old(self)@ }),
    {
        self.start = self.position();
    }

    /// Steps over a comment, from its two slashes up to the end of its line.
    fn skip_comment(&mut self)
        requires
            old(self)@.place.index + 1 < old(self)@.chars.len(),
        ensures
            final(self)@.chars == old(self)@.chars,
            final(self)@.start == old(self)@.start,
            final(self)@.place.index >= old(self)@.place.index + 2,
            final(self)@.place.index <= old(self)@.chars.len(),
            skip_blank(final(self)@.chars, final(self)@.place.index, final(self)@.place.line, false)
                == skip_blank(
                old(self)@.chars,
                old(self)@.place.index + 2,
                old(self)@.place.line,
                true,
            ),
    {
        let ghost chars = self@.chars;
        let ghost goal = skip_blank(chars, self@.place.index + 2, self@.place.line, true);
        self.advance();
        self.advance();
        loop
            invariant
                chars == old(self)@.chars,
                self@.chars == chars,
                self@.start == old(self)@.start,
                self@.place.index >= old(self)@.place.index + 2,
                self@.place.index <= chars.len(),
                skip_blank(chars, self@.place.index, self@.place.line, true) == goal,
            ensures
                skip_blank(chars, self@.place.index, self@.place.line, false) == goal,
            decreases chars.len() - self@.place.index,
        {
            match self.peek() {
                Some(c) => {
                    if c != '\n' {
                        self.advance();
                    } else {
                        break ;
                    }
                },
                None => {
                    break ;
                },
            }
        }
    }

    fn skip_whitespace(&mut self)
        ensures
            final(self)@ == (ScannerView {
                place: skip_blank(
                    old(self)@.chars,
                    old(self)@.place.index,
                    old(self)@.place.line,
                    false,
                ),
                ..old(self)@
            }),
    {
        let ghost chars = self@.chars;
        let ghost goal = skip_blank(chars, self@.place.index, self@.place.line, false);
        loop
            invariant
                chars == old(self)@.chars,
                self@.chars == chars,
                self@.start == old(self)@.start,
                skip_blank(chars, self@.place.index, self@.place.line, false) == goal,
            ensures
                self@.place == goal,
            decreases chars.len() - self@.place.index,
        {
            match self.peek() {
                Some(c) => {
                    if c == ' ' || c == '\r' || c == '\t' {
                        self.advance();
                    } else if c == '\n' {
                        self.next_line();
                        self.advance();
                    } else if c == '/' {
                        if self.peek_next() == Some('/') {
                            self.skip_comment();
                        } else {
                            break ;
                        }
                    } else {
                        break ;
                    }
                },
                None => {
                    break ;
                },
            }
        }
    }

    fn make_token(&self, token_type: TokenType) -> (r: Token)
        requires
            self@.start <= self@.place.index,
        ensures
            r@ == token(self@.chars, token_type, self@.start, self@.place),
    {
        let index = self.position();
        Token::new(
            token_type,
            self.start,
            index - self.start,
            self.line,
            self.slice(self.start, index).to_owned(),
        )
    }

    /// Scans the rest of a string, after its opening quote.
    fn scan_string(&mut self) -> (r: Result<Token, String>)
        requires
            old(self)@.start <= old(self)@.place.index,
        ensures
            final(self)@.chars == old(self)@.chars,
            final(self)@.start == old(self)@.start,
            match string_end(old(self)@.chars, old(self)@.place.index, old(self)@.place.line) {
                Some(end) => r is Ok && final(self)@.place == end && r->Ok_0@ == token(
                    old(self)@.chars,
                    TokenType::String,
                    old(self)@.start,
                    end,
                ),
                None => fails_with(r, "Unterminated string."@) && final(self)@.place
                    == skip_to_end(
                    old(self)@.chars,
                    old(self)@.place.index,
                    old(self)@.place.line,
                ),
            },
    {
        let ghost chars = self@.chars;
        loop
            invariant
                chars == old(self)@.chars,
                self@.chars == chars,
                self@.start == old(self)@.start,
                self@.start <= self@.place.index,
                string_end(chars, self@.place.index, self@.place.line) == string_end(
                    chars,
                    old(self)@.place.index,
                    old(self)@.place.line,
                ),
                skip_to_end(chars, self@.place.index, self@.place.line) == skip_to_end(
                    chars,
                    old(self)@.place.index,
                    old(self)@.place.line,
                ),
            decreases chars.len() - self@.place.index,
        {
            match self.peek() {
                None => {
                    return failure("Unterminated string.");
                },
                Some(c) => {
                    if c == '"' {
                        self.advance();
                        return Ok(self.make_token(TokenType::String));
                    } else if c == '\n' {
                        self.next_line();
                        self.advance();
                    } else {
                        self.advance();
                    }
                },
            }
        }
    }

    /// Steps over a run of digits.
    fn skip_digits(&mut self)
        ensures
            final(self)@ == (ScannerView {
                place: Place {
                    index: digits_end(old(self)@.chars, old(self)@.place.index),
                    ..old(self)@.place
                },
                ..old(self)@
            }),
            final(self)@.place.index >= old(self)@.place.index,
    {
        let ghost chars = self@.chars;
        loop
            invariant
                chars == old(self)@.chars,
                self@.chars == chars,
                self@.start == old(self)@.start,
                self@.place.line == old(self)@.place.line,
                self@.place.index >= old(self)@.place.index,
                digits_end(chars, self@.place.index) == digits_end(chars, old(self)@.place.index),
            ensures
                self@.place.index == digits_end(chars, old(self)@.place.index),
            decreases chars.len() - self@.place.index,
        {
            match self.peek() {
                Some(c) => {
                    if is_digit(c) {
                        self.advance();
                    } else {
                        break ;
                    }
                },
                None => {
                    break ;
                },
            }
        }
    }

    /// Scans the rest of a number, after its first digit.
    fn scan_number(&mut self) -> (r: Token)
        requires
            old(self)@.start <= old(self)@.place.index,
        ensures
            final(self)@ == (ScannerView {
                place: Place {
                    index: number_end(old(self)@.chars, old(self)@.place.index),
                    ..old(self)@.place
                },
                ..old(self)@
            }),
            r@ == token(old(self)@.chars, TokenType::Number, old(self)@.start, final(self)@.place),
    {
        self.skip_digits();
        let fraction = match self.peek() {
            Some(c) => c == '.' && match self.peek_next() {
                Some(d) => is_digit(d),
                None => false,
            },
            None => false,
        };
        if fraction {
            self.advance();
            self.skip_digits();
        }
        self.make_token(TokenType::Number)
    }

    /// Scans the rest of a word, after its first letter.
    fn scan_keyword_or_identifier(&mut self) -> (r: Token)
        requires
            old(self)@.start < old(self)@.place.index,
            is_alpha_spec(old(self)@.chars[old(self)@.start as int]),
        ensures
            final(self)@ == (ScannerView {
                place: Place {
                    index: word_end(old(self)@.chars, old(self)@.place.index),
                    ..old(self)@.place
                },
                ..old(self)@
            }),
            r@ == token(
                old(self)@.chars,
                keyword_of(
                    old(self)@.chars.subrange(
                        old(self)@.start as int,
                        final(self)@.place.index as int,
                    ),
                ),
                old(self)@.start,
                final(self)@.place,
            ),
    {
        let ghost chars = self@.chars;
        loop
            invariant
                chars == old(self)@.chars,
                self@.chars == chars,
                self@.start == old(self)@.start,
                self@.place.line == old(self)@.place.line,
                self@.place.index >= old(self)@.place.index,
                word_end(chars, self@.place.index) == word_end(chars, old(self)@.place.index),
            ensures
                self@.place.index == word_end(chars, old(self)@.place.index),
            decreases chars.len() - self@.place.index,
        {
            match self.peek() {
                Some(c) => {
                    if is_alpha(c) || is_digit(c) {
                        self.advance();
                    } else {
                        break ;
                    }
                },
                None => {
                    break ;
                },
            }
        }
        let kind = self.keyword_or_identifier_type();
        self.make_token(kind)
    }

    /// Whether the word since the start of the token is the given keyword:
    /// `rest` is the keyword without its first `skip` letters, which the
    /// caller has looked at.
    fn check_keyword(&self, skip: usize, rest: &str, token_type: TokenType) -> (r: TokenType)
        requires
            self@.start <= self@.place.index,
            skip <= 2,
        ensures
            r == if self@.place.index - self@.start == skip + rest@.len() && self@.chars.subrange(
                self@.start + skip,
                self@.place.index as int,
            ) == rest@ {
                token_type
            } else {
                TokenType::Identifier
            },
    {
        let len = rest.unicode_len();
        let index = self.position();
        if index - self.start >= skip && index - self.start - skip == len {
            let found = self.slice(self.start + skip, index);
            if found.to_owned() == rest.to_owned() {
                return token_type;
            }
        }
        TokenType::Identifier
    }

    /// The kind of the word since the start of the token.
    fn keyword_or_identifier_type(&self) -> (r: TokenType)
        requires
            self@.start < self@.place.index,
        ensures
            r == keyword_of(self@.chars.subrange(self@.start as int, self@.place.index as int)),
    {
        proof {
            lemma_keywords(self@.chars.subrange(self@.start as int, self@.place.index as int));
        }
        let ghost word = self@.chars.subrange(self@.start as int, self@.place.index as int);
        let index = self.position();
        let first = match self.get(self.start) {
            Some(c) => c,
            None => {
                return TokenType::Identifier;
            },
        };
        let second = self.get(self.start + 1);
        assert(first == word[0]);
        assert(word.len() >= 2 ==> second == Some(word[1]));
        assert(forall|skip: int|
            0 <= skip <= word.len() ==> #[trigger] self@.chars.subrange(
                self@.start + skip,
                self@.place.index as int,
            ) =~= word.subrange(skip, word.len() as int));
        if first == 'a' {
            self.check_keyword(1, "nd", TokenType::And)
        } else if first == 'c' {
            self.check_keyword(1, "lass", TokenType::Class)
        } else if first == 'e' {
            self.check_keyword(1, "lse", TokenType::Else)
        } else if first == 'i' {
            self.check_keyword(1, "f", TokenType::If)
        } else if first == 'n' {
            self.check_keyword(1, "il", TokenType::Nil)
        } else if first == 'o' {
            self.check_keyword(1, "r", TokenType::Or)
        } else if first == 'p' {
            self.check_keyword(1, "rint", TokenType::Print)
        } else if first == 'r' {
            self.check_keyword(1, "eturn", TokenType::Return)
        } else if first == 's' {
            self.check_keyword(1, "uper", TokenType::Super)
        } else if first == 'v' {
            self.check_keyword(1, "ar", TokenType::Var)
        } else if first == 'w' {
            self.check_keyword(1, "hile", TokenType::While)
        } else if first == 'f' {
            if second == Some('a') {
                self.check_keyword(2, "lse", TokenType::False)
            } else if second == Some('o') {
                self.check_keyword(2, "r", TokenType::For)
            } else if second == Some('u') {
                self.check_keyword(2, "n", TokenType::Fun)
            } else {
                TokenType::Identifier
            }
        } else if first == 't' {
            if second == Some('h') {
                self.check_keyword(2, "is", TokenType::This)
            } else if second == Some('r') {
                self.check_keyword(2, "ue", TokenType::True)
            } else {
                TokenType::Identifier
            }
        } else {
            TokenType::Identifier
        }
    }

    /// Scans the next token. `Ok(None)` at the end of the text; an error for
    /// a string that is not closed and for a character that begins no token.
    pub fn scan_token(&mut self) -> (r: Result<Option<Token>, String>)
        ensures
            final(self)@.chars == old(self)@.chars,
            final(self)@.start == scan(old(self)@.chars, old(self)@.place).start,
            final(self)@.place == scan(old(self)@.chars, old(self)@.place).place,
            scanned(r, scan(old(self)@.chars, old(self)@.place).result),
    {
        self.skip_whitespace();
        self.mark_start();
        let c = match self.advance() {
            None => {
                return Ok(None);
            },
            Some(c) => c,
        };
        let t = if c == '(' {
            self.make_token(TokenType::LeftParen)
        } else if c == ')' {
            self.make_token(TokenType::RightParen)
        } else if c == '{' {
            self.make_token(TokenType::LeftBrace)
        } else if c == '}' {
            self.make_token(TokenType::RightBrace)
        } else if c == ';' {
            self.make_token(TokenType::Semicolon)
        } else if c == ',' {
            self.make_token(TokenType::Comma)
        } else if c == '.' {
            self.make_token(TokenType::Dot)
        } else if c == '-' {
            self.make_token(TokenType::Minus)
        } else if c == '+' {
            self.make_token(TokenType::Plus)
        } else if c == '/' {
            self.make_token(TokenType::Slash)
        } else if c == '*' {
            self.make_token(TokenType::Star)
        } else if c == '!' {
            if self.test('=') {
                self.make_token(TokenType::BangEqual)
            } else {
                self.make_token(TokenType::Bang)
            }
        } else if c == '=' {
            if self.test('=') {
                self.make_token(TokenType::EqualEqual)
            } else {
                self.make_token(TokenType::Equal)
            }
        } else if c == '<' {
            if self.test('=') {
                self.make_token(TokenType::LessEqual)
            } else {
                self.make_token(TokenType::Less)
            }
        } else if c == '>' {
            if self.test('=') {
                self.make_token(TokenType::GreaterEqual)
            } else {
                self.make_token(TokenType::Greater)
            }
        } else if c == '"' {
            self.scan_string()?
        } else if is_alpha(c) {
            self.scan_keyword_or_identifier()
        } else if is_digit(c) {
            self.scan_number()
        } else {
            return failure("Unexpected character.");
        };
        Ok(Some(t))
    }
}

/// What the sixteen keywords are made of, for a word at hand: the word is a
/// keyword exactly if it begins with the keyword's first letters and goes on
/// with its rest.
pub proof fn lemma_keywords(word: Seq<char>)
    ensures
        word == "and"@ <==> word.len() == 3 && word[0] == 'a' && word.subrange(1, 3) == "nd"@,
        word == "class"@ <==> word.len() == 5 && word[0] == 'c' && word.subrange(1, 5) == "lass"@,
        word == "else"@ <==> word.len() == 4 && word[0] == 'e' && word.subrange(1, 4) == "lse"@,
        word == "false"@ <==> word.len() == 5 && word[0] == 'f' && word[1] == 'a' && word.subrange(
            2,
            5,
        ) == "lse"@,
        word == "for"@ <==> word.len() == 3 && word[0] == 'f' && word[1] == 'o' && word.subrange(
            2,
            3,
        ) == "r"@,
        word == "fun"@ <==> word.len() == 3 && word[0] == 'f' && word[1] == 'u' && word.subrange(
            2,
            3,
        ) == "n"@,
        word == "if"@ <==> word.len() == 2 && word[0] == 'i' && word.subrange(1, 2) == "f"@,
        word == "nil"@ <==> word.len() == 3 && word[0] == 'n' && word.subrange(1, 3) == "il"@,
        word == "or"@ <==> word.len() == 2 && word[0] == 'o' && word.subrange(1, 2) == "r"@,
        word == "print"@ <==> word.len() == 5 && word[0] == 'p' && word.subrange(1, 5) == "rint"@,
        word == "return"@ <==> word.len() == 6 && word[0] == 'r' && word.subrange(1, 6)
            == "eturn"@,
        word == "super"@ <==> word.len() == 5 && word[0] == 's' && word.subrange(1, 5) == "uper"@,
        word == "this"@ <==> word.len() == 4 && word[0] == 't' && word[1] == 'h' && word.subrange(
            2,
            4,
        ) == "is"@,
        word == "true"@ <==> word.len() == 4 && word[0] == 't' && word[1] == 'r' && word.subrange(
            2,
            4,
        ) == "ue"@,
        word == "var"@ <==> word.len() == 3 && word[0] == 'v' && word.subrange(1, 3) == "ar"@,
        word == "while"@ <==> word.len() == 5 && word[0] == 'w' && word.subrange(1, 5) == "hile"@,
        "nd"@.len() == 2,
        "lass"@.len() == 4,
        "lse"@.len() == 3,
        "r"@.len() == 1,
        "n"@.len() == 1,
        "f"@.len() == 1,
        "il"@.len() == 2,
        "rint"@.len() == 4,
        "eturn"@.len() == 5,
        "uper"@.len() == 4,
        "is"@.len() == 2,
        "ue"@.len() == 2,
        "ar"@.len() == 2,
        "hile"@.len() == 4,
{
    reveal_strlit("and");
    reveal_strlit("nd");
    reveal_strlit("class");
    reveal_strlit("lass");
    reveal_strlit("else");
    reveal_strlit("lse");
    reveal_strlit("false");
    reveal_strlit("for");
    reveal_strlit("r");
    reveal_strlit("fun");
    reveal_strlit("n");
    reveal_strlit("if");
    reveal_strlit("f");
    reveal_strlit("nil");
    reveal_strlit("il");
    reveal_strlit("or");
    reveal_strlit("print");
    reveal_strlit("rint");
    reveal_strlit("return");
    reveal_strlit("eturn");
    reveal_strlit("super");
    reveal_strlit("uper");
    reveal_strlit("this");
    reveal_strlit("is");
    reveal_strlit("true");
    reveal_strlit("ue");
    reveal_strlit("var");
    reveal_strlit("ar");
    reveal_strlit("while");
    reveal_strlit("hile");
    lemma_keyword(word, "and"@, 1, "nd"@);
    lemma_keyword(word, "class"@, 1, "lass"@);
    lemma_keyword(word, "else"@, 1, "lse"@);
    lemma_keyword(word, "false"@, 2, "lse"@);
    lemma_keyword(word, "for"@, 2, "r"@);
    lemma_keyword(word, "fun"@, 2, "n"@);
    lemma_keyword(word, "if"@, 1, "f"@);
    lemma_keyword(word, "nil"@, 1, "il"@);
    lemma_keyword(word, "or"@, 1, "r"@);
    lemma_keyword(word, "print"@, 1, "rint"@);
    lemma_keyword(word, "return"@, 1, "eturn"@);
    lemma_keyword(word, "super"@, 1, "uper"@);
    lemma_keyword(word, "this"@, 2, "is"@);
    lemma_keyword(word, "true"@, 2, "ue"@);
    lemma_keyword(word, "var"@, 1, "ar"@);
    lemma_keyword(word, "while"@, 1, "hile"@);
}

/// A word is a keyword exactly if it has the keyword's length, begins with
/// its first letters and goes on with its rest.
proof fn lemma_keyword(word: Seq<char>, keyword: Seq<char>, skip: int, rest: Seq<char>)
    requires
        0 <= skip <= 2,
        keyword.len() == skip + rest.len(),
        forall|i: int| 0 <= i < rest.len() ==> rest[i] == keyword[skip + i],
    ensures
        word == keyword <==> word.len() == keyword.len() && (skip >= 1 ==> word[0] == keyword[0])
            && (skip >= 2 ==> word[1] == keyword[1]) && word.subrange(skip, word.len() as int)
            == rest,
{
    if word == keyword {
        assert(word.subrange(skip, word.len() as int) =~= rest);
    }
    if word.len() == keyword.len() && (skip >= 1 ==> word[0] == keyword[0]) && (skip >= 2
        ==> word[1] == keyword[1]) && word.subrange(skip, word.len() as int) == rest {
        assert forall|i: int| 0 <= i < word.len() implies word[i] == keyword[i] by {
            if i >= skip {
                assert(word.subrange(skip, word.len() as int)[i - skip] == rest[i - skip]);
            }
        }
        assert(word =~= keyword);
    }
}

/// Skipping blanks never goes back, and never beyond the end of the text.
pub proof fn lemma_skip_blank(chars: Seq<char>, index: nat, line: nat, in_comment: bool)
    requires
        index <= chars.len(),
    ensures
        index <= skip_blank(chars, index, line, in_comment).index <= chars.len(),
    decreases chars.len() - index, (if in_comment {
        1nat
    } else {
        0nat
    }),
{
    if index < chars.len() {
        let c = chars[index as int];
        if in_comment {
            if c == '\n' {
                lemma_skip_blank(chars, index, line, false);
            } else {
                lemma_skip_blank(chars, index + 1, line, true);
            }
        } else if c == ' ' || c == '\r' || c == '\t' {
            lemma_skip_blank(chars, index + 1, line, false);
        } else if c == '\n' {
            lemma_skip_blank(chars, index + 1, bump(line), false);
        } else if c == '/' && index + 1 < chars.len() && chars[index + 1 as int] == '/' {
            lemma_skip_blank(chars, index + 2, line, true);
        }
    }
}

/// A run of digits ends at or after its start, inside the text.
pub proof fn lemma_digits_end(chars: Seq<char>, index: nat)
    requires
        index <= chars.len(),
    ensures
        index <= digits_end(chars, index) <= chars.len(),
    decreases chars.len() - index,
{
    if index < chars.len() && is_digit_spec(chars[index as int]) {
        lemma_digits_end(chars, index + 1);
    }
}

/// A word ends at or after its start, inside the text.
pub proof fn lemma_word_end(chars: Seq<char>, index: nat)
    requires
        index <= chars.len(),
    ensures
        index <= word_end(chars, index) <= chars.len(),
    decreases chars.len() - index,
{
    if index < chars.len() && (is_alpha_spec(chars[index as int]) || is_digit_spec(
        chars[index as int],
    )) {
        lemma_word_end(chars, index + 1);
    }
}

/// A string ends after its contents begin, inside the text.
pub proof fn lemma_string_end(chars: Seq<char>, index: nat, line: nat)
    requires
        index <= chars.len(),
    ensures
        match string_end(chars, index, line) {
            Some(end) => index < end.index <= chars.len(),
            None => true,
        },
    decreases chars.len() - index,
{
    if index < chars.len() && chars[index as int] != '"' {
        if chars[index as int] == '\n' {
            lemma_string_end(chars, index + 1, bump(line));
        } else {
            lemma_string_end(chars, index + 1, line);
        }
    }
}

/// A scan that finds a token moves on by at least one character, stays
/// inside the text, and gives the token the text it has passed over; a
/// string token has at least its two quotes.
pub proof fn lemma_scan(chars: Seq<char>, from: Place)
    requires
        from.index <= chars.len(),
    ensures
        match scan(chars, from).result {
            Ok(Some(token)) => from.index < scan(chars, from).place.index <= chars.len()
                && token.lexeme.len() == token.length && token.length >= 1 && (token.kind
                == TokenType::String ==> token.lexeme.len() >= 2),
            _ => true,
        },
{
    lemma_skip_blank(chars, from.index, from.line, false);
    let start = skip_blank(chars, from.index, from.line, false);
    if start.index < chars.len() {
        lemma_string_end(chars, start.index + 1, start.line);
        lemma_word_end(chars, start.index + 1);
        lemma_digits_end(chars, start.index + 1);
        let whole = digits_end(chars, start.index + 1);
        if whole + 1 < chars.len() {
            lemma_digits_end(chars, whole + 1);
        }
        let c = chars[start.index as int];
        let followed = start.index + 1 < chars.len() && chars[start.index + 1 as int] == '=';
        match punctuation(c, followed) {
            Some(kind) => {
                assert(kind != TokenType::String);
            },
            None => {
                if c != '"' && is_alpha_spec(c) {
                    lemma_keywords(
                        chars.subrange(
                            start.index as int,
                            word_end(chars, start.index + 1) as int,
                        ),
                    );
                }
            },
        }
    }
}

/// The tokens of the text from a place on, up to the end of the text or to
/// the first error, and that error.
pub open spec fn scan_all(chars: Seq<char>, from: Place) -> (Seq<TokenView>, Option<Seq<char>>)
    decreases chars.len() - from.index,
{
    let next = scan(chars, from);
    match next.result {
        Ok(Some(token)) => if from.index < next.place.index <= chars.len() {
            let rest = scan_all(chars, next.place);
            (seq![token] + rest.0, rest.1)
        } else {
            (seq![token], None)
        },
        Ok(None) => (Seq::empty(), None),
        Err(message) => (Seq::empty(), Some(message)),
    }
}

impl<'source> Scanner<'source> {
    /// Scans the rest of the text: the tokens up to the end of the text or
    /// to the first error, and that error.
    pub fn scan_all(&mut self) -> (r: (Vec<Token>, Option<String>))
        ensures
            r.0@.map_values(|token: Token| token@) == scan_all(
                old(self)@.chars,
                old(self)@.place,
            ).0,
            match scan_all(old(self)@.chars, old(self)@.place).1 {
                Some(message) => r.1.is_some() && r.1.unwrap()@ == message,
                None => r.1.is_none(),
            },
            forall|i: int|
                0 <= i < r.0.len() && (#[trigger] r.0[i]).token_type == TokenType::String
                    ==> r.0[i]@.lexeme.len() >= 2,
    {
        let mut tokens: Vec<Token> = Vec::new();
        let _ = self.position();
        let ghost chars = self@.chars;
        let ghost goal = scan_all(chars, self@.place);
        let ghost mut views: Seq<TokenView> = Seq::empty();
        loop
            invariant
                chars == old(self)@.chars,
                self@.chars == chars,
                self@.place.index <= chars.len(),
                views == tokens@.map_values(|token: Token| token@),
                goal == scan_all(old(self)@.chars, old(self)@.place),
                goal.0 == views + scan_all(chars, self@.place).0,
                goal.1 == scan_all(chars, self@.place).1,
                forall|i: int|
                    0 <= i < tokens.len() && (#[trigger] tokens[i]).token_type == TokenType::String
                        ==> tokens[i]@.lexeme.len() >= 2,
            decreases chars.len() - self@.place.index,
        {
            let ghost from = self@.place;
            proof {
                lemma_scan(chars, from);
            }
            match self.scan_token() {
                Ok(Some(token)) => {
                    proof {
                        assert(views + (seq![token@] + scan_all(chars, self@.place).0) =~= views.push(
                            token@,
                        ) + scan_all(chars, self@.place).0);
                        views = views.push(token@);
                    }
                    tokens.push(token);
                    assert(views =~= tokens@.map_values(|token: Token| token@));
                },
                Ok(None) => {
                    assert(views + Seq::<TokenView>::empty() =~= views);
                    return (tokens, None);
                },
                Err(message) => {
                    assert(views + Seq::<TokenView>::empty() =~= views);
                    return (tokens, Some(message));
                },
            }
        }
    }
}

} // verus!
