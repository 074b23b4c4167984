//! What the compiler makes of a sequence of tokens: the grammar of the
//! language and the bytecode of each of its forms, as functions from the
//! state of the compiler to its next state.

use vstd::prelude::*;
use crate::chunk::{ChunkView, Op};
use crate::compiler::{all_wf, resolve_upvalue, CompilerView};
use crate::inspector::InspectorView;
use crate::scopes::ScopesView;
use crate::token::{ParseFn, Precedence, TokenType, TokenView};
use crate::value::{FunctionKindView, FunctionView, ValueView};

verus! {

/// What the compiler reads: the tokens of the source text, the error that
/// ended the scan if one did, and the 64-bit pattern of each number that is
/// written in the text.
pub struct Input {
    pub tokens: Seq<TokenView>,
    pub lex_error: Option<Seq<char>>,
    pub numerals: Map<Seq<char>, u64>,
}

/// The state of the compiler: how many tokens it has loaded, the compilers
/// of the functions it is inside of, the innermost last, and its observer.
pub struct State {
    pub loaded: nat,
    pub compilers: Seq<CompilerView>,
    pub inspector: Option<InspectorView>,
}

/// The next state, or the message of the error that ended the compilation.
pub type Outcome = Result<State, Seq<char>>;

impl Input {
    /// Every string token has its two quotes.
    pub open spec fn wf(self) -> bool {
        forall|i: int|
            0 <= i < self.tokens.len() && (#[trigger] self.tokens[i]).kind == TokenType::String
                ==> self.tokens[i].lexeme.len() >= 2
    }
}

impl State {
    /// The state before the first token is loaded.
    pub open spec fn start(inspector: Option<InspectorView>) -> State {
        State { loaded: 0, compilers: seq![CompilerView::script()], inspector }
    }

    /// There is a compiler, and every compiler is well formed.
    pub open spec fn wf(self) -> bool {
        self.compilers.len() >= 1 && all_wf(self.compilers)
    }

    /// The token that comes next.
    pub open spec fn peek(self, input: Input) -> Option<TokenView> {
        if 1 <= self.loaded <= input.tokens.len() {
            Some(input.tokens[self.loaded - 1])
        } else {
            None
        }
    }

    /// How many more times a token can be loaded.
    pub open spec fn remaining(self, input: Input) -> nat {
        if self.loaded <= input.tokens.len() {
            (input.tokens.len() + 1 - self.loaded) as nat
        } else {
            0
        }
    }

    /// Loading the next token: the state after it, and the token that came
    /// next before. Where the scan ended with an error, loading beyond the
    /// last token fails with it.
    pub open spec fn advance(self, input: Input) -> Result<(State, Option<TokenView>), Seq<char>> {
        if self.loaded < input.tokens.len() {
            Ok((State { loaded: self.loaded + 1, ..self }, self.peek(input)))
        } else if self.loaded == input.tokens.len() {
            match input.lex_error {
                Some(message) => Err(message),
                None => Ok((State { loaded: self.loaded + 1, ..self }, self.peek(input))),
            }
        } else {
            Ok((self, None))
        }
    }

    /// Whether the next token is of a kind.
    pub open spec fn check(self, input: Input, kind: TokenType) -> bool {
        match self.peek(input) {
            Some(token) => token.kind == kind,
            None => false,
        }
    }

    pub open spec fn is_end(self, input: Input) -> bool {
        self.peek(input).is_none()
    }

    /// Taking the next token, which has to be of a kind.
    pub open spec fn eat(self, input: Input, kind: TokenType, message: Seq<char>) -> Result<
        (State, TokenView),
        Seq<char>,
    > {
        if self.check(input, kind) {
            match self.advance(input) {
                Ok((next, token)) => Ok((next, token.unwrap())),
                Err(message) => Err(message),
            }
        } else {
            Err(message)
        }
    }

    /// Taking the next token, which has to be of a kind, and dropping it.
    pub open spec fn expect(self, input: Input, kind: TokenType, message: Seq<char>) -> Outcome {
        match self.eat(input, kind, message) {
            Ok((next, _)) => Ok(next),
            Err(message) => Err(message),
        }
    }

    /// Taking the next token if it is of a kind.
    pub open spec fn match_token(self, input: Input, kind: TokenType) -> Result<
        (State, bool),
        Seq<char>,
    > {
        if self.check(input, kind) {
            match self.advance(input) {
                Ok((next, _)) => Ok((next, true)),
                Err(message) => Err(message),
            }
        } else {
            Ok((self, false))
        }
    }

    /// The compiler of the innermost function.
    pub open spec fn current(self) -> CompilerView {
        self.compilers.last()
    }

    pub open spec fn with_current(self, compiler: CompilerView) -> State {
        State { compilers: self.compilers.update(self.compilers.len() - 1, compiler), ..self }
    }

    pub open spec fn chunk(self) -> ChunkView {
        self.current().chunk()
    }

    pub open spec fn with_chunk(self, chunk: ChunkView) -> State {
        self.with_current(self.current().with_chunk(chunk))
    }

    pub open spec fn scopes(self) -> ScopesView {
        self.current().scopes
    }

    pub open spec fn with_scopes(self, scopes: ScopesView) -> State {
        self.with_current(self.current().with_scopes(scopes))
    }

    pub open spec fn emit(self, bytes: Seq<u8>) -> State {
        self.with_chunk(self.chunk().emit(bytes))
    }

    pub open spec fn emit_op(self, op: Op) -> State {
        self.emit(seq![op.byte_spec()])
    }

    /// An instruction with a one-byte operand.
    pub open spec fn emit_pair(self, op: Op, operand: u8) -> State {
        self.emit(seq![op.byte_spec(), operand])
    }

    pub open spec fn code_len(self) -> Result<u16, Seq<char>> {
        self.chunk().code_len()
    }

    pub open spec fn add_constant(self, constant: ValueView) -> Result<(State, u8), Seq<char>> {
        match self.chunk().add_constant(constant) {
            Ok((chunk, index)) => Ok((self.with_chunk(chunk), index)),
            Err(message) => Err(message),
        }
    }

    pub open spec fn emit_constant(self, constant: ValueView) -> Outcome {
        match self.chunk().emit_constant(constant) {
            Ok(chunk) => Ok(self.with_chunk(chunk)),
            Err(message) => Err(message),
        }
    }

    pub open spec fn emit_jump(self, op: Op) -> Result<(State, u16), Seq<char>> {
        match self.chunk().emit_jump(op) {
            Ok((chunk, at)) => Ok((self.with_chunk(chunk), at)),
            Err(message) => Err(message),
        }
    }

    pub open spec fn patch_jump(self, at: u16) -> Outcome {
        match self.chunk().try_patch_jump(at) {
            Ok(chunk) => Ok(self.with_chunk(chunk)),
            Err(message) => Err(message),
        }
    }

    pub open spec fn emit_loop(self, start: u16) -> Outcome {
        match self.chunk().emit_loop(start) {
            Ok(chunk) => Ok(self.with_chunk(chunk)),
            Err(message) => Err(message),
        }
    }

    pub open spec fn begin_scope(self) -> State {
        self.with_scopes(self.scopes().push())
    }

    /// Closing the innermost block: one `Pop` for each of its local
    /// variables.
    pub open spec fn end_scope(self) -> State {
        if self.scopes().scopes.len() == 0 {
            self
        } else {
            self.with_scopes(self.scopes().pop()).emit(pops(self.scopes().scopes.last().len()))
        }
    }

    /// Entering a function: a fresh compiler on top of the others.
    pub open spec fn function_compiler(self, name: Seq<char>) -> State {
        State { compilers: self.compilers.push(CompilerView::function(name)), ..self }
    }

    /// The function that `end_compiler` gives: the innermost function with
    /// `Nil` and `Return` at its end.
    pub open spec fn finished(self) -> FunctionView {
        self.emit_op(Op::Nil).emit_op(Op::Return).current().end()
    }

    /// Leaving a function: its compiler goes, and the observer keeps the
    /// function.
    pub open spec fn end_compiler(self) -> State {
        State {
            loaded: self.loaded,
            compilers: self.compilers.drop_last(),
            inspector: match self.inspector {
                Some(inspector) => Some(inspector.catch_bytecode(self.finished())),
                None => None,
            },
        }
    }

    /// Declaring a local variable; a block cannot declare a name twice.
    pub open spec fn parse_local_variable(self, name: Seq<char>) -> Outcome {
        if self.scopes().current_has(name) == Some(true) {
            Err("Already a variable with this name in this scope."@)
        } else {
            match self.scopes().define_uninit_local(name) {
                Ok(scopes) => Ok(self.with_scopes(scopes)),
                Err(message) => Err(message),
            }
        }
    }

    pub open spec fn mark_init_local(self, name: Seq<char>) -> State {
        self.with_scopes(self.scopes().mark_init_local(name))
    }
}

/// `count` instructions `Pop`.
pub open spec fn pops(count: nat) -> Seq<u8> {
    Seq::new(count, |i: int| Op::Pop.byte_spec())
}

/// A construct never gives back a token that was loaded before it: the
/// outcome of one that begins in the state `before`, as long as it says so.
pub open spec fn keep(before: State, outcome: Outcome) -> Outcome {
    match outcome {
        Ok(after) => if after.loaded >= before.loaded {
            Ok(after)
        } else {
            Err(Seq::empty())
        },
        Err(message) => Err(message),
    }
}

/// The text of a string token without its quotes.
pub open spec fn string_contents(lexeme: Seq<char>) -> Seq<char> {
    lexeme.subrange(1, lexeme.len() - 1)
}

/// The instructions of a binary operator. `!=`, `>=` and `<=` are the
/// negations of `==`, `<` and `>`.
pub open spec fn binary_ops(kind: TokenType) -> Seq<u8> {
    match kind {
        TokenType::BangEqual => seq![Op::Equal.byte_spec(), Op::Not.byte_spec()],
        TokenType::EqualEqual => seq![Op::Equal.byte_spec()],
        TokenType::Greater => seq![Op::Greater.byte_spec()],
        TokenType::GreaterEqual => seq![Op::Less.byte_spec(), Op::Not.byte_spec()],
        TokenType::Less => seq![Op::Less.byte_spec()],
        TokenType::LessEqual => seq![Op::Greater.byte_spec(), Op::Not.byte_spec()],
        TokenType::Plus => seq![Op::Add.byte_spec()],
        TokenType::Minus => seq![Op::Subtract.byte_spec()],
        TokenType::Star => seq![Op::Multiply.byte_spec()],
        TokenType::Slash => seq![Op::Divide.byte_spec()],
        _ => Seq::empty(),
    }
}

/// Whether a token can be a binary operator.
pub open spec fn is_binary(kind: TokenType) -> bool {
    kind == TokenType::BangEqual || kind == TokenType::EqualEqual || kind == TokenType::Greater
        || kind == TokenType::GreaterEqual || kind == TokenType::Less || kind
        == TokenType::LessEqual || kind == TokenType::Plus || kind == TokenType::Minus || kind
        == TokenType::Star || kind == TokenType::Slash
}

/// The instruction of a unary operator.
pub open spec fn unary_op(kind: TokenType) -> Op {
    if kind == TokenType::Bang {
        Op::Not
    } else {
        Op::Negate
    }
}

/// The instruction of `nil`, `true` or `false`.
pub open spec fn literal_op(kind: TokenType) -> Op {
    if kind == TokenType::Nil {
        Op::Nil
    } else if kind == TokenType::False {
        Op::False
    } else {
        Op::True
    }
}

/// Whether a way to parse fits a kind of token: `literal` is for `nil`,
/// `true` and `false`, `unary` for `!` and `-`, `binary` for the binary
/// operators.
pub open spec fn fits(parse_fn: ParseFn, kind: TokenType) -> bool {
    match parse_fn {
        ParseFn::Literal => kind == TokenType::Nil || kind == TokenType::False || kind
            == TokenType::True,
        ParseFn::Unary => kind == TokenType::Bang || kind == TokenType::Minus,
        ParseFn::Binary => is_binary(kind),
        _ => true,
    }
}

/// How a variable is reached.
pub enum Access {
    Local(u8),
    Upvalue(u8),
    Global,
}

/// A number: the constant with the pattern that the text of the token
/// stands for.
pub open spec fn number(input: Input, s: State, token: TokenView) -> Outcome {
    if input.numerals.contains_key(token.lexeme) {
        s.emit_constant(ValueView::Number(input.numerals[token.lexeme]))
    } else {
        Err("ParseFloatError"@)
    }
}

/// A string: the constant with the text between the quotes.
pub open spec fn string(s: State, token: TokenView) -> Outcome {
    s.emit_constant(ValueView::String(string_contents(token.lexeme)))
}

/// `nil`, `true`, `false`.
pub open spec fn literal(s: State, token: TokenView) -> Outcome {
    Ok(s.emit_op(literal_op(token.kind)))
}

/// An expression.
pub open spec fn expression(input: Input, s: State) -> Outcome
    decreases s.remaining(input), 1nat,
{
    parse_precedence(input, s, Precedence::Assignment)
}

/// An expression whose operators bind at least as tightly as
/// `precedence`: the token that begins it, the operators that continue it;
/// an `=` that is left over where an assignment could stand has no
/// target. At the end of the tokens nothing is compiled.
pub open spec fn parse_precedence(input: Input, s: State, precedence: Precedence) -> Outcome
    decreases s.remaining(input), 0nat,
{
    match s.advance(input) {
        Err(message) => Err(message),
        Ok((s1, None)) => Ok(s1),
        Ok((s1, Some(token))) => match token.kind.rule_spec().prefix {
            None => Err("Expect expression."@),
            Some(prefix) => {
                let can_assign = precedence.rank_spec() <= Precedence::Assignment.rank_spec();
                if s1.remaining(input) < s.remaining(input) {
                    match keep(s1, dispatch(input, s1, prefix, token, can_assign)) {
                        Err(message) => Err(message),
                        Ok(s2) => match keep(s2, infix_loop(input, s2, precedence, can_assign)) {
                            Err(message) => Err(message),
                            Ok(s3) => if can_assign {
                                match s3.match_token(input, TokenType::Equal) {
                                    Err(message) => Err(message),
                                    Ok((s4, true)) => Err("Invalid assignment target."@),
                                    Ok((s4, false)) => Ok(s4),
                                }
                            } else {
                                Ok(s3)
                            },
                        },
                    }
                } else {
                    Err(Seq::empty())
                }
            },
        },
    }
}

/// The operators that continue an expression: while the next token binds
/// at least as tightly as `precedence`, it is taken and what it stands for
/// is compiled.
pub open spec fn infix_loop(input: Input, s: State, precedence: Precedence, can_assign: bool) -> Outcome
    decreases s.remaining(input), 3nat,
{
    match s.peek(input) {
        None => Ok(s),
        Some(next) => if precedence.rank_spec() <= next.kind.rule_spec().precedence.rank_spec() {
            match s.advance(input) {
                Err(message) => Err(message),
                Ok((s1, None)) => Ok(s1),
                Ok((s1, Some(token))) => match token.kind.rule_spec().infix {
                    None => Err("Expect expression."@),
                    Some(infix) => if s1.remaining(input) < s.remaining(input) {
                        match keep(s1, dispatch(input, s1, infix, token, can_assign)) {
                            Err(message) => Err(message),
                            Ok(s2) => infix_loop(input, s2, precedence, can_assign),
                        }
                    } else {
                        Err(Seq::empty())
                    },
                },
            }
        } else {
            Ok(s)
        },
    }
}

/// What a token stands for, by the way to parse it.
pub open spec fn dispatch(
    input: Input,
    s: State,
    parse_fn: ParseFn,
    token: TokenView,
    can_assign: bool,
) -> Outcome
    decreases s.remaining(input), 4nat,
{
    match parse_fn {
        ParseFn::Grouping => grouping(input, s),
        ParseFn::Call => call(input, s),
        ParseFn::Unary => unary(input, s, token),
        ParseFn::Binary => binary(input, s, token),
        ParseFn::Variable => variable(input, s, token, can_assign),
        ParseFn::String => string(s, token),
        ParseFn::Number => number(input, s, token),
        ParseFn::Literal => literal(s, token),
        ParseFn::And => and(input, s),
        ParseFn::Or => or(input, s),
    }
}

/// An expression in parentheses, after its `(`.
pub open spec fn grouping(input: Input, s: State) -> Outcome
    decreases s.remaining(input), 2nat,
{
    match keep(s, expression(input, s)) {
        Err(message) => Err(message),
        Ok(s1) => s1.expect(input, TokenType::RightParen, "Expect ')' after expression."@),
    }
}

/// The operand of a unary operator, then its instruction.
pub open spec fn unary(input: Input, s: State, token: TokenView) -> Outcome
    decreases s.remaining(input), 2nat,
{
    match parse_precedence(input, s, Precedence::Unary) {
        Err(message) => Err(message),
        Ok(s1) => Ok(s1.emit_op(unary_op(token.kind))),
    }
}

/// The right operand of a binary operator, which binds more tightly than
/// the operator, then the operator's instructions.
pub open spec fn binary(input: Input, s: State, token: TokenView) -> Outcome
    decreases s.remaining(input), 2nat,
{
    match parse_precedence(input, s, token.kind.rule_spec().precedence.up_spec()) {
        Err(message) => Err(message),
        Ok(s1) => Ok(s1.emit(binary_ops(token.kind))),
    }
}

/// The right operand of `and`: it is skipped where the left one is falsey.
pub open spec fn and(input: Input, s: State) -> Outcome
    decreases s.remaining(input), 2nat,
{
    match s.emit_jump(Op::JumpIfFalse) {
        Err(message) => Err(message),
        Ok((s1, end_jump)) => match parse_precedence(
            input,
            s1.emit_op(Op::Pop),
            Precedence::And,
        ) {
            Err(message) => Err(message),
            Ok(s2) => s2.patch_jump(end_jump),
        },
    }
}

/// The right operand of `or`: it is skipped where the left one is truthy.
pub open spec fn or(input: Input, s: State) -> Outcome
    decreases s.remaining(input), 2nat,
{
    match s.emit_jump(Op::JumpIfFalse) {
        Err(message) => Err(message),
        Ok((s1, else_jump)) => match s1.emit_jump(Op::Jump) {
            Err(message) => Err(message),
            Ok((s2, end_jump)) => match s2.patch_jump(else_jump) {
                Err(message) => Err(message),
                Ok(s3) => match parse_precedence(input, s3.emit_op(Op::Pop), Precedence::Or) {
                    Err(message) => Err(message),
                    Ok(s4) => s4.patch_jump(end_jump),
                },
            },
        },
    }
}

/// The arguments of a call after its `(`, then the call.
pub open spec fn call(input: Input, s: State) -> Outcome
    decreases s.remaining(input), 3nat,
{
    if s.check(input, TokenType::RightParen) {
        finish_call(input, s, 0)
    } else {
        match arguments(input, s, 0) {
            Err(message) => Err(message),
            Ok((s1, count)) => finish_call(input, s1, count),
        }
    }
}

/// The `)` of a call, and the `Call` instruction.
pub open spec fn finish_call(input: Input, s: State, count: u8) -> Outcome {
    match s.expect(input, TokenType::RightParen, "Expect ')' after arguments."@) {
        Err(message) => Err(message),
        Ok(s1) => Ok(s1.emit_pair(Op::Call, count)),
    }
}

/// The arguments of a call that follow `count` others: expressions
/// separated by commas, at most 255 in all. The result carries their number.
pub open spec fn arguments(input: Input, s: State, count: u8) -> Result<(State, u8), Seq<char>>
    decreases s.remaining(input), 2nat,
{
    match keep(s, expression(input, s)) {
        Err(message) => Err(message),
        Ok(s1) => if count == 255 {
            Err("Can't have more than 255 arguments."@)
        } else {
            match s1.match_token(input, TokenType::Comma) {
                Err(message) => Err(message),
                Ok((s2, true)) => if s2.remaining(input) < s.remaining(input) {
                    arguments(input, s2, (count + 1) as u8)
                } else {
                    Err(Seq::empty())
                },
                Ok((s2, false)) => Ok((s2, (count + 1) as u8)),
            }
        },
    }
}

/// How a name is reached, and the state after the captures that reaching it
/// takes have been noted: a local variable of the function, a variable of
/// an enclosing function, or else a global.
pub open spec fn resolve(s: State, name: Seq<char>) -> Result<(State, Access), Seq<char>> {
    match s.scopes().resolve_local(name) {
        Err(message) => Err(message),
        Ok(Some(local)) => Ok((s, Access::Local(local.index))),
        Ok(None) => match resolve_upvalue(s.compilers, name) {
            Err(message) => Err(message),
            Ok((compilers, Some(at))) => Ok((State { compilers, ..s }, Access::Upvalue(at))),
            Ok((compilers, None)) => Ok((State { compilers, ..s }, Access::Global)),
        },
    }
}

/// A variable: read, or assigned where an assignment can stand and `=`
/// follows. A global is named by a constant, which is added before the
/// assigned expression is compiled.
pub open spec fn variable(input: Input, s: State, token: TokenView, can_assign: bool) -> Outcome
    decreases s.remaining(input), 2nat,
{
    match (if can_assign {
        s.match_token(input, TokenType::Equal)
    } else {
        Ok((s, false))
    }) {
        Err(message) => Err(message),
        Ok((s1, is_set)) => match resolve(s1, token.lexeme) {
            Err(message) => Err(message),
            Ok((s2, Access::Local(index))) => if is_set {
                match expression(input, s2) {
                    Err(message) => Err(message),
                    Ok(s3) => Ok(s3.emit_pair(Op::SetLocal, index)),
                }
            } else {
                Ok(s2.emit_pair(Op::GetLocal, index))
            },
            Ok((s2, Access::Upvalue(index))) => if is_set {
                match expression(input, s2) {
                    Err(message) => Err(message),
                    Ok(s3) => Ok(s3.emit_pair(Op::SetUpvalue, index)),
                }
            } else {
                Ok(s2.emit_pair(Op::GetUpvalue, index))
            },
            Ok((s2, Access::Global)) => match s2.add_constant(ValueView::String(token.lexeme)) {
                Err(message) => Err(message),
                Ok((s3, global)) => if is_set {
                    match expression(input, s3) {
                        Err(message) => Err(message),
                        Ok(s4) => Ok(s4.emit_pair(Op::SetGlobal, global)),
                    }
                } else {
                    Ok(s3.emit_pair(Op::GetGlobal, global))
                },
            },
        },
    }
}

/// `print` statement, after the keyword.
pub open spec fn print_statement(input: Input, s: State) -> Outcome
    decreases s.remaining(input), 4nat,
{
    match keep(s, expression(input, s)) {
        Err(message) => Err(message),
        Ok(s1) => match s1.expect(input, TokenType::Semicolon, "Expect ';' after value."@) {
            Err(message) => Err(message),
            Ok(s2) => Ok(s2.emit_op(Op::Print)),
        },
    }
}

/// An expression as a statement: its value is dropped.
pub open spec fn expression_statement(input: Input, s: State) -> Outcome
    decreases s.remaining(input), 4nat,
{
    match keep(s, expression(input, s)) {
        Err(message) => Err(message),
        Ok(s1) => match s1.expect(input, TokenType::Semicolon, "Expect ';' after expression."@) {
            Err(message) => Err(message),
            Ok(s2) => Ok(s2.emit_op(Op::Pop)),
        },
    }
}

/// `if` statement, after the keyword. The condition stays on the stack
/// over the jump, and each branch drops it.
pub open spec fn if_statement(input: Input, s: State) -> Outcome
    decreases s.remaining(input), 4nat,
{
    match s.expect(input, TokenType::LeftParen, "Expect '(' after 'if'."@) {
        Err(message) => Err(message),
        Ok(s1) => match keep(s1, expression(input, s1)) {
            Err(message) => Err(message),
            Ok(s2) => match s2.expect(input, TokenType::RightParen, "Expect ')' after condition."@) {
                Err(message) => Err(message),
                Ok(s3) => match s3.emit_jump(Op::JumpIfFalse) {
                    Err(message) => Err(message),
                    Ok((s4, then_jump)) => match keep(
                        s4,
                        statement(input, s4.emit_op(Op::Pop)),
                    ) {
                        Err(message) => Err(message),
                        Ok(s5) => match s5.emit_jump(Op::Jump) {
                            Err(message) => Err(message),
                            Ok((s6, else_jump)) => match s6.patch_jump(then_jump) {
                                Err(message) => Err(message),
                                Ok(s7) => match s7.emit_op(Op::Pop).match_token(
                                    input,
                                    TokenType::Else,
                                ) {
                                    Err(message) => Err(message),
                                    Ok((s8, true)) => match statement(input, s8) {
                                        Err(message) => Err(message),
                                        Ok(s9) => s9.patch_jump(else_jump),
                                    },
                                    Ok((s8, false)) => s8.patch_jump(else_jump),
                                },
                            },
                        },
                    },
                },
            },
        },
    }
}

/// `return` statement, after the keyword; the script cannot return.
pub open spec fn return_statement(input: Input, s: State) -> Outcome
    decreases s.remaining(input), 4nat,
{
    if s.current().function.kind == FunctionKindView::Script {
        Err("Can't return from top-level code."@)
    } else {
        match s.match_token(input, TokenType::Semicolon) {
            Err(message) => Err(message),
            Ok((s1, true)) => Ok(s1.emit_op(Op::Nil).emit_op(Op::Return)),
            Ok((s1, false)) => match keep(s1, expression(input, s1)) {
                Err(message) => Err(message),
                Ok(s2) => match s2.expect(
                    input,
                    TokenType::Semicolon,
                    "Expect ';' after return value."@,
                ) {
                    Err(message) => Err(message),
                    Ok(s3) => Ok(s3.emit_op(Op::Return)),
                },
            },
        }
    }
}

/// `while` statement, after the keyword.
pub open spec fn while_statement(input: Input, s: State) -> Outcome
    decreases s.remaining(input), 4nat,
{
    match s.code_len() {
        Err(message) => Err(message),
        Ok(loop_start) => match s.expect(input, TokenType::LeftParen, "Expect '(' after 'while'."@) {
            Err(message) => Err(message),
            Ok(s1) => match keep(s1, expression(input, s1)) {
                Err(message) => Err(message),
                Ok(s2) => match s2.expect(
                    input,
                    TokenType::RightParen,
                    "Expect ')' after condition."@,
                ) {
                    Err(message) => Err(message),
                    Ok(s3) => match s3.emit_jump(Op::JumpIfFalse) {
                        Err(message) => Err(message),
                        Ok((s4, exit_jump)) => match statement(input, s4.emit_op(Op::Pop)) {
                            Err(message) => Err(message),
                            Ok(s5) => match s5.emit_loop(loop_start) {
                                Err(message) => Err(message),
                                Ok(s6) => match s6.patch_jump(exit_jump) {
                                    Err(message) => Err(message),
                                    Ok(s7) => Ok(s7.emit_op(Op::Pop)),
                                },
                            },
                        },
                    },
                },
            },
        },
    }
}

/// The first clause of a `for` statement: nothing, a variable declaration,
/// or an expression.
pub open spec fn for_initializer(input: Input, s: State) -> Outcome
    decreases s.remaining(input), 5nat,
{
    match s.match_token(input, TokenType::Semicolon) {
        Err(message) => Err(message),
        Ok((s1, true)) => Ok(s1),
        Ok((s1, false)) => match s1.match_token(input, TokenType::Var) {
            Err(message) => Err(message),
            Ok((s2, true)) => var_declaration(input, s2),
            Ok((s2, false)) => expression_statement(input, s2),
        },
    }
}

/// The second clause of a `for` statement: the condition, if there is one,
/// with the jump that leaves the loop. The result carries the place of
/// that jump.
pub open spec fn for_condition(input: Input, s: State) -> Result<(State, Option<u16>), Seq<char>>
    decreases s.remaining(input), 5nat,
{
    match s.match_token(input, TokenType::Semicolon) {
        Err(message) => Err(message),
        Ok((s1, true)) => Ok((s1, None)),
        Ok((s1, false)) => match keep(s1, expression(input, s1)) {
            Err(message) => Err(message),
            Ok(s2) => match s2.expect(
                input,
                TokenType::Semicolon,
                "Expect ';' after loop condition."@,
            ) {
                Err(message) => Err(message),
                Ok(s3) => match s3.emit_jump(Op::JumpIfFalse) {
                    Err(message) => Err(message),
                    Ok((s4, exit_jump)) => Ok((s4.emit_op(Op::Pop), Some(exit_jump))),
                },
            },
        },
    }
}

/// The third clause of a `for` statement: the increment, if there is one.
/// It stands before the body in the code and runs after it: the body
/// loops back to the increment, and the increment to the condition. The
/// result carries the place that the body loops back to.
pub open spec fn for_increment(input: Input, s: State, loop_start: u16) -> Result<
    (State, u16),
    Seq<char>,
>
    decreases s.remaining(input), 5nat,
{
    match s.match_token(input, TokenType::RightParen) {
        Err(message) => Err(message),
        Ok((s1, true)) => Ok((s1, loop_start)),
        Ok((s1, false)) => match s1.emit_jump(Op::Jump) {
            Err(message) => Err(message),
            Ok((s2, body_jump)) => match s2.code_len() {
                Err(message) => Err(message),
                Ok(increment_start) => match keep(s2, expression(input, s2)) {
                    Err(message) => Err(message),
                    Ok(s3) => match s3.emit_op(Op::Pop).expect(
                        input,
                        TokenType::RightParen,
                        "Expect ')' after for clauses."@,
                    ) {
                        Err(message) => Err(message),
                        Ok(s4) => match s4.emit_loop(loop_start) {
                            Err(message) => Err(message),
                            Ok(s5) => match s5.patch_jump(body_jump) {
                                Err(message) => Err(message),
                                Ok(s6) => Ok((s6, increment_start)),
                            },
                        },
                    },
                },
            },
        },
    }
}

/// `for` statement, after the keyword. Its clauses have a scope of their
/// own.
pub open spec fn for_statement(input: Input, s: State) -> Outcome
    decreases s.remaining(input), 6nat,
{
    match s.begin_scope().expect(input, TokenType::LeftParen, "Expect '(' after 'for'."@) {
        Err(message) => Err(message),
        Ok(s1) => match keep(s1, for_initializer(input, s1)) {
            Err(message) => Err(message),
            Ok(s2) => match s2.code_len() {
                Err(message) => Err(message),
                Ok(loop_start) => match for_condition(input, s2) {
                    Err(message) => Err(message),
                    Ok((s3, exit_jump)) => if s3.loaded >= s2.loaded {
                        match for_increment(input, s3, loop_start) {
                            Err(message) => Err(message),
                            Ok((s4, loop_start)) => if s4.loaded >= s3.loaded {
                                match statement(input, s4) {
                                    Err(message) => Err(message),
                                    Ok(s5) => match s5.emit_loop(loop_start) {
                                        Err(message) => Err(message),
                                        Ok(s6) => match exit_jump {
                                            Some(exit_jump) => match s6.patch_jump(exit_jump) {
                                                Err(message) => Err(message),
                                                Ok(s7) => Ok(s7.emit_op(Op::Pop).end_scope()),
                                            },
                                            None => Ok(s6.end_scope()),
                                        },
                                    },
                                }
                            } else {
                                Err(Seq::empty())
                            },
                        }
                    } else {
                        Err(Seq::empty())
                    },
                },
            },
        },
    }
}

/// A statement.
pub open spec fn statement(input: Input, s: State) -> Outcome
    decreases s.remaining(input), 7nat,
{
    match s.match_token(input, TokenType::Print) {
        Err(message) => Err(message),
        Ok((s1, true)) => print_statement(input, s1),
        Ok((s1, false)) => match s1.match_token(input, TokenType::If) {
            Err(message) => Err(message),
            Ok((s2, true)) => if_statement(input, s2),
            Ok((s2, false)) => match s2.match_token(input, TokenType::Return) {
                Err(message) => Err(message),
                Ok((s3, true)) => return_statement(input, s3),
                Ok((s3, false)) => match s3.match_token(input, TokenType::While) {
                    Err(message) => Err(message),
                    Ok((s4, true)) => while_statement(input, s4),
                    Ok((s4, false)) => match s4.match_token(input, TokenType::For) {
                        Err(message) => Err(message),
                        Ok((s5, true)) => for_statement(input, s5),
                        Ok((s5, false)) => match s5.match_token(input, TokenType::LeftBrace) {
                            Err(message) => Err(message),
                            Ok((s6, true)) => match block(input, s6.begin_scope()) {
                                Err(message) => Err(message),
                                Ok(s7) => Ok(s7.end_scope()),
                            },
                            Ok((s6, false)) => expression_statement(input, s6),
                        },
                    },
                },
            },
        },
    }
}

/// The declarations of a block after its `{`, and its `}`.
pub open spec fn block(input: Input, s: State) -> Outcome
    decreases s.remaining(input), 9nat,
{
    if !s.is_end(input) && !s.check(input, TokenType::RightBrace) {
        match declaration(input, s) {
            Err(message) => Err(message),
            Ok(s1) => if s1.remaining(input) < s.remaining(input) {
                block(input, s1)
            } else {
                Err(Seq::empty())
            },
        }
    } else {
        s.expect(input, TokenType::RightBrace, "Expect '}' after block."@)
    }
}

/// The parameters of a function that follow `s`: names separated by
/// commas, each a local variable of the function, at most 255 in all.
pub open spec fn parameters(input: Input, s: State) -> Outcome
    decreases s.remaining(input),
{
    if s.current().function.arity == 255 {
        Err("Can't have more than 255 parameters."@)
    } else {
        let counted = s.with_current(
            CompilerView {
                function: FunctionView {
                    arity: (s.current().function.arity + 1) as u8,
                    ..s.current().function
                },
                ..s.current()
            },
        );
        match counted.eat(input, TokenType::Identifier, "Expect parameter name."@) {
            Err(message) => Err(message),
            Ok((s1, token)) => match s1.parse_local_variable(token.lexeme) {
                Err(message) => Err(message),
                Ok(s2) => match s2.mark_init_local(token.lexeme).match_token(
                    input,
                    TokenType::Comma,
                ) {
                    Err(message) => Err(message),
                    Ok((s3, true)) => if s3.remaining(input) < s.remaining(input) {
                        parameters(input, s3)
                    } else {
                        Err(Seq::empty())
                    },
                    Ok((s3, false)) => Ok(s3),
                },
            },
        }
    }
}

/// A function after its name: the parameters and the body are compiled by
/// a compiler of their own, and the enclosing function gets the
/// instruction that builds the closure.
pub open spec fn function(input: Input, s: State, name: Seq<char>) -> Outcome
    decreases s.remaining(input), 8nat,
{
    match s.function_compiler(name).begin_scope().expect(
        input,
        TokenType::LeftParen,
        "Expect '(' after function name."@,
    ) {
        Err(message) => Err(message),
        Ok(s1) => match (if s1.check(input, TokenType::RightParen) {
            Ok(s1)
        } else {
            parameters(input, s1)
        }) {
            Err(message) => Err(message),
            Ok(s2) => match s2.expect(input, TokenType::RightParen, "Expect ')' after parameters."@) {
                Err(message) => Err(message),
                Ok(s3) => match s3.expect(
                    input,
                    TokenType::LeftBrace,
                    "Expect '{' before function body."@,
                ) {
                    Err(message) => Err(message),
                    Ok(s4) => if s4.remaining(input) < s.remaining(input) {
                        match block(input, s4) {
                            Err(message) => Err(message),
                            Ok(s5) => {
                                let s6 = s5.end_compiler();
                                match s6.chunk().emit_closure(s5.finished(), s5.current().upvalues) {
                                    Err(message) => Err(message),
                                    Ok(chunk) => Ok(s6.with_chunk(chunk)),
                                }
                            },
                        }
                    } else {
                        Err(Seq::empty())
                    },
                },
            },
        },
    }
}

/// `fun` declaration, after the keyword. Outside every block the function
/// is a global; inside a block it is a local variable that is initialized
/// before its body is compiled, so that the body can name it.
pub open spec fn fun_declaration(input: Input, s: State) -> Outcome
    decreases s.remaining(input), 9nat,
{
    match s.eat(input, TokenType::Identifier, "Expect function name."@) {
        Err(message) => Err(message),
        Ok((s1, token)) => if s1.scopes().scopes.len() == 0 {
            match s1.add_constant(ValueView::String(token.lexeme)) {
                Err(message) => Err(message),
                Ok((s2, global)) => match function(input, s2, token.lexeme) {
                    Err(message) => Err(message),
                    Ok(s3) => Ok(s3.emit_pair(Op::DefineGlobal, global)),
                },
            }
        } else {
            match s1.parse_local_variable(token.lexeme) {
                Err(message) => Err(message),
                Ok(s2) => function(input, s2.mark_init_local(token.lexeme), token.lexeme),
            }
        },
    }
}

/// `var` declaration, after the keyword. Outside every block the variable
/// is a global; inside a block it is a local variable that is initialized
/// only after its initializer.
pub open spec fn var_declaration(input: Input, s: State) -> Outcome
    decreases s.remaining(input), 4nat,
{
    match s.eat(input, TokenType::Identifier, "Expect variable name."@) {
        Err(message) => Err(message),
        Ok((s1, token)) => match (if s1.scopes().scopes.len() == 0 {
            match s1.add_constant(ValueView::String(token.lexeme)) {
                Ok((s2, global)) => Ok((s2, Some(global))),
                Err(message) => Err(message),
            }
        } else {
            match s1.parse_local_variable(token.lexeme) {
                Ok(s2) => Ok((s2, None)),
                Err(message) => Err(message),
            }
        }) {
            Err(message) => Err(message),
            Ok((s2, global)) => match s2.match_token(input, TokenType::Equal) {
                Err(message) => Err(message),
                Ok((s3, has_initializer)) => match (if has_initializer {
                    keep(s3, expression(input, s3))
                } else {
                    Ok(s3.emit_op(Op::Nil))
                }) {
                    Err(message) => Err(message),
                    Ok(s4) => match s4.expect(
                        input,
                        TokenType::Semicolon,
                        "Expect ';' after variable declaration."@,
                    ) {
                        Err(message) => Err(message),
                        Ok(s5) => match global {
                            Some(global) => Ok(s5.emit_pair(Op::DefineGlobal, global)),
                            None => Ok(s5.mark_init_local(token.lexeme)),
                        },
                    },
                },
            },
        },
    }
}

/// A declaration: a function, a variable, or a statement.
pub open spec fn declaration(input: Input, s: State) -> Outcome
    decreases s.remaining(input), 8nat,
{
    match s.match_token(input, TokenType::Fun) {
        Err(message) => Err(message),
        Ok((s1, true)) => fun_declaration(input, s1),
        Ok((s1, false)) => match s1.match_token(input, TokenType::Var) {
            Err(message) => Err(message),
            Ok((s2, true)) => var_declaration(input, s2),
            Ok((s2, false)) => statement(input, s2),
        },
    }
}

/// A program: declarations up to the end of the tokens.
pub open spec fn program(input: Input, s: State) -> Outcome
    decreases s.remaining(input), 9nat,
{
    if s.is_end(input) {
        Ok(s)
    } else {
        match declaration(input, s) {
            Err(message) => Err(message),
            Ok(s1) => if s1.remaining(input) < s.remaining(input) {
                program(input, s1)
            } else {
                Err(Seq::empty())
            },
        }
    }
}

/// The script that a sequence of tokens compiles to, or the message of the
/// first error.
pub open spec fn compile(input: Input) -> Result<FunctionView, Seq<char>> {
    match State::start(None).advance(input) {
        Err(message) => Err(message),
        Ok((s1, _)) => match program(input, s1) {
            Err(message) => Err(message),
            Ok(s2) => Ok(s2.finished()),
        },
    }
}

} // verus!
