//! The compiler: a single pass over the tokens that emits bytecode as it
//! parses.

use vstd::prelude::*;
use vstd::hash_map::StringHashMap;
use vstd::string::*;
use crate::chunk::Op;
use crate::compiler::{all_wf, compiler_views, lemma_resolve_upvalue, Compiler, CompilerView};
use crate::grammar;
use crate::grammar::{Access, Input, Outcome, State};
use crate::inspector::{observer_view, Inspector};
use crate::layout::{
    boundary, code_ok, constants_ok, group_layout, laid_out, lemma_add_constant,
    lemma_current_ok, lemma_emit_closure, lemma_emit_constant, lemma_emit_jump, lemma_emit_loop,
    lemma_emit_op, lemma_emit_pair, lemma_emit_pops, lemma_emit_two, lemma_empty_ok,
    lemma_entered_laid_out, lemma_finished_ok, lemma_left_compiler, lemma_left_function,
    lemma_patch, lemma_rewrite, lemma_same_chunks, lemma_same_code, lemma_start_laid_out,
    outer_layout, program_ok, same_layout, unpatched,
};
use crate::scanner::{scan_all, Place, Scanner};
use crate::scopes::Capture;
use crate::text::{failure, fails_with};
use crate::token::{ParseFn, Precedence, Token, TokenType, TokenView};
use crate::value::{Function, FunctionKind, FunctionView, Value};

verus! {

broadcast use group_layout;

/// The compiler.
pub struct Parser {
    /// The tokens of the source text.
    pub tokens: Vec<Token>,
    /// The error that ended the scan, if one did.
    pub lex_error: Option<String>,
    /// The 64-bit pattern of each number that is written in the text.
    pub numerals: StringHashMap<u64>,
    /// Whether the first token has been loaded.
    pub primed: bool,
    /// The position of the token that comes next.
    pub cursor: usize,
    /// The compilers of the functions that enclose one another, the
    /// innermost last.
    pub compilers: Vec<Compiler>,
    pub inspector: Option<Inspector>,
}

/// The models of a sequence of tokens.
pub open spec fn token_views(tokens: Seq<Token>) -> Seq<TokenView> {
    tokens.map_values(|token: Token| token@)
}

/// The model of a token that may be absent.
pub open spec fn token_view(token: Option<Token>) -> Option<TokenView> {
    match token {
        Some(token) => Some(token@),
        None => None,
    }
}

/// Whether the compiler's conversion of numbers is the function `read`:
/// whatever it returns for a text is what `read` gives.
pub open spec fn reads<P: Fn(&str) -> Option<u64>>(
    parse: &P,
    read: spec_fn(Seq<char>) -> Option<u64>,
) -> bool {
    forall|text: &str, bits: Option<u64>| #[trigger]
        call_ensures(parse, (text,), bits) ==> bits == read(text@)
}

/// The patterns of the numbers among some tokens: what `read` gives for the
/// text of each number token, where it gives something.
pub open spec fn numerals_of(tokens: Seq<TokenView>, read: spec_fn(Seq<char>) -> Option<u64>) -> Map<
    Seq<char>,
    u64,
>
    decreases tokens.len(),
{
    if tokens.len() == 0 {
        Map::empty()
    } else {
        let before = numerals_of(tokens.drop_last(), read);
        let token = tokens.last();
        match read(token.lexeme) {
            Some(bits) => if token.kind == TokenType::Number {
                before.insert(token.lexeme, bits)
            } else {
                before
            },
            None => before,
        }
    }
}

/// What the compiler reads of a text: its tokens from a place on, and the
/// patterns of the numbers among them.
pub open spec fn input_of(chars: Seq<char>, from: Place, read: spec_fn(Seq<char>) -> Option<u64>) -> Input {
    Input {
        tokens: scan_all(chars, from).0,
        lex_error: scan_all(chars, from).1,
        numerals: numerals_of(scan_all(chars, from).0, read),
    }
}

/// Whether a step of the compiler ended as the grammar says: in the next
/// state, with its input untouched, still well formed, inside the same
/// functions and with no token given back; or with the error.
pub open spec fn parsed(before: Parser, after: Parser, r: Result<(), String>, expected: Outcome) -> bool {
    match expected {
        Ok(next) => r is Ok && moved(before, after, next),
        Err(message) => fails_with(r, message),
    }
}

/// Whether the compiler went from one state to the next with its input
/// untouched, still well formed, inside the same functions, with no token
/// given back, and with the layout of the code kept: the beginnings of the
/// instructions, and the forward jumps that have not been patched.
pub open spec fn moved(before: Parser, after: Parser, next: State) -> bool {
    &&& advanced(before, after, next)
    &&& same_layout(before.state(), next)
}

/// Whether the compiler went from one state to the next with its input
/// untouched, still well formed, inside the same functions and with no token
/// given back.
pub open spec fn advanced(before: Parser, after: Parser, next: State) -> bool {
    &&& after.state() == next
    &&& after.input() == before.input()
    &&& after.wf()
    &&& next.loaded >= before.state().loaded
    &&& next.compilers.len() == before.state().compilers.len()
}

/// Whether the compiler went to the next state as `advanced` says, and has
/// kept the layout of the enclosing functions and the beginnings of the
/// instructions of the innermost one.
pub open spec fn emitted(before: Parser, after: Parser, next: State) -> bool {
    &&& advanced(before, after, next)
    &&& outer_layout(before.state(), next)
}

impl Parser {
    /// What the compiler reads.
    pub open spec fn input(&self) -> Input {
        Input {
            tokens: token_views(self.tokens@),
            lex_error: match self.lex_error {
                Some(message) => Some(message@),
                None => None,
            },
            numerals: self.numerals@,
        }
    }

    /// The state of the compiler.
    pub open spec fn state(&self) -> State {
        State {
            loaded: if self.primed {
                (self.cursor + 1) as nat
            } else {
                0
            },
            compilers: compiler_views(self.compilers@),
            inspector: observer_view(self.inspector),
        }
    }

    /// The position is inside the tokens, and input and state are well
    /// formed.
    pub open spec fn wf(&self) -> bool {
        &&& self.cursor <= self.tokens.len()
        &&& !self.primed ==> self.cursor == 0
        &&& self.input().wf()
        &&& self.state().wf()
        &&& laid_out(self.state())
    }

    /// How many more times a token can be loaded.
    pub open spec fn remaining(&self) -> nat {
        self.state().remaining(self.input())
    }

    /// Whether only the compilers differ between two compilers.
    pub open spec fn same_place(&self, other: &Parser) -> bool {
        &&& self.tokens == other.tokens
        &&& self.lex_error == other.lex_error
        &&& self.numerals == other.numerals
        &&& self.primed == other.primed
        &&& self.cursor == other.cursor
        &&& self.inspector == other.inspector
    }

    /// The patterns of the numbers among the tokens.
    fn read_numerals<P: Fn(&str) -> Option<u64>>(tokens: &Vec<Token>, parse: &P) -> (r:
        StringHashMap<u64>)
        requires
            forall|text: &str| call_requires(parse, (text,)),
        ensures
            forall|read: spec_fn(Seq<char>) -> Option<u64>| #[trigger]
                reads(parse, read) ==> r@ == numerals_of(token_views(tokens@), read),
    {
        let mut numerals: StringHashMap<u64> = StringHashMap::new();
        let mut i: usize = 0;
        proof {
            assert(token_views(tokens@).take(0) =~= Seq::empty());
        }
        while i < tokens.len()
            invariant
                i <= tokens.len(),
                forall|text: &str| call_requires(parse, (text,)),
                forall|read: spec_fn(Seq<char>) -> Option<u64>| #[trigger]
                    reads(parse, read) ==> numerals@ == numerals_of(
                        token_views(tokens@).take(i as int),
                        read,
                    ),
            decreases tokens.len() - i,
        {
            let ghost before = numerals@;
            let token = &tokens[i];
            let mut converted: Option<u64> = None;
            if token.token_type == TokenType::Number {
                converted = parse(token.source.as_str());
                match converted {
                    Some(bits) => {
                        numerals.insert(token.source.clone(), bits);
                    },
                    None => {},
                }
            }
            proof {
                let done = token_views(tokens@).take(i as int);
                let more = token_views(tokens@).take(i + 1);
                assert(more.drop_last() =~= done);
                assert(more.last() == token@);
                assert forall|read: spec_fn(Seq<char>) -> Option<u64>| #[trigger]
                    reads(parse, read) implies numerals@ == numerals_of(more, read) by {
                    if token.token_type == TokenType::Number {
                        assert(converted == read(token@.lexeme));
                    }
                }
            }
            i += 1;
        }
        proof {
            assert(token_views(tokens@).take(i as int) =~= token_views(tokens@));
        }
        numerals
    }

    /// A compiler for the rest of the text of a scanner. `parse` gives the
    /// 64-bit pattern of a number from its text, or `None` for a text that
    /// is no number. No token is loaded yet.
    pub fn new<P: Fn(&str) -> Option<u64>>(
        scanner: Scanner,
        inspector: Option<Inspector>,
        parse: &P,
    ) -> (r: Self)
        requires
            forall|text: &str| call_requires(parse, (text,)),
        ensures
            r.wf(),
            r.state() == State::start(observer_view(inspector)),
            forall|read: spec_fn(Seq<char>) -> Option<u64>| #[trigger]
                reads(parse, read) ==> r.input() == input_of(scanner@.chars, scanner@.place, read),
    {
        let mut scanner = scanner;
        let (tokens, lex_error) = scanner.scan_all();
        let numerals = Self::read_numerals(&tokens, parse);
        let mut compilers: Vec<Compiler> = Vec::new();
        compilers.push(Compiler::script());
        let r = Parser {
            tokens,
            lex_error,
            numerals,
            primed: false,
            cursor: 0,
            compilers,
            inspector,
        };
        proof {
            assert(r.state().compilers =~= seq![CompilerView::script()]);
            lemma_start_laid_out(r.state());
            assert forall|i: int|
                0 <= i < r.input().tokens.len() && (#[trigger] r.input().tokens[i]).kind
                    == TokenType::String implies r.input().tokens[i].lexeme.len() >= 2 by {
                assert(r.tokens[i].token_type == TokenType::String);
            }
        }
        r
    }

    /// Enters a function: a fresh compiler on top of the others.
    pub fn function_compiler(&mut self, name: &str)
        requires
            old(self).wf(),
        ensures
            final(self).same_place(old(self)),
            final(self).state() == old(self).state().function_compiler(name@),
            final(self).wf(),
    {
        self.compilers.push(Compiler::function(name));
        proof {
            let before = old(self).state();
            let after = before.function_compiler(name@);
            assert(self.state().compilers =~= after.compilers);
            lemma_entered_laid_out(before, name@);
        }
    }

    /// Gives the observer back.
    pub fn into_inspector(self) -> (r: Option<Inspector>)
        ensures
            r == self.inspector,
    {
        self.inspector
    }

    /// Takes the innermost compiler off the stack.
    fn take_compiler(&mut self) -> (r: Compiler)
        requires
            old(self).wf(),
        ensures
            final(self).same_place(old(self)),
            r@ == old(self).state().current(),
            r@.wf(),
            final(self).compilers@ == old(self).compilers@.drop_last(),
            final(self).state().compilers == old(self).state().compilers.drop_last(),
            all_wf(final(self).state().compilers),
            code_ok(r@.chunk()),
            constants_ok(r@.chunk()),
    {
        proof {
            lemma_current_ok(self.state());
        }
        let r = self.compilers.pop().unwrap();
        assert(self.state().compilers =~= old(self).state().compilers.drop_last());
        assert(old(self).state().compilers[old(self).compilers.len() - 1].wf());
        r
    }

    /// Puts a compiler on the stack.
    fn put_compiler(&mut self, compiler: Compiler)
        requires
            compiler@.wf(),
            all_wf(old(self).state().compilers),
        ensures
            final(self).same_place(old(self)),
            final(self).compilers@ == old(self).compilers@.push(compiler),
            final(self).state().compilers == old(self).state().compilers.push(compiler@),
            all_wf(final(self).state().compilers),
    {
        self.compilers.push(compiler);
        assert(self.state().compilers =~= old(self).state().compilers.push(compiler@));
    }
}

impl Parser {
    /// Loads the next token and returns the one that came next before;
    /// `None` before the first token has been loaded and after the last.
    /// Where the scan ended with an error, loading beyond the last token
    /// fails with it.
    pub fn advance(&mut self) -> (r: Result<Option<Token>, String>)
        requires
            old(self).wf(),
        ensures
            match old(self).state().advance(old(self).input()) {
                Ok((next, token)) => r is Ok && token_view(r->Ok_0) == token && moved(
                    *old(self),
                    *final(self),
                    next,
                ),
                Err(message) => fails_with(r, message) && *final(self) == *old(self),
            },
    {
        proof {
            lemma_same_chunks(self.state(), self.state());
        }
        let len = self.tokens.len();
        if !self.primed {
            if len == 0 {
                match &self.lex_error {
                    Some(message) => {
                        return Err(message.clone());
                    },
                    None => {},
                }
            }
            self.primed = true;
            proof {
                lemma_same_chunks(old(self).state(), self.state());
            }
            Ok(None)
        } else if self.cursor < len {
            if self.cursor + 1 == len {
                match &self.lex_error {
                    Some(message) => {
                        return Err(message.clone());
                    },
                    None => {},
                }
            }
            let current = self.tokens[self.cursor].clone();
            self.cursor += 1;
            proof {
                lemma_same_chunks(old(self).state(), self.state());
            }
            Ok(Some(current))
        } else {
            Ok(None)
        }
    }

    /// Whether the next token is of a kind.
    fn check(&self, token_type: TokenType) -> (r: bool)
        requires
            self.wf(),
        ensures
            r == self.state().check(self.input(), token_type),
    {
        self.primed && self.cursor < self.tokens.len() && self.tokens[self.cursor].token_type
            == token_type
    }

    fn is_end(&self) -> (r: bool)
        requires
            self.wf(),
        ensures
            r == self.state().is_end(self.input()),
    {
        !(self.primed && self.cursor < self.tokens.len())
    }

    /// Takes the next token, which has to be of a kind.
    fn eat(&mut self, token_type: TokenType, message: &str) -> (r: Result<Token, String>)
        requires
            old(self).wf(),
        ensures
            match old(self).state().eat(old(self).input(), token_type, message@) {
                Ok((next, token)) => r is Ok && r->Ok_0@ == token && moved(
                    *old(self),
                    *final(self),
                    next,
                ) && final(self).remaining() < old(self).remaining(),
                Err(message) => fails_with(r, message),
            },
    {
        if self.check(token_type) {
            match self.advance()? {
                Some(token) => {
                    return Ok(token);
                },
                None => {},
            }
        }
        failure(message)
    }

    /// Takes the next token, which has to be of a kind, and drops it.
    fn expect(&mut self, token_type: TokenType, message: &str) -> (r: Result<(), String>)
        requires
            old(self).wf(),
        ensures
            parsed(
                *old(self),
                *final(self),
                r,
                old(self).state().expect(old(self).input(), token_type, message@),
            ),
            r is Ok ==> final(self).remaining() < old(self).remaining(),
    {
        let _ = self.eat(token_type, message)?;
        Ok(())
    }

    /// Takes the next token if it is of a kind.
    fn match_token(&mut self, token_type: TokenType) -> (r: Result<bool, String>)
        requires
            old(self).wf(),
        ensures
            match old(self).state().match_token(old(self).input(), token_type) {
                Ok((next, matched)) => r == Ok::<bool, String>(matched) && moved(
                    *old(self),
                    *final(self),
                    next,
                ) && (matched ==> final(self).remaining() < old(self).remaining()) && (!matched
                    ==> *final(self) == *old(self)),
                Err(message) => fails_with(r, message),
            },
    {
        if self.check(token_type) {
            let _ = self.advance()?;
            Ok(true)
        } else {
            proof {
                lemma_same_chunks(self.state(), self.state());
            }
            Ok(false)
        }
    }

    /// Emits an instruction without operands.
    fn emit_op(&mut self, op: Op)
        requires
            old(self).wf(),
            op.operands_spec() == 0,
        ensures
            moved(*old(self), *final(self), old(self).state().emit_op(op)),
    {
        let mut compiler = self.take_compiler();
        compiler.function.chunk.emit_op(op);
        proof {
            lemma_emit_op(old(self).state().chunk(), op);
            lemma_rewrite(old(self).state(), compiler@.chunk());
        }
        self.put_compiler(compiler);
        assert(self.state().compilers =~= old(self).state().emit_op(op).compilers);
    }

    /// Emits two instructions without operands.
    fn emit_two(&mut self, first: Op, second: Op)
        requires
            old(self).wf(),
            first.operands_spec() == 0,
            second.operands_spec() == 0,
        ensures
            moved(
                *old(self),
                *final(self),
                old(self).state().emit(seq![first.byte_spec(), second.byte_spec()]),
            ),
    {
        let mut compiler = self.take_compiler();
        compiler.function.chunk.emit_op(first);
        compiler.function.chunk.emit_op(second);
        proof {
            let chunk = old(self).state().chunk();
            assert(compiler@.chunk().codes =~= chunk.emit(
                seq![first.byte_spec(), second.byte_spec()],
            ).codes);
            lemma_emit_two(chunk, first, second);
            lemma_rewrite(old(self).state(), compiler@.chunk());
        }
        self.put_compiler(compiler);
        assert(self.state().compilers =~= old(self).state().emit(
            seq![first.byte_spec(), second.byte_spec()],
        ).compilers);
    }

    /// Emits an instruction with a one-byte operand.
    fn emit_pair(&mut self, op: Op, operand: u8)
        requires
            old(self).wf(),
            op.operands_spec() == 1,
            op != Op::Closure,
            op == Op::SetLocal ==> operand >= 1,
        ensures
            moved(*old(self), *final(self), old(self).state().emit_pair(op, operand)),
    {
        let mut compiler = self.take_compiler();
        compiler.function.chunk.emit_pair(op, operand);
        proof {
            lemma_emit_pair(old(self).state().chunk(), op, operand);
            lemma_rewrite(old(self).state(), compiler@.chunk());
        }
        self.put_compiler(compiler);
        assert(self.state().compilers =~= old(self).state().emit_pair(op, operand).compilers);
    }

    /// The length of the code, which is where the next instruction will
    /// begin.
    fn code_len(&self) -> (r: Result<u16, String>)
        requires
            self.wf(),
        ensures
            crate::text::agrees(r, self.state().code_len()),
            r is Ok ==> boundary(self.state().chunk(), r->Ok_0 as int),
    {
        proof {
            lemma_current_ok(self.state());
        }
        self.compilers[self.compilers.len() - 1].function.chunk.code_len()
    }

    /// Adds a constant that is no function.
    fn add_constant(&mut self, constant: Value) -> (r: Result<u8, String>)
        requires
            old(self).wf(),
            !(constant@ is Function),
        ensures
            match old(self).state().add_constant(constant@) {
                Ok((next, index)) => r == Ok::<u8, String>(index) && moved(
                    *old(self),
                    *final(self),
                    next,
                ),
                Err(message) => fails_with(r, message),
            },
    {
        let mut compiler = self.take_compiler();
        let index = compiler.function.chunk.add_constant(constant)?;
        proof {
            lemma_add_constant(old(self).state().chunk(), constant@);
            lemma_rewrite(old(self).state(), compiler@.chunk());
        }
        self.put_compiler(compiler);
        assert(self.state().compilers =~= old(self).state().add_constant(
            constant@,
        )->Ok_0.0.compilers);
        Ok(index)
    }

    /// Adds a constant that is no function, and emits the instruction that
    /// loads it.
    fn emit_constant(&mut self, constant: Value) -> (r: Result<(), String>)
        requires
            old(self).wf(),
            !(constant@ is Function),
        ensures
            parsed(*old(self), *final(self), r, old(self).state().emit_constant(constant@)),
    {
        let mut compiler = self.take_compiler();
        compiler.function.chunk.emit_constant(constant)?;
        proof {
            lemma_emit_constant(old(self).state().chunk(), constant@);
            lemma_rewrite(old(self).state(), compiler@.chunk());
        }
        self.put_compiler(compiler);
        assert(self.state().compilers =~= old(self).state().emit_constant(
            constant@,
        )->Ok_0.compilers);
        Ok(())
    }

    /// Emits a forward jump with a placeholder, and returns the place of the
    /// placeholder.
    fn emit_jump(&mut self, op: Op) -> (r: Result<u16, String>)
        requires
            old(self).wf(),
            op == Op::Jump || op == Op::JumpIfFalse,
        ensures
            match old(self).state().emit_jump(op) {
                Ok((next, at)) => r == Ok::<u16, String>(at) && emitted(
                    *old(self),
                    *final(self),
                    next,
                ) && unpatched(next.chunk()) == unpatched(old(self).state().chunk()).insert(
                    at as int,
                ) && !unpatched(old(self).state().chunk()).contains(at as int),
                Err(message) => fails_with(r, message),
            },
    {
        let mut compiler = self.take_compiler();
        let at = compiler.function.chunk.emit_jump(op)?;
        proof {
            lemma_emit_jump(old(self).state().chunk(), op);
            lemma_rewrite(old(self).state(), compiler@.chunk());
        }
        self.put_compiler(compiler);
        assert(self.state().compilers =~= old(self).state().emit_jump(op)->Ok_0.0.compilers);
        Ok(at)
    }

    /// Patches a forward jump so that it lands where the next instruction
    /// will begin.
    fn patch_jump(&mut self, at: u16) -> (r: Result<(), String>)
        requires
            old(self).wf(),
            unpatched(old(self).state().chunk()).contains(at as int),
        ensures
            match old(self).state().patch_jump(at) {
                Ok(next) => r is Ok && emitted(*old(self), *final(self), next) && unpatched(
                    next.chunk(),
                ) == unpatched(old(self).state().chunk()).remove(at as int),
                Err(message) => fails_with(r, message),
            },
    {
        let mut compiler = self.take_compiler();
        compiler.function.chunk.patch_jump(at)?;
        proof {
            lemma_patch(old(self).state().chunk(), at);
            lemma_rewrite(old(self).state(), compiler@.chunk());
        }
        self.put_compiler(compiler);
        assert(self.state().compilers =~= old(self).state().patch_jump(at)->Ok_0.compilers);
        Ok(())
    }

    /// Emits a jump back to the beginning of an instruction.
    fn emit_loop(&mut self, start: u16) -> (r: Result<(), String>)
        requires
            old(self).wf(),
            boundary(old(self).state().chunk(), start as int),
        ensures
            parsed(*old(self), *final(self), r, old(self).state().emit_loop(start)),
    {
        let mut compiler = self.take_compiler();
        compiler.function.chunk.emit_loop(start)?;
        proof {
            lemma_emit_loop(old(self).state().chunk(), start);
            lemma_rewrite(old(self).state(), compiler@.chunk());
        }
        self.put_compiler(compiler);
        assert(self.state().compilers =~= old(self).state().emit_loop(start)->Ok_0.compilers);
        Ok(())
    }

    fn begin_scope(&mut self)
        requires
            old(self).wf(),
        ensures
            moved(*old(self), *final(self), old(self).state().begin_scope()),
    {
        let mut compiler = self.take_compiler();
        compiler.scopes.push();
        self.put_compiler(compiler);
        proof {
            assert(self.state().compilers =~= old(self).state().begin_scope().compilers);
            assert(self.state().compilers.drop_last() =~= old(self).state().compilers.drop_last());
            lemma_same_code(old(self).state(), self.state());
        }
    }

    /// Closes the innermost block: one `Pop` for each of its local
    /// variables.
    fn end_scope(&mut self)
        requires
            old(self).wf(),
        ensures
            moved(*old(self), *final(self), old(self).state().end_scope()),
    {
        let mut compiler = self.take_compiler();
        let ghost before = compiler@;
        let count = match compiler.scopes.pop() {
            Some(scope) => scope.len(),
            None => 0,
        };
        let ghost popped = compiler@;
        let mut i: usize = 0;
        assert(popped.chunk().emit(grammar::pops(0)) =~= popped.chunk());
        while i < count
            invariant
                i <= count,
                compiler@ == popped.with_chunk(popped.chunk().emit(grammar::pops(i as nat))),
            decreases count - i,
        {
            compiler.function.chunk.emit_op(Op::Pop);
            proof {
                assert(compiler@.chunk().codes =~= popped.chunk().codes + grammar::pops(
                    (i + 1) as nat,
                ));
            }
            i += 1;
        }
        proof {
            lemma_emit_pops(old(self).state().chunk(), count as nat);
            lemma_rewrite(old(self).state(), compiler@.chunk());
        }
        self.put_compiler(compiler);
        proof {
            let expected = old(self).state().end_scope();
            let rewritten = old(self).state().with_chunk(compiler@.chunk());
            assert(self.state().compilers =~= expected.compilers);
            assert(self.state().compilers.drop_last() =~= rewritten.compilers.drop_last());
            lemma_same_code(rewritten, self.state());
        }
    }

    /// Declares a local variable; a block cannot declare a name twice.
    fn parse_local_variable(&mut self, name: &str) -> (r: Result<(), String>)
        requires
            old(self).wf(),
        ensures
            parsed(*old(self), *final(self), r, old(self).state().parse_local_variable(name@)),
    {
        let mut compiler = self.take_compiler();
        match compiler.scopes.current_has(name) {
            Some(true) => {
                return failure("Already a variable with this name in this scope.");
            },
            _ => {},
        }
        compiler.scopes.define_uninit_local(name.to_owned())?;
        self.put_compiler(compiler);
        proof {
            assert(self.state().compilers =~= old(self).state().parse_local_variable(
                name@,
            )->Ok_0.compilers);
            assert(self.state().compilers.drop_last() =~= old(self).state().compilers.drop_last());
            lemma_same_code(old(self).state(), self.state());
        }
        Ok(())
    }

    fn mark_init_local(&mut self, name: &str)
        requires
            old(self).wf(),
        ensures
            moved(*old(self), *final(self), old(self).state().mark_init_local(name@)),
    {
        let mut compiler = self.take_compiler();
        compiler.scopes.mark_init_local(name);
        self.put_compiler(compiler);
        proof {
            assert(self.state().compilers =~= old(self).state().mark_init_local(name@).compilers);
            assert(self.state().compilers.drop_last() =~= old(self).state().compilers.drop_last());
            lemma_same_code(old(self).state(), self.state());
        }
    }

    /// Leaves a function: appends `Nil` and `Return` to its code, takes its
    /// compiler off the stack, shows the function to the observer, and
    /// returns it with the captures that a closure of it has to make. Where
    /// the function has no forward jump left unpatched, its code is in order
    /// throughout: every jump lands where an instruction begins.
    pub fn end_compiler(&mut self) -> (r: (Function, Vec<Capture>))
        requires
            old(self).wf(),
        ensures
            r.0@ == old(self).state().finished(),
            r.1@ == old(self).state().current().upvalues,
            r.0@.upvalue_count == r.1@.len(),
            final(self).state() == old(self).state().end_compiler(),
            final(self).input() == old(self).input(),
            final(self).primed == old(self).primed,
            final(self).cursor == old(self).cursor,
            old(self).compilers.len() > 1 ==> final(self).wf(),
            unpatched(old(self).state().chunk()) == Set::<int>::empty() ==> program_ok(r.0@),
    {
        self.emit_op(Op::Nil);
        self.emit_op(Op::Return);
        let ghost emitted_state = self.state();
        let compiler = self.take_compiler();
        let (function, upvalues) = compiler.end();
        let ghost seen = observer_view(self.inspector);
        match self.inspector.take() {
            Some(mut inspector) => {
                inspector.catch_bytecode(function.clone());
                self.inspector = Some(inspector);
            },
            None => {},
        }
        proof {
            let expected = old(self).state().end_compiler();
            assert(self.state().compilers =~= expected.compilers);
            assert(seen == old(self).state().inspector);
            assert(self.state().inspector == expected.inspector);
            lemma_left_compiler(emitted_state, expected);
            if unpatched(old(self).state().chunk()) == Set::<int>::empty() {
                lemma_current_ok(emitted_state);
                lemma_finished_ok(emitted_state);
            }
        }
        (function, upvalues)
    }
}

/// Whether a token can be handed to a way to parse: the way fits the kind
/// of the token, and a string has its two quotes.
pub open spec fn suits(parse_fn: ParseFn, token: TokenView) -> bool {
    grammar::fits(parse_fn, token.kind) && (parse_fn == ParseFn::String ==> token.lexeme.len() >= 2)
}

/// What the table gives for a kind of token fits the kind, and strings are
/// the only tokens that are parsed as strings.
pub proof fn lemma_rule_fits(kind: TokenType)
    ensures
        match kind.rule_spec().prefix {
            Some(prefix) => grammar::fits(prefix, kind) && (prefix == ParseFn::String ==> kind
                == TokenType::String),
            None => true,
        },
        match kind.rule_spec().infix {
            Some(infix) => grammar::fits(infix, kind) && infix != ParseFn::String,
            None => true,
        },
{
}

impl Parser {
    /// How a name is reached; the captures that reaching it takes are noted.
    fn resolve(&mut self, name: &str) -> (r: Result<Access, String>)
        requires
            old(self).wf(),
        ensures
            match grammar::resolve(old(self).state(), name@) {
                Ok((next, access)) => r == Ok::<Access, String>(access) && moved(
                    *old(self),
                    *final(self),
                    next,
                ) && (match access {
                    Access::Local(index) => index >= 1,
                    _ => true,
                }),
                Err(message) => fails_with(r, message),
            },
    {
        let last = self.compilers.len() - 1;
        proof {
            lemma_same_chunks(self.state(), self.state());
        }
        match self.compilers[last].scopes.resolve_local(name)? {
            Some(local) => Ok(Access::Local(local.index)),
            None => {
                proof {
                    lemma_resolve_upvalue(self.state().compilers, name@);
                }
                let r = match Compiler::resolve_upvalue(&mut self.compilers, name)? {
                    Some(at) => Access::Upvalue(at),
                    None => Access::Global,
                };
                proof {
                    assert forall|i: int| 0 <= i < self.state().compilers.len() implies (
                    #[trigger] self.state().compilers[i]).chunk() == old(
                        self,
                    ).state().compilers[i].chunk() by {
                        assert(self.state().compilers[i].function == old(
                            self,
                        ).state().compilers[i].function);
                    }
                    lemma_same_chunks(old(self).state(), self.state());
                }
                Ok(r)
            },
        }
    }

    /// An expression.
    fn expression(&mut self) -> (r: Result<(), String>)
        requires
            old(self).wf(),
        ensures
            parsed(
                *old(self),
                *final(self),
                r,
                grammar::expression(old(self).input(), old(self).state()),
            ),
            r is Ok && !old(self).state().is_end(old(self).input()) ==> final(self).remaining()
                < old(self).remaining(),
        decreases old(self).remaining(), 1nat,
    {
        self.parse_precedence(Precedence::Assignment)
    }

    /// An expression whose operators bind at least as tightly as
    /// `precedence`.
    fn parse_precedence(&mut self, precedence: Precedence) -> (r: Result<(), String>)
        requires
            old(self).wf(),
        ensures
            parsed(
                *old(self),
                *final(self),
                r,
                grammar::parse_precedence(old(self).input(), old(self).state(), precedence),
            ),
            r is Ok && !old(self).state().is_end(old(self).input()) ==> final(self).remaining()
                < old(self).remaining(),
        decreases old(self).remaining(), 0nat,
    {
        match self.advance()? {
            None => Ok(()),
            Some(token) => {
                proof {
                    lemma_rule_fits(token@.kind);
                }
                let prefix = match token.token_type.rule().prefix {
                    Some(prefix) => prefix,
                    None => {
                        return failure("Expect expression.");
                    },
                };
                let can_assign = precedence.at_most(Precedence::Assignment);
                self.dispatch(prefix, token, can_assign)?;
                self.infix_loop(precedence, can_assign)?;
                if can_assign && self.match_token(TokenType::Equal)? {
                    return failure("Invalid assignment target.");
                }
                Ok(())
            },
        }
    }

    /// The operators that continue an expression.
    fn infix_loop(&mut self, precedence: Precedence, can_assign: bool) -> (r: Result<(), String>)
        requires
            old(self).wf(),
        ensures
            parsed(
                *old(self),
                *final(self),
                r,
                grammar::infix_loop(
                    old(self).input(),
                    old(self).state(),
                    precedence,
                    can_assign,
                ),
            ),
        decreases old(self).remaining(), 5nat,
    {
        let ghost input = self.input();
        proof {
            lemma_same_chunks(self.state(), self.state());
        }
        loop
            invariant
                self.wf(),
                self.input() == input,
                input == old(self).input(),
                self.remaining() <= old(self).remaining(),
                self.state().compilers.len() == old(self).state().compilers.len(),
                self.state().loaded >= old(self).state().loaded,
                same_layout(old(self).state(), self.state()),
                grammar::infix_loop(input, old(self).state(), precedence, can_assign)
                    == grammar::infix_loop(input, self.state(), precedence, can_assign),
            decreases self.remaining(),
        {
            let binds = self.primed && self.cursor < self.tokens.len() && precedence.at_most(
                self.tokens[self.cursor].token_type.rule().precedence,
            );
            if !binds {
                return Ok(());
            }
            let ghost before = self.state();
            match self.advance() {
                Err(message) => {
                    return Err(message);
                },
                Ok(None) => {
                    return Ok(());
                },
                Ok(Some(token)) => {
                    proof {
                        lemma_rule_fits(token@.kind);
                        assert(self.input().tokens[before.loaded - 1] == token@);
                    }
                    let infix = match token.token_type.rule().infix {
                        Some(infix) => infix,
                        None => {
                            return failure("Expect expression.");
                        },
                    };
                    match self.dispatch(infix, token, can_assign) {
                        Err(message) => {
                            return Err(message);
                        },
                        Ok(()) => {},
                    }
                },
            }
        }
    }

    /// What a token stands for, by the way to parse it.
    fn dispatch(&mut self, parse_fn: ParseFn, token: Token, can_assign: bool) -> (r: Result<
        (),
        String,
    >)
        requires
            old(self).wf(),
            suits(parse_fn, token@),
        ensures
            parsed(
                *old(self),
                *final(self),
                r,
                grammar::dispatch(
                    old(self).input(),
                    old(self).state(),
                    parse_fn,
                    token@,
                    can_assign,
                ),
            ),
        decreases old(self).remaining(), 4nat,
    {
        match parse_fn {
            ParseFn::Grouping => self.grouping(token, can_assign),
            ParseFn::Call => self.call(token, can_assign),
            ParseFn::Unary => self.unary(token, can_assign),
            ParseFn::Binary => self.binary(token, can_assign),
            ParseFn::Variable => self.variable(token, can_assign),
            ParseFn::String => self.string(token, can_assign),
            ParseFn::Number => self.number(token, can_assign),
            ParseFn::Literal => self.literal(token, can_assign),
            ParseFn::And => self.and(token, can_assign),
            ParseFn::Or => self.or(token, can_assign),
        }
    }

    /// A variable: read, or assigned where an assignment can stand and `=`
    /// follows.
    pub fn variable(&mut self, token: Token, can_assign: bool) -> (r: Result<(), String>)
        requires
            old(self).wf(),
        ensures
            parsed(
                *old(self),
                *final(self),
                r,
                grammar::variable(old(self).input(), old(self).state(), token@, can_assign),
            ),
        decreases old(self).remaining(), 2nat,
    {
        let is_set = can_assign && self.match_token(TokenType::Equal)?;
        let name = token.source.as_str();
        match self.resolve(name)? {
            Access::Local(index) => {
                if is_set {
                    self.expression()?;
                    self.emit_pair(Op::SetLocal, index);
                } else {
                    self.emit_pair(Op::GetLocal, index);
                }
            },
            Access::Upvalue(index) => {
                if is_set {
                    self.expression()?;
                    self.emit_pair(Op::SetUpvalue, index);
                } else {
                    self.emit_pair(Op::GetUpvalue, index);
                }
            },
            Access::Global => {
                let global = self.add_constant(Value::string(name))?;
                if is_set {
                    self.expression()?;
                    self.emit_pair(Op::SetGlobal, global);
                } else {
                    self.emit_pair(Op::GetGlobal, global);
                }
            },
        }
        Ok(())
    }

    /// An expression in parentheses, after its `(`.
    pub fn grouping(&mut self, _token: Token, _can_assign: bool) -> (r: Result<(), String>)
        requires
            old(self).wf(),
        ensures
            parsed(
                *old(self),
                *final(self),
                r,
                grammar::grouping(old(self).input(), old(self).state()),
            ),
        decreases old(self).remaining(), 2nat,
    {
        self.expression()?;
        self.expect(TokenType::RightParen, "Expect ')' after expression.")?;
        Ok(())
    }

    /// A number.
    pub fn number(&mut self, token: Token, _can_assign: bool) -> (r: Result<(), String>)
        requires
            old(self).wf(),
        ensures
            parsed(
                *old(self),
                *final(self),
                r,
                grammar::number(old(self).input(), old(self).state(), token@),
            ),
    {
        let constant = match self.numerals.get(token.source.as_str()) {
            Some(bits) => *bits,
            None => {
                return failure("ParseFloatError");
            },
        };
        self.emit_constant(Value::number(constant))
    }

    /// A string: the text between its quotes.
    pub fn string(&mut self, token: Token, _can_assign: bool) -> (r: Result<(), String>)
        requires
            old(self).wf(),
            token@.lexeme.len() >= 2,
        ensures
            parsed(*old(self), *final(self), r, grammar::string(old(self).state(), token@)),
    {
        let text = token.source.as_str();
        let length = text.unicode_len();
        let string = text.substring_char(1, length - 1);
        self.emit_constant(Value::string(string))
    }

    /// `nil`, `true`, `false`.
    pub fn literal(&mut self, token: Token, _can_assign: bool) -> (r: Result<(), String>)
        requires
            old(self).wf(),
            grammar::fits(ParseFn::Literal, token@.kind),
        ensures
            parsed(*old(self), *final(self), r, grammar::literal(old(self).state(), token@)),
    {
        match token.token_type {
            TokenType::Nil => self.emit_op(Op::Nil),
            TokenType::False => self.emit_op(Op::False),
            _ => self.emit_op(Op::True),
        }
        Ok(())
    }

    /// The operand of a unary operator, then its instruction.
    pub fn unary(&mut self, token: Token, _can_assign: bool) -> (r: Result<(), String>)
        requires
            old(self).wf(),
            grammar::fits(ParseFn::Unary, token@.kind),
        ensures
            parsed(
                *old(self),
                *final(self),
                r,
                grammar::unary(old(self).input(), old(self).state(), token@),
            ),
        decreases old(self).remaining(), 2nat,
    {
        self.parse_precedence(Precedence::Unary)?;
        match token.token_type {
            TokenType::Bang => self.emit_op(Op::Not),
            _ => self.emit_op(Op::Negate),
        }
        Ok(())
    }

    /// The right operand of a binary operator, then the operator's
    /// instructions.
    pub fn binary(&mut self, token: Token, _can_assign: bool) -> (r: Result<(), String>)
        requires
            old(self).wf(),
            grammar::fits(ParseFn::Binary, token@.kind),
        ensures
            parsed(
                *old(self),
                *final(self),
                r,
                grammar::binary(old(self).input(), old(self).state(), token@),
            ),
        decreases old(self).remaining(), 2nat,
    {
        let precedence = token.token_type.rule().precedence;
        self.parse_precedence(precedence.up())?;
        match token.token_type {
            TokenType::BangEqual => self.emit_two(Op::Equal, Op::Not),
            TokenType::EqualEqual => self.emit_op(Op::Equal),
            TokenType::Greater => self.emit_op(Op::Greater),
            TokenType::GreaterEqual => self.emit_two(Op::Less, Op::Not),
            TokenType::Less => self.emit_op(Op::Less),
            TokenType::LessEqual => self.emit_two(Op::Greater, Op::Not),
            TokenType::Plus => self.emit_op(Op::Add),
            TokenType::Minus => self.emit_op(Op::Subtract),
            TokenType::Star => self.emit_op(Op::Multiply),
            _ => self.emit_op(Op::Divide),
        }
        Ok(())
    }

    /// The right operand of `and`.
    pub fn and(&mut self, _token: Token, _can_assign: bool) -> (r: Result<(), String>)
        requires
            old(self).wf(),
        ensures
            parsed(*old(self), *final(self), r, grammar::and(old(self).input(), old(self).state())),
        decreases old(self).remaining(), 2nat,
    {
        let end_jump = self.emit_jump(Op::JumpIfFalse)?;
        self.emit_op(Op::Pop);
        self.parse_precedence(Precedence::And)?;
        self.patch_jump(end_jump)?;
        proof {
            assert(unpatched(self.state().chunk()) =~= unpatched(old(self).state().chunk()));
        }
        Ok(())
    }

    /// The right operand of `or`.
    pub fn or(&mut self, _token: Token, _can_assign: bool) -> (r: Result<(), String>)
        requires
            old(self).wf(),
        ensures
            parsed(*old(self), *final(self), r, grammar::or(old(self).input(), old(self).state())),
        decreases old(self).remaining(), 2nat,
    {
        let else_jump = self.emit_jump(Op::JumpIfFalse)?;
        let end_jump = self.emit_jump(Op::Jump)?;
        self.patch_jump(else_jump)?;
        self.emit_op(Op::Pop);
        self.parse_precedence(Precedence::Or)?;
        self.patch_jump(end_jump)?;
        proof {
            assert(unpatched(self.state().chunk()) =~= unpatched(old(self).state().chunk()));
        }
        Ok(())
    }

    /// The arguments of a call: expressions separated by commas, at most
    /// 255. Returns their number.
    fn arguments(&mut self) -> (r: Result<u8, String>)
        requires
            old(self).wf(),
        ensures
            match grammar::arguments(old(self).input(), old(self).state(), 0) {
                Ok((next, count)) => r == Ok::<u8, String>(count) && moved(
                    *old(self),
                    *final(self),
                    next,
                ),
                Err(message) => fails_with(r, message),
            },
        decreases old(self).remaining(), 2nat,
    {
        let ghost input = self.input();
        let mut arg_count: u8 = 0;
        proof {
            lemma_same_chunks(self.state(), self.state());
        }
        loop
            invariant
                self.wf(),
                self.input() == input,
                input == old(self).input(),
                self.remaining() <= old(self).remaining(),
                self.state().compilers.len() == old(self).state().compilers.len(),
                self.state().loaded >= old(self).state().loaded,
                same_layout(old(self).state(), self.state()),
                grammar::arguments(input, old(self).state(), 0) == grammar::arguments(
                    input,
                    self.state(),
                    arg_count,
                ),
            decreases self.remaining(),
        {
            match self.expression() {
                Err(message) => {
                    return Err(message);
                },
                Ok(()) => {},
            }
            if arg_count == 255 {
                return failure("Can't have more than 255 arguments.");
            }
            arg_count = arg_count + 1;
            match self.match_token(TokenType::Comma) {
                Err(message) => {
                    return Err(message);
                },
                Ok(true) => {},
                Ok(false) => {
                    return Ok(arg_count);
                },
            }
        }
    }

    /// The arguments of a call after its `(`, then the call.
    pub fn call(&mut self, _token: Token, _can_assign: bool) -> (r: Result<(), String>)
        requires
            old(self).wf(),
        ensures
            parsed(*old(self), *final(self), r, grammar::call(old(self).input(), old(self).state())),
        decreases old(self).remaining(), 3nat,
    {
        let mut arg_count: u8 = 0;
        if !self.check(TokenType::RightParen) {
            arg_count = self.arguments()?;
        }
        self.expect(TokenType::RightParen, "Expect ')' after arguments.")?;
        self.emit_pair(Op::Call, arg_count);
        Ok(())
    }
}

impl Parser {
    /// `print` statement, after the keyword.
    fn print_statement(&mut self) -> (r: Result<(), String>)
        requires
            old(self).wf(),
        ensures
            parsed(
                *old(self),
                *final(self),
                r,
                grammar::print_statement(old(self).input(), old(self).state()),
            ),
        decreases old(self).remaining(), 4nat,
    {
        self.expression()?;
        self.expect(TokenType::Semicolon, "Expect ';' after value.")?;
        self.emit_op(Op::Print);
        Ok(())
    }

    /// An expression as a statement.
    fn expression_statement(&mut self) -> (r: Result<(), String>)
        requires
            old(self).wf(),
        ensures
            parsed(
                *old(self),
                *final(self),
                r,
                grammar::expression_statement(old(self).input(), old(self).state()),
            ),
            r is Ok && !old(self).state().is_end(old(self).input()) ==> final(self).remaining()
                < old(self).remaining(),
        decreases old(self).remaining(), 4nat,
    {
        self.expression()?;
        self.expect(TokenType::Semicolon, "Expect ';' after expression.")?;
        self.emit_op(Op::Pop);
        Ok(())
    }

    /// `if` statement, after the keyword.
    fn if_statement(&mut self) -> (r: Result<(), String>)
        requires
            old(self).wf(),
        ensures
            parsed(
                *old(self),
                *final(self),
                r,
                grammar::if_statement(old(self).input(), old(self).state()),
            ),
        decreases old(self).remaining(), 4nat,
    {
        self.expect(TokenType::LeftParen, "Expect '(' after 'if'.")?;
        self.expression()?;
        self.expect(TokenType::RightParen, "Expect ')' after condition.")?;

        let then_jump = self.emit_jump(Op::JumpIfFalse)?;
        self.emit_op(Op::Pop);
        self.statement()?;

        let else_jump = self.emit_jump(Op::Jump)?;

        self.patch_jump(then_jump)?;
        self.emit_op(Op::Pop);

        if self.match_token(TokenType::Else)? {
            self.statement()?;
        }
        self.patch_jump(else_jump)?;
        proof {
            assert(unpatched(self.state().chunk()) =~= unpatched(old(self).state().chunk()));
        }

        Ok(())
    }

    /// Whether the innermost function is the script.
    fn in_script(&self) -> (r: bool)
        requires
            self.wf(),
        ensures
            r == (self.state().current().function.kind == crate::value::FunctionKindView::Script),
    {
        match self.compilers[self.compilers.len() - 1].function.kind {
            FunctionKind::Script => true,
            _ => false,
        }
    }

    /// `return` statement, after the keyword.
    fn return_statement(&mut self) -> (r: Result<(), String>)
        requires
            old(self).wf(),
        ensures
            parsed(
                *old(self),
                *final(self),
                r,
                grammar::return_statement(old(self).input(), old(self).state()),
            ),
        decreases old(self).remaining(), 4nat,
    {
        if self.in_script() {
            return failure("Can't return from top-level code.");
        }
        if self.match_token(TokenType::Semicolon)? {
            self.emit_op(Op::Nil);
            self.emit_op(Op::Return);
        } else {
            self.expression()?;
            self.expect(TokenType::Semicolon, "Expect ';' after return value.")?;
            self.emit_op(Op::Return);
        }
        Ok(())
    }

    /// `while` statement, after the keyword.
    fn while_statement(&mut self) -> (r: Result<(), String>)
        requires
            old(self).wf(),
        ensures
            parsed(
                *old(self),
                *final(self),
                r,
                grammar::while_statement(old(self).input(), old(self).state()),
            ),
        decreases old(self).remaining(), 4nat,
    {
        let loop_start = self.code_len()?;
        self.expect(TokenType::LeftParen, "Expect '(' after 'while'.")?;
        self.expression()?;
        self.expect(TokenType::RightParen, "Expect ')' after condition.")?;

        let exit_jump = self.emit_jump(Op::JumpIfFalse)?;
        self.emit_op(Op::Pop);
        self.statement()?;
        self.emit_loop(loop_start)?;

        self.patch_jump(exit_jump)?;
        proof {
            assert(unpatched(self.state().chunk()) =~= unpatched(old(self).state().chunk()));
        }
        self.emit_op(Op::Pop);

        Ok(())
    }

    /// The first clause of a `for` statement.
    fn for_initializer(&mut self) -> (r: Result<(), String>)
        requires
            old(self).wf(),
        ensures
            parsed(
                *old(self),
                *final(self),
                r,
                grammar::for_initializer(old(self).input(), old(self).state()),
            ),
        decreases old(self).remaining(), 5nat,
    {
        if self.match_token(TokenType::Semicolon)? {
            // No initializer
        } else if self.match_token(TokenType::Var)? {
            self.var_declaration()?;
        } else {
            self.expression_statement()?;
        }
        Ok(())
    }

    /// The second clause of a `for` statement. Returns the place of the
    /// jump that leaves the loop, if there is a condition.
    fn for_condition(&mut self) -> (r: Result<Option<u16>, String>)
        requires
            old(self).wf(),
        ensures
            match grammar::for_condition(old(self).input(), old(self).state()) {
                Ok((next, exit_jump)) => r == Ok::<Option<u16>, String>(exit_jump) && emitted(
                    *old(self),
                    *final(self),
                    next,
                ) && unpatched(next.chunk()) == (match exit_jump {
                    Some(at) => unpatched(old(self).state().chunk()).insert(at as int),
                    None => unpatched(old(self).state().chunk()),
                }) && (match exit_jump {
                    Some(at) => !unpatched(old(self).state().chunk()).contains(at as int),
                    None => true,
                }),
                Err(message) => fails_with(r, message),
            },
        decreases old(self).remaining(), 5nat,
    {
        let mut exit_jump = None;
        if !self.match_token(TokenType::Semicolon)? {
            self.expression()?;
            self.expect(TokenType::Semicolon, "Expect ';' after loop condition.")?;

            exit_jump = Some(self.emit_jump(Op::JumpIfFalse)?);
            self.emit_op(Op::Pop);
        }
        Ok(exit_jump)
    }

    /// The third clause of a `for` statement. Returns the place that the
    /// body loops back to.
    fn for_increment(&mut self, loop_start: u16) -> (r: Result<u16, String>)
        requires
            old(self).wf(),
            boundary(old(self).state().chunk(), loop_start as int),
        ensures
            match grammar::for_increment(old(self).input(), old(self).state(), loop_start) {
                Ok((next, start)) => r == Ok::<u16, String>(start) && moved(
                    *old(self),
                    *final(self),
                    next,
                ) && boundary(next.chunk(), start as int),
                Err(message) => fails_with(r, message),
            },
        decreases old(self).remaining(), 5nat,
    {
        let mut loop_start = loop_start;
        if !self.match_token(TokenType::RightParen)? {
            let body_jump = self.emit_jump(Op::Jump)?;
            let increment_start = self.code_len()?;
            self.expression()?;
            self.emit_op(Op::Pop);
            self.expect(TokenType::RightParen, "Expect ')' after for clauses.")?;

            self.emit_loop(loop_start)?;
            loop_start = increment_start;
            self.patch_jump(body_jump)?;
            proof {
                assert(unpatched(self.state().chunk()) =~= unpatched(
                    old(self).state().chunk(),
                ));
            }
        }
        Ok(loop_start)
    }

    /// `for` statement, after the keyword.
    fn for_statement(&mut self) -> (r: Result<(), String>)
        requires
            old(self).wf(),
        ensures
            parsed(
                *old(self),
                *final(self),
                r,
                grammar::for_statement(old(self).input(), old(self).state()),
            ),
        decreases old(self).remaining(), 6nat,
    {
        self.begin_scope();

        self.expect(TokenType::LeftParen, "Expect '(' after 'for'.")?;
        self.for_initializer()?;

        let loop_start = self.code_len()?;
        let exit_jump = self.for_condition()?;
        let loop_start = self.for_increment(loop_start)?;

        self.statement()?;
        self.emit_loop(loop_start)?;

        if let Some(exit_jump) = exit_jump {
            self.patch_jump(exit_jump)?;
            self.emit_op(Op::Pop);
        }
        proof {
            assert(unpatched(self.state().chunk()) =~= unpatched(old(self).state().chunk()));
        }
        self.end_scope();
        Ok(())
    }

    /// A statement.
    fn statement(&mut self) -> (r: Result<(), String>)
        requires
            old(self).wf(),
        ensures
            parsed(
                *old(self),
                *final(self),
                r,
                grammar::statement(old(self).input(), old(self).state()),
            ),
            r is Ok && !old(self).state().is_end(old(self).input()) ==> final(self).remaining()
                < old(self).remaining(),
        decreases old(self).remaining(), 7nat,
    {
        if self.match_token(TokenType::Print)? {
            self.print_statement()?;
        } else if self.match_token(TokenType::If)? {
            self.if_statement()?;
        } else if self.match_token(TokenType::Return)? {
            self.return_statement()?;
        } else if self.match_token(TokenType::While)? {
            self.while_statement()?;
        } else if self.match_token(TokenType::For)? {
            self.for_statement()?;
        } else if self.match_token(TokenType::LeftBrace)? {
            self.begin_scope();
            self.block()?;
            self.end_scope();
        } else {
            self.expression_statement()?;
        }
        Ok(())
    }

    /// The declarations of a block after its `{`, and its `}`.
    fn block(&mut self) -> (r: Result<(), String>)
        requires
            old(self).wf(),
        ensures
            parsed(*old(self), *final(self), r, grammar::block(old(self).input(), old(self).state())),
        decreases old(self).remaining(), 9nat,
    {
        let ghost input = self.input();
        proof {
            lemma_same_chunks(self.state(), self.state());
        }
        while !self.is_end() && !self.check(TokenType::RightBrace)
            invariant
                self.wf(),
                self.input() == input,
                input == old(self).input(),
                self.remaining() <= old(self).remaining(),
                self.state().compilers.len() == old(self).state().compilers.len(),
                self.state().loaded >= old(self).state().loaded,
                same_layout(old(self).state(), self.state()),
                grammar::block(input, old(self).state()) == grammar::block(input, self.state()),
            decreases self.remaining(),
        {
            self.declaration()?;
        }
        self.expect(TokenType::RightBrace, "Expect '}' after block.")?;
        Ok(())
    }
}

impl Parser {
    /// Counts one more parameter of the innermost function.
    fn count_parameter(&mut self) -> (r: Result<(), String>)
        requires
            old(self).wf(),
        ensures
            old(self).state().current().function.arity == 255 ==> fails_with(
                r,
                "Can't have more than 255 parameters."@,
            ),
            old(self).state().current().function.arity < 255 ==> r is Ok && moved(
                *old(self),
                *final(self),
                old(self).state().with_current(
                    CompilerView {
                        function: FunctionView {
                            arity: (old(self).state().current().function.arity + 1) as u8,
                            ..old(self).state().current().function
                        },
                        ..old(self).state().current()
                    },
                ),
            ),
    {
        let mut compiler = self.take_compiler();
        if compiler.function.arity == 255 {
            return failure("Can't have more than 255 parameters.");
        }
        compiler.function.arity = compiler.function.arity + 1;
        self.put_compiler(compiler);
        proof {
            assert(self.state().compilers =~= old(self).state().with_current(
                compiler@,
            ).compilers);
            assert(self.state().compilers.drop_last() =~= old(self).state().compilers.drop_last());
            lemma_same_code(old(self).state(), self.state());
        }
        Ok(())
    }

    /// The parameters of a function: names separated by commas.
    fn parameters(&mut self) -> (r: Result<(), String>)
        requires
            old(self).wf(),
        ensures
            parsed(
                *old(self),
                *final(self),
                r,
                grammar::parameters(old(self).input(), old(self).state()),
            ),
    {
        let ghost input = self.input();
        proof {
            lemma_same_chunks(self.state(), self.state());
        }
        loop
            invariant
                self.wf(),
                self.input() == input,
                input == old(self).input(),
                self.remaining() <= old(self).remaining(),
                self.state().compilers.len() == old(self).state().compilers.len(),
                self.state().loaded >= old(self).state().loaded,
                same_layout(old(self).state(), self.state()),
                grammar::parameters(input, old(self).state()) == grammar::parameters(
                    input,
                    self.state(),
                ),
            decreases self.remaining(),
        {
            self.count_parameter()?;
            let token = self.eat(TokenType::Identifier, "Expect parameter name.")?;
            let name = token.source.as_str();
            self.parse_local_variable(name)?;
            self.mark_init_local(name);

            if !self.match_token(TokenType::Comma)? {
                return Ok(());
            }
        }
    }

    /// Emits the instruction that builds a closure of a function whose code
    /// is in order.
    fn emit_closure(&mut self, function: Function, upvalues: &Vec<Capture>) -> (r: Result<
        (),
        String,
    >)
        requires
            old(self).wf(),
            program_ok(function@),
            function@.upvalue_count == upvalues@.len(),
        ensures
            match old(self).state().chunk().emit_closure(function@, upvalues@) {
                Ok(chunk) => r is Ok && moved(
                    *old(self),
                    *final(self),
                    old(self).state().with_chunk(chunk),
                ),
                Err(message) => fails_with(r, message),
            },
    {
        let mut compiler = self.take_compiler();
        compiler.function.chunk.emit_closure(function, upvalues)?;
        proof {
            lemma_emit_closure(old(self).state().chunk(), function@, upvalues@);
            lemma_rewrite(old(self).state(), compiler@.chunk());
        }
        self.put_compiler(compiler);
        assert(self.state().compilers =~= old(self).state().with_chunk(
            compiler@.chunk(),
        ).compilers);
        Ok(())
    }

    /// A function after its name.
    fn function(&mut self, name: &str) -> (r: Result<(), String>)
        requires
            old(self).wf(),
        ensures
            parsed(
                *old(self),
                *final(self),
                r,
                grammar::function(old(self).input(), old(self).state(), name@),
            ),
        decreases old(self).remaining(), 8nat,
    {
        self.function_compiler(name);
        let ghost entered = self.state();
        self.begin_scope();

        self.expect(TokenType::LeftParen, "Expect '(' after function name.")?;
        if !self.check(TokenType::RightParen) {
            self.parameters()?;
        }
        self.expect(TokenType::RightParen, "Expect ')' after parameters.")?;
        self.expect(TokenType::LeftBrace, "Expect '{' before function body.")?;

        self.block()?;

        let ghost inside = self.state();
        proof {
            lemma_empty_ok();
            assert(entered.compilers.drop_last() =~= old(self).state().compilers);
        }
        let (function, upvalues) = self.end_compiler();
        proof {
            lemma_left_function(old(self).state(), entered, inside, self.state());
        }
        self.emit_closure(function, &upvalues)?;
        Ok(())
    }

    /// `fun` declaration, after the keyword.
    fn fun_declaration(&mut self) -> (r: Result<(), String>)
        requires
            old(self).wf(),
        ensures
            parsed(
                *old(self),
                *final(self),
                r,
                grammar::fun_declaration(old(self).input(), old(self).state()),
            ),
        decreases old(self).remaining(), 9nat,
    {
        let token = self.eat(TokenType::Identifier, "Expect function name.")?;
        let name = token.source.as_str();

        let global = if self.at_top_level() {
            let global = self.add_constant(Value::string(name))?;
            Some(global)
        } else {
            self.parse_local_variable(name)?;
            self.mark_init_local(name);
            None
        };

        self.function(name)?;

        if let Some(global) = global {
            self.emit_pair(Op::DefineGlobal, global);
        }
        Ok(())
    }

    /// Whether the compiler is outside every block.
    fn at_top_level(&self) -> (r: bool)
        requires
            self.wf(),
        ensures
            r == (self.state().scopes().scopes.len() == 0),
    {
        self.compilers[self.compilers.len() - 1].scopes.is_empty()
    }

    /// `var` declaration, after the keyword.
    fn var_declaration(&mut self) -> (r: Result<(), String>)
        requires
            old(self).wf(),
        ensures
            parsed(
                *old(self),
                *final(self),
                r,
                grammar::var_declaration(old(self).input(), old(self).state()),
            ),
        decreases old(self).remaining(), 4nat,
    {
        let token = self.eat(TokenType::Identifier, "Expect variable name.")?;
        let name = token.source.as_str();

        let global = if self.at_top_level() {
            let global = self.add_constant(Value::string(name))?;
            Some(global)
        } else {
            self.parse_local_variable(name)?;
            None
        };

        if self.match_token(TokenType::Equal)? {
            self.expression()?;
        } else {
            self.emit_op(Op::Nil);
        }
        self.expect(TokenType::Semicolon, "Expect ';' after variable declaration.")?;

        match global {
            Some(global) => self.emit_pair(Op::DefineGlobal, global),
            None => self.mark_init_local(name),
        }
        Ok(())
    }

    /// A declaration: a function, a variable, or a statement.
    fn declaration(&mut self) -> (r: Result<(), String>)
        requires
            old(self).wf(),
        ensures
            parsed(
                *old(self),
                *final(self),
                r,
                grammar::declaration(old(self).input(), old(self).state()),
            ),
            r is Ok && !old(self).state().is_end(old(self).input()) ==> final(self).remaining()
                < old(self).remaining(),
        decreases old(self).remaining(), 8nat,
    {
        if self.match_token(TokenType::Fun)? {
            self.fun_declaration()
        } else if self.match_token(TokenType::Var)? {
            self.var_declaration()
        } else {
            self.statement()
        }
    }

    /// A program: declarations up to the end of the tokens. On success the
    /// innermost function holds their code.
    pub fn program(&mut self) -> (r: Result<(), String>)
        requires
            old(self).wf(),
        ensures
            parsed(
                *old(self),
                *final(self),
                r,
                grammar::program(old(self).input(), old(self).state()),
            ),
    {
        let ghost input = self.input();
        proof {
            lemma_same_chunks(self.state(), self.state());
        }
        while !self.is_end()
            invariant
                self.wf(),
                self.input() == input,
                input == old(self).input(),
                self.remaining() <= old(self).remaining(),
                self.state().compilers.len() == old(self).state().compilers.len(),
                self.state().loaded >= old(self).state().loaded,
                same_layout(old(self).state(), self.state()),
                grammar::program(input, old(self).state()) == grammar::program(input, self.state()),
            decreases self.remaining(),
        {
            self.declaration()?;
        }
        Ok(())
    }
}

/// Compiles a source text to the function of its script. `parse` gives the
/// 64-bit pattern of a number from its text. The first error ends the
/// compilation, and its message is returned. The code of the script and of
/// every function in it is made of whole instructions, and every jump in it
/// lands where an instruction begins.
pub fn compile<P: Fn(&str) -> Option<u64>>(source: &str, parse: &P) -> (r: Result<Function, String>)
    requires
        forall|text: &str| call_requires(parse, (text,)),
    ensures
        forall|read: spec_fn(Seq<char>) -> Option<u64>| #[trigger]
            reads(parse, read) ==> match grammar::compile(
                input_of(source@, Place { index: 0, line: 1 }, read),
            ) {
                Ok(function) => r is Ok && r->Ok_0@ == function,
                Err(message) => fails_with(r, message),
            },
        r is Ok ==> program_ok(r->Ok_0@),
{
    let scanner = Scanner::new(source);
    let mut parser = Parser::new(scanner, None, parse);
    proof {
        lemma_empty_ok();
        lemma_current_ok(parser.state());
    }
    let _ = parser.advance()?;
    parser.program()?;
    let (function, _) = parser.end_compiler();
    Ok(function)
}

} // verus!
