//! The state of the compiler for one function, and the stack of these
//! states for the functions that enclose one another.

use vstd::prelude::*;
use vstd::string::*;
use crate::scopes::{Capture, Scopes, ScopesView};
use crate::text::{failure, fails_with};
use crate::value::{Chunk, ChunkView, Function, FunctionView};

verus! {

/// The compiler's state for one function: the function being filled, its
/// scopes, and the variables it captures.
#[derive(Debug)]
pub struct Compiler {
    pub function: Function,
    pub scopes: Scopes,
    pub upvalues: Vec<Capture>,
}

/// The mathematical model of a [`Compiler`].
pub struct CompilerView {
    pub function: FunctionView,
    pub scopes: ScopesView,
    pub upvalues: Seq<Capture>,
}

impl View for Compiler {
    type V = CompilerView;

    open spec fn view(&self) -> CompilerView {
        CompilerView { function: self.function@, scopes: self.scopes@, upvalues: self.upvalues@ }
    }
}

/// The position of a capture in a list of captures.
pub open spec fn position_of(upvalues: Seq<Capture>, capture: Capture) -> Option<int>
    decreases upvalues.len(),
{
    if upvalues.len() == 0 {
        None
    } else if upvalues.last() == capture {
        Some(upvalues.len() - 1)
    } else {
        position_of(upvalues.drop_last(), capture)
    }
}

/// A found position is a position.
pub proof fn lemma_position_of(upvalues: Seq<Capture>, capture: Capture)
    ensures
        match position_of(upvalues, capture) {
            Some(at) => 0 <= at < upvalues.len() && upvalues[at] == capture,
            None => true,
        },
    decreases upvalues.len(),
{
    if upvalues.len() > 0 && upvalues.last() != capture {
        lemma_position_of(upvalues.drop_last(), capture);
    }
}

impl CompilerView {
    /// The state at the start of the script.
    pub open spec fn script() -> CompilerView {
        CompilerView {
            function: FunctionView::new_script(),
            scopes: ScopesView::new(),
            upvalues: Seq::empty(),
        }
    }

    /// The state at the start of a function.
    pub open spec fn function(name: Seq<char>) -> CompilerView {
        CompilerView {
            function: FunctionView::new_function(name),
            scopes: ScopesView::new(),
            upvalues: Seq::empty(),
        }
    }

    /// The scopes are well formed, and the captures fit one byte.
    pub open spec fn wf(self) -> bool {
        self.scopes.wf() && self.upvalues.len() <= 255
    }

    pub open spec fn chunk(self) -> ChunkView {
        self.function.chunk
    }

    pub open spec fn with_chunk(self, chunk: ChunkView) -> CompilerView {
        CompilerView { function: FunctionView { chunk, ..self.function }, ..self }
    }

    pub open spec fn with_scopes(self, scopes: ScopesView) -> CompilerView {
        CompilerView { scopes, ..self }
    }

    /// The finished function: it declares as many captured variables as the
    /// compiler has collected.
    pub open spec fn end(self) -> FunctionView {
        FunctionView { upvalue_count: self.upvalues.len() as u8, ..self.function }
    }

    /// Noting a capture: one that is there already keeps its position, a new
    /// one goes to the end while there are fewer than 255.
    pub open spec fn add_upvalue(self, capture: Capture) -> Result<(CompilerView, u8), Seq<char>> {
        match position_of(self.upvalues, capture) {
            Some(at) => Ok((self, at as u8)),
            None => if self.upvalues.len() >= 255 {
                Err("Too many closure variables in function."@)
            } else {
                Ok(
                    (
                        CompilerView { upvalues: self.upvalues.push(capture), ..self },
                        self.upvalues.len() as u8,
                    ),
                )
            },
        }
    }
}

/// How the innermost function of a stack reaches a variable of a function
/// that encloses it. The variable is looked for among the local variables
/// of the next enclosing function, which is then marked as captured, and
/// otherwise among what that function in turn can reach. The result is the
/// stack after the captures have been noted, and the position of the
/// capture in the innermost function; `None` where no enclosing function
/// has the variable.
pub open spec fn resolve_upvalue(stack: Seq<CompilerView>, name: Seq<char>) -> Result<
    (Seq<CompilerView>, Option<u8>),
    Seq<char>,
>
    decreases stack.len(),
{
    if stack.len() < 2 {
        Ok((stack, None))
    } else {
        let top = stack.last();
        let rest = stack.drop_last();
        let enclosing = rest.last();
        match enclosing.scopes.resolve_local(name) {
            Err(message) => Err(message),
            Ok(Some(local)) => match top.add_upvalue(
                Capture { is_local: true, index: local.index },
            ) {
                Err(message) => Err(message),
                Ok((noted, at)) => Ok(
                    (
                        rest.update(
                            rest.len() - 1,
                            enclosing.with_scopes(enclosing.scopes.mark_captured_local(name)),
                        ).push(noted),
                        Some(at),
                    ),
                ),
            },
            Ok(None) => match resolve_upvalue(rest, name) {
                Err(message) => Err(message),
                Ok((outer, None)) => Ok((outer.push(top), None)),
                Ok((outer, Some(index))) => match top.add_upvalue(
                    Capture { is_local: false, index },
                ) {
                    Err(message) => Err(message),
                    Ok((noted, at)) => Ok((outer.push(noted), Some(at))),
                },
            },
        }
    }
}

/// The models of a stack of compilers.
pub open spec fn compiler_views(stack: Seq<Compiler>) -> Seq<CompilerView> {
    stack.map_values(|compiler: Compiler| compiler@)
}

/// Whether every compiler of a stack is well formed.
pub open spec fn all_wf(stack: Seq<CompilerView>) -> bool {
    forall|i: int| 0 <= i < stack.len() ==> (#[trigger] stack[i]).wf()
}

/// Resolving a capture keeps the height of the stack, keeps it well
/// formed, and leaves every function's code and kind as they are.
pub proof fn lemma_resolve_upvalue(stack: Seq<CompilerView>, name: Seq<char>)
    requires
        all_wf(stack),
    ensures
        match resolve_upvalue(stack, name) {
            Ok((after, _)) => after.len() == stack.len() && all_wf(after) && (forall|i: int|
                0 <= i < stack.len() ==> (#[trigger] after[i]).function == stack[i].function),
            Err(_) => true,
        },
    decreases stack.len(),
{
    if stack.len() >= 2 {
        let top = stack.last();
        let rest = stack.drop_last();
        let enclosing = rest.last();
        lemma_position_of(top.upvalues, Capture { is_local: true, index: 0 });
        match enclosing.scopes.resolve_local(name) {
            Err(message) => {},
            Ok(Some(local)) => {
                let marked = enclosing.scopes.mark_captured_local(name);
                assert(marked.wf()) by {
                    crate::scopes::lemma_innermost(enclosing.scopes.scopes, name);
                    match crate::scopes::innermost(enclosing.scopes.scopes, name) {
                        Some(depth) => {
                            crate::scopes::lemma_find(enclosing.scopes.scopes[depth], name);
                            crate::scopes::lemma_total_update(
                                enclosing.scopes.scopes,
                                depth,
                                marked.scopes[depth],
                            );
                        },
                        None => {},
                    }
                }
            },
            Ok(None) => {
                lemma_resolve_upvalue(rest, name);
            },
        }
    }
}

impl Compiler {
    /// The compiler of the script.
    pub fn script() -> (r: Self)
        ensures
            r@ == CompilerView::script(),
            r@.wf(),
    {
        Compiler { function: Function::new_script(), scopes: Scopes::new(), upvalues: Vec::new() }
    }

    /// The compiler of a function.
    pub fn function(name: &str) -> (r: Self)
        ensures
            r@ == CompilerView::function(name@),
            r@.wf(),
    {
        Compiler {
            function: Function::new_function(name),
            scopes: Scopes::new(),
            upvalues: Vec::new(),
        }
    }

    /// Finishes the function: returns it with the captures that a closure
    /// of it has to make.
    pub fn end(self) -> (r: (Function, Vec<Capture>))
        requires
            self@.wf(),
        ensures
            r.0@ == self@.end(),
            r.1@ == self@.upvalues,
    {
        let mut function = self.function;
        function.upvalue_count = self.upvalues.len() as u8;
        (function, self.upvalues)
    }

    /// The chunk being filled.
    pub fn chunk(&mut self) -> (r: &mut Chunk)
        ensures
            *r == old(self).function.chunk,
            *final(self) == (Compiler {
                function: Function { chunk: *final(r), ..old(self).function },
                ..*old(self)
            }),
    {
        &mut self.function.chunk
    }

    /// Emits the operand bytes of the captures of a closure.
    pub fn emit_upvalues(&mut self, upvalues: Vec<Capture>)
        ensures
            final(self)@ == old(self)@.with_chunk(
                old(self)@.chunk().emit(ChunkView::capture_bytes(upvalues@)),
            ),
    {
        let ghost base = self@.chunk();
        let mut i: usize = 0;
        proof {
            assert(base.emit(ChunkView::capture_bytes(upvalues@.take(0))) =~= base);
        }
        while i < upvalues.len()
            invariant
                i <= upvalues.len(),
                base == old(self)@.chunk(),
                self@ == old(self)@.with_chunk(
                    base.emit(ChunkView::capture_bytes(upvalues@.take(i as int))),
                ),
            decreases upvalues.len() - i,
        {
            self.chunk().emit_upvalue(upvalues[i]);
            proof {
                assert(upvalues@.take(i + 1).drop_last() =~= upvalues@.take(i as int));
                assert(self@.chunk().codes =~= base.codes + ChunkView::capture_bytes(
                    upvalues@.take(i + 1),
                ));
            }
            i += 1;
        }
        assert(upvalues@.take(i as int) =~= upvalues@);
    }

    /// Notes a capture and returns its position.
    pub fn add_upvalue(&mut self, index: u8, is_local: bool) -> (r: Result<u8, String>)
        requires
            old(self)@.wf(),
        ensures
            match old(self)@.add_upvalue(Capture { is_local, index }) {
                Ok((compiler, at)) => r == Ok::<u8, String>(at) && final(self)@ == compiler,
                Err(message) => fails_with(r, message) && final(self)@ == old(self)@,
            },
            final(self)@.wf(),
    {
        let capture = Capture { is_local, index };
        let mut i = self.upvalues.len();
        assert(self.upvalues@.take(i as int) =~= self.upvalues@);
        proof {
            lemma_position_of(self.upvalues@, capture);
        }
        while i > 0
            invariant
                i <= self.upvalues.len(),
                capture == (Capture { is_local, index }),
                *self == *old(self),
                self@.wf(),
                position_of(self.upvalues@, capture) == position_of(
                    self.upvalues@.take(i as int),
                    capture,
                ),
            decreases i,
        {
            i -= 1;
            assert(self.upvalues@.take(i + 1).drop_last() =~= self.upvalues@.take(i as int));
            let found = self.upvalues[i];
            assert(self.upvalues@.take(i + 1).last() == found);
            if found.is_local == is_local && found.index == index {
                assert(found == capture);
                return Ok(i as u8);
            }
            assert(found != capture);
        }
        let len = self.upvalues.len();
        if len >= 255 {
            return failure("Too many closure variables in function.");
        }
        self.upvalues.push(capture);
        Ok(len as u8)
    }

    /// How the innermost function of a stack reaches a variable of a
    /// function that encloses it: the position of the capture, or `None`
    /// where no enclosing function has the variable. After an error the
    /// stack is not to be used.
    pub fn resolve_upvalue(stack: &mut Vec<Compiler>, name: &str) -> (r: Result<
        Option<u8>,
        String,
    >)
        requires
            all_wf(compiler_views(old(stack)@)),
        ensures
            match resolve_upvalue(compiler_views(old(stack)@), name@) {
                Ok((after, at)) => r == Ok::<Option<u8>, String>(at) && compiler_views(
                    final(stack)@,
                ) == after,
                Err(message) => fails_with(r, message),
            },
        decreases old(stack).len(),
    {
        if stack.len() < 2 {
            return Ok(None);
        }
        let ghost before = compiler_views(stack@);
        let mut top = stack.pop().unwrap();
        let mut enclosing = stack.pop().unwrap();
        let ghost below = compiler_views(stack@);
        proof {
            assert(before.drop_last().drop_last() =~= below);
            assert(before.drop_last() =~= below.push(enclosing@));
            assert(before =~= below.push(enclosing@).push(top@));
            assert(before[before.len() - 1].wf());
            assert(before[before.len() - 2].wf());
        }
        match enclosing.scopes.resolve_local(name)? {
            Some(local) => {
                enclosing.scopes.mark_captured_local(name);
                let at = top.add_upvalue(local.index, true)?;
                stack.push(enclosing);
                stack.push(top);
                proof {
                    assert(compiler_views(stack@) =~= before.drop_last().update(
                        before.len() - 2,
                        before[before.len() - 2].with_scopes(
                            before[before.len() - 2].scopes.mark_captured_local(name@),
                        ),
                    ).push(top@));
                }
                Ok(Some(at))
            },
            None => {
                stack.push(enclosing);
                proof {
                    assert(compiler_views(stack@) =~= before.drop_last());
                    lemma_resolve_upvalue(before.drop_last(), name@);
                }
                let found = Self::resolve_upvalue(stack, name)?;
                let r = match found {
                    Some(index) => Some(top.add_upvalue(index, false)?),
                    None => None,
                };
                let ghost outer = compiler_views(stack@);
                stack.push(top);
                proof {
                    assert(compiler_views(stack@) =~= outer.push(top@));
                }
                Ok(r)
            },
        }
    }
}

} // verus!
