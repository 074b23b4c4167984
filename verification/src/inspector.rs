//! An observer for tests: it keeps each function that the compiler
//! completes, and the operand stack before each instruction that the machine
//! dispatches.

use vstd::prelude::*;
use vstd::string::*;
use crate::disassembly::bytecodes_text;
use crate::render::{debug_values, function_text, list_text, renders};
use crate::value::{lemma_views, Function, FunctionView, Value, ValueView, views};

verus! {

/// The observer.
#[derive(Debug)]
pub struct Inspector {
    pub bytecode_snapshot: Vec<Function>,
    pub stack_snapshot: Vec<Vec<Value>>,
}

/// The mathematical model of an [`Inspector`].
pub struct InspectorView {
    pub functions: Seq<FunctionView>,
    pub stacks: Seq<Seq<ValueView>>,
}

/// The models of a sequence of functions.
pub open spec fn function_views(functions: Seq<Function>) -> Seq<FunctionView> {
    functions.map_values(|function: Function| function@)
}

/// The models of a sequence of stacks.
pub open spec fn stack_views(stacks: Seq<Vec<Value>>) -> Seq<Seq<ValueView>> {
    stacks.map_values(|stack: Vec<Value>| views(stack@))
}

impl View for Inspector {
    type V = InspectorView;

    open spec fn view(&self) -> InspectorView {
        InspectorView {
            functions: function_views(self.bytecode_snapshot@),
            stacks: stack_views(self.stack_snapshot@),
        }
    }
}

impl InspectorView {
    pub open spec fn empty() -> InspectorView {
        InspectorView { functions: Seq::empty(), stacks: Seq::empty() }
    }

    pub open spec fn catch_bytecode(self, function: FunctionView) -> InspectorView {
        InspectorView { functions: self.functions.push(function), ..self }
    }

    pub open spec fn catch_stack(self, stack: Seq<ValueView>) -> InspectorView {
        InspectorView { stacks: self.stacks.push(stack), ..self }
    }

    /// The observer after it has caught a sequence of stacks.
    pub open spec fn catch_stacks(self, stacks: Seq<Seq<ValueView>>) -> InspectorView {
        InspectorView { stacks: self.stacks + stacks, ..self }
    }
}

/// The model of an observer that may be absent.
pub open spec fn observer_view(inspector: Option<Inspector>) -> Option<InspectorView> {
    match inspector {
        Some(inspector) => Some(inspector@),
        None => None,
    }
}

/// A copy of a stack.
pub fn clone_values(values: &Vec<Value>) -> (r: Vec<Value>)
    ensures
        views(r@) == views(values@),
{
    let mut r: Vec<Value> = Vec::new();
    let mut i: usize = 0;
    while i < values.len()
        invariant
            i <= values.len(),
            r.len() == i,
            forall|j: int| 0 <= j < i ==> r[j]@ == values[j]@,
        decreases values.len() - i,
    {
        r.push(values[i].clone());
        i += 1;
    }
    proof {
        lemma_views(r@);
        lemma_views(values@);
        assert(views(r@) =~= views(values@));
    }
    r
}

impl Inspector {
    pub fn new() -> (r: Self)
        ensures
            r@ == InspectorView::empty(),
    {
        let r = Inspector { bytecode_snapshot: Vec::new(), stack_snapshot: Vec::new() };
        assert(r@.functions =~= Seq::empty());
        assert(r@.stacks =~= Seq::empty());
        r
    }

    /// Keeps a completed function.
    pub fn catch_bytecode(&mut self, f: Function)
        ensures
            final(self)@ == old(self)@.catch_bytecode(f@),
    {
        self.bytecode_snapshot.push(f);
        assert(self@.functions =~= old(self)@.functions.push(f@));
    }

    /// Keeps a stack.
    pub fn catch_stack(&mut self, s: Vec<Value>)
        ensures
            final(self)@ == old(self)@.catch_stack(views(s@)),
    {
        self.stack_snapshot.push(s);
        assert(self@.stacks =~= old(self)@.stacks.push(views(s@)));
    }
}

/// The functions that an observer has kept.
#[derive(Debug)]
pub struct BytecodeSnapshot(pub Vec<Function>);

/// The stacks that an observer has kept.
#[derive(Debug)]
pub struct StackSnapshot(pub Vec<Vec<Value>>);

/// The heading of a function's disassembly.
pub open spec fn heading(function: FunctionView) -> Seq<char> {
    "== "@ + function_text(function) + " =="@
}

/// The disassembly of each function under its heading, one after the other.
pub open spec fn bytecode_text(functions: Seq<FunctionView>, shown: spec_fn(u64) -> Seq<char>) -> Seq<
    char,
>
    decreases functions.len(),
{
    if functions.len() == 0 {
        Seq::empty()
    } else {
        bytecode_text(functions.drop_last(), shown) + bytecodes_text(
            functions.last().chunk,
            heading(functions.last()),
            shown,
        )
    }
}

/// One line for each stack.
pub open spec fn stack_lines(stacks: Seq<Seq<ValueView>>, shown: spec_fn(u64) -> Seq<char>) -> Seq<
    char,
>
    decreases stacks.len(),
{
    if stacks.len() == 0 {
        Seq::empty()
    } else {
        stack_lines(stacks.drop_last(), shown) + list_text(stacks.last(), shown) + "\n"@
    }
}

/// The stacks under their heading.
pub open spec fn stack_text(stacks: Seq<Seq<ValueView>>, shown: spec_fn(u64) -> Seq<char>) -> Seq<
    char,
> {
    "== VM Stack Snapshot ==\n"@ + stack_lines(stacks, shown)
}

impl BytecodeSnapshot {
    /// The disassembly of the functions. `render` gives the text of a number
    /// from its 64-bit pattern.
    pub fn debug<R: Fn(u64) -> String>(&self, render: &R) -> (r: String)
        requires
            forall|bits: u64| call_requires(render, (bits,)),
        ensures
            forall|shown: spec_fn(u64) -> Seq<char>| #[trigger]
                renders(render, shown) ==> r@ == bytecode_text(function_views(self.0@), shown),
    {
        let mut r = String::new();
        let mut i: usize = 0;
        let ghost functions = function_views(self.0@);
        assert(functions.take(0) =~= Seq::empty());
        while i < self.0.len()
            invariant
                i <= self.0.len(),
                functions == function_views(self.0@),
                forall|bits: u64| call_requires(render, (bits,)),
                forall|shown: spec_fn(u64) -> Seq<char>| #[trigger]
                    renders(render, shown) ==> r@ == bytecode_text(functions.take(i as int), shown),
            decreases self.0.len() - i,
        {
            let function = &self.0[i];
            let mut prefix = "== ".to_owned();
            prefix.append(function.debug().as_str());
            prefix.append(" ==");
            let text = function.chunk.debug_bytecodes(prefix.as_str(), render);
            r.append(text.as_str());
            proof {
                assert(functions.take(i + 1).drop_last() =~= functions.take(i as int));
                assert(functions.take(i + 1).last() == function@);
            }
            i += 1;
        }
        assert(functions.take(i as int) =~= functions);
        r
    }
}

impl StackSnapshot {
    /// The stacks, one a line. `render` gives the text of a number from its
    /// 64-bit pattern.
    pub fn debug<R: Fn(u64) -> String>(&self, render: &R) -> (r: String)
        requires
            forall|bits: u64| call_requires(render, (bits,)),
        ensures
            forall|shown: spec_fn(u64) -> Seq<char>| #[trigger]
                renders(render, shown) ==> r@ == stack_text(stack_views(self.0@), shown),
    {
        let mut r = "== VM Stack Snapshot ==\n".to_owned();
        let ghost head = r@;
        let mut i: usize = 0;
        let ghost stacks = stack_views(self.0@);
        assert(stacks.take(0) =~= Seq::empty());
        assert(head + Seq::<char>::empty() =~= head);
        while i < self.0.len()
            invariant
                i <= self.0.len(),
                stacks == stack_views(self.0@),
                head == "== VM Stack Snapshot ==\n"@,
                forall|bits: u64| call_requires(render, (bits,)),
                forall|shown: spec_fn(u64) -> Seq<char>| #[trigger]
                    renders(render, shown) ==> r@ == head + stack_lines(
                        stacks.take(i as int),
                        shown,
                    ),
            decreases self.0.len() - i,
        {
            let text = debug_values(&self.0[i], render);
            let ghost before = r@;
            r.append(text.as_str());
            r.append("\n");
            proof {
                assert(stacks.take(i + 1).drop_last() =~= stacks.take(i as int));
                assert(stacks.take(i + 1).last() == views(self.0[i as int]@));
                assert forall|shown: spec_fn(u64) -> Seq<char>| #[trigger]
                    renders(render, shown) implies r@ == head + stack_lines(
                    stacks.take(i + 1),
                    shown,
                ) by {
                    assert(r@ =~= head + (stack_lines(stacks.take(i as int), shown) + text@
                        + "\n"@));
                }
            }
            i += 1;
        }
        assert(stacks.take(i as int) =~= stacks);
        r
    }
}

/// A copy of a sequence of functions.
fn clone_functions(functions: &Vec<Function>) -> (r: Vec<Function>)
    ensures
        function_views(r@) == function_views(functions@),
{
    let mut r: Vec<Function> = Vec::new();
    let mut i: usize = 0;
    while i < functions.len()
        invariant
            i <= functions.len(),
            r.len() == i,
            forall|j: int| 0 <= j < i ==> r[j]@ == functions[j]@,
        decreases functions.len() - i,
    {
        r.push(functions[i].clone());
        i += 1;
    }
    assert(function_views(r@) =~= function_views(functions@));
    r
}

/// A copy of a sequence of stacks.
fn clone_stacks(stacks: &Vec<Vec<Value>>) -> (r: Vec<Vec<Value>>)
    ensures
        stack_views(r@) == stack_views(stacks@),
{
    let mut r: Vec<Vec<Value>> = Vec::new();
    let mut i: usize = 0;
    while i < stacks.len()
        invariant
            i <= stacks.len(),
            r.len() == i,
            forall|j: int| 0 <= j < i ==> views(r[j]@) == views(stacks[j]@),
        decreases stacks.len() - i,
    {
        r.push(clone_values(&stacks[i]));
        i += 1;
    }
    assert(stack_views(r@) =~= stack_views(stacks@));
    r
}

impl Inspector {
    /// The functions that the observer has kept, in the order in which the
    /// compiler completed them.
    pub fn debug_bytecode(&self) -> (r: BytecodeSnapshot)
        ensures
            function_views(r.0@) == self@.functions,
    {
        BytecodeSnapshot(clone_functions(&self.bytecode_snapshot))
    }

    /// The stacks that the observer has kept, in the order in which the
    /// machine dispatched the instructions.
    pub fn debug_stack(&self) -> (r: StackSnapshot)
        ensures
            stack_views(r.0@) == self@.stacks,
    {
        StackSnapshot(clone_stacks(&self.stack_snapshot))
    }
}

} // verus!
