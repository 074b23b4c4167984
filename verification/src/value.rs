//! Run-time values: nil, booleans, numbers, strings, functions and closures.

use vstd::prelude::*;
use crate::number;

verus! {

/// What a function is: the top-level script, or a declared function.
#[derive(Debug)]
pub enum FunctionKind {
    Function { name: String },
    Script,
}

/// The mathematical model of a [`FunctionKind`].
pub enum FunctionKindView {
    Function { name: Seq<char> },
    Script,
}

impl View for FunctionKind {
    type V = FunctionKindView;

    open spec fn view(&self) -> FunctionKindView {
        match self {
            FunctionKind::Function { name } => FunctionKindView::Function { name: name@ },
            FunctionKind::Script => FunctionKindView::Script,
        }
    }
}

impl Clone for FunctionKind {
    fn clone(&self) -> (r: Self)
        ensures
            r@ == self@,
    {
        match self {
            FunctionKind::Function { name } => FunctionKind::Function { name: name.clone() },
            FunctionKind::Script => FunctionKind::Script,
        }
    }
}

/// A compiled function: its bytecode, the number of its parameters and the
/// number of variables it captures.
#[derive(Debug)]
pub struct Function {
    pub kind: FunctionKind,
    pub arity: u8,
    pub upvalue_count: u8,
    pub chunk: Chunk,
}

/// The mathematical model of a [`Function`].
pub struct FunctionView {
    pub kind: FunctionKindView,
    pub arity: u8,
    pub upvalue_count: u8,
    pub chunk: ChunkView,
}

impl View for Function {
    type V = FunctionView;

    open spec fn view(&self) -> FunctionView
        decreases self,
    {
        FunctionView {
            kind: self.kind@,
            arity: self.arity,
            upvalue_count: self.upvalue_count,
            chunk: self.chunk@,
        }
    }
}

impl FunctionView {
    /// An empty function with the given name.
    pub open spec fn new_function(name: Seq<char>) -> FunctionView {
        FunctionView {
            kind: FunctionKindView::Function { name },
            arity: 0,
            upvalue_count: 0,
            chunk: ChunkView::empty(),
        }
    }

    /// The empty script.
    pub open spec fn new_script() -> FunctionView {
        FunctionView {
            kind: FunctionKindView::Script,
            arity: 0,
            upvalue_count: 0,
            chunk: ChunkView::empty(),
        }
    }
}

impl Function {
    pub fn new_function(name: &str) -> (r: Self)
        ensures
            r@ == FunctionView::new_function(name@),
    {
        Function {
            kind: FunctionKind::Function { name: name.to_owned() },
            arity: 0,
            upvalue_count: 0,
            chunk: Chunk::new(),
        }
    }

    pub fn new_script() -> (r: Self)
        ensures
            r@ == FunctionView::new_script(),
    {
        Function { kind: FunctionKind::Script, arity: 0, upvalue_count: 0, chunk: Chunk::new() }
    }
}

impl Clone for Function {
    fn clone(&self) -> (r: Self)
        ensures
            r@ == self@,
        decreases self,
    {
        Function {
            kind: self.kind.clone(),
            arity: self.arity,
            upvalue_count: self.upvalue_count,
            chunk: self.chunk.clone(),
        }
    }
}

/// A captured variable at run time: the number of the machine's cell that
/// holds its value. Closures that share a variable hold the same number.
#[derive(Clone, Copy, Debug, PartialEq, Eq, Structural)]
pub struct Upvalue {
    pub cell: usize,
}

impl Upvalue {
    pub fn new(cell: usize) -> (r: Self)
        ensures
            r.cell == cell,
    {
        Upvalue { cell }
    }

    /// The value of the captured variable, if the cell exists.
    pub fn get(&self, cells: &Vec<Value>) -> (r: Option<Value>)
        ensures
            self.cell < cells.len() ==> r.is_some() && r.unwrap()@ == cells[self.cell as int]@,
            self.cell >= cells.len() ==> r.is_none(),
    {
        if self.cell < cells.len() {
            Some(cells[self.cell].clone())
        } else {
            None
        }
    }

    /// Stores a value in the captured variable; reports whether the cell
    /// exists.
    pub fn set(&self, cells: &mut Vec<Value>, value: Value) -> (r: bool)
        ensures
            r == (self.cell < old(cells).len()),
            r ==> final(cells)@ == old(cells)@.update(self.cell as int, value),
            !r ==> final(cells)@ == old(cells)@,
    {
        if self.cell < cells.len() {
            cells[self.cell] = value;
            true
        } else {
            false
        }
    }
}

/// The cells that a sequence of captured variables names.
pub open spec fn cells_of(upvalues: Seq<Upvalue>) -> Seq<nat> {
    Seq::new(upvalues.len(), |i: int| upvalues[i].cell as nat)
}

/// A function together with the variables it has captured.
#[derive(Debug)]
pub struct Closure {
    pub function: Function,
    pub upvalues: Vec<Upvalue>,
}

/// The mathematical model of a [`Closure`]: its function and the cells of
/// its captured variables.
pub struct ClosureView {
    pub function: FunctionView,
    pub upvalues: Seq<nat>,
}

impl View for Closure {
    type V = ClosureView;

    open spec fn view(&self) -> ClosureView
        decreases self,
    {
        ClosureView { function: self.function@, upvalues: cells_of(self.upvalues@) }
    }
}

impl Closure {
    /// A closure that has captured nothing yet.
    pub fn new(function: Function) -> (r: Self)
        ensures
            r@ == (ClosureView { function: function@, upvalues: Seq::empty() }),
    {
        let r = Closure { function, upvalues: Vec::new() };
        assert(r@.upvalues =~= Seq::empty());
        r
    }
}

impl Clone for Closure {
    fn clone(&self) -> (r: Self)
        ensures
            r@ == self@,
        decreases self,
    {
        let mut upvalues: Vec<Upvalue> = Vec::new();
        let mut i: usize = 0;
        while i < self.upvalues.len()
            invariant
                i <= self.upvalues.len(),
                upvalues@ == self.upvalues@.take(i as int),
            decreases self.upvalues.len() - i,
        {
            upvalues.push(self.upvalues[i]);
            assert(self.upvalues@.take(i + 1) =~= self.upvalues@.take(i as int).push(
                self.upvalues[i as int],
            ));
            i += 1;
        }
        assert(self.upvalues@.take(i as int) =~= self.upvalues@);
        Closure { function: self.function.clone(), upvalues }
    }
}

/// A value of the language.
#[derive(Debug)]
pub enum Value {
    Bool(bool),
    Nil,
    /// A double-precision number, as its 64-bit pattern.
    Number(u64),
    String(String),
    Function(Function),
    Closure(Closure),
}

/// The mathematical model of a [`Value`].
pub enum ValueView {
    Bool(bool),
    Nil,
    Number(u64),
    String(Seq<char>),
    Function(FunctionView),
    Closure(ClosureView),
}

impl View for Value {
    type V = ValueView;

    open spec fn view(&self) -> ValueView
        decreases self,
    {
        match self {
            Value::Bool(v) => ValueView::Bool(*v),
            Value::Nil => ValueView::Nil,
            Value::Number(v) => ValueView::Number(*v),
            Value::String(v) => ValueView::String(v@),
            Value::Function(v) => ValueView::Function(v@),
            Value::Closure(v) => ValueView::Closure(v@),
        }
    }
}

/// The models of a sequence of values, in order.
pub open spec fn views(values: Seq<Value>) -> Seq<ValueView>
    decreases values,
{
    if values.len() == 0 {
        Seq::empty()
    } else {
        views(values.drop_last()).push(values.last()@)
    }
}

/// `views` keeps the length and maps each value to its model.
pub proof fn lemma_views(values: Seq<Value>)
    ensures
        views(values).len() == values.len(),
        forall|i: int| 0 <= i < values.len() ==> #[trigger] views(values)[i] == values[i]@,
    decreases values.len(),
{
    if values.len() > 0 {
        lemma_views(values.drop_last());
        assert(views(values.drop_last()).len() == values.len() - 1);
        assert(views(values) == views(values.drop_last()).push(values.last()@));
        assert(views(values).len() == values.len());
    }
}

/// `views` of a sequence with one value replaced.
pub proof fn lemma_views_update(values: Seq<Value>, i: int, value: Value)
    requires
        0 <= i < values.len(),
    ensures
        views(values.update(i, value)) == views(values).update(i, value@),
{
    lemma_views(values);
    lemma_views(values.update(i, value));
    assert(views(values.update(i, value)) =~= views(values).update(i, value@));
}

/// `views` of the first values of a sequence.
pub proof fn lemma_views_take(values: Seq<Value>, count: int)
    requires
        0 <= count <= values.len(),
    ensures
        views(values.take(count)) == views(values).take(count),
{
    lemma_views(values);
    lemma_views(values.take(count));
    assert(views(values.take(count)) =~= views(values).take(count));
}

/// `views` of a sequence with one more value.
pub proof fn lemma_views_push(values: Seq<Value>, value: Value)
    ensures
        views(values.push(value)) == views(values).push(value@),
{
    assert(values.push(value).drop_last() =~= values);
}

impl Clone for Value {
    fn clone(&self) -> (r: Self)
        ensures
            r@ == self@,
        decreases self,
    {
        match self {
            Value::Bool(v) => Value::Bool(*v),
            Value::Nil => Value::Nil,
            Value::Number(v) => Value::Number(*v),
            Value::String(v) => Value::String(v.clone()),
            Value::Function(v) => Value::Function(v.clone()),
            Value::Closure(v) => Value::Closure(v.clone()),
        }
    }
}

impl ValueView {
    /// What conditions treat as false: nil and the boolean false.
    pub open spec fn is_falsey(self) -> bool {
        self == ValueView::Nil || self == ValueView::Bool(false)
    }

    /// Equality of values: numbers as numbers, booleans and strings by
    /// content, nil with nil; values of different kinds, functions and
    /// closures are never equal.
    pub open spec fn equal(self, other: ValueView) -> bool {
        match (self, other) {
            (ValueView::Number(a), ValueView::Number(b)) => number::equal_spec(a, b),
            (ValueView::Bool(a), ValueView::Bool(b)) => a == b,
            (ValueView::Nil, ValueView::Nil) => true,
            (ValueView::String(a), ValueView::String(b)) => a == b,
            _ => false,
        }
    }
}

impl Value {
    pub fn bool(v: bool) -> (r: Self)
        ensures
            r@ == ValueView::Bool(v),
    {
        Value::Bool(v)
    }

    pub fn nil() -> (r: Self)
        ensures
            r@ == ValueView::Nil,
    {
        Value::Nil
    }

    /// The number with the given 64-bit pattern.
    pub fn number(v: u64) -> (r: Self)
        ensures
            r@ == ValueView::Number(v),
    {
        Value::Number(v)
    }

    pub fn string(v: &str) -> (r: Self)
        ensures
            r@ == ValueView::String(v@),
    {
        Value::String(v.to_owned())
    }

    pub fn function(v: Function) -> (r: Self)
        ensures
            r@ == ValueView::Function(v@),
    {
        Value::Function(v)
    }

    pub fn closure(v: Closure) -> (r: Self)
        ensures
            r@ == ValueView::Closure(v@),
    {
        Value::Closure(v)
    }

    pub fn as_bool(self) -> (r: Option<bool>)
        ensures
            r == (match self@ {
                ValueView::Bool(v) => Some(v),
                _ => None,
            }),
    {
        match self {
            Value::Bool(v) => Some(v),
            _ => None,
        }
    }

    /// The 64-bit pattern of a number.
    pub fn as_number(self) -> (r: Option<u64>)
        ensures
            r == (match self@ {
                ValueView::Number(v) => Some(v),
                _ => None,
            }),
    {
        match self {
            Value::Number(v) => Some(v),
            _ => None,
        }
    }

    pub fn as_string(self) -> (r: Option<String>)
        ensures
            match self@ {
                ValueView::String(v) => r.is_some() && r.unwrap()@ == v,
                _ => r.is_none(),
            },
    {
        match self {
            Value::String(v) => Some(v),
            _ => None,
        }
    }

    pub fn as_function(self) -> (r: Option<Function>)
        ensures
            match self@ {
                ValueView::Function(v) => r.is_some() && r.unwrap()@ == v,
                _ => r.is_none(),
            },
    {
        match self {
            Value::Function(v) => Some(v),
            _ => None,
        }
    }

    pub fn as_closure(self) -> (r: Option<Closure>)
        ensures
            match self@ {
                ValueView::Closure(v) => r.is_some() && r.unwrap()@ == v,
                _ => r.is_none(),
            },
    {
        match self {
            Value::Closure(v) => Some(v),
            _ => None,
        }
    }

    pub fn is_bool(&self) -> (r: bool)
        ensures
            r == (self@ is Bool),
    {
        matches!(self, Value::Bool(_))
    }

    pub fn is_nil(&self) -> (r: bool)
        ensures
            r == (self@ is Nil),
    {
        matches!(self, Value::Nil)
    }

    pub fn is_number(&self) -> (r: bool)
        ensures
            r == (self@ is Number),
    {
        matches!(self, Value::Number(_))
    }

    pub fn is_falsey(&self) -> (r: bool)
        ensures
            r == self@.is_falsey(),
    {
        match self {
            Value::Nil => true,
            Value::Bool(v) => !*v,
            _ => false,
        }
    }

    pub fn is_string(&self) -> (r: bool)
        ensures
            r == (self@ is String),
    {
        matches!(self, Value::String(_))
    }

    pub fn is_function(&self) -> (r: bool)
        ensures
            r == (self@ is Function),
    {
        matches!(self, Value::Function(_))
    }

    pub fn equal(a: &Self, b: &Self) -> (r: bool)
        ensures
            r == a@.equal(b@),
    {
        match (a, b) {
            (Value::Number(a), Value::Number(b)) => number::equal(*a, *b),
            (Value::Bool(a), Value::Bool(b)) => *a == *b,
            (Value::Nil, Value::Nil) => true,
            (Value::String(a), Value::String(b)) => *a == *b,
            _ => false,
        }
    }
}

/// One function's bytecode and its pool of constants.
#[derive(Debug)]
pub struct Chunk {
    pub codes: Vec<u8>,
    pub constants: Vec<Value>,
}

/// The mathematical model of a [`Chunk`].
pub struct ChunkView {
    pub codes: Seq<u8>,
    pub constants: Seq<ValueView>,
}

impl View for Chunk {
    type V = ChunkView;

    open spec fn view(&self) -> ChunkView
        decreases self,
    {
        ChunkView { codes: self.codes@, constants: views(self.constants@) }
    }
}

impl ChunkView {
    pub open spec fn empty() -> ChunkView {
        ChunkView { codes: Seq::empty(), constants: Seq::empty() }
    }
}

impl Chunk {
    pub fn new() -> (r: Self)
        ensures
            r@ == ChunkView::empty(),
    {
        Chunk { codes: Vec::new(), constants: Vec::new() }
    }
}

impl Clone for Chunk {
    fn clone(&self) -> (r: Self)
        ensures
            r@ == self@,
        decreases self,
    {
        let mut constants: Vec<Value> = Vec::new();
        let mut i: usize = 0;
        while i < self.constants.len()
            invariant
                i <= self.constants.len(),
                views(constants@) == views(self.constants@.take(i as int)),
            decreases self.constants.len() - i,
        {
            let value = self.constants[i].clone();
            proof {
                lemma_views_push(constants@, value);
                lemma_views_push(self.constants@.take(i as int), self.constants[i as int]);
                assert(self.constants@.take(i + 1) =~= self.constants@.take(i as int).push(
                    self.constants[i as int],
                ));
            }
            constants.push(value);
            i += 1;
        }
        assert(self.constants@.take(i as int) =~= self.constants@);
        Chunk { codes: self.codes.clone(), constants }
    }
}

} // verus!
