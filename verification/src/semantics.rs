//! The meaning of bytecode: the state of the machine as a mathematical value,
//! and what one instruction makes of it.

use vstd::prelude::*;
use crate::chunk::{short_of, Op};
use crate::number;
use crate::number::Arithmetic;
use crate::text::decimal;
use crate::value::{ClosureView, FunctionView, ValueView};

verus! {

/// One active call: the closure that runs, the position of its next
/// instruction, and where its slot zero lies on the stack.
pub struct FrameView {
    pub closure: ClosureView,
    pub ip: nat,
    pub slot_base: nat,
}

impl FrameView {
    pub open spec fn codes(self) -> Seq<u8> {
        self.closure.function.chunk.codes
    }

    pub open spec fn constants(self) -> Seq<ValueView> {
        self.closure.function.chunk.constants
    }

    /// The byte at the position, if the code reaches that far.
    pub open spec fn byte(self) -> Option<u8> {
        if self.ip < self.codes().len() {
            Some(self.codes()[self.ip as int])
        } else {
            None
        }
    }

    /// The 16-bit operand at the position, low byte first.
    pub open spec fn short(self) -> Option<u16> {
        if self.ip + 1 < self.codes().len() {
            Some(
                short_of(self.codes()[self.ip as int], self.codes()[self.ip + 1 as int]) as u16,
            )
        } else {
            None
        }
    }

    /// The constant that the byte at the position names.
    pub open spec fn constant(self) -> Option<ValueView> {
        match self.byte() {
            Some(index) => if index < self.constants().len() {
                Some(self.constants()[index as int])
            } else {
                None
            },
            None => None,
        }
    }

    /// The stack slot of the local variable that the byte at the position
    /// names, on a stack of the given height.
    pub open spec fn local(self, height: nat) -> Option<int> {
        match self.byte() {
            Some(slot) => if self.slot_base + slot < height {
                Some(self.slot_base + slot)
            } else {
                None
            },
            None => None,
        }
    }

    /// The frame with its position moved forward.
    pub open spec fn forward(self, count: nat) -> FrameView {
        FrameView { ip: self.ip + count, ..self }
    }

    /// The frame with its position moved back.
    pub open spec fn back(self, count: nat) -> FrameView {
        FrameView { ip: (self.ip - count) as nat, ..self }
    }
}

/// The state of the machine.
pub struct VmView {
    /// The active calls; the last one runs.
    pub frames: Seq<FrameView>,
    /// The operand stack.
    pub stack: Seq<ValueView>,
    /// The global variables.
    pub globals: Map<Seq<char>, ValueView>,
    /// The cells of captured variables.
    pub cells: Seq<ValueView>,
    /// What has been printed, in order.
    pub output: Seq<ValueView>,
}

/// The most call frames that may be active at once.
pub const FRAMES_MAX: usize = 255;

/// The message for a state that well-formed bytecode never reaches: no
/// instruction at the position, a missing operand, a stack that is too
/// short, an index outside its table.
pub open spec fn malformed() -> Seq<char> {
    "Malformed bytecode."@
}

pub open spec fn not_a_number() -> Seq<char> {
    "Operand must be a number."@
}

pub open spec fn not_addable() -> Seq<char> {
    "Operands must be two numbers or two strings."@
}

pub open spec fn undefined_variable() -> Seq<char> {
    "Undefined variable."@
}

pub open spec fn not_callable() -> Seq<char> {
    "Can only call functions and classes."@
}

pub open spec fn stack_overflow() -> Seq<char> {
    "stack overflow."@
}

/// The message for a call with the wrong number of arguments.
pub open spec fn wrong_arity(arity: u8, arg_count: u8) -> Seq<char> {
    "Expected "@ + decimal(arity as nat) + " arguments but got "@ + decimal(arg_count as nat)
        + "."@
}

/// What a `Closure` instruction captures: the cells after the capture, and
/// the cell of each captured variable.
pub struct Captured {
    pub cells: Seq<ValueView>,
    pub upvalues: Seq<nat>,
}

impl VmView {
    /// The machine at the start of a run of `closure`: the closure in slot
    /// zero, and one frame for it.
    pub open spec fn start(closure: ClosureView) -> VmView {
        VmView {
            frames: seq![FrameView { closure, ip: 0, slot_base: 0 }],
            stack: seq![ValueView::Closure(closure)],
            globals: Map::empty(),
            cells: Seq::empty(),
            output: Seq::empty(),
        }
    }

    /// Whether the run is over: no call is active.
    pub open spec fn halted(self) -> bool {
        self.frames.len() == 0
    }

    /// The frame that runs.
    pub open spec fn frame(self) -> FrameView {
        self.frames.last()
    }

    pub open spec fn code(self) -> Seq<u8> {
        self.frame().closure.function.chunk.codes
    }

    pub open spec fn constants(self) -> Seq<ValueView> {
        self.frame().closure.function.chunk.constants
    }

    pub open spec fn ip(self) -> nat {
        self.frame().ip
    }

    /// The instruction at the position, if the byte there encodes one.
    pub open spec fn op(self) -> Option<Op> {
        if self.ip() < self.code().len() {
            Op::decode_spec(self.code()[self.ip() as int])
        } else {
            None
        }
    }

    /// Whether the instruction's `count` operand bytes are there.
    pub open spec fn has_operands(self, count: nat) -> bool {
        self.ip() + count < self.code().len()
    }

    /// The `k`-th operand byte.
    pub open spec fn operand(self, k: nat) -> u8 {
        self.code()[(self.ip() + 1 + k) as int]
    }

    /// The 16-bit operand.
    pub open spec fn short(self) -> int {
        short_of(self.operand(0), self.operand(1))
    }

    /// The constant that the one-byte operand names.
    pub open spec fn constant(self) -> Option<ValueView> {
        if self.has_operands(1) && self.operand(0) < self.constants().len() {
            Some(self.constants()[self.operand(0) as int])
        } else {
            None
        }
    }

    /// The name that the one-byte operand names.
    pub open spec fn name(self) -> Option<Seq<char>> {
        match self.constant() {
            Some(ValueView::String(name)) => Some(name),
            _ => None,
        }
    }

    /// The stack slot that the one-byte operand names, if it is on the
    /// stack.
    pub open spec fn slot(self) -> Option<int> {
        if self.has_operands(1) && self.frame().slot_base + self.operand(0) < self.stack.len() {
            Some(self.frame().slot_base + self.operand(0))
        } else {
            None
        }
    }

    /// The cell of the captured variable that the one-byte operand names, if
    /// there is one.
    pub open spec fn cell(self) -> Option<int> {
        if self.has_operands(1) && self.operand(0) < self.frame().closure.upvalues.len()
            && self.frame().closure.upvalues[self.operand(0) as int] < self.cells.len() {
            Some(self.frame().closure.upvalues[self.operand(0) as int] as int)
        } else {
            None
        }
    }

    /// The value `distance` below the top of the stack.
    pub open spec fn peek(self, distance: nat) -> ValueView {
        self.stack[self.stack.len() - 1 - distance]
    }

    /// The state with the running frame at another position.
    pub open spec fn jump_to(self, ip: nat) -> VmView {
        VmView {
            frames: self.frames.update(
                self.frames.len() - 1,
                FrameView { ip, ..self.frame() },
            ),
            ..self
        }
    }

    /// The state with the position moved forward.
    pub open spec fn advance(self, count: nat) -> VmView {
        self.jump_to(self.ip() + count)
    }

    pub open spec fn with_stack(self, stack: Seq<ValueView>) -> VmView {
        VmView { stack, ..self }
    }

    pub open spec fn push(self, value: ValueView) -> VmView {
        self.with_stack(self.stack.push(value))
    }

    /// The state without the top `count` values.
    pub open spec fn pop(self, count: nat) -> VmView {
        self.with_stack(self.stack.take(self.stack.len() - count))
    }

    /// An instruction that pushes one value.
    pub open spec fn load(self, value: ValueView) -> Result<VmView, Seq<char>> {
        Ok(self.push(value).advance(1))
    }

    pub open spec fn exec_constant(self) -> Result<VmView, Seq<char>> {
        match self.constant() {
            Some(value) => Ok(self.push(value).advance(2)),
            None => Err(malformed()),
        }
    }

    pub open spec fn exec_pop(self) -> Result<VmView, Seq<char>> {
        if self.stack.len() >= 1 {
            Ok(self.pop(1).advance(1))
        } else {
            Err(malformed())
        }
    }

    pub open spec fn exec_get_local(self) -> Result<VmView, Seq<char>> {
        match self.slot() {
            Some(slot) => Ok(self.push(self.stack[slot]).advance(2)),
            None => Err(malformed()),
        }
    }

    pub open spec fn exec_set_local(self) -> Result<VmView, Seq<char>> {
        match self.slot() {
            Some(slot) => Ok(self.with_stack(self.stack.update(slot, self.peek(0))).advance(2)),
            None => Err(malformed()),
        }
    }

    pub open spec fn exec_get_global(self) -> Result<VmView, Seq<char>> {
        match self.name() {
            Some(name) => if self.globals.contains_key(name) {
                Ok(self.push(self.globals[name]).advance(2))
            } else {
                Err(undefined_variable())
            },
            None => Err(malformed()),
        }
    }

    pub open spec fn exec_define_global(self) -> Result<VmView, Seq<char>> {
        match self.name() {
            Some(name) => if self.stack.len() >= 1 {
                Ok(
                    (VmView { globals: self.globals.insert(name, self.peek(0)), ..self }).pop(
                        1,
                    ).advance(2),
                )
            } else {
                Err(malformed())
            },
            None => Err(malformed()),
        }
    }

    pub open spec fn exec_set_global(self) -> Result<VmView, Seq<char>> {
        match self.name() {
            Some(name) => if self.stack.len() < 1 {
                Err(malformed())
            } else if self.globals.contains_key(name) {
                Ok((VmView { globals: self.globals.insert(name, self.peek(0)), ..self }).advance(2))
            } else {
                Err(undefined_variable())
            },
            None => Err(malformed()),
        }
    }

    pub open spec fn exec_get_upvalue(self) -> Result<VmView, Seq<char>> {
        match self.cell() {
            Some(cell) => Ok(self.push(self.cells[cell]).advance(2)),
            None => Err(malformed()),
        }
    }

    pub open spec fn exec_set_upvalue(self) -> Result<VmView, Seq<char>> {
        match self.cell() {
            Some(cell) => if self.stack.len() >= 1 {
                Ok((VmView { cells: self.cells.update(cell, self.peek(0)), ..self }).advance(2))
            } else {
                Err(malformed())
            },
            None => Err(malformed()),
        }
    }

    /// An instruction that replaces the two top values by one.
    pub open spec fn binary(self, value: ValueView) -> VmView {
        self.pop(2).push(value).advance(1)
    }

    pub open spec fn exec_equal(self) -> Result<VmView, Seq<char>> {
        if self.stack.len() >= 2 {
            Ok(self.binary(ValueView::Bool(self.peek(1).equal(self.peek(0)))))
        } else {
            Err(malformed())
        }
    }

    /// `Greater` and `Less`: the order of two numbers.
    pub open spec fn exec_order(self, greater: bool) -> Result<VmView, Seq<char>> {
        if self.stack.len() >= 2 {
            match (self.peek(1), self.peek(0)) {
                (ValueView::Number(a), ValueView::Number(b)) => Ok(
                    self.binary(
                        ValueView::Bool(
                            if greater {
                                number::less_spec(b, a)
                            } else {
                                number::less_spec(a, b)
                            },
                        ),
                    ),
                ),
                _ => Err(not_a_number()),
            }
        } else {
            Err(malformed())
        }
    }

    /// The operation of an arithmetic instruction.
    pub open spec fn arithmetic_of(op: Op) -> Option<Arithmetic> {
        match op {
            Op::Add => Some(Arithmetic::Add),
            Op::Subtract => Some(Arithmetic::Subtract),
            Op::Multiply => Some(Arithmetic::Multiply),
            Op::Divide => Some(Arithmetic::Divide),
            _ => None,
        }
    }

    /// The operation that the next instruction asks of the caller, with its
    /// operands: an arithmetic instruction on two numbers.
    pub open spec fn pending(self) -> Option<(Arithmetic, u64, u64)> {
        if self.halted() || self.stack.len() < 2 {
            None
        } else {
            match (self.op(), self.peek(1), self.peek(0)) {
                (Some(op), ValueView::Number(a), ValueView::Number(b)) => match Self::arithmetic_of(
                    op,
                ) {
                    Some(operation) => Some((operation, a, b)),
                    None => None,
                },
                _ => None,
            }
        }
    }

    /// `Add`: the concatenation of two strings, or the sum of two numbers as
    /// the caller computed it.
    pub open spec fn exec_add(self, computed: u64) -> Result<VmView, Seq<char>> {
        if self.stack.len() >= 2 {
            match (self.peek(1), self.peek(0)) {
                (ValueView::String(a), ValueView::String(b)) => Ok(
                    self.binary(ValueView::String(a + b)),
                ),
                (ValueView::Number(a), ValueView::Number(b)) => Ok(
                    self.binary(ValueView::Number(computed)),
                ),
                _ => Err(not_addable()),
            }
        } else {
            Err(malformed())
        }
    }

    /// `Subtract`, `Multiply`, `Divide`: the result as the caller computed
    /// it.
    pub open spec fn exec_arithmetic(self, computed: u64) -> Result<VmView, Seq<char>> {
        if self.stack.len() >= 2 {
            match (self.peek(1), self.peek(0)) {
                (ValueView::Number(a), ValueView::Number(b)) => Ok(
                    self.binary(ValueView::Number(computed)),
                ),
                _ => Err(not_a_number()),
            }
        } else {
            Err(malformed())
        }
    }

    pub open spec fn exec_not(self) -> Result<VmView, Seq<char>> {
        if self.stack.len() >= 1 {
            Ok(self.pop(1).push(ValueView::Bool(self.peek(0).is_falsey())).advance(1))
        } else {
            Err(malformed())
        }
    }

    pub open spec fn exec_negate(self) -> Result<VmView, Seq<char>> {
        if self.stack.len() >= 1 {
            match self.peek(0) {
                ValueView::Number(a) => Ok(
                    self.pop(1).push(ValueView::Number(number::negate_spec(a))).advance(1),
                ),
                _ => Err(not_a_number()),
            }
        } else {
            Err(malformed())
        }
    }

    pub open spec fn exec_print(self) -> Result<VmView, Seq<char>> {
        if self.stack.len() >= 1 {
            Ok((VmView { output: self.output.push(self.peek(0)), ..self }).pop(1).advance(1))
        } else {
            Err(malformed())
        }
    }

    /// Where a forward jump lands, if that is inside the code or at its end.
    pub open spec fn forward_target(self) -> Option<nat> {
        if self.has_operands(2) && self.ip() + 3 + self.short() <= self.code().len() {
            Some((self.ip() + 3 + self.short()) as nat)
        } else {
            None
        }
    }

    /// Where a backward jump lands, if that is inside the code.
    pub open spec fn backward_target(self) -> Option<nat> {
        if self.has_operands(2) && self.ip() + 3 - self.short() >= 0 {
            Some((self.ip() + 3 - self.short()) as nat)
        } else {
            None
        }
    }

    pub open spec fn exec_jump(self) -> Result<VmView, Seq<char>> {
        match self.forward_target() {
            Some(target) => Ok(self.jump_to(target)),
            None => Err(malformed()),
        }
    }

    /// `JumpIfFalse` jumps when the top value is falsey, and leaves the
    /// value where it is.
    pub open spec fn exec_jump_if_false(self) -> Result<VmView, Seq<char>> {
        match self.forward_target() {
            Some(target) => if self.stack.len() < 1 {
                Err(malformed())
            } else if self.peek(0).is_falsey() {
                Ok(self.jump_to(target))
            } else {
                Ok(self.advance(3))
            },
            None => Err(malformed()),
        }
    }

    pub open spec fn exec_loop(self) -> Result<VmView, Seq<char>> {
        match self.backward_target() {
            Some(target) => Ok(self.jump_to(target)),
            None => Err(malformed()),
        }
    }

    /// The closure that a value is called as: a closure itself, a bare
    /// function with no captured variables.
    pub open spec fn callable(value: ValueView) -> Option<ClosureView> {
        match value {
            ValueView::Closure(closure) => Some(closure),
            ValueView::Function(function) => Some(
                ClosureView { function, upvalues: Seq::empty() },
            ),
            _ => None,
        }
    }

    /// Entering a closure with `arg_count` arguments on the stack: the
    /// number of arguments has to be the function's arity, and there is room
    /// for 255 frames. The new frame's slot zero is the value below the
    /// arguments.
    pub open spec fn enter(self, closure: ClosureView, arg_count: u8) -> Result<VmView, Seq<char>> {
        if closure.function.arity != arg_count {
            Err(wrong_arity(closure.function.arity, arg_count))
        } else if self.frames.len() >= FRAMES_MAX {
            Err(stack_overflow())
        } else {
            Ok(
                VmView {
                    frames: self.frames.push(
                        FrameView {
                            closure,
                            ip: 0,
                            slot_base: (self.stack.len() - arg_count - 1) as nat,
                        },
                    ),
                    ..self
                },
            )
        }
    }

    /// `Call`: the callee lies below its arguments; the caller moves on, and
    /// a new frame starts with the callee in its slot zero.
    pub open spec fn exec_call(self) -> Result<VmView, Seq<char>> {
        if !self.has_operands(1) || self.stack.len() < self.operand(0) + 1 {
            Err(malformed())
        } else {
            match Self::callable(self.peek(self.operand(0) as nat)) {
                None => Err(not_callable()),
                Some(closure) => self.advance(2).enter(closure, self.operand(0)),
            }
        }
    }

    /// The first `count` captures of a `Closure` instruction: a local
    /// variable gets a fresh cell with its present value, a captured
    /// variable of the running closure is shared. `None` where a capture
    /// names a slot or a variable that is not there.
    pub open spec fn capture(self, count: nat) -> Option<Captured>
        decreases count,
    {
        if count == 0 {
            Some(Captured { cells: self.cells, upvalues: Seq::empty() })
        } else {
            match self.capture((count - 1) as nat) {
                None => None,
                Some(before) => {
                    let is_local = self.operand((2 * count - 1) as nat) == 1;
                    let index = self.operand((2 * count) as nat);
                    if is_local {
                        if self.frame().slot_base + index < self.stack.len() {
                            Some(
                                Captured {
                                    cells: before.cells.push(
                                        self.stack[self.frame().slot_base + index],
                                    ),
                                    upvalues: before.upvalues.push(before.cells.len()),
                                },
                            )
                        } else {
                            None
                        }
                    } else {
                        if index < self.frame().closure.upvalues.len() {
                            Some(
                                Captured {
                                    cells: before.cells,
                                    upvalues: before.upvalues.push(
                                        self.frame().closure.upvalues[index as int],
                                    ),
                                },
                            )
                        } else {
                            None
                        }
                    }
                },
            }
        }
    }

    /// Once a capture fails, so does every longer one.
    pub proof fn lemma_capture_fails(self, failed: nat, count: nat)
        requires
            failed <= count,
            self.capture(failed).is_none(),
        ensures
            self.capture(count).is_none(),
        decreases count,
    {
        if failed < count {
            self.lemma_capture_fails(failed, (count - 1) as nat);
        }
    }

    /// The function that a `Closure` instruction names.
    pub open spec fn closure_function(self) -> Option<FunctionView> {
        match self.constant() {
            Some(ValueView::Function(function)) => if self.has_operands(
                (1 + 2 * function.upvalue_count) as nat,
            ) {
                Some(function)
            } else {
                None
            },
            _ => None,
        }
    }

    /// `Closure`: pushes a closure of the named function with as many
    /// captured variables as the function declares.
    pub open spec fn exec_closure(self) -> Result<VmView, Seq<char>> {
        match self.closure_function() {
            None => Err(malformed()),
            Some(function) => match self.capture(function.upvalue_count as nat) {
                None => Err(malformed()),
                Some(captured) => Ok(
                    (VmView { cells: captured.cells, ..self }).push(
                        ValueView::Closure(ClosureView { function, upvalues: captured.upvalues }),
                    ).advance((2 + 2 * function.upvalue_count) as nat),
                ),
            },
        }
    }

    /// `Return`: the top value is the result. The last frame's return ends
    /// the run and leaves the stack without the script; any other replaces
    /// the callee's slots by the result.
    pub open spec fn exec_return(self) -> Result<VmView, Seq<char>> {
        if self.stack.len() < 1 {
            Err(malformed())
        } else if self.frames.len() == 1 {
            if self.stack.len() >= 2 {
                Ok(VmView { frames: Seq::empty(), ..self.pop(2) })
            } else {
                Err(malformed())
            }
        } else if self.frame().slot_base < self.stack.len() {
            Ok(
                VmView {
                    frames: self.frames.drop_last(),
                    stack: self.stack.take(self.frame().slot_base as int).push(self.peek(0)),
                    ..self
                },
            )
        } else {
            Err(malformed())
        }
    }

    /// What one instruction makes of the state. `computed` stands for the
    /// result of the operation that `pending` names. A halted machine stays
    /// as it is.
    pub open spec fn step(self, computed: u64) -> Result<VmView, Seq<char>> {
        if self.halted() {
            Ok(self)
        } else {
            match self.op() {
                None => Err(malformed()),
                Some(Op::Constant) => self.exec_constant(),
                Some(Op::Nil) => self.load(ValueView::Nil),
                Some(Op::True) => self.load(ValueView::Bool(true)),
                Some(Op::False) => self.load(ValueView::Bool(false)),
                Some(Op::Pop) => self.exec_pop(),
                Some(Op::GetLocal) => self.exec_get_local(),
                Some(Op::SetLocal) => self.exec_set_local(),
                Some(Op::GetGlobal) => self.exec_get_global(),
                Some(Op::DefineGlobal) => self.exec_define_global(),
                Some(Op::SetGlobal) => self.exec_set_global(),
                Some(Op::GetUpvalue) => self.exec_get_upvalue(),
                Some(Op::SetUpvalue) => self.exec_set_upvalue(),
                Some(Op::Equal) => self.exec_equal(),
                Some(Op::Greater) => self.exec_order(true),
                Some(Op::Less) => self.exec_order(false),
                Some(Op::Add) => self.exec_add(computed),
                Some(Op::Subtract) => self.exec_arithmetic(computed),
                Some(Op::Multiply) => self.exec_arithmetic(computed),
                Some(Op::Divide) => self.exec_arithmetic(computed),
                Some(Op::Not) => self.exec_not(),
                Some(Op::Negate) => self.exec_negate(),
                Some(Op::Print) => self.exec_print(),
                Some(Op::Jump) => self.exec_jump(),
                Some(Op::JumpIfFalse) => self.exec_jump_if_false(),
                Some(Op::Loop) => self.exec_loop(),
                Some(Op::Call) => self.exec_call(),
                Some(Op::Closure) => self.exec_closure(),
                Some(Op::Return) => self.exec_return(),
            }
        }
    }

    /// One instruction, with the arithmetic that `compute` defines.
    pub open spec fn step_with(self, compute: spec_fn(Arithmetic, u64, u64) -> u64) -> Result<
        VmView,
        Seq<char>,
    > {
        self.step(
            match self.pending() {
                Some((operation, a, b)) => compute(operation, a, b),
                None => 0,
            },
        )
    }

    /// The run of at most `fuel` instructions: the state where it stops, and
    /// the error that stopped it, if one did. It stops when the machine
    /// halts, at the first error, and when the fuel is used up.
    pub open spec fn run(self, compute: spec_fn(Arithmetic, u64, u64) -> u64, fuel: nat) -> (
        VmView,
        Option<Seq<char>>,
    )
        decreases fuel,
    {
        if self.halted() || fuel == 0 {
            (self, None)
        } else {
            match self.step_with(compute) {
                Ok(next) => next.run(compute, (fuel - 1) as nat),
                Err(message) => (self, Some(message)),
            }
        }
    }

    /// The stack before each instruction that `run` dispatches, the failing
    /// one included.
    pub open spec fn trace(self, compute: spec_fn(Arithmetic, u64, u64) -> u64, fuel: nat) -> Seq<
        Seq<ValueView>,
    >
        decreases fuel,
    {
        if self.halted() || fuel == 0 {
            Seq::empty()
        } else {
            match self.step_with(compute) {
                Ok(next) => seq![self.stack] + next.trace(compute, (fuel - 1) as nat),
                Err(message) => seq![self.stack],
            }
        }
    }
}

} // verus!
