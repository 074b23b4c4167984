//! The virtual machine: call frames, the operand stack, the globals, and
//! the loop that executes bytecode.

use vstd::prelude::*;
use vstd::hash_map::StringHashMap;
use vstd::string::*;
use crate::chunk::Op;
use crate::number;
use crate::number::Arithmetic;
use crate::inspector::{clone_values, observer_view, Inspector, InspectorView};
use crate::grammar;
use crate::parser::{compile, input_of, reads};
use crate::scanner::Place;
use crate::semantics::{Captured, FrameView, VmView, FRAMES_MAX};
use crate::text::{decimal_text, failure, fails_with};
use crate::value::{
    cells_of, lemma_views, lemma_views_push, lemma_views_take, lemma_views_update, views, Closure,
    ClosureView, Function, Upvalue, Value, ValueView,
};

verus! {

/// One active call.
#[derive(Debug)]
pub struct CallFrame {
    pub closure: Closure,
    /// The position of the next instruction in the closure's code.
    pub index: usize,
    /// The stack index of the frame's slot zero.
    pub start: usize,
}

impl View for CallFrame {
    type V = FrameView;

    open spec fn view(&self) -> FrameView {
        FrameView { closure: self.closure@, ip: self.index as nat, slot_base: self.start as nat }
    }
}

impl CallFrame {
    pub fn new(closure: Closure, start: usize) -> (r: Self)
        ensures
            r@ == (FrameView { closure: closure@, ip: 0, slot_base: start as nat }),
    {
        CallFrame { closure, index: 0, start }
    }

    pub fn start(&self) -> (r: usize)
        ensures
            r == self@.slot_base,
    {
        self.start
    }

    /// The byte `ahead` positions after the next instruction's, if the code
    /// reaches that far.
    pub fn byte(&self, ahead: usize) -> (r: Option<u8>)
        ensures
            r == (if self@.ip + ahead < self@.closure.function.chunk.codes.len() {
                Some(self@.closure.function.chunk.codes[self@.ip + ahead])
            } else {
                None
            }),
            r.is_some() ==> self.index + ahead < self.closure.function.chunk.codes.len(),
    {
        let codes = &self.closure.function.chunk.codes;
        if ahead < codes.len() && self.index < codes.len() - ahead {
            Some(codes[self.index + ahead])
        } else {
            None
        }
    }

    /// The constant with the given index, if the pool has one.
    pub fn constant(&self, index: u8) -> (r: Option<&Value>)
        ensures
            match r {
                Some(value) => index < self@.closure.function.chunk.constants.len() && value@
                    == self@.closure.function.chunk.constants[index as int],
                None => index >= self@.closure.function.chunk.constants.len(),
            },
    {
        let constants = &self.closure.function.chunk.constants;
        proof {
            lemma_views(constants@);
        }
        if (index as usize) < constants.len() {
            Some(&constants[index as usize])
        } else {
            None
        }
    }
}

impl CallFrame {
    /// Moves the position forward.
    pub fn step_ahead(&mut self, n: u16)
        requires
            old(self).index + n <= usize::MAX,
        ensures
            final(self)@ == old(self)@.forward(n as nat),
    {
        self.index += n as usize;
    }

    /// Moves the position back.
    pub fn step_back(&mut self, n: u16)
        requires
            n <= old(self).index,
        ensures
            final(self)@ == old(self)@.back(n as nat),
    {
        self.index -= n as usize;
    }

    /// Reads the byte at the position and steps over it; `None` at the end
    /// of the code, where the frame stays as it is.
    pub fn read_byte(&mut self) -> (r: Option<u8>)
        ensures
            r == old(self)@.byte(),
            final(self)@ == if r.is_some() {
                old(self)@.forward(1)
            } else {
                old(self)@
            },
    {
        match self.byte(0) {
            Some(byte) => {
                self.index += 1;
                Some(byte)
            },
            None => None,
        }
    }

    /// Reads the 16-bit operand at the position, low byte first, and steps
    /// over it; `None` where the code ends before it, and the frame then
    /// stays as it is.
    pub fn read_short(&mut self) -> (r: Option<u16>)
        ensures
            r == old(self)@.short(),
            final(self)@ == if r.is_some() {
                old(self)@.forward(2)
            } else {
                old(self)@
            },
    {
        match self.byte(1) {
            Some(high) => match self.byte(0) {
                Some(low) => {
                    self.index += 2;
                    Some(low as u16 + 256 * (high as u16))
                },
                None => None,
            },
            None => None,
        }
    }

    /// Reads the constant that the byte at the position names, and steps
    /// over the byte; `None` where there is no such byte or no such
    /// constant, and the frame then stays as it is.
    pub fn read_constant(&mut self) -> (r: Option<Value>)
        ensures
            match old(self)@.constant() {
                Some(value) => r.is_some() && r.unwrap()@ == value && final(self)@ == old(self)@.forward(1),
                None => r.is_none() && final(self)@ == old(self)@,
            },
    {
        let value = match self.byte(0) {
            Some(index) => match self.constant(index) {
                Some(value) => value.clone(),
                None => {
                    return None;
                },
            },
            None => {
                return None;
            },
        };
        self.index += 1;
        Some(value)
    }

    /// Reads the local variable that the byte at the position names, and
    /// steps over the byte; `None` where there is no such byte or no such
    /// stack slot, and the frame then stays as it is.
    pub fn get_local(&mut self, stack: &Vec<Value>) -> (r: Option<Value>)
        ensures
            match old(self)@.local(stack.len() as nat) {
                Some(slot) => r.is_some() && r.unwrap()@ == stack[slot]@ && final(self)@ == old(self)@.forward(1),
                None => r.is_none() && final(self)@ == old(self)@,
            },
    {
        match self.byte(0) {
            Some(slot) => {
                let len = stack.len();
                if self.start < len && (slot as usize) < len - self.start {
                    let value = stack[self.start + slot as usize].clone();
                    self.index += 1;
                    Some(value)
                } else {
                    None
                }
            },
            None => None,
        }
    }

    /// Writes the local variable that the byte at the position names, and
    /// steps over the byte; reports whether there is such a byte and such a
    /// stack slot, and leaves frame and stack as they are where not.
    pub fn set_local(&mut self, stack: &mut Vec<Value>, value: Value) -> (r: bool)
        ensures
            match old(self)@.local(old(stack).len() as nat) {
                Some(slot) => r && final(stack)@ == old(stack)@.update(slot, value) && final(self)@ == old(self)@.forward(1),
                None => !r && final(stack)@ == old(stack)@ && final(self)@ == old(self)@,
            },
    {
        match self.byte(0) {
            Some(slot) => {
                let len = stack.len();
                if self.start < len && (slot as usize) < len - self.start {
                    stack[self.start + slot as usize] = value;
                    self.index += 1;
                    true
                } else {
                    false
                }
            },
            None => false,
        }
    }
}

/// The models of a sequence of frames.
pub open spec fn frame_views(frames: Seq<CallFrame>) -> Seq<FrameView> {
    frames.map_values(|frame: CallFrame| frame@)
}

/// The models of the values of a table.
pub open spec fn table_views(table: Map<Seq<char>, Value>) -> Map<Seq<char>, ValueView> {
    table.map_values(|value: Value| value@)
}

/// The virtual machine.
pub struct VM {
    /// The active calls; the last one runs.
    pub frames: Vec<CallFrame>,
    /// The operand stack.
    pub stack: Vec<Value>,
    /// The global variables.
    pub globals: StringHashMap<Value>,
    /// The cells of captured variables.
    pub cells: Vec<Value>,
    /// What has been printed, in order.
    pub output: Vec<Value>,
}

impl View for VM {
    type V = VmView;

    open spec fn view(&self) -> VmView {
        VmView {
            frames: frame_views(self.frames@),
            stack: views(self.stack@),
            globals: table_views(self.globals@),
            cells: views(self.cells@),
            output: views(self.output@),
        }
    }
}

/// Whether a step ended as the meaning of its instruction says: in the next
/// state, or with the error and the state it started from.
pub open spec fn stepped(
    before: VmView,
    after: VmView,
    r: Result<(), String>,
    expected: Result<VmView, Seq<char>>,
) -> bool {
    match expected {
        Ok(next) => r is Ok && after == next,
        Err(message) => fails_with(r, message) && after == before,
    }
}

impl VM {
    /// A machine with nothing to run.
    pub fn new() -> (r: Self)
        ensures
            r@.halted(),
            r@.stack.len() == 0,
            r@.globals == Map::<Seq<char>, ValueView>::empty(),
            r@.cells.len() == 0,
            r@.output.len() == 0,
    {
        let r = VM {
            frames: Vec::new(),
            stack: Vec::new(),
            globals: StringHashMap::new(),
            cells: Vec::new(),
            output: Vec::new(),
        };
        assert(r@.globals =~= Map::<Seq<char>, ValueView>::empty());
        r
    }

    /// A machine about to run `closure`: the closure lies in slot zero, and
    /// one frame points at it.
    pub fn from_closure(closure: Closure) -> (r: Self)
        ensures
            r@ == VmView::start(closure@),
    {
        let mut vm = Self::new();
        let frame = CallFrame::new(closure.clone(), 0);
        vm.frames.push(frame);
        let value = Value::closure(closure);
        proof {
            lemma_views(vm.stack@);
            lemma_views_push(vm.stack@, value);
        }
        vm.stack.push(value);
        assert(vm@.frames =~= VmView::start(closure@).frames);
        assert(vm@.stack =~= VmView::start(closure@).stack);
        assert(vm@.cells =~= Seq::empty());
        assert(vm@.output =~= Seq::empty());
        vm
    }

    /// A machine about to run a function that captures nothing.
    pub fn from_function(function: Function) -> (r: Self)
        ensures
            r@ == VmView::start(
                crate::value::ClosureView { function: function@, upvalues: Seq::empty() },
            ),
    {
        Self::from_closure(Closure::new(function))
    }

    /// Whether the run is over.
    pub fn is_halted(&self) -> (r: bool)
        ensures
            r == self@.halted(),
    {
        self.frames.len() == 0
    }

    /// The value of a global variable, if it is defined.
    pub fn global(&self, name: &str) -> (r: Option<Value>)
        ensures
            match r {
                Some(value) => self@.globals.contains_key(name@) && value@ == self@.globals[name@],
                None => !self@.globals.contains_key(name@),
            },
    {
        match self.globals.get(name) {
            Some(value) => Some(value.clone()),
            None => None,
        }
    }

    fn push(&mut self, value: Value)
        ensures
            final(self)@ == old(self)@.push(value@),
    {
        proof {
            lemma_views_push(self.stack@, value);
        }
        self.stack.push(value);
    }

    /// Removes the top `count` values.
    fn discard(&mut self, count: usize)
        requires
            count <= old(self).stack.len(),
        ensures
            final(self)@ == old(self)@.pop(count as nat),
    {
        let len = self.stack.len();
        self.stack.truncate(len - count);
        proof {
            lemma_views(old(self).stack@);
            lemma_views(self.stack@);
            assert(self@.stack =~= old(self)@.stack.take(len - count));
        }
    }

    /// The value `distance` below the top of the stack.
    fn peek(&self, distance: usize) -> (r: &Value)
        requires
            distance < self.stack.len(),
        ensures
            r@ == self@.peek(distance as nat),
            self@.stack.len() == self.stack.len(),
    {
        proof {
            lemma_views(self.stack@);
        }
        &self.stack[self.stack.len() - 1 - distance]
    }

    /// Moves the running frame to another position.
    fn jump_to(&mut self, index: usize)
        requires
            !old(self)@.halted(),
        ensures
            final(self)@ == old(self)@.jump_to(index as nat),
    {
        let mut frame = self.frames.pop().unwrap();
        frame.index = index;
        self.frames.push(frame);
        assert(self@.frames =~= old(self)@.jump_to(index as nat).frames);
    }
}

impl Closure {
    /// Enters the closure on a machine that holds the callee and
    /// `arg_count` arguments on top of its stack: a new frame runs the
    /// closure, with the callee in its slot zero. The call fails where the
    /// number of arguments is not the function's arity, and where 255 frames
    /// are active already; the machine is then left as it was.
    pub fn call(self, vm: &mut VM, arg_count: u8) -> (r: Result<(), String>)
        requires
            old(vm).stack.len() >= arg_count + 1,
        ensures
            stepped(old(vm)@, final(vm)@, r, old(vm)@.enter(self@, arg_count)),
    {
        proof {
            lemma_views(vm.stack@);
        }
        let arity = self.function.arity;
        if arg_count != arity {
            let mut message = "Expected ".to_owned();
            message.append(decimal_text(arity as usize).as_str());
            message.append(" arguments but got ");
            message.append(decimal_text(arg_count as usize).as_str());
            message.append(".");
            return Err(message);
        }
        if vm.frames.len() >= FRAMES_MAX {
            return failure("stack overflow.");
        }
        let frame = CallFrame::new(self, vm.stack.len() - arg_count as usize - 1);
        vm.frames.push(frame);
        assert(vm@.frames =~= old(vm)@.frames.push(frame@));
        Ok(())
    }
}

impl Function {
    /// Enters the function as a closure that has captured nothing.
    pub fn call(self, vm: &mut VM, arg_count: u8) -> (r: Result<(), String>)
        requires
            old(vm).stack.len() >= arg_count + 1,
        ensures
            stepped(
                old(vm)@,
                final(vm)@,
                r,
                old(vm)@.enter(
                    ClosureView { function: self@, upvalues: Seq::empty() },
                    arg_count,
                ),
            ),
    {
        let closure = Closure::new(self);
        closure.call(vm, arg_count)
    }
}

impl VM {
    /// The frame that runs.
    fn frame(&self) -> (r: &CallFrame)
        requires
            !self@.halted(),
        ensures
            r@ == self@.frame(),
            *r == self.frames@.last(),
    {
        &self.frames[self.frames.len() - 1]
    }

    /// The `k`-th operand byte of the next instruction.
    fn operand(&self, k: usize) -> (r: Option<u8>)
        requires
            !self@.halted(),
            k < 1000,
        ensures
            r == (if self@.has_operands((k + 1) as nat) {
                Some(self@.operand(k as nat))
            } else {
                None
            }),
    {
        self.frame().byte(k + 1)
    }

    /// The end of an instruction that pushes one value and takes `size`
    /// bytes.
    fn finish_push(&mut self, value: Value, size: usize)
        requires
            !old(self)@.halted(),
            old(self)@.ip() + size <= old(self)@.code().len(),
        ensures
            final(self)@ == old(self)@.push(value@).advance(size as nat),
    {
        let frame = self.frame();
        assert(frame.closure.function.chunk.codes.len() == self@.code().len());
        let next = frame.index + size;
        self.push(value);
        self.jump_to(next);
    }

    /// The end of an instruction that leaves the stack and takes `size`
    /// bytes.
    fn finish(&mut self, size: usize)
        requires
            !old(self)@.halted(),
            old(self)@.ip() + size <= old(self)@.code().len(),
        ensures
            final(self)@ == old(self)@.advance(size as nat),
    {
        let frame = self.frame();
        assert(frame.closure.function.chunk.codes.len() == self@.code().len());
        let next = frame.index + size;
        self.jump_to(next);
    }

    fn op_load(&mut self, value: Value) -> (r: Result<(), String>)
        requires
            old(self)@.op().is_some(),
            !old(self)@.halted(),
        ensures
            stepped(old(self)@, final(self)@, r, old(self)@.load(value@)),
    {
        self.finish_push(value, 1);
        Ok(())
    }

    fn op_constant(&mut self) -> (r: Result<(), String>)
        requires
            old(self)@.op().is_some(),
            !old(self)@.halted(),
        ensures
            stepped(old(self)@, final(self)@, r, old(self)@.exec_constant()),
    {
        let frame = self.frame();
        let value = match frame.byte(1) {
            Some(index) => match frame.constant(index) {
                Some(value) => value.clone(),
                None => {
                    return failure("Malformed bytecode.");
                },
            },
            None => {
                return failure("Malformed bytecode.");
            },
        };
        self.finish_push(value, 2);
        Ok(())
    }

    fn op_pop(&mut self) -> (r: Result<(), String>)
        requires
            old(self)@.op().is_some(),
            !old(self)@.halted(),
        ensures
            stepped(old(self)@, final(self)@, r, old(self)@.exec_pop()),
    {
        proof {
            lemma_views(self.stack@);
        }
        if self.stack.len() < 1 {
            return failure("Malformed bytecode.");
        }
        self.discard(1);
        self.finish(1);
        Ok(())
    }

    /// The stack index of the slot that the operand names.
    fn slot(&self) -> (r: Option<usize>)
        requires
            !self@.halted(),
        ensures
            match r {
                Some(slot) => self@.slot() == Some(slot as int) && slot < self.stack.len(),
                None => self@.slot().is_none(),
            },
    {
        proof {
            lemma_views(self.stack@);
        }
        let frame = self.frame();
        match frame.byte(1) {
            Some(slot) => {
                let len = self.stack.len();
                if frame.start < len && (slot as usize) < len - frame.start {
                    Some(frame.start + slot as usize)
                } else {
                    None
                }
            },
            None => None,
        }
    }

    fn op_get_local(&mut self) -> (r: Result<(), String>)
        requires
            old(self)@.op().is_some(),
            !old(self)@.halted(),
        ensures
            stepped(old(self)@, final(self)@, r, old(self)@.exec_get_local()),
    {
        proof {
            lemma_views(self.stack@);
        }
        match self.slot() {
            Some(slot) => {
                let value = self.stack[slot].clone();
                self.finish_push(value, 2);
                Ok(())
            },
            None => failure("Malformed bytecode."),
        }
    }

    fn op_set_local(&mut self) -> (r: Result<(), String>)
        requires
            old(self)@.op().is_some(),
            !old(self)@.halted(),
        ensures
            stepped(old(self)@, final(self)@, r, old(self)@.exec_set_local()),
    {
        match self.slot() {
            Some(slot) => {
                let value = self.peek(0).clone();
                proof {
                    lemma_views_update(self.stack@, slot as int, value);
                }
                self.stack[slot] = value;
                self.finish(2);
                Ok(())
            },
            None => failure("Malformed bytecode."),
        }
    }

    /// The name that the operand names.
    fn name(&self) -> (r: Option<String>)
        requires
            !self@.halted(),
        ensures
            match r {
                Some(name) => self@.name() == Some(name@),
                None => self@.name().is_none(),
            },
    {
        let frame = self.frame();
        match frame.byte(1) {
            Some(index) => match frame.constant(index) {
                Some(Value::String(name)) => Some(name.clone()),
                _ => None,
            },
            None => None,
        }
    }

    fn op_get_global(&mut self) -> (r: Result<(), String>)
        requires
            old(self)@.op().is_some(),
            !old(self)@.halted(),
        ensures
            stepped(old(self)@, final(self)@, r, old(self)@.exec_get_global()),
    {
        match self.name() {
            Some(name) => {
                match self.global(name.as_str()) {
                    Some(value) => {
                        self.finish_push(value, 2);
                        Ok(())
                    },
                    None => failure("Undefined variable."),
                }
            },
            None => failure("Malformed bytecode."),
        }
    }

    /// Binds a global variable to the top value.
    fn bind_global(&mut self, name: String)
        requires
            old(self).stack.len() >= 1,
        ensures
            final(self)@ == (VmView {
                globals: old(self)@.globals.insert(name@, old(self)@.peek(0)),
                ..old(self)@
            }),
    {
        let value = self.peek(0).clone();
        self.globals.insert(name, value);
        assert(self@.globals =~= old(self)@.globals.insert(name@, old(self)@.peek(0)));
    }

    fn op_define_global(&mut self) -> (r: Result<(), String>)
        requires
            old(self)@.op().is_some(),
            !old(self)@.halted(),
        ensures
            stepped(old(self)@, final(self)@, r, old(self)@.exec_define_global()),
    {
        proof {
            lemma_views(self.stack@);
        }
        match self.name() {
            Some(name) => {
                if self.stack.len() < 1 {
                    return failure("Malformed bytecode.");
                }
                self.bind_global(name);
                self.discard(1);
                self.finish(2);
                Ok(())
            },
            None => failure("Malformed bytecode."),
        }
    }

    fn op_set_global(&mut self) -> (r: Result<(), String>)
        requires
            old(self)@.op().is_some(),
            !old(self)@.halted(),
        ensures
            stepped(old(self)@, final(self)@, r, old(self)@.exec_set_global()),
    {
        proof {
            lemma_views(self.stack@);
        }
        match self.name() {
            Some(name) => {
                if self.stack.len() < 1 {
                    return failure("Malformed bytecode.");
                }
                if !self.globals.contains_key(name.as_str()) {
                    return failure("Undefined variable.");
                }
                self.bind_global(name);
                self.finish(2);
                Ok(())
            },
            None => failure("Malformed bytecode."),
        }
    }

    /// The cell of the captured variable that the operand names.
    fn cell(&self) -> (r: Option<usize>)
        requires
            !self@.halted(),
        ensures
            match r {
                Some(cell) => self@.cell() == Some(cell as int) && cell < self.cells.len(),
                None => self@.cell().is_none(),
            },
    {
        proof {
            lemma_views(self.cells@);
        }
        let frame = self.frame();
        match frame.byte(1) {
            Some(index) => {
                if (index as usize) < frame.closure.upvalues.len() {
                    let cell = frame.closure.upvalues[index as usize].cell;
                    if cell < self.cells.len() {
                        Some(cell)
                    } else {
                        None
                    }
                } else {
                    None
                }
            },
            None => None,
        }
    }

    fn op_get_upvalue(&mut self) -> (r: Result<(), String>)
        requires
            old(self)@.op().is_some(),
            !old(self)@.halted(),
        ensures
            stepped(old(self)@, final(self)@, r, old(self)@.exec_get_upvalue()),
    {
        proof {
            lemma_views(self.cells@);
        }
        match self.cell() {
            Some(cell) => {
                let value = self.cells[cell].clone();
                self.finish_push(value, 2);
                Ok(())
            },
            None => failure("Malformed bytecode."),
        }
    }

    fn op_set_upvalue(&mut self) -> (r: Result<(), String>)
        requires
            old(self)@.op().is_some(),
            !old(self)@.halted(),
        ensures
            stepped(old(self)@, final(self)@, r, old(self)@.exec_set_upvalue()),
    {
        proof {
            lemma_views(self.stack@);
        }
        match self.cell() {
            Some(cell) => {
                if self.stack.len() < 1 {
                    return failure("Malformed bytecode.");
                }
                let value = self.peek(0).clone();
                proof {
                    lemma_views_update(self.cells@, cell as int, value);
                }
                self.cells[cell] = value;
                self.finish(2);
                Ok(())
            },
            None => failure("Malformed bytecode."),
        }
    }

    /// The end of an instruction that replaces the two top values by one.
    fn finish_binary(&mut self, value: Value)
        requires
            old(self)@.op().is_some(),
            !old(self)@.halted(),
            old(self).stack.len() >= 2,
        ensures
            final(self)@ == old(self)@.binary(value@),
    {
        self.discard(2);
        self.finish_push(value, 1);
    }

    fn op_equal(&mut self) -> (r: Result<(), String>)
        requires
            old(self)@.op().is_some(),
            !old(self)@.halted(),
        ensures
            stepped(old(self)@, final(self)@, r, old(self)@.exec_equal()),
    {
        proof {
            lemma_views(self.stack@);
        }
        if self.stack.len() < 2 {
            return failure("Malformed bytecode.");
        }
        let equal = Value::equal(self.peek(1), self.peek(0));
        self.finish_binary(Value::Bool(equal));
        Ok(())
    }

    fn op_order(&mut self, greater: bool) -> (r: Result<(), String>)
        requires
            old(self)@.op().is_some(),
            !old(self)@.halted(),
        ensures
            stepped(old(self)@, final(self)@, r, old(self)@.exec_order(greater)),
    {
        proof {
            lemma_views(self.stack@);
        }
        if self.stack.len() < 2 {
            return failure("Malformed bytecode.");
        }
        let ordered = match (self.peek(1), self.peek(0)) {
            (Value::Number(a), Value::Number(b)) => if greater {
                number::greater(*a, *b)
            } else {
                number::less(*a, *b)
            },
            _ => {
                return failure("Operand must be a number.");
            },
        };
        self.finish_binary(Value::Bool(ordered));
        Ok(())
    }

    fn op_add(&mut self, computed: u64) -> (r: Result<(), String>)
        requires
            old(self)@.op().is_some(),
            !old(self)@.halted(),
        ensures
            stepped(old(self)@, final(self)@, r, old(self)@.exec_add(computed)),
    {
        proof {
            lemma_views(self.stack@);
        }
        if self.stack.len() < 2 {
            return failure("Malformed bytecode.");
        }
        let value = match (self.peek(1), self.peek(0)) {
            (Value::String(a), Value::String(b)) => {
                let mut joined = a.clone();
                joined.append(b.as_str());
                Value::String(joined)
            },
            (Value::Number(_), Value::Number(_)) => Value::Number(computed),
            _ => {
                return failure("Operands must be two numbers or two strings.");
            },
        };
        self.finish_binary(value);
        Ok(())
    }

    fn op_arithmetic(&mut self, computed: u64) -> (r: Result<(), String>)
        requires
            old(self)@.op().is_some(),
            !old(self)@.halted(),
        ensures
            stepped(old(self)@, final(self)@, r, old(self)@.exec_arithmetic(computed)),
    {
        proof {
            lemma_views(self.stack@);
        }
        if self.stack.len() < 2 {
            return failure("Malformed bytecode.");
        }
        match (self.peek(1), self.peek(0)) {
            (Value::Number(_), Value::Number(_)) => {},
            _ => {
                return failure("Operand must be a number.");
            },
        }
        self.finish_binary(Value::Number(computed));
        Ok(())
    }

    fn op_not(&mut self) -> (r: Result<(), String>)
        requires
            old(self)@.op().is_some(),
            !old(self)@.halted(),
        ensures
            stepped(old(self)@, final(self)@, r, old(self)@.exec_not()),
    {
        proof {
            lemma_views(self.stack@);
        }
        if self.stack.len() < 1 {
            return failure("Malformed bytecode.");
        }
        let falsey = self.peek(0).is_falsey();
        self.discard(1);
        self.finish_push(Value::Bool(falsey), 1);
        Ok(())
    }

    fn op_negate(&mut self) -> (r: Result<(), String>)
        requires
            old(self)@.op().is_some(),
            !old(self)@.halted(),
        ensures
            stepped(old(self)@, final(self)@, r, old(self)@.exec_negate()),
    {
        proof {
            lemma_views(self.stack@);
        }
        if self.stack.len() < 1 {
            return failure("Malformed bytecode.");
        }
        let negated = match self.peek(0) {
            Value::Number(a) => number::negate(*a),
            _ => {
                return failure("Operand must be a number.");
            },
        };
        self.discard(1);
        self.finish_push(Value::Number(negated), 1);
        Ok(())
    }

    fn op_print(&mut self) -> (r: Result<(), String>)
        requires
            old(self)@.op().is_some(),
            !old(self)@.halted(),
        ensures
            stepped(old(self)@, final(self)@, r, old(self)@.exec_print()),
    {
        proof {
            lemma_views(self.stack@);
        }
        if self.stack.len() < 1 {
            return failure("Malformed bytecode.");
        }
        let value = self.peek(0).clone();
        proof {
            lemma_views_push(self.output@, value);
        }
        self.output.push(value);
        self.discard(1);
        self.finish(1);
        Ok(())
    }
}

impl VM {
    /// The 16-bit operand of the next instruction.
    fn short(&self) -> (r: Option<usize>)
        requires
            !self@.halted(),
        ensures
            match r {
                Some(offset) => self@.has_operands(2) && offset == self@.short(),
                None => !self@.has_operands(2),
            },
    {
        let frame = self.frame();
        match frame.byte(2) {
            Some(high) => match frame.byte(1) {
                Some(low) => Some(low as usize + 256 * (high as usize)),
                None => None,
            },
            None => None,
        }
    }

    /// Where a forward jump lands.
    fn forward_target(&self) -> (r: Option<usize>)
        requires
            !self@.halted(),
        ensures
            match r {
                Some(target) => self@.forward_target() == Some(target as nat),
                None => self@.forward_target().is_none(),
            },
    {
        match self.short() {
            Some(offset) => {
                let frame = self.frame();
                let len = frame.closure.function.chunk.codes.len();
                if offset <= len - frame.index - 3 {
                    Some(frame.index + 3 + offset)
                } else {
                    None
                }
            },
            None => None,
        }
    }

    fn op_jump(&mut self) -> (r: Result<(), String>)
        requires
            old(self)@.op().is_some(),
            !old(self)@.halted(),
        ensures
            stepped(old(self)@, final(self)@, r, old(self)@.exec_jump()),
    {
        match self.forward_target() {
            Some(target) => {
                self.jump_to(target);
                Ok(())
            },
            None => failure("Malformed bytecode."),
        }
    }

    fn op_jump_if_false(&mut self) -> (r: Result<(), String>)
        requires
            old(self)@.op().is_some(),
            !old(self)@.halted(),
        ensures
            stepped(old(self)@, final(self)@, r, old(self)@.exec_jump_if_false()),
    {
        proof {
            lemma_views(self.stack@);
        }
        match self.forward_target() {
            Some(target) => {
                if self.stack.len() < 1 {
                    return failure("Malformed bytecode.");
                }
                if self.peek(0).is_falsey() {
                    self.jump_to(target);
                } else {
                    self.finish(3);
                }
                Ok(())
            },
            None => failure("Malformed bytecode."),
        }
    }

    fn op_loop(&mut self) -> (r: Result<(), String>)
        requires
            old(self)@.op().is_some(),
            !old(self)@.halted(),
        ensures
            stepped(old(self)@, final(self)@, r, old(self)@.exec_loop()),
    {
        match self.short() {
            Some(offset) => {
                let frame = self.frame();
                let len = frame.closure.function.chunk.codes.len();
                if offset <= frame.index + 3 {
                    let target = frame.index + 3 - offset;
                    self.jump_to(target);
                    Ok(())
                } else {
                    failure("Malformed bytecode.")
                }
            },
            None => failure("Malformed bytecode."),
        }
    }

    /// The closure that a value is called as.
    fn callable(value: &Value) -> (r: Option<Closure>)
        ensures
            match r {
                Some(closure) => VmView::callable(value@) == Some(closure@),
                None => VmView::callable(value@).is_none(),
            },
    {
        match value {
            Value::Closure(closure) => Some(closure.clone()),
            Value::Function(function) => Some(Closure::new(function.clone())),
            _ => None,
        }
    }

    fn op_call(&mut self) -> (r: Result<(), String>)
        requires
            old(self)@.op().is_some(),
            !old(self)@.halted(),
        ensures
            stepped(old(self)@, final(self)@, r, old(self)@.exec_call()),
    {
        proof {
            lemma_views(self.stack@);
        }
        let arg_count = match self.operand(0) {
            Some(arg_count) => arg_count,
            None => {
                return failure("Malformed bytecode.");
            },
        };
        let len = self.stack.len();
        if len < arg_count as usize + 1 {
            return failure("Malformed bytecode.");
        }
        let closure = match Self::callable(self.peek(arg_count as usize)) {
            Some(closure) => closure,
            None => {
                return failure("Can only call functions and classes.");
            },
        };
        let index = self.frame().index;
        self.finish(2);
        proof {
            lemma_views(self.stack@);
        }
        match closure.call(self, arg_count) {
            Ok(()) => Ok(()),
            Err(message) => {
                self.jump_to(index);
                assert(self@.frames =~= old(self)@.frames);
                Err(message)
            },
        }
    }

    /// The function that a `Closure` instruction names.
    fn closure_function(&self) -> (r: Option<Function>)
        requires
            !self@.halted(),
        ensures
            match r {
                Some(function) => self@.closure_function() == Some(function@),
                None => self@.closure_function().is_none(),
            },
    {
        let frame = self.frame();
        match frame.byte(1) {
            Some(index) => match frame.constant(index) {
                Some(Value::Function(function)) => {
                    if frame.byte(1 + 2 * (function.upvalue_count as usize)).is_some() {
                        Some(function.clone())
                    } else {
                        None
                    }
                },
                _ => None,
            },
            None => None,
        }
    }

    /// Undoes the captures of a `Closure` instruction that failed.
    fn release(&mut self, count: usize) -> (r: Result<(), String>)
        requires
            count <= old(self).cells.len(),
        ensures
            fails_with(r, crate::semantics::malformed()),
            final(self)@ == (VmView {
                cells: old(self)@.cells.take(count as int),
                ..old(self)@
            }),
    {
        proof {
            lemma_views_take(self.cells@, count as int);
        }
        self.cells.truncate(count);
        failure("Malformed bytecode.")
    }

    fn op_closure(&mut self) -> (r: Result<(), String>)
        requires
            old(self)@.op().is_some(),
            !old(self)@.halted(),
        ensures
            stepped(old(self)@, final(self)@, r, old(self)@.exec_closure()),
    {
        let function = match self.closure_function() {
            Some(function) => function,
            None => {
                return failure("Malformed bytecode.");
            },
        };
        let count = function.upvalue_count as usize;
        let kept = self.cells.len();
        let mut upvalues: Vec<Upvalue> = Vec::new();
        let mut k: usize = 0;
        proof {
            lemma_views(self.cells@);
            assert(cells_of(upvalues@) =~= Seq::<nat>::empty());
            assert(self@.cells.take(kept as int) =~= self@.cells);
        }
        while k < count
            invariant
                k <= count,
                count == function.upvalue_count,
                !old(self)@.halted(),
                old(self)@.closure_function() == Some(function@),
                kept == old(self).cells.len(),
                kept <= self.cells.len(),
                self@.cells.take(kept as int) == old(self)@.cells,
                self@ == (VmView { cells: self@.cells, ..old(self)@ }),
                old(self)@.capture(k as nat) == Some(
                    Captured { cells: self@.cells, upvalues: cells_of(upvalues@) },
                ),
            decreases count - k,
        {
            proof {
                lemma_views(self.cells@);
                lemma_views(self.stack@);
            }
            let frame = self.frame();
            let is_local = frame.byte(2 + 2 * k) == Some(1);
            let index = frame.byte(3 + 2 * k).unwrap() as usize;
            let ghost before = upvalues@;
            if is_local {
                let len = self.stack.len();
                if frame.start < len && index < len - frame.start {
                    let value = self.stack[frame.start + index].clone();
                    upvalues.push(Upvalue::new(self.cells.len()));
                    proof {
                        lemma_views_push(self.cells@, value);
                    }
                    self.cells.push(value);
                    proof {
                        assert(cells_of(upvalues@) =~= cells_of(before).push(
                            (self.cells.len() - 1) as nat,
                        ));
                        assert(self@.cells.take(kept as int) =~= old(self)@.cells);
                    }
                } else {
                    proof {
                        old(self)@.lemma_capture_fails((k + 1) as nat, count as nat);
                    }
                    return self.release(kept);
                }
            } else {
                if index < frame.closure.upvalues.len() {
                    upvalues.push(frame.closure.upvalues[index]);
                    proof {
                        assert(cells_of(upvalues@) =~= cells_of(before).push(
                            frame.closure.upvalues[index as int].cell as nat,
                        ));
                    }
                } else {
                    proof {
                        old(self)@.lemma_capture_fails((k + 1) as nat, count as nat);
                    }
                    return self.release(kept);
                }
            }
            k += 1;
        }
        let closure = Closure { function, upvalues };
        self.finish_push(Value::Closure(closure), 2 + 2 * count);
        Ok(())
    }

    fn op_return(&mut self) -> (r: Result<(), String>)
        requires
            old(self)@.op().is_some(),
            !old(self)@.halted(),
        ensures
            stepped(old(self)@, final(self)@, r, old(self)@.exec_return()),
    {
        proof {
            lemma_views(self.stack@);
        }
        let len = self.stack.len();
        if len < 1 {
            return failure("Malformed bytecode.");
        }
        if self.frames.len() == 1 {
            if len < 2 {
                return failure("Malformed bytecode.");
            }
            self.discard(2);
            self.frames.pop();
            assert(self@.frames =~= Seq::empty());
            Ok(())
        } else {
            let base = self.frame().start;
            if base >= len {
                return failure("Malformed bytecode.");
            }
            let result = self.peek(0).clone();
            proof {
                lemma_views_take(self.stack@, base as int);
            }
            self.stack.truncate(base);
            self.push(result);
            self.frames.pop();
            assert(self@.frames =~= old(self)@.frames.drop_last());
            Ok(())
        }
    }

    /// The operation that the next instruction asks of the caller, with its
    /// operands: `Some` before an arithmetic instruction on two numbers.
    pub fn pending(&self) -> (r: Option<(Arithmetic, u64, u64)>)
        ensures
            r == self@.pending(),
    {
        proof {
            lemma_views(self.stack@);
        }
        if self.frames.len() == 0 || self.stack.len() < 2 {
            return None;
        }
        let operation = match self.frame().byte(0) {
            Some(byte) => match Op::decode(byte) {
                Some(Op::Add) => Arithmetic::Add,
                Some(Op::Subtract) => Arithmetic::Subtract,
                Some(Op::Multiply) => Arithmetic::Multiply,
                Some(Op::Divide) => Arithmetic::Divide,
                _ => {
                    return None;
                },
            },
            None => {
                return None;
            },
        };
        match (self.peek(1), self.peek(0)) {
            (Value::Number(a), Value::Number(b)) => Some((operation, *a, *b)),
            _ => None,
        }
    }

    /// Executes one instruction. `computed` is the result of the operation
    /// that `pending` names, and is not looked at where it names none. On an
    /// error the machine is left as it was before the instruction.
    pub fn step(&mut self, computed: u64) -> (r: Result<(), String>)
        ensures
            stepped(old(self)@, final(self)@, r, old(self)@.step(computed)),
    {
        if self.frames.len() == 0 {
            return Ok(());
        }
        let op = match self.frame().byte(0) {
            Some(byte) => match Op::decode(byte) {
                Some(op) => op,
                None => {
                    return failure("Malformed bytecode.");
                },
            },
            None => {
                return failure("Malformed bytecode.");
            },
        };
        match op {
            Op::Constant => self.op_constant(),
            Op::Nil => self.op_load(Value::Nil),
            Op::True => self.op_load(Value::Bool(true)),
            Op::False => self.op_load(Value::Bool(false)),
            Op::Pop => self.op_pop(),
            Op::GetLocal => self.op_get_local(),
            Op::SetLocal => self.op_set_local(),
            Op::GetGlobal => self.op_get_global(),
            Op::DefineGlobal => self.op_define_global(),
            Op::SetGlobal => self.op_set_global(),
            Op::GetUpvalue => self.op_get_upvalue(),
            Op::SetUpvalue => self.op_set_upvalue(),
            Op::Equal => self.op_equal(),
            Op::Greater => self.op_order(true),
            Op::Less => self.op_order(false),
            Op::Add => self.op_add(computed),
            Op::Subtract => self.op_arithmetic(computed),
            Op::Multiply => self.op_arithmetic(computed),
            Op::Divide => self.op_arithmetic(computed),
            Op::Not => self.op_not(),
            Op::Negate => self.op_negate(),
            Op::Print => self.op_print(),
            Op::Jump => self.op_jump(),
            Op::JumpIfFalse => self.op_jump_if_false(),
            Op::Loop => self.op_loop(),
            Op::Call => self.op_call(),
            Op::Closure => self.op_closure(),
            Op::Return => self.op_return(),
        }
    }
}

/// Whether the caller's arithmetic is the function `compute`: whatever it
/// returns for an operation and two operands is what `compute` gives.
pub open spec fn computes<A: Fn(Arithmetic, u64, u64) -> u64>(
    arithmetic: &A,
    compute: spec_fn(Arithmetic, u64, u64) -> u64,
) -> bool {
    forall|operation: Arithmetic, a: u64, b: u64, r: u64| #[trigger]
        call_ensures(arithmetic, (operation, a, b), r) ==> r == compute(operation, a, b)
}

/// What the observer has seen after a run, if there is one.
pub open spec fn observed(
    inspector: Option<InspectorView>,
    stacks: Seq<Seq<ValueView>>,
) -> Option<InspectorView> {
    match inspector {
        Some(inspector) => Some(inspector.catch_stacks(stacks)),
        None => None,
    }
}

impl VM {
    /// Runs the machine for at most `fuel` instructions: until it halts, an
    /// instruction fails, or the fuel is used up. `arithmetic` adds,
    /// subtracts, multiplies and divides two numbers given as 64-bit
    /// patterns. The observer, if there is one, gets the stack before each
    /// instruction. After an error the machine is in the state before the
    /// failing instruction; a run that used up its fuel can be continued by
    /// another call.
    pub fn run<A: Fn(Arithmetic, u64, u64) -> u64>(
        &mut self,
        inspector: Option<Inspector>,
        arithmetic: &A,
        fuel: u64,
    ) -> (r: Result<Option<Inspector>, String>)
        requires
            forall|operation: Arithmetic, a: u64, b: u64|
                call_requires(arithmetic, (operation, a, b)),
        ensures
            forall|compute: spec_fn(Arithmetic, u64, u64) -> u64| #[trigger]
                computes(arithmetic, compute) ==> {
                    &&& final(self)@ == old(self)@.run(compute, fuel as nat).0
                    &&& match old(self)@.run(compute, fuel as nat).1 {
                        Some(message) => fails_with(r, message),
                        None => r is Ok && observer_view(r->Ok_0) == observed(
                            observer_view(inspector),
                            old(self)@.trace(compute, fuel as nat),
                        ),
                    }
                },
    {
        let ghost given = observer_view(inspector);
        let mut inspector = inspector;
        let mut left = fuel;
        let ghost mut caught: Seq<Seq<ValueView>> = Seq::empty();
        proof {
            match given {
                Some(i) => {
                    assert(i.catch_stacks(caught) =~= i);
                },
                None => {},
            }
        }
        while left > 0 && !self.is_halted()
            invariant
                forall|operation: Arithmetic, a: u64, b: u64|
                    call_requires(arithmetic, (operation, a, b)),
                observer_view(inspector) == observed(given, caught),
                forall|compute: spec_fn(Arithmetic, u64, u64) -> u64| #[trigger]
                    computes(arithmetic, compute) ==> {
                        &&& old(self)@.run(compute, fuel as nat) == self@.run(compute, left as nat)
                        &&& old(self)@.trace(compute, fuel as nat) == caught + self@.trace(
                            compute,
                            left as nat,
                        )
                    },
            decreases left,
        {
            let ghost before = self@;
            let ghost seen = caught;
            match inspector {
                Some(mut observer) => {
                    let ghost earlier = observer@;
                    observer.catch_stack(clone_values(&self.stack));
                    proof {
                        assert(observer@.stacks =~= given.unwrap().stacks + seen.push(
                            before.stack,
                        ));
                    }
                    inspector = Some(observer);
                },
                None => {},
            }
            proof {
                caught = seen.push(before.stack);
            }
            let computed = match self.pending() {
                Some((operation, a, b)) => arithmetic(operation, a, b),
                None => 0,
            };
            match self.step(computed) {
                Ok(()) => {},
                Err(message) => {
                    proof {
                        assert forall|compute: spec_fn(Arithmetic, u64, u64) -> u64| #[trigger]
                            computes(arithmetic, compute) implies {
                            &&& self@ == old(self)@.run(compute, fuel as nat).0
                            &&& old(self)@.run(compute, fuel as nat).1 == Some(message@)
                        } by {
                            assert(before.step_with(compute) == before.step(computed));
                        }
                    }
                    return Err(message);
                },
            }
            proof {
                assert forall|compute: spec_fn(Arithmetic, u64, u64) -> u64| #[trigger]
                    computes(arithmetic, compute) implies {
                    &&& old(self)@.run(compute, fuel as nat) == self@.run(
                        compute,
                        (left - 1) as nat,
                    )
                    &&& old(self)@.trace(compute, fuel as nat) == caught + self@.trace(
                        compute,
                        (left - 1) as nat,
                    )
                } by {
                    assert(before.step_with(compute) == before.step(computed));
                    assert(before.trace(compute, left as nat) == seq![before.stack] + self@.trace(
                        compute,
                        (left - 1) as nat,
                    ));
                    assert(seen + (seq![before.stack] + self@.trace(compute, (left - 1) as nat))
                        =~= seen.push(before.stack) + self@.trace(compute, (left - 1) as nat));
                }
            }
            left -= 1;
        }
        proof {
            assert forall|compute: spec_fn(Arithmetic, u64, u64) -> u64| #[trigger]
                computes(arithmetic, compute) implies old(self)@.trace(compute, fuel as nat)
                == caught by {
                assert(self@.trace(compute, left as nat) =~= Seq::empty());
                assert(caught + Seq::<Seq<ValueView>>::empty() =~= caught);
            }
        }
        Ok(inspector)
    }
}

/// What a run of a program has given: the values it has printed, in order,
/// and whether it has come to its end.
#[derive(Debug)]
pub struct Run {
    pub printed: Vec<Value>,
    pub finished: bool,
}

/// The run of a script for at most `fuel` instructions.
pub open spec fn script_run(
    function: crate::value::FunctionView,
    compute: spec_fn(Arithmetic, u64, u64) -> u64,
    fuel: nat,
) -> (VmView, Option<Seq<char>>) {
    VmView::start(ClosureView { function, upvalues: Seq::empty() }).run(compute, fuel)
}

/// Compiles a source text and runs it for at most `fuel` instructions.
/// `parse` gives the 64-bit pattern of a number from its text, and
/// `arithmetic` adds, subtracts, multiplies and divides two numbers given
/// as 64-bit patterns. The result holds what the program has printed, and
/// whether it has come to its end or only used up the fuel; an error of the
/// compiler or of the machine is returned as its message.
pub fn interpret<P: Fn(&str) -> Option<u64>, A: Fn(Arithmetic, u64, u64) -> u64>(
    source: &str,
    parse: &P,
    arithmetic: &A,
    fuel: u64,
) -> (r: Result<Run, String>)
    requires
        forall|text: &str| call_requires(parse, (text,)),
        forall|operation: Arithmetic, a: u64, b: u64| call_requires(arithmetic, (operation, a, b)),
    ensures
        forall|read: spec_fn(Seq<char>) -> Option<u64>, compute: spec_fn(Arithmetic, u64, u64) -> u64|
            #![trigger reads(parse, read), computes(arithmetic, compute)]
            reads(parse, read) && computes(arithmetic, compute) ==> match grammar::compile(
                input_of(source@, Place { index: 0, line: 1 }, read),
            ) {
                Err(message) => fails_with(r, message),
                Ok(function) => match script_run(function, compute, fuel as nat).1 {
                    Some(message) => fails_with(r, message),
                    None => r is Ok && views(r->Ok_0.printed@) == script_run(
                        function,
                        compute,
                        fuel as nat,
                    ).0.output && r->Ok_0.finished == script_run(
                        function,
                        compute,
                        fuel as nat,
                    ).0.halted(),
                },
            },
{
    let function = compile(source, parse)?;
    let mut vm = VM::from_function(function);
    let _ = vm.run(None, arithmetic, fuel)?;
    let finished = vm.is_halted();
    Ok(Run { printed: vm.output, finished })
}

} // verus!
