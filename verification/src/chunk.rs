//! Bytecode: the instruction set, and the operations that fill a chunk.

use vstd::prelude::*;
pub use crate::value::{Chunk, ChunkView};
use crate::scopes::Capture;
use crate::text::{agrees, failure, fails_with};
use crate::value::{Function, Value, ValueView, lemma_views, lemma_views_push};

verus! {

/// The instructions of the machine. Each is one byte, its position in this
/// list, followed by its operands.
#[derive(Clone, Copy, Debug, PartialEq, Eq, Structural)]
pub enum Op {
    Constant,
    Nil,
    True,
    False,
    Pop,
    GetLocal,
    SetLocal,
    GetGlobal,
    DefineGlobal,
    SetGlobal,
    GetUpvalue,
    SetUpvalue,
    Equal,
    Greater,
    Less,
    Add,
    Subtract,
    Multiply,
    Divide,
    Not,
    Negate,
    Print,
    Jump,
    JumpIfFalse,
    Loop,
    Call,
    Closure,
    Return,
}

impl Op {
    /// The byte that encodes the instruction.
    pub open spec fn byte_spec(self) -> u8 {
        match self {
            Op::Constant => 0,
            Op::Nil => 1,
            Op::True => 2,
            Op::False => 3,
            Op::Pop => 4,
            Op::GetLocal => 5,
            Op::SetLocal => 6,
            Op::GetGlobal => 7,
            Op::DefineGlobal => 8,
            Op::SetGlobal => 9,
            Op::GetUpvalue => 10,
            Op::SetUpvalue => 11,
            Op::Equal => 12,
            Op::Greater => 13,
            Op::Less => 14,
            Op::Add => 15,
            Op::Subtract => 16,
            Op::Multiply => 17,
            Op::Divide => 18,
            Op::Not => 19,
            Op::Negate => 20,
            Op::Print => 21,
            Op::Jump => 22,
            Op::JumpIfFalse => 23,
            Op::Loop => 24,
            Op::Call => 25,
            Op::Closure => 26,
            Op::Return => 27,
        }
    }

    /// The instruction that a byte encodes, if it encodes one.
    pub open spec fn decode_spec(byte: u8) -> Option<Op> {
        match byte {
            0 => Some(Op::Constant),
            1 => Some(Op::Nil),
            2 => Some(Op::True),
            3 => Some(Op::False),
            4 => Some(Op::Pop),
            5 => Some(Op::GetLocal),
            6 => Some(Op::SetLocal),
            7 => Some(Op::GetGlobal),
            8 => Some(Op::DefineGlobal),
            9 => Some(Op::SetGlobal),
            10 => Some(Op::GetUpvalue),
            11 => Some(Op::SetUpvalue),
            12 => Some(Op::Equal),
            13 => Some(Op::Greater),
            14 => Some(Op::Less),
            15 => Some(Op::Add),
            16 => Some(Op::Subtract),
            17 => Some(Op::Multiply),
            18 => Some(Op::Divide),
            19 => Some(Op::Not),
            20 => Some(Op::Negate),
            21 => Some(Op::Print),
            22 => Some(Op::Jump),
            23 => Some(Op::JumpIfFalse),
            24 => Some(Op::Loop),
            25 => Some(Op::Call),
            26 => Some(Op::Closure),
            27 => Some(Op::Return),
            _ => None,
        }
    }

    /// The number of operand bytes that always follow the instruction. A
    /// `Closure` instruction is followed by two more for each variable that
    /// its function captures.
    pub open spec fn operands_spec(self) -> nat {
        match self {
            Op::Constant
            | Op::GetLocal
            | Op::SetLocal
            | Op::GetGlobal
            | Op::DefineGlobal
            | Op::SetGlobal
            | Op::GetUpvalue
            | Op::SetUpvalue
            | Op::Call
            | Op::Closure => 1,
            Op::Jump | Op::JumpIfFalse | Op::Loop => 2,
            _ => 0,
        }
    }

    pub fn byte(self) -> (r: u8)
        ensures
            r == self.byte_spec(),
            Op::decode_spec(r) == Some(self),
    {
        match self {
            Op::Constant => 0,
            Op::Nil => 1,
            Op::True => 2,
            Op::False => 3,
            Op::Pop => 4,
            Op::GetLocal => 5,
            Op::SetLocal => 6,
            Op::GetGlobal => 7,
            Op::DefineGlobal => 8,
            Op::SetGlobal => 9,
            Op::GetUpvalue => 10,
            Op::SetUpvalue => 11,
            Op::Equal => 12,
            Op::Greater => 13,
            Op::Less => 14,
            Op::Add => 15,
            Op::Subtract => 16,
            Op::Multiply => 17,
            Op::Divide => 18,
            Op::Not => 19,
            Op::Negate => 20,
            Op::Print => 21,
            Op::Jump => 22,
            Op::JumpIfFalse => 23,
            Op::Loop => 24,
            Op::Call => 25,
            Op::Closure => 26,
            Op::Return => 27,
        }
    }

    /// Decodes a byte; `None` for a byte that encodes no instruction.
    pub fn decode(byte: u8) -> (r: Option<Op>)
        ensures
            r == Op::decode_spec(byte),
            r.is_some() <==> byte <= 27,
            r.is_some() ==> r.unwrap().byte_spec() == byte,
    {
        match byte {
            0 => Some(Op::Constant),
            1 => Some(Op::Nil),
            2 => Some(Op::True),
            3 => Some(Op::False),
            4 => Some(Op::Pop),
            5 => Some(Op::GetLocal),
            6 => Some(Op::SetLocal),
            7 => Some(Op::GetGlobal),
            8 => Some(Op::DefineGlobal),
            9 => Some(Op::SetGlobal),
            10 => Some(Op::GetUpvalue),
            11 => Some(Op::SetUpvalue),
            12 => Some(Op::Equal),
            13 => Some(Op::Greater),
            14 => Some(Op::Less),
            15 => Some(Op::Add),
            16 => Some(Op::Subtract),
            17 => Some(Op::Multiply),
            18 => Some(Op::Divide),
            19 => Some(Op::Not),
            20 => Some(Op::Negate),
            21 => Some(Op::Print),
            22 => Some(Op::Jump),
            23 => Some(Op::JumpIfFalse),
            24 => Some(Op::Loop),
            25 => Some(Op::Call),
            26 => Some(Op::Closure),
            27 => Some(Op::Return),
            _ => None,
        }
    }

    pub fn operands(self) -> (r: usize)
        ensures
            r == self.operands_spec(),
    {
        match self {
            Op::Constant
            | Op::GetLocal
            | Op::SetLocal
            | Op::GetGlobal
            | Op::DefineGlobal
            | Op::SetGlobal
            | Op::GetUpvalue
            | Op::SetUpvalue
            | Op::Call
            | Op::Closure => 1,
            Op::Jump | Op::JumpIfFalse | Op::Loop => 2,
            _ => 0,
        }
    }
}

/// The low byte of a 16-bit operand.
pub open spec fn low_byte(n: int) -> u8 {
    (n % 256) as u8
}

/// The high byte of a 16-bit operand.
pub open spec fn high_byte(n: int) -> u8 {
    (n / 256) as u8
}

/// The 16-bit operand that two bytes hold, low byte first.
pub open spec fn short_of(low: u8, high: u8) -> int {
    low as int + 256 * (high as int)
}

impl ChunkView {
    /// The chunk with bytes appended to its code.
    pub open spec fn emit(self, bytes: Seq<u8>) -> ChunkView {
        ChunkView { codes: self.codes + bytes, constants: self.constants }
    }

    /// The chunk with one more constant.
    pub open spec fn with_constant(self, constant: ValueView) -> ChunkView {
        ChunkView { codes: self.codes, constants: self.constants.push(constant) }
    }

    /// The chunk with one byte of its code replaced.
    pub open spec fn write(self, at: int, byte: u8) -> ChunkView {
        ChunkView { codes: self.codes.update(at, byte), constants: self.constants }
    }

    /// The two operand bytes of each captured variable, in order.
    pub open spec fn capture_bytes(upvalues: Seq<Capture>) -> Seq<u8>
        decreases upvalues.len(),
    {
        if upvalues.len() == 0 {
            Seq::empty()
        } else {
            Self::capture_bytes(upvalues.drop_last()) + seq![
                if upvalues.last().is_local {
                    1u8
                } else {
                    0u8
                },
                upvalues.last().index,
            ]
        }
    }

    /// The chunk after a jump placeholder has been patched to the end of the
    /// code.
    pub open spec fn patch_jump(self, start: int) -> ChunkView {
        let offset = self.codes.len() - 2 - start;
        self.write(start, low_byte(offset)).write(start + 1, high_byte(offset))
    }
}

impl ChunkView {
    /// The length of the code, while it fits sixteen bits.
    pub open spec fn code_len(self) -> Result<u16, Seq<char>> {
        if self.codes.len() > 0xffff {
            Err("Too much code..."@)
        } else {
            Ok(self.codes.len() as u16)
        }
    }

    /// Adding a constant: the new chunk and the constant's index, while the
    /// pool has room.
    pub open spec fn add_constant(self, constant: ValueView) -> Result<(ChunkView, u8), Seq<char>> {
        if self.constants.len() > 0xff {
            Err("Too many constants in one chunk."@)
        } else {
            Ok((self.with_constant(constant), self.constants.len() as u8))
        }
    }

    /// Adding a constant and the instruction that loads it.
    pub open spec fn emit_constant(self, constant: ValueView) -> Result<ChunkView, Seq<char>> {
        match self.add_constant(constant) {
            Ok((chunk, index)) => Ok(chunk.emit(seq![Op::Constant.byte_spec(), index])),
            Err(message) => Err(message),
        }
    }

    /// A jump instruction with a placeholder operand.
    pub open spec fn jump_bytes(op: Op) -> Seq<u8> {
        seq![op.byte_spec(), 0xffu8, 0xffu8]
    }

    /// Emitting a jump with a placeholder: the new chunk and the position of
    /// the placeholder, while that position fits sixteen bits.
    pub open spec fn emit_jump(self, op: Op) -> Result<(ChunkView, u16), Seq<char>> {
        let chunk = self.emit(Self::jump_bytes(op));
        if chunk.codes.len() > 0xffff {
            Err("Too much code..."@)
        } else {
            Ok((chunk, (chunk.codes.len() - 2) as u16))
        }
    }

    /// Patching a placeholder so that its jump lands at the end of the code.
    pub open spec fn try_patch_jump(self, start: u16) -> Result<ChunkView, Seq<char>> {
        if self.codes.len() > 0xffff {
            Err("Too much code to jump over."@)
        } else if start + 2 > self.codes.len() {
            Err("The index is out of bound"@)
        } else {
            Ok(self.patch_jump(start as int))
        }
    }

    /// The distance that a `Loop` instruction emitted now jumps back to
    /// reach `start`.
    pub open spec fn loop_offset(self, start: u16) -> int {
        self.codes.len() + 3 - start
    }

    /// Emitting a jump back to `start`, while the distance fits sixteen bits.
    pub open spec fn emit_loop(self, start: u16) -> Result<ChunkView, Seq<char>> {
        let offset = self.loop_offset(start);
        if 0 <= offset <= 0xffff {
            Ok(self.emit(seq![Op::Loop.byte_spec(), low_byte(offset), high_byte(offset)]))
        } else {
            Err("Loop body too large."@)
        }
    }

    /// Emitting the instruction that builds a closure of `function`, with the
    /// operands of its captured variables.
    pub open spec fn emit_closure(self, function: crate::value::FunctionView, upvalues: Seq<Capture>) -> Result<
        ChunkView,
        Seq<char>,
    > {
        match self.add_constant(ValueView::Function(function)) {
            Ok((chunk, index)) => Ok(
                chunk.emit(seq![Op::Closure.byte_spec(), index]).emit(
                    Self::capture_bytes(upvalues),
                ),
            ),
            Err(message) => Err(message),
        }
    }
}

impl Chunk {
    pub fn code_len(&self) -> (r: Result<u16, String>)
        ensures
            agrees(r, self@.code_len()),
    {
        let len = self.codes.len();
        if len > 0xffff {
            return failure("Too much code...");
        }
        Ok(len as u16)
    }

    fn push(&mut self, byte: u8)
        ensures
            final(self)@ == old(self)@.emit(seq![byte]),
    {
        self.codes.push(byte);
        assert(self@.codes =~= old(self)@.codes + seq![byte]);
    }

    pub fn emit_op(&mut self, op: Op)
        ensures
            final(self)@ == old(self)@.emit(seq![op.byte_spec()]),
    {
        self.push(op.byte())
    }

    /// Emits an instruction with a one-byte operand.
    pub fn emit_pair(&mut self, op: Op, operand: u8)
        ensures
            final(self)@ == old(self)@.emit(seq![op.byte_spec(), operand]),
    {
        self.push(op.byte());
        self.push(operand);
        assert(self@.codes =~= old(self)@.codes + seq![op.byte_spec(), operand]);
    }

    pub fn add_constant(&mut self, constant: Value) -> (r: Result<u8, String>)
        ensures
            match old(self)@.add_constant(constant@) {
                Ok((chunk, index)) => r == Ok::<u8, String>(index) && final(self)@ == chunk,
                Err(message) => fails_with(r, message) && final(self)@ == old(self)@,
            },
    {
        let index = self.constants.len();
        proof {
            lemma_views(self.constants@);
            lemma_views_push(self.constants@, constant);
        }
        if index > 0xff {
            return failure("Too many constants in one chunk.");
        }
        self.constants.push(constant);
        Ok(index as u8)
    }

    pub fn emit_constant(&mut self, constant: Value) -> (r: Result<(), String>)
        ensures
            match old(self)@.emit_constant(constant@) {
                Ok(chunk) => r is Ok && final(self)@ == chunk,
                Err(message) => fails_with(r, message) && final(self)@ == old(self)@,
            },
    {
        let index = self.add_constant(constant)?;
        self.emit_pair(Op::Constant, index);
        Ok(())
    }

    pub fn emit_define_global(&mut self, index: u8)
        ensures
            final(self)@ == old(self)@.emit(seq![Op::DefineGlobal.byte_spec(), index]),
    {
        self.emit_pair(Op::DefineGlobal, index)
    }

    pub fn emit_get_global(&mut self, index: u8)
        ensures
            final(self)@ == old(self)@.emit(seq![Op::GetGlobal.byte_spec(), index]),
    {
        self.emit_pair(Op::GetGlobal, index)
    }

    pub fn emit_set_global(&mut self, index: u8)
        ensures
            final(self)@ == old(self)@.emit(seq![Op::SetGlobal.byte_spec(), index]),
    {
        self.emit_pair(Op::SetGlobal, index)
    }

    pub fn emit_get_local(&mut self, index: u8)
        ensures
            final(self)@ == old(self)@.emit(seq![Op::GetLocal.byte_spec(), index]),
    {
        self.emit_pair(Op::GetLocal, index)
    }

    pub fn emit_set_local(&mut self, index: u8)
        ensures
            final(self)@ == old(self)@.emit(seq![Op::SetLocal.byte_spec(), index]),
    {
        self.emit_pair(Op::SetLocal, index)
    }

    pub fn emit_get_upvalue(&mut self, index: u8)
        ensures
            final(self)@ == old(self)@.emit(seq![Op::GetUpvalue.byte_spec(), index]),
    {
        self.emit_pair(Op::GetUpvalue, index)
    }

    pub fn emit_set_upvalue(&mut self, index: u8)
        ensures
            final(self)@ == old(self)@.emit(seq![Op::SetUpvalue.byte_spec(), index]),
    {
        self.emit_pair(Op::SetUpvalue, index)
    }

    pub fn emit_call(&mut self, arg_count: u8)
        ensures
            final(self)@ == old(self)@.emit(seq![Op::Call.byte_spec(), arg_count]),
    {
        self.emit_pair(Op::Call, arg_count)
    }

    /// Emits the two operand bytes of one captured variable.
    pub fn emit_upvalue(&mut self, upvalue: Capture)
        ensures
            final(self)@ == old(self)@.emit(
                seq![
                    if upvalue.is_local {
                        1u8
                    } else {
                        0u8
                    },
                    upvalue.index,
                ],
            ),
    {
        let flag: u8 = if upvalue.is_local {
            1
        } else {
            0
        };
        self.push(flag);
        self.push(upvalue.index);
        assert(self@.codes =~= old(self)@.codes + seq![flag, upvalue.index]);
    }

    pub fn emit_jump(&mut self, op: Op) -> (r: Result<u16, String>)
        ensures
            final(self)@ == old(self)@.emit(ChunkView::jump_bytes(op)),
            match old(self)@.emit_jump(op) {
                Ok((chunk, start)) => r == Ok::<u16, String>(start),
                Err(message) => fails_with(r, message),
            },
    {
        self.push(op.byte());
        self.push(0xff);
        self.push(0xff);
        assert(self@.codes =~= old(self)@.codes + ChunkView::jump_bytes(op));
        let len = self.codes.len();
        if len > 0xffff {
            return failure("Too much code...");
        }
        Ok((len - 2) as u16)
    }

    fn write(&mut self, byte: u8, at: usize) -> (r: Result<(), String>)
        ensures
            at < old(self).codes.len() ==> r is Ok && final(self)@ == old(self)@.write(
                at as int,
                byte,
            ),
            at >= old(self).codes.len() ==> fails_with(r, "The index is out of bound"@)
                && final(self)@ == old(self)@,
    {
        if at >= self.codes.len() {
            return failure("The index is out of bound");
        }
        self.codes[at] = byte;
        Ok(())
    }

    pub fn patch_jump(&mut self, start: u16) -> (r: Result<(), String>)
        ensures
            match old(self)@.try_patch_jump(start) {
                Ok(chunk) => r is Ok && final(self)@ == chunk,
                Err(message) => fails_with(r, message) && final(self)@ == old(self)@,
            },
    {
        let len = self.codes.len();
        if len > 0xffff {
            return failure("Too much code to jump over.");
        }
        let at = start as usize;
        if at + 2 > len {
            return failure("The index is out of bound");
        }
        let offset = len - 2 - at;
        self.write((offset % 256) as u8, at)?;
        self.write((offset / 256) as u8, at + 1)?;
        Ok(())
    }

    pub fn emit_loop(&mut self, start: u16) -> (r: Result<(), String>)
        ensures
            match old(self)@.emit_loop(start) {
                Ok(chunk) => r is Ok && final(self)@ == chunk,
                Err(message) => fails_with(r, message) && final(self)@ == old(self)@,
            },
    {
        let len = self.codes.len();
        let at = start as usize;
        if len >= 0x2_0000 || at > len + 3 || len + 3 - at > 0xffff {
            return failure("Loop body too large.");
        }
        let offset = len + 3 - at;
        self.push(Op::Loop.byte());
        self.push((offset % 256) as u8);
        self.push((offset / 256) as u8);
        assert(self@.codes =~= old(self)@.codes + seq![
            Op::Loop.byte_spec(),
            low_byte(offset as int),
            high_byte(offset as int),
        ]);
        Ok(())
    }

    pub fn emit_closure(&mut self, function: Function, upvalues: &Vec<Capture>) -> (r: Result<
        (),
        String,
    >)
        ensures
            match old(self)@.emit_closure(function@, upvalues@) {
                Ok(chunk) => r is Ok && final(self)@ == chunk,
                Err(message) => fails_with(r, message) && final(self)@ == old(self)@,
            },
    {
        let index = self.add_constant(Value::Function(function))?;
        self.emit_pair(Op::Closure, index);
        let ghost base = self@;
        let mut i: usize = 0;
        while i < upvalues.len()
            invariant
                i <= upvalues.len(),
                self@ == base.emit(ChunkView::capture_bytes(upvalues@.take(i as int))),
            decreases upvalues.len() - i,
        {
            let ghost before = self@;
            self.emit_upvalue(upvalues[i]);
            proof {
                assert(upvalues@.take(i + 1).drop_last() =~= upvalues@.take(i as int));
                assert(self@.codes =~= base.codes + ChunkView::capture_bytes(
                    upvalues@.take(i + 1),
                ));
            }
            i += 1;
        }
        assert(upvalues@.take(i as int) =~= upvalues@);
        Ok(())
    }
}

} // verus!
