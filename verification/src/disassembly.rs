//! Disassembly: a chunk's bytecode as text, one instruction a line.

use vstd::prelude::*;
use vstd::string::*;
use crate::chunk::{short_of, Chunk, ChunkView, Op};
use crate::render::{renders, value_text};
use crate::text::{decimal, decimal_text, pad_left, pad_right, padded_left, padded_right};
use crate::value::{lemma_views, Value, ValueView};

verus! {

/// The name of an instruction.
pub open spec fn op_name(op: Op) -> Seq<char> {
    match op {
        Op::Constant => "Constant"@,
        Op::Nil => "Nil"@,
        Op::True => "True"@,
        Op::False => "False"@,
        Op::Pop => "Pop"@,
        Op::GetLocal => "GetLocal"@,
        Op::SetLocal => "SetLocal"@,
        Op::GetGlobal => "GetGlobal"@,
        Op::DefineGlobal => "DefineGlobal"@,
        Op::SetGlobal => "SetGlobal"@,
        Op::GetUpvalue => "GetUpvalue"@,
        Op::SetUpvalue => "SetUpvalue"@,
        Op::Equal => "Equal"@,
        Op::Greater => "Greater"@,
        Op::Less => "Less"@,
        Op::Add => "Add"@,
        Op::Subtract => "Subtract"@,
        Op::Multiply => "Multiply"@,
        Op::Divide => "Divide"@,
        Op::Not => "Not"@,
        Op::Negate => "Negate"@,
        Op::Print => "Print"@,
        Op::Jump => "Jump"@,
        Op::JumpIfFalse => "JumpIfFalse"@,
        Op::Loop => "Loop"@,
        Op::Call => "Call"@,
        Op::Closure => "Closure"@,
        Op::Return => "Return"@,
    }
}

impl Op {
    /// The name of the instruction.
    pub fn name(self) -> (r: &'static str)
        ensures
            r@ == op_name(self),
    {
        match self {
            Op::Constant => "Constant",
            Op::Nil => "Nil",
            Op::True => "True",
            Op::False => "False",
            Op::Pop => "Pop",
            Op::GetLocal => "GetLocal",
            Op::SetLocal => "SetLocal",
            Op::GetGlobal => "GetGlobal",
            Op::DefineGlobal => "DefineGlobal",
            Op::SetGlobal => "SetGlobal",
            Op::GetUpvalue => "GetUpvalue",
            Op::SetUpvalue => "SetUpvalue",
            Op::Equal => "Equal",
            Op::Greater => "Greater",
            Op::Less => "Less",
            Op::Add => "Add",
            Op::Subtract => "Subtract",
            Op::Multiply => "Multiply",
            Op::Divide => "Divide",
            Op::Not => "Not",
            Op::Negate => "Negate",
            Op::Print => "Print",
            Op::Jump => "Jump",
            Op::JumpIfFalse => "JumpIfFalse",
            Op::Loop => "Loop",
            Op::Call => "Call",
            Op::Closure => "Closure",
            Op::Return => "Return",
        }
    }
}

/// How a line shows the position of its first byte: in four digits at
/// least, with leading zeros.
pub open spec fn offset_text(at: nat) -> Seq<char> {
    pad_left(decimal(at), 4, '0')
}

/// An instruction's name in sixteen columns, and a number in four.
pub open spec fn operand_text(op: Op, operand: nat) -> Seq<char> {
    pad_right(op_name(op), 16) + " "@ + pad_left(decimal(operand), 4, ' ')
}

/// The line of one captured variable of a `Closure` instruction, whose two
/// bytes begin at `at`.
pub open spec fn capture_line(codes: Seq<u8>, at: int) -> Seq<char> {
    offset_text(at as nat) + " "@ + pad_right("|"@, 21) + " "@ + (if codes[at as int] == 1 {
        "local"@
    } else {
        "upvalue"@
    }) + " "@ + decimal(codes[at + 1] as nat) + "\n"@
}

/// The lines of `count` captured variables, whose bytes begin at `at`.
pub open spec fn capture_lines(codes: Seq<u8>, at: int, count: nat) -> Seq<char>
    decreases count,
{
    if count == 0 {
        Seq::empty()
    } else {
        capture_lines(codes, at, (count - 1) as nat) + capture_line(
            codes,
            at + 2 * (count - 1),
        )
    }
}

/// The text of the instruction at `at` after the position column, and the
/// number of its bytes; `None` where the bytes there are no whole
/// instruction, name a constant that the pool lacks, or jump to a position
/// that is no machine index.
pub open spec fn instruction_text(
    chunk: ChunkView,
    at: int,
    shown: spec_fn(u64) -> Seq<char>,
) -> Option<(Seq<char>, nat)> {
    let codes = chunk.codes;
    if at < 0 || at >= codes.len() {
        None
    } else {
        match Op::decode_spec(codes[at]) {
            None => None,
            Some(op) => match op {
                Op::Constant | Op::GetGlobal | Op::DefineGlobal | Op::SetGlobal => {
                    if at + 1 < codes.len() && codes[at + 1] < chunk.constants.len() {
                        Some(
                            (
                                operand_text(op, codes[at + 1] as nat) + " '"@ + value_text(
                                    chunk.constants[codes[at + 1] as int],
                                    shown,
                                ) + "'\n"@,
                                2,
                            ),
                        )
                    } else {
                        None
                    }
                },
                Op::GetLocal | Op::SetLocal | Op::GetUpvalue | Op::SetUpvalue | Op::Call => {
                    if at + 1 < codes.len() {
                        Some((operand_text(op, codes[at + 1] as nat) + "\n"@, 2))
                    } else {
                        None
                    }
                },
                Op::Jump | Op::JumpIfFalse | Op::Loop => {
                    if at + 2 < codes.len() {
                        let offset = short_of(codes[at + 1], codes[at + 2]);
                        let to = if op == Op::Loop {
                            at + 3 - offset
                        } else {
                            at + 3 + offset
                        };
                        if 0 <= to <= usize::MAX {
                            Some(
                                (
                                    operand_text(op, at as nat) + " -> "@ + decimal(to as nat) + "\n"@,
                                    3,
                                ),
                            )
                        } else {
                            None
                        }
                    } else {
                        None
                    }
                },
                Op::Closure => {
                    if at + 1 < codes.len() && codes[at + 1] < chunk.constants.len() {
                        match chunk.constants[codes[at + 1] as int] {
                            ValueView::Function(function) => {
                                let count = function.upvalue_count as nat;
                                if at + 1 + 2 * count < codes.len() {
                                    Some(
                                        (
                                            operand_text(op, codes[at + 1] as nat) + " "@
                                                + value_text(
                                                chunk.constants[codes[at + 1] as int],
                                                shown,
                                            ) + "\n"@ + capture_lines(codes, at + 2, count),
                                            2 + 2 * count,
                                        ),
                                    )
                                } else {
                                    None
                                }
                            },
                            _ => None,
                        }
                    } else {
                        None
                    }
                },
                _ => Some((op_name(op) + "\n"@, 1)),
            },
        }
    }
}

/// The lines of the instructions from `at` on, up to the end of the code or
/// to the first bytes that are no instruction.
pub open spec fn disassembly(chunk: ChunkView, at: int, shown: spec_fn(u64) -> Seq<char>) -> Seq<
    char,
>
    decreases chunk.codes.len() - at,
{
    match instruction_text(chunk, at, shown) {
        Some((text, size)) => if size > 0 && 0 <= at < chunk.codes.len() {
            offset_text(at as nat) + " "@ + text + disassembly(chunk, at + size, shown)
        } else {
            Seq::empty()
        },
        None => Seq::empty(),
    }
}

/// The disassembly of a chunk under a heading.
pub open spec fn bytecodes_text(
    chunk: ChunkView,
    prefix: Seq<char>,
    shown: spec_fn(u64) -> Seq<char>,
) -> Seq<char> {
    prefix + "\n"@ + disassembly(chunk, 0, shown)
}

/// A position in four digits at least.
fn debug_offset(at: usize) -> (r: String)
    ensures
        r@ == offset_text(at as nat),
{
    proof {
        reveal_strlit("0");
    }
    padded_left(decimal_text(at).as_str(), 4, "0")
}

/// An instruction's name in sixteen columns, and a number in four.
fn debug_operand(op: Op, operand: usize) -> (r: String)
    ensures
        r@ == operand_text(op, operand as nat),
{
    proof {
        reveal_strlit(" ");
    }
    let mut r = padded_right(op.name(), 16);
    r.append(" ");
    r.append(padded_left(decimal_text(operand).as_str(), 4, " ").as_str());
    r
}

impl Chunk {
    fn debug_simple(&self, op: Op) -> (r: String)
        ensures
            r@ == op_name(op) + "\n"@,
    {
        let mut r = op.name().to_owned();
        r.append("\n");
        r
    }

    /// The line of an instruction whose operand names a constant.
    fn debug_double<R: Fn(u64) -> String>(&self, op: Op, index: u8, render: &R) -> (r: String)
        requires
            index < self.constants.len(),
            forall|bits: u64| call_requires(render, (bits,)),
        ensures
            forall|shown: spec_fn(u64) -> Seq<char>| #[trigger]
                renders(render, shown) ==> r@ == operand_text(op, index as nat) + " '"@
                    + value_text(self@.constants[index as int], shown) + "'\n"@,
    {
        proof {
            lemma_views(self.constants@);
        }
        let mut r = debug_operand(op, index as usize);
        r.append(" '");
        let value = self.constants[index as usize].debug(render);
        r.append(value.as_str());
        r.append("'\n");
        r
    }

    /// The line of an instruction whose operand is a number.
    fn debug_index(&self, op: Op, index: u8) -> (r: String)
        ensures
            r@ == operand_text(op, index as nat) + "\n"@,
    {
        let mut r = debug_operand(op, index as usize);
        r.append("\n");
        r
    }

    /// The line of a jump from `from` to `to`.
    fn debug_jump(&self, op: Op, from: usize, to: usize) -> (r: String)
        ensures
            r@ == operand_text(op, from as nat) + " -> "@ + decimal(to as nat) + "\n"@,
    {
        let mut r = debug_operand(op, from);
        r.append(" -> ");
        r.append(decimal_text(to).as_str());
        r.append("\n");
        r
    }

    /// The line of one captured variable.
    fn debug_capture(&self, at: usize) -> (r: String)
        requires
            at + 1 < self.codes.len(),
        ensures
            r@ == capture_line(self@.codes, at as int),
    {
        let mut r = debug_offset(at);
        r.append(" ");
        r.append(padded_right("|", 21).as_str());
        r.append(" ");
        if self.codes[at] == 1 {
            r.append("local");
        } else {
            r.append("upvalue");
        }
        r.append(" ");
        r.append(decimal_text(self.codes[at + 1] as usize).as_str());
        r.append("\n");
        r
    }

    /// The lines of a `Closure` instruction at `at`, whose function captures
    /// `count` variables.
    fn debug_closure<R: Fn(u64) -> String>(
        &self,
        at: usize,
        index: u8,
        count: usize,
        render: &R,
    ) -> (r: String)
        requires
            index < self.constants.len(),
            at + 1 + 2 * count < self.codes.len(),
            forall|bits: u64| call_requires(render, (bits,)),
        ensures
            forall|shown: spec_fn(u64) -> Seq<char>| #[trigger]
                renders(render, shown) ==> r@ == operand_text(Op::Closure, index as nat) + " "@
                    + value_text(self@.constants[index as int], shown) + "\n"@ + capture_lines(
                    self@.codes,
                    at + 2,
                    count as nat,
                ),
    {
        proof {
            lemma_views(self.constants@);
        }
        let mut r = debug_operand(Op::Closure, index as usize);
        r.append(" ");
        let value = self.constants[index as usize].debug(render);
        r.append(value.as_str());
        r.append("\n");
        let ghost head = r@;
        let mut k: usize = 0;
        proof {
            assert(head + capture_lines(self@.codes, at + 2, 0) =~= head);
        }
        while k < count
            invariant
                k <= count,
                at + 1 + 2 * count < self.codes.len(),
                r@ == head + capture_lines(self@.codes, at + 2, k as nat),
            decreases count - k,
        {
            let line = self.debug_capture(at + 2 + 2 * k);
            r.append(line.as_str());
            proof {
                assert(r@ =~= head + capture_lines(self@.codes, at + 2, (k + 1) as nat));
            }
            k += 1;
        }
        r
    }

    /// The text of the instruction at `at` after the position column, and
    /// the number of its bytes.
    fn debug_instruction<R: Fn(u64) -> String>(&self, at: usize, render: &R) -> (r: Option<
        (String, usize),
    >)
        requires
            forall|bits: u64| call_requires(render, (bits,)),
        ensures
            forall|shown: spec_fn(u64) -> Seq<char>| #[trigger]
                renders(render, shown) ==> match instruction_text(self@, at as int, shown) {
                    Some((text, size)) => r.is_some() && r.unwrap().0@ == text && r.unwrap().1
                        == size,
                    None => r.is_none(),
                },
            r.is_some() ==> 0 < r.unwrap().1 && at + r.unwrap().1 <= self.codes.len(),
    {
        proof {
            lemma_views(self.constants@);
        }
        let len = self.codes.len();
        if at >= len {
            return None;
        }
        let op = match Op::decode(self.codes[at]) {
            Some(op) => op,
            None => {
                return None;
            },
        };
        match op {
            Op::Constant | Op::GetGlobal | Op::DefineGlobal | Op::SetGlobal => {
                if len - at > 1 && (self.codes[at + 1] as usize) < self.constants.len() {
                    Some((self.debug_double(op, self.codes[at + 1], render), 2))
                } else {
                    None
                }
            },
            Op::GetLocal | Op::SetLocal | Op::GetUpvalue | Op::SetUpvalue | Op::Call => {
                if len - at > 1 {
                    Some((self.debug_index(op, self.codes[at + 1]), 2))
                } else {
                    None
                }
            },
            Op::Jump | Op::JumpIfFalse | Op::Loop => {
                if len - at > 2 {
                    let offset = self.codes[at + 1] as usize + 256 * (self.codes[at + 2] as usize);
                    if op == Op::Loop {
                        if offset <= at + 3 {
                            Some((self.debug_jump(op, at, at + 3 - offset), 3))
                        } else {
                            None
                        }
                    } else if offset <= usize::MAX - at - 3 {
                        Some((self.debug_jump(op, at, at + 3 + offset), 3))
                    } else {
                        None
                    }
                } else {
                    None
                }
            },
            Op::Closure => {
                if len - at > 1 && (self.codes[at + 1] as usize) < self.constants.len() {
                    let index = self.codes[at + 1];
                    let count = match &self.constants[index as usize] {
                        Value::Function(function) => function.upvalue_count as usize,
                        _ => {
                            return None;
                        },
                    };
                    if 2 * count < len - at - 1 {
                        Some((self.debug_closure(at, index, count, render), 2 + 2 * count))
                    } else {
                        None
                    }
                } else {
                    None
                }
            },
            _ => Some((self.debug_simple(op), 1)),
        }
    }

    /// The disassembly of the chunk under the heading `prefix`: one line for
    /// each instruction, with its position, its name and its operands.
    /// `render` gives the text of a number from its 64-bit pattern. The
    /// lines end where the code ends, or before the first bytes that are no
    /// instruction.
    pub fn debug_bytecodes<R: Fn(u64) -> String>(&self, prefix: &str, render: &R) -> (r: String)
        requires
            forall|bits: u64| call_requires(render, (bits,)),
        ensures
            forall|shown: spec_fn(u64) -> Seq<char>| #[trigger]
                renders(render, shown) ==> r@ == bytecodes_text(self@, prefix@, shown),
    {
        let mut buffer = prefix.to_owned();
        buffer.append("\n");
        let ghost head = buffer@;
        let mut at: usize = 0;
        let mut open = true;
        while open
            invariant
                at <= self.codes.len(),
                head == prefix@ + "\n"@,
                forall|bits: u64| call_requires(render, (bits,)),
                forall|shown: spec_fn(u64) -> Seq<char>| #[trigger]
                    renders(render, shown) ==> bytecodes_text(self@, prefix@, shown) == buffer@ + (
                    if open {
                        disassembly(self@, at as int, shown)
                    } else {
                        Seq::empty()
                    }),
            decreases self.codes.len() - at + (if open { 1nat } else { 0nat }),
        {
            let ghost before = buffer@;
            match self.debug_instruction(at, render) {
                Some((text, size)) => {
                    buffer.append(debug_offset(at).as_str());
                    buffer.append(" ");
                    buffer.append(text.as_str());
                    proof {
                        assert forall|shown: spec_fn(u64) -> Seq<char>| #[trigger]
                            renders(render, shown) implies bytecodes_text(self@, prefix@, shown)
                            == buffer@ + disassembly(self@, at + size, shown) by {
                            assert(before + (offset_text(at as nat) + " "@ + text@ + disassembly(
                                self@,
                                at + size,
                                shown,
                            )) =~= buffer@ + disassembly(self@, at + size, shown));
                        }
                    }
                    at += size;
                },
                None => {
                    open = false;
                },
            }
        }
        proof {
            assert forall|shown: spec_fn(u64) -> Seq<char>| #[trigger]
                renders(render, shown) implies buffer@ == bytecodes_text(self@, prefix@, shown) by {
                assert(buffer@ + Seq::<char>::empty() =~= buffer@);
            }
        }
        buffer
    }
}

} // verus!
