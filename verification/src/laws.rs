//! Laws of the bytecode and of the machine.

use vstd::prelude::*;
use crate::chunk::{high_byte, low_byte, short_of, ChunkView, Op};
use crate::semantics::{undefined_variable, VmView};
use crate::value::ValueView;

verus! {

/// A 16-bit operand is what its two bytes hold.
pub proof fn lemma_short_round_trip(n: int)
    requires
        0 <= n <= 0xffff,
    ensures
        short_of(low_byte(n), high_byte(n)) == n,
{
}

/// A patched jump lands at the end of the code: the operand that
/// `patch_jump` writes at `start` is the distance from the byte after the
/// operand to the place where the next instruction will be emitted.
pub proof fn lemma_patched_jump_lands_at_end(chunk: ChunkView, start: u16)
    requires
        chunk.try_patch_jump(start) is Ok,
    ensures
        ({
            let patched = chunk.try_patch_jump(start)->Ok_0;
            &&& patched.codes.len() == chunk.codes.len()
            &&& patched.constants == chunk.constants
            &&& start + 2 + short_of(patched.codes[start as int], patched.codes[start + 1])
                == chunk.codes.len()
            &&& forall|i: int|
                0 <= i < chunk.codes.len() && i != start && i != start + 1 ==> patched.codes[i]
                    == chunk.codes[i]
        }),
{
    lemma_short_round_trip(chunk.codes.len() - 2 - start);
}

/// A loop lands on its start: `emit_loop` appends a `Loop` instruction
/// whose operand is the distance from the byte after the instruction back to
/// `start`, and changes nothing before it.
pub proof fn lemma_loop_lands_on_start(chunk: ChunkView, start: u16)
    requires
        chunk.emit_loop(start) is Ok,
    ensures
        ({
            let looped = chunk.emit_loop(start)->Ok_0;
            let at = chunk.codes.len() as int;
            &&& looped.codes.len() == at + 3
            &&& looped.constants == chunk.constants
            &&& looped.codes.subrange(0, at) == chunk.codes
            &&& looped.codes[at] == Op::Loop.byte_spec()
            &&& at + 3 - short_of(looped.codes[at + 1], looped.codes[at + 2]) == start
        }),
{
    lemma_short_round_trip(chunk.loop_offset(start));
    let looped = chunk.emit_loop(start)->Ok_0;
    assert(looped.codes.subrange(0, chunk.codes.len() as int) =~= chunk.codes);
}

/// A global that has just been defined can be read: where `DefineGlobal`
/// is followed by `GetGlobal` with the same name, the value that the first
/// took from the stack is the value that the second puts there.
pub proof fn lemma_define_then_get(s: VmView, computed: u64)
    requires
        !s.halted(),
        s.op() == Some(Op::DefineGlobal),
        s.step(computed) is Ok,
        s.step(computed)->Ok_0.op() == Some(Op::GetGlobal),
        s.step(computed)->Ok_0.name() == s.name(),
    ensures
        s.step(computed)->Ok_0.step(computed) is Ok,
        s.step(computed)->Ok_0.step(computed)->Ok_0.stack.last() == s.stack.last(),
        s.step(computed)->Ok_0.step(computed)->Ok_0.stack.drop_last() == s.stack.drop_last(),
{
    let defined = s.step(computed)->Ok_0;
    let read = defined.step(computed)->Ok_0;
    assert(read.stack.drop_last() =~= s.stack.drop_last());
}

/// An assignment to a global that is not defined fails, and the machine
/// stays as it is: `SetGlobal` gives the error for every such state, and
/// `VM::step` leaves the state of a failed instruction untouched.
pub proof fn lemma_set_undefined_global_fails(s: VmView, computed: u64)
    requires
        !s.halted(),
        s.op() == Some(Op::SetGlobal),
        s.name().is_some(),
        s.stack.len() >= 1,
        !s.globals.contains_key(s.name().unwrap()),
    ensures
        s.step(computed) == Err::<VmView, Seq<char>>(undefined_variable()),
{
}

/// A capture of `count` variables has `count` variables.
pub proof fn lemma_capture_count(s: VmView, count: nat)
    ensures
        match s.capture(count) {
            Some(captured) => captured.upvalues.len() == count,
            None => true,
        },
    decreases count,
{
    if count > 0 {
        lemma_capture_count(s, (count - 1) as nat);
    }
}

/// Every closure that the machine builds has as many captured variables
/// as its function declares.
pub proof fn lemma_closure_has_declared_upvalues(s: VmView, computed: u64)
    requires
        !s.halted(),
        s.op() == Some(Op::Closure),
        s.step(computed) is Ok,
    ensures
        match s.step(computed)->Ok_0.stack.last() {
            ValueView::Closure(closure) => closure.upvalues.len()
                == closure.function.upvalue_count,
            _ => false,
        },
{
    let function = s.closure_function().unwrap();
    lemma_capture_count(s, function.upvalue_count as nat);
}

/// A call puts the callee in slot zero of the new frame: the frame's slot
/// zero is the value that was called, and the frame runs the closure that
/// the value is called as.
pub proof fn lemma_call_slot_zero(s: VmView, computed: u64)
    requires
        !s.halted(),
        s.op() == Some(Op::Call),
        s.step(computed) is Ok,
    ensures
        ({
            let called = s.step(computed)->Ok_0;
            &&& called.frames.len() == s.frames.len() + 1
            &&& called.stack == s.stack
            &&& called.frame().slot_base < called.stack.len()
            &&& VmView::callable(called.stack[called.frame().slot_base as int]) == Some(
                called.frame().closure,
            )
            &&& called.frame().ip == 0
            &&& called.stack.len() == called.frame().slot_base + 1
                + called.frame().closure.function.arity
        }),
{
}

/// The number of values that an instruction takes from the stack.
pub open spec fn taken(op: Op) -> nat {
    match op {
        Op::Pop | Op::DefineGlobal | Op::Print | Op::Not | Op::Negate => 1,
        Op::Equal
        | Op::Greater
        | Op::Less
        | Op::Add
        | Op::Subtract
        | Op::Multiply
        | Op::Divide => 2,
        _ => 0,
    }
}

/// A condition that is falsey jumps and one that is truthy goes on, and
/// neither way is the stack touched: what follows a `JumpIfFalse` whose
/// condition is falsey is not run before the place where the jump lands.
pub proof fn lemma_jump_if_false(s: VmView, computed: u64)
    requires
        !s.halted(),
        s.op() == Some(Op::JumpIfFalse),
        s.step(computed) is Ok,
    ensures
        s.forward_target().is_some(),
        s.step(computed)->Ok_0.stack == s.stack,
        s.step(computed)->Ok_0.frames.len() == s.frames.len(),
        s.step(computed)->Ok_0.ip() == if s.stack.last().is_falsey() {
            s.forward_target().unwrap()
        } else {
            s.ip() + 3
        },
        s.step(computed)->Ok_0.output == s.output,
        s.step(computed)->Ok_0.globals == s.globals,
        s.step(computed)->Ok_0.cells == s.cells,
{
}

/// Slot zero stays: an instruction that keeps the running frame, that is
/// not an assignment to local variable zero, and that takes its operands
/// from above the frame's slot zero, leaves that slot as it is.
pub proof fn lemma_slot_zero_stays(s: VmView, computed: u64)
    requires
        !s.halted(),
        s.op().is_some(),
        s.step(computed) is Ok,
        s.step(computed)->Ok_0.frames.len() == s.frames.len(),
        s.frame().slot_base + taken(s.op().unwrap()) < s.stack.len(),
        !(s.op() == Some(Op::SetLocal) && s.has_operands(1) && s.operand(0) == 0),
    ensures
        s.step(computed)->Ok_0.frame().slot_base == s.frame().slot_base,
        s.frame().slot_base < s.step(computed)->Ok_0.stack.len(),
        s.step(computed)->Ok_0.stack[s.frame().slot_base as int] == s.stack[s.frame().slot_base as int],
{
}

/// By how much an instruction that keeps the running frame changes the
/// height of the stack.
pub open spec fn stack_effect(op: Op) -> int {
    match op {
        Op::Constant
        | Op::Nil
        | Op::True
        | Op::False
        | Op::GetLocal
        | Op::GetGlobal
        | Op::GetUpvalue
        | Op::Closure => 1,
        Op::Pop
        | Op::DefineGlobal
        | Op::Equal
        | Op::Greater
        | Op::Less
        | Op::Add
        | Op::Subtract
        | Op::Multiply
        | Op::Divide
        | Op::Print => -1,
        _ => 0,
    }
}

/// Every instruction changes the height of the stack by its own fixed
/// amount. A call leaves the stack as it is and starts a frame; a return to a
/// caller leaves the result where the callee was, and the last return
/// leaves the stack without the result and the script.
pub proof fn lemma_stack_effect(s: VmView, computed: u64)
    requires
        !s.halted(),
        s.op().is_some(),
        s.step(computed) is Ok,
    ensures
        ({
            let next = s.step(computed)->Ok_0;
            if s.op() == Some(Op::Return) {
                &&& next.frames == s.frames.drop_last()
                &&& if s.frames.len() == 1 {
                    next.stack == s.stack.take(s.stack.len() - 2)
                } else {
                    next.stack == s.stack.take(s.frame().slot_base as int).push(s.stack.last())
                }
            } else if s.op() == Some(Op::Call) {
                next.frames.len() == s.frames.len() + 1 && next.stack == s.stack
            } else {
                next.frames.len() == s.frames.len() && next.stack.len() == s.stack.len()
                    + stack_effect(s.op().unwrap())
            }
        }),
{
    let next = s.step(computed)->Ok_0;
    if s.op() == Some(Op::Return) {
        assert(next.frames =~= s.frames.drop_last());
    }
}

} // verus!
